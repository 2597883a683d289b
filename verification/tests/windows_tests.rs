use hierarchical_vae_trading::{trailing_windows, windowed_samples, MarketRegime};

#[test]
fn trailing_windows_end_before_each_position() {
    let values = vec![1.0_f64, 2.0, 3.0, 4.0, 5.0];
    let w = trailing_windows(&values, 2);
    assert_eq!(w, vec![vec![1.0, 2.0], vec![2.0, 3.0], vec![3.0, 4.0]]);
}

#[test]
fn trailing_windows_of_short_series_are_empty() {
    let values = vec![1.0_f64, 2.0];
    assert!(trailing_windows(&values, 3).is_empty());
}

#[test]
fn zero_length_windows_one_per_position() {
    let values = vec![1_i32, 2, 3];
    let w = trailing_windows(&values, 0);
    assert_eq!(w.len(), 3);
    assert!(w.iter().all(|x| x.is_empty()));
}

#[test]
fn windowed_samples_pair_window_with_next_label() {
    let returns = vec![0.5_f64, -0.5, 1.0, -1.0, 0.25];
    let labels = vec![
        MarketRegime::Sideways,
        MarketRegime::Sideways,
        MarketRegime::Bull,
        MarketRegime::Bear,
        MarketRegime::Sideways,
    ];
    let data = windowed_samples(&returns, &labels, 2);
    assert_eq!(
        data,
        vec![
            (vec![0.5, -0.5], MarketRegime::Bull),
            (vec![-0.5, 1.0], MarketRegime::Bear),
            (vec![1.0, -1.0], MarketRegime::Sideways),
        ]
    );
}

#[test]
fn windowed_samples_have_window_length() {
    let returns: Vec<f64> = (0..99).map(|i| (i as f64).sin()).collect();
    let labels = vec![MarketRegime::Sideways; 99];
    let window = 5;
    let data = windowed_samples(&returns, &labels, window);
    assert!(!data.is_empty());
    assert_eq!(data.len(), 99 - window);
    for (x, _regime) in &data {
        assert_eq!(x.len(), window);
    }
}
