use hierarchical_vae_trading::{
    classify_window, positions_with_regime, regimes_from_signals, MarketRegime, WindowSignal,
};

fn signal(rising: bool, falling: bool, calm: bool, turbulent: bool) -> WindowSignal {
    WindowSignal { rising, falling, calm, turbulent }
}

#[test]
fn test_regime_from_index_roundtrip() {
    for i in 0..MarketRegime::COUNT {
        let r = MarketRegime::from_index(i);
        assert_eq!(r.index(), i);
    }
}

#[test]
fn index_follows_declaration_order() {
    assert_eq!(MarketRegime::Bull.index(), 0);
    assert_eq!(MarketRegime::Bear.index(), 1);
    assert_eq!(MarketRegime::Sideways.index(), 2);
}

#[test]
fn from_index_of_index_is_identity() {
    for r in [MarketRegime::Bull, MarketRegime::Bear, MarketRegime::Sideways] {
        assert_eq!(MarketRegime::from_index(r.index()), r);
    }
}

#[test]
fn from_index_past_the_end_is_sideways() {
    assert_eq!(MarketRegime::from_index(3), MarketRegime::Sideways);
    assert_eq!(MarketRegime::from_index(usize::MAX), MarketRegime::Sideways);
}

#[test]
fn classify_rising_calm_is_bull() {
    assert_eq!(classify_window(signal(true, false, true, false)), MarketRegime::Bull);
}

#[test]
fn classify_falling_turbulent_is_bear() {
    assert_eq!(classify_window(signal(false, true, false, true)), MarketRegime::Bear);
}

#[test]
fn classify_mixed_windows_are_sideways() {
    // rising but turbulent
    assert_eq!(classify_window(signal(true, false, false, true)), MarketRegime::Sideways);
    // falling but calm
    assert_eq!(classify_window(signal(false, true, true, false)), MarketRegime::Sideways);
    // flat mean
    assert_eq!(classify_window(signal(false, false, true, false)), MarketRegime::Sideways);
    // undefined statistics: every comparison false
    assert_eq!(classify_window(signal(false, false, false, false)), MarketRegime::Sideways);
}

#[test]
fn short_series_is_sideways_throughout() {
    let regimes = regimes_from_signals(4, 10, &vec![]);
    assert_eq!(regimes, vec![MarketRegime::Sideways; 4]);
}

#[test]
fn empty_series_has_no_regimes() {
    assert!(regimes_from_signals(0, 3, &vec![]).is_empty());
}

#[test]
fn warmup_positions_are_sideways_then_signals_decide() {
    let signals = vec![
        signal(true, false, true, false),
        signal(false, true, false, true),
        signal(true, false, false, true),
    ];
    let regimes = regimes_from_signals(5, 2, &signals);
    assert_eq!(
        regimes,
        vec![
            MarketRegime::Sideways,
            MarketRegime::Sideways,
            MarketRegime::Bull,
            MarketRegime::Bear,
            MarketRegime::Sideways,
        ]
    );
}

#[test]
fn zero_window_classifies_every_position() {
    let signals = vec![signal(true, false, true, false), signal(false, true, false, true)];
    let regimes = regimes_from_signals(2, 0, &signals);
    assert_eq!(regimes, vec![MarketRegime::Bull, MarketRegime::Bear]);
}

#[test]
fn positions_split_the_series() {
    let labels = vec![
        MarketRegime::Bull,
        MarketRegime::Sideways,
        MarketRegime::Bull,
        MarketRegime::Bear,
        MarketRegime::Sideways,
        MarketRegime::Bull,
    ];
    assert_eq!(positions_with_regime(&labels, MarketRegime::Bull), vec![0, 2, 5]);
    assert_eq!(positions_with_regime(&labels, MarketRegime::Bear), vec![3]);
    assert_eq!(positions_with_regime(&labels, MarketRegime::Sideways), vec![1, 4]);
    let total: usize = (0..MarketRegime::COUNT)
        .map(|i| positions_with_regime(&labels, MarketRegime::from_index(i)).len())
        .sum();
    assert_eq!(total, labels.len());
}

#[test]
fn positions_of_absent_regime_is_empty() {
    let labels = vec![MarketRegime::Bull, MarketRegime::Bull];
    assert!(positions_with_regime(&labels, MarketRegime::Bear).is_empty());
}
