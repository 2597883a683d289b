use hierarchical_vae_trading::{kl_weight, should_report_epoch, KlWeight};

fn ratio(w: KlWeight) -> f64 {
    w.numerator as f64 / w.denominator as f64
}

#[test]
fn warmup_rises_linearly_from_zero() {
    assert_eq!(kl_weight(0, 9), KlWeight { numerator: 0, denominator: 9 });
    assert_eq!(kl_weight(3, 9), KlWeight { numerator: 3, denominator: 9 });
    assert_eq!(kl_weight(8, 9), KlWeight { numerator: 8, denominator: 9 });
}

#[test]
fn weight_is_one_after_warmup() {
    assert_eq!(kl_weight(9, 9), KlWeight { numerator: 1, denominator: 1 });
    assert_eq!(kl_weight(29, 9), KlWeight { numerator: 1, denominator: 1 });
}

#[test]
fn weight_is_one_without_warmup() {
    assert_eq!(kl_weight(0, 0), KlWeight { numerator: 1, denominator: 1 });
    assert_eq!(kl_weight(5, 0), KlWeight { numerator: 1, denominator: 1 });
}

#[test]
fn weight_never_decreases_and_stays_in_unit_range() {
    let mut prev = 0.0;
    for e in 0..30 {
        let b = ratio(kl_weight(e, 9));
        assert!(b >= prev);
        assert!((0.0..=1.0).contains(&b));
        prev = b;
    }
}

#[test]
fn report_every_tenth_and_last_epoch() {
    let reported: Vec<usize> = (0..30).filter(|&e| should_report_epoch(e, 30)).collect();
    assert_eq!(reported, vec![0, 10, 20, 29]);
    let reported: Vec<usize> = (0..10).filter(|&e| should_report_epoch(e, 10)).collect();
    assert_eq!(reported, vec![0, 9]);
    assert!(should_report_epoch(0, 1));
}
