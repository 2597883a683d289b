//! Training schedule decisions: the KL warmup weight of each epoch and the epochs
//! whose averages are reported.
use vstd::prelude::*;

verus! {

/// A KL weight `numerator / denominator`, held exactly as a fraction.
#[derive(Debug, Clone, Copy, PartialEq, Eq, Structural)]
pub struct KlWeight {
    pub numerator: usize,
    pub denominator: usize,
}

/// The KL weight of `epoch`: during the first `warmup_epochs` epochs it rises
/// linearly as `epoch / warmup_epochs`; from then on, and always when there is no
/// warmup, it is 1.
pub open spec fn spec_kl_weight(epoch: nat, warmup_epochs: nat) -> KlWeight {
    if warmup_epochs > 0 && epoch < warmup_epochs {
        KlWeight { numerator: epoch as usize, denominator: warmup_epochs as usize }
    } else {
        KlWeight { numerator: 1, denominator: 1 }
    }
}

/// During warmup the weight is exactly `epoch / warmup_epochs` (as a value: the
/// cross products agree), and outside warmup it is exactly 1, for every warmup
/// length.
pub proof fn lemma_kl_weight_is_epoch_over_warmup(epoch: nat, warmup_epochs: nat)
    requires
        epoch <= usize::MAX,
        warmup_epochs <= usize::MAX,
    ensures
        warmup_epochs > 0 && epoch < warmup_epochs ==> {
            let w = spec_kl_weight(epoch, warmup_epochs);
            &&& w.denominator > 0
            &&& w.numerator * warmup_epochs == epoch * w.denominator
        },
        !(warmup_epochs > 0 && epoch < warmup_epochs) ==> {
            let w = spec_kl_weight(epoch, warmup_epochs);
            &&& w.denominator > 0
            &&& w.numerator == w.denominator
        },
{
    if warmup_epochs > 0 && epoch < warmup_epochs {
        let w = spec_kl_weight(epoch, warmup_epochs);
        assert(w.numerator * warmup_epochs == epoch * w.denominator) by (nonlinear_arith)
            requires
                w.numerator == epoch,
                w.denominator == warmup_epochs,
        ;
    }
}

/// Weight of the KL terms in the loss of `epoch` under linear warmup over
/// `warmup_epochs` epochs.
pub fn kl_weight(epoch: usize, warmup_epochs: usize) -> (w: KlWeight)
    ensures
        w == spec_kl_weight(epoch as nat, warmup_epochs as nat),
        warmup_epochs > 0 && epoch < warmup_epochs ==> w.denominator > 0 && w.numerator
            * warmup_epochs == epoch * w.denominator,
        !(warmup_epochs > 0 && epoch < warmup_epochs) ==> w.numerator == w.denominator
            && w.denominator > 0,
{
    proof {
        lemma_kl_weight_is_epoch_over_warmup(epoch as nat, warmup_epochs as nat);
    }
    if warmup_epochs > 0 && epoch < warmup_epochs {
        KlWeight { numerator: epoch, denominator: warmup_epochs }
    } else {
        KlWeight { numerator: 1, denominator: 1 }
    }
}

/// The weight lies in [0, 1] and is a proper fraction.
pub proof fn lemma_kl_weight_in_unit_range(epoch: nat, warmup_epochs: nat)
    requires
        epoch <= usize::MAX,
        warmup_epochs <= usize::MAX,
    ensures
        spec_kl_weight(epoch, warmup_epochs).denominator > 0,
        spec_kl_weight(epoch, warmup_epochs).numerator <= spec_kl_weight(
            epoch,
            warmup_epochs,
        ).denominator,
{
}

/// Warmup starts from 0 and ends at 1: the first epoch of a warmup has weight 0,
/// and every epoch from `warmup_epochs` on has weight exactly 1.
pub proof fn lemma_kl_weight_endpoints(epoch: nat, warmup_epochs: nat)
    requires
        epoch <= usize::MAX,
        warmup_epochs <= usize::MAX,
    ensures
        warmup_epochs > 0 ==> spec_kl_weight(0, warmup_epochs).numerator == 0,
        epoch >= warmup_epochs ==> spec_kl_weight(epoch, warmup_epochs).numerator == spec_kl_weight(
            epoch,
            warmup_epochs,
        ).denominator,
{
}

/// The weight never decreases from one epoch to a later one.
pub proof fn lemma_kl_weight_monotone(e1: nat, e2: nat, warmup_epochs: nat)
    requires
        e1 <= e2 <= usize::MAX,
        warmup_epochs <= usize::MAX,
    ensures
        spec_kl_weight(e1, warmup_epochs).numerator * spec_kl_weight(e2, warmup_epochs).denominator
            <= spec_kl_weight(e2, warmup_epochs).numerator * spec_kl_weight(
            e1,
            warmup_epochs,
        ).denominator,
{
    let w1 = spec_kl_weight(e1, warmup_epochs);
    let w2 = spec_kl_weight(e2, warmup_epochs);
    if warmup_epochs > 0 && e2 < warmup_epochs {
        assert(w1.numerator * w2.denominator <= w2.numerator * w1.denominator) by (nonlinear_arith)
            requires
                w1.numerator == e1,
                w2.numerator == e2,
                w1.denominator == warmup_epochs,
                w2.denominator == warmup_epochs,
                e1 <= e2,
        ;
    } else if warmup_epochs > 0 && e1 < warmup_epochs {
        assert(w1.numerator * w2.denominator <= w2.numerator * w1.denominator) by (nonlinear_arith)
            requires
                w1.numerator == e1,
                w1.denominator == warmup_epochs,
                w2.numerator == 1,
                w2.denominator == 1,
                e1 < warmup_epochs,
        ;
    }
}

/// Whether the averages of `epoch` are reported: every tenth epoch, counting from
/// the first, and the last epoch.
pub fn should_report_epoch(epoch: usize, epochs: usize) -> (b: bool)
    requires
        epoch < epochs,
    ensures
        b == (epoch % 10 == 0 || epoch == epochs - 1),
{
    epoch % 10 == 0 || epoch == epochs - 1
}

} // verus!
