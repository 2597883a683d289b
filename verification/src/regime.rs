//! Market regimes and the rule that labels each position of a return series.
use vstd::prelude::*;

verus! {

/// Market regime labels used for evaluation and conditioning.
#[derive(Debug, Clone, Copy, PartialEq, Eq, Structural)]
pub enum MarketRegime {
    Bull,
    Bear,
    Sideways,
}

/// The regime whose index is `i`; every index past the last one names `Sideways`.
pub open spec fn regime_of_index(i: nat) -> MarketRegime {
    if i == 0 {
        MarketRegime::Bull
    } else if i == 1 {
        MarketRegime::Bear
    } else {
        MarketRegime::Sideways
    }
}

impl MarketRegime {
    /// Number of regimes.
    pub const COUNT: usize = 3;

    /// Position of the regime in the order Bull, Bear, Sideways.
    pub open spec fn position(self) -> nat {
        match self {
            MarketRegime::Bull => 0,
            MarketRegime::Bear => 1,
            MarketRegime::Sideways => 2,
        }
    }

    /// Position of the regime: 0 for Bull, 1 for Bear, 2 for Sideways.
    pub fn index(&self) -> (i: usize)
        ensures
            i == self.position(),
            i < Self::COUNT,
            *self == MarketRegime::Bull ==> i == 0,
            *self == MarketRegime::Bear ==> i == 1,
            *self == MarketRegime::Sideways ==> i == 2,
    {
        match self {
            MarketRegime::Bull => 0,
            MarketRegime::Bear => 1,
            MarketRegime::Sideways => 2,
        }
    }

    /// The regime at position `i`; any `i` of 2 or more gives `Sideways`.
    pub fn from_index(i: usize) -> (r: Self)
        ensures
            r == regime_of_index(i as nat),
            i == 0 ==> r == MarketRegime::Bull,
            i == 1 ==> r == MarketRegime::Bear,
            i >= 2 ==> r == MarketRegime::Sideways,
    {
        match i {
            0 => MarketRegime::Bull,
            1 => MarketRegime::Bear,
            _ => MarketRegime::Sideways,
        }
    }
}

/// `from_index` undoes `index`: every regime is found again from its position.
pub proof fn lemma_from_index_of_index(r: MarketRegime)
    ensures
        regime_of_index(r.position()) == r,
{
}

/// `index` undoes `from_index` on every position below `COUNT`, and positions are
/// always below `COUNT`.
pub proof fn lemma_index_of_from_index(i: nat)
    ensures
        i < MarketRegime::COUNT ==> regime_of_index(i).position() == i,
        regime_of_index(i).position() < MarketRegime::COUNT,
{
}

/// What a rolling window of returns shows, as the comparisons that decide its regime:
/// the sign of the window's mean return and how its volatility stands against the
/// volatility of the whole series. For an undefined statistic (NaN) every comparison
/// is false, so `rising`/`falling` and `calm`/`turbulent` may both be false.
#[derive(Debug, Clone, Copy, PartialEq, Eq, Structural)]
pub struct WindowSignal {
    /// The window's mean return is above zero.
    pub rising: bool,
    /// The window's mean return is below zero.
    pub falling: bool,
    /// The window's volatility is at most the series' volatility.
    pub calm: bool,
    /// The window's volatility is above the series' volatility.
    pub turbulent: bool,
}

/// The regime that a window's signal stands for.
pub open spec fn regime_for(s: WindowSignal) -> MarketRegime {
    if s.rising && s.calm {
        MarketRegime::Bull
    } else if s.falling && s.turbulent {
        MarketRegime::Bear
    } else {
        MarketRegime::Sideways
    }
}

/// Bull for a rising, calm window; Bear for a falling, turbulent one; Sideways otherwise.
pub fn classify_window(s: WindowSignal) -> (r: MarketRegime)
    ensures
        r == regime_for(s),
        r == MarketRegime::Bull <==> s.rising && s.calm,
        r == MarketRegime::Bear <==> s.falling && s.turbulent && !(s.rising && s.calm),
{
    if s.rising && s.calm {
        MarketRegime::Bull
    } else if s.falling && s.turbulent {
        MarketRegime::Bear
    } else {
        MarketRegime::Sideways
    }
}

/// Number of positions of a series of `n_returns` returns that are classified from
/// a window, that is, all positions from `window` on.
pub open spec fn classified_count(n_returns: nat, window: nat) -> nat {
    if n_returns >= window {
        (n_returns - window) as nat
    } else {
        0
    }
}

/// The regime at position `i` of a series whose windows gave `signals`: the first
/// `window` positions have no full window behind them and are Sideways; position `i`
/// from `window` on takes the regime of `signals[i - window]`.
pub open spec fn regime_at(window: nat, signals: Seq<WindowSignal>, i: int) -> MarketRegime {
    if i < window {
        MarketRegime::Sideways
    } else {
        regime_for(signals[i - window])
    }
}

/// Each position is labelled from its own window alone: positions before `window`
/// are Sideways, and position `i` from `window` on is Bull exactly when its window
/// is rising and calm, Bear exactly when it is falling and turbulent (and not rising
/// and calm), and Sideways otherwise, whatever the neighbouring windows show.
pub proof fn lemma_regime_depends_only_on_own_window(window: nat, signals: Seq<WindowSignal>, i: int)
    requires
        0 <= i,
        i >= window ==> i - window < signals.len(),
    ensures
        i < window ==> regime_at(window, signals, i) == MarketRegime::Sideways,
        i >= window ==> {
            let sig = signals[i - window];
            let r = regime_at(window, signals, i);
            &&& (r == MarketRegime::Bull <==> sig.rising && sig.calm)
            &&& (r == MarketRegime::Bear <==> sig.falling && sig.turbulent && !(sig.rising
                && sig.calm))
        },
{
}

/// Labels each of `n_returns` positions of a return series. `signals[k]` describes the
/// window of the `window` returns before position `window + k`. A series shorter than
/// `window` is Sideways throughout; otherwise the first `window` positions are Sideways
/// and the rest follow their signals.
pub fn regimes_from_signals(n_returns: usize, window: usize, signals: &Vec<WindowSignal>) -> (res:
    Vec<MarketRegime>)
    requires
        signals.len() == classified_count(n_returns as nat, window as nat),
    ensures
        res.len() == n_returns,
        forall|i: int| 0 <= i < n_returns ==> #[trigger] res@[i] == regime_at(window as nat, signals@, i),
        forall|i: int| 0 <= i < n_returns && i < window ==> #[trigger] res@[i] == MarketRegime::Sideways,
        forall|i: int|
            window <= i < n_returns ==> {
                let sig = signals@[i - window];
                &&& (#[trigger] res@[i] == MarketRegime::Bull <==> sig.rising && sig.calm)
                &&& (res@[i] == MarketRegime::Bear <==> sig.falling && sig.turbulent && !(sig.rising
                    && sig.calm))
            },
{
    let mut res: Vec<MarketRegime> = Vec::with_capacity(n_returns);
    let mut i: usize = 0;
    while i < n_returns
        invariant
            i <= n_returns,
            res.len() == i,
            signals.len() == classified_count(n_returns as nat, window as nat),
            forall|j: int| 0 <= j < i ==> #[trigger] res@[j] == regime_at(window as nat, signals@, j),
        decreases n_returns - i,
    {
        if i < window {
            res.push(MarketRegime::Sideways);
        } else {
            let r = classify_window(signals[i - window]);
            res.push(r);
        }
        i = i + 1;
    }
    proof {
        assert forall|j: int| 0 <= j < n_returns implies {
            let r = #[trigger] res@[j];
            &&& (j < window ==> r == MarketRegime::Sideways)
            &&& (window <= j ==> {
                let sig = signals@[j - window];
                &&& (r == MarketRegime::Bull <==> sig.rising && sig.calm)
                &&& (r == MarketRegime::Bear <==> sig.falling && sig.turbulent && !(sig.rising
                    && sig.calm))
            })
        } by {
            lemma_regime_depends_only_on_own_window(window as nat, signals@, j);
        }
    }
    res
}

/// `ps` lists, in increasing order, exactly the positions at which `labels` holds `r`.
pub open spec fn lists_positions(labels: Seq<MarketRegime>, r: MarketRegime, ps: Seq<usize>) -> bool {
    &&& forall|j: int, k: int| 0 <= j < k < ps.len() ==> ps[j] < ps[k]
    &&& forall|j: int| 0 <= j < ps.len() ==> #[trigger] ps[j] < labels.len() && labels[ps[j] as int] == r
    &&& forall|i: int| 0 <= i < labels.len() && #[trigger] labels[i] == r ==> ps.contains(i as usize)
}

/// Positions at which `labels` holds `regime`, in increasing order: each listed position
/// holds `regime`, and each position that holds `regime` is listed.
pub fn positions_with_regime(labels: &Vec<MarketRegime>, regime: MarketRegime) -> (res: Vec<usize>)
    ensures
        lists_positions(labels@, regime, res@),
        forall|j: int, k: int| 0 <= j < k < res.len() ==> res@[j] < res@[k],
        forall|j: int| 0 <= j < res.len() ==> #[trigger] res@[j] < labels.len()
            && labels@[res@[j] as int] == regime,
        forall|i: int| 0 <= i < labels.len() && #[trigger] labels@[i] == regime ==> res@.contains(
            i as usize,
        ),
{
    let mut res: Vec<usize> = Vec::new();
    let mut i: usize = 0;
    while i < labels.len()
        invariant
            i <= labels.len(),
            forall|j: int, k: int| 0 <= j < k < res.len() ==> res@[j] < res@[k],
            forall|j: int| 0 <= j < res.len() ==> #[trigger] res@[j] < i && labels@[res@[j] as int]
                == regime,
            forall|m: int| 0 <= m < i && #[trigger] labels@[m] == regime ==> res@.contains(
                m as usize,
            ),
        decreases labels.len() - i,
    {
        let ghost before = res@;
        if labels[i] == regime {
            res.push(i);
        }
        assert forall|m: int| 0 <= m < i + 1 && #[trigger] labels@[m] == regime implies res@.contains(
            m as usize,
        ) by {
            if m == i {
                assert(res@[res.len() - 1] == i);
            } else {
                let k = choose|k: int| 0 <= k < before.len() && before[k] == m as usize;
                assert(res@[k] == before[k]);
            }
        }
        i = i + 1;
    }
    res
}

/// The position lists of the regimes split the series: every position is listed
/// under its own regime and under no other.
pub proof fn lemma_positions_partition(
    labels: Seq<MarketRegime>,
    r1: MarketRegime,
    ps1: Seq<usize>,
    r2: MarketRegime,
    ps2: Seq<usize>,
    i: int,
)
    requires
        lists_positions(labels, r1, ps1),
        lists_positions(labels, r2, ps2),
        r1 != r2,
        0 <= i < labels.len(),
    ensures
        !(ps1.contains(i as usize) && ps2.contains(i as usize)),
        labels[i] == r1 ==> ps1.contains(i as usize),
        labels[i] == r2 ==> ps2.contains(i as usize),
{
    if ps1.contains(i as usize) && ps2.contains(i as usize) {
        let a = choose|a: int| 0 <= a < ps1.len() && ps1[a] == i as usize;
        let b = choose|b: int| 0 <= b < ps2.len() && ps2[b] == i as usize;
        assert(labels[ps1[a] as int] == r1);
        assert(labels[ps2[b] as int] == r2);
    }
}

} // verus!
