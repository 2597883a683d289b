//! Trailing windows over a series, and labelled training samples built from them.
use vstd::prelude::*;

use crate::regime::MarketRegime;

verus! {

/// Number of full trailing windows of length `window` in a series of length `n`:
/// one for each position from `window` on.
pub open spec fn window_count(n: nat, window: nat) -> nat {
    if n >= window {
        (n - window) as nat
    } else {
        0
    }
}

/// There is one window for each position from `window` to the end of the series,
/// and none when the series is shorter than `window`: the count plus `window` is
/// the series length, with no upper bound on it.
pub proof fn lemma_one_window_per_position(n: nat, window: nat)
    ensures
        n >= window ==> window_count(n, window) + window == n,
        n < window ==> window_count(n, window) == 0,
{
}

/// Copies `values[start..end]`.
fn copy_range<T: Copy>(values: &Vec<T>, start: usize, end: usize) -> (res: Vec<T>)
    requires
        start <= end <= values.len(),
    ensures
        res@ == values@.subrange(start as int, end as int),
{
    let mut res: Vec<T> = Vec::with_capacity(end - start);
    let mut i: usize = start;
    while i < end
        invariant
            start <= i <= end <= values.len(),
            res@ == values@.subrange(start as int, i as int),
        decreases end - i,
    {
        res.push(values[i]);
        assert(res@ =~= values@.subrange(start as int, i + 1));
        i = i + 1;
    }
    res
}

/// For each position `i` from `window` to the end of `values`, the `window` values
/// just before it: `values[i - window..i]`. The k-th window ends just before
/// position `window + k`; a series shorter than `window` has none.
pub fn trailing_windows<T: Copy>(values: &Vec<T>, window: usize) -> (res: Vec<Vec<T>>)
    ensures
        res.len() == window_count(values.len() as nat, window as nat),
        forall|k: int|
            0 <= k < res.len() ==> #[trigger] res@[k]@ == values@.subrange(k, k + window)
                && res@[k].len() == window,
        values.len() >= window ==> res.len() + window == values.len(),
        values.len() < window ==> res.len() == 0,
        forall|p: int|
            window <= p < values.len() ==> #[trigger] res@[p - window]@ == values@.subrange(
                p - window,
                p,
            ),
{
    proof {
        lemma_one_window_per_position(values.len() as nat, window as nat);
    }
    let mut res: Vec<Vec<T>> = Vec::new();
    if values.len() < window {
        return res;
    }
    let n = values.len() - window;
    let mut k: usize = 0;
    while k < n
        invariant
            n + window == values.len(),
            k <= n,
            res.len() == k,
            forall|j: int| 0 <= j < k ==> #[trigger] res@[j]@ == values@.subrange(j, j + window),
        decreases n - k,
    {
        let w = copy_range(values, k, k + window);
        res.push(w);
        k = k + 1;
    }
    res
}

/// Training samples from a normalised return series and the regime of each of its
/// positions: for each position `i` from `window` on, the `window` returns before
/// `i` together with the regime at `i`. When there is at least one sample, `labels`
/// must cover every position of the series.
pub fn windowed_samples<T: Copy>(
    norm_returns: &Vec<T>,
    labels: &Vec<MarketRegime>,
    window: usize,
) -> (res: Vec<(Vec<T>, MarketRegime)>)
    requires
        norm_returns.len() > window ==> labels.len() >= norm_returns.len(),
    ensures
        res.len() == window_count(norm_returns.len() as nat, window as nat),
        forall|k: int|
            0 <= k < res.len() ==> (#[trigger] res@[k]).0@ == norm_returns@.subrange(k, k + window)
                && res@[k].0.len() == window && res@[k].1 == labels@[k + window],
        norm_returns.len() >= window ==> res.len() + window == norm_returns.len(),
        norm_returns.len() < window ==> res.len() == 0,
        forall|p: int|
            window <= p < norm_returns.len() ==> (#[trigger] res@[p - window]).0@
                == norm_returns@.subrange(p - window, p) && res@[p - window].1 == labels@[p],
{
    proof {
        lemma_one_window_per_position(norm_returns.len() as nat, window as nat);
    }
    let mut res: Vec<(Vec<T>, MarketRegime)> = Vec::new();
    if norm_returns.len() <= window {
        return res;
    }
    let n = norm_returns.len() - window;
    let mut k: usize = 0;
    while k < n
        invariant
            n + window == norm_returns.len(),
            labels.len() >= norm_returns.len(),
            k <= n,
            res.len() == k,
            forall|j: int|
                0 <= j < k ==> (#[trigger] res@[j]).0@ == norm_returns@.subrange(j, j + window)
                    && res@[j].1 == labels@[j + window],
        decreases n - k,
    {
        let x = copy_range(norm_returns, k, k + window);
        res.push((x, labels[k + window]));
        k = k + 1;
    }
    res
}

} // verus!
