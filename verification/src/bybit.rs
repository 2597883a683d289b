//! Bybit kline endpoint: the request URL and the selection of close prices from a
//! response.
use vstd::prelude::*;

verus! {

/// Response structure for the Bybit kline endpoint.
#[derive(Debug, Clone)]
pub struct BybitResponse {
    pub ret_code: i64,
    pub ret_msg: String,
    pub result: BybitResult,
}

/// The `result` part of a kline response. Each row of `list` is one candle:
/// start time, open, high, low, close, volume, turnover, newest candle first.
#[derive(Debug, Clone)]
pub struct BybitResult {
    pub symbol: Option<String>,
    pub category: Option<String>,
    pub list: Vec<Vec<String>>,
}

/// Why a kline response gives no prices.
#[derive(Debug, Clone)]
pub enum KlineError {
    /// The API answered with a nonzero return code and this message.
    Api { code: i64, message: String },
}

/// The decimal digit character for `d` (0 to 9).
pub open spec fn digit_char(d: nat) -> char {
    if d == 0 {
        '0'
    } else if d == 1 {
        '1'
    } else if d == 2 {
        '2'
    } else if d == 3 {
        '3'
    } else if d == 4 {
        '4'
    } else if d == 5 {
        '5'
    } else if d == 6 {
        '6'
    } else if d == 7 {
        '7'
    } else if d == 8 {
        '8'
    } else {
        '9'
    }
}

/// Decimal representation of `n`, without sign or leading zeros ("0" for zero).
pub open spec fn decimal(n: nat) -> Seq<char>
    decreases n,
{
    if n < 10 {
        seq![digit_char(n)]
    } else {
        decimal(n / 10).push(digit_char(n % 10))
    }
}

/// Appends the digit `d` to `out`.
fn push_digit(out: &mut String, d: usize)
    requires
        d < 10,
    ensures
        final(out)@ == old(out)@.push(digit_char(d as nat)),
{
    proof {
        reveal_strlit("0");
        reveal_strlit("1");
        reveal_strlit("2");
        reveal_strlit("3");
        reveal_strlit("4");
        reveal_strlit("5");
        reveal_strlit("6");
        reveal_strlit("7");
        reveal_strlit("8");
        reveal_strlit("9");
    }
    let ghost before = out@;
    if d == 0 {
        out.append("0");
    } else if d == 1 {
        out.append("1");
    } else if d == 2 {
        out.append("2");
    } else if d == 3 {
        out.append("3");
    } else if d == 4 {
        out.append("4");
    } else if d == 5 {
        out.append("5");
    } else if d == 6 {
        out.append("6");
    } else if d == 7 {
        out.append("7");
    } else if d == 8 {
        out.append("8");
    } else {
        out.append("9");
    }
    assert(out@ =~= before.push(digit_char(d as nat)));
}

/// The number that a sequence of decimal digit characters denotes, most
/// significant digit first.
pub open spec fn digits_value(s: Seq<char>) -> int
    decreases s.len(),
{
    if s.len() == 0 {
        0
    } else {
        digits_value(s.drop_last()) * 10 + (s.last() as int - '0' as int)
    }
}

/// The digit character for `d` stands `d` places after '0'.
proof fn lemma_digit_char_value(d: nat)
    requires
        d < 10,
    ensures
        digit_char(d) as int - '0' as int == d,
        '0' <= digit_char(d) <= '9',
{
}

/// `decimal(n)` writes `n` in base ten: it is a nonempty run of the characters
/// '0' to '9' that denotes `n`, with no leading zero unless `n` is zero.
pub proof fn lemma_decimal_denotes(n: nat)
    ensures
        decimal(n).len() >= 1,
        forall|k: int| 0 <= k < decimal(n).len() ==> '0' <= #[trigger] decimal(n)[k] <= '9',
        digits_value(decimal(n)) == n,
        n > 0 ==> decimal(n)[0] != '0',
    decreases n,
{
    lemma_digit_char_value(n % 10);
    let d = decimal(n);
    if n < 10 {
        assert(d.drop_last() =~= Seq::<char>::empty());
        assert(digits_value(d.drop_last()) == 0);
        assert(d.last() == digit_char(n));
        assert(digits_value(d) == n);
    } else {
        lemma_decimal_denotes(n / 10);
        assert(d.drop_last() =~= decimal(n / 10));
        assert(d.last() == digit_char(n % 10));
        assert(digits_value(d) == digits_value(decimal(n / 10)) * 10 + (n % 10));
        assert((n / 10) * 10 + n % 10 == n);
        assert(d[0] == decimal(n / 10)[0]);
    }
}

/// Appends the decimal representation of `n` to `out`.
pub fn write_decimal(out: &mut String, n: usize)
    ensures
        final(out)@ == old(out)@ + decimal(n as nat),
    decreases n,
{
    if n >= 10 {
        write_decimal(out, n / 10);
        push_digit(out, n % 10);
        assert(final(out)@ =~= old(out)@ + decimal(n as nat));
    } else {
        push_digit(out, n);
        assert(final(out)@ =~= old(out)@ + decimal(n as nat));
    }
}

/// The URL of the spot kline request for `symbol` at `interval` with up to `limit`
/// candles.
pub open spec fn kline_url_text(symbol: Seq<char>, interval: Seq<char>, limit: nat) -> Seq<char> {
    "https://api.bybit.com/v5/market/kline?category=spot&symbol="@ + symbol + "&interval="@
        + interval + "&limit="@ + decimal(limit)
}

/// Builds the request URL for spot klines of `symbol` (e.g. "BTCUSDT") at `interval`
/// (e.g. "60" for 1h, "D" for daily), asking for `limit` candles.
pub fn kline_url(symbol: &str, interval: &str, limit: usize) -> (url: String)
    ensures
        url@ == kline_url_text(symbol@, interval@, limit as nat),
        url@ == "https://api.bybit.com/v5/market/kline?category=spot&symbol="@ + symbol@
            + "&interval="@ + interval@ + "&limit="@ + decimal(limit as nat),
{
    let mut url = String::new();
    url.append("https://api.bybit.com/v5/market/kline?category=spot&symbol=");
    url.append(symbol);
    url.append("&interval=");
    url.append(interval);
    url.append("&limit=");
    write_decimal(&mut url, limit);
    assert(url@ =~= kline_url_text(symbol@, interval@, limit as nat));
    url
}

/// The close field (the fifth) of each row that has at least five fields, in the
/// reverse of the rows' order: for the newest-first list that Bybit sends, oldest
/// candle first. Rows with fewer fields are skipped.
pub open spec fn closes_oldest_first(rows: Seq<Seq<Seq<char>>>) -> Seq<Seq<char>>
    decreases rows.len(),
{
    if rows.len() == 0 {
        seq![]
    } else {
        let rest = closes_oldest_first(rows.drop_first());
        if rows[0].len() >= 5 {
            rest.push(rows[0][4])
        } else {
            rest
        }
    }
}

/// `filter_map` of a sequence with one element put in front is the mapped front
/// element (if any) followed by the `filter_map` of the rest.
proof fn lemma_filter_map_prepend<A, B>(x: A, s: Seq<A>, f: spec_fn(A) -> Option<B>)
    ensures
        (seq![x] + s).filter_map(f) == seq![x].filter_map(f) + s.filter_map(f),
    decreases s.len(),
{
    Seq::lemma_filter_map_singleton(x, f);
    if s.len() == 0 {
        assert(seq![x] + s =~= seq![x]);
        assert(s.filter_map(f) =~= Seq::<B>::empty());
        assert(seq![x].filter_map(f) + s.filter_map(f) =~= seq![x].filter_map(f));
    } else {
        lemma_filter_map_prepend(x, s.drop_last(), f);
        assert((seq![x] + s).drop_last() =~= seq![x] + s.drop_last());
        assert((seq![x] + s).last() == s.last());
        match f(s.last()) {
            Option::Some(b) => {
                assert((seq![x] + s).filter_map(f) =~= seq![x].filter_map(f) + s.filter_map(f));
            },
            Option::None => {
                assert((seq![x] + s).filter_map(f) =~= seq![x].filter_map(f) + s.filter_map(f));
            },
        }
    }
}

/// Reversing a concatenation reverses the parts and swaps them.
proof fn lemma_reverse_append<A>(a: Seq<A>, b: Seq<A>)
    ensures
        (a + b).reverse() == b.reverse() + a.reverse(),
{
    let l = a + b;
    if l.len() == 0 {
        assert(a.len() == 0 && b.len() == 0);
        assert(a.reverse() =~= Seq::<A>::empty());
        assert(b.reverse() =~= Seq::<A>::empty());
        assert(l.reverse() =~= b.reverse() + a.reverse());
    } else {
        assert forall|i: int| 0 <= i < l.len() implies #[trigger] l.reverse()[i] == (b.reverse()
            + a.reverse())[i] by {
            if i < b.len() {
                assert(b.reverse()[i] == b[b.len() - 1 - i]);
            } else {
                assert(a.reverse()[i - b.len()] == a[a.len() - 1 - (i - b.len())]);
            }
        }
        assert(l.reverse() =~= b.reverse() + a.reverse());
    }
}

/// `filter_map` keeps exactly the elements that `filter` keeps, so both have the
/// same length.
proof fn lemma_filter_map_len_rows(rows: Seq<Seq<Seq<char>>>)
    ensures
        rows.filter_map(
            (|r: Seq<Seq<char>>|
                if r.len() >= 5 {
                    Some(r[4])
                } else {
                    None
                }),
        ).len() == rows.filter((|r: Seq<Seq<char>>| r.len() >= 5)).len(),
    decreases rows.len(),
{
    reveal(Seq::filter);
    if rows.len() > 0 {
        lemma_filter_map_len_rows(rows.drop_last());
    }
}

/// The close fields of a kline list are one per candle row with at least five
/// fields, that row's fifth field, in the reverse of the list's order: exactly what
/// keeping the fifth field of each such row and then reversing gives. In particular
/// there are as many closes as such rows, and equal closes of different candles are
/// all kept.
pub proof fn lemma_closes_one_per_candle_row(rows: Seq<Seq<Seq<char>>>)
    ensures
        closes_oldest_first(rows) == rows.filter_map(
            (|r: Seq<Seq<char>>|
                if r.len() >= 5 {
                    Some(r[4])
                } else {
                    None
                }),
        ).reverse(),
        closes_oldest_first(rows).len() == rows.filter((|r: Seq<Seq<char>>| r.len() >= 5)).len(),
    decreases rows.len(),
{
    let f = (|r: Seq<Seq<char>>|
        if r.len() >= 5 {
            Some(r[4])
        } else {
            None
        });
    lemma_filter_map_len_rows(rows);
    if rows.len() == 0 {
        assert(rows.filter_map(f) =~= Seq::<Seq<char>>::empty());
        assert(rows.filter_map(f).reverse() =~= Seq::<Seq<char>>::empty());
    } else {
        let rest = rows.drop_first();
        lemma_closes_one_per_candle_row(rest);
        assert(rows =~= seq![rows[0]] + rest);
        lemma_filter_map_prepend(rows[0], rest, f);
        let head = seq![rows[0]].filter_map(f);
        lemma_reverse_append(head, rest.filter_map(f));
        Seq::lemma_filter_map_singleton(rows[0], f);
        if rows[0].len() >= 5 {
            assert(head =~= seq![rows[0][4]]);
            assert(head.reverse() =~= seq![rows[0][4]]);
            assert(closes_oldest_first(rows) =~= rows.filter_map(f).reverse());
        } else {
            assert(head =~= Seq::<Seq<char>>::empty());
            assert(head.reverse() =~= Seq::<Seq<char>>::empty());
            assert(closes_oldest_first(rows) =~= rows.filter_map(f).reverse());
        }
    }
}

/// The close fields of a kline response, oldest candle first. A nonzero return code
/// is an error carrying the code and the API's message; otherwise every row with at
/// least five fields gives its fifth field, in the reverse of the rows' order.
pub fn kline_close_fields(resp: &BybitResponse) -> (res: Result<Vec<String>, KlineError>)
    ensures
        resp.ret_code != 0 <==> res is Err,
        res matches Err(KlineError::Api { code, message }) ==> code == resp.ret_code
            && message@ == resp.ret_msg@,
        res matches Ok(closes) ==> closes.deep_view() == closes_oldest_first(
            resp.result.list.deep_view(),
        ),
        res matches Ok(closes) ==> closes.deep_view() == resp.result.list.deep_view().filter_map(
            (|r: Seq<Seq<char>>|
                if r.len() >= 5 {
                    Some(r[4])
                } else {
                    None
                }),
        ).reverse(),
        res matches Ok(closes) ==> closes.len() == resp.result.list.deep_view().filter(
            (|r: Seq<Seq<char>>| r.len() >= 5),
        ).len(),
{
    if resp.ret_code != 0 {
        return Err(KlineError::Api { code: resp.ret_code, message: resp.ret_msg.clone() });
    }
    let rows = &resp.result.list;
    let ghost all = rows.deep_view();
    let mut closes: Vec<String> = Vec::new();
    let mut i: usize = rows.len();
    while i > 0
        invariant
            i <= rows.len(),
            all == rows.deep_view(),
            closes.deep_view() == closes_oldest_first(all.subrange(i as int, all.len() as int)),
        decreases i,
    {
        let ghost tail = all.subrange(i as int, all.len() as int);
        i = i - 1;
        let ghost here = all.subrange(i as int, all.len() as int);
        assert(here.drop_first() =~= tail);
        assert(here[0] == all[i as int]);
        let row = &rows[i];
        if row.len() >= 5 {
            let close = row[4].clone();
            let ghost before = closes.deep_view();
            closes.push(close);
            assert(closes.deep_view() =~= before.push(all[i as int][4]));
        }
    }
    assert(all.subrange(0, all.len() as int) =~= all);
    proof {
        lemma_closes_one_per_candle_row(all);
    }
    Ok(closes)
}

} // verus!
