use hierarchical_vae_trading::{
    kline_close_fields, kline_url, write_decimal, BybitResponse, BybitResult, KlineError,
};

fn row(fields: &[&str]) -> Vec<String> {
    fields.iter().map(|s| s.to_string()).collect()
}

fn response(ret_code: i64, ret_msg: &str, list: Vec<Vec<String>>) -> BybitResponse {
    BybitResponse {
        ret_code,
        ret_msg: ret_msg.to_string(),
        result: BybitResult {
            symbol: Some("BTCUSDT".to_string()),
            category: Some("spot".to_string()),
            list,
        },
    }
}

#[test]
fn url_names_symbol_interval_and_limit() {
    assert_eq!(
        kline_url("BTCUSDT", "60", 500),
        "https://api.bybit.com/v5/market/kline?category=spot&symbol=BTCUSDT&interval=60&limit=500"
    );
    assert_eq!(
        kline_url("ETHUSDT", "D", 0),
        "https://api.bybit.com/v5/market/kline?category=spot&symbol=ETHUSDT&interval=D&limit=0"
    );
}

#[test]
fn decimal_matches_std_formatting() {
    for n in [0usize, 7, 9, 10, 99, 100, 1000, 123456789, usize::MAX] {
        let mut s = String::from("x");
        write_decimal(&mut s, n);
        assert_eq!(s, format!("x{}", n));
    }
}

#[test]
fn closes_come_oldest_first() {
    let resp = response(
        0,
        "OK",
        vec![
            row(&["3", "o", "h", "l", "103.5", "v", "t"]),
            row(&["2", "o", "h", "l", "102.5", "v", "t"]),
            row(&["1", "o", "h", "l", "101.5", "v", "t"]),
        ],
    );
    let closes = kline_close_fields(&resp).unwrap();
    assert_eq!(closes, vec!["101.5", "102.5", "103.5"]);
}

#[test]
fn short_rows_are_skipped() {
    let resp = response(
        0,
        "OK",
        vec![
            row(&["3", "o", "h", "l", "103"]),
            row(&["2", "o", "h", "l"]),
            row(&[]),
            row(&["1", "o", "h", "l", "101", "v"]),
        ],
    );
    let closes = kline_close_fields(&resp).unwrap();
    assert_eq!(closes, vec!["101", "103"]);
}

#[test]
fn empty_list_gives_no_closes() {
    let resp = response(0, "OK", vec![]);
    assert!(kline_close_fields(&resp).unwrap().is_empty());
}

#[test]
fn nonzero_return_code_is_an_api_error() {
    let resp = response(10001, "params error", vec![row(&["1", "o", "h", "l", "101"])]);
    match kline_close_fields(&resp) {
        Err(KlineError::Api { code, message }) => {
            assert_eq!(code, 10001);
            assert_eq!(message, "params error");
        }
        Ok(_) => panic!("expected an API error"),
    }
}
