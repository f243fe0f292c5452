use myfin::dataset::Dataset;
use myfin::error::Error;
use myfin::http::{canonical_symbol, field_index, tencent_symbol, truncate, unsupported, validate_symbol};

#[test]
fn converts_canonical_symbol_for_tencent() {
    assert_eq!(tencent_symbol("600519.SH").unwrap(), "sh600519");
    assert_eq!(tencent_symbol("sz000001").unwrap(), "sz000001");
}

#[test]
fn rejects_invalid_symbol() {
    assert!(validate_symbol("tencent", "sh600519,sh000001").is_err());
}

#[test]
fn accepts_plain_symbols() {
    assert!(validate_symbol("tencent", "sh600519").is_ok());
    assert!(validate_symbol("tushare", "600519.SH").is_ok());
    assert!(validate_symbol("tencent", "").is_err());
}

#[test]
fn canonical_symbol_normalises_case_and_prefix() {
    assert_eq!(canonical_symbol("600519.sh").unwrap(), "600519.SH");
    assert_eq!(canonical_symbol("SZ000001").unwrap(), "000001.SZ");
    assert_eq!(canonical_symbol("430047.bj").unwrap(), "430047.BJ");
}

#[test]
fn canonical_symbol_rejects_malformed_codes() {
    match canonical_symbol("60051.SH") {
        Err(Error::Source { source_name, detail }) => {
            assert_eq!(source_name, "http");
            assert_eq!(detail, "无法规范化股票代码 60051.SH");
        }
        other => panic!("unexpected result: {other:?}"),
    }
    assert!(canonical_symbol("600519.HK").is_err());
    assert!(canonical_symbol("bj430047").is_err());
}

#[test]
fn canonicalising_twice_changes_nothing() {
    for raw in ["600519.sh", "sz000001", "430047.Bj"] {
        let once = canonical_symbol(raw).unwrap();
        assert_eq!(canonical_symbol(&once).unwrap(), once);
    }
}

#[test]
fn tencent_notation_round_trips_for_shanghai_and_shenzhen() {
    for raw in ["600519.SH", "000001.SZ"] {
        let tencent = tencent_symbol(raw).unwrap();
        assert_eq!(canonical_symbol(&tencent).unwrap(), raw);
    }
    let beijing = tencent_symbol("430047.BJ").unwrap();
    assert_eq!(beijing, "bj430047");
    assert!(canonical_symbol(&beijing).is_err());
}

#[test]
fn truncate_keeps_short_text_and_cuts_long_text() {
    assert_eq!(truncate("short"), "short");
    let long = "a".repeat(400);
    let cut = truncate(&long);
    assert_eq!(cut.len(), 303);
    assert!(cut.ends_with("..."));
}

#[test]
fn field_index_finds_or_names_the_missing_field() {
    let fields = vec!["ts_code".to_string(), "trade_date".to_string(), "close".to_string()];
    assert_eq!(field_index(&fields, "close", "tushare").unwrap(), 2);
    match field_index(&fields, "amount", "tushare") {
        Err(Error::Source { source_name, detail }) => {
            assert_eq!(source_name, "tushare");
            assert!(detail.contains("amount"));
        }
        other => panic!("unexpected result: {other:?}"),
    }
}

#[test]
fn unsupported_dataset_is_a_source_error() {
    let result: Result<(), Error> = unsupported("tencent", Dataset::Financial);
    match result {
        Err(Error::Source { source_name, detail }) => {
            assert_eq!(source_name, "tencent");
            assert!(detail.contains("financial"));
        }
        other => panic!("unexpected result: {other:?}"),
    }
}
