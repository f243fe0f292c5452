use myfin::http::canonical_symbol;
use myfin::symbol::{Exchange, Market, Symbol};

#[test]
fn infer_exchange() {
    assert_eq!(Symbol::from_code("600519").unwrap().exchange, Exchange::Sse);
    assert_eq!(
        Symbol::from_code("000001").unwrap().exchange,
        Exchange::Szse
    );
    assert_eq!(
        Symbol::from_code("300750").unwrap().exchange,
        Exchange::Szse
    );
    assert_eq!(Symbol::from_code("430047").unwrap().exchange, Exchange::Bse);
    assert!(Symbol::from_code("123456").is_none());
}

#[test]
fn infer_market() {
    assert_eq!(Symbol::from_code("688981").unwrap().market(), Market::Star);
    assert_eq!(
        Symbol::from_code("600519").unwrap().market(),
        Market::MainSse
    );
    assert_eq!(
        Symbol::from_code("300750").unwrap().market(),
        Market::ChiNext
    );
    assert_eq!(Symbol::from_code("430047").unwrap().market(), Market::Bse);
}

#[test]
fn codes_of_other_lengths_have_no_exchange() {
    assert!(Symbol::from_code("60051").is_none());
    assert!(Symbol::from_code("6005190").is_none());
    assert!(Symbol::from_code("").is_none());
}

#[test]
fn other_prefixes_pick_their_exchange() {
    assert_eq!(Symbol::from_code("900901").unwrap().exchange, Exchange::Sse);
    assert_eq!(Symbol::from_code("830799").unwrap().exchange, Exchange::Bse);
    assert_eq!(Symbol::from_code("301269").unwrap().market(), Market::ChiNext);
    assert_eq!(Symbol::from_code("002594").unwrap().market(), Market::MainSzse);
}

#[test]
fn ts_code_joins_code_and_suffix() {
    assert_eq!(Symbol::from_code("600519").unwrap().ts_code(), "600519.SH");
    assert_eq!(Symbol::new("000001", Exchange::Szse).ts_code(), "000001.SZ");
    assert_eq!(Symbol::from_code("430047").unwrap().ts_code(), "430047.BJ");
}

#[test]
fn ts_code_is_already_canonical() {
    for code in ["600519", "000001", "430047"] {
        let ts = Symbol::from_code(code).unwrap().ts_code();
        assert_eq!(canonical_symbol(&ts).unwrap(), ts);
    }
}

#[test]
fn beijing_920_segment_and_unknown_prefixes() {
    assert_eq!(Symbol::from_code("920118").unwrap().exchange, Exchange::Bse);
    assert_eq!(Symbol::from_code("920118").unwrap().ts_code(), "920118.BJ");
    assert_eq!(Symbol::from_code("870001").unwrap().exchange, Exchange::Bse);
    assert_eq!(Symbol::from_code("900957").unwrap().exchange, Exchange::Sse);
    assert!(Symbol::from_code("610001").is_none());
    assert!(Symbol::from_code("400001").is_none());
    assert!(Symbol::from_code("010001").is_none());
}
