use myfin::adapter::{
    accept_token, adapter_settings, limiter_step, page_step, probe_report, select_daily_rows,
    HttpAdapterKind, PageStep,
};
use myfin::dataset::Dataset;
use myfin::date::Date;
use myfin::error::Error;
use myfin::registry::{Auth, Probe, RateLimit, SourceConfig, SourceKind};

fn date(year: i32, month: u32, day: u32) -> Date {
    Date::from_ymd_opt(year, month, day).unwrap()
}

fn config(name: &str, auth: Auth, probe: bool) -> SourceConfig {
    SourceConfig {
        name: name.to_string(),
        description: String::new(),
        kind: SourceKind::Http,
        lang: "rust".to_string(),
        package: None,
        auth,
        rate_limit: RateLimit { min_interval_ms: 500, max_calls_per_minute: None, max_calls_per_day: None, backoff_ms: 15000 },
        datasets: vec![Dataset::Daily],
        probe: if probe { Some(Probe { symbol: "sh600519".to_string(), lookback_days: 5 }) } else { None },
        notes: None,
    }
}

fn source_error(error: Error) -> (String, String) {
    match error {
        Error::Source { source_name, detail } => (source_name, detail),
        other => panic!("unexpected error: {other:?}"),
    }
}

#[test]
fn registry_entries_select_their_adapter() {
    let tencent = adapter_settings(&config("tencent", Auth::Anonymous, true)).unwrap();
    assert_eq!(tencent.kind, HttpAdapterKind::Tencent);
    assert_eq!(tencent.min_interval_ms, 500);
    assert_eq!(tencent.probe.symbol, "sh600519");
    assert!(tencent.token_env.is_none());
    let tushare = adapter_settings(&config("tushare", Auth::Token { env_var: "TUSHARE_TOKEN".to_string() }, true)).unwrap();
    assert_eq!(tushare.kind, HttpAdapterKind::Tushare);
    assert_eq!(tushare.token_env.as_deref(), Some("TUSHARE_TOKEN"));
    assert_eq!(tushare.capabilities.name, "tushare");
}

#[test]
fn adapter_settings_explain_refusals() {
    let cases = [
        (config("tencent", Auth::Anonymous, false), ("tencent", "注册表缺少 probe")),
        (config("tushare", Auth::Anonymous, true), ("tushare", "注册表应声明 token 鉴权")),
        (config("tushare", Auth::Token { env_var: "T".to_string() }, false), ("tushare", "注册表缺少 probe")),
        (config("mootdx", Auth::Anonymous, true), ("mootdx", "尚未注册 Rust HTTP 适配器")),
    ];
    for (cfg, (source, detail)) in cases {
        let (name, text) = source_error(adapter_settings(&cfg).unwrap_err());
        assert_eq!(name, source);
        assert_eq!(text, detail);
    }
}

#[test]
fn tokens_must_be_present_and_not_blank() {
    assert_eq!(accept_token("TUSHARE_TOKEN", Some("abc".to_string())).unwrap(), "abc");
    assert_eq!(source_error(accept_token("TUSHARE_TOKEN", None).unwrap_err()).1, "缺少鉴权环境变量 TUSHARE_TOKEN");
    assert_eq!(source_error(accept_token("TUSHARE_TOKEN", Some(" \t\n".to_string())).unwrap_err()).1, "鉴权环境变量 TUSHARE_TOKEN 为空");
}

#[test]
fn paging_walks_back_until_the_start() {
    let start = date(2026, 1, 1);
    let upper = date(2026, 8, 5);
    let page = [date(2026, 8, 5), date(2026, 3, 2), date(2026, 5, 6)];
    match page_step(&page, start, upper) {
        PageStep::Next(next) => assert_eq!(next, date(2026, 3, 1)),
        PageStep::Done => panic!("expected another page"),
    }
    assert!(matches!(page_step(&[], start, upper), PageStep::Done));
    assert!(matches!(page_step(&[date(2026, 1, 1)], start, upper), PageStep::Done));
    assert!(matches!(page_step(&[date(2026, 8, 6)], start, upper), PageStep::Done));
    match page_step(&[date(2026, 3, 1)], start, upper) {
        PageStep::Next(next) => assert_eq!(next, date(2026, 2, 28)),
        PageStep::Done => panic!("expected another page"),
    }
}

#[test]
fn previous_days_cross_months_and_years() {
    assert_eq!(date(2026, 3, 1).pred_opt(), Some(date(2026, 2, 28)));
    assert_eq!(date(2024, 3, 1).pred_opt(), Some(date(2024, 2, 29)));
    assert_eq!(date(2026, 1, 1).pred_opt(), Some(date(2025, 12, 31)));
    assert_eq!(date(2026, 8, 5).pred_opt(), Some(date(2026, 8, 4)));
    assert_eq!(date(-262143, 1, 1).pred_opt(), None);
}

#[test]
fn daily_rows_are_bounded_sorted_and_deduplicated() {
    let days = [date(2026, 8, 5), date(2026, 8, 3), date(2026, 8, 5), date(2026, 7, 31), date(2026, 8, 4)];
    assert_eq!(select_daily_rows(&days, Some(date(2026, 8, 1)), Some(date(2026, 8, 5))), vec![1, 4, 0]);
    assert_eq!(select_daily_rows(&days, None, None), vec![3, 1, 4, 0]);
    assert!(select_daily_rows(&[], None, None).is_empty());
}

#[test]
fn limiter_spaces_calls() {
    assert_eq!(limiter_step(0, 100, 500), (0, 600));
    assert_eq!(limiter_step(600, 200, 500), (400, 1100));
    assert_eq!(limiter_step(600, 600, 0), (0, 600));
}

#[test]
fn probe_reports_pass_empty_and_failure() {
    let ok = probe_report("tencent", 12, Ok(5), "2026-07-20", "2026-08-05");
    assert!(ok.ok);
    assert_eq!(ok.latency_ms, Some(12));
    assert!(ok.error.is_none());
    let empty = probe_report("tencent", 3, Ok(0), "2026-07-20", "2026-08-05");
    assert!(!empty.ok);
    assert_eq!(empty.error.as_deref(), Some("2026-07-20 至 2026-08-05 返回空数据"));
    let failed = probe_report("tushare", 7, Err("timeout".to_string()), "a", "b");
    assert!(!failed.ok);
    assert_eq!(failed.error.as_deref(), Some("timeout"));
}
