use myfin::dataset::Dataset;
use myfin::date::Date;
use myfin::registry::{Auth, Chain, RateLimit, Registry, SourceConfig, SourceKind};
use myfin::sync::{StagingEntry, SyncStatus};
use myfin::takeover::{daily_counts, fallback_start, fallback_step, plan_sync, FallbackStep, take_over_entry, worker_args, SyncRefusal, SyncRoute};

fn source(name: &str, kind: SourceKind, datasets: Vec<Dataset>) -> SourceConfig {
    SourceConfig {
        name: name.to_string(),
        description: String::new(),
        kind,
        lang: "rust".to_string(),
        package: Some("myfin_py.sources.test".to_string()),
        auth: Auth::Anonymous,
        rate_limit: RateLimit {
            min_interval_ms: 100,
            max_calls_per_minute: None,
            max_calls_per_day: None,
            backoff_ms: 1000,
        },
        datasets,
        probe: None,
        notes: None,
    }
}

fn registry() -> Registry {
    Registry {
        version: 1,
        sources: vec![
            source("tencent", SourceKind::Http, vec![Dataset::Daily, Dataset::PriceVal]),
            source("baostock", SourceKind::PythonSdk, vec![Dataset::Daily, Dataset::Financial, Dataset::PriceVal]),
        ],
        chains: vec![(
            Dataset::Daily,
            Chain { dataset: Dataset::Daily, order: vec!["tencent".to_string(), "baostock".to_string()] },
        )],
    }
}

#[test]
fn plans_follow_the_adapter_kind() {
    let r = registry();
    match plan_sync(&r, "tencent", "daily") {
        Ok((SyncRoute::Http, Dataset::Daily)) => {}
        other => panic!("unexpected plan: {other:?}"),
    }
    match plan_sync(&r, "baostock", "financial") {
        Ok((SyncRoute::Worker, Dataset::Financial)) => {}
        other => panic!("unexpected plan: {other:?}"),
    }
}

#[test]
fn refusals_name_what_is_wrong() {
    let r = registry();
    let cases = [
        ("akshare", "daily", "注册表中不存在数据源: akshare"),
        ("tencent", "weekly", "未知数据集: weekly"),
        ("tencent", "financial", "数据源 tencent 未声明支持数据集 financial"),
        ("tencent", "price_val", "HTTP 源当前只支持 daily，同步数据集 price_val 尚未实现"),
        ("baostock", "price_val", "Python worker 当前不支持数据集 price_val 的同步接管"),
    ];
    for (src, dataset, message) in cases {
        match plan_sync(&r, src, dataset) {
            Err(refusal) => assert_eq!(refusal.message(), message),
            Ok(plan) => panic!("unexpected plan {plan:?} for {src}/{dataset}"),
        }
    }
}

#[test]
fn worker_arguments_pass_ranges_for_daily_only() {
    let args = worker_args("config/sources.toml", Dataset::Daily, "baostock", "600519.SH", "data/staging/x", Some("2026-01-01"), None).unwrap();
    assert_eq!(
        args,
        vec![
            "-m", "myfin_py.worker", "--registry", "config/sources.toml", "fetch-daily", "--source",
            "baostock", "--symbol", "600519.SH", "--out", "data/staging/x", "--start", "2026-01-01",
        ]
    );
    let plain = worker_args("r.toml", Dataset::Financial, "baostock", "600519.SH", "out", None, None).unwrap();
    assert_eq!(plain.len(), 11);
    assert_eq!(plain[4], "fetch-financial");
    match worker_args("r.toml", Dataset::Financial, "baostock", "600519.SH", "out", None, Some("2026-02-01")) {
        Err(refusal) => assert_eq!(refusal.message(), "只有 daily 支持 --start/--end"),
        Ok(args) => panic!("unexpected arguments {args:?}"),
    }
}

fn staging(symbol: &str, status: SyncStatus) -> StagingEntry {
    StagingEntry {
        dataset: Dataset::Daily,
        source: "baostock".to_string(),
        symbol: symbol.to_string(),
        rows: 7,
        status,
        updated_at: "2026-08-05T00:00:00+00:00".to_string(),
        note: None,
    }
}

#[test]
fn takes_over_the_first_matching_done_record() {
    let entries = vec![
        staging("000001.SZ", SyncStatus::Failed),
        staging("600519.SH", SyncStatus::Done),
        staging("600519.SH", SyncStatus::Failed),
    ];
    let taken = take_over_entry(&entries, Dataset::Daily, "baostock", "600519.SH").unwrap();
    assert_eq!(taken.symbol, "600519.SH");
    assert_eq!(taken.status, SyncStatus::Done);
    match take_over_entry(&entries, Dataset::Daily, "baostock", "000001.SZ") {
        Err(SyncRefusal::StagingNotDone(SyncStatus::Failed)) => {}
        other => panic!("unexpected result: {other:?}"),
    }
    match take_over_entry(&entries, Dataset::Daily, "mootdx", "600519.SH") {
        Err(refusal) => assert_eq!(refusal.message(), "staging manifest 没有匹配记录，数据目录未接管"),
        Ok(entry) => panic!("unexpected entry {entry:?}"),
    }
}

#[test]
fn daily_counts_group_rows_by_day_in_order() {
    let d = |day: u32| Date::from_ymd_opt(2026, 8, day).unwrap();
    let rows = vec![d(4), d(3), d(4), d(5), d(3), d(4)];
    let counts = daily_counts(&rows);
    assert_eq!(counts, vec![(d(3), 2), (d(4), 3), (d(5), 1)]);
    let total: u64 = counts.iter().map(|(_, n)| *n).sum();
    assert_eq!(total, rows.len() as u64);
    assert!(daily_counts(&[]).is_empty());
}

#[test]
fn fallback_tries_sources_in_order_until_one_succeeds() {
    let order = vec!["tushare".to_string(), "tencent".to_string(), "baostock".to_string()];
    let mut failures: Vec<String> = Vec::new();
    assert_eq!(fallback_start(Dataset::Daily, &order), FallbackStep::Next(0));
    let step = fallback_step(Dataset::Daily, &order, &mut failures, Err("超时".to_string()));
    assert_eq!(step, FallbackStep::Next(1));
    assert_eq!(failures, vec!["tushare: 超时".to_string()]);
    let step = fallback_step(Dataset::Daily, &order, &mut failures, Ok(()));
    assert_eq!(step, FallbackStep::Done);
    assert_eq!(failures.len(), 1);
}

#[test]
fn fallback_reports_every_failure_when_the_chain_is_exhausted() {
    let order = vec!["tushare".to_string(), "tencent".to_string()];
    let mut failures: Vec<String> = Vec::new();
    fallback_step(Dataset::Daily, &order, &mut failures, Err("a".to_string()));
    let step = fallback_step(Dataset::Daily, &order, &mut failures, Err("b".to_string()));
    assert_eq!(step, FallbackStep::Exhausted("数据集 daily 的优先级链全部失败: tushare: a；tencent: b".to_string()));
    assert_eq!(
        fallback_start(Dataset::Financial, &[]),
        FallbackStep::Exhausted("数据集 financial 的优先级链全部失败: ".to_string())
    );
}
