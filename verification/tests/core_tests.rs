use std::str::FromStr;

use myfin::dataset::Dataset;
use myfin::date::{add_months, days_in_month, is_leap_year, Date};
use myfin::error::Error;
use myfin::financial::{unknown_ann_date_is_approx, FinancialPeriodKind};
use myfin::layout::{join_path, Layout, DEFAULT_DATA_DIR};
use myfin::stage::PipelineStage;
use myfin::universe::{universe_gate, ListingWindow, UniverseExclusion};

fn date(year: i32, month: u32, day: u32) -> Date {
    Date::from_ymd_opt(year, month, day).unwrap()
}

#[test]
fn calendar_rules() {
    assert!(is_leap_year(2024));
    assert!(!is_leap_year(1900));
    assert!(is_leap_year(2000));
    assert!(is_leap_year(-4));
    assert_eq!(days_in_month(2026, 2), 28);
    assert_eq!(days_in_month(2028, 2), 29);
    assert_eq!(days_in_month(2026, 4), 30);
    assert_eq!(days_in_month(2026, 12), 31);
    assert!(Date::from_ymd_opt(2026, 2, 29).is_none());
    assert!(Date::from_ymd_opt(2026, 13, 1).is_none());
    assert!(Date::from_ymd_opt(262143, 1, 1).is_none());
    let d = date(2026, 8, 5);
    assert_eq!((d.year(), d.month(), d.day()), (2026, 8, 5));
    assert!(date(2026, 8, 4).is_before(&d));
    assert!(d.is_not_after(&d));
    assert!(!d.is_before(&d));
}

#[test]
fn add_months_moves_across_years() {
    assert_eq!(add_months(date(2025, 11, 30), 3), date(2026, 2, 28));
    assert_eq!(add_months(date(2026, 8, 5), 6), date(2027, 2, 5));
    assert_eq!(add_months(date(2026, 8, 5), 0), date(2026, 8, 5));
}

#[test]
fn dataset_names_parse_back() {
    for dataset in Dataset::ALL {
        assert_eq!(Dataset::parse_name(dataset.as_str()).unwrap(), dataset);
        assert_eq!(Dataset::from_str(dataset.as_str()).unwrap(), dataset);
    }
    assert_eq!(Dataset::EarningsNotice.as_str(), "earnings_notice");
    assert_eq!(Dataset::PriceVal.dir(), "market/daily");
    match Dataset::parse_name("weekly") {
        Err(Error::Config(message)) => assert_eq!(message, "未知数据集: weekly"),
        other => panic!("unexpected result: {other:?}"),
    }
}

#[test]
fn layout_paths() {
    let layout = Layout::new("/tmp/myfin");
    assert_eq!(layout.dataset_dir(Dataset::AdjFactor), "/tmp/myfin/market/adj_factor");
    assert_eq!(layout.dataset_year_dir(Dataset::Financial, 2026), "/tmp/myfin/financial/2026");
    assert_eq!(layout.reports_dir(), "/tmp/myfin/reports");
    assert_eq!(layout.context_path("env.json"), "/tmp/myfin/context/env.json");
    assert_eq!(layout.manifest_path(Dataset::Daily), "/tmp/myfin/sync/daily.jsonl");
    assert_eq!(layout.report_path("r.md"), "/tmp/myfin/reports/r.md");
    assert_eq!(Layout::default().root, DEFAULT_DATA_DIR);
    assert_eq!(join_path("data/", "x"), "data/x");
    assert_eq!(join_path("data", "/abs"), "/abs");
    assert_eq!(join_path("", "x"), "x");
}

#[test]
fn stage_labels_and_defaults() {
    assert_eq!(PipelineStage::ExcludeBad.label(), "exclude_bad");
    assert_eq!(PipelineStage::Output.label(), "output");
    assert_eq!(FinancialPeriodKind::default(), FinancialPeriodKind::SingleQuarter);
    assert!(unknown_ann_date_is_approx());
    match Error::source_err("tencent", "boom") {
        Error::Source { source_name, detail } => {
            assert_eq!(source_name, "tencent");
            assert_eq!(detail, "boom");
        }
        other => panic!("unexpected error: {other:?}"),
    }
}

#[test]
fn listing_windows_cover_effective_until_delisted() {
    let window = ListingWindow { effective_date: date(2020, 1, 1), delisted_date: Some(date(2026, 8, 5)) };
    assert!(window.applies_to(date(2020, 1, 1)));
    assert!(window.applies_to(date(2026, 8, 4)));
    assert!(!window.applies_to(date(2026, 8, 5)));
    assert!(!window.applies_to(date(2019, 12, 31)));
    let open = ListingWindow { effective_date: date(2020, 1, 1), delisted_date: None };
    assert!(open.applies_to(date(2030, 1, 1)));
}

#[test]
fn errors_render_their_text() {
    assert_eq!(Error::source_err("tencent", "超时").message(), "数据源错误 [tencent]: 超时");
    assert_eq!(Error::MissingData("日线".to_string()).message(), "数据缺失: 日线");
    assert_eq!(Error::Validation("x".to_string()).message(), "数据校验失败: x");
    assert_eq!(Error::Config("y".to_string()).message(), "配置错误: y");
    assert_eq!(Error::Other("z".to_string()).message(), "其他错误: z");
    let io = Error::Io(std::io::Error::new(std::io::ErrorKind::Other, "磁盘满"));
    assert_eq!(io.message(), "IO 错误: 磁盘满");
}

#[test]
fn dates_print_as_iso_text() {
    assert_eq!(date(2026, 1, 5).iso_text(), "2026-01-05");
    assert_eq!(date(999, 12, 31).iso_text(), "0999-12-31");
    assert_eq!(date(12345, 2, 3).iso_text(), "+12345-02-03");
    assert_eq!(date(-7, 3, 4).iso_text(), "-0007-03-04");
}

#[test]
fn universe_gate_reads_no_figure() {
    let as_of = date(2026, 8, 5);
    let bars = vec![("600519.SH".to_string(), date(2026, 8, 4)), ("000001.SZ".to_string(), date(2026, 8, 5))];
    assert_eq!(universe_gate("600519.SH", as_of, &bars, false, true, true), None);
    assert_eq!(universe_gate("600519.SH", date(2026, 8, 3), &bars, false, true, true), Some(UniverseExclusion::NoBarAsOf));
    assert_eq!(universe_gate("300750.SZ", as_of, &bars, false, true, true), Some(UniverseExclusion::NoBarAsOf));
    let bj = vec![("430047.BJ".to_string(), date(2026, 8, 1))];
    assert_eq!(universe_gate("430047.BJ", as_of, &bj, true, true, true), Some(UniverseExclusion::BeijingExcluded));
    assert_eq!(universe_gate("430047.BJ", as_of, &bj, true, false, true), Some(UniverseExclusion::StExcluded));
    assert_eq!(universe_gate("430047.BJ", as_of, &bj, true, false, false), None);
    assert_eq!(UniverseExclusion::BeijingExcluded.reason(), "北交所标的被配置为排除");
}
