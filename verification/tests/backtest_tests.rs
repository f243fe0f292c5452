use myfin::backtest::{
    allocate_positions, first_exit, month_end_dates, nth_bar_after, status_at, BarDay,
    CandidateBars, DayStatus,
};
use myfin::date::{add_months, Date};
use myfin::periods::{latest_reports, Announcement};

fn date(year: i32, month: u32, day: u32) -> Date {
    Date::from_ymd_opt(year, month, day).unwrap()
}

fn bar(symbol: &str, year: i32, month: u32, day: u32) -> BarDay {
    BarDay { symbol: symbol.to_string(), trade_date: date(year, month, day) }
}

#[test]
fn rebuilds_month_end_dates() {
    let mut input = CandidateBars {
        symbol: "600519.SH".to_string(),
        bars: vec![
            bar("600519.SH", 2026, 1, 30),
            bar("600519.SH", 2026, 1, 31),
            bar("600519.SH", 2026, 2, 27),
        ],
    };
    input.bars.push(bar("000001.SZ", 2026, 2, 28));
    assert_eq!(
        month_end_dates(&[input], None, None),
        vec![date(2026, 1, 31), date(2026, 2, 27)]
    );
}

#[test]
fn handles_month_end_and_return_statistics() {
    assert_eq!(add_months(date(2024, 2, 29), 12), date(2025, 2, 28));
}

#[test]
fn month_end_dates_respect_bounds_and_merge_candidates() {
    let first = CandidateBars {
        symbol: "600519.SH".to_string(),
        bars: vec![
            bar("600519.SH", 2026, 3, 2),
            bar("600519.SH", 2026, 1, 15),
            bar("600519.SH", 2026, 2, 10),
        ],
    };
    let second = CandidateBars {
        symbol: "000001.SZ".to_string(),
        bars: vec![bar("000001.SZ", 2026, 2, 26), bar("000001.SZ", 2026, 3, 31)],
    };
    let candidates = [first, second];
    assert_eq!(
        month_end_dates(&candidates, None, None),
        vec![date(2026, 1, 15), date(2026, 2, 26), date(2026, 3, 31)]
    );
    assert_eq!(
        month_end_dates(&candidates, Some(date(2026, 2, 1)), Some(date(2026, 3, 30))),
        vec![date(2026, 2, 26), date(2026, 3, 2)]
    );
    assert!(month_end_dates(&[], None, None).is_empty());
}

#[test]
fn add_months_clamps_to_the_last_day() {
    assert_eq!(add_months(date(2026, 1, 31), 1), date(2026, 2, 28));
    assert_eq!(add_months(date(2024, 1, 31), 1), date(2024, 2, 29));
    assert_eq!(add_months(date(2025, 8, 31), 6), date(2026, 2, 28));
    assert_eq!(add_months(date(2026, 3, 15), 0), date(2026, 3, 15));
}

#[test]
fn allocation_caps_positions_and_industries() {
    let industries = vec![
        Some("bank".to_string()),
        Some("bank".to_string()),
        None,
        Some("steel".to_string()),
        Some("bank".to_string()),
        None,
    ];
    assert_eq!(
        allocate_positions(&industries, 3, 1),
        vec![true, false, true, true, false, false]
    );
    assert_eq!(
        allocate_positions(&industries, 10, 2),
        vec![true, true, true, true, false, true]
    );
    assert_eq!(allocate_positions(&industries, 0, 5), vec![false; 6]);
}

#[test]
fn execution_bar_is_the_lag_th_after_the_signal() {
    let bars = vec![
        bar("600519.SH", 2026, 2, 3),
        bar("600519.SH", 2026, 1, 30),
        bar("000001.SZ", 2026, 2, 2),
        bar("600519.SH", 2026, 2, 2),
    ];
    let signal = date(2026, 1, 30);
    assert_eq!(nth_bar_after(&bars, "600519.SH", signal, 1), Some(3));
    assert_eq!(nth_bar_after(&bars, "600519.SH", signal, 0), Some(3));
    assert_eq!(nth_bar_after(&bars, "600519.SH", signal, 2), Some(0));
    assert_eq!(nth_bar_after(&bars, "600519.SH", signal, 3), None);
}

#[test]
fn exit_is_the_first_sellable_bar_on_or_after_the_target() {
    let bars = vec![
        bar("600519.SH", 2026, 8, 5),
        bar("600519.SH", 2026, 8, 3),
        bar("600519.SH", 2026, 8, 4),
        bar("600519.SH", 2026, 7, 31),
    ];
    let statuses = vec![
        DayStatus { trade_date: date(2026, 8, 3), is_suspended: true, is_limit_up: false, is_limit_down: false },
        DayStatus { trade_date: date(2026, 8, 4), is_suspended: false, is_limit_up: false, is_limit_down: false },
        DayStatus { trade_date: date(2026, 8, 5), is_suspended: false, is_limit_up: false, is_limit_down: false },
        DayStatus { trade_date: date(2026, 7, 31), is_suspended: false, is_limit_up: false, is_limit_down: false },
    ];
    assert_eq!(status_at(&statuses, date(2026, 8, 4)), Some(1));
    assert_eq!(status_at(&statuses, date(2026, 8, 6)), None);
    assert_eq!(first_exit(&bars, &statuses, "600519.SH", date(2026, 8, 1)), Some(2));
    assert_eq!(first_exit(&bars, &statuses[..1], "600519.SH", date(2026, 8, 1)), None);
}

#[test]
fn each_period_shows_its_latest_announcement_as_of_a_day() {
    let record = |period: (i32, u32, u32), ann: (i32, u32, u32)| Announcement {
        report_period: date(period.0, period.1, period.2),
        ann_date: date(ann.0, ann.1, ann.2),
    };
    let records = vec![
        record((2026, 3, 31), (2026, 4, 28)),
        record((2025, 12, 31), (2026, 3, 20)),
        record((2026, 3, 31), (2026, 5, 10)),
        record((2026, 3, 31), (2026, 5, 10)),
        record((2026, 6, 30), (2026, 8, 20)),
        record((2025, 12, 31), (2026, 2, 1)),
    ];
    assert_eq!(latest_reports(&records, date(2026, 5, 1)), vec![1, 0]);
    assert_eq!(latest_reports(&records, date(2026, 6, 30)), vec![1, 2]);
    assert_eq!(latest_reports(&records, date(2026, 9, 1)), vec![1, 2, 4]);
    assert!(latest_reports(&records, date(2025, 1, 1)).is_empty());
}

#[test]
fn backtest_defaults() {
    assert_eq!(myfin::backtest::default_execution_lag(), 1);
    assert_eq!(myfin::backtest::default_max_positions(), 20);
}
