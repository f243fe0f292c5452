use myfin::dataset::Dataset;
use myfin::date::Date;
use myfin::sync::{StagingEntry, StagingManifest, SyncEntry, SyncManifest, SyncStatus};

fn date(year: i32, month: u32, day: u32) -> Date {
    Date::from_ymd_opt(year, month, day).unwrap()
}

fn entry(source: &str, day: Date, status: SyncStatus, rows: u64) -> SyncEntry {
    SyncEntry {
        dataset: Dataset::Daily,
        source: source.to_string(),
        trade_date: day,
        status,
        rows,
        updated_at: "2026-08-05T00:00:00+00:00".to_string(),
        note: None,
    }
}

#[test]
fn record_and_missing() {
    let mut m = SyncManifest::default();
    let d1 = date(2026, 8, 3);
    let d2 = date(2026, 8, 4);
    m.insert(SyncEntry::done(Dataset::Daily, "baostock", d1, 5400, "2026-08-05T07:30:12+00:00".to_string()));
    let expected = vec![d1, d2];
    let missing = m.missing_dates(Dataset::Daily, "baostock", &expected);
    assert_eq!(missing, vec![d2]);
    assert!(m.status(Dataset::Daily, "baostock", d1).is_some());
}

#[test]
fn a_recorded_entry_is_read_back_and_replaces_the_old_one() {
    let mut m = SyncManifest::default();
    let day = date(2026, 8, 3);
    m.insert(entry("tencent", day, SyncStatus::Failed, 0));
    m.insert(entry("tencent", day, SyncStatus::Done, 5300));
    let found = m.status(Dataset::Daily, "tencent", day).unwrap();
    assert_eq!(found.status, SyncStatus::Done);
    assert_eq!(found.rows, 5300);
    assert_eq!(m.entries().len(), 1);
    assert!(m.status(Dataset::Daily, "tushare", day).is_none());
    assert!(m.status(Dataset::AdjFactor, "tencent", day).is_none());
}

#[test]
fn only_done_days_stop_being_missing() {
    let mut m = SyncManifest::default();
    let days = [date(2026, 8, 3), date(2026, 8, 4), date(2026, 8, 5)];
    m.insert(entry("mootdx", days[0], SyncStatus::Done, 10));
    m.insert(entry("mootdx", days[1], SyncStatus::Partial, 5));
    m.insert(entry("tencent", days[2], SyncStatus::Done, 10));
    assert_eq!(m.missing_dates(Dataset::Daily, "mootdx", &days), vec![days[1], days[2]]);
    assert_eq!(m.missing_dates(Dataset::Daily, "akshare", &days), days.to_vec());
}

#[test]
fn failed_and_partial_entries_block() {
    let mut m = SyncManifest::default();
    m.insert(entry("mootdx", date(2026, 8, 3), SyncStatus::Done, 10));
    m.insert(entry("mootdx", date(2026, 8, 4), SyncStatus::Failed, 0));
    m.insert(entry("mootdx", date(2026, 8, 5), SyncStatus::Skipped, 0));
    m.insert(entry("mootdx", date(2026, 8, 6), SyncStatus::Partial, 3));
    let failed: Vec<Date> = m.failed_entries().iter().map(|e| e.trade_date).collect();
    assert_eq!(failed, vec![date(2026, 8, 4), date(2026, 8, 6)]);
    assert_eq!(m.blocking_entries().len(), 2);
}

#[test]
fn done_entries_are_stamped_and_carry_no_note() {
    let e = SyncEntry::done(Dataset::Financial, "baostock", date(2026, 3, 31), 12, "2026-04-01T00:00:00+00:00".to_string());
    assert_eq!(e.status, SyncStatus::Done);
    assert!(e.note.is_none());
    assert!(!e.updated_at.is_empty());
}

#[test]
fn staging_manifest_splits_done_and_failed() {
    let mut manifest = StagingManifest::default();
    for (symbol, status) in [
        ("600519.SH", SyncStatus::Done),
        ("000001.SZ", SyncStatus::Failed),
        ("300750.SZ", SyncStatus::Partial),
        ("688981.SH", SyncStatus::Skipped),
    ] {
        manifest.push(StagingEntry {
            dataset: Dataset::Daily,
            source: "baostock".to_string(),
            symbol: symbol.to_string(),
            rows: 1,
            status,
            updated_at: "2026-08-05T00:00:00+00:00".to_string(),
            note: None,
        });
    }
    assert_eq!(manifest.entries().len(), 4);
    let done: Vec<&str> = manifest.done_entries().iter().map(|e| e.symbol.as_str()).collect();
    assert_eq!(done, vec!["600519.SH"]);
    let failed: Vec<&str> = manifest.failed_entries().iter().map(|e| e.symbol.as_str()).collect();
    assert_eq!(failed, vec!["000001.SZ", "300750.SZ"]);
}

#[test]
fn done_entries_keep_the_given_stamp() {
    let entry = SyncEntry::done(Dataset::Daily, "tencent", date(2026, 1, 5), 10, "2026-01-05T16:00:00.5+00:00".to_string());
    assert_eq!(entry.updated_at, "2026-01-05T16:00:00.5+00:00");
    assert_eq!(entry.status, SyncStatus::Done);
    assert_eq!(entry.rows, 10);
    assert!(entry.note.is_none());
}
