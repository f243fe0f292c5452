use myfin::dataset::Dataset;
use myfin::date::Date;
use myfin::financial::{FinancialField, NoticeKind};
use myfin::layout::Layout;
use myfin::storage::{
    append_date_filter, dedup_keys, expected_columns, financial_field, merge_relation_query,
    notice_kind, parquet_list, partition_column, safe_component, sql_literal, validate_columns,
    ParquetStore, StorageError,
};

fn invalid(error: StorageError) -> String {
    match error {
        StorageError::Invalid(message) => message,
        other => panic!("unexpected error: {other:?}"),
    }
}

#[test]
fn safe_components_reject_traversal() {
    assert_eq!(safe_component("tencent").unwrap(), "tencent");
    for bad in ["", ".", "..", "a/b", "a\\b", "c:"] {
        assert_eq!(invalid(safe_component(bad).unwrap_err()), format!("非法文件名组件: {bad}"));
    }
    assert_eq!(safe_component("..a").unwrap(), "..a");
}

#[test]
fn sql_literals_quote_and_normalise_paths() {
    assert_eq!(sql_literal("data\\it's.parquet"), "'data/it''s.parquet'");
    assert_eq!(
        parquet_list(&["a.parquet".to_string(), "b.parquet".to_string()]),
        "['a.parquet', 'b.parquet']"
    );
    assert_eq!(parquet_list(&[]), "[]");
}

#[test]
fn schemas_and_keys_per_dataset() {
    assert_eq!(expected_columns(Dataset::AdjFactor).unwrap(), vec!["symbol", "ex_date", "cum_factor", "source"]);
    assert!(expected_columns(Dataset::Macro).is_none());
    assert_eq!(dedup_keys(Dataset::Daily), Some("symbol, trade_date, source"));
    assert_eq!(partition_column(Dataset::Financial), Some("report_period"));
}

#[test]
fn merge_query_prefers_incoming_rows() {
    let query = merge_relation_query(Dataset::AdjFactor, "old.parquet", "SELECT 1").unwrap();
    assert!(query.starts_with("SELECT symbol, ex_date, cum_factor, source FROM ("));
    assert!(query.contains("read_parquet('old.parquet')"));
    assert!(query.contains("PARTITION BY symbol, ex_date, source"));
    assert_eq!(merge_relation_query(Dataset::Macro, "x", "rel").unwrap(), "SELECT * FROM rel");
}

#[test]
fn missing_columns_are_listed_in_schema_order() {
    let actual = vec!["symbol".to_string(), "source".to_string(), "ex_date".to_string()];
    assert_eq!(invalid(validate_columns(Dataset::AdjFactor, &actual).unwrap_err()), "adj_factor Parquet 缺少字段: cum_factor");
    let full = vec!["symbol".to_string(), "ex_date".to_string(), "cum_factor".to_string(), "source".to_string(), "extra".to_string()];
    assert!(validate_columns(Dataset::AdjFactor, &full).is_ok());
    assert!(validate_columns(Dataset::Macro, &[]).is_ok());
}

#[test]
fn field_names_decode_to_their_fields() {
    let names = [
        ("revenue", FinancialField::Revenue),
        ("net_profit", FinancialField::NetProfit),
        ("equity", FinancialField::Equity),
        ("total_assets", FinancialField::TotalAssets),
        ("total_liabilities", FinancialField::TotalLiabilities),
        ("oper_cash_flow", FinancialField::OperCashFlow),
        ("eps", FinancialField::Eps),
        ("bps", FinancialField::Bps),
        ("gross_margin", FinancialField::GrossMargin),
        ("roe", FinancialField::Roe),
        ("debt_ratio", FinancialField::DebtRatio),
    ];
    for (name, field) in names {
        assert_eq!(financial_field(name), Some(field));
    }
    assert_eq!(financial_field("profit"), None);
    assert_eq!(financial_field("Revenue"), None);
    assert_eq!(notice_kind(NoticeKind::Express), "express");
    assert_eq!(notice_kind(NoticeKind::Forecast), "forecast");
}

#[test]
fn partitions_are_years_or_all() {
    let store = ParquetStore::new(Layout::new("data"));
    assert_eq!(store.partition_dir(Dataset::Daily, "all").unwrap(), "data/market/daily");
    assert_eq!(store.partition_dir(Dataset::Daily, "2026").unwrap(), "data/market/daily/2026");
    assert_eq!(invalid(store.partition_dir(Dataset::Daily, "26").unwrap_err()), "分区必须是四位年份或 all: 26");
    assert!(store.partition_dir(Dataset::Daily, "20x6").is_err());
    assert_eq!(invalid(store.partition_dir(Dataset::Daily, "-123").unwrap_err()), "分区必须是四位年份或 all: -123");
    assert!(store.partition_dir(Dataset::Daily, "+202").is_err());
    assert!(store.target_path(Dataset::Daily, "-999", "tencent").is_err());
    assert_eq!(
        store.target_path(Dataset::AdjFactor, "2025", "baostock").unwrap(),
        "data/market/adj_factor/2025/baostock.parquet"
    );
    assert_eq!(invalid(store.target_path(Dataset::Daily, "all", "../x").unwrap_err()), "非法文件名组件: ../x");
}

#[test]
fn date_filters_add_one_condition_per_bound() {
    let day = Date::from_ymd_opt(2026, 8, 3);
    let mut both = "SELECT * FROM t WHERE symbol = ?".to_string();
    append_date_filter(&mut both, "trade_date", day, day);
    assert_eq!(both, "SELECT * FROM t WHERE symbol = ? AND trade_date >= ? AND trade_date <= ?");
    let mut start = String::new();
    append_date_filter(&mut start, "ex_date", day, None);
    assert_eq!(start, " AND ex_date >= ?");
    let mut end = String::new();
    append_date_filter(&mut end, "ex_date", None, day);
    assert_eq!(end, " AND ex_date <= ?");
    let mut none = "x".to_string();
    append_date_filter(&mut none, "ex_date", None, None);
    assert_eq!(none, "x");
}
