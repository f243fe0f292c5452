use myfin::date::Date;
use myfin::report::{
    backtest_markdown, candidate_markdown, environment_cell, MarkdownReport, OutOfSampleCells, PortfolioCells, SourceHealthLine,
};

#[test]
fn renders_quality_page_without_health_data() {
    let markdown = candidate_markdown(&[], &[], &["测试说明".to_string()]);
    assert!(markdown.contains("## 候选清单"));
    assert!(markdown.contains("## 数据质量"));
    assert!(markdown.contains("不将其视为通过"));
    assert!(markdown.contains("测试说明"));
}

#[test]
fn renders_sections_in_order() {
    let mut report = MarkdownReport::new("标题");
    report.add_heading("小节", 2);
    report.add_text("正文  \n");
    report.add_table(&["a", "b"], &[vec!["1".to_string(), "2".to_string()]]);
    report.add_code_block("json", "{}");
    assert_eq!(
        report.render(),
        "# 标题\n\n## 小节\n\n正文\n\n| a | b |\n|---|---|\n| 1 | 2 |\n\n```json\n{}\n```\n\n"
    );
}

#[test]
fn adding_a_section_appends_its_text() {
    let mut report = MarkdownReport::new("t");
    report.add_text("first");
    let before = report.render();
    report.add_heading("next", 3);
    assert_eq!(report.render(), format!("{before}### next\n\n"));
}

#[test]
fn health_rows_show_pass_fail_and_errors() {
    let lines = vec![
        SourceHealthLine { source: "tencent".to_string(), ok: true, latency_ms: Some(120), error: None },
        SourceHealthLine { source: "tushare".to_string(), ok: false, latency_ms: None, error: Some("timeout".to_string()) },
    ];
    let markdown = candidate_markdown(&[vec!["600519.SH".to_string()]], &lines, &[]);
    assert!(markdown.contains("tencent"));
    assert!(markdown.contains("timeout"));
    assert!(markdown.contains("600519.SH"));
    assert!(!markdown.contains("不将其视为通过"));
}

#[test]
fn renders_tags_from_structured_environment_summary() {
    let scanned = vec!["industry_earnings_turning".to_string()];
    let cell = environment_cell(&[], Some(&scanned));
    assert_eq!(cell, "industry_earnings_turning");
    let row = vec![
        "600519.SH".to_string(),
        "测试标的".to_string(),
        "食品饮料".to_string(),
        String::new(),
        String::new(),
        String::new(),
        String::new(),
        cell,
        String::new(),
        "测试".to_string(),
    ];
    let markdown = candidate_markdown(&[row], &[], &[]);
    assert!(markdown.contains("industry_earnings_turning"));
}

#[test]
fn own_tags_take_precedence_over_the_scan() {
    let own = vec!["a".to_string(), "b".to_string()];
    let scanned = vec!["c".to_string()];
    assert_eq!(environment_cell(&own, Some(&scanned)), "a; b");
    assert_eq!(environment_cell(&[], None), "");
}

#[test]
fn backtest_report_lays_out_its_sections() {
    let portfolio = PortfolioCells {
        mean_monthly_return: "1.20%".to_string(),
        max_drawdown: "-8.00%".to_string(),
        annualized_volatility: "15.00%".to_string(),
        turnover: "300.0%".to_string(),
        average_holdings: "12.5".to_string(),
        average_cash: "3.0%".to_string(),
    };
    let markdown = backtest_markdown(
        Date::from_ymd_opt(2024, 1, 31),
        None,
        6,
        24,
        120,
        &["100".to_string(), "2.00%".to_string(), "1.50%".to_string(), "55.0%".to_string()],
        &[],
        &[],
        &portfolio,
        &["银行: 20.0%".to_string(), "钢铁: 10.0%".to_string()],
        &[],
        &None::<OutOfSampleCells>,
        &[],
    );
    assert!(markdown.starts_with("# myfin 月度截面回测\n\n截面区间：2024-01-31 至 无；固定持有 6 个月；评估快照 24 个；入选 120 次。\n\n"));
    assert!(markdown.contains("| 样本数 | 平均收益 | 中位数收益 | 胜率 |\n|---|---|---|---|\n| 100 | 2.00% | 1.50% | 55.0% |\n"));
    assert!(markdown.contains("| 组合月均收益（成本后） | 1.20% |"));
    assert!(markdown.contains("平均行业暴露：银行: 20.0%；钢铁: 10.0%。"));
    assert!(markdown.contains("样本外结果不可用：历史截面少于 4 个月或没有完成交易。"));
    assert!(markdown.ends_with("不会自动修改 config/screen.toml。\n\n"));
    let with_oos = backtest_markdown(
        None,
        None,
        6,
        0,
        0,
        &[],
        &[],
        &[],
        &portfolio,
        &[],
        &[],
        &Some(OutOfSampleCells { count: 7, mean: "1.00%".to_string(), median: "0.50%".to_string(), win_rate: "57.1%".to_string() }),
        &[],
    );
    assert!(with_oos.contains("样本外交易收益：样本数 7，平均 1.00%，中位数 0.50%，胜率 57.1%。"));
    assert!(!with_oos.contains("平均行业暴露"));
}
