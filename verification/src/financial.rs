//! Financial field names and notice kinds.

use vstd::prelude::*;

verus! {

/// Unified financial fields of a quarterly snapshot.
#[derive(Debug, Clone, Copy, PartialEq, Eq, Structural)]
pub enum FinancialField {
    /// Operating revenue (yuan).
    Revenue,
    /// Net profit attributable to the parent (yuan).
    NetProfit,
    /// Equity attributable to the parent (yuan).
    Equity,
    /// Total assets (yuan).
    TotalAssets,
    /// Total liabilities (yuan).
    TotalLiabilities,
    /// Net operating cash flow (yuan).
    OperCashFlow,
    /// Basic earnings per share (yuan).
    Eps,
    /// Book value per share (yuan).
    Bps,
    /// Gross margin.
    GrossMargin,
    /// Return on equity.
    Roe,
    /// Debt ratio.
    DebtRatio,
}

/// The period that a financial value covers.
#[derive(Debug, Clone, Copy, PartialEq, Eq, Structural)]
pub enum FinancialPeriodKind {
    /// A single quarter (converted from year-to-date values, or given so by the source).
    SingleQuarter,
    /// Year-to-date cumulative value, as the source reports it.
    YearToDate,
    /// Rolling sum of the latest four quarters; usually not stored.
    Ttm,
}

impl Default for FinancialPeriodKind {
    fn default() -> (kind: Self)
        ensures
            kind == FinancialPeriodKind::SingleQuarter,
    {
        FinancialPeriodKind::SingleQuarter
    }
}

/// A snapshot stored without the approximation flag is treated as approximate.
pub fn unknown_ann_date_is_approx() -> (approx: bool)
    ensures
        approx,
{
    true
}

/// Earnings notices: forecasts and express reports.
#[derive(Debug, Clone, Copy, PartialEq, Eq, Structural)]
pub enum NoticeKind {
    Forecast,
    Express,
}

/// The stored name of a financial field.
pub open spec fn field_name(field: FinancialField) -> Seq<char> {
    match field {
        FinancialField::Revenue => "revenue"@,
        FinancialField::NetProfit => "net_profit"@,
        FinancialField::Equity => "equity"@,
        FinancialField::TotalAssets => "total_assets"@,
        FinancialField::TotalLiabilities => "total_liabilities"@,
        FinancialField::OperCashFlow => "oper_cash_flow"@,
        FinancialField::Eps => "eps"@,
        FinancialField::Bps => "bps"@,
        FinancialField::GrossMargin => "gross_margin"@,
        FinancialField::Roe => "roe"@,
        FinancialField::DebtRatio => "debt_ratio"@,
    }
}

/// The stored name of a notice kind.
pub open spec fn notice_kind_name(kind: NoticeKind) -> Seq<char> {
    match kind {
        NoticeKind::Forecast => "forecast"@,
        NoticeKind::Express => "express"@,
    }
}

} // verus!
