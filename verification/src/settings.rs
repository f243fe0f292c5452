//! Range rules of the screening configuration.
//!
//! The rules are checked in a fixed order and the first one broken is reported. The
//! integer and switch settings are read as they are; for each floating-point setting the
//! caller states whether it lies in its range, since the library holds no floats.

use vstd::prelude::*;

verus! {

/// What the range rules read from a screening configuration.
#[derive(Debug, Clone, Copy)]
pub struct ConfigFacts {
    /// Days added to a period end when the announcement date is unknown.
    pub ann_date_approx_days: i64,
    /// Trading days over which an industry's return is measured.
    pub return_window_days: u32,
    /// Reporting periods compared for the profit trend.
    pub profit_trend_quarters: u32,
    /// Members an industry needs before it is tagged.
    pub min_members: u32,
    /// Whether the earnings-turning share lies in [0, 1].
    pub earnings_share_in_range: bool,
    /// Whether the valuation percentile ceiling lies in (0, 1).
    pub percentile_max_in_range: bool,
    /// Whether the ceiling on the percentile three months ago lies in (0, 1).
    pub percent_3m_ago_in_range: bool,
    /// Whether the debt-ratio ceiling lies in (0, 1].
    pub debt_ratio_in_range: bool,
    /// Whether every per-industry debt-ratio ceiling is finite and lies in (0, 1].
    pub industry_debt_ratios_in_range: bool,
    /// Minimum years since listing.
    pub min_list_years: u32,
    /// Whether the market-cap floor is finite and not negative.
    pub min_market_cap_ok: bool,
    /// Whether the average-turnover floor is finite and not negative.
    pub min_avg_amount_ok: bool,
    /// Trading days of the valuation percentile window.
    pub percentile_window_days: u32,
    /// Trading days of the momentum window.
    pub momentum_days: u32,
    /// Trading days of the moving average.
    pub ma_days: u32,
    /// Whether the volume-ratio floor is finite and not negative.
    pub volume_ratio_ok: bool,
    /// Secondary recovery signals required after the main one.
    pub min_secondary_signals: u8,
    /// Whether signals are taken on the last trading day of each month.
    pub signal_at_month_end: bool,
    /// Whether a position is closed when its signal is lost.
    pub exit_on_signal_loss: bool,
    /// Trading days between the signal and the fill.
    pub execution_lag_trading_days: u32,
    /// Largest number of positions in one rebalance.
    pub max_positions: u32,
    /// Whether the industry weight cap lies in (0, 1].
    pub industry_weight_in_range: bool,
    /// Whether the transaction cost is finite and not negative.
    pub transaction_cost_ok: bool,
    /// Whether the slippage is finite and not negative.
    pub slippage_ok: bool,
    /// Whether the minimum entry turnover is finite and not negative.
    pub min_entry_amount_ok: bool,
}

/// The range rules, named by what breaks them.
#[derive(Debug, Clone, Copy, PartialEq, Eq, Structural)]
pub enum ConfigRule {
    NegativeAnnDateOffset,
    ZeroReturnWindow,
    ZeroProfitTrendQuarters,
    ZeroMinMembers,
    EarningsShareOutOfRange,
    PercentileMaxOutOfRange,
    Percent3mAgoOutOfRange,
    DebtRatioOutOfRange,
    IndustryDebtRatioOutOfRange,
    ZeroMinListYears,
    BadMinMarketCap,
    BadMinAvgAmount,
    ZeroPercentileWindow,
    ZeroMomentumOrMaDays,
    BadVolumeRatio,
    TooManySecondarySignals,
    SignalNotAtMonthEnd,
    ExitOnSignalLoss,
    ZeroExecutionLag,
    ZeroMaxPositions,
    IndustryWeightOutOfRange,
    BadTransactionCost,
    BadSlippage,
    BadMinEntryAmount,
}

/// How many range rules there are.
pub const RULE_COUNT: usize = 24;

/// The rules in the order in which they are checked.
pub open spec fn rule_at(i: int) -> ConfigRule {
    if i == 0 {
        ConfigRule::NegativeAnnDateOffset
    } else if i == 1 {
        ConfigRule::ZeroReturnWindow
    } else if i == 2 {
        ConfigRule::ZeroProfitTrendQuarters
    } else if i == 3 {
        ConfigRule::ZeroMinMembers
    } else if i == 4 {
        ConfigRule::EarningsShareOutOfRange
    } else if i == 5 {
        ConfigRule::PercentileMaxOutOfRange
    } else if i == 6 {
        ConfigRule::Percent3mAgoOutOfRange
    } else if i == 7 {
        ConfigRule::DebtRatioOutOfRange
    } else if i == 8 {
        ConfigRule::IndustryDebtRatioOutOfRange
    } else if i == 9 {
        ConfigRule::ZeroMinListYears
    } else if i == 10 {
        ConfigRule::BadMinMarketCap
    } else if i == 11 {
        ConfigRule::BadMinAvgAmount
    } else if i == 12 {
        ConfigRule::ZeroPercentileWindow
    } else if i == 13 {
        ConfigRule::ZeroMomentumOrMaDays
    } else if i == 14 {
        ConfigRule::BadVolumeRatio
    } else if i == 15 {
        ConfigRule::TooManySecondarySignals
    } else if i == 16 {
        ConfigRule::SignalNotAtMonthEnd
    } else if i == 17 {
        ConfigRule::ExitOnSignalLoss
    } else if i == 18 {
        ConfigRule::ZeroExecutionLag
    } else if i == 19 {
        ConfigRule::ZeroMaxPositions
    } else if i == 20 {
        ConfigRule::IndustryWeightOutOfRange
    } else if i == 21 {
        ConfigRule::BadTransactionCost
    } else if i == 22 {
        ConfigRule::BadSlippage
    } else {
        ConfigRule::BadMinEntryAmount
    }
}

/// Whether `facts` break `rule`.
pub open spec fn violated(facts: ConfigFacts, rule: ConfigRule) -> bool {
    match rule {
        ConfigRule::NegativeAnnDateOffset => facts.ann_date_approx_days < 0,
        ConfigRule::ZeroReturnWindow => facts.return_window_days == 0,
        ConfigRule::ZeroProfitTrendQuarters => facts.profit_trend_quarters == 0,
        ConfigRule::ZeroMinMembers => facts.min_members == 0,
        ConfigRule::EarningsShareOutOfRange => !facts.earnings_share_in_range,
        ConfigRule::PercentileMaxOutOfRange => !facts.percentile_max_in_range,
        ConfigRule::Percent3mAgoOutOfRange => !facts.percent_3m_ago_in_range,
        ConfigRule::DebtRatioOutOfRange => !facts.debt_ratio_in_range,
        ConfigRule::IndustryDebtRatioOutOfRange => !facts.industry_debt_ratios_in_range,
        ConfigRule::ZeroMinListYears => facts.min_list_years == 0,
        ConfigRule::BadMinMarketCap => !facts.min_market_cap_ok,
        ConfigRule::BadMinAvgAmount => !facts.min_avg_amount_ok,
        ConfigRule::ZeroPercentileWindow => facts.percentile_window_days == 0,
        ConfigRule::ZeroMomentumOrMaDays => facts.momentum_days == 0 || facts.ma_days == 0,
        ConfigRule::BadVolumeRatio => !facts.volume_ratio_ok,
        ConfigRule::TooManySecondarySignals => facts.min_secondary_signals > 4,
        ConfigRule::SignalNotAtMonthEnd => !facts.signal_at_month_end,
        ConfigRule::ExitOnSignalLoss => facts.exit_on_signal_loss,
        ConfigRule::ZeroExecutionLag => facts.execution_lag_trading_days == 0,
        ConfigRule::ZeroMaxPositions => facts.max_positions == 0,
        ConfigRule::IndustryWeightOutOfRange => !facts.industry_weight_in_range,
        ConfigRule::BadTransactionCost => !facts.transaction_cost_ok,
        ConfigRule::BadSlippage => !facts.slippage_ok,
        ConfigRule::BadMinEntryAmount => !facts.min_entry_amount_ok,
    }
}

/// Whether `facts` keep every rule.
pub open spec fn all_rules_hold(facts: ConfigFacts) -> bool {
    forall|i: int| 0 <= i < RULE_COUNT ==> !#[trigger] violated(facts, rule_at(i))
}

/// Whether `rule` is the first rule, in checking order, that `facts` break.
pub open spec fn first_broken(facts: ConfigFacts, rule: ConfigRule) -> bool {
    exists|i: int|
        0 <= i < RULE_COUNT && rule_at(i) == rule && violated(facts, rule) && forall|j: int|
            0 <= j < i ==> !#[trigger] violated(facts, rule_at(j))
}

/// The message reported for a broken rule.
pub open spec fn rule_message(rule: ConfigRule) -> Seq<char> {
    match rule {
        ConfigRule::NegativeAnnDateOffset => "as_of.ann_date_approx_days 不能为负数"@,
        ConfigRule::ZeroReturnWindow => "environment.return_window_days 必须大于 0"@,
        ConfigRule::ZeroProfitTrendQuarters => "environment.profit_trend_quarters 必须大于 0"@,
        ConfigRule::ZeroMinMembers => "environment.min_members 必须大于 0"@,
        ConfigRule::EarningsShareOutOfRange => "environment.earnings_turning_min_share 必须在 [0,1]"@,
        ConfigRule::PercentileMaxOutOfRange => "undervalued.percentile_max 必须在 (0,1)"@,
        ConfigRule::Percent3mAgoOutOfRange => "recovery.percent_3m_ago_max 必须在 (0,1)"@,
        ConfigRule::DebtRatioOutOfRange => "exclusion.max_debt_ratio 必须在 (0,1]"@,
        ConfigRule::IndustryDebtRatioOutOfRange => "exclusion.industry_debt_ratio 必须全部在 (0,1]"@,
        ConfigRule::ZeroMinListYears => "universe.min_list_years 必须大于 0"@,
        ConfigRule::BadMinMarketCap => "universe.min_market_cap 必须是非负有限数"@,
        ConfigRule::BadMinAvgAmount => "universe.min_avg_amount 必须是非负有限数"@,
        ConfigRule::ZeroPercentileWindow => "undervalued.percentile_window_days 必须大于 0"@,
        ConfigRule::ZeroMomentumOrMaDays => "recovery.momentum_days 与 ma_days 必须大于 0"@,
        ConfigRule::BadVolumeRatio => "recovery.volume_ratio_min 必须是非负有限数"@,
        ConfigRule::TooManySecondarySignals => "recovery.min_secondary_signals 不能大于 4"@,
        ConfigRule::SignalNotAtMonthEnd => "portfolio.signal_at_month_end 必须为 true"@,
        ConfigRule::ExitOnSignalLoss => "portfolio.exit_on_signal_loss 当前必须为 false，避免与固定持有期冲突"@,
        ConfigRule::ZeroExecutionLag => "portfolio.execution_lag_trading_days 必须大于 0"@,
        ConfigRule::ZeroMaxPositions => "portfolio.max_positions 必须大于 0"@,
        ConfigRule::IndustryWeightOutOfRange => "portfolio.max_industry_weight 必须在 (0,1]"@,
        ConfigRule::BadTransactionCost => "portfolio.transaction_cost_bps 必须是非负有限数"@,
        ConfigRule::BadSlippage => "portfolio.slippage_bps 必须是非负有限数"@,
        ConfigRule::BadMinEntryAmount => "portfolio.min_entry_amount 必须是非负有限数"@,
    }
}

impl ConfigRule {
    /// The message reported when this rule is broken.
    pub fn message(&self) -> (text: &'static str)
        ensures
            text@ == rule_message(*self),
    {
        match self {
            ConfigRule::NegativeAnnDateOffset => "as_of.ann_date_approx_days 不能为负数",
            ConfigRule::ZeroReturnWindow => "environment.return_window_days 必须大于 0",
            ConfigRule::ZeroProfitTrendQuarters => "environment.profit_trend_quarters 必须大于 0",
            ConfigRule::ZeroMinMembers => "environment.min_members 必须大于 0",
            ConfigRule::EarningsShareOutOfRange => "environment.earnings_turning_min_share 必须在 [0,1]",
            ConfigRule::PercentileMaxOutOfRange => "undervalued.percentile_max 必须在 (0,1)",
            ConfigRule::Percent3mAgoOutOfRange => "recovery.percent_3m_ago_max 必须在 (0,1)",
            ConfigRule::DebtRatioOutOfRange => "exclusion.max_debt_ratio 必须在 (0,1]",
            ConfigRule::IndustryDebtRatioOutOfRange => "exclusion.industry_debt_ratio 必须全部在 (0,1]",
            ConfigRule::ZeroMinListYears => "universe.min_list_years 必须大于 0",
            ConfigRule::BadMinMarketCap => "universe.min_market_cap 必须是非负有限数",
            ConfigRule::BadMinAvgAmount => "universe.min_avg_amount 必须是非负有限数",
            ConfigRule::ZeroPercentileWindow => "undervalued.percentile_window_days 必须大于 0",
            ConfigRule::ZeroMomentumOrMaDays => "recovery.momentum_days 与 ma_days 必须大于 0",
            ConfigRule::BadVolumeRatio => "recovery.volume_ratio_min 必须是非负有限数",
            ConfigRule::TooManySecondarySignals => "recovery.min_secondary_signals 不能大于 4",
            ConfigRule::SignalNotAtMonthEnd => "portfolio.signal_at_month_end 必须为 true",
            ConfigRule::ExitOnSignalLoss => "portfolio.exit_on_signal_loss 当前必须为 false，避免与固定持有期冲突",
            ConfigRule::ZeroExecutionLag => "portfolio.execution_lag_trading_days 必须大于 0",
            ConfigRule::ZeroMaxPositions => "portfolio.max_positions 必须大于 0",
            ConfigRule::IndustryWeightOutOfRange => "portfolio.max_industry_weight 必须在 (0,1]",
            ConfigRule::BadTransactionCost => "portfolio.transaction_cost_bps 必须是非负有限数",
            ConfigRule::BadSlippage => "portfolio.slippage_bps 必须是非负有限数",
            ConfigRule::BadMinEntryAmount => "portfolio.min_entry_amount 必须是非负有限数",
        }
    }
}

/// The rule at position `i` of the checking order.
fn rule_in_order(i: usize) -> (rule: ConfigRule)
    requires
        i < RULE_COUNT,
    ensures
        rule == rule_at(i as int),
{
    match i {
        0 => ConfigRule::NegativeAnnDateOffset,
        1 => ConfigRule::ZeroReturnWindow,
        2 => ConfigRule::ZeroProfitTrendQuarters,
        3 => ConfigRule::ZeroMinMembers,
        4 => ConfigRule::EarningsShareOutOfRange,
        5 => ConfigRule::PercentileMaxOutOfRange,
        6 => ConfigRule::Percent3mAgoOutOfRange,
        7 => ConfigRule::DebtRatioOutOfRange,
        8 => ConfigRule::IndustryDebtRatioOutOfRange,
        9 => ConfigRule::ZeroMinListYears,
        10 => ConfigRule::BadMinMarketCap,
        11 => ConfigRule::BadMinAvgAmount,
        12 => ConfigRule::ZeroPercentileWindow,
        13 => ConfigRule::ZeroMomentumOrMaDays,
        14 => ConfigRule::BadVolumeRatio,
        15 => ConfigRule::TooManySecondarySignals,
        16 => ConfigRule::SignalNotAtMonthEnd,
        17 => ConfigRule::ExitOnSignalLoss,
        18 => ConfigRule::ZeroExecutionLag,
        19 => ConfigRule::ZeroMaxPositions,
        20 => ConfigRule::IndustryWeightOutOfRange,
        21 => ConfigRule::BadTransactionCost,
        22 => ConfigRule::BadSlippage,
        _ => ConfigRule::BadMinEntryAmount,
    }
}

/// Whether `facts` break `rule`.
pub fn breaks(facts: &ConfigFacts, rule: ConfigRule) -> (broken: bool)
    ensures
        broken == violated(*facts, rule),
{
    match rule {
        ConfigRule::NegativeAnnDateOffset => facts.ann_date_approx_days < 0,
        ConfigRule::ZeroReturnWindow => facts.return_window_days == 0,
        ConfigRule::ZeroProfitTrendQuarters => facts.profit_trend_quarters == 0,
        ConfigRule::ZeroMinMembers => facts.min_members == 0,
        ConfigRule::EarningsShareOutOfRange => !facts.earnings_share_in_range,
        ConfigRule::PercentileMaxOutOfRange => !facts.percentile_max_in_range,
        ConfigRule::Percent3mAgoOutOfRange => !facts.percent_3m_ago_in_range,
        ConfigRule::DebtRatioOutOfRange => !facts.debt_ratio_in_range,
        ConfigRule::IndustryDebtRatioOutOfRange => !facts.industry_debt_ratios_in_range,
        ConfigRule::ZeroMinListYears => facts.min_list_years == 0,
        ConfigRule::BadMinMarketCap => !facts.min_market_cap_ok,
        ConfigRule::BadMinAvgAmount => !facts.min_avg_amount_ok,
        ConfigRule::ZeroPercentileWindow => facts.percentile_window_days == 0,
        ConfigRule::ZeroMomentumOrMaDays => facts.momentum_days == 0 || facts.ma_days == 0,
        ConfigRule::BadVolumeRatio => !facts.volume_ratio_ok,
        ConfigRule::TooManySecondarySignals => facts.min_secondary_signals > 4,
        ConfigRule::SignalNotAtMonthEnd => !facts.signal_at_month_end,
        ConfigRule::ExitOnSignalLoss => facts.exit_on_signal_loss,
        ConfigRule::ZeroExecutionLag => facts.execution_lag_trading_days == 0,
        ConfigRule::ZeroMaxPositions => facts.max_positions == 0,
        ConfigRule::IndustryWeightOutOfRange => !facts.industry_weight_in_range,
        ConfigRule::BadTransactionCost => !facts.transaction_cost_ok,
        ConfigRule::BadSlippage => !facts.slippage_ok,
        ConfigRule::BadMinEntryAmount => !facts.min_entry_amount_ok,
    }
}

/// Checks the rules in order: `Ok` when every rule holds, else the first rule broken.
pub fn check_config(facts: &ConfigFacts) -> (result: Result<(), ConfigRule>)
    ensures
        result is Ok <==> all_rules_hold(*facts),
        result matches Err(rule) ==> first_broken(*facts, rule),
{
    let mut i: usize = 0;
    while i < RULE_COUNT
        invariant
            i <= RULE_COUNT,
            forall|j: int| 0 <= j < i ==> !#[trigger] violated(*facts, rule_at(j)),
        decreases RULE_COUNT - i,
    {
        let rule = rule_in_order(i);
        if breaks(facts, rule) {
            proof {
                assert(first_broken(*facts, rule));
            }
            return Err(rule);
        }
        i = i + 1;
    }
    Ok(())
}

} // verus!
