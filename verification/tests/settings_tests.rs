use myfin::settings::{breaks, check_config, ConfigFacts, ConfigRule};

fn sound_facts() -> ConfigFacts {
    ConfigFacts {
        ann_date_approx_days: 45,
        return_window_days: 126,
        profit_trend_quarters: 4,
        min_members: 3,
        earnings_share_in_range: true,
        percentile_max_in_range: true,
        percent_3m_ago_in_range: true,
        debt_ratio_in_range: true,
        industry_debt_ratios_in_range: true,
        min_list_years: 3,
        min_market_cap_ok: true,
        min_avg_amount_ok: true,
        percentile_window_days: 1250,
        momentum_days: 63,
        ma_days: 60,
        volume_ratio_ok: true,
        min_secondary_signals: 1,
        signal_at_month_end: true,
        exit_on_signal_loss: false,
        execution_lag_trading_days: 1,
        max_positions: 20,
        industry_weight_in_range: true,
        transaction_cost_ok: true,
        slippage_ok: true,
        min_entry_amount_ok: true,
    }
}

#[test]
fn accepts_settings_within_every_range() {
    assert_eq!(check_config(&sound_facts()), Ok(()));
}

#[test]
fn reports_the_first_broken_rule_in_order() {
    let mut facts = sound_facts();
    facts.max_positions = 0;
    facts.return_window_days = 0;
    facts.slippage_ok = false;
    assert_eq!(check_config(&facts), Err(ConfigRule::ZeroReturnWindow));
    facts.return_window_days = 126;
    assert_eq!(check_config(&facts), Err(ConfigRule::ZeroMaxPositions));
    facts.max_positions = 20;
    assert_eq!(check_config(&facts), Err(ConfigRule::BadSlippage));
}

#[test]
fn negative_offset_is_rejected_before_anything_else() {
    let mut facts = sound_facts();
    facts.ann_date_approx_days = -1;
    facts.min_members = 0;
    let rule = check_config(&facts).unwrap_err();
    assert_eq!(rule, ConfigRule::NegativeAnnDateOffset);
    assert_eq!(rule.message(), "as_of.ann_date_approx_days 不能为负数");
    facts.ann_date_approx_days = 0;
    assert_eq!(check_config(&facts), Err(ConfigRule::ZeroMinMembers));
}

#[test]
fn secondary_signals_are_capped_at_four() {
    let mut facts = sound_facts();
    facts.min_secondary_signals = 4;
    assert_eq!(check_config(&facts), Ok(()));
    facts.min_secondary_signals = 5;
    let rule = check_config(&facts).unwrap_err();
    assert_eq!(rule, ConfigRule::TooManySecondarySignals);
    assert_eq!(rule.message(), "recovery.min_secondary_signals 不能大于 4");
}

#[test]
fn either_window_of_zero_breaks_the_recovery_rule() {
    let mut facts = sound_facts();
    facts.ma_days = 0;
    assert_eq!(check_config(&facts), Err(ConfigRule::ZeroMomentumOrMaDays));
    facts.ma_days = 60;
    facts.momentum_days = 0;
    assert!(breaks(&facts, ConfigRule::ZeroMomentumOrMaDays));
    assert_eq!(check_config(&facts).unwrap_err().message(), "recovery.momentum_days 与 ma_days 必须大于 0");
}

#[test]
fn portfolio_switches_are_fixed() {
    let mut facts = sound_facts();
    facts.signal_at_month_end = false;
    assert_eq!(check_config(&facts), Err(ConfigRule::SignalNotAtMonthEnd));
    facts.signal_at_month_end = true;
    facts.exit_on_signal_loss = true;
    let rule = check_config(&facts).unwrap_err();
    assert_eq!(rule, ConfigRule::ExitOnSignalLoss);
    assert_eq!(rule.message(), "portfolio.exit_on_signal_loss 当前必须为 false，避免与固定持有期冲突");
}

#[test]
fn cost_messages_name_their_setting() {
    let mut facts = sound_facts();
    facts.transaction_cost_ok = false;
    assert_eq!(check_config(&facts).unwrap_err().message(), "portfolio.transaction_cost_bps 必须是非负有限数");
    facts.transaction_cost_ok = true;
    facts.min_entry_amount_ok = false;
    assert_eq!(check_config(&facts).unwrap_err().message(), "portfolio.min_entry_amount 必须是非负有限数");
}
