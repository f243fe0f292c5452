//! The decisions of the native HTTP adapters: which adapter a registry entry selects
//! and how it is set up, how a token is accepted, how daily pages are walked back in
//! time, which rows a fetch keeps, how calls are spaced, and how a probe is reported.

use vstd::prelude::*;

use crate::backtest::in_window;
use crate::date::{lemma_date_order, Date};
use crate::error::{is_source_error, Error};
use crate::http::capabilities;
use crate::registry::{Auth, Probe, SourceConfig};
use crate::report::{trim_end, trim_end_str};
use crate::source::{HealthReport, SourceCapabilities};
use crate::text::str_eq;

verus! {

/// The native HTTP adapters.
#[derive(Debug, Clone, Copy, PartialEq, Eq, Structural)]
pub enum HttpAdapterKind {
    Tencent,
    Tushare,
}

/// What an HTTP adapter is built from.
#[derive(Debug, Clone)]
pub struct AdapterSettings {
    pub kind: HttpAdapterKind,
    pub probe: Probe,
    pub min_interval_ms: u64,
    pub capabilities: SourceCapabilities,
    /// The environment variable that holds the token (Tushare only).
    pub token_env: Option<String>,
}

/// Selects and configures the HTTP adapter of a registry entry: `tencent` and
/// `tushare` have one; both need a probe, and Tushare needs token authentication.
pub fn adapter_settings(config: &SourceConfig) -> (settings: Result<AdapterSettings, Error>)
    ensures
        config.name@ == "tencent"@ ==> match config.probe {
            None => settings matches Err(e) && is_source_error(e, "tencent"@, "注册表缺少 probe"@),
            Some(p) => settings matches Ok(s) && s.kind == HttpAdapterKind::Tencent && s.probe.symbol@
                == p.symbol@ && s.probe.lookback_days == p.lookback_days && s.min_interval_ms
                == config.rate_limit.min_interval_ms && s.capabilities.name@ == config.name@
                && s.capabilities.datasets@ == config.datasets@ && s.token_env is None,
        },
        config.name@ == "tushare"@ ==> match config.probe {
            None => settings matches Err(e) && is_source_error(e, "tushare"@, "注册表缺少 probe"@),
            Some(p) => match config.auth {
                Auth::Anonymous => settings matches Err(e) && is_source_error(
                    e,
                    "tushare"@,
                    "注册表应声明 token 鉴权"@,
                ),
                Auth::Token { env_var } => settings matches Ok(s) && s.kind == HttpAdapterKind::Tushare
                    && s.probe.symbol@ == p.symbol@ && s.probe.lookback_days == p.lookback_days
                    && s.min_interval_ms == config.rate_limit.min_interval_ms
                    && s.capabilities.name@ == config.name@ && s.capabilities.datasets@
                    == config.datasets@ && (s.token_env matches Some(v) && v@ == env_var@),
            },
        },
        config.name@ != "tencent"@ && config.name@ != "tushare"@ ==> (settings matches Err(e)
            && is_source_error(e, config.name@, "尚未注册 Rust HTTP 适配器"@)),
{
    proof {
        reveal_strlit("tencent");
        reveal_strlit("tushare");
        assert("tushare"@[1] != "tencent"@[1]);
    }
    let kind = if str_eq(config.name.as_str(), "tencent") {
        HttpAdapterKind::Tencent
    } else if str_eq(config.name.as_str(), "tushare") {
        HttpAdapterKind::Tushare
    } else {
        return Err(Error::source_err(config.name.as_str(), "尚未注册 Rust HTTP 适配器"));
    };
    let source = match kind {
        HttpAdapterKind::Tencent => "tencent",
        HttpAdapterKind::Tushare => "tushare",
    };
    let probe = match &config.probe {
        Some(p) => Probe { symbol: p.symbol.clone(), lookback_days: p.lookback_days },
        None => return Err(Error::source_err(source, "注册表缺少 probe")),
    };
    let token_env = match kind {
        HttpAdapterKind::Tencent => None,
        HttpAdapterKind::Tushare => match &config.auth {
            Auth::Token { env_var } => Some(env_var.clone()),
            Auth::Anonymous => return Err(Error::source_err("tushare", "注册表应声明 token 鉴权")),
        },
    };
    Ok(AdapterSettings {
        kind,
        probe,
        min_interval_ms: config.rate_limit.min_interval_ms,
        capabilities: capabilities(config),
        token_env,
    })
}

/// Whether `text` is empty once white space is trimmed.
pub open spec fn is_blank(text: Seq<char>) -> bool {
    trim_end(text).len() == 0
}

/// Accepts the value read from the token variable `env_var`: it must be set and not
/// blank.
pub fn accept_token(env_var: &str, value: Option<String>) -> (token: Result<String, Error>)
    ensures
        value is None ==> (token matches Err(e) && is_source_error(e, "tushare"@, "缺少鉴权环境变量 "@ + env_var@)),
        value matches Some(v) ==> (is_blank(v@) ==> (token matches Err(e) && is_source_error(
            e,
            "tushare"@,
            "鉴权环境变量 "@ + env_var@ + " 为空"@,
        ))),
        value matches Some(v) ==> (!is_blank(v@) ==> (token matches Ok(t) && t@ == v@)),
{
    match value {
        None => {
            let mut message = "缺少鉴权环境变量 ".to_string();
            message.append(env_var);
            Err(Error::source_err("tushare", message.as_str()))
        },
        Some(v) => {
            if trim_end_str(v.as_str()).as_str().is_empty() {
                let mut message = "鉴权环境变量 ".to_string();
                message.append(env_var);
                message.append(" 为空");
                Err(Error::source_err("tushare", message.as_str()))
            } else {
                Ok(v)
            }
        },
    }
}

/// The earliest day of a non-empty list.
pub open spec fn is_earliest(days: Seq<Date>, d: Date) -> bool {
    days.contains(d) && forall|i: int| 0 <= i < days.len() ==> !(#[trigger] days[i]).precedes(d)
}

/// The earliest day of `days`, if any.
fn earliest(days: &[Date]) -> (first: Option<Date>)
    ensures
        days@.len() == 0 <==> first is None,
        first matches Some(d) ==> is_earliest(days@, d),
{
    if days.len() == 0 {
        return None;
    }
    let mut best = days[0];
    assert(days@.take(1)[0] == best);
    for i in 1..days.len()
        invariant
            days@.len() > 0,
            days@.take(i as int).contains(best),
            forall|j: int| 0 <= j < i ==> !(#[trigger] days@[j]).precedes(best),
    {
        let ghost old_best = best;
        if days[i].is_before(&best) {
            best = days[i];
            proof {
                assert forall|j: int| 0 <= j < i + 1 implies !(#[trigger] days@[j]).precedes(best) by {
                    if j < i {
                        lemma_date_order(days@[j], old_best, best);
                    }
                    lemma_date_order(best, best, best);
                }
                assert(days@.take(i + 1)[i as int] == best);
            }
        } else {
            proof {
                let k = choose|k: int| 0 <= k < i && days@.take(i as int)[k] == best;
                assert(days@.take(i + 1)[k] == best);
            }
        }
    }
    proof {
        assert(days@.take(days@.len() as int) =~= days@);
    }
    Some(best)
}

/// The next step of walking a daily history back page by page.
#[derive(Debug, Clone, Copy)]
pub enum PageStep {
    /// Every page back to the start has been read.
    Done,
    /// Read the page that ends on this day next.
    Next(Date),
}

/// After reading a page with the given days for a window that starts on `start`, and
/// whose page ended on `upper`: stop on an empty page, once the page reaches `start`,
/// or when no earlier page end is left; otherwise continue with the day before the
/// page's earliest day.
pub fn page_step(page: &[Date], start: Date, upper: Date) -> (step: PageStep)
    ensures
        page@.len() == 0 ==> step is Done,
        forall|oldest: Date| #[trigger] is_earliest(page@, oldest) ==> (if !start.precedes(oldest) {
            step is Done
        } else if oldest.is_first_supported() {
            step is Done
        } else {
            match step {
                PageStep::Next(p) => p.is_day_before(oldest) && p.precedes(upper),
                PageStep::Done => forall|p: Date| p.is_day_before(oldest) ==> !p.precedes(upper),
            }
        }),
{
    let oldest = match earliest(page) {
        Some(d) => d,
        None => return PageStep::Done,
    };
    proof {
        assert forall|o: Date| #[trigger] is_earliest(page@, o) implies o == oldest by {
            let a = choose|a: int| 0 <= a < page@.len() && page@[a] == o;
            let b = choose|b: int| 0 <= b < page@.len() && page@[b] == oldest;
            assert(!page@[a].precedes(oldest));
            assert(!page@[b].precedes(o));
            lemma_date_order(o, oldest, o);
        }
    }
    if !start.is_before(&oldest) {
        return PageStep::Done;
    }
    match oldest.pred_opt() {
        None => PageStep::Done,
        Some(next_end) => {
            if next_end.is_before(&upper) {
                PageStep::Next(next_end)
            } else {
                proof {
                    assert forall|p: Date| p.is_day_before(oldest) implies !p.precedes(upper) by {
                        Date::lemma_eq_fields(p, next_end);
                    }
                }
                PageStep::Done
            }
        },
    }
}

/// Every kept index points at a row.
pub open spec fn rows_in_range(kept: Seq<usize>, days: Seq<Date>) -> bool {
    forall|k: int| 0 <= k < kept.len() ==> (#[trigger] kept[k]) < days.len()
}

/// Every kept row lies within the bounds.
pub open spec fn rows_in_window(kept: Seq<usize>, days: Seq<Date>, start: Option<Date>, end: Option<Date>) -> bool {
    forall|k: int| 0 <= k < kept.len() ==> in_window(days[#[trigger] kept[k] as int], start, end)
}

/// Every kept row is the first row of its day.
pub open spec fn rows_first(kept: Seq<usize>, days: Seq<Date>) -> bool {
    forall|k: int, j: int| 0 <= k < kept.len() && 0 <= j < kept[k] ==> #[trigger] days[j] != days[#[trigger] kept[k] as int]
}

/// The kept rows come in strictly increasing order of day.
pub open spec fn rows_sorted(kept: Seq<usize>, days: Seq<Date>) -> bool {
    forall|a: int, b: int| 0 <= a < b < kept.len() ==> days[#[trigger] kept[a] as int].precedes(days[#[trigger] kept[b] as int])
}

/// Whether row `i` exists and lies within the bounds.
pub open spec fn wanted_row(days: Seq<Date>, start: Option<Date>, end: Option<Date>, i: int) -> bool {
    0 <= i < days.len() && in_window(days[i], start, end)
}

/// Every day within the bounds has a kept row.
pub open spec fn rows_cover(kept: Seq<usize>, days: Seq<Date>, start: Option<Date>, end: Option<Date>) -> bool {
    forall|i: int| #[trigger] wanted_row(days, start, end, i) ==> exists|k: int|
        0 <= k < kept.len() && days[kept[k] as int] == days[i]
}

/// `kept` lists, in increasing order of day, the first row of each day within the
/// bounds.
pub open spec fn kept_rows(kept: Seq<usize>, days: Seq<Date>, start: Option<Date>, end: Option<Date>) -> bool {
    &&& rows_in_range(kept, days)
    &&& rows_in_window(kept, days, start, end)
    &&& rows_first(kept, days)
    &&& rows_sorted(kept, days)
    &&& rows_cover(kept, days, start, end)
}

/// The rows that a daily fetch keeps: rows outside the bounds are dropped, the rest are
/// ordered by day, and of several rows of one day the first is kept.
pub fn select_daily_rows(days: &[Date], start: Option<Date>, end: Option<Date>) -> (kept: Vec<usize>)
    ensures
        kept_rows(kept@, days@, start, end),
{
    let mut kept: Vec<usize> = Vec::new();
    for i in 0..days.len()
        invariant
            kept_rows(kept@, days@.take(i as int), start, end),
            forall|k: int| 0 <= k < kept@.len() ==> (#[trigger] kept@[k]) < i,
    {
        let d = days[i];
        let ghost before = days@.take(i as int);
        let ghost after = days@.take(i + 1);
        let ghost old_kept = kept@;
        assert forall|j: int| 0 <= j < i implies after[j] == before[j] && before[j] == days@[j] by {}
        assert(after[i as int] == d);
        let inside = match start {
            Some(s) => !d.is_before(&s),
            None => true,
        } && match end {
            Some(e) => !e.is_before(&d),
            None => true,
        };
        if inside {
            let mut k: usize = 0;
            while k < kept.len() && days[kept[k]] != d
                invariant
                    kept@ == old_kept,
                    forall|m: int| 0 <= m < kept@.len() ==> (#[trigger] kept@[m]) < i,
                    i < days@.len(),
                    k <= kept@.len(),
                    forall|m: int| 0 <= m < k ==> days@[#[trigger] kept@[m] as int] != d,
                decreases kept@.len() - k,
            {
                k = k + 1;
            }
            if k == kept.len() {
                let mut p: usize = 0;
                while p < kept.len() && !d.is_before(&days[kept[p]])
                    invariant
                        kept@ == old_kept,
                        forall|m: int| 0 <= m < kept@.len() ==> (#[trigger] kept@[m]) < i,
                        i < days@.len(),
                        p <= kept@.len(),
                        forall|m: int| 0 <= m < p ==> !d.precedes(days@[#[trigger] kept@[m] as int]),
                    decreases kept@.len() - p,
                {
                    p = p + 1;
                }
                kept.insert(p, i);
                proof {
                    lemma_insert_kept(old_kept, days@, before, after, start, end, p as int, i);
                }
            } else {
                proof {
                    lemma_skip_kept(old_kept, before, after, start, end, k as int);
                }
            }
        } else {
            proof {
                lemma_skip_outside(old_kept, before, after, start, end);
            }
        }
    }
    proof {
        assert(days@.take(days@.len() as int) =~= days@);
    }
    kept
}

/// A row whose day is already kept leaves the selection as it is.
proof fn lemma_skip_kept(
    kept: Seq<usize>,
    before: Seq<Date>,
    after: Seq<Date>,
    start: Option<Date>,
    end: Option<Date>,
    k: int,
)
    requires
        kept_rows(kept, before, start, end),
        after.len() == before.len() + 1,
        forall|j: int| 0 <= j < before.len() ==> after[j] == before[j],
        0 <= k < kept.len(),
        before[kept[k] as int] == after[before.len() as int],
    ensures
        kept_rows(kept, after, start, end),
{
    assert forall|i: int| #[trigger] wanted_row(after, start, end, i) implies exists|m: int|
        0 <= m < kept.len() && after[kept[m] as int] == after[i] by {
        if i < before.len() {
            assert(wanted_row(before, start, end, i));
            let m = choose|m: int| 0 <= m < kept.len() && before[kept[m] as int] == before[i];
            assert(after[kept[m] as int] == after[i]);
        } else {
            assert(after[kept[k] as int] == after[i]);
        }
    }
}

/// A row outside the bounds leaves the selection as it is.
proof fn lemma_skip_outside(
    kept: Seq<usize>,
    before: Seq<Date>,
    after: Seq<Date>,
    start: Option<Date>,
    end: Option<Date>,
)
    requires
        kept_rows(kept, before, start, end),
        after.len() == before.len() + 1,
        forall|j: int| 0 <= j < before.len() ==> after[j] == before[j],
        !in_window(after[before.len() as int], start, end),
    ensures
        kept_rows(kept, after, start, end),
{
    assert forall|i: int| #[trigger] wanted_row(after, start, end, i) implies exists|m: int|
        0 <= m < kept.len() && after[kept[m] as int] == after[i] by {
        assert(i < before.len());
        assert(wanted_row(before, start, end, i));
        let m = choose|m: int| 0 <= m < kept.len() && before[kept[m] as int] == before[i];
        assert(after[kept[m] as int] == after[i]);
    }
}

/// The first row of a new day within the bounds enters the selection at its place.
proof fn lemma_insert_kept(
    kept: Seq<usize>,
    days: Seq<Date>,
    before: Seq<Date>,
    after: Seq<Date>,
    start: Option<Date>,
    end: Option<Date>,
    p: int,
    i: usize,
)
    requires
        kept_rows(kept, before, start, end),
        forall|m: int| 0 <= m < kept.len() ==> (#[trigger] kept[m]) < i,
        i == before.len(),
        after.len() == before.len() + 1,
        forall|j: int| 0 <= j < before.len() ==> after[j] == before[j],
        in_window(after[i as int], start, end),
        forall|m: int| 0 <= m < kept.len() ==> before[#[trigger] kept[m] as int] != after[i as int],
        0 <= p <= kept.len(),
        forall|m: int| 0 <= m < p ==> !after[i as int].precedes(before[#[trigger] kept[m] as int]),
        p < kept.len() ==> after[i as int].precedes(before[kept[p] as int]),
    ensures
        kept_rows(kept.insert(p, i), after, start, end),
{
    let nk = kept.insert(p, i);
    assert forall|m: int| 0 <= m < kept.len() implies after[#[trigger] kept[m] as int] == before[kept[m] as int] by {}
    lemma_insert_sorted(kept, before, after[i as int], p);
    assert(rows_sorted(nk, after)) by {
        assert forall|a: int, b: int| 0 <= a < b < nk.len() implies after[#[trigger] nk[a] as int].precedes(after[#[trigger] nk[b] as int]) by {
            let oa = if a < p { a } else if a == p { -1 } else { a - 1 };
            let ob = if b < p { b } else if b == p { -1 } else { b - 1 };
            if oa >= 0 {
                assert(nk[a] == kept[oa]);
            }
            if ob >= 0 {
                assert(nk[b] == kept[ob]);
            }
        }
    }
    assert(rows_in_window(nk, after, start, end)) by {
        assert forall|k: int| 0 <= k < nk.len() implies in_window(after[#[trigger] nk[k] as int], start, end) by {
            if k != p {
                let ok = if k < p { k } else { k - 1 };
                assert(nk[k] == kept[ok]);
                assert(in_window(before[kept[ok] as int], start, end));
            }
        }
    }
    assert(rows_first(nk, after)) by {
        assert forall|k: int, j: int| 0 <= k < nk.len() && 0 <= j < nk[k] implies #[trigger] after[j] != after[#[trigger] nk[k] as int] by {
            if k == p {
                assert(after[j] == before[j]);
                if in_window(before[j], start, end) {
                    assert(wanted_row(before, start, end, j));
                    let m = choose|m: int| 0 <= m < kept.len() && before[kept[m] as int] == before[j];
                    assert(before[kept[m] as int] != after[i as int]);
                }
            } else {
                let ok = if k < p { k } else { k - 1 };
                assert(nk[k] == kept[ok]);
                assert(before[j] != before[kept[ok] as int]);
            }
        }
    }
    assert(rows_cover(nk, after, start, end)) by {
        assert forall|j: int| #[trigger] wanted_row(after, start, end, j) implies exists|m: int|
            0 <= m < nk.len() && after[nk[m] as int] == after[j] by {
            if j == i as int {
                assert(after[nk[p] as int] == after[j]);
            } else {
                assert(wanted_row(before, start, end, j));
                let m = choose|m: int| 0 <= m < kept.len() && before[kept[m] as int] == before[j];
                if m < p {
                    assert(nk[m] == kept[m]);
                    assert(after[nk[m] as int] == after[j]);
                } else {
                    assert(nk[m + 1] == kept[m]);
                    assert(after[nk[m + 1] as int] == after[j]);
                }
            }
        }
    }
    assert(rows_in_range(nk, after)) by {
        assert forall|k: int| 0 <= k < nk.len() implies (#[trigger] nk[k]) < after.len() by {
            if k != p {
                let ok = if k < p { k } else { k - 1 };
                assert(nk[k] == kept[ok]);
            }
        }
    }
}

/// The days of the kept rows around the insertion point.
proof fn lemma_insert_sorted(kept: Seq<usize>, before: Seq<Date>, d: Date, p: int)
    requires
        rows_in_range(kept, before),
        rows_sorted(kept, before),
        forall|m: int| 0 <= m < kept.len() ==> before[#[trigger] kept[m] as int] != d,
        0 <= p <= kept.len(),
        forall|m: int| 0 <= m < p ==> !d.precedes(before[#[trigger] kept[m] as int]),
        p < kept.len() ==> d.precedes(before[kept[p] as int]),
    ensures
        forall|m: int| 0 <= m < p ==> before[#[trigger] kept[m] as int].precedes(d),
        forall|m: int| p <= m < kept.len() ==> d.precedes(before[#[trigger] kept[m] as int]),
        forall|a: int, b: int| 0 <= a < p && p <= b < kept.len() ==> before[#[trigger] kept[a] as int].precedes(before[#[trigger] kept[b] as int]),
{
    assert forall|m: int| 0 <= m < p implies before[#[trigger] kept[m] as int].precedes(d) by {
        lemma_date_order(before[kept[m] as int], d, d);
    }
    assert forall|m: int| p <= m < kept.len() implies d.precedes(before[#[trigger] kept[m] as int]) by {
        if m > p {
            assert(before[kept[p] as int].precedes(before[kept[m] as int]));
            lemma_date_order(d, before[kept[p] as int], before[kept[m] as int]);
        }
    }
}

/// The wait before the next call, and when the call after it may go, for a limiter
/// that lets a call go at `next_allowed` and spaces calls by `interval` (all in the
/// same clock unit).
pub fn limiter_step(next_allowed: u128, now: u128, interval: u128) -> (step: (u128, u128))
    requires
        (if next_allowed > now { next_allowed } else { now }) + interval <= u128::MAX,
    ensures
        step.0 == (if next_allowed > now { next_allowed - now } else { 0 }),
        step.1 == now + step.0 + interval,
{
    let delay = if next_allowed > now { next_allowed - now } else { 0 };
    (delay, now + delay + interval)
}

/// The text that reports a probe answered with no rows.
pub open spec fn empty_probe_text(start: Seq<char>, end: Seq<char>) -> Seq<char> {
    start + " 至 "@ + end + " 返回空数据"@
}

/// The health report of a probe: it passes when rows came back, fails with the window
/// when none did, and fails with the error when the fetch failed.
pub fn probe_report(source: &str, latency_ms: u64, outcome: Result<usize, String>, start: &str, end: &str) -> (report: HealthReport)
    ensures
        report.source@ == source@,
        report.latency_ms == Some(latency_ms),
        report.ok == (outcome matches Ok(n) && n > 0),
        (outcome matches Ok(n) && n > 0) ==> report.error is None,
        (outcome matches Ok(n) && n == 0) ==> (report.error matches Some(e) && e@ == empty_probe_text(start@, end@)),
        outcome matches Err(m) ==> (report.error matches Some(e) && e@ == m@),
{
    match outcome {
        Ok(n) => {
            if n > 0 {
                HealthReport { source: source.to_string(), ok: true, latency_ms: Some(latency_ms), error: None }
            } else {
                let mut text = start.to_string();
                text.append(" 至 ");
                text.append(end);
                text.append(" 返回空数据");
                HealthReport {
                    source: source.to_string(),
                    ok: false,
                    latency_ms: Some(latency_ms),
                    error: Some(text),
                }
            }
        },
        Err(message) => HealthReport {
            source: source.to_string(),
            ok: false,
            latency_ms: Some(latency_ms),
            error: Some(message),
        },
    }
}

} // verus!
