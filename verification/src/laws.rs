//! Properties that hold across the library's operations.

use vstd::prelude::*;

use crate::backtest::{
    allocation_of, can_exit, counts_bar, eligible_days, month_ends_of, picked_count, picked_in, BarDay,
    CandidateBars, DayStatus,
};
use crate::dataset::Dataset;
use crate::date::{
    lemma_date_order, month_index, shifted_index, spec_days_in_month, spec_is_leap_year, valid_ymd, Date,
};
use crate::http::{
    all_digits, canonical_form, dotted_canonical, is_first_dot, prefixed_canonical,
    lemma_canonical_shape, suffix_ignoring_case, tencent_form, lower_suffix,
};
use crate::registry::{SourceKind, chain_problem, chain_problem_at, defines_source, is_first_undefined, registry_valid, Registry, SourceConfig};
use crate::sync::{entry_key, is_done, missing_of, SyncEntry, SyncStatus};
use crate::report::{health_cells, rendered, SourceHealthLine};
use crate::symbol::{exchange_suffix, Exchange};
use crate::takeover::{counts_days, occurrences, route_for, worker_hands_over, SyncRoute};

verus! {

/// Normalising a symbol twice gives what normalising it once gives: a canonical
/// symbol is its own canonical form.
pub proof fn law_canonical_idempotent(s: Seq<char>)
    requires
        canonical_form(s) is Some,
    ensures
        canonical_form(canonical_form(s)->0) == canonical_form(s),
{
    lemma_canonical_shape(s);
    let c = canonical_form(s)->0;
    assert(is_first_dot(c, 6)) by {
        assert forall|j: int| 0 <= j < 6 implies c[j] != '.' by {
            assert(c.take(6)[j] == c[j]);
        }
    }
    assert forall|d: int| is_first_dot(c, d) implies d == 6 by {
        if d < 6 {
            assert(c.take(6)[d] == c[d]);
        }
    }
    let suffix = c.skip(7);
    assert(suffix_ignoring_case(suffix) == Some(suffix));
    assert(c.take(6) + seq!['.'] + suffix =~= c);
    assert(dotted_canonical(c) == Some(c));
}

/// Tencent's notation of a Shanghai or Shenzhen symbol normalises back to the symbol.
/// Beijing symbols are left out: `bj430047` has no canonical form.
pub proof fn law_tencent_round_trip(s: Seq<char>)
    requires
        canonical_form(s) is Some,
        canonical_form(s)->0.skip(7) != seq!['B', 'J'],
    ensures
        canonical_form(tencent_form(canonical_form(s)->0)) == canonical_form(s),
{
    lemma_canonical_shape(s);
    let c = canonical_form(s)->0;
    let t = tencent_form(c);
    assert(t.len() == 8);
    assert(t.skip(2) =~= c.take(6));
    assert forall|d: int| !is_first_dot(t, d) by {
        if 0 <= d < t.len() && t[d] == '.' {
            if d >= 2 {
                assert(t.skip(2)[d - 2] == t[d]);
            }
        }
    }
    assert(dotted_canonical(t) is None);
    if c.skip(7) == seq!['S', 'H'] {
        assert(lower_suffix(c.skip(7)) == seq!['s', 'h']);
        assert(t.skip(2) + seq!['.', 'S', 'H'] =~= c);
    } else {
        assert(lower_suffix(c.skip(7)) == seq!['s', 'z']);
        assert(t.skip(2) + seq!['.', 'S', 'Z'] =~= c);
    }
}

/// If some name of `order` is undefined, a first undefined one exists.
proof fn lemma_first_undefined_exists(order: Seq<String>, sources: Seq<SourceConfig>, k: int)
    requires
        0 <= k < order.len(),
        !defines_source(sources, order[k]@),
    ensures
        exists|i: int| is_first_undefined(order, sources, i),
    decreases k,
{
    if forall|j: int| 0 <= j < k ==> defines_source(sources, (#[trigger] order[j])@) {
        assert(is_first_undefined(order, sources, k));
    } else {
        let j = choose|j: int| 0 <= j < k && !defines_source(sources, (#[trigger] order[j])@);
        lemma_first_undefined_exists(order, sources, j);
    }
}

/// In a registry that validates, no dataset has two chains, and every chain is filed
/// under its own dataset, is not empty, and names only registered sources, so each of
/// its sources can be looked up.
pub proof fn law_valid_chains_resolve(registry: Registry)
    requires
        registry_valid(registry),
    ensures
        forall|i: int, j: int|
            0 <= i < j < registry.chains@.len() ==> (#[trigger] registry.chains@[i]).0
                != (#[trigger] registry.chains@[j]).0,
        forall|i: int|
            0 <= i < registry.chains@.len() ==> (#[trigger] registry.chains@[i]).1.dataset
                == registry.chains@[i].0 && registry.chains@[i].1.order@.len() > 0,
        forall|i: int, j: int|
            0 <= i < registry.chains@.len() && 0 <= j < (#[trigger] registry.chains@[i]).1.order@.len()
                ==> defines_source(registry.sources@, (#[trigger] registry.chains@[i].1.order@[j])@),
{
    assert forall|i: int, j: int| 0 <= i < j < registry.chains@.len() implies (
    #[trigger] registry.chains@[i]).0 != (#[trigger] registry.chains@[j]).0 by {
        assert(chain_problem_at(registry.chains@, j, registry.sources@) is None);
    }
    assert forall|i: int| 0 <= i < registry.chains@.len() implies (#[trigger] registry.chains@[i]).1.dataset
        == registry.chains@[i].0 && registry.chains@[i].1.order@.len() > 0 by {
        assert(chain_problem_at(registry.chains@, i, registry.sources@) is None);
        assert(chain_problem(registry.chains@[i].0, registry.chains@[i].1, registry.sources@) is None);
    }
    assert forall|i: int, j: int|
        0 <= i < registry.chains@.len() && 0 <= j < (#[trigger] registry.chains@[i]).1.order@.len()
        implies defines_source(registry.sources@, (#[trigger] registry.chains@[i].1.order@[j])@) by {
        let chain = registry.chains@[i].1;
        assert(chain_problem_at(registry.chains@, i, registry.sources@) is None);
        assert(chain_problem(registry.chains@[i].0, chain, registry.sources@) is None);
        if !defines_source(registry.sources@, chain.order@[j]@) {
            lemma_first_undefined_exists(chain.order@, registry.sources@, j);
        }
    }
}

/// A recorded entry is what the manifest then holds for its dataset, source and day.
pub proof fn law_record_then_read(index: Map<(Dataset, Seq<char>, Date), SyncEntry>, entry: SyncEntry)
    ensures
        index.insert(entry_key(entry), entry).contains_key((entry.dataset, entry.source@, entry.trade_date)),
        index.insert(entry_key(entry), entry)[(entry.dataset, entry.source@, entry.trade_date)] == entry,
{
}

/// Recording an entry leaves what the manifest holds under every other key as it was.
pub proof fn law_record_keeps_others(
    index: Map<(Dataset, Seq<char>, Date), SyncEntry>,
    entry: SyncEntry,
    key: (Dataset, Seq<char>, Date),
)
    requires
        key != entry_key(entry),
    ensures
        index.insert(entry_key(entry), entry).contains_key(key) == index.contains_key(key),
        index.contains_key(key) ==> index.insert(entry_key(entry), entry)[key] == index[key],
{
}

/// After a day is recorded as done for a dataset and source, it is no longer among the
/// missing days of that dataset and source; every other expected day keeps its place
/// among them.
pub proof fn law_done_day_not_missing(
    index: Map<(Dataset, Seq<char>, Date), SyncEntry>,
    entry: SyncEntry,
    expected: Seq<Date>,
)
    requires
        entry.status == SyncStatus::Done,
    ensures
        !missing_of(index.insert(entry_key(entry), entry), entry.dataset, entry.source@, expected).contains(
            entry.trade_date,
        ),
        missing_of(index.insert(entry_key(entry), entry), entry.dataset, entry.source@, expected)
            == expected.filter(|d: Date| d != entry.trade_date && !is_done(index, entry.dataset, entry.source@, d)),
{
    let after = index.insert(entry_key(entry), entry);
    let missing = missing_of(after, entry.dataset, entry.source@, expected);
    assert(is_done(after, entry.dataset, entry.source@, entry.trade_date));
    assert(!missing.contains(entry.trade_date)) by {
        if missing.contains(entry.trade_date) {
            let k = choose|k: int| 0 <= k < missing.len() && missing[k] == entry.trade_date;
            expected.lemma_filter_pred(|d: Date| !is_done(after, entry.dataset, entry.source@, d), k);
        }
    }
    assert forall|d: Date| (!is_done(after, entry.dataset, entry.source@, d)) == (d != entry.trade_date
        && !is_done(index, entry.dataset, entry.source@, d)) by {
        if d != entry.trade_date {
            assert((entry.dataset, entry.source@, d) != entry_key(entry));
        }
    }
    assert((|d: Date| !is_done(after, entry.dataset, entry.source@, d)) =~= (|d: Date| d
        != entry.trade_date && !is_done(index, entry.dataset, entry.source@, d)));
}

/// HTTP adapters serve daily bars only, and the Python worker only the datasets it can
/// hand over.
pub proof fn law_routes_respect_capabilities(source: SourceConfig, dataset: Dataset)
    ensures
        route_for(source, dataset) == Some(SyncRoute::Http) ==> dataset == Dataset::Daily,
        route_for(source, dataset) == Some(SyncRoute::Worker) ==> worker_hands_over(dataset),
{
}

/// A month-end list is determined by its pool of days: two lists that both describe
/// the same pool are equal.
pub proof fn law_month_ends_unique(a: Seq<Date>, b: Seq<Date>, pool: Set<Date>)
    requires
        month_ends_of(a, pool),
        month_ends_of(b, pool),
    ensures
        a == b,
{
    assert forall|x: Date| a.contains(x) ==> b.contains(x) by {
        if a.contains(x) {
            let i = choose|i: int| 0 <= i < a.len() && a[i] == x;
            lemma_month_end_in_other(a, b, pool, i);
        }
    }
    assert forall|x: Date| b.contains(x) ==> a.contains(x) by {
        if b.contains(x) {
            let i = choose|i: int| 0 <= i < b.len() && b[i] == x;
            lemma_month_end_in_other(b, a, pool, i);
        }
    }
    lemma_sorted_same_elements(a, b);
}

/// An entry of one month-end list of a pool is an entry of any other.
proof fn lemma_month_end_in_other(a: Seq<Date>, b: Seq<Date>, pool: Set<Date>, i: int)
    requires
        month_ends_of(a, pool),
        month_ends_of(b, pool),
        0 <= i < a.len(),
    ensures
        b.contains(a[i]),
{
    let x = a[i];
    assert(pool.contains(x));
    let j = choose|j: int| 0 <= j < b.len() && (#[trigger] b[j]).same_month(x);
    assert(pool.contains(b[j]));
    assert(b[j].same_month(a[i]));
    assert(b[j].not_after(a[i]));
    assert(x.same_month(b[j]));
    assert(x.not_after(b[j]));
    lemma_date_order(x, b[j], x);
    assert(b[j] == x);
}

/// Two strictly increasing lists of dates with the same elements are equal.
proof fn lemma_sorted_same_elements(a: Seq<Date>, b: Seq<Date>)
    requires
        forall|i: int, j: int| 0 <= i < j < a.len() ==> (#[trigger] a[i]).precedes(#[trigger] a[j]),
        forall|i: int, j: int| 0 <= i < j < b.len() ==> (#[trigger] b[i]).precedes(#[trigger] b[j]),
        forall|x: Date| a.contains(x) <==> b.contains(x),
    ensures
        a == b,
    decreases a.len(),
{
    if a.len() == 0 {
        if b.len() > 0 {
            assert(b.contains(b[0]));
        }
        assert(a =~= b);
    } else {
        assert(a.contains(a[0]));
        assert(b.len() > 0);
        assert(b.contains(b[0]));
        let ia = choose|i: int| 0 <= i < a.len() && a[i] == b[0];
        let ib = choose|i: int| 0 <= i < b.len() && b[i] == a[0];
        if ia > 0 {
            assert(a[0].precedes(a[ia]));
            if ib > 0 {
                assert(b[0].precedes(b[ib]));
                lemma_date_order(a[0], b[0], a[0]);
            }
        }
        if ib > 0 {
            assert(b[0].precedes(b[ib]));
            if ia > 0 {
                lemma_date_order(a[0], b[0], a[0]);
            }
        }
        lemma_date_order(a[0], b[0], a[0]);
        assert(a[0] == b[0]) by {
            if ia > 0 && ib == 0 {
                assert(a[0].precedes(a[ia]));
                lemma_date_order(a[0], a[ia], a[0]);
            } else if ib > 0 && ia == 0 {
                assert(b[0].precedes(b[ib]));
                lemma_date_order(b[0], b[ib], b[0]);
            } else if ia > 0 && ib > 0 {
                assert(a[0].precedes(b[0]));
                assert(b[0].precedes(a[0]));
            }
        }
        let ra = a.drop_first();
        let rb = b.drop_first();
        assert forall|x: Date| ra.contains(x) <==> rb.contains(x) by {
            if ra.contains(x) {
                let k = choose|k: int| 0 <= k < ra.len() && ra[k] == x;
                assert(a[k + 1] == x);
                assert(a[0].precedes(x));
                assert(b.contains(x));
                let m = choose|m: int| 0 <= m < b.len() && b[m] == x;
                if m == 0 {
                    lemma_date_order(a[0], x, x);
                }
                assert(rb[m - 1] == x);
            }
            if rb.contains(x) {
                let k = choose|k: int| 0 <= k < rb.len() && rb[k] == x;
                assert(b[k + 1] == x);
                assert(b[0].precedes(x));
                assert(a.contains(x));
                let m = choose|m: int| 0 <= m < a.len() && a[m] == x;
                if m == 0 {
                    lemma_date_order(b[0], x, x);
                }
                assert(ra[m - 1] == x);
            }
        }
        assert forall|i: int, j: int| 0 <= i < j < ra.len() implies (#[trigger] ra[i]).precedes(#[trigger] ra[j]) by {
            assert(a[i + 1].precedes(a[j + 1]));
        }
        assert forall|i: int, j: int| 0 <= i < j < rb.len() implies (#[trigger] rb[i]).precedes(#[trigger] rb[j]) by {
            assert(b[i + 1].precedes(b[j + 1]));
        }
        lemma_sorted_same_elements(ra, rb);
        assert(a =~= b) by {
            assert forall|k: int| 0 <= k < a.len() implies a[k] == b[k] by {
                if k > 0 {
                    assert(ra[k - 1] == rb[k - 1]);
                }
            }
        }
    }
}

/// A rebalancing batch never holds more than `max_positions` picks, nor more than
/// `max_per_industry` from one industry.
pub proof fn law_allocation_caps(
    picks: Seq<bool>,
    industries: Seq<Seq<char>>,
    max_positions: nat,
    max_per_industry: nat,
    key: Seq<char>,
)
    requires
        allocation_of(picks, industries, max_positions, max_per_industry),
    ensures
        picked_count(picks) <= max_positions,
        picked_in(picks, industries, key) <= max_per_industry,
    decreases picks.len(),
{
    if picks.len() > 0 {
        let n = picks.len() - 1;
        let p = picks.drop_last();
        let ind = industries.drop_last();
        assert(allocation_of(p, ind, max_positions, max_per_industry)) by {
            assert forall|k: int| 0 <= k < p.len() implies #[trigger] p[k] == (picked_count(p.take(k))
                < max_positions && picked_in(p.take(k), ind.take(k), ind[k]) < max_per_industry) by {
                assert(p.take(k) =~= picks.take(k));
                assert(ind.take(k) =~= industries.take(k));
                assert(picks[k] == (picked_count(picks.take(k)) < max_positions && picked_in(
                    picks.take(k),
                    industries.take(k),
                    industries[k],
                ) < max_per_industry));
            }
        }
        law_allocation_caps(p, ind, max_positions, max_per_industry, key);
        assert(picks.take(n) =~= p);
        assert(industries.take(n) =~= ind);
        assert(picks[n] == (picked_count(p) < max_positions && picked_in(p, ind, industries[n])
            < max_per_industry));
        if picks[n] && industries[n] != key {
            law_allocation_caps(p, ind, max_positions, max_per_industry, industries[n]);
        }
    }
}

/// Adding no months leaves a date as it is.
pub proof fn law_add_zero_months(date: Date)
    requires
        valid_ymd(date.spec_year(), date.spec_month(), date.spec_day()),
    ensures
        shifted_index(date, 0) / 12 == date.spec_year(),
        shifted_index(date, 0) % 12 + 1 == date.spec_month(),
        date.spec_day() <= spec_days_in_month(shifted_index(date, 0) / 12, shifted_index(date, 0) % 12 + 1),
{
    let y = date.spec_year();
    let m = date.spec_month();
    assert(shifted_index(date, 0) == y * 12 + (m - 1));
    assert((y * 12 + (m - 1)) / 12 == y && (y * 12 + (m - 1)) % 12 == m - 1) by (nonlinear_arith)
        requires
            1 <= m <= 12,
    ;
}

/// Adding a section to a report appends exactly that section's text to its rendering;
/// what was rendered before stays as it was.
pub proof fn law_render_appends(title: Seq<char>, sections: Seq<Seq<char>>, section: Seq<char>)
    ensures
        rendered(title, sections.push(section)) == rendered(title, sections) + section,
{
    assert(sections.push(section).drop_last() =~= sections);
    assert(rendered(title, sections.push(section)) =~= rendered(title, sections) + section);
}

/// The sum of the counts of a list of (day, count) pairs.
pub open spec fn total_count(counts: Seq<(Date, u64)>) -> int
    decreases counts.len(),
{
    if counts.len() == 0 {
        0
    } else {
        total_count(counts.drop_last()) + counts.last().1
    }
}

/// The sum, over a list of days, of how often each occurs in `days`.
spec fn occurrence_sum(keys: Seq<Date>, days: Seq<Date>) -> int
    decreases keys.len(),
{
    if keys.len() == 0 {
        0
    } else {
        occurrence_sum(keys.drop_last(), days) + occurrences(days, keys.last())
    }
}

/// How many of `keys` equal `x`.
spec fn hits(keys: Seq<Date>, x: Date) -> int
    decreases keys.len(),
{
    if keys.len() == 0 {
        0
    } else {
        hits(keys.drop_last(), x) + if keys.last() == x {
            1int
        } else {
            0int
        }
    }
}

/// Distinct keys hold `x` once if they hold it, and never otherwise.
proof fn lemma_hits_distinct(keys: Seq<Date>, x: Date)
    requires
        forall|a: int, b: int| 0 <= a < keys.len() && 0 <= b < keys.len() && a != b ==> keys[a] != keys[b],
    ensures
        hits(keys, x) == if keys.contains(x) {
            1int
        } else {
            0int
        },
    decreases keys.len(),
{
    if keys.len() > 0 {
        let rest = keys.drop_last();
        lemma_hits_distinct(rest, x);
        if keys.last() == x {
            assert(!rest.contains(x)) by {
                if rest.contains(x) {
                    let k = choose|k: int| 0 <= k < rest.len() && rest[k] == x;
                    assert(keys[k] == keys[keys.len() - 1]);
                }
            }
            assert(keys.contains(x)) by {
                assert(keys[keys.len() - 1] == x);
            }
        } else {
            assert(keys.contains(x) == rest.contains(x)) by {
                if keys.contains(x) {
                    let k = choose|k: int| 0 <= k < keys.len() && keys[k] == x;
                    assert(k < keys.len() - 1);
                    assert(rest[k] == x);
                }
                if rest.contains(x) {
                    let k = choose|k: int| 0 <= k < rest.len() && rest[k] == x;
                    assert(keys[k] == x);
                }
            }
        }
    }
}

/// Summing occurrences over the keys splits over the last day.
proof fn lemma_occurrence_sum_step(keys: Seq<Date>, days: Seq<Date>)
    requires
        days.len() > 0,
    ensures
        occurrence_sum(keys, days) == occurrence_sum(keys, days.drop_last()) + hits(keys, days.last()),
    decreases keys.len(),
{
    if keys.len() > 0 {
        lemma_occurrence_sum_step(keys.drop_last(), days);
    }
}

/// Over distinct keys that cover every day, the occurrences add up to the number of
/// days.
proof fn lemma_occurrence_sum_covers(keys: Seq<Date>, days: Seq<Date>)
    requires
        forall|a: int, b: int| 0 <= a < keys.len() && 0 <= b < keys.len() && a != b ==> keys[a] != keys[b],
        forall|d: Date| days.contains(d) ==> keys.contains(d),
    ensures
        occurrence_sum(keys, days) == days.len(),
    decreases days.len(),
{
    if days.len() == 0 {
        lemma_occurrence_sum_empty(keys, days);
    } else {
        let rest = days.drop_last();
        assert forall|d: Date| rest.contains(d) implies keys.contains(d) by {
            let k = choose|k: int| 0 <= k < rest.len() && rest[k] == d;
            assert(days[k] == d);
        }
        lemma_occurrence_sum_covers(keys, rest);
        lemma_occurrence_sum_step(keys, days);
        assert(days.contains(days.last())) by {
            assert(days[days.len() - 1] == days.last());
        }
        lemma_hits_distinct(keys, days.last());
    }
}

/// No day occurs in an empty list.
proof fn lemma_occurrence_sum_empty(keys: Seq<Date>, days: Seq<Date>)
    requires
        days.len() == 0,
    ensures
        occurrence_sum(keys, days) == 0,
    decreases keys.len(),
{
    if keys.len() > 0 {
        lemma_occurrence_sum_empty(keys.drop_last(), days);
    }
}

/// The total of a count list is the occurrence sum over its days.
proof fn lemma_total_is_sum(counts: Seq<(Date, u64)>, days: Seq<Date>)
    requires
        forall|a: int| 0 <= a < counts.len() ==> (#[trigger] counts[a]).1 == occurrences(days, counts[a].0),
    ensures
        total_count(counts) == occurrence_sum(counts.map_values(|c: (Date, u64)| c.0), days),
    decreases counts.len(),
{
    let keys = counts.map_values(|c: (Date, u64)| c.0);
    if counts.len() > 0 {
        let rest = counts.drop_last();
        assert forall|a: int| 0 <= a < rest.len() implies (#[trigger] rest[a]).1 == occurrences(days, rest[a].0) by {
            assert(rest[a] == counts[a]);
        }
        lemma_total_is_sum(rest, days);
        assert(keys.drop_last() =~= rest.map_values(|c: (Date, u64)| c.0));
        assert(counts[counts.len() - 1].1 == occurrences(days, counts[counts.len() - 1].0));
    }
}

/// The per-day counts of a run add up to the number of rows it fetched.
pub proof fn law_daily_counts_total(counts: Seq<(Date, u64)>, days: Seq<Date>)
    requires
        counts_days(counts, days),
    ensures
        total_count(counts) == days.len(),
{
    let keys = counts.map_values(|c: (Date, u64)| c.0);
    lemma_total_is_sum(counts, days);
    assert forall|a: int, b: int| 0 <= a < keys.len() && 0 <= b < keys.len() && a != b implies keys[a] != keys[b] by {
        if a < b {
            assert(counts[a].0.precedes(counts[b].0));
        } else {
            assert(counts[b].0.precedes(counts[a].0));
        }
        lemma_date_order(counts[a].0, counts[b].0, counts[a].0);
    }
    assert forall|d: Date| days.contains(d) implies keys.contains(d) by {
        let a = choose|a: int| 0 <= a < counts.len() && (#[trigger] counts[a]).0 == d;
        assert(keys[a] == d);
    }
    lemma_occurrence_sum_covers(keys, days);
}

/// A symbol's unified code `600519.SH` is already in canonical form, whatever its
/// exchange, when its code is six digits.
pub proof fn law_ts_code_is_canonical(code: Seq<char>, exchange: Exchange)
    requires
        code.len() == 6,
        all_digits(code),
    ensures
        canonical_form(code + seq!['.'] + exchange_suffix(exchange)) == Some(
            code + seq!['.'] + exchange_suffix(exchange),
        ),
{
    reveal_strlit("SH");
    reveal_strlit("SZ");
    reveal_strlit("BJ");
    let c = code + seq!['.'] + exchange_suffix(exchange);
    assert(c.take(6) =~= code);
    assert(c[6] == '.');
    assert(is_first_dot(c, 6)) by {
        assert forall|j: int| 0 <= j < 6 implies c[j] != '.' by {
            assert(c[j] == code[j]);
        }
    }
    assert forall|d: int| is_first_dot(c, d) implies d == 6 by {
        if d < 6 {
            assert(c[d] == code[d]);
        }
    }
    assert(c.skip(7) =~= exchange_suffix(exchange));
    match exchange {
        Exchange::Sse => assert(exchange_suffix(exchange) =~= seq!['S', 'H']),
        Exchange::Szse => assert(exchange_suffix(exchange) =~= seq!['S', 'Z']),
        Exchange::Bse => assert(exchange_suffix(exchange) =~= seq!['B', 'J']),
    }
    assert(code + seq!['.'] + exchange_suffix(exchange) =~= c);
}

/// A holding is never sold on a day it cannot trade: the exit bar that `first_exit`
/// may choose is the holding's own, falls on or after the end of its term, and the
/// first status recorded for its day is neither suspended nor limit-down.
pub proof fn law_exit_day_is_sellable(
    bars: Seq<BarDay>,
    statuses: Seq<DayStatus>,
    symbol: Seq<char>,
    date: Date,
    i: int,
    k: int,
)
    requires
        0 <= i < bars.len(),
        can_exit(bars, statuses, symbol, date, i),
        0 <= k < statuses.len(),
        statuses[k].trade_date == bars[i].trade_date,
        forall|j: int| 0 <= j < k ==> (#[trigger] statuses[j]).trade_date != bars[i].trade_date,
    ensures
        bars[i].symbol@ == symbol,
        !bars[i].trade_date.precedes(date),
        !statuses[k].is_suspended,
        !statuses[k].is_limit_down,
{
    let m = choose|m: int|
        #[trigger] crate::backtest::is_first_status(statuses, bars[i].trade_date, m)
            && !statuses[m].is_suspended && !statuses[m].is_limit_down;
    if m < k {
        assert(statuses[m].trade_date != bars[i].trade_date);
    } else if k < m {
        assert(statuses[k].trade_date != bars[i].trade_date);
    }
}

/// And every day that can trade is a candidate exit: a bar of the holding on or after
/// the end of its term whose first recorded status is neither suspended nor
/// limit-down can be sold.
pub proof fn law_tradable_day_can_exit(
    bars: Seq<BarDay>,
    statuses: Seq<DayStatus>,
    symbol: Seq<char>,
    date: Date,
    i: int,
    k: int,
)
    requires
        0 <= i < bars.len(),
        bars[i].symbol@ == symbol,
        !bars[i].trade_date.precedes(date),
        0 <= k < statuses.len(),
        statuses[k].trade_date == bars[i].trade_date,
        forall|j: int| 0 <= j < k ==> (#[trigger] statuses[j]).trade_date != bars[i].trade_date,
        !statuses[k].is_suspended,
        !statuses[k].is_limit_down,
    ensures
        can_exit(bars, statuses, symbol, date, i),
{
    assert(crate::backtest::is_first_status(statuses, bars[i].trade_date, k));
}

/// The end bound of the rebalancing calendar is inclusive: when a candidate has a bar
/// of its own dated exactly on `end` (and not before `start`), that day is the month
/// end of its month.
pub proof fn law_end_bound_is_inclusive(
    candidates: Seq<CandidateBars>,
    start: Option<Date>,
    e: Date,
    ends: Seq<Date>,
    i: int,
    j: int,
)
    requires
        month_ends_of(ends, eligible_days(candidates, start, Some(e))),
        0 <= i < candidates.len(),
        0 <= j < candidates[i].bars@.len(),
        candidates[i].bars@[j].symbol@ == candidates[i].symbol@,
        candidates[i].bars@[j].trade_date == e,
        match start {
            Some(s) => !e.precedes(s),
            None => true,
        },
    ensures
        ends.contains(e),
{
    let pool = eligible_days(candidates, start, Some(e));
    assert(counts_bar(candidates[i], candidates[i].bars@[j], start, Some(e)));
    assert(pool.contains(e));
    let m = choose|m: int| 0 <= m < ends.len() && (#[trigger] ends[m]).same_month(e);
    assert(pool.contains(ends[m]));
    let (a, b) = choose|a: int, b: int|
        0 <= a < candidates.len() && 0 <= b < candidates[a].bars@.len() && counts_bar(
            candidates[a],
            #[trigger] candidates[a].bars@[b],
            start,
            Some(e),
        ) && candidates[a].bars@[b].trade_date == ends[m];
    assert(!e.precedes(ends[m]));
    assert(e.not_after(ends[m]));
    assert(ends[m] == e);
}

/// The start bound is inclusive too: a candidate's own bar dated exactly on `start`
/// (and not after `end`) puts its month in the calendar, with a month end on or after
/// `start`.
pub proof fn law_start_bound_is_inclusive(
    candidates: Seq<CandidateBars>,
    s: Date,
    end: Option<Date>,
    ends: Seq<Date>,
    i: int,
    j: int,
)
    requires
        month_ends_of(ends, eligible_days(candidates, Some(s), end)),
        0 <= i < candidates.len(),
        0 <= j < candidates[i].bars@.len(),
        candidates[i].bars@[j].symbol@ == candidates[i].symbol@,
        candidates[i].bars@[j].trade_date == s,
        match end {
            Some(e) => !e.precedes(s),
            None => true,
        },
    ensures
        exists|m: int| 0 <= m < ends.len() && (#[trigger] ends[m]).same_month(s) && s.not_after(ends[m]),
{
    let pool = eligible_days(candidates, Some(s), end);
    assert(counts_bar(candidates[i], candidates[i].bars@[j], Some(s), end));
    assert(pool.contains(s));
    let m = choose|m: int| 0 <= m < ends.len() && (#[trigger] ends[m]).same_month(s);
    assert(s.not_after(ends[m]));
}

/// The Python worker hands over daily bars, adjustment factors, financial statements
/// and earnings notices: a Python source is routed to the worker for each of these
/// four, and for no other dataset; an HTTP source is routed to its adapter for daily
/// bars and for nothing else.
pub proof fn law_worker_datasets(source: SourceConfig, dataset: Dataset)
    ensures
        source.kind == SourceKind::PythonSdk ==> (route_for(source, dataset) == Some(
            SyncRoute::Worker,
        ) <==> (dataset == Dataset::Daily || dataset == Dataset::AdjFactor || dataset
            == Dataset::Financial || dataset == Dataset::EarningsNotice)),
        source.kind == SourceKind::PythonSdk ==> (route_for(source, dataset) is None <==> (
        dataset == Dataset::PriceVal || dataset == Dataset::Macro)),
        source.kind == SourceKind::Http ==> (route_for(source, dataset) == Some(SyncRoute::Http)
            <==> dataset == Dataset::Daily),
        source.kind == SourceKind::Http ==> route_for(source, dataset) != Some(SyncRoute::Worker),
{
}

/// The Gregorian month lengths: January, March, May, July, August, October and
/// December have 31 days; April, June, September and November 30; February 29 in a
/// leap year and 28 otherwise. So a year has 366 days when it is a leap year and 365
/// otherwise.
pub proof fn law_month_lengths(year: int)
    ensures
        spec_days_in_month(year, 1) == 31,
        spec_days_in_month(year, 2) == (if spec_is_leap_year(year) { 29int } else { 28int }),
        spec_days_in_month(year, 3) == 31,
        spec_days_in_month(year, 4) == 30,
        spec_days_in_month(year, 5) == 31,
        spec_days_in_month(year, 6) == 30,
        spec_days_in_month(year, 7) == 31,
        spec_days_in_month(year, 8) == 31,
        spec_days_in_month(year, 9) == 30,
        spec_days_in_month(year, 10) == 31,
        spec_days_in_month(year, 11) == 30,
        spec_days_in_month(year, 12) == 31,
        spec_days_in_month(year, 1) + spec_days_in_month(year, 2) + spec_days_in_month(year, 3)
            + spec_days_in_month(year, 4) + spec_days_in_month(year, 5) + spec_days_in_month(
            year,
            6,
        ) + spec_days_in_month(year, 7) + spec_days_in_month(year, 8) + spec_days_in_month(
            year,
            9,
        ) + spec_days_in_month(year, 10) + spec_days_in_month(year, 11) + spec_days_in_month(
            year,
            12,
        ) == (if spec_is_leap_year(year) { 366int } else { 365int }),
{
}

/// Shifting a date by months lands in the shifted month and keeps the day where that
/// month has it; a day the month lacks becomes its last day, which for April, June,
/// September and November is the 30th. So the 31st of a month shifted into November
/// is November 30th, and no valid day is ever past the end of its month.
pub proof fn law_add_months_clamps_to_month_end(date: Date, months: u32, shifted: Date)
    requires
        shifted.spec_year() == shifted_index(date, months) / 12,
        shifted.spec_month() == shifted_index(date, months) % 12 + 1,
        shifted.spec_day() == if date.spec_day() <= spec_days_in_month(
            shifted.spec_year(),
            shifted.spec_month(),
        ) {
            date.spec_day()
        } else {
            spec_days_in_month(shifted.spec_year(), shifted.spec_month())
        },
    ensures
        shifted.spec_day() <= date.spec_day(),
        (shifted.spec_month() == 4 || shifted.spec_month() == 6 || shifted.spec_month() == 9
            || shifted.spec_month() == 11) ==> shifted.spec_day() == if date.spec_day() <= 30 {
            date.spec_day()
        } else {
            30
        },
        shifted.spec_month() == 2 && !spec_is_leap_year(shifted.spec_year())
            ==> shifted.spec_day() <= 28,
{
}

/// The status cell of a data-quality row says 通过 exactly when the source passed its
/// health check, and 失败 exactly when it did not.
pub proof fn law_health_status_cell(line: SourceHealthLine)
    ensures
        line.ok ==> health_cells(line)[1] == "通过"@,
        !line.ok ==> health_cells(line)[1] == "失败"@,
        health_cells(line)[1] == "通过"@ <==> line.ok,
{
    reveal_strlit("通过");
    reveal_strlit("失败");
    assert("通过"@[0] != "失败"@[0]);
}

} // verus!
