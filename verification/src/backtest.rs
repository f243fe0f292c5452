//! The calendar of a monthly cross-section backtest: the last trading day of each
//! month, rebuilt from the candidates' own bars.

use vstd::prelude::*;

use crate::date::{lemma_date_order, Date};
use crate::text::str_eq;

verus! {

/// The trading day of one daily bar, with the symbol the bar was recorded under.
#[derive(Debug, Clone)]
pub struct BarDay {
    pub symbol: String,
    pub trade_date: Date,
}

/// The bars known for one candidate.
#[derive(Debug, Clone)]
pub struct CandidateBars {
    pub symbol: String,
    pub bars: Vec<BarDay>,
}

/// Whether `d` lies within the optional bounds, both inclusive.
pub open spec fn in_window(d: Date, start: Option<Date>, end: Option<Date>) -> bool {
    &&& match start {
        Some(s) => !d.precedes(s),
        None => true,
    }
    &&& match end {
        Some(e) => !e.precedes(d),
        None => true,
    }
}

/// Whether a bar of a candidate counts: it belongs to the candidate's own symbol and
/// falls within the bounds.
pub open spec fn counts_bar(c: CandidateBars, b: BarDay, start: Option<Date>, end: Option<Date>) -> bool {
    b.symbol@ == c.symbol@ && in_window(b.trade_date, start, end)
}

/// Whether some candidate has a counting bar on day `d`.
pub open spec fn has_eligible_bar(
    candidates: Seq<CandidateBars>,
    start: Option<Date>,
    end: Option<Date>,
    d: Date,
) -> bool {
    exists|i: int, j: int|
        0 <= i < candidates.len() && 0 <= j < candidates[i].bars@.len() && counts_bar(
            candidates[i],
            #[trigger] candidates[i].bars@[j],
            start,
            end,
        ) && candidates[i].bars@[j].trade_date == d
}

/// The trading days that count.
pub open spec fn eligible_days(
    candidates: Seq<CandidateBars>,
    start: Option<Date>,
    end: Option<Date>,
) -> Set<Date> {
    Set::new(|d: Date| has_eligible_bar(candidates, start, end, d))
}

/// The first `k` days of `days`, as a set.
pub open spec fn prefix_set(days: Seq<Date>, k: int) -> Set<Date> {
    Set::new(|x: Date| exists|m: int| 0 <= m < k && days[m] == x)
}

/// `ends` lists, in increasing order, the last day of `pool` in each month that
/// `pool` touches, and nothing else.
pub open spec fn month_ends_of(ends: Seq<Date>, pool: Set<Date>) -> bool {
    &&& forall|i: int, j: int| 0 <= i < j < ends.len() ==> (#[trigger] ends[i]).precedes(#[trigger] ends[j])
    &&& forall|i: int| 0 <= i < ends.len() ==> #[trigger] pool.contains(ends[i])
    &&& forall|i: int, d: Date|
        0 <= i < ends.len() && #[trigger] pool.contains(d) && d.same_month(#[trigger] ends[i]) ==> d.not_after(ends[i])
    &&& forall|d: Date| #[trigger] pool.contains(d) ==> exists|i: int| 0 <= i < ends.len() && (#[trigger] ends[i]).same_month(d)
}

/// Whether two dates fall in the same month of the same year.
fn same_month(a: &Date, b: &Date) -> (same: bool)
    ensures
        same == a.same_month(*b),
{
    a.year() == b.year() && a.month() == b.month()
}

/// Dates in different months are ordered as their months are.
proof fn lemma_month_order(a: Date, b: Date, c: Date)
    requires
        a.precedes(b),
        !a.same_month(b),
    ensures
        c.same_month(b) ==> a.precedes(c),
        c.same_month(a) ==> c.precedes(b),
{
}

/// Two entries of a month-end list in the same month are the same entry.
proof fn lemma_one_per_month(ends: Seq<Date>, pool: Set<Date>, a: int, b: int)
    requires
        month_ends_of(ends, pool),
        0 <= a < ends.len(),
        0 <= b < ends.len(),
        ends[a].same_month(ends[b]),
    ensures
        a == b,
{
    assert(pool.contains(ends[a]) && pool.contains(ends[b]));
    assert(ends[a].not_after(ends[b]));
    assert(ends[b].same_month(ends[a]));
    assert(ends[b].not_after(ends[a]));
    lemma_date_order(ends[a], ends[b], ends[a]);
    if a < b {
        assert(ends[a].precedes(ends[b]));
    } else if b < a {
        assert(ends[b].precedes(ends[a]));
    }
}

/// The counting trading days of all candidates, with repetitions.
fn eligible_dates(candidates: &[CandidateBars], start: Option<Date>, end: Option<Date>) -> (days: Vec<Date>)
    ensures
        forall|d: Date| days@.contains(d) <==> has_eligible_bar(candidates@, start, end, d),
{
    let mut days: Vec<Date> = Vec::new();
    let mut ci: usize = 0;
    while ci < candidates.len()
        invariant
            ci <= candidates@.len(),
            forall|d: Date|
                days@.contains(d) <==> exists|i: int, j: int|
                    0 <= i < ci && 0 <= j < candidates@[i].bars@.len() && counts_bar(
                        candidates@[i],
                        #[trigger] candidates@[i].bars@[j],
                        start,
                        end,
                    ) && candidates@[i].bars@[j].trade_date == d,
        decreases candidates@.len() - ci,
    {
        let candidate = &candidates[ci];
        let mut bj: usize = 0;
        while bj < candidate.bars.len()
            invariant
                ci < candidates@.len(),
                candidate == candidates@[ci as int],
                bj <= candidate.bars@.len(),
                forall|d: Date|
                    days@.contains(d) <==> exists|i: int, j: int|
                        0 <= i <= ci && 0 <= j < candidates@[i].bars@.len() && (i < ci || j < bj)
                            && counts_bar(
                            candidates@[i],
                            #[trigger] candidates@[i].bars@[j],
                            start,
                            end,
                        ) && candidates@[i].bars@[j].trade_date == d,
            decreases candidate.bars@.len() - bj,
        {
            let bar = &candidate.bars[bj];
            let after_start = match start {
                Some(s) => !bar.trade_date.is_before(&s),
                None => true,
            };
            let before_end = match end {
                Some(e) => !e.is_before(&bar.trade_date),
                None => true,
            };
            let counts = bar.symbol == candidate.symbol && after_start && before_end;
            let ghost old_days = days@;
            if counts {
                days.push(bar.trade_date);
            }
            assert forall|d: Date|
                days@.contains(d) <==> exists|i: int, j: int|
                    0 <= i <= ci && 0 <= j < candidates@[i].bars@.len() && (i < ci || j < bj + 1)
                        && counts_bar(
                        candidates@[i],
                        #[trigger] candidates@[i].bars@[j],
                        start,
                        end,
                    ) && candidates@[i].bars@[j].trade_date == d by {
                if days@.contains(d) {
                    if old_days.contains(d) {
                    } else {
                        assert(days@[days@.len() - 1] == d || old_days.contains(d)) by {
                            let m = choose|m: int| 0 <= m < days@.len() && days@[m] == d;
                            if m < old_days.len() {
                                assert(old_days[m] == d);
                            }
                        }
                        assert(candidates@[ci as int].bars@[bj as int] == *bar);
                    }
                }
                if exists|i: int, j: int|
                    0 <= i <= ci && 0 <= j < candidates@[i].bars@.len() && (i < ci || j < bj + 1)
                        && counts_bar(
                        candidates@[i],
                        #[trigger] candidates@[i].bars@[j],
                        start,
                        end,
                    ) && candidates@[i].bars@[j].trade_date == d {
                    let (i, j) = choose|i: int, j: int|
                        0 <= i <= ci && 0 <= j < candidates@[i].bars@.len() && (i < ci || j < bj
                            + 1) && counts_bar(
                            candidates@[i],
                            #[trigger] candidates@[i].bars@[j],
                            start,
                            end,
                        ) && candidates@[i].bars@[j].trade_date == d;
                    if i < ci || j < bj {
                        assert(old_days.contains(d));
                        let m = choose|m: int| 0 <= m < old_days.len() && old_days[m] == d;
                        assert(days@[m] == d);
                    } else {
                        assert(days@[days@.len() - 1] == d);
                    }
                }
            }
            bj = bj + 1;
        }
        ci = ci + 1;
    }
    days
}

/// The position of the entry in the month of `d`, if there is one.
fn find_month(ends: &Vec<Date>, d: Date) -> (pos: Option<usize>)
    ensures
        match pos {
            Some(i) => i < ends@.len() && ends@[i as int].same_month(d),
            None => forall|j: int| 0 <= j < ends@.len() ==> !(#[trigger] ends@[j]).same_month(d),
        },
{
    let mut i: usize = 0;
    while i < ends.len()
        invariant
            i <= ends@.len(),
            forall|j: int| 0 <= j < i ==> !(#[trigger] ends@[j]).same_month(d),
        decreases ends@.len() - i,
    {
        if same_month(&ends[i], &d) {
            return Some(i);
        }
        i = i + 1;
    }
    None
}

/// A later day of a month already listed takes that month's place.
proof fn lemma_replace_later(old_ends: Seq<Date>, pool: Set<Date>, i: int, d: Date)
    requires
        month_ends_of(old_ends, pool),
        0 <= i < old_ends.len(),
        old_ends[i].same_month(d),
        old_ends[i].precedes(d),
    ensures
        month_ends_of(old_ends.update(i, d), pool.insert(d)),
{
    let ends = old_ends.update(i, d);
    assert forall|a: int, b: int| 0 <= a < b < ends.len() implies (#[trigger] ends[a]).precedes(
        #[trigger] ends[b],
    ) by {
        if a == i || b == i {
            if old_ends[a].same_month(old_ends[b]) {
                lemma_one_per_month(old_ends, pool, a, b);
            }
            lemma_month_order(old_ends[a], old_ends[b], d);
        }
    }
    assert forall|a: int| 0 <= a < ends.len() implies #[trigger] pool.insert(d).contains(ends[a]) by {
        if a != i {
            assert(pool.contains(old_ends[a]));
        }
    }
    assert forall|a: int, x: Date|
        0 <= a < ends.len() && #[trigger] pool.insert(d).contains(x) && x.same_month(
            #[trigger] ends[a],
        ) implies x.not_after(ends[a]) by {
        if x == d {
            if a != i {
                lemma_one_per_month(old_ends, pool, a, i);
            }
        } else {
            assert(pool.contains(x));
            if a == i {
                assert(x.not_after(old_ends[a]));
                lemma_date_order(x, old_ends[a], d);
            }
        }
    }
    assert forall|x: Date| #[trigger] pool.insert(d).contains(x) implies exists|a: int|
        0 <= a < ends.len() && (#[trigger] ends[a]).same_month(x) by {
        if x == d {
            assert(ends[i].same_month(x));
        } else {
            assert(pool.contains(x));
            let a = choose|a: int| 0 <= a < old_ends.len() && (#[trigger] old_ends[a]).same_month(x);
            assert(ends[a].same_month(x));
        }
    }
}

/// A day no later than its month's entry leaves the list as it is.
proof fn lemma_keep_earlier(ends: Seq<Date>, pool: Set<Date>, i: int, d: Date)
    requires
        month_ends_of(ends, pool),
        0 <= i < ends.len(),
        ends[i].same_month(d),
        !ends[i].precedes(d),
    ensures
        month_ends_of(ends, pool.insert(d)),
{
    lemma_date_order(ends[i], d, d);
    assert forall|a: int| 0 <= a < ends.len() implies #[trigger] pool.insert(d).contains(ends[a]) by {
        assert(pool.contains(ends[a]));
    }
    assert forall|a: int, x: Date|
        0 <= a < ends.len() && #[trigger] pool.insert(d).contains(x) && x.same_month(
            #[trigger] ends[a],
        ) implies x.not_after(ends[a]) by {
        if x == d {
            if a != i {
                lemma_one_per_month(ends, pool, a, i);
            }
        } else {
            assert(pool.contains(x));
        }
    }
    assert forall|x: Date| #[trigger] pool.insert(d).contains(x) implies exists|a: int|
        0 <= a < ends.len() && (#[trigger] ends[a]).same_month(x) by {
        if x == d {
            assert(ends[i].same_month(x));
        } else {
            assert(pool.contains(x));
        }
    }
}

/// A day of a month not yet listed enters the list at its place in the order.
proof fn lemma_insert_new(old_ends: Seq<Date>, pool: Set<Date>, p: int, d: Date)
    requires
        month_ends_of(old_ends, pool),
        forall|j: int| 0 <= j < old_ends.len() ==> !(#[trigger] old_ends[j]).same_month(d),
        0 <= p <= old_ends.len(),
        forall|j: int| 0 <= j < p ==> !d.precedes(#[trigger] old_ends[j]),
        p < old_ends.len() ==> d.precedes(old_ends[p]),
    ensures
        month_ends_of(old_ends.insert(p, d), pool.insert(d)),
{
    let ends = old_ends.insert(p, d);
    assert forall|j: int| 0 <= j < p implies (#[trigger] old_ends[j]).precedes(d) by {
        lemma_date_order(old_ends[j], d, d);
        assert(!old_ends[j].same_month(d));
    }
    assert forall|j: int| p <= j < old_ends.len() implies d.precedes(#[trigger] old_ends[j]) by {
        if j > p {
            assert(old_ends[p].precedes(old_ends[j]));
            lemma_date_order(d, old_ends[p], old_ends[j]);
        }
    }
    assert forall|a: int, b: int| 0 <= a < b < ends.len() implies (#[trigger] ends[a]).precedes(
        #[trigger] ends[b],
    ) by {
        if a < p && b < p {
            assert(ends[a] == old_ends[a] && ends[b] == old_ends[b]);
        } else if a < p && b == p {
            assert(old_ends[a].precedes(d));
        } else if a < p {
            assert(ends[b] == old_ends[b - 1]);
            assert(old_ends[a].precedes(d));
            assert(d.precedes(old_ends[b - 1]));
            lemma_date_order(old_ends[a], d, old_ends[b - 1]);
        } else if a == p {
            assert(ends[b] == old_ends[b - 1]);
            assert(d.precedes(old_ends[b - 1]));
        } else {
            assert(ends[a] == old_ends[a - 1] && ends[b] == old_ends[b - 1]);
            assert(old_ends[a - 1].precedes(old_ends[b - 1]));
        }
    }
    assert forall|a: int| 0 <= a < ends.len() implies #[trigger] pool.insert(d).contains(ends[a]) by {
        if a < p {
            assert(pool.contains(old_ends[a]));
        } else if a > p {
            assert(ends[a] == old_ends[a - 1]);
            assert(pool.contains(old_ends[a - 1]));
        }
    }
    assert forall|a: int, x: Date|
        0 <= a < ends.len() && #[trigger] pool.insert(d).contains(x) && x.same_month(
            #[trigger] ends[a],
        ) implies x.not_after(ends[a]) by {
        if a == p {
            if x != d {
                assert(pool.contains(x));
                let c = choose|c: int| 0 <= c < old_ends.len() && (#[trigger] old_ends[c]).same_month(x);
                assert(old_ends[c].same_month(d));
            }
        } else {
            let oa = if a < p { a } else { a - 1 };
            assert(ends[a] == old_ends[oa]);
            if x == d {
                assert(old_ends[oa].same_month(d));
            } else {
                assert(pool.contains(x));
                assert(x.not_after(old_ends[oa]));
            }
        }
    }
    assert forall|x: Date| #[trigger] pool.insert(d).contains(x) implies exists|a: int|
        0 <= a < ends.len() && (#[trigger] ends[a]).same_month(x) by {
        if x == d {
            assert(ends[p].same_month(x));
        } else {
            assert(pool.contains(x));
            let c = choose|c: int| 0 <= c < old_ends.len() && (#[trigger] old_ends[c]).same_month(x);
            if c < p {
                assert(ends[c].same_month(x));
            } else {
                assert(ends[c + 1].same_month(x));
            }
        }
    }
}

/// Records day `d` in a month-end list: it replaces its month's entry if it is
/// later, or is inserted in order if its month is new.
fn record_day(ends: &mut Vec<Date>, d: Date, Ghost(pool): Ghost<Set<Date>>)
    requires
        month_ends_of(old(ends)@, pool),
    ensures
        month_ends_of(final(ends)@, pool.insert(d)),
{
    let ghost old_ends = ends@;
    match find_month(ends, d) {
        Some(i) => {
            if ends[i].is_before(&d) {
                proof {
                    lemma_replace_later(old_ends, pool, i as int, d);
                }
                ends.set(i, d);
            } else {
                proof {
                    lemma_keep_earlier(old_ends, pool, i as int, d);
                }
            }
        },
        None => {
            let mut p: usize = 0;
            while p < ends.len() && !d.is_before(&ends[p])
                invariant
                    ends@ == old_ends,
                    p <= ends@.len(),
                    forall|j: int| 0 <= j < p ==> !d.precedes(#[trigger] ends@[j]),
                decreases ends@.len() - p,
            {
                p = p + 1;
            }
            proof {
                lemma_insert_new(old_ends, pool, p as int, d);
            }
            ends.insert(p, d);
        },
    }
}

/// The last day of each month that `days` touches, in increasing order.
fn month_ends(days: &[Date]) -> (ends: Vec<Date>)
    ensures
        month_ends_of(ends@, prefix_set(days@, days@.len() as int)),
{
    let mut ends: Vec<Date> = Vec::new();
    for k in 0..days.len()
        invariant
            month_ends_of(ends@, prefix_set(days@, k as int)),
    {
        let d = days[k];
        let ghost pool = prefix_set(days@, k as int);
        assert(prefix_set(days@, k + 1) =~= pool.insert(d)) by {
            assert forall|x: Date| prefix_set(days@, k + 1).contains(x) implies pool.insert(d).contains(x) by {
                let m = choose|m: int| 0 <= m < k + 1 && days@[m] == x;
                if m < k {
                    assert(pool.contains(x));
                }
            }
            assert forall|x: Date| pool.insert(d).contains(x) implies prefix_set(days@, k + 1).contains(x) by {
                if x == d {
                    assert(days@[k as int] == x);
                } else {
                    let m = choose|m: int| 0 <= m < k && days@[m] == x;
                    assert(0 <= m < k + 1 && days@[m] == x);
                }
            }
        }
        record_day(&mut ends, d, Ghost(pool));
    }
    ends
}

/// The last trading day of each month, rebuilt from the candidates' bars: only a
/// candidate's bars under its own symbol count, and only days within the optional
/// bounds. The result is in increasing order, one day per month.
pub fn month_end_dates(candidates: &[CandidateBars], start: Option<Date>, end: Option<Date>) -> (ends: Vec<Date>)
    ensures
        month_ends_of(ends@, eligible_days(candidates@, start, end)),
{
    let days = eligible_dates(candidates, start, end);
    let ends = month_ends(days.as_slice());
    assert(prefix_set(days@, days@.len() as int) =~= eligible_days(candidates@, start, end)) by {
        assert forall|x: Date| prefix_set(days@, days@.len() as int).contains(x) <==> eligible_days(
            candidates@,
            start,
            end,
        ).contains(x) by {
            if prefix_set(days@, days@.len() as int).contains(x) {
                let m = choose|m: int| 0 <= m < days@.len() && days@[m] == x;
                assert(days@.contains(x));
            }
            if eligible_days(candidates@, start, end).contains(x) {
                assert(days@.contains(x));
                let m = choose|m: int| 0 <= m < days@.len() && days@[m] == x;
            }
        }
    }
    ends
}

/// The number of `true` entries in `picks`.
pub open spec fn picked_count(picks: Seq<bool>) -> nat
    decreases picks.len(),
{
    if picks.len() == 0 {
        0
    } else {
        picked_count(picks.drop_last()) + if picks.last() {
            1nat
        } else {
            0nat
        }
    }
}

/// The number of picked entries whose industry is `key`.
pub open spec fn picked_in(picks: Seq<bool>, industries: Seq<Seq<char>>, key: Seq<char>) -> nat
    decreases picks.len(),
{
    if picks.len() == 0 || industries.len() == 0 {
        0
    } else {
        picked_in(picks.drop_last(), industries.drop_last(), key) + if picks.last()
            && industries.last() == key {
            1nat
        } else {
            0nat
        }
    }
}

/// The industry under which a candidate is capped; candidates without one share a
/// bucket of their own.
pub open spec fn industry_key(industry: Option<String>) -> Seq<char> {
    match industry {
        Some(name) => name@,
        None => "__unknown__"@,
    }
}

/// The industry keys of the candidates, in order.
pub open spec fn industry_keys(industries: Seq<Option<String>>) -> Seq<Seq<char>> {
    industries.map_values(|i: Option<String>| industry_key(i))
}

/// `picks` takes each candidate, in order, while fewer than `max_positions` are taken
/// and fewer than `max_per_industry` of its industry are.
pub open spec fn allocation_of(
    picks: Seq<bool>,
    industries: Seq<Seq<char>>,
    max_positions: nat,
    max_per_industry: nat,
) -> bool {
    &&& picks.len() == industries.len()
    &&& forall|k: int|
        0 <= k < picks.len() ==> #[trigger] picks[k] == (picked_count(picks.take(k))
            < max_positions && picked_in(picks.take(k), industries.take(k), industries[k])
            < max_per_industry)
}

/// The number of picks never exceeds the number of entries.
proof fn lemma_picked_count_bound(picks: Seq<bool>)
    ensures
        picked_count(picks) <= picks.len(),
    decreases picks.len(),
{
    if picks.len() > 0 {
        lemma_picked_count_bound(picks.drop_last());
    }
}

/// The picks of one rebalancing batch: candidates come in the order of their symbols;
/// each is taken while the batch holds fewer than `max_positions` and its industry
/// fewer than `max_per_industry`; the others leave their share in cash.
pub fn allocate_positions(industries: &[Option<String>], max_positions: usize, max_per_industry: usize) -> (picks: Vec<bool>)
    ensures
        allocation_of(picks@, industry_keys(industries@), max_positions as nat, max_per_industry as nat),
{
    let ghost keys = industry_keys(industries@);
    let mut keys_exec: Vec<String> = Vec::new();
    for k in 0..industries.len()
        invariant
            keys == industry_keys(industries@),
            keys_exec@.len() == k,
            forall|j: int| 0 <= j < k ==> (#[trigger] keys_exec@[j])@ == keys[j],
    {
        let key = match &industries[k] {
            Some(name) => name.clone(),
            None => "__unknown__".to_string(),
        };
        keys_exec.push(key);
    }
    let mut picks: Vec<bool> = Vec::new();
    let mut taken: usize = 0;
    for k in 0..industries.len()
        invariant
            keys == industry_keys(industries@),
            keys_exec@.len() == industries@.len(),
            forall|j: int| 0 <= j < industries@.len() ==> (#[trigger] keys_exec@[j])@ == keys[j],
            picks@.len() == k,
            taken == picked_count(picks@),
            allocation_of(picks@, keys.take(k as int), max_positions as nat, max_per_industry as nat),
    {
        let mut same: usize = 0;
        for j in 0..k
            invariant
                k < industries@.len(),
                keys == industry_keys(industries@),
                keys.len() == industries@.len(),
                keys_exec@.len() == industries@.len(),
                forall|m: int| 0 <= m < industries@.len() ==> (#[trigger] keys_exec@[m])@ == keys[m],
                picks@.len() == k,
                same == picked_in(picks@.take(j as int), keys.take(j as int), keys[k as int]),
                same <= j,
        {
            let ghost pj = picks@.take(j + 1);
            let ghost kj = keys.take(j + 1);
            assert(pj.drop_last() =~= picks@.take(j as int));
            assert(kj.drop_last() =~= keys.take(j as int));
            if picks[j] && str_eq(keys_exec[j].as_str(), keys_exec[k].as_str()) {
                same = same + 1;
            }
        }
        assert(picks@.take(k as int) =~= picks@);
        proof {
            lemma_picked_count_bound(picks@);
        }
        let pick = taken < max_positions && same < max_per_industry;
        let ghost old_picks = picks@;
        picks.push(pick);
        if pick {
            taken = taken + 1;
        }
        assert(picks@.drop_last() =~= old_picks);
        assert(allocation_of(picks@, keys.take(k + 1), max_positions as nat, max_per_industry as nat)) by {
            assert forall|m: int| 0 <= m < picks@.len() implies #[trigger] picks@[m] == (picked_count(picks@.take(m))
                < max_positions && picked_in(picks@.take(m), keys.take(k + 1).take(m), keys.take(k + 1)[m])
                < max_per_industry) by {
                if m < k {
                    assert(picks@.take(m) =~= old_picks.take(m));
                    assert(keys.take(k + 1).take(m) =~= keys.take(k as int).take(m));
                    assert(old_picks[m] == (picked_count(old_picks.take(m)) < max_positions
                        && picked_in(old_picks.take(m), keys.take(k as int).take(m), keys.take(k as int)[m])
                        < max_per_industry));
                } else {
                    assert(picks@.take(m) =~= old_picks);
                    assert(keys.take(k + 1).take(m) =~= keys.take(k as int));
                }
            }
        }
    }
    assert(keys.take(industries@.len() as int) =~= keys);
    picks
}

/// The trading state of a symbol on one day, as far as execution is concerned.
#[derive(Debug, Clone, Copy)]
pub struct DayStatus {
    pub trade_date: Date,
    pub is_suspended: bool,
    pub is_limit_up: bool,
    pub is_limit_down: bool,
}

/// Whether `i` is the first status recorded for `date`.
pub open spec fn is_first_status(statuses: Seq<DayStatus>, date: Date, i: int) -> bool {
    &&& 0 <= i < statuses.len()
    &&& statuses[i].trade_date == date
    &&& forall|j: int| 0 <= j < i ==> (#[trigger] statuses[j]).trade_date != date
}

/// The position of the first status recorded for `date`, if any.
pub fn status_at(statuses: &[DayStatus], date: Date) -> (found: Option<usize>)
    ensures
        match found {
            Some(i) => is_first_status(statuses@, date, i as int),
            None => forall|j: int| 0 <= j < statuses@.len() ==> (#[trigger] statuses@[j]).trade_date != date,
        },
{
    for i in 0..statuses.len()
        invariant
            forall|j: int| 0 <= j < i ==> (#[trigger] statuses@[j]).trade_date != date,
    {
        if statuses[i].trade_date == date {
            return Some(i);
        }
    }
    None
}

/// Whether a bar of `symbol` falls strictly after `date`.
pub open spec fn trades_after(bar: BarDay, symbol: Seq<char>, date: Date) -> bool {
    bar.symbol@ == symbol && date.precedes(bar.trade_date)
}

/// Whether bar `j` comes before bar `i` when the bars are sorted by day, ties kept in
/// their given order.
pub open spec fn sorts_before(bars: Seq<BarDay>, j: int, i: int) -> bool {
    bars[j].trade_date.precedes(bars[i].trade_date) || (bars[j].trade_date == bars[i].trade_date
        && j < i)
}

/// How many of the first `n` bars trade after `date` and sort before bar `i`.
pub open spec fn rank_below(bars: Seq<BarDay>, symbol: Seq<char>, date: Date, i: int, n: int) -> nat
    decreases n,
{
    if n <= 0 {
        0
    } else {
        rank_below(bars, symbol, date, i, n - 1) + if trades_after(bars[n - 1], symbol, date)
            && sorts_before(bars, n - 1, i) {
            1nat
        } else {
            0nat
        }
    }
}

/// The bar on which an order placed on `date` executes: the `lag`-th bar of `symbol`
/// after `date` in order of day (a lag of 0 counts as 1).
pub fn nth_bar_after(bars: &[BarDay], symbol: &str, date: Date, lag: u32) -> (found: Option<usize>)
    ensures
        match found {
            Some(i) => i < bars@.len() && trades_after(bars@[i as int], symbol@, date) && rank_below(
                bars@,
                symbol@,
                date,
                i as int,
                bars@.len() as int,
            ) == (if lag == 0 { 0 } else { lag - 1 }),
            None => forall|i: int|
                0 <= i < bars@.len() && #[trigger] trades_after(bars@[i], symbol@, date) ==> rank_below(
                    bars@,
                    symbol@,
                    date,
                    i,
                    bars@.len() as int,
                ) != (if lag == 0 { 0 } else { lag - 1 }),
        },
{
    let target: u32 = if lag == 0 { 0 } else { lag - 1 };
    for i in 0..bars.len()
        invariant
            target == (if lag == 0 { 0 } else { lag - 1 }),
            forall|m: int|
                0 <= m < i && #[trigger] trades_after(bars@[m], symbol@, date) ==> rank_below(
                    bars@,
                    symbol@,
                    date,
                    m,
                    bars@.len() as int,
                ) != target,
    {
        let bar = &bars[i];
        if str_eq(bar.symbol.as_str(), symbol) && date.is_before(&bar.trade_date) {
            let mut rank: usize = 0;
            for j in 0..bars.len()
                invariant
                    i < bars@.len(),
                    rank == rank_below(bars@, symbol@, date, i as int, j as int),
                    rank <= j,
            {
                let other = &bars[j];
                if str_eq(other.symbol.as_str(), symbol) && date.is_before(&other.trade_date) && (
                other.trade_date.is_before(&bars[i].trade_date) || (other.trade_date
                    == bars[i].trade_date && j < i)) {
                    rank = rank + 1;
                }
            }
            if rank == target as usize {
                return Some(i);
            }
        }
    }
    None
}

/// Whether bar `i` of `symbol` on or after `date` can be sold: a status is recorded
/// for its day, and it is neither suspended nor limit-down.
pub open spec fn can_exit(
    bars: Seq<BarDay>,
    statuses: Seq<DayStatus>,
    symbol: Seq<char>,
    date: Date,
    i: int,
) -> bool {
    &&& bars[i].symbol@ == symbol
    &&& !bars[i].trade_date.precedes(date)
    &&& exists|k: int| #[trigger] is_first_status(statuses, bars[i].trade_date, k) && !statuses[k].is_suspended
        && !statuses[k].is_limit_down
}

/// The bar on which a holding is sold when its term ends on `date`: the earliest bar
/// of `symbol` on or after `date` that can be sold (the first such if days repeat).
pub fn first_exit(bars: &[BarDay], statuses: &[DayStatus], symbol: &str, date: Date) -> (found: Option<usize>)
    ensures
        match found {
            Some(i) => i < bars@.len() && can_exit(bars@, statuses@, symbol@, date, i as int)
                && forall|j: int|
                0 <= j < bars@.len() && #[trigger] can_exit(bars@, statuses@, symbol@, date, j) ==> !bars@[j].trade_date.precedes(
                    bars@[i as int].trade_date,
                ) && (j < i ==> bars@[j].trade_date != bars@[i as int].trade_date),
            None => forall|j: int| 0 <= j < bars@.len() ==> !#[trigger] can_exit(bars@, statuses@, symbol@, date, j),
        },
{
    let mut best: Option<usize> = None;
    for i in 0..bars.len()
        invariant
            match best {
                Some(b) => b < i && can_exit(bars@, statuses@, symbol@, date, b as int) && forall|j: int|
                    0 <= j < i && #[trigger] can_exit(bars@, statuses@, symbol@, date, j) ==> !bars@[j].trade_date.precedes(
                        bars@[b as int].trade_date,
                    ) && (j < b ==> bars@[j].trade_date != bars@[b as int].trade_date),
                None => forall|j: int| 0 <= j < i ==> !#[trigger] can_exit(bars@, statuses@, symbol@, date, j),
            },
    {
        let bar = &bars[i];
        let mut sellable = false;
        if str_eq(bar.symbol.as_str(), symbol) && !bar.trade_date.is_before(&date) {
            match status_at(statuses, bar.trade_date) {
                Some(k) => {
                    sellable = !statuses[k].is_suspended && !statuses[k].is_limit_down;
                    proof {
                        assert forall|m: int| #[trigger] is_first_status(statuses@, bar.trade_date, m) implies m == k by {
                            if m < k {
                                assert(statuses@[m].trade_date != bar.trade_date);
                            } else if m > k {
                                assert(statuses@[k as int].trade_date != bar.trade_date);
                            }
                        }
                    }
                },
                None => {},
            }
        }
        assert(sellable == can_exit(bars@, statuses@, symbol@, date, i as int));
        if sellable {
            match best {
                Some(b) => {
                    if bar.trade_date.is_before(&bars[b].trade_date) {
                        proof {
                            assert forall|j: int|
                                0 <= j < i + 1 && #[trigger] can_exit(bars@, statuses@, symbol@, date, j) implies !bars@[j].trade_date.precedes(
                                bars@[i as int].trade_date,
                            ) && (j < i ==> bars@[j].trade_date != bars@[i as int].trade_date) by {
                                if j < i {
                                    lemma_date_order(bars@[j].trade_date, bars@[b as int].trade_date, bars@[i as int].trade_date);
                                    lemma_date_order(bars@[j].trade_date, bars@[i as int].trade_date, bars@[b as int].trade_date);
                                }
                            }
                        }
                        best = Some(i);
                    } else {
                        proof {
                            lemma_date_order(bars@[i as int].trade_date, bars@[b as int].trade_date, bars@[b as int].trade_date);
                        }
                    }
                },
                None => {
                    best = Some(i);
                },
            }
        }
    }
    best
}

/// Orders execute on the first trading day after the signal, unless configured.
pub fn default_execution_lag() -> (lag: u32)
    ensures
        lag == 1,
{
    1
}

/// A rebalancing batch holds at most twenty positions, unless configured.
pub fn default_max_positions() -> (positions: u32)
    ensures
        positions == 20,
{
    20
}

} // verus!
