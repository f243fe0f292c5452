//! Which financial snapshots a day may see: per reporting period, the latest one
//! announced by then.

use vstd::prelude::*;

use crate::date::{lemma_date_order, Date};

verus! {

/// When a financial snapshot was reported on, and when it was announced.
#[derive(Debug, Clone, Copy)]
pub struct Announcement {
    pub report_period: Date,
    pub ann_date: Date,
}

/// Whether a snapshot is known on `as_of`: announced, and its period ended, by then.
pub open spec fn visible(record: Announcement, as_of: Date) -> bool {
    !as_of.precedes(record.ann_date) && !as_of.precedes(record.report_period)
}

/// Whether record `i` is the one that `as_of` sees for its period: the latest
/// announced, the first of several announced on that latest day.
pub open spec fn is_latest(records: Seq<Announcement>, as_of: Date, i: int) -> bool {
    &&& 0 <= i < records.len()
    &&& visible(records[i], as_of)
    &&& forall|j: int|
        0 <= j < records.len() && visible(#[trigger] records[j], as_of) && records[j].report_period
            == records[i].report_period ==> !records[i].ann_date.precedes(records[j].ann_date) && (j
            < i ==> records[j].ann_date != records[i].ann_date)
}

/// Whether record `j` is known on `as_of`.
pub open spec fn wanted_record(records: Seq<Announcement>, as_of: Date, j: int) -> bool {
    0 <= j < records.len() && visible(records[j], as_of)
}

/// `picked` lists, in increasing order of period, the record that `as_of` sees for
/// every period it knows.
pub open spec fn latest_of(picked: Seq<usize>, records: Seq<Announcement>, as_of: Date) -> bool {
    &&& forall|k: int| 0 <= k < picked.len() ==> is_latest(records, as_of, #[trigger] picked[k] as int)
    &&& forall|a: int, b: int|
        0 <= a < b < picked.len() ==> records[#[trigger] picked[a] as int].report_period.precedes(
            records[#[trigger] picked[b] as int].report_period,
        )
    &&& forall|j: int| #[trigger] wanted_record(records, as_of, j) ==> exists|k: int|
        0 <= k < picked.len() && records[picked[k] as int].report_period == records[j].report_period
}

/// The records that `as_of` sees, one per reporting period, in period order.
pub fn latest_reports(records: &[Announcement], as_of: Date) -> (picked: Vec<usize>)
    ensures
        latest_of(picked@, records@, as_of),
{
    let mut picked: Vec<usize> = Vec::new();
    for n in 0..records.len()
        invariant
            latest_of(picked@, records@.take(n as int), as_of),
            forall|k: int| 0 <= k < picked@.len() ==> (#[trigger] picked@[k]) < n,
    {
        let record = records[n];
        let ghost before = records@.take(n as int);
        let ghost after = records@.take(n + 1);
        let ghost old_picked = picked@;
        assert forall|j: int| 0 <= j < n implies after[j] == before[j] && before[j] == records@[j] by {}
        assert(after[n as int] == record);
        assert(extends(before, after));
        if !as_of.is_before(&record.ann_date) && !as_of.is_before(&record.report_period) {
            let mut k: usize = 0;
            while k < picked.len() && records[picked[k]].report_period != record.report_period
                invariant
                    picked@ == old_picked,
                    forall|m: int| 0 <= m < picked@.len() ==> (#[trigger] picked@[m]) < n,
                    n < records@.len(),
                    k <= picked@.len(),
                    forall|m: int| 0 <= m < k ==> records@[#[trigger] picked@[m] as int].report_period != record.report_period,
                decreases picked@.len() - k,
            {
                k = k + 1;
            }
            if k < picked.len() {
                let current = picked[k];
                if records[current].ann_date.is_before(&record.ann_date) {
                    proof {
                        lemma_replace_record(old_picked, before, after, as_of, k as int, n);
                    }
                    picked.set(k, n);
                } else {
                    proof {
                        lemma_keep_record(old_picked, before, after, as_of, k as int);
                    }
                }
            } else {
                let mut p: usize = 0;
                while p < picked.len() && !record.report_period.is_before(&records[picked[p]].report_period)
                    invariant
                        picked@ == old_picked,
                        forall|m: int| 0 <= m < picked@.len() ==> (#[trigger] picked@[m]) < n,
                        n < records@.len(),
                        p <= picked@.len(),
                        forall|m: int| 0 <= m < p ==> !record.report_period.precedes(records@[#[trigger] picked@[m] as int].report_period),
                    decreases picked@.len() - p,
                {
                    p = p + 1;
                }
                proof {
                    lemma_insert_record(old_picked, before, after, as_of, p as int, n);
                }
                picked.insert(p, n);
            }
        } else {
            proof {
                lemma_skip_record(old_picked, before, after, as_of);
            }
        }
    }
    proof {
        assert(records@.take(records@.len() as int) =~= records@);
    }
    picked
}

/// Facts shared by the steps: the new record sits at the end of the longer prefix.
pub open spec fn extends(before: Seq<Announcement>, after: Seq<Announcement>) -> bool {
    &&& after.len() == before.len() + 1
    &&& forall|j: int| 0 <= j < before.len() ==> after[j] == before[j]
}

/// A record that is not known yet changes nothing.
proof fn lemma_skip_record(picked: Seq<usize>, before: Seq<Announcement>, after: Seq<Announcement>, as_of: Date)
    requires
        latest_of(picked, before, as_of),
        forall|k: int| 0 <= k < picked.len() ==> (#[trigger] picked[k]) < before.len(),
        extends(before, after),
        !visible(after[before.len() as int], as_of),
    ensures
        latest_of(picked, after, as_of),
{
    assert forall|k: int| 0 <= k < picked.len() implies is_latest(after, as_of, #[trigger] picked[k] as int) by {
        assert(is_latest(before, as_of, picked[k] as int));
    }
    assert forall|j: int| #[trigger] wanted_record(after, as_of, j) implies exists|k: int|
        0 <= k < picked.len() && after[picked[k] as int].report_period == after[j].report_period by {
        assert(wanted_record(before, as_of, j));
        let k = choose|k: int| 0 <= k < picked.len() && before[picked[k] as int].report_period == before[j].report_period;
        assert(after[picked[k] as int].report_period == after[j].report_period);
    }
}

/// A record announced no later than its period's pick leaves the pick in place.
proof fn lemma_keep_record(
    picked: Seq<usize>,
    before: Seq<Announcement>,
    after: Seq<Announcement>,
    as_of: Date,
    k: int,
)
    requires
        latest_of(picked, before, as_of),
        forall|m: int| 0 <= m < picked.len() ==> (#[trigger] picked[m]) < before.len(),
        extends(before, after),
        visible(after[before.len() as int], as_of),
        0 <= k < picked.len(),
        before[picked[k] as int].report_period == after[before.len() as int].report_period,
        !before[picked[k] as int].ann_date.precedes(after[before.len() as int].ann_date),
    ensures
        latest_of(picked, after, as_of),
{
    let n = before.len() as int;
    let r = after[n];
    assert forall|m: int| 0 <= m < picked.len() implies is_latest(after, as_of, #[trigger] picked[m] as int) by {
        let c = picked[m] as int;
        assert(is_latest(before, as_of, c));
        if before[c].report_period == r.report_period {
            assert(is_latest(before, as_of, picked[k] as int));
            if m != k {
                assert(before[picked[k] as int].report_period == before[c].report_period);
                if m < k {
                    assert(before[c].report_period.precedes(before[picked[k] as int].report_period));
                } else {
                    assert(before[picked[k] as int].report_period.precedes(before[c].report_period));
                }
                lemma_date_order(before[c].report_period, before[c].report_period, before[c].report_period);
            }
            lemma_date_order(r.ann_date, before[c].ann_date, before[c].ann_date);
        }
        assert forall|j: int|
            0 <= j < after.len() && visible(#[trigger] after[j], as_of) && after[j].report_period
                == after[c].report_period implies !after[c].ann_date.precedes(after[j].ann_date) && (j
            < c ==> after[j].ann_date != after[c].ann_date) by {
            if j < n {
                assert(visible(before[j], as_of));
            }
        }
    }
    assert forall|j: int| #[trigger] wanted_record(after, as_of, j) implies exists|m: int|
        0 <= m < picked.len() && after[picked[m] as int].report_period == after[j].report_period by {
        if j == n {
            assert(after[picked[k] as int].report_period == after[j].report_period);
        } else {
            assert(wanted_record(before, as_of, j));
            let m = choose|m: int| 0 <= m < picked.len() && before[picked[m] as int].report_period == before[j].report_period;
            assert(after[picked[m] as int].report_period == after[j].report_period);
        }
    }
}

/// A record announced later than its period's pick takes the pick's place.
proof fn lemma_replace_record(
    picked: Seq<usize>,
    before: Seq<Announcement>,
    after: Seq<Announcement>,
    as_of: Date,
    k: int,
    n: usize,
)
    requires
        latest_of(picked, before, as_of),
        forall|m: int| 0 <= m < picked.len() ==> (#[trigger] picked[m]) < before.len(),
        extends(before, after),
        n == before.len(),
        visible(after[n as int], as_of),
        0 <= k < picked.len(),
        before[picked[k] as int].report_period == after[n as int].report_period,
        before[picked[k] as int].ann_date.precedes(after[n as int].ann_date),
    ensures
        latest_of(picked.update(k, n), after, as_of),
{
    let r = after[n as int];
    let np = picked.update(k, n);
    let old = picked[k] as int;
    assert(is_latest(before, as_of, old));
    assert(is_latest(after, as_of, n as int)) by {
        assert forall|j: int|
            0 <= j < after.len() && visible(#[trigger] after[j], as_of) && after[j].report_period
                == r.report_period implies !r.ann_date.precedes(after[j].ann_date) && (j < n ==> after[j].ann_date
            != r.ann_date) by {
            if j < n {
                assert(visible(before[j], as_of));
                assert(!before[old].ann_date.precedes(before[j].ann_date));
                lemma_date_order(after[j].ann_date, before[old].ann_date, r.ann_date);
            } else {
                lemma_date_order(r.ann_date, r.ann_date, r.ann_date);
            }
        }
    }
    assert forall|m: int| 0 <= m < np.len() implies is_latest(after, as_of, #[trigger] np[m] as int) by {
        if m != k {
            let c = picked[m] as int;
            assert(np[m] == picked[m]);
            assert(is_latest(before, as_of, c));
            if before[c].report_period == r.report_period {
                assert(before[c].report_period == before[old].report_period);
                if m < k {
                    assert(before[c].report_period.precedes(before[old].report_period));
                } else {
                    assert(before[old].report_period.precedes(before[c].report_period));
                }
                lemma_date_order(before[c].report_period, before[c].report_period, before[c].report_period);
            }
            assert forall|j: int|
                0 <= j < after.len() && visible(#[trigger] after[j], as_of) && after[j].report_period
                    == after[c].report_period implies !after[c].ann_date.precedes(after[j].ann_date) && (j
                < c ==> after[j].ann_date != after[c].ann_date) by {
                if j < n {
                    assert(visible(before[j], as_of));
                }
            }
        }
    }
    assert forall|a: int, b: int| 0 <= a < b < np.len() implies after[#[trigger] np[a] as int].report_period.precedes(
        after[#[trigger] np[b] as int].report_period,
    ) by {
        assert(before[picked[a] as int].report_period.precedes(before[picked[b] as int].report_period));
    }
    assert forall|j: int| #[trigger] wanted_record(after, as_of, j) implies exists|m: int|
        0 <= m < np.len() && after[np[m] as int].report_period == after[j].report_period by {
        if j == n {
            assert(after[np[k] as int].report_period == after[j].report_period);
        } else {
            assert(wanted_record(before, as_of, j));
            let m = choose|m: int| 0 <= m < picked.len() && before[picked[m] as int].report_period == before[j].report_period;
            if m == k {
                assert(after[np[k] as int].report_period == after[j].report_period);
            } else {
                assert(after[np[m] as int].report_period == after[j].report_period);
            }
        }
    }
}

/// A record of a period not yet known enters the list at its period's place.
proof fn lemma_insert_record(
    picked: Seq<usize>,
    before: Seq<Announcement>,
    after: Seq<Announcement>,
    as_of: Date,
    p: int,
    n: usize,
)
    requires
        latest_of(picked, before, as_of),
        forall|m: int| 0 <= m < picked.len() ==> (#[trigger] picked[m]) < before.len(),
        extends(before, after),
        n == before.len(),
        visible(after[n as int], as_of),
        forall|m: int| 0 <= m < picked.len() ==> before[#[trigger] picked[m] as int].report_period != after[n as int].report_period,
        0 <= p <= picked.len(),
        forall|m: int| 0 <= m < p ==> !after[n as int].report_period.precedes(before[#[trigger] picked[m] as int].report_period),
        p < picked.len() ==> after[n as int].report_period.precedes(before[picked[p] as int].report_period),
    ensures
        latest_of(picked.insert(p, n), after, as_of),
{
    let r = after[n as int];
    let d = r.report_period;
    let np = picked.insert(p, n);
    assert forall|m: int| 0 <= m < p implies before[#[trigger] picked[m] as int].report_period.precedes(d) by {
        lemma_date_order(before[picked[m] as int].report_period, d, d);
    }
    assert forall|m: int| p <= m < picked.len() implies d.precedes(before[#[trigger] picked[m] as int].report_period) by {
        if m > p {
            assert(before[picked[p] as int].report_period.precedes(before[picked[m] as int].report_period));
            lemma_date_order(d, before[picked[p] as int].report_period, before[picked[m] as int].report_period);
        }
    }
    assert(is_latest(after, as_of, n as int)) by {
        assert forall|j: int|
            0 <= j < after.len() && visible(#[trigger] after[j], as_of) && after[j].report_period
                == d implies !r.ann_date.precedes(after[j].ann_date) && (j < n ==> after[j].ann_date != r.ann_date) by {
            if j < n {
                assert(wanted_record(before, as_of, j));
                let m = choose|m: int| 0 <= m < picked.len() && before[picked[m] as int].report_period == before[j].report_period;
                assert(before[picked[m] as int].report_period != d);
            } else {
                lemma_date_order(r.ann_date, r.ann_date, r.ann_date);
            }
        }
    }
    assert forall|m: int| 0 <= m < np.len() implies is_latest(after, as_of, #[trigger] np[m] as int) by {
        if m != p {
            let om = if m < p { m } else { m - 1 };
            assert(np[m] == picked[om]);
            let c = picked[om] as int;
            assert(is_latest(before, as_of, c));
            assert forall|j: int|
                0 <= j < after.len() && visible(#[trigger] after[j], as_of) && after[j].report_period
                    == after[c].report_period implies !after[c].ann_date.precedes(after[j].ann_date) && (j
                < c ==> after[j].ann_date != after[c].ann_date) by {
                if j < n {
                    assert(visible(before[j], as_of));
                } else {
                    assert(before[c].report_period != d);
                }
            }
        }
    }
    assert forall|a: int, b: int| 0 <= a < b < np.len() implies after[#[trigger] np[a] as int].report_period.precedes(
        after[#[trigger] np[b] as int].report_period,
    ) by {
        let oa = if a < p { a } else if a == p { -1 } else { a - 1 };
        let ob = if b < p { b } else if b == p { -1 } else { b - 1 };
        if oa >= 0 {
            assert(np[a] == picked[oa]);
        }
        if ob >= 0 {
            assert(np[b] == picked[ob]);
        }
        if oa >= 0 && ob >= 0 {
            assert(before[picked[oa] as int].report_period.precedes(before[picked[ob] as int].report_period));
        } else if oa >= 0 && ob < 0 {
        } else if oa < 0 && ob >= 0 {
        }
        if oa >= 0 && ob >= 0 && oa < p && ob >= p {
            lemma_date_order(before[picked[oa] as int].report_period, d, before[picked[ob] as int].report_period);
        }
    }
    assert forall|j: int| #[trigger] wanted_record(after, as_of, j) implies exists|m: int|
        0 <= m < np.len() && after[np[m] as int].report_period == after[j].report_period by {
        if j == n {
            assert(after[np[p] as int].report_period == after[j].report_period);
        } else {
            assert(wanted_record(before, as_of, j));
            let m = choose|m: int| 0 <= m < picked.len() && before[picked[m] as int].report_period == before[j].report_period;
            if m < p {
                assert(np[m] == picked[m]);
                assert(after[np[m] as int].report_period == after[j].report_period);
            } else {
                assert(np[m + 1] == picked[m]);
                assert(after[np[m + 1] as int].report_period == after[j].report_period);
            }
        }
    }
}

} // verus!
