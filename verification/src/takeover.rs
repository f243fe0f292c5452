//! The decisions of a synchronisation run: which adapter serves a request, how the
//! Python worker is invoked, which staging record is taken over, and how many rows
//! each trading day received.

use vstd::prelude::*;

use crate::dataset::{dataset_name, Dataset};
use crate::date::{lemma_date_order, Date};
use crate::registry::{defines_source, Registry, SourceConfig, SourceKind};
use crate::report::{append_joined, join, views};
use crate::sync::{StagingEntry, SyncStatus};
use crate::http::is_ascii_alphanumeric;
use crate::text::{chars_of, push_char, str_eq};

verus! {

/// The adapter that serves a synchronisation request.
#[derive(Debug, Clone, Copy, PartialEq, Eq, Structural)]
pub enum SyncRoute {
    /// A native HTTP adapter, for daily bars.
    Http,
    /// The Python worker, which writes to a staging directory first.
    Worker,
}

/// Why a synchronisation request is refused.
#[derive(Debug, Clone)]
pub enum SyncRefusal {
    /// No source of this name is registered.
    UnknownSource(String),
    /// No dataset has this name.
    UnknownDataset(String),
    /// The source does not declare the dataset.
    NotDeclared { source: String, dataset: Dataset },
    /// HTTP adapters serve daily bars only.
    HttpDailyOnly(Dataset),
    /// The Python worker cannot hand this dataset over.
    WorkerUnsupported(Dataset),
    /// A date range was given for a dataset other than daily bars.
    RangeNeedsDaily,
    /// The staging manifest holds no record of the request.
    NoStagingMatch,
    /// The staging record of the request did not succeed.
    StagingNotDone(SyncStatus),
}

/// The name under which a status is shown.
pub open spec fn status_label(status: SyncStatus) -> Seq<char> {
    match status {
        SyncStatus::Done => "Done"@,
        SyncStatus::Partial => "Partial"@,
        SyncStatus::Failed => "Failed"@,
        SyncStatus::Skipped => "Skipped"@,
    }
}

/// The text that reports a refusal.
pub open spec fn refusal_text(refusal: SyncRefusal) -> Seq<char> {
    match refusal {
        SyncRefusal::UnknownSource(n) => "注册表中不存在数据源: "@ + n@,
        SyncRefusal::UnknownDataset(n) => "未知数据集: "@ + n@,
        SyncRefusal::NotDeclared { source, dataset } => "数据源 "@ + source@ + " 未声明支持数据集 "@
            + dataset_name(dataset),
        SyncRefusal::HttpDailyOnly(d) => "HTTP 源当前只支持 daily，同步数据集 "@ + dataset_name(d)
            + " 尚未实现"@,
        SyncRefusal::WorkerUnsupported(d) => "Python worker 当前不支持数据集 "@ + dataset_name(d)
            + " 的同步接管"@,
        SyncRefusal::RangeNeedsDaily => "只有 daily 支持 --start/--end"@,
        SyncRefusal::NoStagingMatch => "staging manifest 没有匹配记录，数据目录未接管"@,
        SyncRefusal::StagingNotDone(st) => "staging 状态为 "@ + status_label(st) + "，数据目录未接管"@,
    }
}

impl SyncRefusal {
    /// The text that reports the refusal.
    pub fn message(&self) -> (text: String)
        ensures
            text@ == refusal_text(*self),
    {
        match self {
            SyncRefusal::UnknownSource(n) => {
                let mut text = "注册表中不存在数据源: ".to_string();
                text.append(n.as_str());
                text
            },
            SyncRefusal::UnknownDataset(n) => {
                let mut text = "未知数据集: ".to_string();
                text.append(n.as_str());
                text
            },
            SyncRefusal::NotDeclared { source, dataset } => {
                let mut text = "数据源 ".to_string();
                text.append(source.as_str());
                text.append(" 未声明支持数据集 ");
                text.append(dataset.as_str());
                text
            },
            SyncRefusal::HttpDailyOnly(d) => {
                let mut text = "HTTP 源当前只支持 daily，同步数据集 ".to_string();
                text.append(d.as_str());
                text.append(" 尚未实现");
                text
            },
            SyncRefusal::WorkerUnsupported(d) => {
                let mut text = "Python worker 当前不支持数据集 ".to_string();
                text.append(d.as_str());
                text.append(" 的同步接管");
                text
            },
            SyncRefusal::RangeNeedsDaily => "只有 daily 支持 --start/--end".to_string(),
            SyncRefusal::NoStagingMatch => "staging manifest 没有匹配记录，数据目录未接管".to_string(),
            SyncRefusal::StagingNotDone(st) => {
                let mut text = "staging 状态为 ".to_string();
                let label = match st {
                    SyncStatus::Done => "Done",
                    SyncStatus::Partial => "Partial",
                    SyncStatus::Failed => "Failed",
                    SyncStatus::Skipped => "Skipped",
                };
                text.append(label);
                text.append("，数据目录未接管");
                text
            },
        }
    }
}

/// Whether `i` is the first source called `name`.
pub open spec fn is_first_named(sources: Seq<SourceConfig>, name: Seq<char>, i: int) -> bool {
    &&& 0 <= i < sources.len()
    &&& sources[i].name@ == name
    &&& forall|j: int| 0 <= j < i ==> (#[trigger] sources[j]).name@ != name
}

/// The first source called `name` (meaningful where one is registered).
pub open spec fn first_source(sources: Seq<SourceConfig>, name: Seq<char>) -> SourceConfig {
    sources[choose|i: int| is_first_named(sources, name, i)]
}

/// The dataset called `name` (meaningful where one is).
pub open spec fn named_dataset(name: Seq<char>) -> Dataset {
    choose|d: Dataset| dataset_name(d) == name
}

/// The datasets that the Python worker can hand over.
pub open spec fn worker_hands_over(dataset: Dataset) -> bool {
    dataset == Dataset::Daily || dataset == Dataset::AdjFactor || dataset == Dataset::Financial
        || dataset == Dataset::EarningsNotice
}

/// What a source that declares `dataset` does with a request for it.
pub open spec fn route_for(source: SourceConfig, dataset: Dataset) -> Option<SyncRoute> {
    if source.kind == SourceKind::Http {
        if dataset == Dataset::Daily {
            Some(SyncRoute::Http)
        } else {
            None
        }
    } else if worker_hands_over(dataset) {
        Some(SyncRoute::Worker)
    } else {
        None
    }
}

/// There is at most one first source of a name.
proof fn lemma_first_named_unique(sources: Seq<SourceConfig>, name: Seq<char>, i: int, j: int)
    requires
        is_first_named(sources, name, i),
        is_first_named(sources, name, j),
    ensures
        i == j,
{
    if i < j {
        assert(sources[i].name@ != name);
    } else if j < i {
        assert(sources[j].name@ != name);
    }
}

/// Decides how a request to synchronise `dataset` from `source` is served: the source
/// must be registered, the dataset must exist and be declared by the source, HTTP
/// adapters serve daily bars only, and the Python worker hands over daily bars,
/// adjustment factors, financial statements and earnings notices.
pub fn plan_sync(registry: &Registry, source: &str, dataset: &str) -> (plan: Result<
    (SyncRoute, Dataset),
    SyncRefusal,
>)
    ensures
        !defines_source(registry.sources@, source@) ==> (plan matches Err(
            SyncRefusal::UnknownSource(n),
        ) && n@ == source@),
        defines_source(registry.sources@, source@) && (forall|d: Dataset|
            dataset_name(d) != dataset@) ==> (plan matches Err(SyncRefusal::UnknownDataset(n))
            && n@ == dataset@),
        defines_source(registry.sources@, source@) && (exists|d: Dataset|
            dataset_name(d) == dataset@) && !first_source(
            registry.sources@,
            source@,
        ).datasets@.contains(named_dataset(dataset@)) ==> (plan matches Err(
            SyncRefusal::NotDeclared { source: n, dataset: d },
        ) && n@ == source@ && d == named_dataset(dataset@)),
        defines_source(registry.sources@, source@) && (exists|d: Dataset|
            dataset_name(d) == dataset@) && first_source(
            registry.sources@,
            source@,
        ).datasets@.contains(named_dataset(dataset@)) ==> match route_for(
            first_source(registry.sources@, source@),
            named_dataset(dataset@),
        ) {
            Some(route) => plan == Ok::<(SyncRoute, Dataset), SyncRefusal>(
                (route, named_dataset(dataset@)),
            ),
            None => if first_source(registry.sources@, source@).kind == SourceKind::Http {
                plan matches Err(SyncRefusal::HttpDailyOnly(d)) && d == named_dataset(dataset@)
            } else {
                plan matches Err(SyncRefusal::WorkerUnsupported(d)) && d == named_dataset(
                    dataset@,
                )
            },
        },
{
    let config = match registry.source(source) {
        Some(config) => config,
        None => return Err(SyncRefusal::UnknownSource(source.to_string())),
    };
    proof {
        let i = choose|i: int|
            0 <= i < registry.sources@.len() && *config == (#[trigger] registry.sources@[i])
                && config.name@ == source@ && forall|j: int|
                0 <= j < i ==> (#[trigger] registry.sources@[j]).name@ != source@;
        assert(is_first_named(registry.sources@, source@, i));
        let k = choose|k: int| is_first_named(registry.sources@, source@, k);
        lemma_first_named_unique(registry.sources@, source@, i, k);
    }
    let wanted = match Dataset::parse_name(dataset) {
        Ok(d) => d,
        Err(_) => return Err(SyncRefusal::UnknownDataset(dataset.to_string())),
    };
    proof {
        let d = named_dataset(dataset@);
        crate::dataset::lemma_names_distinct(d, wanted);
    }
    let mut declared = false;
    for i in 0..config.datasets.len()
        invariant
            declared == exists|j: int| 0 <= j < i && config.datasets@[j] == wanted,
    {
        if config.datasets[i] == wanted {
            declared = true;
        }
    }
    if !declared {
        return Err(SyncRefusal::NotDeclared { source: source.to_string(), dataset: wanted });
    }
    if config.kind == SourceKind::Http {
        if wanted == Dataset::Daily {
            Ok((SyncRoute::Http, wanted))
        } else {
            Err(SyncRefusal::HttpDailyOnly(wanted))
        }
    } else {
        match wanted {
            Dataset::Daily | Dataset::AdjFactor | Dataset::Financial | Dataset::EarningsNotice => Ok(
                (SyncRoute::Worker, wanted),
            ),
            _ => Err(SyncRefusal::WorkerUnsupported(wanted)),
        }
    }
}

/// The worker's arguments for a fetch, before any date range.
pub open spec fn worker_base_args(
    registry_path: Seq<char>,
    dataset: Dataset,
    source: Seq<char>,
    symbol: Seq<char>,
    out: Seq<char>,
) -> Seq<Seq<char>> {
    seq![
        "-m"@,
        "myfin_py.worker"@,
        "--registry"@,
        registry_path,
        "fetch-"@ + dataset_name(dataset),
        "--source"@,
        source,
        "--symbol"@,
        symbol,
        "--out"@,
        out,
    ]
}

/// The arguments that pass a date range to the worker.
pub open spec fn range_args(start: Option<&str>, end: Option<&str>) -> Seq<Seq<char>> {
    (match start {
        Some(s) => seq!["--start"@, s@],
        None => Seq::empty(),
    }) + (match end {
        Some(e) => seq!["--end"@, e@],
        None => Seq::empty(),
    })
}

/// The command-line arguments of the Python worker for a fetch into `out`; a date
/// range is passed on for daily bars and refused for any other dataset.
pub fn worker_args(
    registry_path: &str,
    dataset: Dataset,
    source: &str,
    symbol: &str,
    out: &str,
    start: Option<&str>,
    end: Option<&str>,
) -> (args: Result<Vec<String>, SyncRefusal>)
    ensures
        dataset == Dataset::Daily ==> (args matches Ok(v) && views(v@) == worker_base_args(
            registry_path@,
            dataset,
            source@,
            symbol@,
            out@,
        ) + range_args(start, end)),
        dataset != Dataset::Daily && start is None && end is None ==> (args matches Ok(v)
            && views(v@) == worker_base_args(registry_path@, dataset, source@, symbol@, out@)),
        dataset != Dataset::Daily && (start is Some || end is Some) ==> (args matches Err(
            SyncRefusal::RangeNeedsDaily,
        )),
{
    if dataset != Dataset::Daily && (start.is_some() || end.is_some()) {
        return Err(SyncRefusal::RangeNeedsDaily);
    }
    let mut fetch = "fetch-".to_string();
    fetch.append(dataset.as_str());
    let mut args: Vec<String> = Vec::new();
    args.push("-m".to_string());
    args.push("myfin_py.worker".to_string());
    args.push("--registry".to_string());
    args.push(registry_path.to_string());
    args.push(fetch);
    args.push("--source".to_string());
    args.push(source.to_string());
    args.push("--symbol".to_string());
    args.push(symbol.to_string());
    args.push("--out".to_string());
    args.push(out.to_string());
    let ghost base = worker_base_args(registry_path@, dataset, source@, symbol@, out@);
    assert(views(args@) =~= base);
    if dataset == Dataset::Daily {
        if let Some(s) = start {
            args.push("--start".to_string());
            args.push(s.to_string());
        }
        let ghost with_start = views(args@);
        if let Some(e) = end {
            args.push("--end".to_string());
            args.push(e.to_string());
        }
        assert(views(args@) =~= base + range_args(start, end)) by {
            assert(with_start =~= base + match start {
                Some(s) => seq!["--start"@, s@],
                None => Seq::<Seq<char>>::empty(),
            });
        }
    }
    Ok(args)
}

/// Whether a staging record is the one a request for `dataset`, `source` and `symbol`
/// produced.
pub open spec fn staging_matches(
    entry: StagingEntry,
    dataset: Dataset,
    source: Seq<char>,
    symbol: Seq<char>,
) -> bool {
    entry.dataset == dataset && entry.source@ == source && entry.symbol@ == symbol
}

/// Whether `i` is the first record of the request.
pub open spec fn is_first_match(
    entries: Seq<StagingEntry>,
    dataset: Dataset,
    source: Seq<char>,
    symbol: Seq<char>,
    i: int,
) -> bool {
    &&& 0 <= i < entries.len()
    &&& staging_matches(entries[i], dataset, source, symbol)
    &&& forall|j: int| 0 <= j < i ==> !staging_matches(#[trigger] entries[j], dataset, source, symbol)
}

/// The staging record that a run hands over to the data directory: the first record
/// of the request, which must have succeeded.
pub fn take_over_entry<'a>(
    entries: &'a [StagingEntry],
    dataset: Dataset,
    source: &str,
    symbol: &str,
) -> (taken: Result<&'a StagingEntry, SyncRefusal>)
    ensures
        (forall|i: int| 0 <= i < entries@.len() ==> !staging_matches(#[trigger] entries@[i], dataset, source@, symbol@))
            ==> (taken matches Err(SyncRefusal::NoStagingMatch)),
        forall|i: int| #[trigger] is_first_match(entries@, dataset, source@, symbol@, i) ==> (if entries@[i].status
            == SyncStatus::Done {
            taken matches Ok(e) && *e == entries@[i]
        } else {
            taken matches Err(SyncRefusal::StagingNotDone(st)) && st == entries@[i].status
        }),
{
    for i in 0..entries.len()
        invariant
            forall|j: int| 0 <= j < i ==> !staging_matches(#[trigger] entries@[j], dataset, source@, symbol@),
    {
        let entry = &entries[i];
        if entry.dataset == dataset && str_eq(entry.source.as_str(), source) && str_eq(
            entry.symbol.as_str(),
            symbol,
        ) {
            proof {
                assert(is_first_match(entries@, dataset, source@, symbol@, i as int));
                assert forall|k: int| #[trigger] is_first_match(entries@, dataset, source@, symbol@, k) implies k == i by {
                    if k < i {
                        assert(!staging_matches(entries@[k], dataset, source@, symbol@));
                    } else if k > i {
                        assert(!staging_matches(entries@[i as int], dataset, source@, symbol@));
                    }
                }
            }
            if entry.status == SyncStatus::Done {
                return Ok(entry);
            } else {
                return Err(SyncRefusal::StagingNotDone(entry.status));
            }
        }
    }
    Err(SyncRefusal::NoStagingMatch)
}

/// How often `d` occurs in `days`.
pub open spec fn occurrences(days: Seq<Date>, d: Date) -> nat
    decreases days.len(),
{
    if days.len() == 0 {
        0
    } else {
        occurrences(days.drop_last(), d) + if days.last() == d {
            1nat
        } else {
            0nat
        }
    }
}

/// `counts` pairs each day of `days`, in increasing order, with how often it occurs.
pub open spec fn counts_days(counts: Seq<(Date, u64)>, days: Seq<Date>) -> bool {
    &&& forall|a: int, b: int| 0 <= a < b < counts.len() ==> (#[trigger] counts[a]).0.precedes(
        (#[trigger] counts[b]).0,
    )
    &&& forall|a: int| 0 <= a < counts.len() ==> #[trigger] days.contains(counts[a].0)
    &&& forall|a: int| 0 <= a < counts.len() ==> (#[trigger] counts[a]).1 == occurrences(days, counts[a].0)
    &&& forall|d: Date| #[trigger] days.contains(d) ==> exists|a: int| 0 <= a < counts.len() && (#[trigger] counts[a]).0 == d
}

/// A day that is not in `days` does not occur in it.
proof fn lemma_occurrences_absent(days: Seq<Date>, d: Date)
    requires
        !days.contains(d),
    ensures
        occurrences(days, d) == 0,
    decreases days.len(),
{
    if days.len() > 0 {
        assert(!days.drop_last().contains(d)) by {
            if days.drop_last().contains(d) {
                let m = choose|m: int| 0 <= m < days.drop_last().len() && days.drop_last()[m] == d;
                assert(days[m] == d);
            }
        }
        lemma_occurrences_absent(days.drop_last(), d);
    }
}

/// A day occurs in `days` at most as often as `days` is long.
proof fn lemma_occurrences_bound(days: Seq<Date>, d: Date)
    ensures
        occurrences(days, d) <= days.len(),
    decreases days.len(),
{
    if days.len() > 0 {
        lemma_occurrences_bound(days.drop_last(), d);
    }
}

/// The number of rows of each trading day, in increasing order of day.
pub fn daily_counts(days: &[Date]) -> (counts: Vec<(Date, u64)>)
    ensures
        counts_days(counts@, days@),
{
    let mut counts: Vec<(Date, u64)> = Vec::new();
    for k in 0..days.len()
        invariant
            counts_days(counts@, days@.take(k as int)),
    {
        let d = days[k];
        let ghost before = days@.take(k as int);
        let ghost after = days@.take(k + 1);
        let ghost old_counts = counts@;
        assert(after.drop_last() =~= before);
        assert(forall|x: Date| after.contains(x) <==> (before.contains(x) || x == d)) by {
            assert forall|x: Date| after.contains(x) implies before.contains(x) || x == d by {
                let m = choose|m: int| 0 <= m < after.len() && after[m] == x;
                if m < k {
                    assert(before[m] == x);
                }
            }
            assert forall|x: Date| before.contains(x) || x == d implies after.contains(x) by {
                if x == d {
                    assert(after[k as int] == x);
                } else {
                    let m = choose|m: int| 0 <= m < before.len() && before[m] == x;
                    assert(after[m] == x);
                }
            }
        }
        assert(forall|x: Date| occurrences(after, x) == occurrences(before, x) + if x == d {
            1nat
        } else {
            0nat
        });
        let mut i: usize = 0;
        while i < counts.len() && counts[i].0 != d
            invariant
                counts@ == old_counts,
                i <= counts@.len(),
                forall|j: int| 0 <= j < i ==> (#[trigger] counts@[j]).0 != d,
            decreases counts@.len() - i,
        {
            i = i + 1;
        }
        if i < counts.len() {
            proof {
                lemma_occurrences_bound(before, d);
            }
            let n = counts[i].1;
            counts.set(i, (d, n + 1));
            assert(counts_days(counts@, after)) by {
                assert forall|a: int| 0 <= a < counts@.len() implies (#[trigger] counts@[a]).1
                    == occurrences(after, counts@[a].0) by {
                    if a != i {
                        assert(old_counts[a].0 != d) by {
                            if old_counts[a].0 == d {
                                lemma_date_order(old_counts[a].0, old_counts[i as int].0, d);
                                if a < i {
                                    assert(old_counts[a].0.precedes(old_counts[i as int].0));
                                } else {
                                    assert(old_counts[i as int].0.precedes(old_counts[a].0));
                                }
                            }
                        }
                    }
                }
                assert forall|a: int| 0 <= a < counts@.len() implies #[trigger] after.contains(counts@[a].0) by {
                    assert(before.contains(old_counts[a].0));
                }
                assert forall|x: Date| #[trigger] after.contains(x) implies exists|a: int|
                    0 <= a < counts@.len() && (#[trigger] counts@[a]).0 == x by {
                    if x == d {
                        assert(counts@[i as int].0 == x);
                    } else {
                        assert(before.contains(x));
                        let a = choose|a: int| 0 <= a < old_counts.len() && (#[trigger] old_counts[a]).0 == x;
                        assert(counts@[a].0 == x);
                    }
                }
                assert forall|a: int, b: int| 0 <= a < b < counts@.len() implies (#[trigger] counts@[a]).0.precedes(
                    (#[trigger] counts@[b]).0,
                ) by {
                    assert(old_counts[a].0.precedes(old_counts[b].0));
                }
            }
        } else {
            let mut p: usize = 0;
            while p < counts.len() && !d.is_before(&counts[p].0)
                invariant
                    counts@ == old_counts,
                    p <= counts@.len(),
                    forall|j: int| 0 <= j < p ==> !d.precedes((#[trigger] counts@[j]).0),
                decreases counts@.len() - p,
            {
                p = p + 1;
            }
            proof {
                assert(!before.contains(d)) by {
                    if before.contains(d) {
                        let a = choose|a: int| 0 <= a < old_counts.len() && (#[trigger] old_counts[a]).0 == d;
                        assert(old_counts[a].0 == d);
                    }
                }
                lemma_occurrences_absent(before, d);
            }
            counts.insert(p, (d, 1));
            assert(counts_days(counts@, after)) by {
                let ghost c = counts@;
                assert(c == old_counts.insert(p as int, (d, 1u64)));
                assert forall|j: int| 0 <= j < p implies (#[trigger] old_counts[j]).0.precedes(d) by {
                    lemma_date_order(old_counts[j].0, d, d);
                }
                assert forall|j: int| p <= j < old_counts.len() implies d.precedes((#[trigger] old_counts[j]).0) by {
                    if j > p {
                        assert(old_counts[p as int].0.precedes(old_counts[j].0));
                        lemma_date_order(d, old_counts[p as int].0, old_counts[j].0);
                    }
                }
                assert forall|a: int, b: int| 0 <= a < b < c.len() implies (#[trigger] c[a]).0.precedes(
                    (#[trigger] c[b]).0,
                ) by {
                    if a < p && b < p {
                        assert(old_counts[a].0.precedes(old_counts[b].0));
                    } else if a < p && b == p {
                        assert(old_counts[a].0.precedes(d));
                    } else if a < p {
                        assert(c[b] == old_counts[b - 1]);
                        assert(old_counts[a].0.precedes(d));
                        assert(d.precedes(old_counts[b - 1].0));
                        lemma_date_order(old_counts[a].0, d, old_counts[b - 1].0);
                    } else if a == p {
                        assert(c[b] == old_counts[b - 1]);
                        assert(d.precedes(old_counts[b - 1].0));
                    } else {
                        assert(c[a] == old_counts[a - 1] && c[b] == old_counts[b - 1]);
                        assert(old_counts[a - 1].0.precedes(old_counts[b - 1].0));
                    }
                }
                assert forall|a: int| 0 <= a < c.len() implies #[trigger] after.contains(c[a].0) by {
                    if a < p {
                        assert(before.contains(old_counts[a].0));
                    } else if a > p {
                        assert(c[a] == old_counts[a - 1]);
                        assert(before.contains(old_counts[a - 1].0));
                    }
                }
                assert forall|a: int| 0 <= a < c.len() implies (#[trigger] c[a]).1 == occurrences(
                    after,
                    c[a].0,
                ) by {
                    if a != p {
                        let oa = if a < p { a } else { a - 1 };
                        assert(c[a] == old_counts[oa]);
                        assert(old_counts[oa].0 != d);
                    }
                }
                assert forall|x: Date| #[trigger] after.contains(x) implies exists|a: int|
                    0 <= a < c.len() && (#[trigger] c[a]).0 == x by {
                    if x == d {
                        assert(c[p as int].0 == x);
                    } else {
                        assert(before.contains(x));
                        let a = choose|a: int| 0 <= a < old_counts.len() && (#[trigger] old_counts[a]).0 == x;
                        if a < p {
                            assert(c[a].0 == x);
                        } else {
                            assert(c[a + 1].0 == x);
                        }
                    }
                }
            }
        }
    }
    assert(days@.take(days@.len() as int) =~= days@);
    counts
}

/// The character that stands for `c` in a file-name stem.
pub open spec fn stem_char(c: char) -> char {
    if is_ascii_alphanumeric(c) || c == '_' || c == '-' {
        c
    } else {
        '_'
    }
}

/// `value` as a file-name stem: ASCII letters, digits, `_` and `-` are kept, every
/// other character becomes `_`.
pub fn stem_component(value: &str) -> (stem: String)
    ensures
        stem@ == value@.map_values(|c: char| stem_char(c)),
{
    let chars = chars_of(value);
    let mut stem = String::new();
    for i in 0..chars.len()
        invariant
            chars@ == value@,
            stem@ == chars@.take(i as int).map_values(|c: char| stem_char(c)),
    {
        let c = chars[i];
        let keep = ('a' <= c && c <= 'z') || ('A' <= c && c <= 'Z') || ('0' <= c && c <= '9') || c == '_'
            || c == '-';
        push_char(&mut stem, if keep { c } else { '_' });
        assert(chars@.take(i + 1).map_values(|c: char| stem_char(c)) =~= chars@.take(i as int).map_values(
            |c: char| stem_char(c),
        ).push(stem_char(c)));
    }
    assert(chars@.take(chars@.len() as int) =~= chars@);
    stem
}

/// What the automatic fallback over a dataset's priority chain does next.
#[derive(Debug, Clone, PartialEq, Eq)]
pub enum FallbackStep {
    /// Try the source at this position of the chain.
    Next(usize),
    /// The last source tried succeeded.
    Done,
    /// Every source failed; the message lists each failure.
    Exhausted(String),
}

/// The record of one failed source: `source: error`.
pub open spec fn failure_record(source: Seq<char>, error: Seq<char>) -> Seq<char> {
    source + ": "@ + error
}

/// The message when every source of a dataset's chain failed.
pub open spec fn exhausted_message(dataset: Dataset, failures: Seq<Seq<char>>) -> Seq<char> {
    "数据集 "@ + dataset_name(dataset) + " 的优先级链全部失败: "@ + join(failures, "；"@)
}

fn exhausted(dataset: Dataset, failures: &Vec<String>) -> (step: FallbackStep)
    ensures
        step matches FallbackStep::Exhausted(m) && m@ == exhausted_message(
            dataset,
            views(failures@),
        ),
{
    let mut message = "数据集 ".to_string();
    message.append(dataset.as_str());
    message.append(" 的优先级链全部失败: ");
    append_joined(&mut message, failures.as_slice(), "；");
    FallbackStep::Exhausted(message)
}

/// The first step of the fallback: try the first source of the chain, or report the
/// chain exhausted at once when it is empty.
pub fn fallback_start(dataset: Dataset, order: &[String]) -> (step: FallbackStep)
    ensures
        order@.len() > 0 ==> step == FallbackStep::Next(0),
        order@.len() == 0 ==> (step matches FallbackStep::Exhausted(m) && m@
            == exhausted_message(dataset, Seq::empty())),
{
    if order.len() > 0 {
        FallbackStep::Next(0)
    } else {
        let failures: Vec<String> = Vec::new();
        assert(views(failures@) =~= Seq::<Seq<char>>::empty());
        exhausted(dataset, &failures)
    }
}

/// The step after trying a source of the chain. The sources before it all failed, and
/// `failures` holds their records, so the source just tried is `order[failures.len()]`.
/// On success the fallback is done. On failure its record `source: error` is added to
/// `failures`, and the next source is tried while one is left; when none is, the
/// chain is exhausted and the message lists every failure.
pub fn fallback_step(
    dataset: Dataset,
    order: &[String],
    failures: &mut Vec<String>,
    last: Result<(), String>,
) -> (step: FallbackStep)
    requires
        old(failures)@.len() < order@.len(),
    ensures
        last is Ok ==> step == FallbackStep::Done && final(failures)@ == old(failures)@,
        last matches Err(e) ==> views(final(failures)@) == views(old(failures)@).push(
            failure_record(order@[old(failures)@.len() as int]@, e@),
        ),
        last is Err && old(failures)@.len() + 1 < order@.len() ==> step == FallbackStep::Next(
            (old(failures)@.len() + 1) as usize,
        ),
        last is Err && old(failures)@.len() + 1 >= order@.len() ==> (step matches FallbackStep::Exhausted(
            m,
        ) && m@ == exhausted_message(dataset, views(final(failures)@))),
{
    match last {
        Ok(()) => FallbackStep::Done,
        Err(error) => {
            let tried = failures.len();
            let mut record = order[tried].clone();
            record.append(": ");
            record.append(error.as_str());
            let ghost before = views(failures@);
            failures.push(record);
            assert(views(failures@) =~= before.push(
                failure_record(order@[tried as int]@, error@),
            ));
            if tried + 1 < order.len() {
                FallbackStep::Next(tried + 1)
            } else {
                exhausted(dataset, failures)
            }
        },
    }
}

} // verus!
