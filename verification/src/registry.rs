//! The data-source registry: sources, their capabilities, and per-dataset priority chains.

use vstd::prelude::*;

use crate::dataset::{dataset_name, Dataset};
use crate::error::Error;
use crate::text::{decimal, u64_to_decimal};

verus! {

/// The registry of data sources.
#[derive(Debug, Clone)]
pub struct Registry {
    pub version: u32,
    pub sources: Vec<SourceConfig>,
    /// Dataset to priority chain (earlier sources first; several sources give automatic fallback).
    /// `validate` rejects a second chain for the same dataset.
    pub chains: Vec<(Dataset, Chain)>,
}

/// One data source.
#[derive(Debug, Clone)]
pub struct SourceConfig {
    pub name: String,
    pub description: String,
    /// `http` is a native adapter; `python_sdk` a Python worker adapter.
    pub kind: SourceKind,
    /// Implementation language: `rust` or `python`.
    pub lang: String,
    /// Python adapter module path; required when `kind` is `python_sdk`.
    pub package: Option<String>,
    pub auth: Auth,
    pub rate_limit: RateLimit,
    /// Datasets that the source supports.
    pub datasets: Vec<Dataset>,
    /// Health-check probe (benchmark stock).
    pub probe: Option<Probe>,
    /// Free-form field-mapping notes.
    pub notes: Option<String>,
}

/// How an adapter is implemented.
#[derive(Debug, Clone, Copy, PartialEq, Eq, Structural)]
pub enum SourceKind {
    Http,
    PythonSdk,
}

/// The display label of a source kind.
pub open spec fn source_kind_label(kind: SourceKind) -> Seq<char> {
    match kind {
        SourceKind::Http => "http"@,
        SourceKind::PythonSdk => "python"@,
    }
}

impl SourceKind {
    /// `http` or `python`.
    pub fn label(&self) -> (label: &'static str)
        ensures
            label@ == source_kind_label(*self),
    {
        match self {
            SourceKind::Http => "http",
            SourceKind::PythonSdk => "python",
        }
    }
}

/// Authentication that a source needs.
#[derive(Debug, Clone, PartialEq)]
pub enum Auth {
    /// No authentication (`none` in the registry file).
    Anonymous,
    /// A token read from the named environment variable (never stored in the repository).
    Token { env_var: String },
}

/// Rate limits of a source.
#[derive(Debug, Clone, Copy, PartialEq)]
pub struct RateLimit {
    /// Minimum interval between two calls (ms).
    pub min_interval_ms: u64,
    pub max_calls_per_minute: Option<u64>,
    pub max_calls_per_day: Option<u64>,
    /// Back-off after being rate limited (ms).
    pub backoff_ms: u64,
}

/// A health-check probe.
#[derive(Debug, Clone, PartialEq)]
pub struct Probe {
    /// Benchmark stock, in the source's own notation (`sh.600519`, `600519.SH`, `600519`).
    pub symbol: String,
    /// Look-back window (trading days).
    pub lookback_days: u32,
}

/// The priority chain of one dataset.
#[derive(Debug, Clone, PartialEq)]
pub struct Chain {
    pub dataset: Dataset,
    /// Source names, highest priority first.
    pub order: Vec<String>,
}

/// Registry errors. A parse failure carries the parser's message.
#[derive(Debug)]
pub enum RegistryError {
    Io(std::io::Error),
    Parse(String),
    Validation(String),
}

/// Whether some source in `sources` has the name `name`.
pub open spec fn defines_source(sources: Seq<SourceConfig>, name: Seq<char>) -> bool {
    exists|i: int| 0 <= i < sources.len() && (#[trigger] sources[i]).name@ == name
}

/// The message for an unsupported registry version.
pub open spec fn version_message(version: u32) -> Seq<char> {
    "不支持的注册表版本: "@ + decimal(version as nat) + "（当前支持 1）"@
}

/// The first rule that a source breaks, as its message.
pub open spec fn source_problem(source: SourceConfig) -> Option<Seq<char>> {
    if source.name@.len() == 0 {
        Some("存在空名字的数据源"@)
    } else if source.kind == SourceKind::PythonSdk && source.package is None {
        Some("python_sdk 数据源 "@ + source.name@ + " 缺少 package 字段"@)
    } else if source.auth matches Auth::Token { env_var } && env_var@.len() == 0 {
        Some("数据源 "@ + source.name@ + " 的 token env_var 为空"@)
    } else {
        None
    }
}

/// Whether `i` is the first position in `order` whose name no source defines.
pub open spec fn is_first_undefined(
    order: Seq<String>,
    sources: Seq<SourceConfig>,
    i: int,
) -> bool {
    &&& 0 <= i < order.len()
    &&& !defines_source(sources, order[i]@)
    &&& forall|j: int| 0 <= j < i ==> defines_source(sources, (#[trigger] order[j])@)
}

/// The first rule that a chain, filed under `key`, breaks, as its message.
pub open spec fn chain_problem(key: Dataset, chain: Chain, sources: Seq<SourceConfig>) -> Option<
    Seq<char>,
> {
    if chain.dataset != key {
        Some(
            "chain 键 "@ + dataset_name(key) + " 与内部 dataset 字段不一致（"@ + dataset_name(
                chain.dataset,
            ) + "）"@,
        )
    } else if chain.order@.len() == 0 {
        Some("数据集 "@ + dataset_name(key) + " 的优先级链为空"@)
    } else if exists|i: int| is_first_undefined(chain.order@, sources, i) {
        let i = choose|i: int| is_first_undefined(chain.order@, sources, i);
        Some(
            "数据集 "@ + dataset_name(key) + " 优先级链引用了未定义的数据源: "@
                + chain.order@[i]@,
        )
    } else {
        None
    }
}

/// Whether the chain at position `i` is filed under a dataset that an earlier chain
/// already has.
pub open spec fn filed_twice(chains: Seq<(Dataset, Chain)>, i: int) -> bool {
    exists|j: int| 0 <= j < i && (#[trigger] chains[j]).0 == chains[i].0
}

/// The first rule that the chain at position `i` breaks, as its message: a dataset
/// may have only one chain, and the chain must keep the chain rules.
pub open spec fn chain_problem_at(
    chains: Seq<(Dataset, Chain)>,
    i: int,
    sources: Seq<SourceConfig>,
) -> Option<Seq<char>> {
    if filed_twice(chains, i) {
        Some("数据集 "@ + dataset_name(chains[i].0) + " 的优先级链重复"@)
    } else {
        chain_problem(chains[i].0, chains[i].1, sources)
    }
}

/// Whether `i` is the first source that breaks a rule.
pub open spec fn is_first_bad_source(sources: Seq<SourceConfig>, i: int) -> bool {
    &&& 0 <= i < sources.len()
    &&& source_problem(sources[i]) is Some
    &&& forall|j: int| 0 <= j < i ==> source_problem(#[trigger] sources[j]) is None
}

/// Whether `i` is the first chain that breaks a rule.
pub open spec fn is_first_bad_chain(
    chains: Seq<(Dataset, Chain)>,
    sources: Seq<SourceConfig>,
    i: int,
) -> bool {
    &&& 0 <= i < chains.len()
    &&& chain_problem_at(chains, i, sources) is Some
    &&& forall|j: int| 0 <= j < i ==> #[trigger] chain_problem_at(chains, j, sources) is None
}

/// A registry is valid when its version is 1, no source breaks a source rule, no
/// dataset has two chains and no chain breaks a chain rule.
pub open spec fn registry_valid(registry: Registry) -> bool {
    &&& registry.version == 1
    &&& forall|i: int|
        0 <= i < registry.sources@.len() ==> source_problem(#[trigger] registry.sources@[i])
            is None
    &&& forall|i: int|
        0 <= i < registry.chains@.len() ==> #[trigger] chain_problem_at(
            registry.chains@,
            i,
            registry.sources@,
        ) is None
}

/// The message of the first broken rule: the version first, then the sources in order,
/// then the chains in order.
pub open spec fn registry_problem(registry: Registry) -> Seq<char> {
    let sources = registry.sources@;
    let chains = registry.chains@;
    if registry.version != 1 {
        version_message(registry.version)
    } else if exists|i: int| is_first_bad_source(sources, i) {
        let i = choose|i: int| is_first_bad_source(sources, i);
        source_problem(sources[i])->0
    } else {
        let i = choose|i: int| is_first_bad_chain(chains, sources, i);
        chain_problem_at(chains, i, sources)->0
    }
}

/// Whether the chain at position `i` is filed under a dataset that an earlier chain has.
fn filed_earlier(chains: &Vec<(Dataset, Chain)>, i: usize) -> (found: bool)
    requires
        i < chains@.len(),
    ensures
        found == filed_twice(chains@, i as int),
{
    let key = chains[i].0;
    for j in 0..i
        invariant
            i < chains@.len(),
            key == chains@[i as int].0,
            forall|k: int| 0 <= k < j ==> (#[trigger] chains@[k]).0 != key,
    {
        if chains[j].0 == key {
            return true;
        }
    }
    false
}

/// Whether some source in `sources` is called `name`.
fn has_source_named(sources: &Vec<SourceConfig>, name: &String) -> (found: bool)
    ensures
        found == defines_source(sources@, name@),
{
    for i in 0..sources.len()
        invariant
            forall|j: int| 0 <= j < i ==> (#[trigger] sources@[j]).name@ != name@,
    {
        if sources[i].name == *name {
            return true;
        }
    }
    false
}

/// Checks one source; `None` when it breaks no rule.
fn check_source(source: &SourceConfig) -> (problem: Option<String>)
    ensures
        problem is Some <==> source_problem(*source) is Some,
        problem matches Some(m) ==> m@ == source_problem(*source)->0,
{
    if source.name.as_str().is_empty() {
        return Some("存在空名字的数据源".to_string());
    }
    if source.kind == SourceKind::PythonSdk && source.package.is_none() {
        let mut message = "python_sdk 数据源 ".to_string();
        message.append(source.name.as_str());
        message.append(" 缺少 package 字段");
        return Some(message);
    }
    if let Auth::Token { env_var } = &source.auth {
        if env_var.as_str().is_empty() {
            let mut message = "数据源 ".to_string();
            message.append(source.name.as_str());
            message.append(" 的 token env_var 为空");
            return Some(message);
        }
    }
    None
}

/// Checks one chain filed under `key`; `None` when it breaks no rule.
fn check_chain(key: Dataset, chain: &Chain, sources: &Vec<SourceConfig>) -> (problem: Option<
    String,
>)
    ensures
        problem is Some <==> chain_problem(key, *chain, sources@) is Some,
        problem matches Some(m) ==> m@ == chain_problem(key, *chain, sources@)->0,
{
    if chain.dataset != key {
        let mut message = "chain 键 ".to_string();
        message.append(key.as_str());
        message.append(" 与内部 dataset 字段不一致（");
        message.append(chain.dataset.as_str());
        message.append("）");
        return Some(message);
    }
    if chain.order.len() == 0 {
        let mut message = "数据集 ".to_string();
        message.append(key.as_str());
        message.append(" 的优先级链为空");
        return Some(message);
    }
    for i in 0..chain.order.len()
        invariant
            chain.dataset == key,
            forall|j: int|
                0 <= j < i ==> defines_source(sources@, (#[trigger] chain.order@[j])@),
    {
        if !has_source_named(sources, &chain.order[i]) {
            let ghost k = choose|k: int| is_first_undefined(chain.order@, sources@, k);
            assert(is_first_undefined(chain.order@, sources@, i as int));
            assert(k == i) by {
                if k < i {
                    assert(defines_source(sources@, chain.order@[k]@));
                } else if k > i {
                    assert(defines_source(sources@, chain.order@[i as int]@));
                }
            }
            let mut message = "数据集 ".to_string();
            message.append(key.as_str());
            message.append(" 优先级链引用了未定义的数据源: ");
            message.append(chain.order[i].as_str());
            return Some(message);
        }
    }
    assert(!exists|k: int| is_first_undefined(chain.order@, sources@, k));
    None
}

impl Registry {
    /// Checks the registry: the version must be 1; every source needs a name, a
    /// `python_sdk` source a package, a token source a non-empty variable name; every
    /// chain must be filed under its own dataset, be non-empty and name only defined
    /// sources, and no dataset may have two chains. The error names the first broken
    /// rule.
    pub fn validate(&self) -> (result: Result<(), RegistryError>)
        ensures
            result is Ok <==> registry_valid(*self),
            result matches Err(e) ==> e matches RegistryError::Validation(m) && m@
                == registry_problem(*self),
    {
        if self.version != 1 {
            let mut message = "不支持的注册表版本: ".to_string();
            message.append(u64_to_decimal(self.version as u64).as_str());
            message.append("（当前支持 1）");
            return Err(RegistryError::Validation(message));
        }
        for i in 0..self.sources.len()
            invariant
                self.version == 1,
                forall|j: int|
                    0 <= j < i ==> source_problem(#[trigger] self.sources@[j]) is None,
        {
            if let Some(message) = check_source(&self.sources[i]) {
                let ghost k = choose|k: int| is_first_bad_source(self.sources@, k);
                assert(is_first_bad_source(self.sources@, i as int));
                assert(k == i) by {
                    if k < i {
                        assert(source_problem(self.sources@[k]) is None);
                    } else if k > i {
                        assert(source_problem(self.sources@[i as int]) is None);
                    }
                }
                return Err(RegistryError::Validation(message));
            }
        }
        assert(!exists|k: int| is_first_bad_source(self.sources@, k));
        for i in 0..self.chains.len()
            invariant
                self.version == 1,
                forall|j: int|
                    0 <= j < self.sources@.len() ==> source_problem(#[trigger] self.sources@[j])
                        is None,
                !exists|k: int| is_first_bad_source(self.sources@, k),
                forall|j: int|
                    0 <= j < i ==> #[trigger] chain_problem_at(self.chains@, j, self.sources@)
                        is None,
        {
            let problem = if filed_earlier(&self.chains, i) {
                let mut message = "数据集 ".to_string();
                message.append(self.chains[i].0.as_str());
                message.append(" 的优先级链重复");
                Some(message)
            } else {
                let (key, chain) = &self.chains[i];
                check_chain(*key, chain, &self.sources)
            };
            assert(problem is Some <==> chain_problem_at(self.chains@, i as int, self.sources@)
                is Some);
            if let Some(message) = problem {
                let ghost k = choose|k: int| is_first_bad_chain(self.chains@, self.sources@, k);
                assert(is_first_bad_chain(self.chains@, self.sources@, i as int));
                assert(k == i) by {
                    if k < i {
                        assert(chain_problem_at(self.chains@, k, self.sources@) is None);
                    } else if k > i {
                        assert(chain_problem_at(self.chains@, i as int, self.sources@) is None);
                    }
                }
                return Err(RegistryError::Validation(message));
            }
        }
        Ok(())
    }

    /// The priority chain filed under `dataset`, if the registry has one.
    pub fn chain(&self, dataset: Dataset) -> (chain: Option<&Chain>)
        ensures
            chain is Some <==> exists|i: int|
                0 <= i < self.chains@.len() && (#[trigger] self.chains@[i]).0 == dataset,
            chain matches Some(c) ==> exists|i: int|
                0 <= i < self.chains@.len() && (#[trigger] self.chains@[i]).0 == dataset && *c
                    == self.chains@[i].1 && forall|j: int|
                    0 <= j < i ==> (#[trigger] self.chains@[j]).0 != dataset,
    {
        for i in 0..self.chains.len()
            invariant
                forall|j: int| 0 <= j < i ==> (#[trigger] self.chains@[j]).0 != dataset,
        {
            if self.chains[i].0 == dataset {
                return Some(&self.chains[i].1);
            }
        }
        None
    }

    /// The first source called `name`.
    pub fn source(&self, name: &str) -> (source: Option<&SourceConfig>)
        ensures
            source is Some <==> defines_source(self.sources@, name@),
            source matches Some(s) ==> exists|i: int|
                0 <= i < self.sources@.len() && *s == (#[trigger] self.sources@[i]) && s.name@
                    == name@ && forall|j: int|
                    0 <= j < i ==> (#[trigger] self.sources@[j]).name@ != name@,
    {
        for i in 0..self.sources.len()
            invariant
                forall|j: int| 0 <= j < i ==> (#[trigger] self.sources@[j]).name@ != name@,
        {
            if crate::text::str_eq(self.sources[i].name.as_str(), name) {
                return Some(&self.sources[i]);
            }
        }
        None
    }
}

impl RegistryError {
    /// The conversion into the library error: an I/O failure stays one, any other
    /// error becomes a configuration error carrying its message.
    pub fn into_error(self) -> (error: Error)
        ensures
            self matches RegistryError::Parse(t) ==> error matches Error::Config(m) && m@
                == "注册表解析失败: "@ + t@,
            self matches RegistryError::Validation(t) ==> error matches Error::Config(m) && m@
                == "注册表校验失败: "@ + t@,
            self is Io ==> error is Io,
    {
        match self {
            RegistryError::Io(io) => Error::Io(io),
            RegistryError::Parse(text) => {
                let mut message = "注册表解析失败: ".to_string();
                message.append(text.as_str());
                Error::Config(message)
            },
            RegistryError::Validation(text) => {
                let mut message = "注册表校验失败: ".to_string();
                message.append(text.as_str());
                Error::Config(message)
            },
        }
    }
}

} // verus!
