//! Datasets: the units of data that sources provide and storage keeps.

use vstd::prelude::*;

use crate::error::Error;
use crate::text::str_eq;

verus! {

/// Kinds of data the project fetches and stores.
#[derive(Debug, Clone, Copy, PartialEq, Eq, Hash, Structural)]
pub enum Dataset {
    /// Unadjusted daily OHLCV bars.
    Daily,
    /// Cumulative backward adjustment factors.
    AdjFactor,
    /// Quarterly financial snapshots.
    Financial,
    /// Earnings forecasts and express reports.
    EarningsNotice,
    /// Price-derived data (share counts, for market capitalisation).
    PriceVal,
    /// Macro indicators.
    Macro,
}

/// The snake_case name of a dataset.
pub open spec fn dataset_name(dataset: Dataset) -> Seq<char> {
    match dataset {
        Dataset::Daily => "daily"@,
        Dataset::AdjFactor => "adj_factor"@,
        Dataset::Financial => "financial"@,
        Dataset::EarningsNotice => "earnings_notice"@,
        Dataset::PriceVal => "price_val"@,
        Dataset::Macro => "macro"@,
    }
}

/// The directory of a dataset below the data root.
pub open spec fn dataset_dir(dataset: Dataset) -> Seq<char> {
    match dataset {
        Dataset::Daily => "market/daily"@,
        Dataset::AdjFactor => "market/adj_factor"@,
        Dataset::Financial => "financial"@,
        Dataset::EarningsNotice => "financial"@,
        Dataset::PriceVal => "market/daily"@,
        Dataset::Macro => "macro"@,
    }
}

/// Different datasets have different names, so a name parses back to its dataset.
pub proof fn lemma_names_distinct(a: Dataset, b: Dataset)
    ensures
        dataset_name(a) == dataset_name(b) ==> a == b,
{
    reveal_strlit("daily");
    reveal_strlit("adj_factor");
    reveal_strlit("financial");
    reveal_strlit("earnings_notice");
    reveal_strlit("price_val");
    reveal_strlit("macro");
    if dataset_name(a) == dataset_name(b) {
        assert(dataset_name(a)[0] == dataset_name(b)[0]);
    }
}

/// The text of the error for an unknown dataset name.
pub open spec fn unknown_dataset_message(name: Seq<char>) -> Seq<char> {
    "未知数据集: "@ + name
}

impl Dataset {
    /// Every dataset, in declaration order.
    pub const ALL: [Dataset; 6] = [
        Dataset::Daily,
        Dataset::AdjFactor,
        Dataset::Financial,
        Dataset::EarningsNotice,
        Dataset::PriceVal,
        Dataset::Macro,
    ];

    /// The dataset's snake_case name.
    pub fn as_str(&self) -> (name: &'static str)
        ensures
            name@ == dataset_name(*self),
    {
        match self {
            Dataset::Daily => "daily",
            Dataset::AdjFactor => "adj_factor",
            Dataset::Financial => "financial",
            Dataset::EarningsNotice => "earnings_notice",
            Dataset::PriceVal => "price_val",
            Dataset::Macro => "macro",
        }
    }

    /// The dataset's directory below the data root (storage convention).
    pub fn dir(&self) -> (dir: &'static str)
        ensures
            dir@ == dataset_dir(*self),
    {
        match self {
            Dataset::Daily => "market/daily",
            Dataset::AdjFactor => "market/adj_factor",
            Dataset::Financial => "financial",
            Dataset::EarningsNotice => "financial",
            Dataset::PriceVal => "market/daily",
            Dataset::Macro => "macro",
        }
    }

    /// The dataset whose name is `name`, or a configuration error naming it.
    pub fn parse_name(name: &str) -> (parsed: Result<Dataset, Error>)
        ensures
            parsed matches Ok(d) ==> dataset_name(d) == name@,
            parsed is Err <==> forall|d: Dataset| dataset_name(d) != name@,
            parsed matches Err(e) ==> e matches Error::Config(msg) && msg@
                == unknown_dataset_message(name@),
    {
        let all = [
            Dataset::Daily,
            Dataset::AdjFactor,
            Dataset::Financial,
            Dataset::EarningsNotice,
            Dataset::PriceVal,
            Dataset::Macro,
        ];
        for i in 0..6
            invariant
                all@ == seq![
                    Dataset::Daily,
                    Dataset::AdjFactor,
                    Dataset::Financial,
                    Dataset::EarningsNotice,
                    Dataset::PriceVal,
                    Dataset::Macro,
                ],
                forall|j: int| 0 <= j < i ==> dataset_name(#[trigger] all@[j]) != name@,
        {
            if str_eq(all[i].as_str(), name) {
                return Ok(all[i]);
            }
        }
        assert forall|d: Dataset| dataset_name(d) != name@ by {
            match d {
                Dataset::Daily => assert(all@[0] == d),
                Dataset::AdjFactor => assert(all@[1] == d),
                Dataset::Financial => assert(all@[2] == d),
                Dataset::EarningsNotice => assert(all@[3] == d),
                Dataset::PriceVal => assert(all@[4] == d),
                Dataset::Macro => assert(all@[5] == d),
            }
        }
        let mut message = "未知数据集: ".to_string();
        message.append(name);
        Err(Error::Config(message))
    }
}

impl std::str::FromStr for Dataset {
    type Err = Error;

    fn from_str(s: &str) -> (parsed: Result<Self, Self::Err>)
        ensures
            parsed matches Ok(d) ==> dataset_name(d) == s@,
            parsed is Err <==> forall|d: Dataset| dataset_name(d) != s@,
            parsed matches Err(e) ==> e matches Error::Config(msg) && msg@
                == unknown_dataset_message(s@),
    {
        Dataset::parse_name(s)
    }
}

/// How a dataset is fetched (for adapters and the synchroniser).
#[derive(Debug, Clone, PartialEq)]
pub struct DatasetSpec {
    pub dataset: Dataset,
    /// Whether the dataset supports incremental, per-trading-day fetching.
    pub incremental: bool,
    /// Health-check probe: a benchmark symbol and a look-back window.
    pub probe: Option<DatasetProbe>,
}

/// A health-check probe for one dataset.
#[derive(Debug, Clone, PartialEq)]
pub struct DatasetProbe {
    pub symbol: String,
    pub lookback_days: u32,
}

} // verus!
