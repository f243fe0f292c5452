//! When a point-in-time universe record speaks for a day, and which candidates leave
//! the universe before any figure of theirs is read.

use vstd::prelude::*;

use crate::date::Date;
use crate::text::{chars_of, str_eq};

verus! {

/// The days for which a universe record holds: from the day it takes effect, until
/// the instrument is delisted.
#[derive(Debug, Clone, Copy)]
pub struct ListingWindow {
    pub effective_date: Date,
    pub delisted_date: Option<Date>,
}

impl ListingWindow {
    /// Whether the record applies on `as_of`: it has taken effect by then, and the
    /// instrument is not delisted on or before that day.
    pub fn applies_to(&self, as_of: Date) -> (applies: bool)
        ensures
            applies == (self.effective_date.not_after(as_of) && match self.delisted_date {
                Some(d) => as_of.precedes(d),
                None => true,
            }),
    {
        self.effective_date.is_not_after(&as_of) && match self.delisted_date {
            Some(d) => as_of.is_before(&d),
            None => true,
        }
    }
}

/// Why a candidate leaves the universe before its figures are read.
#[derive(Debug, Clone, Copy, PartialEq, Eq, Structural)]
pub enum UniverseExclusion {
    /// No daily bar of its own on or before the as-of day.
    NoBarAsOf,
    /// A Beijing listing, which the configuration excludes.
    BeijingExcluded,
    /// An ST listing, which the configuration excludes.
    StExcluded,
}

/// The reason reported for an exclusion.
pub open spec fn exclusion_reason(exclusion: UniverseExclusion) -> Seq<char> {
    match exclusion {
        UniverseExclusion::NoBarAsOf => "缺少 as-of 日线数据"@,
        UniverseExclusion::BeijingExcluded => "北交所标的被配置为排除"@,
        UniverseExclusion::StExcluded => "ST 标的被配置为排除"@,
    }
}

impl UniverseExclusion {
    /// The reason reported for this exclusion.
    pub fn reason(&self) -> (text: &'static str)
        ensures
            text@ == exclusion_reason(*self),
    {
        match self {
            UniverseExclusion::NoBarAsOf => "缺少 as-of 日线数据",
            UniverseExclusion::BeijingExcluded => "北交所标的被配置为排除",
            UniverseExclusion::StExcluded => "ST 标的被配置为排除",
        }
    }
}

/// Whether the unified code `symbol` is a Beijing listing: it ends in `.BJ`.
pub open spec fn is_beijing_code(symbol: Seq<char>) -> bool {
    symbol.len() >= 3 && symbol.skip(symbol.len() - 3) == seq!['.', 'B', 'J']
}

/// Whether some bar, given as (symbol, trade day), is the candidate's own and falls on
/// or before `as_of`.
pub open spec fn has_bar_as_of(symbol: Seq<char>, as_of: Date, bars: Seq<(String, Date)>) -> bool {
    exists|i: int| 0 <= i < bars.len() && (#[trigger] bars[i]).0@ == symbol && bars[i].1.not_after(as_of)
}

/// The first universe rule a candidate breaks, in order: it needs a bar of its own by
/// the as-of day; a Beijing listing leaves when Beijing is excluded; an ST listing
/// leaves when ST is excluded.
pub open spec fn universe_exclusion(
    symbol: Seq<char>,
    as_of: Date,
    bars: Seq<(String, Date)>,
    is_st: bool,
    exclude_bse: bool,
    exclude_st: bool,
) -> Option<UniverseExclusion> {
    if !has_bar_as_of(symbol, as_of, bars) {
        Some(UniverseExclusion::NoBarAsOf)
    } else if exclude_bse && is_beijing_code(symbol) {
        Some(UniverseExclusion::BeijingExcluded)
    } else if exclude_st && is_st {
        Some(UniverseExclusion::StExcluded)
    } else {
        None
    }
}

fn ends_with_bj(symbol: &str) -> (found: bool)
    ensures
        found == is_beijing_code(symbol@),
{
    let chars = chars_of(symbol);
    let n = chars.len();
    if n < 3 {
        return false;
    }
    let found = chars[n - 3] == '.' && chars[n - 2] == 'B' && chars[n - 1] == 'J';
    assert(found == (chars@.skip(n - 3) =~= seq!['.', 'B', 'J']));
    found
}

/// The universe rules that read no figure: the first one the candidate breaks, or
/// `None` when it stays in the universe.
pub fn universe_gate(
    symbol: &str,
    as_of: Date,
    bars: &[(String, Date)],
    is_st: bool,
    exclude_bse: bool,
    exclude_st: bool,
) -> (exclusion: Option<UniverseExclusion>)
    ensures
        exclusion == universe_exclusion(symbol@, as_of, bars@, is_st, exclude_bse, exclude_st),
{
    let mut found = false;
    for i in 0..bars.len()
        invariant
            found <==> exists|j: int|
                0 <= j < i && (#[trigger] bars@[j]).0@ == symbol@ && bars@[j].1.not_after(as_of),
    {
        if str_eq(bars[i].0.as_str(), symbol) && bars[i].1.is_not_after(&as_of) {
            found = true;
        }
    }
    if !found {
        return Some(UniverseExclusion::NoBarAsOf);
    }
    if exclude_bse && ends_with_bj(symbol) {
        return Some(UniverseExclusion::BeijingExcluded);
    }
    if exclude_st && is_st {
        return Some(UniverseExclusion::StExcluded);
    }
    None
}

} // verus!
