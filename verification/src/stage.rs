//! Stages of the screening pipeline.

use vstd::prelude::*;

verus! {

/// Pipeline stages, in the order in which a candidate passes them.
#[derive(Debug, Clone, Copy, PartialEq, Eq, Structural)]
pub enum PipelineStage {
    Universe,
    Environment,
    Undervalued,
    ExcludeBad,
    Recovery,
    Output,
}

/// The snake_case label of a stage.
pub open spec fn stage_label(stage: PipelineStage) -> Seq<char> {
    match stage {
        PipelineStage::Universe => "universe"@,
        PipelineStage::Environment => "environment"@,
        PipelineStage::Undervalued => "undervalued"@,
        PipelineStage::ExcludeBad => "exclude_bad"@,
        PipelineStage::Recovery => "recovery"@,
        PipelineStage::Output => "output"@,
    }
}

/// The position of a stage in the pipeline, from 0.
pub open spec fn stage_position(stage: PipelineStage) -> int {
    match stage {
        PipelineStage::Universe => 0,
        PipelineStage::Environment => 1,
        PipelineStage::Undervalued => 2,
        PipelineStage::ExcludeBad => 3,
        PipelineStage::Recovery => 4,
        PipelineStage::Output => 5,
    }
}

impl PipelineStage {
    /// `universe`, `environment`, `undervalued`, `exclude_bad`, `recovery` or `output`.
    pub fn label(&self) -> (label: &'static str)
        ensures
            label@ == stage_label(*self),
    {
        match self {
            PipelineStage::Universe => "universe",
            PipelineStage::Environment => "environment",
            PipelineStage::Undervalued => "undervalued",
            PipelineStage::ExcludeBad => "exclude_bad",
            PipelineStage::Recovery => "recovery",
            PipelineStage::Output => "output",
        }
    }
}

/// Pipeline stages as the screening configuration names them.
#[derive(Debug, Clone, Copy, PartialEq, Eq, Structural)]
pub enum Stage {
    Universe,
    Environment,
    Undervalued,
    ExcludeBad,
    Recovery,
    Output,
}

/// As-of rules: every factor uses only data known on or before the as-of date.
#[derive(Debug, Clone)]
pub struct AsOfCfg {
    /// Conservative offset (days after the period end) used where the real announcement
    /// date is missing.
    pub ann_date_approx_days: i64,
    /// Whether strict runs reject financial snapshots without a real announcement date.
    pub require_real_ann_date: bool,
}

} // verus!
