//! The statistics a simulation run reports.

use vstd::prelude::*;

use crate::settings::Settings;

verus! {

/// Per-stage cycle counters plus the wall-clock time of the run.
#[derive(Debug)]
pub struct GcnStatistics {
    pub cycle: u64,
    pub sparse_mlp_cycle: u64,
    pub dense_mlp_cycle: u64,
    pub sparse_agg_cycle: u64,
    pub dense_agg_cycle: u64,
    pub translation_cycle: u64,
    pub sparsify_cycle: u64,
    pub simulation_time: String,
}

impl GcnStatistics {
    /// Fresh statistics: every counter zero, no recorded time.
    pub fn new() -> (r: Self)
        ensures
            r.cycle == 0,
            r.sparse_mlp_cycle == 0,
            r.dense_mlp_cycle == 0,
            r.sparse_agg_cycle == 0,
            r.dense_agg_cycle == 0,
            r.translation_cycle == 0,
            r.sparsify_cycle == 0,
            r.simulation_time@ == Seq::<char>::empty(),
    {
        GcnStatistics {
            cycle: 0,
            sparse_mlp_cycle: 0,
            dense_mlp_cycle: 0,
            sparse_agg_cycle: 0,
            dense_agg_cycle: 0,
            translation_cycle: 0,
            sparsify_cycle: 0,
            simulation_time: String::new(),
        }
    }
}

/// The settings a run used and the statistics it produced.
#[derive(Debug)]
pub struct GcnAggResult {
    pub settings: Option<Settings>,
    pub stats: Option<GcnStatistics>,
}

impl GcnAggResult {
    /// An empty result: nothing recorded yet.
    pub fn new() -> (r: Self)
        ensures
            r.settings is None,
            r.stats is None,
    {
        GcnAggResult { settings: None, stats: None }
    }
}

} // verus!
