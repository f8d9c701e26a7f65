//! The accelerator configuration and the checks that make a
//! configuration acceptable.  Loading the values from configuration
//! files is left to the surrounding program; this module owns the
//! validation rules.

use vstd::prelude::*;

use crate::error::GcnError;

verus! {

/// Which pipeline is composed and how input tiles are sized.
#[derive(Debug, Clone, Copy, PartialEq, Eq, Structural)]
pub enum RunningMode {
    Sparse,
    Dense,
    Mixed,
}

/// Parameters of the aggregation cores.
#[derive(Debug, Clone)]
pub struct AggregatorSettings {
    pub sparse_cores: usize,
    pub sparse_width: usize,
    pub dense_cores: usize,
    pub dense_width: usize,
}

/// Parameters of the systolic MLP stage.
#[derive(Debug, Clone)]
pub struct MlpSettings {
    pub systolic_rows: usize,
    pub systolic_cols: usize,
    pub mlp_sparse_cores: usize,
}

/// Parameters of the sparsifier stage.
#[derive(Debug, Clone)]
pub struct SparsifierSettings {
    pub sparsifier_cores: usize,
    pub sparsifier_width: usize,
    pub sparsifier_cols: usize,
}

/// Everything the accelerator model needs to know about the machine.
#[derive(Debug, Clone)]
pub struct AcceleratorSettings {
    pub input_buffer_size: usize,
    pub agg_buffer_size: usize,
    pub gcn_hidden_size: Vec<usize>,
    pub aggregator_settings: AggregatorSettings,
    pub mlp_settings: MlpSettings,
    pub sparsifier_settings: SparsifierSettings,
    pub running_mode: RunningMode,
    pub mem_config_name: String,
    pub gcn_layers: usize,
}

/// One complete run description.
#[derive(Debug, Clone)]
pub struct Settings {
    pub description: String,
    pub graph_path: String,
    pub features_paths: Vec<String>,
    pub accelerator_settings: AcceleratorSettings,
}

impl Settings {
    /// What makes a configuration acceptable: at least one layer, one
    /// hidden width per layer but the last, a non-empty aggregation
    /// buffer, and one feature file per layer when features are read.
    pub open spec fn valid(&self) -> bool {
        &&& self.accelerator_settings.gcn_layers >= 1
        &&& self.accelerator_settings.gcn_layers == self.accelerator_settings.gcn_hidden_size@.len()
            + 1
        &&& self.accelerator_settings.agg_buffer_size > 0
        &&& (self.accelerator_settings.running_mode != RunningMode::Dense
            ==> self.features_paths@.len() == self.accelerator_settings.gcn_hidden_size@.len() + 1)
    }

    /// Accept the configuration exactly when it is valid; every
    /// rejection carries the configuration error kind.
    pub fn validate(&self) -> (r: Result<(), GcnError>)
        ensures
            r is Ok <==> self.valid(),
            r is Err ==> r->Err_0 == GcnError::InvalidConfig,
    {
        let acc = &self.accelerator_settings;
        if acc.gcn_layers == 0 {
            return Err(GcnError::InvalidConfig);
        }
        if acc.gcn_layers - 1 != acc.gcn_hidden_size.len() {
            return Err(GcnError::InvalidConfig);
        }
        if acc.agg_buffer_size == 0 {
            return Err(GcnError::InvalidConfig);
        }
        match acc.running_mode {
            RunningMode::Dense => Ok(()),
            RunningMode::Sparse | RunningMode::Mixed => {
                if self.features_paths.len() == acc.gcn_layers {
                    Ok(())
                } else {
                    Err(GcnError::InvalidConfig)
                }
            },
        }
    }
}

} // verus!
