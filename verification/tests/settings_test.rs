use gcn_agg::error::GcnError;
use gcn_agg::settings::{
    AcceleratorSettings, AggregatorSettings, MlpSettings, RunningMode, Settings,
    SparsifierSettings,
};

fn base_settings() -> Settings {
    Settings {
        description: String::from("unit"),
        graph_path: String::from("graph.txt"),
        features_paths: vec![String::from("f0.txt"), String::from("f1.txt")],
        accelerator_settings: AcceleratorSettings {
            input_buffer_size: 32,
            agg_buffer_size: 32,
            gcn_hidden_size: vec![2],
            aggregator_settings: AggregatorSettings {
                sparse_cores: 2,
                sparse_width: 2,
                dense_cores: 2,
                dense_width: 2,
            },
            mlp_settings: MlpSettings { systolic_rows: 4, systolic_cols: 4, mlp_sparse_cores: 2 },
            sparsifier_settings: SparsifierSettings {
                sparsifier_cores: 2,
                sparsifier_width: 4,
                sparsifier_cols: 4,
            },
            running_mode: RunningMode::Sparse,
            mem_config_name: String::from("HBM-config.cfg"),
            gcn_layers: 2,
        },
    }
}

#[test]
fn valid_settings_pass() {
    assert_eq!(base_settings().validate(), Ok(()));
}

#[test]
fn zero_agg_buffer_fails_at_configuration() {
    let mut s = base_settings();
    s.accelerator_settings.agg_buffer_size = 0;
    assert_eq!(s.validate(), Err(GcnError::InvalidConfig));
}

#[test]
fn layer_count_must_match_hidden_sizes() {
    let mut s = base_settings();
    s.accelerator_settings.gcn_layers = 3;
    assert_eq!(s.validate(), Err(GcnError::InvalidConfig));
    s.accelerator_settings.gcn_layers = 0;
    assert_eq!(s.validate(), Err(GcnError::InvalidConfig));
}

#[test]
fn sparse_mode_needs_one_feature_file_per_layer() {
    let mut s = base_settings();
    s.features_paths.pop();
    assert_eq!(s.validate(), Err(GcnError::InvalidConfig));
    // the dense mode reads no feature files, so the count is free
    s.accelerator_settings.running_mode = RunningMode::Dense;
    assert_eq!(s.validate(), Ok(()));
}

#[test]
fn statistics_start_empty() {
    let stats = gcn_agg::gcn_result::GcnStatistics::new();
    assert_eq!(stats.cycle, 0);
    assert_eq!(stats.sparse_agg_cycle, 0);
    assert_eq!(stats.simulation_time, String::new());
    let result = gcn_agg::gcn_result::GcnAggResult::new();
    assert!(result.settings.is_none());
    assert!(result.stats.is_none());
}
