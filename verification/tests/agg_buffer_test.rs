use gcn_agg::agg_buffer::{AggStatus, SparseAggBuffer};
use gcn_agg::graph::Graph;
use gcn_agg::node_features::NodeFeatures;
use gcn_agg::pipeline::Stage;
use gcn_agg::settings::RunningMode;
use gcn_agg::sliding_window::{OutputWindowIterator, WindowIterSettings};

fn features3() -> NodeFeatures {
    NodeFeatures::parse(b"0 0 1 0 1 0\n1 0 0 1 1 1\n1 1 0 0 0 1\n").unwrap()
}

#[test]
fn get_add_sparse_cycle_counts_streamed_merges() {
    // rows: node 0 -> {2,4}, node 1 -> {0,3,4,5}, node 2 -> {0,1,5}
    let nf = features3();
    let mut agg = SparseAggBuffer::new(2, vec![nf]);
    agg.temp_agg_result = vec![vec![], vec![]];
    // row 0 merges nodes 0 then 1: (0+2) + (2+4) = 8 cycles,
    // row 1 merges node 2:        (0+3)         = 3 cycles;
    // two cores: loads 8 and 3, the tile costs the busier core
    let tasks = vec![vec![0, 1], vec![2]];
    let cycles = agg.get_add_sparse_cycle(&tasks, 0);
    assert_eq!(cycles, 8);
    // the unions were folded in place, ordered
    assert_eq!(agg.temp_agg_result[0], vec![0, 2, 3, 4, 5]);
    assert_eq!(agg.temp_agg_result[1], vec![0, 1, 5]);
}

#[test]
fn one_core_serializes_the_rows() {
    let nf = features3();
    let mut agg = SparseAggBuffer::new(1, vec![nf]);
    agg.temp_agg_result = vec![vec![], vec![]];
    let tasks = vec![vec![0, 1], vec![2]];
    assert_eq!(agg.get_add_sparse_cycle(&tasks, 0), 11);
}

#[test]
fn test() {
    // drive the stage by its tick protocol over the windows of one
    // output tile
    let graph = Graph::parse(b"f 2\n0 1 2\n1 2 0\n2 0 1\nend\n").unwrap();
    let node_features = features3();
    let settings = WindowIterSettings {
        agg_buffer_size: 60,
        input_buffer_size: 60,
        layer: 0,
        gcn_hidden_size: vec![2, 2],
        is_final_layer: false,
        running_mode: RunningMode::Sparse,
    };
    let mut outer = OutputWindowIterator::new(&graph, settings);
    let mut inner = outer.next().unwrap();
    let window = inner.next(&graph, Some(&node_features)).unwrap();
    let mut agg_buffer = SparseAggBuffer::new(2, vec![node_features.clone()]);
    agg_buffer.push_input(window);
    let mut cycles = 0;
    while !agg_buffer.has_output() {
        agg_buffer.tick();
        cycles += 1;
        if agg_buffer.can_accept_input() {
            if let Some(window) = inner.next(&graph, Some(&node_features)) {
                agg_buffer.push_input(window);
            }
        }
        assert!(cycles < 10_000);
    }
    let output = agg_buffer.pop_output().unwrap();
    assert!(output.last_row_completed);
    assert_eq!(output.start_output_index, 0);
    assert!(agg_buffer.total_cycle > 0);
}

#[test]
fn tick_counts_down_and_emits_once() {
    let nf = features3();
    let graph = Graph::parse(b"f 2\n0 1 2\n1 2 0\n2 0 1\nend\n").unwrap();
    let settings = WindowIterSettings {
        agg_buffer_size: 60,
        input_buffer_size: 100,
        layer: 0,
        gcn_hidden_size: vec![2, 2],
        is_final_layer: false,
        running_mode: RunningMode::Sparse,
    };
    let mut outer = OutputWindowIterator::new(&graph, settings);
    let mut inner = outer.next().unwrap();
    let w = inner.next(&graph, Some(&nf)).unwrap();
    assert!(w.is_last_row);
    let mut agg = SparseAggBuffer::new(2, vec![nf]);
    agg.push_input(w);
    // consuming the tile accounts its cycles at once and the counter
    // never moves again while the work drains
    agg.tick();
    let accounted = agg.total_cycle;
    assert!(accounted > 0);
    assert!(matches!(agg.status, AggStatus::Working(_, true)));
    let mut guard = 0;
    while !agg.has_output() {
        agg.tick();
        assert_eq!(agg.total_cycle, accounted);
        guard += 1;
        assert!(guard < 10_000);
    }
}
