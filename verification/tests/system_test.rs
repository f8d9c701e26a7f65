//! One end-to-end run of the sparse pipeline over a small graph: the
//! memory stage feeds a latch, the aggregation stage, the costed MLP
//! latch and the output latch, with the fixed-latency DRAM model
//! behind the port.

use gcn_agg::agg_buffer::{AggBuffer, SparseAggBuffer};
use gcn_agg::cost::{DenseAggCost, DenseMlpCost, MlpSparseCost};
use gcn_agg::graph::Graph;
use gcn_agg::mem_interface::{
    get_addr_vec_from_window, system_tick, FixedLatencyDram, MemInterface,
};
use gcn_agg::node_features::NodeFeatures;
use gcn_agg::pipeline::{CostLink, DoubleBuffer, InputBuffer, Link, MlpBuffer, OutputBuffer, Stage};
use gcn_agg::settings::RunningMode;
use gcn_agg::sliding_window::{OutputWindowIterator, WindowIterSettings};

#[test]
fn sparse_pipeline_runs_one_layer_to_completion() {
    let graph = Graph::parse(b"f 2\n0 1 2\n1 2 0\n2 0 1\nend\n").unwrap();
    let nf = NodeFeatures::parse(b"0 0 1 0 1 0\n1 0 0 1 1 1\n1 1 0 0 0 1\n").unwrap();
    let settings = WindowIterSettings {
        agg_buffer_size: 32,
        input_buffer_size: 32,
        layer: 0,
        gcn_hidden_size: vec![2],
        is_final_layer: true,
        running_mode: RunningMode::Sparse,
    };

    let mut mem = FixedLatencyDram::new(3, 16);
    let mut mem_interface = MemInterface::new(16, false);
    let input_buffer: InputBuffer = DoubleBuffer::new();
    let agg = SparseAggBuffer::new(2, vec![nf.clone()]);
    let mlp: MlpBuffer = DoubleBuffer::new();
    let output: OutputBuffer = DoubleBuffer::new();
    let chain = Link::new(input_buffer, agg);
    let chain = CostLink::new(chain, mlp, MlpSparseCost { mlp_sparse_cores: 2 });
    let mut chain = Link::new(chain, output);

    let mut outer = OutputWindowIterator::new(&graph, settings);
    let mut cycles: u64 = 0;
    let mut outputs = 0;
    let mut final_seen = false;
    let mut last_counter: i128 = 0;
    while let Some(mut inner) = outer.next() {
        while let Some(window) = inner.next(&graph, Some(&nf)) {
            let req = get_addr_vec_from_window(window, RunningMode::Sparse, &nf, 0);
            mem_interface.push_input(req).unwrap();
            // run the system until the memory stage frees up
            loop {
                let out = system_tick(&mut mem_interface, &mut mem, &mut chain);
                cycles += 1;
                if let Some(out) = out {
                    outputs += 1;
                    final_seen = final_seen || out.is_final_window;
                }
                // the accounted work only ever grows
                let counter = chain.a.get_cost_total() as i128;
                assert!(counter >= last_counter);
                last_counter = counter;
                if mem_interface.can_accept_input() {
                    break;
                }
                assert!(cycles < 1_000_000);
            }
        }
    }
    // drain the pipeline
    while !final_seen {
        let out = system_tick(&mut mem_interface, &mut mem, &mut chain);
        cycles += 1;
        if let Some(out) = out {
            outputs += 1;
            final_seen = final_seen || out.is_final_window;
        }
        assert!(cycles < 1_000_000);
    }
    // feature size 2: two output tiles over three nodes
    assert_eq!(outputs, 2);
    assert!(cycles > 0);
}

#[test]
fn empty_graph_runs_zero_cycles() {
    let graph = Graph::parse(b"f 2\nend\n").unwrap();
    let nf = NodeFeatures::parse(b"").unwrap();
    let settings = WindowIterSettings {
        agg_buffer_size: 32,
        input_buffer_size: 32,
        layer: 0,
        gcn_hidden_size: vec![2],
        is_final_layer: true,
        running_mode: RunningMode::Sparse,
    };
    let mut outer = OutputWindowIterator::new(&graph, settings);
    let mut cycles = 0;
    while let Some(mut inner) = outer.next() {
        while let Some(window) = inner.next(&graph, Some(&nf)) {
            let _ = window;
            cycles += 1;
        }
    }
    assert_eq!(cycles, 0);
}

#[test]
fn dense_pipeline_runs_one_layer_to_completion() {
    // dimension 8: every tile boundary lands on a 64-byte line
    let graph = Graph::parse(b"f 8\n0 1 2\n1 2 0\n2 0 1\nend\n").unwrap();
    let nf = NodeFeatures::parse(b"").unwrap();
    let settings = WindowIterSettings {
        agg_buffer_size: 256,
        input_buffer_size: 128,
        layer: 0,
        gcn_hidden_size: vec![2],
        is_final_layer: true,
        running_mode: RunningMode::Dense,
    };

    let mut mem = FixedLatencyDram::new(3, 16);
    let mut mem_interface = MemInterface::new(16, false);
    let input_buffer: InputBuffer = DoubleBuffer::new();
    let fold = AggBuffer::new();
    let mlp: MlpBuffer = DoubleBuffer::new();
    let output: OutputBuffer = DoubleBuffer::new();
    let chain = CostLink::new(input_buffer, fold, DenseAggCost { dense_width: 2, dense_cores: 2 });
    let chain = CostLink::new(chain, mlp, DenseMlpCost { systolic_rows: 4, systolic_cols: 4 });
    let mut chain = Link::new(chain, output);

    let mut outer = OutputWindowIterator::new(&graph, settings);
    let mut cycles: u64 = 0;
    let mut outputs = 0;
    let mut final_seen = false;
    while let Some(mut inner) = outer.next() {
        while let Some(window) = inner.next(&graph, None) {
            let req = get_addr_vec_from_window(window, RunningMode::Dense, &nf, 0);
            mem_interface.push_input(req).unwrap();
            loop {
                let out = system_tick(&mut mem_interface, &mut mem, &mut chain);
                cycles += 1;
                if let Some(out) = out {
                    outputs += 1;
                    final_seen = final_seen || out.is_final_window;
                }
                if mem_interface.can_accept_input() {
                    break;
                }
                assert!(cycles < 1_000_000);
            }
        }
    }
    while !final_seen {
        let out = system_tick(&mut mem_interface, &mut mem, &mut chain);
        cycles += 1;
        if let Some(out) = out {
            outputs += 1;
            final_seen = final_seen || out.is_final_window;
        }
        assert!(cycles < 1_000_000);
    }
    // one output tile of four rows covers the three nodes
    assert_eq!(outputs, 1);
}
