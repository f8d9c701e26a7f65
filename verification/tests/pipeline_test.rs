use gcn_agg::agg_buffer::AggBuffer;
use gcn_agg::mem_interface::{FixedLatencyDram, MemInterface, MemInterfaceReq};
use gcn_agg::graph::Graph;
use gcn_agg::node_features::NodeFeatures;
use gcn_agg::pipeline::{CostLink, DoubleBuffer, FlatCost, InputBuffer, Link, Stage};
use gcn_agg::settings::RunningMode;
use gcn_agg::sliding_window::{OutputWindowIterator, WindowIterSettings};

#[test]
fn double_buffer_emits_one_tick_later() {
    let mut b: DoubleBuffer<u32> = DoubleBuffer::new();
    assert!(b.can_accept_input());
    assert!(!b.has_output());
    b.push_input(7);
    assert!(!b.has_output());
    b.tick();
    assert!(b.has_output());
    assert_eq!(b.pop_output(), Some(7));
    assert!(!b.has_output());
}

#[test]
fn input_buffer_test() {
    let graph = Graph::parse(b"f 2\n0 1 2\n1 2 0\n2 0 1\nend\n").unwrap();
    let settings = WindowIterSettings {
        agg_buffer_size: 60,
        input_buffer_size: 60,
        layer: 0,
        gcn_hidden_size: vec![2, 2],
        is_final_layer: false,
        running_mode: RunningMode::Dense,
    };
    let mut outer = OutputWindowIterator::new(&graph, settings);
    let window = outer.next().unwrap().next(&graph, None).unwrap();
    let mut input_buffer: InputBuffer = DoubleBuffer::new();
    input_buffer.push_input(window);
    input_buffer.tick();
    let output = input_buffer.pop_output().unwrap();
    assert_eq!(output.start_input_index, 0);
}

#[test]
fn chain_of_latches_has_fixed_propagation() {
    // three composed empty latches: one cycle inside each latch and
    // one per hand-over between neighbours
    let chain = Link::new(DoubleBuffer::<u32>::new(), DoubleBuffer::<u32>::new());
    let mut chain = Link::new(chain, DoubleBuffer::<u32>::new());
    chain.push_input(5);
    let mut ticks = 0;
    while !chain.has_output() {
        chain.tick();
        ticks += 1;
        assert!(ticks < 100);
    }
    assert_eq!(ticks, 5);
    assert_eq!(chain.pop_output(), Some(5));
}

#[test]
fn cost_link_holds_the_downstream_stage() {
    let mut link = CostLink::new(DoubleBuffer::<u32>::new(), DoubleBuffer::<u32>::new(), FlatCost {
        per_item: 4,
    });
    link.push_input(9);
    let mut ticks = 0;
    while !link.has_output() {
        link.tick();
        ticks += 1;
        assert!(ticks < 100);
    }
    // one tick through the upstream latch, one to the transfer
    // point, four held cycles, one through the downstream latch
    assert_eq!(ticks, 7);
    assert_eq!(link.get_cost_total(), 4);
    assert_eq!(link.pop_output(), Some(9));
}

#[test]
fn fold_stage_releases_on_the_completing_tile() {
    let graph = Graph::parse(b"f 2\n0 1 2\n1 2 0\n2 0 1\nend\n").unwrap();
    let nf = NodeFeatures::parse(b"0 0 1 0 1 0\n1 0 0 1 1 1\n1 1 0 0 0 1\n").unwrap();
    let settings = WindowIterSettings {
        agg_buffer_size: 60,
        input_buffer_size: 60,
        layer: 0,
        gcn_hidden_size: vec![2, 2],
        is_final_layer: false,
        running_mode: RunningMode::Sparse,
    };
    let mut outer = OutputWindowIterator::new(&graph, settings);
    let mut inner = outer.next().unwrap();
    let mut fold = AggBuffer::new();
    let mut emitted = 0;
    while let Some(w) = inner.next(&graph, Some(&nf)) {
        fold.push_input(w);
        fold.tick();
        if fold.has_output() {
            let out = fold.pop_output().unwrap();
            assert!(out.last_row_completed);
            emitted += 1;
        }
    }
    assert_eq!(emitted, 1);
}

#[test]
fn connect_test() {
    // the memory stage feeding a costed latch pair, one work cycle
    // per transferred item
    let graph = Graph::parse(b"f 2\n0 1 2\n1 2 0\n2 0 1\nend\n").unwrap();
    let settings = WindowIterSettings {
        agg_buffer_size: 60,
        input_buffer_size: 60,
        layer: 0,
        gcn_hidden_size: vec![2, 2],
        is_final_layer: false,
        running_mode: RunningMode::Dense,
    };
    let mut outer = OutputWindowIterator::new(&graph, settings);
    let window = outer.next().unwrap().next(&graph, None).unwrap();
    let req = MemInterfaceReq { window, addr_vec: vec![0, 64, 128] };

    let mut mem = FixedLatencyDram::new(4, 16);
    let mut mem_interface = MemInterface::new(2, false);
    let input_buffer: InputBuffer = DoubleBuffer::new();
    let mut chain = CostLink::new(input_buffer, DoubleBuffer::new(), FlatCost { per_item: 1 });
    mem_interface.push_input(req).unwrap();
    let mut cycle = 0;
    while !chain.has_output() {
        chain.tick();
        if chain.can_accept_input() && mem_interface.has_output() {
            chain.push_input(mem_interface.pop_output().unwrap());
        }
        let _ = mem_interface.tick(&mut mem);
        cycle += 1;
        assert!(cycle < 1000);
    }
    let output = chain.pop_output().unwrap();
    assert_eq!(output.start_input_index, 0);
    assert_eq!(chain.get_cost_total(), 1);
}
