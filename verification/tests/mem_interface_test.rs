use gcn_agg::error::GcnError;
use gcn_agg::graph::Graph;
use gcn_agg::mem_interface::{
    get_addr_vec_from_window, FixedLatencyDram, MemInterface, MemInterfaceReq,
};
use gcn_agg::node_features::NodeFeatures;
use gcn_agg::pipeline::{DoubleBuffer, InputBuffer, Stage};
use gcn_agg::settings::RunningMode;
use gcn_agg::sliding_window::{InputWindow, OutputWindowIterator, WindowIterSettings};

fn one_window() -> InputWindow {
    let graph = Graph::parse(b"f 2\n0 1 2\n1 2 0\n2 0 1\nend\n").unwrap();
    let settings = WindowIterSettings {
        agg_buffer_size: 60,
        input_buffer_size: 60,
        layer: 0,
        gcn_hidden_size: vec![2, 2],
        is_final_layer: false,
        running_mode: RunningMode::Dense,
    };
    let mut outer = OutputWindowIterator::new(&graph, settings);
    outer.next().unwrap().next(&graph, None).unwrap()
}

#[test]
fn test_mem_interface() {
    let mut mem = FixedLatencyDram::new(4, 16);
    let mut mem_interface = MemInterface::new(2, false);
    let window = one_window();
    let req = MemInterfaceReq { window, addr_vec: vec![0, 64, 128] };
    mem_interface.push_input(req).unwrap();
    let mut cycle = 0;
    while !mem_interface.has_output() {
        let _ = mem_interface.tick(&mut mem);
        cycle += 1;
        assert!(cycle < 1000);
    }
    let output = mem_interface.pop_output().unwrap();
    assert_eq!(output.start_input_index, 0);
    // three distinct lines: three DRAM sends
    assert_eq!(mem.get_send_count(), 3);
}

#[test]
fn misaligned_read_address_is_refused() {
    let mut mem_interface = MemInterface::new(2, false);
    let req = MemInterfaceReq { window: one_window(), addr_vec: vec![0, 65] };
    assert_eq!(mem_interface.push_input(req), Err(GcnError::InvalidAddress));
    assert!(mem_interface.can_accept_input());
}

fn run_until_output(
    mem_interface: &mut MemInterface,
    mem: &mut FixedLatencyDram,
) -> u64 {
    let mut cycle = 0;
    while !mem_interface.has_output() {
        let _ = mem_interface.tick(mem);
        cycle += 1;
        assert!(cycle < 10_000);
    }
    cycle
}

#[test]
fn single_line_completes_in_latency_plus_two_ticks() {
    // through the memory stage and one latch, a single 64-byte line
    // takes the DRAM's advertised latency plus two propagation ticks
    // beyond the stage's own issue-and-release time
    let latency = 7;
    let mut mem = FixedLatencyDram::new(latency, 16);
    let mut mem_interface = MemInterface::new(16, false);
    mem_interface
        .push_input(MemInterfaceReq { window: one_window(), addr_vec: vec![64] })
        .unwrap();
    let stage_cycles = run_until_output(&mut mem_interface, &mut mem);
    let mut buffer: InputBuffer = DoubleBuffer::new();
    let mut total = stage_cycles;
    // downstream-first composite: tick the latch, transfer, tick the
    // memory stage
    loop {
        buffer.tick();
        if buffer.can_accept_input() && mem_interface.has_output() {
            buffer.push_input(mem_interface.pop_output().unwrap());
        }
        let _ = mem_interface.tick(&mut mem);
        total += 1;
        if buffer.has_output() {
            break;
        }
        assert!(total < 10_000);
    }
    assert_eq!(total, stage_cycles + 2);
    assert_eq!(stage_cycles, latency + 2);
}

#[test]
fn outstanding_lines_are_sent_once() {
    // a request that names the same lines twice issues each line one
    // time: the repeats coalesce onto the outstanding transactions
    let latency = 50;
    let mut mem = FixedLatencyDram::new(latency, 16);
    let mut mem_interface = MemInterface::new(4, false);
    mem_interface
        .push_input(MemInterfaceReq { window: one_window(), addr_vec: vec![0, 64, 0, 64, 128] })
        .unwrap();
    let mut cycle = 0;
    while !mem_interface.has_output() {
        let _ = mem_interface.tick(&mut mem);
        cycle += 1;
        assert!(cycle < 10_000);
    }
    assert_eq!(mem.get_send_count(), 3);
}

#[test]
fn aliasing_coalesces_to_no_more_cycles() {
    // two tiles with intersecting address sets cost no more together
    // than the two runs in isolation
    let run = |reqs: Vec<Vec<u64>>| -> u64 {
        let mut mem = FixedLatencyDram::new(20, 16);
        let mut mem_interface = MemInterface::new(4, false);
        let want = reqs.len();
        let mut queue = reqs.into_iter();
        let mut outputs = 0;
        let mut cycle = 0;
        let mut pending = queue.next();
        while outputs < want {
            if let Some(addr_vec) = pending.take() {
                if mem_interface.can_accept_input() {
                    mem_interface
                        .push_input(MemInterfaceReq { window: one_window(), addr_vec })
                        .unwrap();
                    pending = queue.next();
                } else {
                    pending = Some(addr_vec);
                }
            }
            let _ = mem_interface.tick(&mut mem);
            if mem_interface.pop_output().is_some() {
                outputs += 1;
            }
            cycle += 1;
            assert!(cycle < 100_000);
        }
        cycle
    };
    let a = vec![0, 64, 128];
    let b = vec![64, 128, 192];
    let together = run(vec![a.clone(), b.clone()]);
    let apart = run(vec![a]) + run(vec![b]);
    assert!(together <= apart);
}

#[test]
fn sparse_addresses_cover_the_feature_bytes() {
    let nf = NodeFeatures::parse(b"0 0 1 0 1 0\n1 0 0 1 1 1\n1 1 0 0 0 1\n").unwrap();
    let graph = Graph::parse(b"f 2\n0 1 2\n1 2 0\n2 0 1\nend\n").unwrap();
    let settings = WindowIterSettings {
        agg_buffer_size: 60,
        input_buffer_size: 100,
        layer: 0,
        gcn_hidden_size: vec![2, 2],
        is_final_layer: false,
        running_mode: RunningMode::Sparse,
    };
    let mut outer = OutputWindowIterator::new(&graph, settings);
    let w = outer.next().unwrap().next(&graph, Some(&nf)).unwrap();
    // rows 0..3 occupy bytes [0, 36): one line
    let req = get_addr_vec_from_window(w, RunningMode::Sparse, &nf, 0);
    assert_eq!(req.addr_vec, vec![0]);
    for a in &req.addr_vec {
        assert_eq!(a % 64, 0);
    }
}

#[test]
fn dense_addresses_use_the_layer_base() {
    let nf = NodeFeatures::parse(b"1\n").unwrap();
    let w = one_window();
    // layer 1, rows [0, end) of dimension 2, 4 bytes each
    let end = w.end_input_index as u64;
    let req = get_addr_vec_from_window(w, RunningMode::Dense, &nf, 1);
    let base = 1u64 << 32;
    assert_eq!(req.addr_vec[0], base);
    let expect = ((end * 2 * 4) + 63) / 64;
    assert_eq!(req.addr_vec.len() as u64, expect);
}

#[test]
fn write_path_sends_every_address_without_coalescing() {
    let mut mem = FixedLatencyDram::new(4, 16);
    let mut mem_interface = MemInterface::new(2, true);
    let window = one_window();
    // writes never coalesce: the repeated line is sent twice
    let req = MemInterfaceReq { window, addr_vec: vec![0, 64, 64] };
    mem_interface.push_input(req).unwrap();
    let mut cycle = 0;
    while !mem_interface.has_output() {
        let _ = mem_interface.tick(&mut mem);
        cycle += 1;
        assert!(cycle < 1000);
    }
    let output = mem_interface.pop_output().unwrap();
    assert_eq!(output.start_input_index, 0);
    assert_eq!(mem.get_send_count(), 3);
}
