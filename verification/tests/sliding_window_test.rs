use gcn_agg::graph::Graph;
use gcn_agg::node_features::NodeFeatures;
use gcn_agg::settings::RunningMode;
use gcn_agg::sliding_window::{InputWindow, OutputWindowIterator, WindowIterSettings};

fn collect_windows(
    graph: &Graph,
    nf: &NodeFeatures,
    settings: WindowIterSettings,
) -> Vec<Vec<InputWindow>> {
    let mut out = Vec::new();
    let mut outer = OutputWindowIterator::new(graph, settings);
    while let Some(mut inner) = outer.next() {
        let mut tile = Vec::new();
        while let Some(w) = inner.next(graph, Some(nf)) {
            tile.push(w);
        }
        out.push(tile);
    }
    out
}

#[test]
fn sliding_window_test() {
    let graph = Graph::parse(b"f 2\n0 1 2\n1 2 0\n2 0 1\nend\n").unwrap();
    let node_features = NodeFeatures::parse(b"0 0 1 0 1 0\n1 0 0 1 1 1\n1 1 0 0 0 1\n").unwrap();
    let settings = WindowIterSettings {
        agg_buffer_size: 32,
        input_buffer_size: 32,
        layer: 0,
        gcn_hidden_size: vec![2],
        is_final_layer: false,
        running_mode: RunningMode::Sparse,
    };
    let tiles = collect_windows(&graph, &node_features, settings);
    // feature size 2: each output tile spans (32/2)/(2*4) = 2 rows
    assert_eq!(tiles.len(), 2);
    assert_eq!(tiles[0][0].start_output_index, 0);
    assert_eq!(tiles[0][0].end_output_index, 2);
    assert_eq!(tiles[1][0].start_output_index, 2);
    assert_eq!(tiles[1][0].end_output_index, 3);
    for tile in &tiles {
        // exactly one closing window per output tile, and it is last
        for (i, w) in tile.iter().enumerate() {
            assert_eq!(w.is_last_row, i == tile.len() - 1);
            assert_eq!(w.output_window.last_row_completed, w.is_last_row);
            // every task entry lies inside the window's input range
            for row in w.get_tasks() {
                for &e in row {
                    assert!(w.start_input_index <= e && e < w.end_input_index);
                }
            }
        }
    }
}

#[test]
fn first_output_tile_recovers_its_column() {
    // one output row per tile; the tasks of output row 0, concatenated
    // across its input tiles, are exactly the column's rows
    let graph = Graph::parse(b"f 3\n0 1 2\n1 2 0\n2 0 1\nend\n").unwrap();
    let node_features = NodeFeatures::parse(b"0 0 1 0 1 0\n1 0 0 1 1 1\n1 1 0 0 0 1\n").unwrap();
    let settings = WindowIterSettings {
        agg_buffer_size: 32,
        input_buffer_size: 32,
        layer: 0,
        gcn_hidden_size: vec![2],
        is_final_layer: false,
        running_mode: RunningMode::Sparse,
    };
    let mut outer = OutputWindowIterator::new(&graph, settings);
    let mut inner = outer.next().unwrap();
    assert_eq!(inner.start_output_index, 0);
    assert_eq!(inner.end_output_index, 1);
    let mut concatenated = Vec::new();
    while let Some(w) = inner.next(&graph, Some(&node_features)) {
        concatenated.extend(w.get_tasks()[0].iter().cloned());
    }
    assert_eq!(concatenated, vec![0, 1, 2]);
}

#[test]
fn sliding_window_test_multi() {
    let graph = Graph::parse(b"f 6\n1 2\n2 3 4\n0 1 4\n0 2 4\n2 4\nend\n").unwrap();
    let node_features1 = NodeFeatures::parse(
        b"1 1 0 0 1 1\n1 0 0 1 1 1\n1 1 1 0 0 1\n1 1 1 0 0 1\n1 1 1 0 0 1\n",
    )
    .unwrap();
    let node_features2 = NodeFeatures::parse(b"1 1\n1 1 \n1 1\n1 1\n1 1\n").unwrap();
    let gcn_hidden_size = vec![2];
    let mut total_windows = 0;
    let settings = WindowIterSettings {
        agg_buffer_size: 48,
        input_buffer_size: 32,
        layer: 0,
        gcn_hidden_size: gcn_hidden_size.clone(),
        is_final_layer: false,
        running_mode: RunningMode::Sparse,
    };
    for tile in collect_windows(&graph, &node_features1, settings) {
        total_windows += tile.len();
    }
    let settings = WindowIterSettings {
        agg_buffer_size: 48,
        input_buffer_size: 32,
        layer: 1,
        gcn_hidden_size,
        is_final_layer: true,
        running_mode: RunningMode::Sparse,
    };
    for tile in collect_windows(&graph, &node_features2, settings) {
        total_windows += tile.len();
    }
    assert_eq!(total_windows, 20);
}

#[test]
fn empty_graph_yields_no_tiles() {
    let graph = Graph::parse(b"f 3\nend\n").unwrap();
    let settings = WindowIterSettings {
        agg_buffer_size: 32,
        input_buffer_size: 32,
        layer: 0,
        gcn_hidden_size: vec![2],
        is_final_layer: false,
        running_mode: RunningMode::Sparse,
    };
    let mut outer = OutputWindowIterator::new(&graph, settings);
    assert!(outer.next().is_none());
}

#[test]
fn single_row_self_loop_is_one_window() {
    let graph = Graph::parse(b"f 1\n0\nend\n").unwrap();
    let node_features = NodeFeatures::parse(b"1\n").unwrap();
    let settings = WindowIterSettings {
        agg_buffer_size: 32,
        input_buffer_size: 32,
        layer: 0,
        gcn_hidden_size: vec![2],
        is_final_layer: false,
        running_mode: RunningMode::Sparse,
    };
    let tiles = collect_windows(&graph, &node_features, settings);
    assert_eq!(tiles.len(), 1);
    assert_eq!(tiles[0].len(), 1);
    assert!(tiles[0][0].is_last_row);
    assert_eq!(tiles[0][0].get_tasks()[0], vec![0]);
}

#[test]
fn empty_column_range_still_advances() {
    // columns 0 and 1 are empty; the output-tile iterator still
    // advances one stride per tile and the inner iterators yield
    // nothing for the empty columns
    let graph = Graph::parse(b"f 1\n\n\n0\nend\n").unwrap();
    let node_features = NodeFeatures::parse(b"1\n1\n1\n").unwrap();
    let settings = WindowIterSettings {
        agg_buffer_size: 8,
        input_buffer_size: 32,
        layer: 0,
        gcn_hidden_size: vec![2],
        is_final_layer: false,
        running_mode: RunningMode::Sparse,
    };
    let mut outer = OutputWindowIterator::new(&graph, settings);
    let mut starts = Vec::new();
    let mut tile_sizes = Vec::new();
    while let Some(mut inner) = outer.next() {
        starts.push(inner.start_output_index);
        let mut n = 0;
        while let Some(_w) = inner.next(&graph, Some(&node_features)) {
            n += 1;
        }
        tile_sizes.push(n);
    }
    assert_eq!(starts, vec![0, 1, 2]);
    assert_eq!(tile_sizes, vec![0, 0, 1]);
}

#[test]
fn dense_mode_sizes_by_dimension() {
    let graph = Graph::parse(b"f 2\n0 1 2\n1 2 0\n2 0 1\nend\n").unwrap();
    let settings = WindowIterSettings {
        agg_buffer_size: 32,
        input_buffer_size: 32,
        layer: 0,
        gcn_hidden_size: vec![2],
        is_final_layer: false,
        running_mode: RunningMode::Dense,
    };
    let mut outer = OutputWindowIterator::new(&graph, settings);
    let mut inner = outer.next().unwrap();
    // dense: x_len = (32/2)/(2*4) = 2 rows per input tile
    let w = inner.next(&graph, None).unwrap();
    assert_eq!(w.start_input_index, 0);
    assert_eq!(w.end_input_index, 2);
    assert_eq!(w.output_window.input_node_dim, 2);
}

#[test]
fn try_new_rejects_a_zero_sized_output_tile() {
    // feature size 8: half of a 32-byte aggregation buffer holds no
    // 32-byte row, so the output tile would span zero rows
    let graph = Graph::parse(b"f 8\n0 1 2\n1 2 0\n2 0 1\nend\n").unwrap();
    let nf = NodeFeatures::parse(b"1 0\n0 1\n1 1\n").unwrap();
    let settings = WindowIterSettings {
        agg_buffer_size: 32,
        input_buffer_size: 32,
        layer: 0,
        gcn_hidden_size: vec![2],
        is_final_layer: false,
        running_mode: RunningMode::Sparse,
    };
    let r = OutputWindowIterator::try_new(&graph, Some(&nf), settings);
    assert_eq!(r.unwrap_err(), gcn_agg::error::GcnError::InvalidConfig);
}

#[test]
fn try_new_rejects_a_row_that_refuses_to_fit() {
    // node 1 holds five nonzeros: 20 bytes, over the 8-byte half of
    // the input buffer
    let graph = Graph::parse(b"f 2\n0 1 2\n1 2 0\n2 0 1\nend\n").unwrap();
    let nf = NodeFeatures::parse(b"0 1 0 0 0\n1 1 1 1 1\n1 0 0 0 0\n").unwrap();
    let settings = WindowIterSettings {
        agg_buffer_size: 64,
        input_buffer_size: 16,
        layer: 0,
        gcn_hidden_size: vec![2],
        is_final_layer: false,
        running_mode: RunningMode::Sparse,
    };
    let r = OutputWindowIterator::try_new(&graph, Some(&nf), settings);
    assert_eq!(r.unwrap_err(), gcn_agg::error::GcnError::InvalidConfig);
}

#[test]
fn try_new_accepts_a_workable_configuration() {
    let graph = Graph::parse(b"f 2\n0 1 2\n1 2 0\n2 0 1\nend\n").unwrap();
    let nf = NodeFeatures::parse(b"0 1 0\n1 0 1\n1 1 0\n").unwrap();
    let settings = WindowIterSettings {
        agg_buffer_size: 64,
        input_buffer_size: 32,
        layer: 0,
        gcn_hidden_size: vec![2],
        is_final_layer: false,
        running_mode: RunningMode::Sparse,
    };
    let mut outer = OutputWindowIterator::try_new(&graph, Some(&nf), settings).unwrap();
    let mut inner = outer.next().unwrap();
    assert!(inner.next(&graph, Some(&nf)).is_some());
}
