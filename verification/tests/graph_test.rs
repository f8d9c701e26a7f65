use gcn_agg::error::GcnError;
use gcn_agg::graph::{transpose, Graph};

fn contains(g: &Graph, set_of: &str, i: usize, v: usize) -> bool {
    match set_of {
        "csc" => g.get_csc()[i].contains(v),
        _ => g.get_csr().as_ref().unwrap()[i].contains(v),
    }
}

#[test]
fn test_from_str() {
    let data = b"f 3\n0 1 2\n1 2 0\n2 0 1\nend\n";
    let graph = Graph::parse(data).unwrap();
    assert_eq!(graph.get_feature_size(), 3);
    assert!(contains(&graph, "csc", 0, 0));
    assert!(contains(&graph, "csc", 0, 1));
    assert!(contains(&graph, "csc", 0, 2));
    assert!(contains(&graph, "csc", 1, 0));
    assert!(contains(&graph, "csc", 1, 1));
    assert!(contains(&graph, "csc", 1, 2));
    assert!(contains(&graph, "csc", 2, 0));
    assert!(contains(&graph, "csc", 2, 1));
    assert!(contains(&graph, "csc", 2, 2));
}

#[test]
fn test_csr() {
    let data = b"f 3\n0 1\n1 2\n2 0\nend\n";
    let graph = Graph::parse(data).unwrap();
    let csr = graph.get_csr().as_ref().unwrap();
    assert!(csr[0].contains(0));
    assert!(csr[0].contains(2));
    assert!(csr[1].contains(0));
    assert!(csr[1].contains(1));
    assert!(csr[2].contains(1));
    assert!(csr[2].contains(2));
    assert_eq!(csr.len(), 3);
}

#[test]
fn csr_equals_csc_on_symmetric_graph() {
    // the three-node complete graph is symmetric: both orientations hold
    // the same sets
    let data = b"f 3\n0 1 2\n1 2 0\n2 0 1\nend\n";
    let graph = Graph::parse(data).unwrap();
    let csr = graph.get_csr().as_ref().unwrap();
    let csc = graph.get_csc();
    for i in 0..3 {
        for v in 0..3 {
            assert_eq!(csc[i].contains(v), csr[i].contains(v));
        }
    }
}

#[test]
fn csc_round_trip_through_csr() {
    // rebuilding the column sets from the row sets restores them
    let data = b"f 3\n0 1\n1 2\n2 0\nend\n";
    let graph = Graph::parse(data).unwrap();
    let csr = graph.get_csr().as_ref().unwrap();
    let rebuilt = transpose(csr, 3);
    let csc = graph.get_csc();
    for i in 0..3 {
        for v in 0..3 {
            assert_eq!(csc[i].contains(v), rebuilt[i].contains(v));
        }
    }
}

#[test]
fn is_row_range_empty_queries() {
    let data = b"f 3\n0 1\n1 2\n2 0\nend\n";
    let graph = Graph::parse(data).unwrap();
    // row 0 appears in columns 0 and 2
    assert_eq!(graph.is_row_range_empty(0, 0, 1), Ok(false));
    assert_eq!(graph.is_row_range_empty(0, 1, 2), Ok(true));
    assert_eq!(graph.is_row_range_empty(0, 2, 3), Ok(false));
    assert!(graph.is_row_range_empty(3, 0, 3).is_err());
}

#[test]
fn parse_rejects_bad_text() {
    // no header line
    assert_eq!(Graph::parse(b"").unwrap_err(), GcnError::IoError);
    // header must start with the f token
    assert_eq!(Graph::parse(b"g 3\n0\nend\n").unwrap_err(), GcnError::IoError);
    // a token that is not a number
    assert_eq!(Graph::parse(b"f 3\n0 x\nend\n").unwrap_err(), GcnError::IoError);
    // an index at the node count
    assert_eq!(Graph::parse(b"f 3\n1\nend\n").unwrap_err(), GcnError::IoError);
    // a missing sentinel
    assert_eq!(Graph::parse(b"f 3\n0\n").unwrap_err(), GcnError::IoError);
}

#[test]
fn empty_graph_has_no_nodes() {
    let graph = Graph::parse(b"f 3\nend\n").unwrap();
    assert_eq!(graph.get_num_node(), 0);
    assert_eq!(graph.total_nodes, 0);
}
