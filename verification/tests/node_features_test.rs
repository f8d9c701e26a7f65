use gcn_agg::error::GcnError;
use gcn_agg::node_features::NodeFeatures;

#[test]
fn test_node_features() {
    let data = b"0 0 1 0 1 0\n1 0 0 1 1 1\n1 1 0 0 0 1\n";
    let node_features = NodeFeatures::parse(data).unwrap();
    assert_eq!(node_features.len(), 3);
    assert_eq!(node_features.get_features(0).len(), 2);
    assert_eq!(node_features.get_features(1).len(), 4);
    assert_eq!(node_features.get_features(2).len(), 3);
    assert_eq!(node_features.get_features(0)[0], 2);
    assert_eq!(node_features.get_features(0)[1], 4);

    assert_eq!(node_features.get_features(1)[0], 0);
    assert_eq!(node_features.get_features(1)[1], 3);
    assert_eq!(node_features.get_features(1)[2], 4);
    assert_eq!(node_features.get_features(1)[3], 5);

    assert_eq!(node_features.get_features(2)[0], 0);
    assert_eq!(node_features.get_features(2)[1], 1);
    assert_eq!(node_features.get_features(2)[2], 5);
}

#[test]
fn start_addrs_hold_byte_offsets() {
    let data = b"0 0 1 0 1 0\n1 0 0 1 1 1\n1 1 0 0 0 1\n";
    let nf = NodeFeatures::parse(data).unwrap();
    // four bytes per nonzero: 2, 4 and 3 nonzeros
    assert_eq!(nf.start_addrs, vec![0, 8, 24, 36]);
    assert!(!nf.is_empty());
    assert_eq!(nf.get_slice(1, 3).len(), 2);
    assert_eq!(nf.get_slice(1, 3)[0].len(), 4);
}

#[test]
fn dense_round_trip_restores_the_table() {
    // read, serialize back to the dense 0/1 form, re-parse: identical
    let data = b"0 0 1 0 1 0\n1 0 0 1 1 1\n1 1 0 0 0 1\n";
    let nf = NodeFeatures::parse(data).unwrap();
    let text = nf.to_dense_text(6).unwrap();
    let nf2 = NodeFeatures::parse(&text).unwrap();
    assert_eq!(nf.features, nf2.features);
    assert_eq!(nf.start_addrs, nf2.start_addrs);
}

#[test]
fn sparse_row_takes_nonzero_positions() {
    let row = vec![0usize, 7, 0, 1, 0, 3];
    let sparse = NodeFeatures::sparse_row(&row);
    assert_eq!(sparse, vec![1, 3, 5]);
}

#[test]
fn parse_rejects_bad_token() {
    assert_eq!(NodeFeatures::parse(b"0 1\n1 y\n").unwrap_err(), GcnError::IoError);
}

#[test]
fn to_dense_text_refuses_a_too_narrow_width() {
    // column index 2 does not fit a width-2 dense form
    let nf = NodeFeatures::parse(b"0 0 1\n1 0 0\n").unwrap();
    assert_eq!(nf.to_dense_text(2).unwrap_err(), GcnError::InvalidConfig);
}
