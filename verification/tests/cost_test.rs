use gcn_agg::cost::{DenseAggCost, DenseMlpCost, MlpSparseCost, SparsifyCost, TranslationCost};
use gcn_agg::pipeline::{CostFn, Stage};
use gcn_agg::sliding_window::{InputWindow, OutputWindow, RangeIndex};
use gcn_agg::window_id::WindowId;

fn window_with(tasks: Vec<Vec<usize>>, out_dim: usize, in_dim: usize) -> InputWindow {
    let task_id = WindowId::new(0, 0, 0);
    let ow = OutputWindow::new(0, tasks.len(), task_id, out_dim, in_dim, false, false, false);
    let range = RangeIndex::new(0, 8, 0, tasks.len());
    InputWindow::new(task_id, tasks, range, ow, false)
}

#[test]
fn mlp_sparse_cost_is_doubled_work() {
    let cost = MlpSparseCost { mlp_sparse_cores: 2 };
    let ow = OutputWindow::new(0, 2, WindowId::new(0, 0, 0), 3, 2, false, false, true);
    // 5 aggregated entries, dimension 3, 2 cores: work 7, charge 14
    let info = (ow, vec![vec![1, 2, 3], vec![4, 5]]);
    assert_eq!(cost.compute(Some(&info), None), 2 * (5 * 3 / 2));
    assert_eq!(cost.compute(None, None), 0);
}

#[test]
fn sparsify_cost_follows_the_stepped_model() {
    let cost = SparsifyCost { sparsifier_cols: 4, sparsifier_width: 4 };
    let ow = OutputWindow::new(0, 3, WindowId::new(0, 0, 0), 8, 8, false, false, true);
    // steps = ceil(3/4) = 1, esteps = ceil(8/4) = 2:
    // 1 * (2-1) * (4 + 4 + 8 + 4*4/4/32) = 16
    assert_eq!(cost.compute(Some(&ow), None), 16);
}

#[test]
fn dense_mlp_cost_uses_both_dimensions() {
    let cost = DenseMlpCost { systolic_rows: 4, systolic_cols: 4 };
    let ow = OutputWindow::new(0, 5, WindowId::new(0, 0, 0), 8, 6, false, false, true);
    // steps = ceil(5/4) = 2, esteps = ceil(8/4) = 2:
    // 2 * 1 * (4 + 4 + 6 + 0) = 28
    assert_eq!(cost.compute(Some(&ow), None), 28);
}

#[test]
fn dense_agg_cost_scales_edges_by_dimension() {
    let cost = DenseAggCost { dense_width: 2, dense_cores: 2 };
    let w = window_with(vec![vec![0, 1], vec![2]], 2, 6);
    // 3 edges * input dim 6 / (2*2) lanes = 4, doubled to 8
    assert_eq!(cost.compute(Some(&w), None), 8);
}

#[test]
fn translation_cost_is_one_cycle_per_sixteen_edges() {
    let cost = TranslationCost {};
    let w = window_with(vec![(0usize..40).collect::<Vec<usize>>(), (0usize..10).collect::<Vec<usize>>()], 2, 2);
    // 40/16 + 10/16 = 2 + 0
    assert_eq!(cost.compute(Some(&w), None), 2);
}

#[test]
fn mlp_sparse_statistics_take_the_pre_double_value() {
    let cost = MlpSparseCost { mlp_sparse_cores: 2 };
    let ow = OutputWindow::new(0, 2, WindowId::new(0, 0, 0), 3, 2, false, false, true);
    let info = (ow, vec![vec![1, 2, 3], vec![4, 5]]);
    assert_eq!(cost.stat_compute(Some(&info), None), 5 * 3 / 2);
    assert_eq!(cost.compute(Some(&info), None), 2 * (5 * 3 / 2));
}

#[test]
fn cost_link_records_the_statistics_value() {
    let mut link = gcn_agg::pipeline::CostLink::new(
        gcn_agg::pipeline::DoubleBuffer::<u32>::new(),
        gcn_agg::pipeline::DoubleBuffer::<u32>::new(),
        gcn_agg::pipeline::FlatCost { per_item: 3 },
    );
    link.push_input(1);
    let mut ticks = 0;
    while !link.has_output() {
        link.tick();
        ticks += 1;
        assert!(ticks < 100);
    }
    assert_eq!(link.get_cost_total(), 3);
    assert_eq!(link.get_stat_total(), 3);
}
