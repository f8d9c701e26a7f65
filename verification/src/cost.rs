//! The pluggable per-item cost models of the variable-latency stages:
//! sparse MLP, sparsifier, dense aggregation, dense MLP, and address
//! translation.  Each is consulted by a costed link at the transfer
//! moment; none of the stages they gate is itself cost-aware.
//!
//! All counting saturates at the counter's ceiling; each contract is
//! exact wherever the exact value fits.

use vstd::prelude::*;

use crate::agg_buffer::cap64;
use crate::pipeline::{opt_value, sat_add, sat_add_spec, sat_mul, sat_mul_spec, CostFn};
use crate::sliding_window::{InputWindow, OutputWindow};

verus! {

/// The total entry count over a list of rows.
pub open spec fn sum_lens(rows: Seq<Vec<usize>>) -> int
    decreases rows.len(),
{
    if rows.len() == 0 {
        0
    } else {
        sum_lens(rows.drop_last()) + rows.last()@.len()
    }
}

/// How many chunks of `b` cover `a`.
pub open spec fn ceil_div(a: int, b: int) -> int {
    if a == 0 {
        0
    } else {
        (a - 1) / b + 1
    }
}

/// The row totals are never negative.
proof fn lemma_sum_lens_nonneg(rows: Seq<Vec<usize>>)
    ensures
        sum_lens(rows) >= 0,
    decreases rows.len(),
{
    if rows.len() > 0 {
        lemma_sum_lens_nonneg(rows.drop_last());
    }
}

/// Sum the entry counts of the rows, clamped into the counter.
fn sum_row_lens(rows: &Vec<Vec<usize>>) -> (r: u64)
    ensures
        r == cap64(sum_lens(rows@)),
{
    let mut acc: u64 = 0;
    let ghost mut total: int = 0;
    let mut i: usize = 0;
    while i < rows.len()
        invariant
            i <= rows@.len(),
            total == sum_lens(rows@.subrange(0, i as int)),
            total >= 0,
            acc == cap64(total),
        decreases rows@.len() - i,
    {
        let l = rows[i].len();
        proof {
            assert(rows@.subrange(0, i + 1).drop_last() =~= rows@.subrange(0, i as int));
            assert(rows@.subrange(0, i + 1).last() == rows@[i as int]);
            total = total + l;
        }
        acc = sat_add(acc, l as u64);
        i += 1;
    }
    proof {
        assert(rows@.subrange(0, rows@.len() as int) =~= rows@);
    }
    acc
}

/// The sparse-MLP model: the aggregated entries, scaled by the output
/// dimension, spread over the MLP's sparse cores; the pipeline is
/// charged double the accounted work, while the statistics record the
/// plain pre-double value.
pub struct MlpSparseCost {
    pub mlp_sparse_cores: usize,
}

impl CostFn<(OutputWindow, Vec<Vec<usize>>), OutputWindow> for MlpSparseCost {
    open spec fn spec_compute(
        &self,
        x: Option<(OutputWindow, Vec<Vec<usize>>)>,
        y: Option<OutputWindow>,
    ) -> u64 {
        sat_add_spec(self.spec_stat(x, y), self.spec_stat(x, y))
    }

    open spec fn spec_stat(
        &self,
        x: Option<(OutputWindow, Vec<Vec<usize>>)>,
        y: Option<OutputWindow>,
    ) -> u64 {
        match x {
            None => 0u64,
            Some(info) => if self.mlp_sparse_cores == 0 {
                0u64
            } else {
                sat_mul_spec(cap64(sum_lens(info.1@)), info.0.output_node_dim as u64) / (
                self.mlp_sparse_cores as u64)
            },
        }
    }

    fn stat_compute(&self, x: Option<&(OutputWindow, Vec<Vec<usize>>)>, y: Option<&OutputWindow>)
        -> (r: u64) {
        let info = match x {
            Some(info) => info,
            None => {
                return 0;
            },
        };
        if self.mlp_sparse_cores == 0 {
            return 0;
        }
        let total_add = sum_row_lens(&info.1);
        let t = sat_mul(total_add, info.0.output_node_dim as u64);
        t / (self.mlp_sparse_cores as u64)
    }

    fn compute(&self, x: Option<&(OutputWindow, Vec<Vec<usize>>)>, y: Option<&OutputWindow>) -> (r:
        u64)
        ensures
            x is None ==> r == 0,
            self.mlp_sparse_cores == 0 ==> r == 0,
            (x matches Some(info) && self.mlp_sparse_cores >= 1 && sum_lens(info.1@) * (
            info.0.output_node_dim as int) <= u64::MAX) ==> r == cap64(
                2 * (sum_lens(x->Some_0.1@) * (x->Some_0.0.output_node_dim as int) / (
                self.mlp_sparse_cores as int)),
            ),
    {
        let info = match x {
            Some(info) => info,
            None => {
                return 0;
            },
        };
        if self.mlp_sparse_cores == 0 {
            return 0;
        }
        let total_add = sum_row_lens(&info.1);
        let t = sat_mul(total_add, info.0.output_node_dim as u64);
        proof {
            lemma_sum_lens_nonneg(info.1@);
            let sl = sum_lens(info.1@);
            let dim = info.0.output_node_dim as int;
            if sl * dim <= u64::MAX {
                if dim == 0 {
                    assert((total_add as int) * dim == 0) by (nonlinear_arith)
                        requires
                            dim == 0,
                    ;
                    assert(t == 0);
                    assert(sl * dim == 0) by (nonlinear_arith)
                        requires
                            dim == 0,
                    ;
                } else {
                    assert(sl <= sl * dim) by (nonlinear_arith)
                        requires
                            sl >= 0,
                            dim >= 1,
                    ;
                    assert(total_add == sl);
                    assert(t == sl * dim);
                }
            }
        }
        let w = t / (self.mlp_sparse_cores as u64);
        sat_add(w, w)
    }
}

/// How many strides of `step` cover `n` rows.
pub open spec fn systolic_steps_spec(n: u64, step: u64) -> int {
    if n == 0 {
        0
    } else {
        (n - 1) as int / step as int + 1
    }
}

/// The exact value of the stepped systolic model below.
pub open spec fn systolic_cost_spec(
    num_nodes: u64,
    out_dim: u64,
    in_dim: u64,
    rps: u64,
    cps: u64,
) -> u64 {
    let steps = systolic_steps_spec(num_nodes, rps);
    let esteps = systolic_steps_spec(out_dim, cps);
    if esteps == 0 {
        0u64
    } else {
        let count = sat_mul_spec(steps as u64, (esteps - 1) as u64);
        let wsq = sat_mul_spec(rps, rps);
        let body = sat_add_spec(
            sat_add_spec(rps, cps),
            sat_add_spec(in_dim, (wsq as int / 4 / 32) as u64),
        );
        sat_mul_spec(count, body)
    }
}

/// A stepped systolic model shared by the sparsifier and the dense
/// MLP: the rows are covered in strides of `rows_per_step`, the
/// output columns in strides of `cols_per_step`; every full step
/// costs the pass through the array plus the drain term.
fn systolic_cost(
    num_nodes: u64,
    out_dim: u64,
    in_dim: u64,
    rows_per_step: u64,
    cols_per_step: u64,
) -> (r: u64)
    requires
        rows_per_step >= 1,
        cols_per_step >= 1,
    ensures
        r == systolic_cost_spec(num_nodes, out_dim, in_dim, rows_per_step, cols_per_step),
        ({
            let steps = ceil_div(num_nodes as int, rows_per_step as int);
            let esteps = ceil_div(out_dim as int, cols_per_step as int);
            &&& (esteps == 0 ==> r == 0)
            &&& (esteps >= 1 && rows_per_step * rows_per_step <= u64::MAX && steps * (esteps - 1)
                <= u64::MAX ==> r == cap64(
                steps * (esteps - 1) * (rows_per_step as int + cols_per_step as int
                    + in_dim as int + rows_per_step as int * rows_per_step as int / 4 / 32),
            ))
        }),
{
    let steps = if num_nodes == 0 {
        0
    } else {
        (num_nodes - 1) / rows_per_step + 1
    };
    let esteps = if out_dim == 0 {
        0
    } else {
        (out_dim - 1) / cols_per_step + 1
    };
    if esteps == 0 {
        return 0;
    }
    let count = sat_mul(steps, esteps - 1);
    let wsq = sat_mul(rows_per_step, rows_per_step);
    let body = sat_add(sat_add(rows_per_step, cols_per_step), sat_add(in_dim, wsq / 4 / 32));
    let r = sat_mul(count, body);
    proof {
        let sp = ceil_div(num_nodes as int, rows_per_step as int);
        let ep = ceil_div(out_dim as int, cols_per_step as int);
        if ep >= 1 && rows_per_step * rows_per_step <= u64::MAX && sp * (ep - 1) <= u64::MAX {
            assert(steps == sp && esteps == ep);
            assert(count == sp * (ep - 1));
            let b = rows_per_step as int + cols_per_step as int + in_dim as int + rows_per_step
                as int * rows_per_step as int / 4 / 32;
            if body as int == b {
                if count * body <= u64::MAX {
                    assert(r == count * body);
                } else {
                    assert(r == u64::MAX);
                }
            } else {
                assert(body == u64::MAX);
                assert(b > u64::MAX);
                if count == 0 {
                    assert(sp * (ep - 1) == 0);
                    assert((count as int) * (body as int) == 0) by (nonlinear_arith)
                        requires
                            count == 0,
                    ;
                    assert(r == 0);
                    assert(sp * (ep - 1) * b == 0) by (nonlinear_arith)
                        requires
                            sp * (ep - 1) == 0,
                    ;
                } else {
                    assert(count * body >= body) by (nonlinear_arith)
                        requires
                            count >= 1,
                            body >= 0,
                    ;
                    assert(sp * (ep - 1) * b >= b) by (nonlinear_arith)
                        requires
                            sp * (ep - 1) >= 1,
                            b >= 0,
                    ;
                    assert(r == u64::MAX);
                }
            }
        }
    }
    r
}

/// The sparsifier's cost model.
pub struct SparsifyCost {
    pub sparsifier_cols: usize,
    pub sparsifier_width: usize,
}

impl CostFn<OutputWindow, OutputWindow> for SparsifyCost {
    open spec fn spec_compute(&self, x: Option<OutputWindow>, y: Option<OutputWindow>) -> u64 {
        match x {
            None => 0u64,
            Some(w) => if self.sparsifier_width == 0 || self.sparsifier_cols == 0 {
                0u64
            } else {
                let n: u64 = if w.start_output_index <= w.end_output_index {
                    (w.end_output_index - w.start_output_index) as u64
                } else {
                    0u64
                };
                systolic_cost_spec(
                    n,
                    w.output_node_dim as u64,
                    w.output_node_dim as u64,
                    self.sparsifier_width as u64,
                    self.sparsifier_cols as u64,
                )
            },
        }
    }

    open spec fn spec_stat(&self, x: Option<OutputWindow>, y: Option<OutputWindow>) -> u64 {
        self.spec_compute(x, y)
    }

    fn stat_compute(&self, x: Option<&OutputWindow>, y: Option<&OutputWindow>) -> (r: u64) {
        self.compute(x, y)
    }

    fn compute(&self, x: Option<&OutputWindow>, y: Option<&OutputWindow>) -> (r: u64)
        ensures
            x is None ==> r == 0,
            (self.sparsifier_width == 0 || self.sparsifier_cols == 0) ==> r == 0,
            (x matches Some(w) && self.sparsifier_width >= 1 && self.sparsifier_cols >= 1
                && w.start_output_index <= w.end_output_index) ==> {
                let wd = self.sparsifier_width as int;
                let cl = self.sparsifier_cols as int;
                let n = x->Some_0.end_output_index - x->Some_0.start_output_index;
                let dim = x->Some_0.output_node_dim as int;
                let steps = ceil_div(n as int, wd);
                let esteps = ceil_div(dim, cl);
                &&& (esteps == 0 ==> r == 0)
                &&& (esteps >= 1 && wd * wd <= u64::MAX && steps * (esteps - 1) <= u64::MAX ==> r
                    == cap64(steps * (esteps - 1) * (wd + cl + dim + wd * wd / 4 / 32)))
            },
    {
        let w = match x {
            Some(w) => w,
            None => {
                return 0;
            },
        };
        if self.sparsifier_width == 0 || self.sparsifier_cols == 0 {
            return 0;
        }
        let num_nodes = if w.start_output_index <= w.end_output_index {
            (w.end_output_index - w.start_output_index) as u64
        } else {
            0
        };
        systolic_cost(
            num_nodes,
            w.output_node_dim as u64,
            w.output_node_dim as u64,
            self.sparsifier_width as u64,
            self.sparsifier_cols as u64,
        )
    }
}

/// The dense MLP's systolic cost model.
pub struct DenseMlpCost {
    pub systolic_rows: usize,
    pub systolic_cols: usize,
}

impl CostFn<OutputWindow, OutputWindow> for DenseMlpCost {
    open spec fn spec_compute(&self, x: Option<OutputWindow>, y: Option<OutputWindow>) -> u64 {
        match x {
            None => 0u64,
            Some(w) => if self.systolic_rows == 0 || self.systolic_cols == 0 {
                0u64
            } else {
                let n: u64 = if w.start_output_index <= w.end_output_index {
                    (w.end_output_index - w.start_output_index) as u64
                } else {
                    0u64
                };
                systolic_cost_spec(
                    n,
                    w.output_node_dim as u64,
                    w.input_node_dim as u64,
                    self.systolic_rows as u64,
                    self.systolic_cols as u64,
                )
            },
        }
    }

    open spec fn spec_stat(&self, x: Option<OutputWindow>, y: Option<OutputWindow>) -> u64 {
        self.spec_compute(x, y)
    }

    fn stat_compute(&self, x: Option<&OutputWindow>, y: Option<&OutputWindow>) -> (r: u64) {
        self.compute(x, y)
    }

    fn compute(&self, x: Option<&OutputWindow>, y: Option<&OutputWindow>) -> (r: u64)
        ensures
            x is None ==> r == 0,
            (self.systolic_rows == 0 || self.systolic_cols == 0) ==> r == 0,
            (x matches Some(w) && self.systolic_rows >= 1 && self.systolic_cols >= 1
                && w.start_output_index <= w.end_output_index) ==> {
                let rw = self.systolic_rows as int;
                let cl = self.systolic_cols as int;
                let n = x->Some_0.end_output_index - x->Some_0.start_output_index;
                let odim = x->Some_0.output_node_dim as int;
                let idim = x->Some_0.input_node_dim as int;
                let steps = ceil_div(n as int, rw);
                let esteps = ceil_div(odim, cl);
                &&& (esteps == 0 ==> r == 0)
                &&& (esteps >= 1 && rw * rw <= u64::MAX && steps * (esteps - 1) <= u64::MAX ==> r
                    == cap64(steps * (esteps - 1) * (rw + cl + idim + rw * rw / 4 / 32)))
            },
    {
        let w = match x {
            Some(w) => w,
            None => {
                return 0;
            },
        };
        if self.systolic_rows == 0 || self.systolic_cols == 0 {
            return 0;
        }
        let num_nodes = if w.start_output_index <= w.end_output_index {
            (w.end_output_index - w.start_output_index) as u64
        } else {
            0
        };
        systolic_cost(
            num_nodes,
            w.output_node_dim as u64,
            w.input_node_dim as u64,
            self.systolic_rows as u64,
            self.systolic_cols as u64,
        )
    }
}

/// The dense aggregation's cost model: the tile's edge count scaled
/// by the input dimension, over all dense lanes, charged double.
pub struct DenseAggCost {
    pub dense_width: usize,
    pub dense_cores: usize,
}

impl CostFn<InputWindow, InputWindow> for DenseAggCost {
    open spec fn spec_compute(&self, x: Option<InputWindow>, y: Option<InputWindow>) -> u64 {
        match x {
            None => 0u64,
            Some(w) => {
                let lanes = sat_mul_spec(self.dense_width as u64, self.dense_cores as u64);
                if lanes == 0 {
                    0u64
                } else {
                    let t = sat_mul_spec(
                        cap64(sum_lens(w.tasks@)),
                        w.output_window.input_node_dim as u64,
                    );
                    let c = t / lanes;
                    sat_add_spec(c, c)
                }
            },
        }
    }

    open spec fn spec_stat(&self, x: Option<InputWindow>, y: Option<InputWindow>) -> u64 {
        self.spec_compute(x, y)
    }

    fn stat_compute(&self, x: Option<&InputWindow>, y: Option<&InputWindow>) -> (r: u64) {
        self.compute(x, y)
    }

    fn compute(&self, x: Option<&InputWindow>, y: Option<&InputWindow>) -> (r: u64)
        ensures
            x is None ==> r == 0,
            (self.dense_width as int) * (self.dense_cores as int) == 0 ==> r == 0,
            (x matches Some(w) && (self.dense_width as int) * (self.dense_cores as int) >= 1
                && sum_lens(w.tasks@) * (w.output_window.input_node_dim as int) <= u64::MAX && (
            self.dense_width as int) * (self.dense_cores as int) <= u64::MAX) ==> r == cap64(
                2 * (sum_lens(x->Some_0.tasks@) * (x->Some_0.output_window.input_node_dim as int)
                    / ((self.dense_width as int) * (self.dense_cores as int))),
            ),
    {
        let w = match x {
            Some(w) => w,
            None => {
                return 0;
            },
        };
        let lanes = sat_mul(self.dense_width as u64, self.dense_cores as u64);
        if lanes == 0 {
            proof {
                assert((self.dense_width as int) * (self.dense_cores as int) == 0 || (
                self.dense_width as int) * (self.dense_cores as int) > u64::MAX);
            }
            return 0;
        }
        let num_add = sum_row_lens(&w.tasks);
        let t = sat_mul(num_add, w.output_window.input_node_dim as u64);
        proof {
            lemma_sum_lens_nonneg(w.tasks@);
            let sl = sum_lens(w.tasks@);
            let dim = w.output_window.input_node_dim as int;
            if sl * dim <= u64::MAX {
                if dim == 0 {
                    assert((num_add as int) * dim == 0) by (nonlinear_arith)
                        requires
                            dim == 0,
                    ;
                    assert(t == 0);
                    assert(sl * dim == 0) by (nonlinear_arith)
                        requires
                            dim == 0,
                    ;
                } else {
                    assert(sl <= sl * dim) by (nonlinear_arith)
                        requires
                            sl >= 0,
                            dim >= 1,
                    ;
                    assert(num_add == sl);
                    assert(t == sl * dim);
                }
            }
        }
        let c = t / lanes;
        sat_add(c, c)
    }
}

/// The address-translation cost model: one cycle per sixteen edges of
/// each task row.
pub struct TranslationCost {}

/// The translation charge of one tile.
pub open spec fn translation_sum(rows: Seq<Vec<usize>>) -> int
    decreases rows.len(),
{
    if rows.len() == 0 {
        0
    } else {
        translation_sum(rows.drop_last()) + rows.last()@.len() as int / 16
    }
}

impl CostFn<InputWindow, InputWindow> for TranslationCost {
    open spec fn spec_compute(&self, x: Option<InputWindow>, y: Option<InputWindow>) -> u64 {
        match x {
            None => 0u64,
            Some(w) => cap64(translation_sum(w.tasks@)),
        }
    }

    open spec fn spec_stat(&self, x: Option<InputWindow>, y: Option<InputWindow>) -> u64 {
        self.spec_compute(x, y)
    }

    fn stat_compute(&self, x: Option<&InputWindow>, y: Option<&InputWindow>) -> (r: u64) {
        self.compute(x, y)
    }

    fn compute(&self, x: Option<&InputWindow>, y: Option<&InputWindow>) -> (r: u64)
        ensures
            x is None ==> r == 0,
            x matches Some(w) ==> r == cap64(translation_sum(w.tasks@)),
    {
        let w = match x {
            Some(w) => w,
            None => {
                return 0;
            },
        };
        let mut acc: u64 = 0;
        let ghost mut total: int = 0;
        let mut i: usize = 0;
        while i < w.tasks.len()
            invariant
                i <= w.tasks@.len(),
                total == translation_sum(w.tasks@.subrange(0, i as int)),
                total >= 0,
                acc == cap64(total),
            decreases w.tasks@.len() - i,
        {
            let l = w.tasks[i].len() / 16;
            proof {
                assert(w.tasks@.subrange(0, i + 1).drop_last() =~= w.tasks@.subrange(0, i as int));
                assert(w.tasks@.subrange(0, i + 1).last() == w.tasks@[i as int]);
                total = total + l;
            }
            acc = sat_add(acc, l as u64);
            i += 1;
        }
        proof {
            assert(w.tasks@.subrange(0, w.tasks@.len() as int) =~= w.tasks@);
        }
        acc
    }
}

} // verus!
