//! The sparse aggregation stage.
//!
//! Consumes the input tiles of one output tile, keeps for each output
//! row the running union of the aggregated feature indices, and
//! accounts the cycle cost of each tile: per output row the streamed
//! merge of two sorted sets costs the sum of their sizes, and the
//! per-row totals are spread over the parallel cores greedily, each
//! row to the least-loaded core; the tile costs the maximum core load.
//!
//! Also holds the fold stage used by the dense pipeline, which carries
//! an output descriptor through and releases it on the completing
//! tile.

use vstd::prelude::*;

use crate::node_features::NodeFeatures;
use crate::nodeset::{lemma_sorted_len_is_card, sorted_insert, sorted_strict, vec_is_sorted};
use crate::pipeline::{sat_add, sat_add_spec, Stage};
use crate::sliding_window::{InputWindow, OutputWindow};

verus! {

/// Clamp an exact count into a 64-bit counter.
pub open spec fn cap64(x: int) -> u64 {
    if x > u64::MAX {
        u64::MAX
    } else if x < 0 {
        0u64
    } else {
        x as u64
    }
}

/// The feature indices of node `i`, as a set.
pub open spec fn feature_set(nf: NodeFeatures, i: int) -> Set<usize> {
    nf.features@[i]@.to_set()
}

/// The union the row accumulates: start from `init`, fold in the
/// feature set of every node of the task, in order.
pub open spec fn row_union(nf: NodeFeatures, init: Set<usize>, task: Seq<usize>) -> Set<usize>
    decreases task.len(),
{
    if task.len() == 0 {
        init
    } else {
        row_union(nf, init.union(feature_set(nf, task[0] as int)), task.drop_first())
    }
}

/// The cycles one output row costs: for every node of the task, the
/// size of the union so far plus the size of the node's feature list,
/// the model of one streamed merge of two sorted sets.
pub open spec fn row_cost(nf: NodeFeatures, init: Set<usize>, task: Seq<usize>) -> int
    decreases task.len(),
{
    if task.len() == 0 {
        0
    } else {
        init.len() + nf.features@[task[0] as int]@.len() + row_cost(
            nf,
            init.union(feature_set(nf, task[0] as int)),
            task.drop_first(),
        )
    }
}

/// The cost of one row is never negative.
pub proof fn lemma_row_cost_nonneg(nf: NodeFeatures, init: Set<usize>, task: Seq<usize>)
    ensures
        row_cost(nf, init, task) >= 0,
    decreases task.len(),
{
    if task.len() > 0 {
        lemma_row_cost_nonneg(nf, init.union(feature_set(nf, task[0] as int)), task.drop_first());
    }
}

/// The per-row costs of one tile, given the initial union of each row.
pub open spec fn tile_costs(nf: NodeFeatures, inits: Seq<Set<usize>>, tasks: Seq<Vec<usize>>) -> Seq<
    u64,
> {
    Seq::new(tasks.len(), |k: int| cap64(row_cost(nf, inits[k], tasks[k]@)))
}

/// The sets the accumulator rows currently hold.
pub open spec fn temp_sets(temp: Seq<Vec<usize>>) -> Seq<Set<usize>> {
    Seq::new(temp.len(), |k: int| temp[k]@.to_set())
}

/// `n` idle cores.
pub open spec fn zero_loads(n: nat) -> Seq<u64> {
    Seq::new(n, |i: int| 0u64)
}

/// The first position of a minimal element.
pub open spec fn seq_min_index(s: Seq<u64>) -> int
    decreases s.len(),
{
    if s.len() <= 1 {
        0
    } else {
        let t = seq_min_index(s.drop_first()) + 1;
        if s[0] <= s[t] {
            0
        } else {
            t
        }
    }
}

/// `seq_min_index` names the first minimum.
pub proof fn lemma_min_index_props(s: Seq<u64>)
    requires
        s.len() >= 1,
    ensures
        0 <= seq_min_index(s) < s.len(),
        forall|j: int| 0 <= j < seq_min_index(s) ==> #[trigger] s[j] > s[seq_min_index(s)],
        forall|j: int| 0 <= j < s.len() ==> #[trigger] s[j] >= s[seq_min_index(s)],
    decreases s.len(),
{
    if s.len() > 1 {
        let d = s.drop_first();
        lemma_min_index_props(d);
        let t = seq_min_index(d) + 1;
        assert forall|j: int| 1 <= j < s.len() implies s[j] >= s[t] by {
            assert(d[j - 1] >= d[t - 1]);
        };
        assert forall|j: int| 1 <= j < t implies s[j] > s[t] by {
            assert(d[j - 1] > d[t - 1]);
        };
    }
}

/// The greedy distribution: assign each cost in turn to the
/// least-loaded core.
pub open spec fn lpt_loads(costs: Seq<u64>, loads: Seq<u64>) -> Seq<u64>
    decreases costs.len(),
{
    if costs.len() == 0 || loads.len() == 0 {
        loads
    } else {
        let m = seq_min_index(loads);
        lpt_loads(costs.drop_first(), loads.update(m, sat_add_spec(loads[m], costs[0])))
    }
}

/// The largest element, zero on no elements.
pub open spec fn seq_max(s: Seq<u64>) -> u64
    decreases s.len(),
{
    if s.len() == 0 {
        0u64
    } else {
        let t = seq_max(s.drop_last());
        if s.last() >= t {
            s.last()
        } else {
            t
        }
    }
}

/// The cycles one tile takes: per-row merge costs, spread greedily
/// over the cores, measured by the busiest core.
pub open spec fn tile_cycles(
    nf: NodeFeatures,
    inits: Seq<Set<usize>>,
    tasks: Seq<Vec<usize>>,
    cores: nat,
) -> u64 {
    seq_max(lpt_loads(tile_costs(nf, inits, tasks), zero_loads(cores)))
}

/// The first position of a minimal load.
fn min_load_index(loads: &Vec<u64>) -> (r: usize)
    requires
        loads@.len() >= 1,
    ensures
        r == seq_min_index(loads@),
        r < loads@.len(),
{
    let mut best: usize = 0;
    let mut j: usize = 1;
    while j < loads.len()
        invariant
            1 <= j <= loads@.len(),
            best < j,
            forall|k: int| 0 <= k < best ==> loads@[k] > loads@[best as int],
            forall|k: int| 0 <= k < j ==> loads@[k] >= loads@[best as int],
        decreases loads@.len() - j,
    {
        if loads[j] < loads[best] {
            best = j;
        }
        j += 1;
    }
    proof {
        lemma_min_index_props(loads@);
        let mi = seq_min_index(loads@);
        if (best as int) < mi {
            assert(loads@[best as int] > loads@[mi]);
        }
        if mi < best as int {
            assert(loads@[mi] > loads@[best as int]);
        }
    }
    best
}

/// The state of the aggregation: still working on a tile for so many
/// more cycles, with the flag of the tile that closes the output
/// tile, or done with the whole output tile.
#[derive(Debug, Clone, Copy, PartialEq, Eq, Structural)]
pub enum AggStatus {
    Working(u64, bool),
    Done,
}

/// The sparse aggregation stage.
pub struct SparseAggBuffer {
    pub input_queue: Option<InputWindow>,
    pub data_queue: Option<OutputWindow>,
    pub output_queue: Option<(OutputWindow, Vec<Vec<usize>>)>,
    pub temp_agg_result: Vec<Vec<usize>>,
    pub status: AggStatus,
    pub sparse_cores: usize,
    pub node_features: Vec<NodeFeatures>,
    pub is_first_row: bool,
    pub total_cycle: u64,
}

impl SparseAggBuffer {
    /// Whether a tile can be aggregated from this state: its layer
    /// has a feature table, every task entry indexes into it, its
    /// shape matches the accumulator, and there is a core to run on.
    pub open spec fn window_ok(&self, w: InputWindow) -> bool {
        &&& (w.task_id.layer_id as int) < self.node_features@.len()
        &&& forall|k: int, e: int|
            0 <= k < w.tasks@.len() && 0 <= e < w.tasks@[k]@.len() ==> ((#[trigger] w.tasks@[k]@[e])
                as int) < self.node_features@[w.task_id.layer_id as int].features@.len()
        &&& (self.is_first_row || w.tasks@.len() == self.temp_agg_result@.len())
        &&& self.sparse_cores >= 1
    }

    /// Every accumulator row is an ordered set.
    pub open spec fn temp_ok(&self) -> bool {
        forall|k: int|
            0 <= k < self.temp_agg_result@.len() ==> sorted_strict(
                (#[trigger] self.temp_agg_result@[k])@,
            )
    }

    /// All fields but the accumulator, the status, the queues and the
    /// first-row flag are as in `other`.
    pub open spec fn same_config(&self, other: &Self) -> bool {
        &&& self.sparse_cores == other.sparse_cores
        &&& self.node_features == other.node_features
    }

    pub fn new(sparse_cores: usize, node_features: Vec<NodeFeatures>) -> (r: Self)
        ensures
            r.input_queue is None,
            r.data_queue is None,
            r.output_queue is None,
            r.temp_agg_result@.len() == 0,
            r.status == AggStatus::Working(0u64, false),
            r.sparse_cores == sparse_cores,
            r.node_features == node_features,
            r.is_first_row,
            r.total_cycle == 0,
    {
        SparseAggBuffer {
            input_queue: None,
            data_queue: None,
            output_queue: None,
            temp_agg_result: Vec::new(),
            status: AggStatus::Working(0, false),
            sparse_cores,
            node_features,
            is_first_row: true,
            total_cycle: 0,
        }
    }

    /// Fold one task into one accumulator row, returning the row's
    /// merge cost, clamped into the counter's range.
    fn row_merge(nf: &NodeFeatures, acc: &mut Vec<usize>, task: &Vec<usize>) -> (c: u64)
        requires
            sorted_strict(old(acc)@),
            forall|e: int| 0 <= e < task@.len() ==> ((#[trigger] task@[e]) as int) < nf.features@.len(),
        ensures
            sorted_strict(final(acc)@),
            final(acc)@.to_set() == row_union(*nf, old(acc)@.to_set(), task@),
            c == cap64(row_cost(*nf, old(acc)@.to_set(), task@)),
    {
        let mut c: u64 = 0;
        let ghost mut cost_acc: int = 0;
        let mut t: usize = 0;
        let n = task.len();
        proof {
            assert(task@.subrange(0, n as int) =~= task@);
        }
        while t < n
            invariant
                t <= n,
                n == task@.len(),
                sorted_strict(acc@),
                forall|e: int|
                    0 <= e < task@.len() ==> (#[trigger] task@[e] as int) < nf.features@.len(),
                row_union(*nf, old(acc)@.to_set(), task@) == row_union(
                    *nf,
                    acc@.to_set(),
                    task@.subrange(t as int, n as int),
                ),
                row_cost(*nf, old(acc)@.to_set(), task@) == cost_acc + row_cost(
                    *nf,
                    acc@.to_set(),
                    task@.subrange(t as int, n as int),
                ),
                cost_acc >= 0,
                c == cap64(cost_acc),
            decreases n - t,
        {
            let node = task[t];
            let f = nf.get_features(node);
            let l1 = acc.len();
            let l2 = f.len();
            let ghost pre = acc@;
            let ghost rest = task@.subrange(t as int, n as int);
            proof {
                lemma_sorted_len_is_card(acc@);
                assert(rest[0] == task@[t as int]);
                assert(rest.drop_first() =~= task@.subrange(t + 1, n as int));
                lemma_row_cost_nonneg(
                    *nf,
                    acc@.to_set().union(feature_set(*nf, node as int)),
                    rest.drop_first(),
                );
            }
            c = sat_add(c, l1 as u64);
            c = sat_add(c, l2 as u64);
            proof {
                let step = l1 + l2;
                assert(c == cap64(cost_acc + step));
                cost_acc = cost_acc + step;
            }
            let mut q: usize = 0;
            let m = f.len();
            let ghost set0 = acc@.to_set();
            while q < m
                invariant
                    q <= m,
                    m == f@.len(),
                    sorted_strict(acc@),
                    acc@.to_set() == set0.union(f@.subrange(0, q as int).to_set()),
                decreases m - q,
            {
                let x = f[q];
                sorted_insert(acc, x);
                proof {
                    let ghost pre_set = set0.union(f@.subrange(0, q as int).to_set());
                    let ghost post_set = set0.union(f@.subrange(0, q + 1).to_set());
                    assert forall|y: usize| acc@.to_set().contains(y) implies post_set.contains(y)
                        by {
                        assert(acc@.contains(y));
                        if y == x {
                            assert(f@.subrange(0, q + 1)[q as int] == x);
                            assert(f@.subrange(0, q + 1).contains(x));
                        } else {
                            assert(pre_set.contains(y));
                            if f@.subrange(0, q as int).contains(y) {
                                let j = choose|j: int|
                                    0 <= j < q && #[trigger] f@.subrange(0, q as int)[j] == y;
                                assert(f@.subrange(0, q + 1)[j] == y);
                                assert(f@.subrange(0, q + 1).contains(y));
                            }
                        }
                    };
                    assert forall|y: usize| post_set.contains(y) implies acc@.to_set().contains(y)
                        by {
                        if set0.contains(y) {
                            assert(pre_set.contains(y));
                            assert(acc@.contains(y));
                        } else {
                            assert(f@.subrange(0, q + 1).contains(y));
                            let j = choose|j: int|
                                0 <= j < q + 1 && #[trigger] f@.subrange(0, q + 1)[j] == y;
                            if j < q {
                                assert(f@.subrange(0, q as int)[j] == y);
                                assert(f@.subrange(0, q as int).contains(y));
                                assert(pre_set.contains(y));
                                assert(acc@.contains(y));
                            } else {
                                assert(y == x);
                                assert(acc@.contains(y));
                            }
                        }
                    };
                    assert(acc@.to_set() =~= post_set);
                }
                q += 1;
            }
            proof {
                assert(f@.subrange(0, m as int) =~= f@);
                assert(acc@.to_set() == set0.union(feature_set(*nf, node as int)));
                assert(row_union(*nf, set0, rest) == row_union(
                    *nf,
                    acc@.to_set(),
                    rest.drop_first(),
                ));
                assert(row_cost(*nf, set0, rest) == set0.len() + nf.features@[node as int]@.len()
                    + row_cost(*nf, acc@.to_set(), rest.drop_first()));
            }
            t += 1;
        }
        proof {
            assert(task@.subrange(n as int, n as int) =~= Seq::<usize>::empty());
        }
        c
    }

    /// The cycles one tile takes, and the fold of its tasks into the
    /// accumulator: per output row, the streamed-merge cost of every
    /// node's feature set, the rows spread greedily over the cores,
    /// the tile costing the busiest core's load.
    pub fn get_add_sparse_cycle(&mut self, tasks: &Vec<Vec<usize>>, current_layer: usize) -> (r:
        u64)
        requires
            (current_layer as int) < old(self).node_features@.len(),
            tasks@.len() == old(self).temp_agg_result@.len(),
            forall|k: int, e: int|
                0 <= k < tasks@.len() && 0 <= e < tasks@[k]@.len() ==> ((#[trigger] tasks@[k]@[e])
                    as int) < old(self).node_features@[current_layer as int].features@.len(),
            old(self).temp_ok(),
            old(self).sparse_cores >= 1,
        ensures
            r == tile_cycles(
                old(self).node_features@[current_layer as int],
                temp_sets(old(self).temp_agg_result@),
                tasks@,
                old(self).sparse_cores as nat,
            ),
            final(self).temp_ok(),
            final(self).temp_agg_result@.len() == tasks@.len(),
            forall|k: int|
                0 <= k < tasks@.len() ==> (#[trigger] final(self).temp_agg_result@[k])@.to_set()
                    == row_union(
                    old(self).node_features@[current_layer as int],
                    old(self).temp_agg_result@[k]@.to_set(),
                    tasks@[k]@,
                ),
            final(self).input_queue == old(self).input_queue,
            final(self).data_queue == old(self).data_queue,
            final(self).output_queue == old(self).output_queue,
            final(self).status == old(self).status,
            final(self).is_first_row == old(self).is_first_row,
            final(self).total_cycle == old(self).total_cycle,
            final(self).same_config(old(self)),
    {
        let ghost nf0 = self.node_features@[current_layer as int];
        let ghost inits = temp_sets(old(self).temp_agg_result@);
        let mut cycle_vec: Vec<u64> = Vec::new();
        let n = tasks.len();
        let mut k: usize = 0;
        while k < n
            invariant
                k <= n,
                n == tasks@.len(),
                (current_layer as int) < self.node_features@.len(),
                nf0 == self.node_features@[current_layer as int],
                self.temp_agg_result@.len() == n,
                inits == temp_sets(old(self).temp_agg_result@),
                inits.len() == n,
                forall|j: int, e: int|
                    0 <= j < tasks@.len() && 0 <= e < tasks@[j]@.len() ==> ((
                    #[trigger] tasks@[j]@[e]) as int) < nf0.features@.len(),
                forall|j: int|
                    k <= j < n ==> self.temp_agg_result@[j] == old(self).temp_agg_result@[j],
                old(self).temp_ok(),
                forall|j: int|
                    0 <= j < k ==> sorted_strict((#[trigger] self.temp_agg_result@[j])@),
                forall|j: int|
                    0 <= j < k ==> (#[trigger] self.temp_agg_result@[j])@.to_set() == row_union(
                        nf0,
                        inits[j],
                        tasks@[j]@,
                    ),
                cycle_vec@.len() == k,
                forall|j: int|
                    0 <= j < k ==> cycle_vec@[j] == cap64(row_cost(nf0, inits[j], tasks@[j]@)),
                self.input_queue == old(self).input_queue,
                self.data_queue == old(self).data_queue,
                self.output_queue == old(self).output_queue,
                self.status == old(self).status,
                self.is_first_row == old(self).is_first_row,
                self.total_cycle == old(self).total_cycle,
                self.sparse_cores == old(self).sparse_cores,
                self.node_features == old(self).node_features,
            decreases n - k,
        {
            let task = &tasks[k];
            proof {
                assert(self.temp_agg_result@[k as int] == old(self).temp_agg_result@[k as int]);
                assert(inits[k as int] == old(self).temp_agg_result@[k as int]@.to_set());
            }
            let nf = &self.node_features[current_layer];
            let c = Self::row_merge(nf, &mut self.temp_agg_result[k], task);
            cycle_vec.push(c);
            k += 1;
        }
        let cores = self.sparse_cores;
        let mut loads: Vec<u64> = Vec::new();
        let mut i: usize = 0;
        while i < cores
            invariant
                i <= cores,
                loads@.len() == i,
                forall|j: int| 0 <= j < i ==> loads@[j] == 0u64,
            decreases cores - i,
        {
            loads.push(0);
            i += 1;
        }
        proof {
            assert(loads@ =~= zero_loads(cores as nat));
            assert(cycle_vec@ =~= tile_costs(nf0, inits, tasks@));
            assert(cycle_vec@.subrange(0, cycle_vec@.len() as int) =~= cycle_vec@);
        }
        let ghost costs = cycle_vec@;
        let mut j: usize = 0;
        while j < cycle_vec.len()
            invariant
                j <= costs.len(),
                cycle_vec@ == costs,
                loads@.len() == cores,
                cores >= 1,
                lpt_loads(costs, zero_loads(cores as nat)) == lpt_loads(
                    costs.subrange(j as int, costs.len() as int),
                    loads@,
                ),
            decreases costs.len() - j,
        {
            let ghost pre_loads = loads@;
            let ghost rest = costs.subrange(j as int, costs.len() as int);
            let idx = min_load_index(&loads);
            let cur = loads[idx];
            let c = cycle_vec[j];
            let v = sat_add(cur, c);
            let slot = &mut loads[idx];
            *slot = v;
            proof {
                assert(loads@ == pre_loads.update(idx as int, v));
                assert(rest[0] == costs[j as int]);
                assert(rest.drop_first() =~= costs.subrange(j + 1, costs.len() as int));
                assert(lpt_loads(rest, pre_loads) == lpt_loads(rest.drop_first(), loads@));
            }
            j += 1;
        }
        proof {
            assert(costs.subrange(costs.len() as int, costs.len() as int) =~= Seq::<u64>::empty());
            assert(loads@ == lpt_loads(costs, zero_loads(cores as nat)));
        }
        let mut m: u64 = 0;
        let mut q: usize = 0;
        while q < loads.len()
            invariant
                q <= loads@.len(),
                m == seq_max(loads@.subrange(0, q as int)),
            decreases loads@.len() - q,
        {
            proof {
                assert(loads@.subrange(0, q + 1).drop_last() =~= loads@.subrange(0, q as int));
                assert(loads@.subrange(0, q + 1).last() == loads@[q as int]);
            }
            if loads[q] > m {
                m = loads[q];
            }
            q += 1;
        }
        proof {
            assert(loads@.subrange(0, loads@.len() as int) =~= loads@);
        }
        m
    }

    /// Whether the tile in hand can be aggregated, by one scan.
    fn window_valid(&self, w: &InputWindow) -> (r: bool)
        ensures
            r == self.window_ok(*w),
    {
        if w.task_id.layer_id >= self.node_features.len() {
            return false;
        }
        if !(self.is_first_row || w.tasks.len() == self.temp_agg_result.len()) {
            return false;
        }
        if self.sparse_cores == 0 {
            return false;
        }
        let flen = self.node_features[w.task_id.layer_id].features.len();
        let nk = w.tasks.len();
        let mut k: usize = 0;
        while k < nk
            invariant
                k <= nk,
                nk == w.tasks@.len(),
                (w.task_id.layer_id as int) < self.node_features@.len(),
                flen == self.node_features@[w.task_id.layer_id as int].features@.len(),
                forall|k2: int, e: int|
                    0 <= k2 < k && 0 <= e < w.tasks@[k2]@.len() ==> ((
                    #[trigger] w.tasks@[k2]@[e]) as int) < flen,
            decreases nk - k,
        {
            let row = &w.tasks[k];
            let ne = row.len();
            let mut e: usize = 0;
            while e < ne
                invariant
                    e <= ne,
                    k < nk,
                    nk == w.tasks@.len(),
                    ne == row@.len(),
                    row == w.tasks@[k as int],
                    flen == self.node_features@[w.task_id.layer_id as int].features@.len(),
                    forall|e2: int| 0 <= e2 < e ==> ((#[trigger] row@[e2]) as int) < flen,
                decreases ne - e,
            {
                if row[e] >= flen {
                    return false;
                }
                e += 1;
            }
            k += 1;
        }
        true
    }

    /// Whether every accumulator row is sorted, by one scan.
    fn temp_sorted(&self) -> (r: bool)
        ensures
            r == self.temp_ok(),
    {
        let n = self.temp_agg_result.len();
        let mut k: usize = 0;
        while k < n
            invariant
                k <= n,
                n == self.temp_agg_result@.len(),
                forall|j: int|
                    0 <= j < k ==> sorted_strict((#[trigger] self.temp_agg_result@[j])@),
            decreases n - k,
        {
            if !vec_is_sorted(&self.temp_agg_result[k]) {
                return false;
            }
            k += 1;
        }
        true
    }

    /// All fields equal but the status.
    pub open spec fn same_but_status(a: Self, b: Self) -> bool {
        &&& b.input_queue == a.input_queue
        &&& b.data_queue == a.data_queue
        &&& b.output_queue == a.output_queue
        &&& b.temp_agg_result == a.temp_agg_result
        &&& b.sparse_cores == a.sparse_cores
        &&& b.node_features == a.node_features
        &&& b.is_first_row == a.is_first_row
        &&& b.total_cycle == a.total_cycle
    }

    /// The initial per-row unions a consumed tile folds into: fresh
    /// empty rows at the start of an output tile, the running
    /// accumulator otherwise.
    pub open spec fn consume_inits(&self, w: InputWindow) -> Seq<Set<usize>> {
        if self.is_first_row {
            Seq::new(w.tasks@.len(), |k: int| Set::<usize>::empty())
        } else {
            temp_sets(self.temp_agg_result@)
        }
    }

    /// The cycles the consumed tile is accounted.
    pub open spec fn consume_cycles(&self, w: InputWindow) -> u64 {
        tile_cycles(
            self.node_features@[w.task_id.layer_id as int],
            self.consume_inits(w),
            w.tasks@,
            self.sparse_cores as nat,
        )
    }
}

impl Stage for SparseAggBuffer {
    type Input = InputWindow;

    type Output = OutputWindow;

    type InputInfo = Vec<Vec<usize>>;

    type OutputInfo = (OutputWindow, Vec<Vec<usize>>);

    open spec fn ready(&self) -> bool {
        self.input_queue is None
    }

    open spec fn has_out(&self) -> bool {
        self.output_queue is Some
    }

    open spec fn counter(&self) -> int {
        self.total_cycle as int
    }

    open spec fn out_item(&self) -> Option<OutputWindow> {
        match self.output_queue {
            Some(p) => Some(p.0),
            None => None,
        }
    }

    open spec fn in_info(&self) -> Option<Vec<Vec<usize>>> {
        Some(self.temp_agg_result)
    }

    open spec fn out_info(&self) -> Option<(OutputWindow, Vec<Vec<usize>>)> {
        self.output_queue
    }

    open spec fn push_spec(self, x: InputWindow) -> Self {
        SparseAggBuffer { input_queue: Some(x), ..self }
    }

    open spec fn pop_spec(self) -> Self {
        SparseAggBuffer { output_queue: None, ..self }
    }

    /// One cycle of the aggregation protocol: count a working tile
    /// down; on reaching zero either consume the next tile — fold its
    /// tasks, account its cycles, stage its descriptor — or, after
    /// the closing tile, hand descriptor and accumulated rows to the
    /// output slot once it is free.  A tile that cannot be aggregated
    /// from this state is discarded; the window generator never
    /// produces one.
    open spec fn step_rel(self, post: Self) -> bool {
        &&& post.total_cycle >= self.total_cycle
        &&& post.same_config(&self)
        &&& match self.status {
            AggStatus::Working(n, l) => {
                if n > 0 {
                    Self::same_but_status(self, post) && post.status == AggStatus::Working(
                        (n - 1) as u64,
                        l,
                    )
                } else if l {
                    Self::same_but_status(self, post) && post.status == AggStatus::Done
                } else {
                    match self.input_queue {
                        None => post == self,
                        Some(w) => {
                            &&& post.input_queue is None
                            &&& post.output_queue == self.output_queue
                            &&& (self.window_ok(w) && self.temp_ok() ==> {
                                let cyc = self.consume_cycles(w);
                                &&& post.data_queue == Some(w.output_window)
                                &&& post.status == AggStatus::Working(cyc, w.is_last_row)
                                &&& post.total_cycle == sat_add_spec(self.total_cycle, cyc)
                                &&& !post.is_first_row
                                &&& post.temp_agg_result@.len() == w.tasks@.len()
                                &&& post.temp_ok()
                                &&& forall|k: int|
                                    0 <= k < w.tasks@.len() ==> (#[trigger] post.temp_agg_result@[
                                        k
                                    ])@.to_set() == row_union(
                                        self.node_features@[w.task_id.layer_id as int],
                                        self.consume_inits(w)[k],
                                        w.tasks@[k]@,
                                    )
                            })
                            &&& (!(self.window_ok(w) && self.temp_ok()) ==> {
                                &&& post.data_queue == self.data_queue
                                &&& post.status == self.status
                                &&& post.total_cycle == self.total_cycle
                                &&& post.temp_agg_result == self.temp_agg_result
                                &&& post.is_first_row == self.is_first_row
                            })
                        },
                    }
                }
            },
            AggStatus::Done => {
                if self.output_queue is None && self.data_queue is Some {
                    &&& post.output_queue == Some((self.data_queue->Some_0, self.temp_agg_result))
                    &&& post.temp_agg_result@.len() == 0
                    &&& post.data_queue is None
                    &&& post.status == AggStatus::Working(0u64, false)
                    &&& post.is_first_row
                    &&& post.input_queue == self.input_queue
                    &&& post.total_cycle == self.total_cycle
                } else {
                    post == self
                }
            },
        }
    }

    fn can_accept_input(&self) -> (r: bool) {
        self.input_queue.is_none()
    }

    fn has_output(&self) -> (r: bool) {
        self.output_queue.is_some()
    }

    fn push_input(&mut self, input: InputWindow) {
        self.input_queue = Some(input);
    }

    fn pop_output(&mut self) -> (r: Option<OutputWindow>) {
        match self.output_queue.take() {
            Some((ow, _)) => Some(ow),
            None => None,
        }
    }

    fn peek_input_info(&self) -> (r: Option<&Vec<Vec<usize>>>) {
        Some(&self.temp_agg_result)
    }

    fn peek_output_info(&self) -> (r: Option<&(OutputWindow, Vec<Vec<usize>>)>) {
        self.output_queue.as_ref()
    }

    fn tick(&mut self) {
        match self.status {
            AggStatus::Working(cycles, is_last) => {
                if cycles == 0 {
                    if is_last {
                        self.status = AggStatus::Done;
                    } else {
                        match self.input_queue.take() {
                            None => {},
                            Some(w) => {
                                let ok = self.window_valid(&w) && self.temp_sorted();
                                if ok {
                                    if self.is_first_row {
                                        let tl = w.tasks.len();
                                        let mut fresh: Vec<Vec<usize>> = Vec::new();
                                        let mut i: usize = 0;
                                        while i < tl
                                            invariant
                                                i <= tl,
                                                fresh@.len() == i,
                                                forall|j: int|
                                                    0 <= j < i ==> (#[trigger] fresh@[j])@ == Seq::<
                                                        usize,
                                                    >::empty(),
                                            decreases tl - i,
                                        {
                                            fresh.push(Vec::new());
                                            i += 1;
                                        }
                                        self.temp_agg_result = fresh;
                                        self.is_first_row = false;
                                        proof {
                                            assert forall|k: int|
                                                0 <= k < tl implies #[trigger] temp_sets(
                                                self.temp_agg_result@,
                                            )[k] =~= Set::<usize>::empty() by {
                                                assert(self.temp_agg_result@[k]@.to_set()
                                                    =~= Set::<usize>::empty());
                                            };
                                        }
                                    }
                                    proof {
                                        assert(temp_sets(self.temp_agg_result@) =~~= old(
                                            self,
                                        ).consume_inits(w));
                                    }
                                    let cycles2 = self.get_add_sparse_cycle(
                                        &w.tasks,
                                        w.task_id.layer_id,
                                    );
                                    self.total_cycle = sat_add(self.total_cycle, cycles2);
                                    self.data_queue = Some(w.output_window);
                                    self.status = AggStatus::Working(cycles2, w.is_last_row);
                                }
                            },
                        }
                    }
                } else {
                    self.status = AggStatus::Working(cycles - 1, is_last);
                }
            },
            AggStatus::Done => {
                if self.output_queue.is_none() && self.data_queue.is_some() {
                    match self.data_queue.take() {
                        Some(ow) => {
                            let mut result: Vec<Vec<usize>> = Vec::new();
                            core::mem::swap(&mut self.temp_agg_result, &mut result);
                            self.output_queue = Some((ow, result));
                            self.status = AggStatus::Working(0, false);
                            self.is_first_row = true;
                        },
                        None => {
                            proof {
                                assert(false);
                            }
                        },
                    }
                }
            },
        }
    }
}

/// The fold stage of the dense pipeline: each consumed tile replaces
/// the carried output descriptor, and the descriptor is released on
/// the tile that completes its output tile.
pub struct AggBuffer {
    pub in_slot: Option<InputWindow>,
    pub acc: Option<OutputWindow>,
    pub out_slot: Option<OutputWindow>,
}

impl AggBuffer {
    pub fn new() -> (r: Self)
        ensures
            r.in_slot is None,
            r.acc is None,
            r.out_slot is None,
    {
        AggBuffer { in_slot: None, acc: None, out_slot: None }
    }
}

impl Stage for AggBuffer {
    type Input = InputWindow;

    type Output = OutputWindow;

    type InputInfo = InputWindow;

    type OutputInfo = OutputWindow;

    open spec fn ready(&self) -> bool {
        self.in_slot is None
    }

    open spec fn has_out(&self) -> bool {
        self.out_slot is Some
    }

    open spec fn counter(&self) -> int {
        0
    }

    open spec fn out_item(&self) -> Option<OutputWindow> {
        self.out_slot
    }

    open spec fn in_info(&self) -> Option<InputWindow> {
        self.in_slot
    }

    open spec fn out_info(&self) -> Option<OutputWindow> {
        self.out_slot
    }

    open spec fn push_spec(self, x: InputWindow) -> Self {
        AggBuffer { in_slot: Some(x), ..self }
    }

    open spec fn pop_spec(self) -> Self {
        AggBuffer { out_slot: None, ..self }
    }

    /// Consume the held tile: its descriptor replaces the carried
    /// one; on the completing tile the descriptor moves to the output
    /// slot, delayed while the slot is occupied.
    open spec fn step_rel(self, post: Self) -> bool {
        &&& (self.in_slot is None ==> post == self)
        &&& (self.in_slot matches Some(w) ==> {
            if w.output_window.last_row_completed {
                if self.out_slot is None {
                    &&& post.in_slot is None
                    &&& post.acc is None
                    &&& post.out_slot == Some(w.output_window)
                } else {
                    post == self
                }
            } else {
                &&& post.in_slot is None
                &&& post.acc == Some(w.output_window)
                &&& post.out_slot == self.out_slot
            }
        })
    }

    fn can_accept_input(&self) -> (r: bool) {
        self.in_slot.is_none()
    }

    fn has_output(&self) -> (r: bool) {
        self.out_slot.is_some()
    }

    fn push_input(&mut self, input: InputWindow) {
        self.in_slot = Some(input);
    }

    fn pop_output(&mut self) -> (r: Option<OutputWindow>) {
        self.out_slot.take()
    }

    fn peek_input_info(&self) -> (r: Option<&InputWindow>) {
        self.in_slot.as_ref()
    }

    fn peek_output_info(&self) -> (r: Option<&OutputWindow>) {
        self.out_slot.as_ref()
    }

    fn tick(&mut self) {
        let completing = match &self.in_slot {
            Some(w) => w.output_window.last_row_completed,
            None => false,
        };
        if self.in_slot.is_some() {
            if completing {
                if self.out_slot.is_none() {
                    match self.in_slot.take() {
                        Some(w) => {
                            self.acc = None;
                            self.out_slot = Some(w.output_window);
                        },
                        None => {
                            proof {
                                assert(false);
                            }
                        },
                    }
                }
            } else {
                match self.in_slot.take() {
                    Some(w) => {
                        self.acc = Some(w.output_window);
                    },
                    None => {
                        proof {
                            assert(false);
                        }
                    },
                }
            }
        }
    }
}

} // verus!
