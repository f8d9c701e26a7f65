//! The sliding-window task generator.
//!
//! A layer's sparse matrix-matrix product is decomposed into
//! capacity-bounded tiles: the outer iterator yields one output-row
//! tile per step, the inner iterator yields the input-row tiles that
//! feed one output tile.  Each emitted `InputWindow` carries, for
//! every output row of its tile, the ordered set of input rows with an
//! edge into it, restricted to the tile's input range.

use vstd::prelude::*;

use crate::error::GcnError;
use crate::graph::Graph;
use crate::node_features::NodeFeatures;
use crate::nodeset::{range_empty, sorted_strict};
use crate::settings::RunningMode;
use crate::window_id::WindowId;

verus! {

/// The per-layer inputs of the window generator.
pub struct WindowIterSettings {
    pub agg_buffer_size: usize,
    pub input_buffer_size: usize,
    pub layer: usize,
    pub gcn_hidden_size: Vec<usize>,
    pub is_final_layer: bool,
    pub running_mode: RunningMode,
}

/// Descriptor shared by every input tile that feeds one output tile.
#[derive(Debug, Clone)]
pub struct OutputWindow {
    pub start_output_index: usize,
    pub end_output_index: usize,
    pub task_id: WindowId,
    pub output_node_dim: usize,
    pub input_node_dim: usize,
    pub is_final_window: bool,
    pub is_final_layer: bool,
    pub last_row_completed: bool,
}

impl OutputWindow {
    pub fn new(
        start_output_index: usize,
        end_output_index: usize,
        task_id: WindowId,
        output_node_dim: usize,
        input_node_dim: usize,
        is_final_window: bool,
        is_final_layer: bool,
        last_row_completed: bool,
    ) -> (r: Self)
        ensures
            r.start_output_index == start_output_index,
            r.end_output_index == end_output_index,
            r.task_id == task_id,
            r.output_node_dim == output_node_dim,
            r.input_node_dim == input_node_dim,
            r.is_final_window == is_final_window,
            r.is_final_layer == is_final_layer,
            r.last_row_completed == last_row_completed,
    {
        OutputWindow {
            start_output_index,
            end_output_index,
            task_id,
            output_node_dim,
            input_node_dim,
            is_final_window,
            is_final_layer,
            last_row_completed,
        }
    }

    pub fn get_output_len(&self) -> (r: usize)
        requires
            self.start_output_index <= self.end_output_index,
        ensures
            r == self.end_output_index - self.start_output_index,
    {
        self.end_output_index - self.start_output_index
    }

    pub fn get_output_dim(&self) -> (r: usize)
        ensures
            r == self.output_node_dim,
    {
        self.output_node_dim
    }

    pub fn get_input_dim(&self) -> (r: usize)
        ensures
            r == self.input_node_dim,
    {
        self.input_node_dim
    }

    pub fn get_task_id(&self) -> (r: &WindowId)
        ensures
            r == self.task_id,
    {
        &self.task_id
    }
}

/// The four corners of one tile.
pub struct RangeIndex {
    pub start_input_index: usize,
    pub end_input_index: usize,
    pub start_output_index: usize,
    pub end_output_index: usize,
}

impl RangeIndex {
    pub fn new(
        start_input_index: usize,
        end_input_index: usize,
        start_output_index: usize,
        end_output_index: usize,
    ) -> (r: Self)
        ensures
            r.start_input_index == start_input_index,
            r.end_input_index == end_input_index,
            r.start_output_index == start_output_index,
            r.end_output_index == end_output_index,
    {
        RangeIndex { start_input_index, end_input_index, start_output_index, end_output_index }
    }
}

/// One scheduling unit: an input-row tile feeding one output tile,
/// with one ordered task set per output row of the tile.
#[derive(Debug, Clone)]
pub struct InputWindow {
    pub task_id: WindowId,
    pub tasks: Vec<Vec<usize>>,
    pub start_output_index: usize,
    pub start_input_index: usize,
    pub end_output_index: usize,
    pub end_input_index: usize,
    pub output_window: OutputWindow,
    pub is_last_row: bool,
}

impl InputWindow {
    /// The tile is well formed against graph `g`: one task row per
    /// output row, each an ordered subset of the column's edges
    /// restricted to the tile's input range.
    pub open spec fn wf(&self, g: Graph) -> bool {
        &&& self.start_output_index <= self.end_output_index <= g.num_nodes()
        &&& self.start_input_index <= self.end_input_index <= g.num_nodes()
        &&& self.tasks@.len() == self.end_output_index - self.start_output_index
        &&& forall|k: int| 0 <= k < self.tasks@.len() ==> sorted_strict((#[trigger] self.tasks@[k])@)
        &&& forall|k: int, x: usize|
            0 <= k < self.tasks@.len() ==> ((#[trigger] self.tasks@[k]@.contains(x)) <==> g.edge(
                (self.start_output_index + k) as usize,
                x,
            ) && self.start_input_index <= x < self.end_input_index)
    }

    pub fn new(
        task_id: WindowId,
        tasks: Vec<Vec<usize>>,
        range_index: RangeIndex,
        output_window: OutputWindow,
        is_last_row: bool,
    ) -> (r: InputWindow)
        ensures
            r.task_id == task_id,
            r.tasks == tasks,
            r.start_input_index == range_index.start_input_index,
            r.end_input_index == range_index.end_input_index,
            r.start_output_index == range_index.start_output_index,
            r.end_output_index == range_index.end_output_index,
            r.output_window == output_window,
            r.is_last_row == is_last_row,
    {
        let RangeIndex { start_input_index, end_input_index, start_output_index, end_output_index }
            = range_index;
        InputWindow {
            task_id,
            tasks,
            start_output_index,
            start_input_index,
            end_output_index,
            end_input_index,
            output_window,
            is_last_row,
        }
    }

    pub fn get_task_id(&self) -> (r: &WindowId)
        ensures
            r == self.task_id,
    {
        &self.task_id
    }

    pub fn get_tasks(&self) -> (r: &Vec<Vec<usize>>)
        ensures
            r == self.tasks,
    {
        &self.tasks
    }

    pub fn get_location_x(&self) -> (r: (usize, usize))
        ensures
            r.0 == self.start_output_index,
            r.1 == self.end_output_index,
    {
        (self.start_output_index, self.end_output_index)
    }

    pub fn get_location_y(&self) -> (r: (usize, usize))
        ensures
            r.0 == self.start_input_index,
            r.1 == self.end_input_index,
    {
        (self.start_input_index, self.end_input_index)
    }

    pub fn get_output_window(&self) -> (r: &OutputWindow)
        ensures
            r == self.output_window,
    {
        &self.output_window
    }
}

/// Yields one inner iterator per output-row tile, in order, covering
/// `[0, num_node)`.
#[derive(Debug)]
pub struct OutputWindowIterator {
    pub agg_buffer_size: usize,
    pub input_buffer_size: usize,
    pub current_start_output_index: usize,
    pub task_id: WindowId,
    pub gcn_hidden_size: Vec<usize>,
    pub is_final_layer: bool,
    pub running_mode: RunningMode,
    pub num_node: usize,
    pub feature_size: usize,
}

impl OutputWindowIterator {
    /// How many output rows one tile spans: for the first layer, the
    /// aggregation half-buffer divided by the input feature bytes; for
    /// a later layer, the previous layer's hidden width.
    pub open spec fn spec_output_size(&self) -> int {
        if self.task_id.layer_id == 0 {
            (self.agg_buffer_size as int / 2) / (self.feature_size as int * 4)
        } else {
            self.gcn_hidden_size@[self.task_id.layer_id - 1] as int
        }
    }

    /// What must hold for the iterator to keep producing: layer
    /// indices inside the hidden-size table, a nonzero tile, and
    /// counters that cannot overflow.
    pub open spec fn wf(&self) -> bool {
        &&& self.task_id.layer_id > 0 ==> self.task_id.layer_id - 1 < self.gcn_hidden_size@.len()
        &&& self.task_id.layer_id == 0 ==> 0 < self.feature_size <= usize::MAX as int / 4
        &&& self.spec_output_size() > 0
        &&& self.task_id.output_id <= self.current_start_output_index
    }

    pub fn new(graph: &Graph, window_iter_settings: WindowIterSettings) -> (r:
        OutputWindowIterator)
        ensures
            r.agg_buffer_size == window_iter_settings.agg_buffer_size,
            r.input_buffer_size == window_iter_settings.input_buffer_size,
            r.current_start_output_index == 0,
            r.task_id == (WindowId {
                layer_id: window_iter_settings.layer,
                output_id: 0,
                input_id: 0,
            }),
            r.gcn_hidden_size == window_iter_settings.gcn_hidden_size,
            r.is_final_layer == window_iter_settings.is_final_layer,
            r.running_mode == window_iter_settings.running_mode,
            r.num_node == graph.num_nodes(),
            r.feature_size == graph.feature_size(),
    {
        let WindowIterSettings {
            agg_buffer_size,
            input_buffer_size,
            layer,
            gcn_hidden_size,
            is_final_layer,
            running_mode,
        } = window_iter_settings;
        OutputWindowIterator {
            agg_buffer_size,
            input_buffer_size,
            current_start_output_index: 0,
            task_id: WindowId { layer_id: layer, output_id: 0, input_id: 0 },
            gcn_hidden_size,
            is_final_layer,
            running_mode,
            num_node: graph.get_num_node(),
            feature_size: graph.get_feature_size(),
        }
    }

    /// Whether the generator can actually tile `g` under these
    /// settings: layer indices inside the hidden-size table, an output
    /// tile of at least one row, and — in the sparse modes — a feature
    /// table that covers the graph with every row fitting the half
    /// input buffer; in the dense mode, an input tile of at least one
    /// row.
    pub open spec fn spec_can_tile(
        g: Graph,
        nf: Option<&NodeFeatures>,
        s: WindowIterSettings,
    ) -> bool {
        &&& (s.layer > 0 ==> s.layer - 1 < s.gcn_hidden_size@.len())
        &&& (s.layer == 0 ==> 0 < g.feature_size() <= usize::MAX as int / 4)
        &&& (!s.is_final_layer ==> s.layer < s.gcn_hidden_size@.len())
        &&& ({
            let osize: int = if s.layer == 0 {
                (s.agg_buffer_size as int / 2) / (g.feature_size() as int * 4)
            } else {
                s.gcn_hidden_size@[s.layer - 1] as int
            };
            osize > 0
        })
        &&& ({
            let idim: int = if s.layer == 0 {
                g.feature_size() as int
            } else {
                s.gcn_hidden_size@[s.layer - 1] as int
            };
            match s.running_mode {
                RunningMode::Dense => {
                    &&& idim >= 1
                    &&& idim * 4 <= usize::MAX
                    &&& (s.input_buffer_size as int / 2) / (idim * 4) >= 1
                },
                _ => {
                    &&& nf is Some
                    &&& nf->Some_0.features@.len() >= g.num_nodes()
                    &&& s.input_buffer_size >= 2
                    &&& forall|r: int|
                        0 <= r < g.num_nodes() ==> #[trigger] feat_bytes(*nf->Some_0, r)
                            <= s.input_buffer_size as int / 2
                },
            }
        })
    }

    /// Build the outer iterator only when the settings can tile the
    /// graph: a zero-sized output tile, or a feature row that refuses
    /// to fit the half input buffer, is refused at configuration time
    /// with the configuration error.  On success the iterator is well
    /// formed and every inner iterator it yields meets its context.
    pub fn try_new(
        graph: &Graph,
        node_features: Option<&NodeFeatures>,
        window_iter_settings: WindowIterSettings,
    ) -> (r: Result<OutputWindowIterator, GcnError>)
        ensures
            r is Err ==> r->Err_0 == GcnError::InvalidConfig,
            (r is Ok) == Self::spec_can_tile(*graph, node_features, window_iter_settings),
            r matches Ok(it) ==> {
                &&& it.wf()
                &&& it.agg_buffer_size == window_iter_settings.agg_buffer_size
                &&& it.input_buffer_size == window_iter_settings.input_buffer_size
                &&& it.current_start_output_index == 0
                &&& it.task_id == (WindowId {
                    layer_id: window_iter_settings.layer,
                    output_id: 0,
                    input_id: 0,
                })
                &&& it.gcn_hidden_size == window_iter_settings.gcn_hidden_size
                &&& it.is_final_layer == window_iter_settings.is_final_layer
                &&& it.running_mode == window_iter_settings.running_mode
                &&& it.num_node == graph.num_nodes()
                &&& it.feature_size == graph.feature_size()
            },
    {
        let s = &window_iter_settings;
        if s.layer > 0 && s.layer - 1 >= s.gcn_hidden_size.len() {
            return Err(GcnError::InvalidConfig);
        }
        let fs = graph.get_feature_size();
        if s.layer == 0 && (fs == 0 || fs > usize::MAX / 4) {
            return Err(GcnError::InvalidConfig);
        }
        if !s.is_final_layer && s.layer >= s.gcn_hidden_size.len() {
            return Err(GcnError::InvalidConfig);
        }
        let osize = if s.layer == 0 {
            (s.agg_buffer_size / 2) / (fs * 4)
        } else {
            s.gcn_hidden_size[s.layer - 1]
        };
        if osize == 0 {
            return Err(GcnError::InvalidConfig);
        }
        let idim = if s.layer == 0 {
            fs
        } else {
            s.gcn_hidden_size[s.layer - 1]
        };
        match s.running_mode {
            RunningMode::Dense => {
                if idim == 0 || idim > usize::MAX / 4 {
                    return Err(GcnError::InvalidConfig);
                }
                if (s.input_buffer_size / 2) / (idim * 4) == 0 {
                    return Err(GcnError::InvalidConfig);
                }
            },
            RunningMode::Sparse | RunningMode::Mixed => {
                let nf = match node_features {
                    Some(nf) => nf,
                    None => {
                        return Err(GcnError::InvalidConfig);
                    },
                };
                let num = graph.get_num_node();
                if nf.len() < num {
                    return Err(GcnError::InvalidConfig);
                }
                if s.input_buffer_size < 2 {
                    return Err(GcnError::InvalidConfig);
                }
                let budget = s.input_buffer_size / 2;
                let mut rix: usize = 0;
                while rix < num
                    invariant
                        rix <= num,
                        num == graph.num_nodes(),
                        node_features == Some(nf),
                        window_iter_settings.running_mode != RunningMode::Dense,
                        nf.features@.len() >= num,
                        budget == window_iter_settings.input_buffer_size as int / 2,
                        forall|r: int| 0 <= r < rix ==> #[trigger] feat_bytes(*nf, r) <= budget,
                    decreases num - rix,
                {
                    let row_len = nf.get_features(rix).len();
                    if row_len > budget / 4 {
                        proof {
                            assert(4 * (row_len as int) > budget) by {
                                let q = budget as int / 4;
                                assert(4 * q <= budget < 4 * (q + 1));
                            };
                            assert(feat_bytes(*nf, rix as int) > budget);
                            assert(!Self::spec_can_tile(
                                *graph,
                                node_features,
                                window_iter_settings,
                            )) by {
                                if Self::spec_can_tile(
                                    *graph,
                                    node_features,
                                    window_iter_settings,
                                ) {
                                    assert(feat_bytes(*node_features->Some_0, rix as int)
                                        <= window_iter_settings.input_buffer_size as int / 2);
                                }
                            };
                        }
                        return Err(GcnError::InvalidConfig);
                    }
                    proof {
                        assert(4 * (row_len as int) <= budget) by {
                            let q = budget as int / 4;
                            assert(4 * q <= budget);
                        };
                    }
                    rix += 1;
                }
            },
        }
        Ok(Self::new(graph, window_iter_settings))
    }

    /// Yield the next output tile, as the iterator over its input
    /// tiles.  One tile spans `spec_output_size` rows; the last may be
    /// truncated; the start index always advances by the full stride,
    /// whatever the columns hold.
    pub fn next(&mut self) -> (r: Option<InputWindowIterator>)
        requires
            old(self).wf(),
        ensures
            final(self).wf(),
            old(self).current_start_output_index >= old(self).num_node ==> r is None && *final(self)
                == *old(self),
            old(self).current_start_output_index < old(self).num_node ==> {
                &&& r is Some
                &&& {
                    let it = r->Some_0;
                    let end = if old(self).current_start_output_index + old(
                        self,
                    ).spec_output_size() >= old(self).num_node {
                        old(self).num_node as int
                    } else {
                        old(self).current_start_output_index + old(self).spec_output_size()
                    };
                    &&& it.task_id == old(self).task_id
                    &&& it.input_buffer_size == old(self).input_buffer_size
                    &&& it.start_output_index == old(self).current_start_output_index
                    &&& it.end_output_index == end
                    &&& it.current_window_start_input_index == 0
                    &&& it.current_window_end_input_index == 0
                    &&& it.gcn_hidden_size@ == old(self).gcn_hidden_size@
                    &&& it.is_final_iter == (end >= old(self).num_node)
                    &&& it.is_final_layer == old(self).is_final_layer
                    &&& it.running_mode == old(self).running_mode
                    &&& final(self).current_start_output_index == end
                    &&& final(self).task_id.output_id == old(self).task_id.output_id + 1
                    &&& final(self).task_id.layer_id == old(self).task_id.layer_id
                    &&& final(self).task_id.input_id == old(self).task_id.input_id
                    &&& final(self).num_node == old(self).num_node
                    &&& final(self).feature_size == old(self).feature_size
                    &&& final(self).agg_buffer_size == old(self).agg_buffer_size
                    &&& final(self).input_buffer_size == old(self).input_buffer_size
                    &&& final(self).gcn_hidden_size == old(self).gcn_hidden_size
                    &&& final(self).is_final_layer == old(self).is_final_layer
                    &&& final(self).running_mode == old(self).running_mode
                }
            },
    {
        if self.current_start_output_index >= self.num_node {
            return None;
        }
        let output_size = if self.task_id.layer_id == 0 {
            (self.agg_buffer_size / 2) / (self.feature_size * 4)
        } else {
            self.gcn_hidden_size[self.task_id.layer_id - 1]
        };
        let end_output_index = if output_size >= self.num_node - self.current_start_output_index {
            self.num_node
        } else {
            self.current_start_output_index + output_size
        };
        let is_final_iter = end_output_index >= self.num_node;
        let input_iter_settings = InputIterSettings {
            input_buffer_size: self.input_buffer_size,
            start_output_index: self.current_start_output_index,
            end_output_index,
            gcn_hidden_size: self.gcn_hidden_size.clone(),
            is_final_iter,
            is_final_layer: self.is_final_layer,
            running_mode: self.running_mode,
        };
        let input_iter = InputWindowIterator::new(self.task_id, input_iter_settings);
        self.task_id.output_id = self.task_id.output_id + 1;
        self.current_start_output_index = end_output_index;
        Some(input_iter)
    }
}

/// Input row `r` has no edge into the output columns `[so, eo)`.
pub open spec fn row_empty(g: Graph, so: usize, eo: usize, r: int) -> bool {
    range_empty(g.csr()->Some_0@[r]@, so, eo)
}

/// Every input row of `[a, b)` is empty on the output range.
pub open spec fn rows_empty(g: Graph, so: usize, eo: usize, a: int, b: int) -> bool {
    forall|r: int| a <= r < b ==> #[trigger] row_empty(g, so, eo, r)
}

/// The bytes input row `r` occupies: four per nonzero feature.
pub open spec fn feat_bytes(nf: NodeFeatures, r: int) -> int {
    4 * (nf.features@[r]@.len() as int)
}

/// The number of rows the greedy sparse sizing takes from `cur` on,
/// having already used `size` of the `budget` bytes: rows are taken
/// while the budget is not yet reached and the next row still fits.
pub open spec fn sparse_x_len(nf: NodeFeatures, cur: int, num: int, size: int, budget: int) -> int
    decreases num - cur,
{
    if cur < 0 || cur >= num || size >= budget {
        0
    } else if size + feat_bytes(nf, cur) > budget {
        0
    } else {
        1 + sparse_x_len(nf, cur + 1, num, size + feat_bytes(nf, cur), budget)
    }
}

/// The greedy extent never goes negative.
proof fn lemma_sparse_x_len_nonneg(nf: NodeFeatures, cur: int, num: int, size: int, budget: int)
    ensures
        sparse_x_len(nf, cur, num, size, budget) >= 0,
    decreases num - cur,
{
    if !(cur < 0 || cur >= num || size >= budget) && !(size + feat_bytes(nf, cur) > budget) {
        lemma_sparse_x_len_nonneg(nf, cur + 1, num, size + feat_bytes(nf, cur), budget);
    }
}

/// First row at or after `from` that is not empty on `[so, eo)`, or
/// `num` when every remaining row is empty.
fn first_nonempty_row(graph: &Graph, so: usize, eo: usize, from: usize) -> (r: usize)
    requires
        graph.wf(),
        from <= graph.num_nodes(),
    ensures
        from <= r <= graph.num_nodes(),
        rows_empty(*graph, so, eo, from as int, r as int),
        r < graph.num_nodes() ==> !row_empty(*graph, so, eo, r as int),
{
    let num = graph.get_num_node();
    let mut i = from;
    while i < num
        invariant
            from <= i <= num,
            num == graph.num_nodes(),
            graph.wf(),
            rows_empty(*graph, so, eo, from as int, i as int),
        decreases num - i,
    {
        let e = match graph.is_row_range_empty(i, so, eo) {
            Ok(b) => b,
            Err(_) => {
                proof {
                    assert(false);
                }
                true
            },
        };
        if !e {
            return i;
        }
        i += 1;
    }
    i
}

/// Pull `end` back over the trailing rows that are empty on
/// `[so, eo)`; row `start` is known non-empty, so the result stays
/// above `start`.
fn shrink_empty_end(graph: &Graph, so: usize, eo: usize, start: usize, end0: usize) -> (r: usize)
    requires
        graph.wf(),
        start < end0 <= graph.num_nodes(),
        !row_empty(*graph, so, eo, start as int),
    ensures
        start < r <= end0,
        !row_empty(*graph, so, eo, r - 1),
        rows_empty(*graph, so, eo, r as int, end0 as int),
{
    let mut end = end0;
    let mut done = false;
    while !done
        invariant
            start < end <= end0 <= graph.num_nodes(),
            graph.wf(),
            !row_empty(*graph, so, eo, start as int),
            rows_empty(*graph, so, eo, end as int, end0 as int),
            done ==> !row_empty(*graph, so, eo, end - 1),
        decreases 2 * end + (if done {
            0int
        } else {
            1int
        }),
    {
        let e = match graph.is_row_range_empty(end - 1, so, eo) {
            Ok(b) => b,
            Err(_) => {
                proof {
                    assert(false);
                }
                true
            },
        };
        if e {
            proof {
                assert(end - 1 != start as int);
            }
            end -= 1;
        } else {
            done = true;
        }
    }
    end
}

/// The per-tile inputs of the inner iterator.
pub struct InputIterSettings {
    pub input_buffer_size: usize,
    pub start_output_index: usize,
    pub end_output_index: usize,
    pub gcn_hidden_size: Vec<usize>,
    pub is_final_iter: bool,
    pub is_final_layer: bool,
    pub running_mode: RunningMode,
}

/// Yields the input-row tiles of one output tile, in order of their
/// start row, skipping rows with no edge into the output range.
#[derive(Debug)]
pub struct InputWindowIterator {
    pub task_id: WindowId,
    pub input_buffer_size: usize,
    pub start_output_index: usize,
    pub end_output_index: usize,
    pub current_window_start_input_index: usize,
    pub current_window_end_input_index: usize,
    pub gcn_hidden_size: Vec<usize>,
    pub is_final_iter: bool,
    pub is_final_layer: bool,
    pub running_mode: RunningMode,
}

impl InputWindowIterator {
    pub fn new(task_id: WindowId, input_iter_settings: InputIterSettings) -> (r: Self)
        ensures
            r.task_id == task_id,
            r.input_buffer_size == input_iter_settings.input_buffer_size,
            r.start_output_index == input_iter_settings.start_output_index,
            r.end_output_index == input_iter_settings.end_output_index,
            r.current_window_start_input_index == 0,
            r.current_window_end_input_index == 0,
            r.gcn_hidden_size == input_iter_settings.gcn_hidden_size,
            r.is_final_iter == input_iter_settings.is_final_iter,
            r.is_final_layer == input_iter_settings.is_final_layer,
            r.running_mode == input_iter_settings.running_mode,
    {
        let InputIterSettings {
            input_buffer_size,
            start_output_index,
            end_output_index,
            gcn_hidden_size,
            is_final_iter,
            is_final_layer,
            running_mode,
        } = input_iter_settings;
        InputWindowIterator {
            task_id,
            input_buffer_size,
            start_output_index,
            end_output_index,
            current_window_start_input_index: 0,
            current_window_end_input_index: 0,
            gcn_hidden_size,
            is_final_iter,
            is_final_layer,
            running_mode,
        }
    }

    /// The feature dimension of this layer's input rows.
    pub open spec fn spec_input_dim(&self, g: Graph) -> int {
        if self.task_id.layer_id == 0 {
            g.feature_size() as int
        } else {
            self.gcn_hidden_size@[self.task_id.layer_id - 1] as int
        }
    }

    /// The feature dimension of this layer's output rows.
    pub open spec fn spec_output_dim(&self) -> int {
        if self.is_final_layer {
            1
        } else {
            self.gcn_hidden_size@[self.task_id.layer_id as int] as int
        }
    }

    /// How many input rows one tile spans, counted from `start_i`:
    /// greedy under the byte budget in the sparse modes, fixed in the
    /// dense mode.
    pub open spec fn spec_x_len(&self, g: Graph, nf: Option<&NodeFeatures>, start_i: int) -> int {
        match self.running_mode {
            RunningMode::Dense => (self.input_buffer_size as int / 2) / (self.spec_input_dim(g)
                * 4),
            _ => sparse_x_len(
                *nf->Some_0,
                start_i,
                g.num_nodes() as int,
                0,
                self.input_buffer_size as int / 2,
            ),
        }
    }

    /// What `next` needs of the iterator, the graph and the features:
    /// ranges inside the graph, layer indices inside the hidden-size
    /// table, and buffers that fit at least one row, so that no tile
    /// is ever impossible to build.
    pub open spec fn ctx_wf(&self, g: Graph, nf: Option<&NodeFeatures>) -> bool {
        &&& g.wf()
        &&& self.start_output_index <= self.end_output_index <= g.num_nodes()
        &&& self.task_id.layer_id > 0 ==> self.task_id.layer_id - 1 < self.gcn_hidden_size@.len()
        &&& !self.is_final_layer ==> self.task_id.layer_id < self.gcn_hidden_size@.len()
        &&& self.task_id.input_id <= self.current_window_start_input_index
        &&& match self.running_mode {
            RunningMode::Dense => {
                &&& self.spec_input_dim(g) >= 1
                &&& self.spec_input_dim(g) * 4 <= usize::MAX
                &&& (self.input_buffer_size as int / 2) / (self.spec_input_dim(g) * 4) >= 1
            },
            _ => {
                &&& nf is Some
                &&& nf->Some_0.features@.len() >= g.num_nodes()
                &&& self.input_buffer_size >= 2
                &&& forall|r: int|
                    0 <= r < g.num_nodes() ==> #[trigger] feat_bytes(*nf->Some_0, r)
                        <= self.input_buffer_size as int / 2
            },
        }
    }

    /// Yield the next input tile of this output tile.
    ///
    /// `None` exactly when every remaining input row is empty on the
    /// output range.  Otherwise the tile starts at the first non-empty
    /// row, spans the sized extent shrunk back over trailing empty
    /// rows, carries one exact ordered task set per output row, and is
    /// flagged `is_last_row` exactly when no later row contributes to
    /// this output tile.
    pub fn next(&mut self, graph: &Graph, node_features: Option<&NodeFeatures>) -> (r: Option<
        InputWindow,
    >)
        requires
            old(self).ctx_wf(*graph, node_features),
        ensures
            final(self).ctx_wf(*graph, node_features),
            final(self).start_output_index == old(self).start_output_index,
            final(self).end_output_index == old(self).end_output_index,
            final(self).input_buffer_size == old(self).input_buffer_size,
            final(self).gcn_hidden_size == old(self).gcn_hidden_size,
            final(self).is_final_iter == old(self).is_final_iter,
            final(self).is_final_layer == old(self).is_final_layer,
            final(self).running_mode == old(self).running_mode,
            final(self).task_id.layer_id == old(self).task_id.layer_id,
            final(self).task_id.output_id == old(self).task_id.output_id,
            (r is None) <==> rows_empty(
                *graph,
                old(self).start_output_index,
                old(self).end_output_index,
                old(self).current_window_start_input_index as int,
                graph.num_nodes() as int,
            ),
            r is None ==> final(self).current_window_start_input_index >= graph.num_nodes()
                && (final(self).current_window_start_input_index == graph.num_nodes() || final(
                self).current_window_start_input_index == old(
                self).current_window_start_input_index)
                && final(self).task_id == old(self).task_id
                && final(self).current_window_end_input_index == old(
                self,
            ).current_window_end_input_index,
            r is Some ==> {
                let w = r->Some_0;
                let so = old(self).start_output_index;
                let eo = old(self).end_output_index;
                let num = graph.num_nodes() as int;
                let si = w.start_input_index as int;
                let xl = old(self).spec_x_len(*graph, node_features, si);
                let cap = if si + xl >= num {
                    num
                } else {
                    si + xl
                };
                let ei = w.end_input_index as int;
                &&& w.wf(*graph)
                &&& w.start_output_index == so
                &&& w.end_output_index == eo
                &&& old(self).current_window_start_input_index <= si < num
                &&& rows_empty(
                    *graph,
                    so,
                    eo,
                    old(self).current_window_start_input_index as int,
                    si,
                )
                &&& !row_empty(*graph, so, eo, si)
                &&& si < ei <= cap
                &&& !row_empty(*graph, so, eo, ei - 1)
                &&& rows_empty(*graph, so, eo, ei, cap)
                &&& w.is_last_row == rows_empty(*graph, so, eo, cap, num)
                &&& w.task_id == old(self).task_id
                &&& w.output_window.start_output_index == so
                &&& w.output_window.end_output_index == eo
                &&& w.output_window.task_id == old(self).task_id
                &&& w.output_window.output_node_dim == old(self).spec_output_dim()
                &&& w.output_window.input_node_dim == old(self).spec_input_dim(*graph)
                &&& w.output_window.is_final_window == old(self).is_final_iter
                &&& w.output_window.is_final_layer == old(self).is_final_layer
                &&& w.output_window.last_row_completed == w.is_last_row
                &&& final(self).current_window_end_input_index == ei
                &&& cap <= final(self).current_window_start_input_index <= num
                &&& rows_empty(
                    *graph,
                    so,
                    eo,
                    cap,
                    final(self).current_window_start_input_index as int,
                )
                &&& rows_empty(
                    *graph,
                    so,
                    eo,
                    ei,
                    final(self).current_window_start_input_index as int,
                )
                &&& (final(self).current_window_start_input_index < graph.num_nodes()
                    ==> !row_empty(
                    *graph,
                    so,
                    eo,
                    final(self).current_window_start_input_index as int,
                ))
                &&& (w.is_last_row <==> final(self).current_window_start_input_index
                    == graph.num_nodes())
                &&& final(self).task_id.input_id == old(self).task_id.input_id + 1
            },
    {
        let num = graph.get_num_node();
        if self.current_window_start_input_index >= num {
            return None;
        }
        // skip the rows with no edge into the output range
        let start_i = first_nonempty_row(
            graph,
            self.start_output_index,
            self.end_output_index,
            self.current_window_start_input_index,
        );
        self.current_window_start_input_index = start_i;
        if start_i == num {
            return None;
        }
        let input_node_dim = if self.task_id.layer_id == 0 {
            graph.get_feature_size()
        } else {
            self.gcn_hidden_size[self.task_id.layer_id - 1]
        };
        let output_node_dim = if self.is_final_layer {
            1
        } else {
            self.gcn_hidden_size[self.task_id.layer_id]
        };
        // size the tile
        let budget = self.input_buffer_size / 2;
        let mut x_len: usize = 0;
        match self.running_mode {
            RunningMode::Sparse | RunningMode::Mixed => {
                let nf = match node_features {
                    Some(nf) => nf,
                    None => {
                        proof {
                            assert(false);
                        }
                        return None;
                    },
                };
                let mut x_size: usize = 0;
                let mut done = false;
                while !done
                    invariant
                        graph.wf(),
                        nf.features@.len() >= graph.num_nodes(),
                        num == graph.num_nodes(),
                        start_i < num,
                        budget == self.input_buffer_size as int / 2,
                        forall|r: int|
                            0 <= r < num ==> #[trigger] feat_bytes(*nf, r) <= budget,
                        x_len <= num - start_i,
                        0 <= x_size <= budget,
                        sparse_x_len(*nf, start_i as int, num as int, 0, budget as int) == x_len
                            + sparse_x_len(
                            *nf,
                            start_i + x_len,
                            num as int,
                            x_size as int,
                            budget as int,
                        ),
                        done ==> sparse_x_len(
                            *nf,
                            start_i + x_len,
                            num as int,
                            x_size as int,
                            budget as int,
                        ) == 0,
                    decreases 2 * (num - start_i - x_len) + (if done {
                        0int
                    } else {
                        1int
                    }),
                {
                    if x_size >= budget || x_len >= num - start_i {
                        done = true;
                    } else {
                        let new_size = nf.get_features(start_i + x_len).len() * 4;
                        if x_size + new_size > budget {
                            done = true;
                        } else {
                            x_size += new_size;
                            x_len += 1;
                        }
                    }
                }
            },
            RunningMode::Dense => {
                x_len = budget / (input_node_dim * 4);
            },
        }
        proof {
            assert(x_len >= 1) by {
                if self.running_mode != RunningMode::Dense {
                    let nf0 = *node_features->Some_0;
                    assert(sparse_x_len(nf0, start_i as int, num as int, 0, budget as int) >= 1)
                        by {
                        assert(feat_bytes(nf0, start_i as int) <= budget);
                        lemma_sparse_x_len_nonneg(
                            nf0,
                            start_i + 1,
                            num as int,
                            feat_bytes(nf0, start_i as int),
                            budget as int,
                        );
                    };
                }
            };
        }
        // cap the extent at the graph's end, then pull the end back
        // over trailing empty rows
        let cap = if x_len >= num - start_i {
            num
        } else {
            start_i + x_len
        };
        let end_i = shrink_empty_end(graph, self.start_output_index, self.end_output_index, start_i, cap);
        self.current_window_end_input_index = end_i;
        // one ordered task view per output row
        let csc = graph.get_csc();
        let mut tasks: Vec<Vec<usize>> = Vec::new();
        let mut i = self.start_output_index;
        while i < self.end_output_index
            invariant
                graph.wf(),
                csc == graph.csc(),
                self.start_output_index <= i <= self.end_output_index <= graph.num_nodes(),
                tasks@.len() == i - self.start_output_index,
                forall|k: int|
                    0 <= k < tasks@.len() ==> sorted_strict((#[trigger] tasks@[k])@),
                forall|k: int, x: usize|
                    0 <= k < tasks@.len() ==> ((#[trigger] tasks@[k]@.contains(x)) <==> graph.edge(
                        (self.start_output_index + k) as usize,
                        x,
                    ) && start_i <= x < end_i),
            decreases self.end_output_index - i,
        {
            let task = csc[i].range_values(start_i, end_i);
            proof {
                assert forall|x: usize| #[trigger]
                    task@.contains(x) <==> graph.edge(i, x) && start_i <= x < end_i by {}
            }
            tasks.push(task);
            i += 1;
        }
        // the tile is last when no later row feeds this output tile
        let next_start_row = first_nonempty_row(
            graph,
            self.start_output_index,
            self.end_output_index,
            cap,
        );
        let is_last_row = next_start_row == num;
        let task_id = self.task_id;
        let range_index = RangeIndex {
            start_input_index: start_i,
            end_input_index: end_i,
            start_output_index: self.start_output_index,
            end_output_index: self.end_output_index,
        };
        let output_window = OutputWindow::new(
            self.start_output_index,
            self.end_output_index,
            task_id,
            output_node_dim,
            input_node_dim,
            self.is_final_iter,
            self.is_final_layer,
            is_last_row,
        );
        let current_window = InputWindow::new(
            task_id,
            tasks,
            range_index,
            output_window,
            is_last_row,
        );
        self.current_window_start_input_index = next_start_row;
        self.task_id.input_id = self.task_id.input_id + 1;
        Some(current_window)
    }
}


/// Run one inner iterator dry and return everything it emitted.
/// The result provably forms a complete tile chain, so the union and
/// last-row laws below apply to every tile sequence the generator
/// actually produces.
pub fn collect_tile(
    it: &mut InputWindowIterator,
    graph: &Graph,
    node_features: Option<&NodeFeatures>,
) -> (ws: Vec<InputWindow>)
    requires
        old(it).ctx_wf(*graph, node_features),
        old(it).current_window_start_input_index == 0,
    ensures
        tile_chain(*graph, old(it).start_output_index, old(it).end_output_index, ws@),
        final(it).start_output_index == old(it).start_output_index,
        final(it).end_output_index == old(it).end_output_index,
        final(it).current_window_start_input_index >= graph.num_nodes(),
        ws@.len() == 0 ==> rows_empty(
            *graph,
            old(it).start_output_index,
            old(it).end_output_index,
            0,
            graph.num_nodes() as int,
        ),
{
    let ghost so = it.start_output_index;
    let ghost eo = it.end_output_index;
    let mut ws: Vec<InputWindow> = Vec::new();
    let mut done = false;
    while !done
        invariant
            it.ctx_wf(*graph, node_features),
            it.start_output_index == so,
            it.end_output_index == eo,
            forall|i: int| 0 <= i < ws@.len() ==> (#[trigger] ws@[i]).wf(*graph),
            forall|i: int| 0 <= i < ws@.len() ==> (#[trigger] ws@[i]).start_output_index == so,
            forall|i: int| 0 <= i < ws@.len() ==> (#[trigger] ws@[i]).end_output_index == eo,
            forall|i: int|
                0 <= i < ws@.len() ==> (#[trigger] ws@[i]).start_input_index < ws@[
                    i
                ].end_input_index,
            forall|i: int|
                0 <= i < ws@.len() ==> !row_empty(
                    *graph,
                    so,
                    eo,
                    (#[trigger] ws@[i]).start_input_index as int,
                ),
            forall|i: int|
                0 <= i < ws@.len() ==> ((#[trigger] ws@[i]).is_last_row <==> rows_empty(
                    *graph,
                    so,
                    eo,
                    ws@[i].end_input_index as int,
                    graph.num_nodes() as int,
                )),
            forall|i: int|
                0 <= i < ws@.len() - 1 ==> (#[trigger] ws@[i]).end_input_index <= ws@[i
                    + 1].start_input_index,
            forall|i: int|
                0 <= i < ws@.len() - 1 ==> rows_empty(
                    *graph,
                    so,
                    eo,
                    (#[trigger] ws@[i]).end_input_index as int,
                    ws@[i + 1].start_input_index as int,
                ),
            ws@.len() > 0 ==> rows_empty(*graph, so, eo, 0, ws@[0].start_input_index as int),
            it.current_window_start_input_index <= graph.num_nodes(),
            ws@.len() == 0 && !done ==> it.current_window_start_input_index == 0,
            ws@.len() > 0 ==> ws@[ws@.len() - 1].end_input_index
                <= it.current_window_start_input_index,
            ws@.len() > 0 ==> rows_empty(
                *graph,
                so,
                eo,
                ws@[ws@.len() - 1].end_input_index as int,
                it.current_window_start_input_index as int,
            ),
            done ==> tile_chain(*graph, so, eo, ws@),
            done ==> it.current_window_start_input_index >= graph.num_nodes(),
            done && ws@.len() == 0 ==> rows_empty(*graph, so, eo, 0, graph.num_nodes() as int),
        decreases 2 * (graph.num_nodes() - it.current_window_start_input_index) + (if done {
            0int
        } else {
            1int
        }),
    {
        let ghost pre = *it;
        match it.next(graph, node_features) {
            Some(w) => {
                let ghost prev = ws@;
                ws.push(w);
                proof {
                    assert forall|i: int|
                        0 <= i < ws@.len() - 1 implies (#[trigger] ws@[i]).end_input_index <= ws@[
                        i + 1].start_input_index by {
                        if i < prev.len() - 1 {
                            assert(ws@[i] == prev[i] && ws@[i + 1] == prev[i + 1]);
                        } else {
                            assert(ws@[i] == prev[prev.len() - 1] && ws@[i + 1] == w);
                        }
                    };
                    assert forall|i: int|
                        0 <= i < ws@.len() - 1 implies rows_empty(
                        *graph,
                        so,
                        eo,
                        (#[trigger] ws@[i]).end_input_index as int,
                        ws@[i + 1].start_input_index as int,
                    ) by {
                        if i < prev.len() - 1 {
                            assert(ws@[i] == prev[i] && ws@[i + 1] == prev[i + 1]);
                        } else {
                            assert(ws@[i] == prev[prev.len() - 1] && ws@[i + 1] == w);
                            assert(rows_empty(
                                *graph,
                                so,
                                eo,
                                ws@[i].end_input_index as int,
                                pre.current_window_start_input_index as int,
                            ));
                            assert(rows_empty(
                                *graph,
                                so,
                                eo,
                                pre.current_window_start_input_index as int,
                                w.start_input_index as int,
                            ));
                        }
                    };
                    assert(w.is_last_row <==> rows_empty(
                        *graph,
                        so,
                        eo,
                        w.end_input_index as int,
                        graph.num_nodes() as int,
                    )) by {
                        if w.is_last_row {
                            assert(it.current_window_start_input_index == graph.num_nodes());
                        } else {
                            assert((it.current_window_start_input_index as int)
                                < graph.num_nodes() as int);
                            assert(!row_empty(
                                *graph,
                                so,
                                eo,
                                it.current_window_start_input_index as int,
                            ));
                            if rows_empty(
                                *graph,
                                so,
                                eo,
                                w.end_input_index as int,
                                graph.num_nodes() as int,
                            ) {
                                assert(row_empty(
                                    *graph,
                                    so,
                                    eo,
                                    it.current_window_start_input_index as int,
                                ));
                            }
                        }
                    };
                }
            },
            None => {
                proof {
                    if ws@.len() > 0 {
                        let last_ei = ws@[ws@.len() - 1].end_input_index as int;
                        assert(rows_empty(*graph, so, eo, last_ei, graph.num_nodes() as int)) by {
                            assert forall|r: int|
                                last_ei <= r < graph.num_nodes() implies #[trigger] row_empty(
                                *graph,
                                so,
                                eo,
                                r,
                            ) by {
                                if r < pre.current_window_start_input_index {
                                } else {
                                }
                            };
                        };
                    }
                }
                done = true;
            },
        }
    }
    ws
}

/// The facts that hold of the input tiles one inner iterator emits
/// for one output tile, in emission order, once the iterator is
/// exhausted; the leading empty region starts at `lo`.  Every clause
/// is established by the `ensures` of `InputWindowIterator::next`.
pub open spec fn tile_chain_from(
    g: Graph,
    so: usize,
    eo: usize,
    ws: Seq<InputWindow>,
    lo: int,
) -> bool {
    &&& forall|i: int| 0 <= i < ws.len() ==> (#[trigger] ws[i]).wf(g)
    &&& forall|i: int| 0 <= i < ws.len() ==> (#[trigger] ws[i]).start_output_index == so
    &&& forall|i: int| 0 <= i < ws.len() ==> (#[trigger] ws[i]).end_output_index == eo
    &&& forall|i: int|
        0 <= i < ws.len() ==> (#[trigger] ws[i]).start_input_index < ws[i].end_input_index
    &&& forall|i: int|
        0 <= i < ws.len() ==> !row_empty(g, so, eo, (#[trigger] ws[i]).start_input_index as int)
    &&& forall|i: int|
        0 <= i < ws.len() ==> ((#[trigger] ws[i]).is_last_row <==> rows_empty(
            g,
            so,
            eo,
            ws[i].end_input_index as int,
            g.num_nodes() as int,
        ))
    &&& forall|i: int|
        0 <= i < ws.len() - 1 ==> (#[trigger] ws[i]).end_input_index <= ws[i
            + 1].start_input_index
    &&& forall|i: int|
        0 <= i < ws.len() - 1 ==> rows_empty(
            g,
            so,
            eo,
            (#[trigger] ws[i]).end_input_index as int,
            ws[i + 1].start_input_index as int,
        )
    &&& (ws.len() > 0 ==> lo <= ws[0].start_input_index as int && rows_empty(
        g,
        so,
        eo,
        lo,
        ws[0].start_input_index as int,
    ))
    &&& (ws.len() > 0 ==> rows_empty(
        g,
        so,
        eo,
        ws[ws.len() - 1].end_input_index as int,
        g.num_nodes() as int,
    ))
}

/// The complete emission of one output tile: the chain starts at
/// input row zero.
pub open spec fn tile_chain(g: Graph, so: usize, eo: usize, ws: Seq<InputWindow>) -> bool {
    tile_chain_from(g, so, eo, ws, 0)
}

/// The tile ranges are ordered: an earlier tile ends at or before a
/// later tile starts.
proof fn lemma_chain_ordered(
    g: Graph,
    so: usize,
    eo: usize,
    ws: Seq<InputWindow>,
    lo: int,
    i: int,
    j: int,
)
    requires
        tile_chain_from(g, so, eo, ws, lo),
        0 <= i < j < ws.len(),
    ensures
        ws[i].end_input_index <= ws[j].start_input_index,
    decreases j - i,
{
    if j == i + 1 {
    } else {
        lemma_chain_ordered(g, so, eo, ws, lo, i, j - 1);
        assert(ws[j - 1].start_input_index < ws[j - 1].end_input_index);
        assert(ws[j - 1].end_input_index <= ws[j].start_input_index);
    }
}

/// Locates the edge `(so + k, x)` in the chain: since every row
/// outside the tile ranges is empty on the output range, the edge's
/// row must lie inside some tile, whose task set then holds it.
proof fn lemma_task_union_rec(
    g: Graph,
    so: usize,
    eo: usize,
    ws: Seq<InputWindow>,
    lo: int,
    k: int,
    x: usize,
)
    requires
        g.wf(),
        tile_chain_from(g, so, eo, ws, lo),
        ws.len() > 0,
        0 <= k,
        so + k < eo,
        eo <= g.num_nodes(),
        g.edge((so + k) as usize, x),
        lo <= x < g.num_nodes(),
    ensures
        exists|i: int| 0 <= i < ws.len() && (#[trigger] ws[i]).tasks@[k]@.contains(x),
    decreases ws.len(),
{
    let w0 = ws[0];
    g.lemma_row_range_empty_meaning(x, so, eo);
    assert(!row_empty(g, so, eo, x as int)) by {
        assert(so <= ((so + k) as usize) < eo && g.edge((so + k) as usize, x));
    };
    if (x as int) < w0.end_input_index {
        assert(w0.start_input_index <= x) by {
            if (x as int) < w0.start_input_index {
                assert(row_empty(g, so, eo, x as int));
            }
        };
        assert(w0.tasks@[k]@.contains(x)) by {
            assert(w0.tasks@.len() == eo - so);
        };
    } else {
        if ws.len() == 1 {
            assert(row_empty(g, so, eo, x as int));
            assert(false);
        } else {
            let tail = ws.subrange(1, ws.len() as int);
            assert(tile_chain_from(g, so, eo, tail, w0.end_input_index as int)) by {
                assert forall|i: int| 0 <= i < tail.len() implies (#[trigger] tail[i]) == ws[i + 1]
                    by {}
            };
            assert(w0.end_input_index <= x);
            lemma_task_union_rec(g, so, eo, tail, w0.end_input_index as int, k, x);
            let i = choose|i: int| 0 <= i < tail.len() && (#[trigger] tail[i]).tasks@[k]@.contains(
                x,
            );
            assert(ws[i + 1].tasks@[k]@.contains(x));
        }
    }
}

/// Law: across the input tiles of one output tile, the union of the
/// task sets of output row `so + k` is exactly the column's edge set,
/// with no edge appearing in two tiles: nothing lost, nothing
/// duplicated.
pub proof fn lemma_task_union(g: Graph, so: usize, eo: usize, ws: Seq<InputWindow>, k: int, x: usize)
    requires
        g.wf(),
        tile_chain(g, so, eo, ws),
        ws.len() > 0,
        0 <= k,
        so + k < eo,
        eo <= g.num_nodes(),
    ensures
        (exists|i: int| 0 <= i < ws.len() && (#[trigger] ws[i]).tasks@[k]@.contains(x)) <==> g.edge(
            (so + k) as usize,
            x,
        ),
        forall|i: int, j: int|
            0 <= i < ws.len() && 0 <= j < ws.len() && (#[trigger] ws[i]).tasks@[k]@.contains(x) && (
            #[trigger] ws[j]).tasks@[k]@.contains(x) ==> i == j,
{
    if exists|i: int| 0 <= i < ws.len() && (#[trigger] ws[i]).tasks@[k]@.contains(x) {
        let i = choose|i: int| 0 <= i < ws.len() && (#[trigger] ws[i]).tasks@[k]@.contains(x);
        assert(ws[i].tasks@.len() == eo - so);
        assert(g.edge((so + k) as usize, x));
    }
    if g.edge((so + k) as usize, x) {
        assert((x as nat) < g.num_nodes()) by {
            assert(g.csc()@[(so + k) as int]@.contains(x));
        };
        lemma_task_union_rec(g, so, eo, ws, 0, k, x);
    }
    assert forall|i: int, j: int|
        0 <= i < ws.len() && 0 <= j < ws.len() && (#[trigger] ws[i]).tasks@[k]@.contains(x) && (
        #[trigger] ws[j]).tasks@[k]@.contains(x) implies i == j by {
        if i < j {
            lemma_chain_ordered(g, so, eo, ws, 0, i, j);
            assert(ws[i].tasks@.len() == eo - so);
            assert((x as int) < ws[i].end_input_index);
            assert(ws[j].start_input_index <= x);
            assert(false);
        }
        if j < i {
            lemma_chain_ordered(g, so, eo, ws, 0, j, i);
            assert(ws[j].tasks@.len() == eo - so);
            assert((x as int) < ws[j].end_input_index);
            assert(ws[i].start_input_index <= x);
            assert(false);
        }
    };
}

/// Law: exactly one input tile per output tile carries
/// `is_last_row`, and it is the one emitted last.
pub proof fn lemma_exactly_one_last_row(g: Graph, so: usize, eo: usize, ws: Seq<InputWindow>)
    requires
        g.wf(),
        tile_chain(g, so, eo, ws),
    ensures
        forall|i: int| 0 <= i < ws.len() ==> ((#[trigger] ws[i]).is_last_row <==> i == ws.len() - 1),
{
    assert forall|i: int|
        0 <= i < ws.len() implies ((#[trigger] ws[i]).is_last_row <==> i == ws.len() - 1) by {
        if i == ws.len() - 1 {
            assert(rows_empty(g, so, eo, ws[i].end_input_index as int, g.num_nodes() as int));
        } else {
            let sj = ws[i + 1].start_input_index;
            assert(!row_empty(g, so, eo, sj as int));
            assert(ws[i].end_input_index <= sj);
            assert((sj as int) < g.num_nodes()) by {
                assert(ws[i + 1].start_input_index < ws[i + 1].end_input_index);
                assert(ws[i + 1].wf(g));
            };
            assert(!rows_empty(g, so, eo, ws[i].end_input_index as int, g.num_nodes() as int)) by {
                if rows_empty(g, so, eo, ws[i].end_input_index as int, g.num_nodes() as int) {
                    assert(row_empty(g, so, eo, sj as int));
                }
            };
        }
    };
}

} // verus!
