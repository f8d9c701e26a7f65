//! The adjacency structure of the input graph, held in both
//! orientations: `csc[c]` is the ordered set of rows of column `c`,
//! `csr[r]` the ordered set of columns of row `r`.  The row form is
//! derived from the column form when the graph is built.

use vstd::prelude::*;

use crate::error::GcnError;
use crate::nodeset::{range_empty, NodeSet};

verus! {

/// Every set in `v` is well formed and every element is `< n`.
pub open spec fn adjacency_wf(v: Seq<NodeSet>, n: nat) -> bool {
    &&& forall|i: int| 0 <= i < v.len() ==> (#[trigger] v[i]).wf()
    &&& forall|i: int, x: usize|
        0 <= i < v.len() && (#[trigger] v[i]@.contains(x)) ==> (x as nat) < n
}

/// `b` is the transpose of `a`: `b[r]` holds `c` exactly when `a[c]`
/// holds `r`.
pub open spec fn is_transpose(a: Seq<NodeSet>, b: Seq<NodeSet>) -> bool {
    &&& b.len() == a.len()
    &&& forall|r: usize, c: usize|
        (r as nat) < a.len() && (c as nat) < a.len() ==> ((#[trigger] b[r as int]@.contains(c))
            <==> a[c as int]@.contains(r))
}

#[derive(Debug)]
pub struct Graph {
    pub csc: Vec<NodeSet>,
    pub csr: Option<Vec<NodeSet>>,
    pub feature_size: usize,
    pub total_nodes: usize,
}

/// Build the transposed adjacency of `sets`: the result's set `r`
/// holds `c` exactly when `sets[c]` holds `r`.
pub fn transpose(sets: &Vec<NodeSet>, n: usize) -> (r: Vec<NodeSet>)
    requires
        sets@.len() == n,
        adjacency_wf(sets@, n as nat),
    ensures
        r@.len() == n,
        adjacency_wf(r@, n as nat),
        is_transpose(sets@, r@),
{
    let mut r: Vec<NodeSet> = Vec::new();
    let mut i: usize = 0;
    while i < n
        invariant
            i <= n,
            r@.len() == i,
            forall|k: int| 0 <= k < i ==> (#[trigger] r@[k]).wf() && r@[k]@ == Seq::<
                usize,
            >::empty(),
        decreases n - i,
    {
        r.push(NodeSet::new());
        i += 1;
    }
    let mut c: usize = 0;
    while c < n
        invariant
            c <= n,
            sets@.len() == n,
            adjacency_wf(sets@, n as nat),
            r@.len() == n,
            forall|k: int| 0 <= k < n ==> (#[trigger] r@[k]).wf(),
            forall|row: usize, col: usize|
                (row as nat) < n && (col as nat) < c ==> ((#[trigger] r@[row as int]@.contains(
                    col,
                )) <==> sets@[col as int]@.contains(row)),
            forall|row: usize, col: usize|
                (row as nat) < n && (#[trigger] r@[row as int]@.contains(col)) ==> (col as nat)
                    < c,
        decreases n - c,
    {
        let col_set = &sets[c];
        let m = col_set.len();
        let mut k: usize = 0;
        while k < m
            invariant
                k <= m,
                c < n,
                m == col_set@.len(),
                col_set == sets@[c as int],
                sets@.len() == n,
                adjacency_wf(sets@, n as nat),
                r@.len() == n,
                forall|j: int| 0 <= j < n ==> (#[trigger] r@[j]).wf(),
                forall|row: usize, col: usize|
                    (row as nat) < n && (col as nat) < c ==> ((#[trigger] r@[row as int]@.contains(
                        col,
                    )) <==> sets@[col as int]@.contains(row)),
                forall|row: usize|
                    (row as nat) < n ==> ((#[trigger] r@[row as int]@.contains(c)) <==> col_set@
                        .subrange(0, k as int).contains(row)),
                forall|row: usize, col: usize|
                    (row as nat) < n && (#[trigger] r@[row as int]@.contains(col)) ==> (col as nat)
                        <= c,
            decreases m - k,
        {
            let row = col_set.get(k);
            proof {
                assert(col_set@.contains(col_set@[k as int]));
                assert((row as nat) < n);
            }
            let target = &mut r[row];
            target.insert(c);
            proof {
                let ghost rr = r@;
                assert forall|row2: usize|
                    (row2 as nat) < n implies ((#[trigger] rr[row2 as int]@.contains(c))
                    <==> col_set@.subrange(0, k + 1).contains(row2)) by {
                    if row2 == row {
                        assert(rr[row2 as int]@.contains(c));
                        assert(col_set@.subrange(0, k + 1)[k as int] == row);
                    } else {
                        assert(rr[row2 as int] == r@[row2 as int]);
                        if col_set@.subrange(0, k + 1).contains(row2) {
                            let j = choose|j: int|
                                0 <= j < k + 1 && #[trigger] col_set@.subrange(0, k + 1)[j]
                                    == row2;
                            if j < k {
                                assert(col_set@.subrange(0, k as int)[j] == row2);
                            }
                        } else {
                            if col_set@.subrange(0, k as int).contains(row2) {
                                let j = choose|j: int|
                                    0 <= j < k && #[trigger] col_set@.subrange(0, k as int)[j]
                                        == row2;
                                assert(col_set@.subrange(0, k + 1)[j] == row2);
                            }
                        }
                    }
                };
            }
            k += 1;
        }
        proof {
            assert(col_set@.subrange(0, m as int) =~= col_set@);
        }
        c += 1;
    }
    proof {
        assert forall|row: usize, col: usize|
            (row as nat) < n && (col as nat) < n implies ((#[trigger] r@[row as int]@.contains(
            col,
        )) <==> sets@[col as int]@.contains(row)) by {}
    }
    r
}

impl Graph {
    /// Structural invariant: both orientations present, every set
    /// sorted, every index in range, and the row form the transpose of
    /// the column form.
    pub open spec fn wf(&self) -> bool {
        &&& self.csc()@.len() == self.num_nodes()
        &&& adjacency_wf(self.csc()@, self.num_nodes() as nat)
        &&& self.csr() is Some
        &&& self.csr()->Some_0@.len() == self.num_nodes()
        &&& adjacency_wf(self.csr()->Some_0@, self.num_nodes() as nat)
        &&& is_transpose(self.csc()@, self.csr()->Some_0@)
    }

    /// Whether the graph has the edge from input row `r` to output
    /// column `c`.
    pub open spec fn edge(&self, c: usize, r: usize) -> bool {
        (c as nat) < self.csc()@.len() && self.csc()@[c as int]@.contains(r)
    }

    /// Build a graph from one adjacency row list per node: `rows[c]`
    /// holds the input rows of column `c`.  Fails when some index is
    /// not below the node count.
    pub fn from_rows(feature_size: usize, rows: &Vec<Vec<usize>>) -> (r: Result<Graph, GcnError>)
        ensures
            match r {
                Ok(g) => {
                    &&& g.wf()
                    &&& g.num_nodes() == rows@.len()
                    &&& g.feature_size() == feature_size
                    &&& forall|c: int, x: usize|
                        0 <= c < rows@.len() ==> ((#[trigger] g.csc()@[c]@.contains(x)) <==> rows@[
                            c
                        ]@.contains(x))
                    &&& forall|c: int, x: usize|
                        0 <= c < rows@.len() && (#[trigger] rows@[c]@.contains(x)) ==> (
                        x as nat) < rows@.len()
                },
                Err(e) => {
                    &&& e == GcnError::IoError
                    &&& exists|c: int, x: usize|
                        0 <= c < rows@.len() && (#[trigger] rows@[c]@.contains(x)) && (x as nat)
                            >= rows@.len()
                },
            },
    {
        let n = rows.len();
        let mut csc: Vec<NodeSet> = Vec::new();
        let mut c: usize = 0;
        while c < n
            invariant
                c <= n,
                n == rows@.len(),
                csc@.len() == c,
                forall|i: int| 0 <= i < c ==> (#[trigger] csc@[i]).wf(),
                forall|i: int, x: usize|
                    0 <= i < c ==> ((#[trigger] csc@[i]@.contains(x)) <==> rows@[i]@.contains(x)),
                forall|i: int, x: usize|
                    0 <= i < c && (#[trigger] csc@[i]@.contains(x)) ==> (x as nat) < n,
            decreases n - c,
        {
            let row = &rows[c];
            let mut s = NodeSet::new();
            let mut k: usize = 0;
            while k < row.len()
                invariant
                    k <= row@.len(),
                    n == rows@.len(),
                    c < n,
                    row == rows@[c as int],
                    s.wf(),
                    forall|x: usize|
                        (#[trigger] s@.contains(x)) <==> row@.subrange(0, k as int).contains(x),
                    forall|x: usize| (#[trigger] s@.contains(x)) ==> (x as nat) < n,
                decreases row@.len() - k,
            {
                let v = row[k];
                if v >= n {
                    proof {
                        assert(rows@[c as int]@[k as int] == v);
                        assert(rows@[c as int]@.contains(v));
                    }
                    return Err(GcnError::IoError);
                }
                s.insert(v);
                proof {
                    assert forall|x: usize|
                        (#[trigger] s@.contains(x)) <==> row@.subrange(0, k + 1).contains(x) by {
                        if s@.contains(x) {
                            if x == v {
                                assert(row@.subrange(0, k + 1)[k as int] == v);
                            } else {
                                let j = choose|j: int|
                                    0 <= j < k && #[trigger] row@.subrange(0, k as int)[j] == x;
                                assert(row@.subrange(0, k + 1)[j] == x);
                            }
                        } else {
                            if row@.subrange(0, k + 1).contains(x) {
                                let j = choose|j: int|
                                    0 <= j < k + 1 && #[trigger] row@.subrange(0, k + 1)[j] == x;
                                if j < k {
                                    assert(row@.subrange(0, k as int)[j] == x);
                                } else {
                                    assert(x == v);
                                }
                            }
                        }
                    };
                }
                k += 1;
            }
            proof {
                assert(row@.subrange(0, row@.len() as int) =~= row@);
            }
            csc.push(s);
            c += 1;
        }
        proof {
            assert forall|c2: int, x: usize|
                0 <= c2 < rows@.len() && #[trigger] rows@[c2]@.contains(x) implies (x as nat)
                < rows@.len() by {
                assert(csc@[c2]@.contains(x));
            };
        }
        let csr = transpose(&csc, n);
        Ok(Graph { csc, csr: Some(csr), feature_size, total_nodes: n })
    }

    pub fn get_feature_size(&self) -> (r: usize)
        ensures
            r == self.feature_size(),
    {
        self.feature_size
    }

    pub open spec fn feature_size(&self) -> usize {
        self.feature_size
    }

    pub open spec fn csc(&self) -> Vec<NodeSet> {
        self.csc
    }

    /// The node count, for use in contracts: definitionally the
    /// public `total_nodes` field.
    pub open spec fn num_nodes(&self) -> usize {
        self.total_nodes
    }

    pub open spec fn csr(&self) -> Option<Vec<NodeSet>> {
        self.csr
    }

    pub fn get_csc(&self) -> (r: &Vec<NodeSet>)
        ensures
            r == self.csc(),
    {
        &self.csc
    }

    pub fn get_csr(&self) -> (r: &Option<Vec<NodeSet>>)
        ensures
            r == self.csr(),
    {
        &self.csr
    }

    pub fn get_num_node(&self) -> (r: usize)
        ensures
            r == self.num_nodes(),
    {
        self.total_nodes
    }

    /// Whether input row `i` has no edge into any output column of
    /// `[start, end)`, answered from the row orientation in
    /// logarithmic time.
    pub fn is_row_range_empty(&self, i: usize, start: usize, end: usize) -> (r: Result<
        bool,
        GcnError,
    >)
        requires
            self.wf(),
        ensures
            match r {
                Ok(b) => i < self.num_nodes() && b == range_empty(
                    self.csr()->Some_0@[i as int]@,
                    start,
                    end,
                ),
                Err(e) => i >= self.num_nodes() && e == GcnError::InvalidConfig,
            },
    {
        match &self.csr {
            Some(csr) => {
                if i < csr.len() {
                    Ok(csr[i].is_range_empty(start, end))
                } else {
                    Err(GcnError::InvalidConfig)
                }
            },
            None => Err(GcnError::InvalidConfig),
        }
    }

    /// The empty-row test agrees with the edge relation: row `i` is
    /// empty on `[start, end)` exactly when no column there has the
    /// edge from `i`.
    pub proof fn lemma_row_range_empty_meaning(&self, i: usize, start: usize, end: usize)
        requires
            self.wf(),
            i < self.num_nodes(),
        ensures
            range_empty(self.csr()->Some_0@[i as int]@, start, end) <==> !(exists|c: usize|
                start <= c < end && self.edge(c, i)),
    {
        let row = self.csr()->Some_0@[i as int]@;
        if exists|c: usize| start <= c < end && self.edge(c, i) {
            let c = choose|c: usize| start <= c < end && self.edge(c, i);
            assert(self.csr()->Some_0@[i as int]@.contains(c));
            let k = choose|k: int| 0 <= k < row.len() && row[k] == c;
            assert(!range_empty(row, start, end));
        }
        if !range_empty(row, start, end) {
            let k = choose|k: int| 0 <= k < row.len() && start <= #[trigger] row[k] < end;
            let c = row[k];
            assert(self.csr()->Some_0@[i as int]@.contains(c));
            assert((c as nat) < self.num_nodes());
            assert(self.edge(c, i));
        }
    }

    /// Transposing twice restores the original edge sets: the round
    /// trip from columns to rows and back loses and invents nothing.
    pub proof fn lemma_csr_round_trip(a: Seq<NodeSet>, b: Seq<NodeSet>, a2: Seq<NodeSet>, n: nat)
        requires
            a.len() == n,
            n <= usize::MAX,
            adjacency_wf(a, n),
            adjacency_wf(b, n),
            adjacency_wf(a2, n),
            is_transpose(a, b),
            is_transpose(b, a2),
        ensures
            forall|c: usize, x: usize|
                (c as nat) < n ==> ((#[trigger] a2[c as int]@.contains(x)) <==> a[c as int]@
                    .contains(x)),
    {
        assert forall|c: usize, x: usize|
            (c as nat) < n implies ((#[trigger] a2[c as int]@.contains(x)) <==> a[c as int]@
            .contains(x)) by {
            if a2[c as int]@.contains(x) {
                assert((x as nat) < n);
                assert(b[x as int]@.contains(c));
                assert(a[c as int]@.contains(x));
            } else {
                if a[c as int]@.contains(x) {
                    assert((x as nat) < n);
                    assert(b[x as int]@.contains(c));
                    assert(a2[c as int]@.contains(x));
                }
            }
        };
    }
}

} // verus!
