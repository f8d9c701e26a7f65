//! Per-layer node features in compressed-row form: for each node the
//! ordered list of its nonzero column indices, plus the byte offset of
//! each node's payload in memory (four bytes per nonzero), with a
//! final sentinel equal to the total byte count.

use vstd::prelude::*;
use vstd::slice::slice_subrange;

verus! {

/// The indices of the nonzero entries of a dense row, in increasing
/// order.
pub open spec fn sparse_of(row: Seq<usize>) -> Seq<usize>
    decreases row.len(),
{
    if row.len() == 0 {
        Seq::empty()
    } else if row.last() != 0 {
        sparse_of(row.drop_last()).push((row.len() - 1) as usize)
    } else {
        sparse_of(row.drop_last())
    }
}

/// The dense 0/1 row of width `width` whose nonzero positions are the
/// members of `s`.
pub open spec fn dense_of(s: Seq<usize>, width: nat) -> Seq<usize> {
    Seq::new(
        width,
        |i: int|
            if s.contains(i as usize) {
                1usize
            } else {
                0usize
            },
    )
}

/// What the sparse form of a row holds: exactly the in-range positions
/// with a nonzero value, in strictly increasing order, never more
/// entries than the row has.
pub proof fn lemma_sparse_of_props(row: Seq<usize>)
    requires
        row.len() <= usize::MAX,
    ensures
        crate::nodeset::sorted_strict(sparse_of(row)),
        sparse_of(row).len() <= row.len(),
        forall|k: int|
            0 <= k < sparse_of(row).len() ==> (#[trigger] sparse_of(row)[k] as int) < row.len(),
        forall|x: usize|
            (#[trigger] sparse_of(row).contains(x)) <==> (x as int) < row.len() && row[x as int]
                != 0,
    decreases row.len(),
{
    if row.len() == 0 {
    } else {
        let prev = row.drop_last();
        lemma_sparse_of_props(prev);
        let s = sparse_of(row);
        let sp = sparse_of(prev);
        assert forall|x: usize|
            (#[trigger] s.contains(x)) <==> (x as int) < row.len() && row[x as int] != 0 by {
            if row.last() != 0 {
                assert(s =~= sp.push((row.len() - 1) as usize));
                if s.contains(x) {
                    let k = choose|k: int| 0 <= k < s.len() && s[k] == x;
                    if k < sp.len() {
                        assert(sp[k] == x);
                        assert(sp.contains(x));
                        assert(prev[x as int] == row[x as int]);
                    }
                } else {
                    if (x as int) < row.len() && row[x as int] != 0 {
                        if (x as int) < row.len() - 1 {
                            assert(prev[x as int] == row[x as int]);
                            assert(sp.contains(x));
                            let k = choose|k: int| 0 <= k < sp.len() && sp[k] == x;
                            assert(s[k] == x);
                            assert(false);
                        } else {
                            assert(s.last() == x);
                            assert(false);
                        }
                    }
                }
            } else {
                assert(s =~= sp);
                if s.contains(x) {
                    assert(prev[x as int] == row[x as int]);
                } else {
                    if (x as int) < row.len() && row[x as int] != 0 {
                        assert((x as int) < row.len() - 1);
                        assert(prev[x as int] == row[x as int]);
                        assert(sp.contains(x));
                    }
                }
            }
        };
        if row.last() != 0 {
            assert(s =~= sp.push((row.len() - 1) as usize));
            assert forall|i: int, j: int| 0 <= i < j < s.len() implies s[i] < s[j] by {
                if j < sp.len() {
                } else {
                    assert(s[j] == (row.len() - 1) as usize);
                    assert((sp[i] as int) < prev.len());
                }
            };
        }
    }
}

/// Re-reading the dense form of a sparse row gives the sparse row
/// back: the round trip through the 0/1 text form is the identity on
/// well-formed rows.
pub proof fn lemma_sparse_dense_round_trip(s: Seq<usize>, width: nat)
    requires
        width <= usize::MAX,
        crate::nodeset::sorted_strict(s),
        forall|k: int| 0 <= k < s.len() ==> (#[trigger] s[k] as nat) < width,
    ensures
        sparse_of(dense_of(s, width)) =~= s,
    decreases width,
{
    let d = dense_of(s, width);
    if width == 0 {
        if s.len() > 0 {
            assert((s[0] as nat) < width);
        }
        assert(sparse_of(d) =~= Seq::<usize>::empty());
    } else {
        let wm1 = (width - 1) as nat;
        if s.contains((width - 1) as usize) {
            let k = choose|k: int| 0 <= k < s.len() && s[k] == (width - 1) as usize;
            assert(k == s.len() - 1) by {
                if k < s.len() - 1 {
                    assert(s[k] < s[s.len() - 1]);
                    assert((s[s.len() - 1] as nat) < width);
                }
            };
            assert forall|j: int| 0 <= j < s.len() - 1 implies (#[trigger] s[j] as nat) < wm1 by {
                assert(s[j] < s[k]);
            };
            let s2 = s.drop_last();
            assert forall|j: int| 0 <= j < s2.len() implies (#[trigger] s2[j] as nat) < wm1 by {
                assert(s2[j] == s[j]);
            };
            lemma_sparse_dense_round_trip(s2, wm1);
            assert(d.drop_last() =~= dense_of(s2, wm1)) by {
                assert forall|i: int| 0 <= i < wm1 implies d.drop_last()[i] == dense_of(s2, wm1)[i]
                    by {
                    if s.contains(i as usize) {
                        let m = choose|m: int| 0 <= m < s.len() && s[m] == i as usize;
                        assert(m != s.len() - 1);
                        assert(s2[m] == i as usize);
                        assert(s2.contains(i as usize));
                    } else {
                        if s2.contains(i as usize) {
                            let m = choose|m: int| 0 <= m < s2.len() && s2[m] == i as usize;
                            assert(s[m] == i as usize);
                        }
                    }
                };
            };
            assert(d.last() == 1usize);
            assert(sparse_of(d) =~= sparse_of(d.drop_last()).push((width - 1) as usize));
            assert(s =~= s2.push((width - 1) as usize));
        } else {
            assert forall|j: int| 0 <= j < s.len() implies (#[trigger] s[j] as nat) < wm1 by {
                if s[j] as nat == wm1 {
                    assert(s.contains(s[j]));
                }
            };
            lemma_sparse_dense_round_trip(s, wm1);
            assert(d.drop_last() =~= dense_of(s, wm1));
            assert(d.last() == 0usize);
            assert(sparse_of(d) =~= sparse_of(d.drop_last()));
        }
    }
}

/// Law: the start addresses of a well-formed table are determined by
/// its rows — two well-formed tables with the same rows carry the
/// same addresses, so restoring the rows restores the addresses too.
pub proof fn lemma_start_addrs_determined(a: NodeFeatures, b: NodeFeatures)
    requires
        a.wf(),
        b.wf(),
        a.features@.len() == b.features@.len(),
        forall|i: int|
            0 <= i < a.features@.len() ==> (#[trigger] a.features@[i])@ == b.features@[i]@,
    ensures
        a.start_addrs@ == b.start_addrs@,
{
    assert forall|i: int| 0 <= i < a.start_addrs@.len() implies #[trigger] a.start_addrs@[i]
        == b.start_addrs@[i] by {
        lemma_start_addr_at(a, b, i);
    };
    assert(a.start_addrs@ =~= b.start_addrs@);
}

proof fn lemma_start_addr_at(a: NodeFeatures, b: NodeFeatures, i: int)
    requires
        a.wf(),
        b.wf(),
        a.features@.len() == b.features@.len(),
        forall|j: int|
            0 <= j < a.features@.len() ==> (#[trigger] a.features@[j])@ == b.features@[j]@,
        0 <= i < a.start_addrs@.len(),
    ensures
        a.start_addrs@[i] == b.start_addrs@[i],
    decreases i,
{
    if i > 0 {
        lemma_start_addr_at(a, b, i - 1);
        assert(a.start_addrs@[(i - 1) + 1] as int == a.start_addrs@[i - 1] as int + 4
            * a.features@[i - 1]@.len());
        assert(b.start_addrs@[(i - 1) + 1] as int == b.start_addrs@[i - 1] as int + 4
            * b.features@[i - 1]@.len());
        assert(a.features@[i - 1]@ == b.features@[i - 1]@);
    }
}

/// Four bytes per nonzero, summed over the rows `[i, rows.len())`:
/// an upper bound used to keep the address arithmetic in range.
pub open spec fn bytes_upper_from(rows: Seq<Vec<usize>>, i: int) -> int
    decreases rows.len() - i,
{
    if i < 0 || i >= rows.len() {
        0
    } else {
        4 * rows[i]@.len() + bytes_upper_from(rows, i + 1)
    }
}

#[derive(Debug, Clone)]
pub struct NodeFeatures {
    pub features: Vec<Vec<usize>>,
    pub start_addrs: Vec<u64>,
}

impl NodeFeatures {
    /// Structural invariant: one start address per node plus the
    /// sentinel, starting at zero, each step four bytes per nonzero of
    /// its node, every row strictly sorted.
    pub open spec fn wf(&self) -> bool {
        &&& self.start_addrs@.len() == self.features@.len() + 1
        &&& self.start_addrs@[0] == 0u64
        &&& forall|i: int|
            0 <= i < self.features@.len() ==> (#[trigger] self.start_addrs@[i + 1]) as int
                == self.start_addrs@[i] as int + 4 * self.features@[i]@.len()
        &&& forall|i: int|
            0 <= i < self.features@.len() ==> crate::nodeset::sorted_strict(
                (#[trigger] self.features@[i])@,
            )
    }

    /// The compressed form of one dense 0/1 row: the indices of its
    /// nonzero entries, in order.
    pub fn sparse_row(row: &Vec<usize>) -> (r: Vec<usize>)
        ensures
            r@ == sparse_of(row@),
    {
        let mut r: Vec<usize> = Vec::new();
        let mut i: usize = 0;
        while i < row.len()
            invariant
                i <= row@.len(),
                r@ == sparse_of(row@.subrange(0, i as int)),
            decreases row@.len() - i,
        {
            proof {
                assert(row@.subrange(0, i + 1).drop_last() =~= row@.subrange(0, i as int));
                assert(row@.subrange(0, i + 1).last() == row@[i as int]);
            }
            if row[i] != 0 {
                r.push(i);
            }
            i += 1;
        }
        proof {
            assert(row@.subrange(0, row@.len() as int) =~= row@);
        }
        r
    }

    /// Build the compressed features from one dense 0/1 row per node.
    pub fn from_dense(rows: &Vec<Vec<usize>>) -> (r: NodeFeatures)
        requires
            bytes_upper_from(rows@, 0) <= u64::MAX,
        ensures
            r.wf(),
            r.features@.len() == rows@.len(),
            forall|i: int| 0 <= i < rows@.len() ==> (#[trigger] r.features@[i])@ == sparse_of(
                rows@[i]@,
            ),
    {
        let mut features: Vec<Vec<usize>> = Vec::new();
        let mut start_addrs: Vec<u64> = Vec::new();
        let mut acc: u64 = 0;
        start_addrs.push(0);
        let mut i: usize = 0;
        while i < rows.len()
            invariant
                i <= rows@.len(),
                features@.len() == i,
                start_addrs@.len() == i + 1,
                start_addrs@[0] == 0u64,
                start_addrs@[i as int] == acc,
                acc as int + bytes_upper_from(rows@, i as int) <= u64::MAX,
                forall|k: int|
                    0 <= k < i ==> (#[trigger] start_addrs@[k + 1]) as int == start_addrs@[k] as int
                        + 4 * features@[k]@.len(),
                forall|k: int| 0 <= k < i ==> (#[trigger] features@[k])@ == sparse_of(rows@[k]@),
                forall|k: int|
                    0 <= k < i ==> crate::nodeset::sorted_strict((#[trigger] features@[k])@),
            decreases rows@.len() - i,
        {
            let row = &rows[i];
            let row_len = row.len();
            let sparse = Self::sparse_row(row);
            proof {
                assert(row@.len() == row_len);
                lemma_sparse_of_props(row@);
                assert(sparse@.len() <= row@.len());
                assert(bytes_upper_from(rows@, i as int) == 4 * row@.len() + bytes_upper_from(
                    rows@,
                    i + 1,
                ));
                assert(bytes_upper_from(rows@, i + 1) >= 0) by {
                    Self::lemma_bytes_upper_nonneg(rows@, i + 1);
                };
            }
            let step = (sparse.len() as u64) * 4;
            acc = acc + step;
            features.push(sparse);
            start_addrs.push(acc);
            i += 1;
        }
        NodeFeatures { features, start_addrs }
    }

    /// The byte-count bound is never negative.
    proof fn lemma_bytes_upper_nonneg(rows: Seq<Vec<usize>>, i: int)
        ensures
            bytes_upper_from(rows, i) >= 0,
        decreases rows.len() - i,
    {
        if 0 <= i < rows.len() {
            Self::lemma_bytes_upper_nonneg(rows, i + 1);
        }
    }

    pub fn get_features(&self, node_id: usize) -> (r: &Vec<usize>)
        requires
            node_id < self.features@.len(),
        ensures
            r == self.features@[node_id as int],
    {
        &self.features[node_id]
    }

    pub fn len(&self) -> (r: usize)
        ensures
            r == self.features@.len(),
    {
        self.features.len()
    }

    pub fn is_empty(&self) -> (r: bool)
        ensures
            r == (self.features@.len() == 0),
    {
        self.features.is_empty()
    }

    pub fn get_slice(&self, start: usize, end: usize) -> (r: &[Vec<usize>])
        requires
            start <= end <= self.features@.len(),
        ensures
            r@ == self.features@.subrange(start as int, end as int),
    {
        slice_subrange(self.features.as_slice(), start, end)
    }
}

} // verus!
