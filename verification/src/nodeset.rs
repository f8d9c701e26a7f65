//! An ordered set of node indices.
//!
//! The graph's adjacency columns and rows are held in this type: a
//! strictly sorted vector, so that membership, range-emptiness and
//! range extraction run in logarithmic time plus the size of the
//! answer.

use vstd::prelude::*;

verus! {

/// A strictly increasing sequence: sortedness plus distinctness in one.
pub open spec fn sorted_strict(s: Seq<usize>) -> bool {
    forall|i: int, j: int| 0 <= i < j < s.len() ==> s[i] < s[j]
}

/// No element of `s` lies in the half-open interval `[start, end)`.
pub open spec fn range_empty(s: Seq<usize>, start: usize, end: usize) -> bool {
    forall|k: int| 0 <= k < s.len() ==> !(start <= #[trigger] s[k] < end)
}

/// Index of the first element of the sorted vector that is `>= x`;
/// `len` when every element is smaller.  Binary search.
pub fn vec_lower_bound(v: &Vec<usize>, x: usize) -> (r: usize)
    requires
        sorted_strict(v@),
    ensures
        r <= v@.len(),
        forall|k: int| 0 <= k < r ==> v@[k] < x,
        forall|k: int| r <= k < v@.len() ==> v@[k] >= x,
{
    let mut lo: usize = 0;
    let mut hi: usize = v.len();
    while lo < hi
        invariant
            lo <= hi <= v@.len(),
            sorted_strict(v@),
            forall|k: int| 0 <= k < lo ==> v@[k] < x,
            forall|k: int| hi <= k < v@.len() ==> v@[k] >= x,
        decreases hi - lo,
    {
        let mid = lo + (hi - lo) / 2;
        if v[mid] < x {
            lo = mid + 1;
        } else {
            hi = mid;
        }
    }
    lo
}

/// Whether the vector is strictly sorted, by one scan.
pub fn vec_is_sorted(v: &Vec<usize>) -> (r: bool)
    ensures
        r == sorted_strict(v@),
{
    let mut i: usize = 1;
    while i < v.len()
        invariant
            1 <= i || v@.len() == 0,
            i <= v@.len() + 1,
            forall|a: int, b: int| 0 <= a < b < i && b <= v@.len() ==> v@[a] < v@[b],
        decreases v@.len() - i,
    {
        if v[i - 1] >= v[i] {
            return false;
        }
        proof {
            assert forall|a: int, b: int| 0 <= a < b < i + 1 && b <= v@.len() implies v@[a] < v@[b]
                by {
                if b == i {
                    if a < i - 1 {
                        assert(v@[a] < v@[i - 1]);
                    }
                }
            };
        }
        i += 1;
    }
    true
}

/// Insert `x` into the sorted vector, keeping it strictly sorted;
/// inserting a member changes nothing.
pub fn sorted_insert(v: &mut Vec<usize>, x: usize)
    requires
        sorted_strict(old(v)@),
    ensures
        sorted_strict(final(v)@),
        forall|y: usize| final(v)@.contains(y) <==> old(v)@.contains(y) || y == x,
{
    let i = vec_lower_bound(v, x);
    if i < v.len() && v[i] == x {
        proof {
            assert(v@[i as int] == x);
            assert forall|y: usize| v@.contains(y) <==> old(v)@.contains(y) || y == x by {}
        }
    } else {
        proof {
            if i < v@.len() {
                assert(v@[i as int] >= x);
                assert(v@[i as int] != x);
            }
        }
        v.insert(i, x);
        proof {
            let s = old(v)@;
            let t = v@;
            assert forall|a: int, b: int| 0 <= a < b < t.len() implies t[a] < t[b] by {
                if b < i {
                    assert(t[a] == s[a] && t[b] == s[b]);
                } else if a > i {
                    assert(t[a] == s[a - 1] && t[b] == s[b - 1]);
                } else if a < i && b == i {
                    assert(t[a] == s[a] && s[a] < x);
                } else if a == i && b > i {
                    assert(t[b] == s[b - 1] && s[b - 1] >= x && s[b - 1] != x);
                } else if a < i && b > i {
                    assert(t[a] == s[a] && t[b] == s[b - 1]);
                    assert(s[a] < x);
                    assert(s[b - 1] >= x);
                }
            };
            assert forall|y: usize| v@.contains(y) implies old(v)@.contains(y) || y == x by {
                let k = choose|k: int| 0 <= k < t.len() && t[k] == y;
                if k < i {
                    assert(s[k] == y);
                } else if k > i {
                    assert(s[k - 1] == y);
                }
            };
            assert forall|y: usize| old(v)@.contains(y) || y == x implies v@.contains(y) by {
                if y == x {
                    assert(v@[i as int] == x);
                } else {
                    let k = choose|k: int| 0 <= k < s.len() && s[k] == y;
                    if k < i {
                        assert(v@[k] == y);
                    } else {
                        assert(v@[k + 1] == y);
                    }
                }
            };
        }
    }
}

/// A strictly sorted sequence has no repeated elements, so its length
/// is its cardinality as a set.
pub proof fn lemma_sorted_len_is_card(s: Seq<usize>)
    requires
        sorted_strict(s),
    ensures
        s.to_set().len() == s.len(),
{
    assert(s.no_duplicates());
    s.unique_seq_to_set();
}

/// An ordered set of node indices, kept strictly sorted.
#[derive(Debug, Clone)]
pub struct NodeSet {
    items: Vec<usize>,
}

impl View for NodeSet {
    type V = Seq<usize>;

    closed spec fn view(&self) -> Seq<usize> {
        self.items@
    }
}

impl NodeSet {
    /// The set is well formed when its vector is strictly sorted.
    pub open spec fn wf(&self) -> bool {
        sorted_strict(self@)
    }

    pub fn new() -> (r: NodeSet)
        ensures
            r@ == Seq::<usize>::empty(),
            r.wf(),
    {
        NodeSet { items: Vec::new() }
    }

    pub fn len(&self) -> (r: usize)
        ensures
            r == self@.len(),
    {
        self.items.len()
    }

    pub fn is_empty(&self) -> (r: bool)
        ensures
            r == (self@.len() == 0),
    {
        self.items.len() == 0
    }

    pub fn get(&self, i: usize) -> (r: usize)
        requires
            i < self@.len(),
        ensures
            r == self@[i as int],
    {
        self.items[i]
    }

    /// Index of the first element that is `>= v`; `len` when every
    /// element is smaller.
    pub fn lower_bound(&self, v: usize) -> (r: usize)
        requires
            self.wf(),
        ensures
            r <= self@.len(),
            forall|k: int| 0 <= k < r ==> self@[k] < v,
            forall|k: int| r <= k < self@.len() ==> self@[k] >= v,
    {
        vec_lower_bound(&self.items, v)
    }

    pub fn contains(&self, v: usize) -> (r: bool)
        requires
            self.wf(),
        ensures
            r == self@.contains(v),
    {
        let i = self.lower_bound(v);
        if i < self.items.len() && self.items[i] == v {
            proof {
                assert(self@[i as int] == v);
            }
            true
        } else {
            proof {
                assert forall|k: int| 0 <= k < self@.len() implies self@[k] != v by {
                    if k >= i {
                        if i < self@.len() && k > i {
                            assert(self@[i as int] < self@[k]);
                        }
                    }
                }
            }
            false
        }
    }

    /// Whether `[start, end)` holds no element of the set, in
    /// logarithmic time.
    pub fn is_range_empty(&self, start: usize, end: usize) -> (r: bool)
        requires
            self.wf(),
        ensures
            r == range_empty(self@, start, end),
    {
        let i = self.lower_bound(start);
        if i < self.items.len() && self.items[i] < end {
            proof {
                assert(start <= self@[i as int] < end);
            }
            false
        } else {
            proof {
                assert forall|k: int| 0 <= k < self@.len() implies !(start <= #[trigger] self@[k]
                    < end) by {
                    if k >= i {
                        if i < self@.len() && k > i {
                            assert(self@[i as int] < self@[k]);
                        }
                    }
                }
            }
            true
        }
    }

    /// The elements of the set that lie in `[start, end)`, in order:
    /// two binary searches, then a copy of the answer alone.
    pub fn range_values(&self, start: usize, end: usize) -> (r: Vec<usize>)
        requires
            self.wf(),
        ensures
            sorted_strict(r@),
            forall|x: usize| #[trigger] r@.contains(x) <==> self@.contains(x) && start <= x < end,
    {
        let mut r: Vec<usize> = Vec::new();
        if start >= end {
            proof {
                assert forall|x: usize| #[trigger] r@.contains(x) <==> self@.contains(x) && start
                    <= x < end by {
                    assert(!r@.contains(x));
                }
            }
            return r;
        }
        let lo = self.lower_bound(start);
        let hi = self.lower_bound(end);
        proof {
            if hi < lo {
                assert(self@[hi as int] < start);
                assert(self@[hi as int] >= end);
            }
        }
        let mut j = lo;
        while j < hi
            invariant
                lo <= j <= hi <= self@.len(),
                self.wf(),
                r@ == self@.subrange(lo as int, j as int),
            decreases hi - j,
        {
            let x = self.items[j];
            r.push(x);
            proof {
                assert(r@ =~= self@.subrange(lo as int, j + 1));
            }
            j += 1;
        }
        proof {
            assert(r@ == self@.subrange(lo as int, hi as int));
            assert forall|x: usize| #[trigger] r@.contains(x) implies self@.contains(x) && start
                <= x < end by {
                let k = choose|k: int| 0 <= k < r@.len() && r@[k] == x;
                assert(self@[lo + k] == x);
                assert(self@[lo + k] >= start);
                if lo + k < hi {
                    assert(self@[lo + k] < end);
                }
            };
            assert forall|x: usize| self@.contains(x) && start <= x < end implies #[trigger] r@
                .contains(x) by {
                let k = choose|k: int| 0 <= k < self@.len() && self@[k] == x;
                if k < lo {
                    assert(self@[k] < start);
                }
                if k >= hi {
                    assert(self@[k] >= end);
                }
                assert(lo <= k < hi);
                assert(r@[k - lo] == x);
            };
            assert forall|i: int, j2: int| 0 <= i < j2 < r@.len() implies r@[i] < r@[j2] by {
                assert(self@[lo + i] < self@[lo + j2]);
            };
        }
        r
    }

    /// Insert `v`, keeping the vector strictly sorted; inserting a
    /// member leaves the set unchanged.
    pub fn insert(&mut self, v: usize)
        requires
            old(self).wf(),
        ensures
            final(self).wf(),
            forall|x: usize| final(self)@.contains(x) <==> old(self)@.contains(x) || x == v,
    {
        sorted_insert(&mut self.items, v);
    }
}

} // verus!
