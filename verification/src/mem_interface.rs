//! The memory-interface stage.
//!
//! Bridges the pipeline to an external DRAM timing simulator behind a
//! four-method port.  Requests are admitted into a bounded in-flight
//! queue; the head request issues its addresses as fast as the DRAM
//! accepts them, reads coalescing onto transactions already
//! outstanding anywhere in the queue; completions are drained every
//! cycle and notify every coalesced consumer.  A read address is
//! issued at most once while it is outstanding.

use vstd::prelude::*;

use crate::error::GcnError;
use crate::node_features::NodeFeatures;
use crate::pipeline::{sat_add, Stage};
use crate::settings::RunningMode;
use crate::sliding_window::InputWindow;

verus! {

/// A strictly increasing sequence of addresses.
pub open spec fn sorted_addrs(s: Seq<u64>) -> bool {
    forall|i: int, j: int| 0 <= i < j < s.len() ==> s[i] < s[j]
}

/// An ordered set of DRAM addresses.
#[derive(Debug)]
pub struct AddrSet {
    pub items: Vec<u64>,
}

impl AddrSet {
    pub open spec fn wf(&self) -> bool {
        sorted_addrs(self.items@)
    }

    /// Membership, as a set of addresses.
    pub open spec fn has(&self, a: u64) -> bool {
        self.items@.contains(a)
    }

    pub fn new() -> (r: AddrSet)
        ensures
            r.wf(),
            r.items@.len() == 0,
    {
        AddrSet { items: Vec::new() }
    }

    pub fn is_empty(&self) -> (r: bool)
        ensures
            r == (self.items@.len() == 0),
    {
        self.items.len() == 0
    }

    /// Index of the first element `>= a`.  Binary search.
    fn lower_bound(&self, a: u64) -> (r: usize)
        requires
            self.wf(),
        ensures
            r <= self.items@.len(),
            forall|k: int| 0 <= k < r ==> self.items@[k] < a,
            forall|k: int| r <= k < self.items@.len() ==> self.items@[k] >= a,
    {
        let mut lo: usize = 0;
        let mut hi: usize = self.items.len();
        while lo < hi
            invariant
                lo <= hi <= self.items@.len(),
                self.wf(),
                forall|k: int| 0 <= k < lo ==> self.items@[k] < a,
                forall|k: int| hi <= k < self.items@.len() ==> self.items@[k] >= a,
            decreases hi - lo,
        {
            let mid = lo + (hi - lo) / 2;
            if self.items[mid] < a {
                lo = mid + 1;
            } else {
                hi = mid;
            }
        }
        lo
    }

    pub fn contains(&self, a: u64) -> (r: bool)
        requires
            self.wf(),
        ensures
            r == self.has(a),
    {
        let i = self.lower_bound(a);
        if i < self.items.len() && self.items[i] == a {
            proof {
                assert(self.items@[i as int] == a);
            }
            true
        } else {
            proof {
                assert forall|k: int| 0 <= k < self.items@.len() implies self.items@[k] != a by {
                    if k >= i && i < self.items@.len() && k > i {
                        assert(self.items@[i as int] < self.items@[k]);
                    }
                }
            }
            false
        }
    }

    pub fn insert(&mut self, a: u64)
        requires
            old(self).wf(),
        ensures
            final(self).wf(),
            forall|x: u64| final(self).has(x) <==> old(self).has(x) || x == a,
    {
        let i = self.lower_bound(a);
        if i < self.items.len() && self.items[i] == a {
            proof {
                assert(self.items@[i as int] == a);
            }
        } else {
            proof {
                if i < self.items@.len() {
                    assert(self.items@[i as int] >= a);
                    assert(self.items@[i as int] != a);
                }
            }
            self.items.insert(i, a);
            proof {
                let s = old(self).items@;
                let t = self.items@;
                assert forall|p: int, q: int| 0 <= p < q < t.len() implies t[p] < t[q] by {
                    if q < i {
                    } else if p > i {
                    } else if p < i && q == i {
                        assert(t[p] == s[p] && s[p] < a);
                    } else if p == i && q > i {
                        assert(t[q] == s[q - 1] && s[q - 1] >= a && s[q - 1] != a);
                    } else if p < i && q > i {
                        assert(t[p] == s[p] && t[q] == s[q - 1]);
                        assert(s[p] < a && s[q - 1] >= a);
                    }
                };
                assert forall|x: u64| self.has(x) implies old(self).has(x) || x == a by {
                    let k = choose|k: int| 0 <= k < t.len() && t[k] == x;
                    if k < i {
                        assert(s[k] == x);
                    } else if k > i {
                        assert(s[k - 1] == x);
                    }
                };
                assert forall|x: u64| old(self).has(x) || x == a implies self.has(x) by {
                    if x == a {
                        assert(self.items@[i as int] == a);
                    } else {
                        let k = choose|k: int| 0 <= k < s.len() && s[k] == x;
                        if k < i {
                            assert(self.items@[k] == x);
                        } else {
                            assert(self.items@[k + 1] == x);
                        }
                    }
                };
            }
        }
    }

    pub fn remove(&mut self, a: u64)
        requires
            old(self).wf(),
        ensures
            final(self).wf(),
            forall|x: u64| final(self).has(x) <==> old(self).has(x) && x != a,
    {
        let i = self.lower_bound(a);
        if i < self.items.len() && self.items[i] == a {
            self.items.remove(i);
            proof {
                let s = old(self).items@;
                let t = self.items@;
                assert forall|p: int, q: int| 0 <= p < q < t.len() implies t[p] < t[q] by {
                    if p >= i {
                        assert(t[p] == s[p + 1] && t[q] == s[q + 1]);
                    } else if q >= i {
                        assert(t[p] == s[p] && t[q] == s[q + 1]);
                    }
                };
                assert forall|x: u64| self.has(x) implies old(self).has(x) && x != a by {
                    let k = choose|k: int| 0 <= k < t.len() && t[k] == x;
                    if k < i {
                        assert(s[k] == x);
                        assert(s[k] < s[i as int]);
                    } else {
                        assert(s[k + 1] == x);
                        assert(s[i as int] < s[k + 1]);
                    }
                };
                assert forall|x: u64| old(self).has(x) && x != a implies self.has(x) by {
                    let k = choose|k: int| 0 <= k < s.len() && s[k] == x;
                    if k < i {
                        assert(self.items@[k] == x);
                    } else {
                        assert(k != i);
                        assert(self.items@[k - 1] == x);
                    }
                };
            }
        } else {
            proof {
                assert forall|x: u64| self.has(x) implies old(self).has(x) && x != a by {
                    if x == a {
                        let k = choose|k: int|
                            0 <= k < self.items@.len() && self.items@[k] == x;
                        if k >= i && i < self.items@.len() && k > i {
                            assert(self.items@[i as int] < self.items@[k]);
                        }
                    }
                };
            }
        }
    }
}

/// The four-method port of the external DRAM timing simulator: can a
/// request be accepted, send one, is a completion ready, take one,
/// and advance one cycle.  `pending` bounds the completions still to
/// be drained, so that a drain loop terminates.
pub trait MemoryPort: Sized {
    /// Whether a completion is ready to be taken.
    spec fn ret_ready(&self) -> bool;

    /// Whether the simulator accepts this request now.
    spec fn can_send(&self, addr: u64, is_write: bool) -> bool;

    /// How many completions are still to be drained.
    spec fn pending(&self) -> nat;

    /// The log of every request ever handed to the simulator, in
    /// order: `send` appends to it and nothing else touches it, so a
    /// caller's contract can say exactly what the simulator was sent.
    spec fn sent(&self) -> Seq<(u64, bool)>;

    /// How many cycles the simulator has been advanced.
    spec fn clock(&self) -> nat;

    fn available(&self, addr: u64, is_write: bool) -> (r: bool)
        ensures
            r == self.can_send(addr, is_write),
    ;

    fn send(&mut self, addr: u64, is_write: bool)
        requires
            old(self).can_send(addr, is_write),
        ensures
            final(self).sent() == old(self).sent().push((addr, is_write)),
            final(self).clock() == old(self).clock(),
    ;

    fn ret_available(&self) -> (r: bool)
        ensures
            r == self.ret_ready(),
            r ==> self.pending() >= 1,
    ;

    fn pop(&mut self) -> (r: u64)
        requires
            old(self).ret_ready(),
        ensures
            final(self).pending() < old(self).pending(),
            final(self).sent() == old(self).sent(),
            final(self).clock() == old(self).clock(),
    ;

    fn tick(&mut self)
        ensures
            final(self).sent() == old(self).sent(),
            final(self).clock() == old(self).clock() + 1,
    ;
}

/// A DRAM model with a fixed advertised latency: every accepted
/// request completes, in order, exactly `latency` ticks after it was
/// sent.  Serves as the port's reference implementation and as the
/// timing model of the tests.
pub struct FixedLatencyDram {
    pub queue: Vec<(u64, u64)>,
    pub now: u64,
    pub latency: u64,
    pub capacity: usize,
    pub send_count: u64,
    pub sent_log: Ghost<Seq<(u64, bool)>>,
    pub ticks: Ghost<nat>,
}

impl FixedLatencyDram {
    pub fn new(latency: u64, capacity: usize) -> (r: Self)
        ensures
            r.queue@.len() == 0,
            r.now == 0,
            r.latency == latency,
            r.capacity == capacity,
            r.send_count == 0,
            r.sent() == Seq::<(u64, bool)>::empty(),
            r.clock() == 0,
    {
        FixedLatencyDram {
            queue: Vec::new(),
            now: 0,
            latency,
            capacity,
            send_count: 0,
            sent_log: Ghost(Seq::empty()),
            ticks: Ghost(0),
        }
    }

    /// How many requests were ever sent, for checking coalescing.
    pub fn get_send_count(&self) -> (r: u64)
        ensures
            r == self.send_count,
    {
        self.send_count
    }
}

impl MemoryPort for FixedLatencyDram {
    open spec fn ret_ready(&self) -> bool {
        self.queue@.len() > 0 && self.queue@[0].1 <= self.now
    }

    open spec fn can_send(&self, addr: u64, is_write: bool) -> bool {
        self.queue@.len() < self.capacity
    }

    open spec fn pending(&self) -> nat {
        self.queue@.len()
    }

    open spec fn sent(&self) -> Seq<(u64, bool)> {
        self.sent_log@
    }

    open spec fn clock(&self) -> nat {
        self.ticks@
    }

    fn available(&self, addr: u64, is_write: bool) -> (r: bool) {
        self.queue.len() < self.capacity
    }

    /// Accept the request; it will be ready `latency` ticks from now.
    fn send(&mut self, addr: u64, is_write: bool)
        ensures
            final(self).queue@ == old(self).queue@.push(
                (addr, crate::pipeline::sat_add_spec(old(self).now, old(self).latency)),
            ),
            final(self).send_count == crate::pipeline::sat_add_spec(old(self).send_count, 1),
            final(self).now == old(self).now,
            final(self).latency == old(self).latency,
            final(self).capacity == old(self).capacity,
    {
        let t = sat_add(self.now, self.latency);
        self.queue.push((addr, t));
        self.send_count = sat_add(self.send_count, 1);
        self.sent_log = Ghost(self.sent_log@.push((addr, is_write)));
    }

    fn ret_available(&self) -> (r: bool) {
        self.queue.len() > 0 && self.queue[0].1 <= self.now
    }

    fn pop(&mut self) -> (r: u64)
        ensures
            r == old(self).queue@[0].0,
            final(self).queue@ == old(self).queue@.drop_first(),
            final(self).now == old(self).now,
            final(self).latency == old(self).latency,
            final(self).capacity == old(self).capacity,
            final(self).send_count == old(self).send_count,
    {
        let (addr, _) = self.queue.remove(0);
        proof {
            assert(self.queue@ =~= old(self).queue@.drop_first());
        }
        addr
    }

    fn tick(&mut self)
        ensures
            final(self).now == crate::pipeline::sat_add_spec(old(self).now, 1),
            final(self).queue == old(self).queue,
            final(self).latency == old(self).latency,
            final(self).capacity == old(self).capacity,
            final(self).send_count == old(self).send_count,
    {
        self.now = sat_add(self.now, 1);
        self.ticks = Ghost(self.ticks@ + 1);
    }
}

/// One request into the memory interface: the tile it will release
/// and the line addresses its rows occupy.
pub struct MemInterfaceReq {
    pub addr_vec: Vec<u64>,
    pub window: InputWindow,
}

/// An admitted request: still issuing the addresses of `Working`'s
/// first part, awaiting the completions of its second, or done.
pub enum TempMemReqState {
    Working(Vec<u64>, AddrSet),
    Done,
}

/// An in-flight request of the send queue.
pub struct TempMemReq {
    pub id: InputWindow,
    pub is_write: bool,
    pub state: TempMemReqState,
}

/// The tile of each in-flight request, in queue order.
pub open spec fn queue_ids(q: Seq<TempMemReq>) -> Seq<InputWindow> {
    Seq::new(q.len(), |i: int| q[i].id)
}

/// The memory-interface stage.
pub struct MemInterface {
    pub input_queue: Option<MemInterfaceReq>,
    pub output_queue: Option<InputWindow>,
    pub send_queue: Vec<TempMemReq>,
    pub current_inflight_addr: AddrSet,
    pub send_size: usize,
    pub is_write: bool,
}

impl MemInterface {
    /// The ordered address sets of the queue are well formed, and
    /// every queued request carries the stage's direction.
    pub open spec fn wf(&self) -> bool {
        &&& self.current_inflight_addr.wf()
        &&& forall|i: int|
            0 <= i < self.send_queue@.len() ==> match (#[trigger] self.send_queue@[i]).state {
                TempMemReqState::Working(_, recv) => recv.wf(),
                TempMemReqState::Done => true,
            }
        &&& forall|i: int|
            0 <= i < self.send_queue@.len() ==> (#[trigger] self.send_queue@[i]).is_write
                == self.is_write
    }

    /// The write path's progress fact: the head request keeps exactly
    /// the prefix of its pending addresses that was not yet sent, and
    /// is done only once everything was.
    spec fn head_keeps_prefix(q: Seq<TempMemReq>, rem0: Vec<u64>, sent_cnt: int) -> bool {
        &&& 0 <= sent_cnt <= rem0@.len()
        &&& q.len() > 0
        &&& match q[0].state {
            TempMemReqState::Working(rem, _) => rem@ == rem0@.subrange(
                0,
                rem0@.len() - sent_cnt,
            ),
            TempMemReqState::Done => rem0@.len() == sent_cnt,
        }
    }

    /// The pending address list of the request at the queue's head
    /// after this cycle's admission and release, read off the
    /// pre-cycle state: the old head, the old second entry when the
    /// head is released, or the admitted input when the queue runs
    /// dry.  Nothing when no request stands at the head or the head
    /// is already done.
    pub open spec fn spec_head_pending(pre: MemInterface) -> Option<Vec<u64>> {
        let admitted = pre.send_queue@.len() < pre.send_size && pre.input_queue is Some;
        let released = pre.output_queue is None && pre.send_queue@.len() > 0
            && pre.send_queue@[0].state is Done;
        let from_old: int = if released {
            1
        } else {
            0
        };
        if from_old < pre.send_queue@.len() {
            match pre.send_queue@[from_old].state {
                TempMemReqState::Working(v, _) => Some(v),
                TempMemReqState::Done => None,
            }
        } else if admitted {
            Some(pre.input_queue->Some_0.addr_vec)
        } else {
            None
        }
    }

    /// The addresses outstanding across every request.
    pub open spec fn inflight(&self) -> Set<u64> {
        self.current_inflight_addr.items@.to_set()
    }

    pub fn new(send_size: usize, is_write: bool) -> (r: Self)
        ensures
            r.wf(),
            r.input_queue is None,
            r.output_queue is None,
            r.send_queue@.len() == 0,
            r.inflight() =~= Set::<u64>::empty(),
            r.send_size == send_size,
            r.is_write == is_write,
    {
        let r = MemInterface {
            input_queue: None,
            output_queue: None,
            send_queue: Vec::new(),
            current_inflight_addr: AddrSet::new(),
            send_size,
            is_write,
        };
        proof {
            assert(r.current_inflight_addr.items@.to_set() =~= Set::<u64>::empty());
        }
        r
    }

    pub fn can_accept_input(&self) -> (r: bool)
        ensures
            r == (self.input_queue is None),
    {
        self.input_queue.is_none()
    }

    pub fn has_output(&self) -> (r: bool)
        ensures
            r == (self.output_queue is Some),
    {
        self.output_queue.is_some()
    }

    pub fn pop_output(&mut self) -> (r: Option<InputWindow>)
        ensures
            r == old(self).output_queue,
            final(self).output_queue is None,
            final(self).input_queue == old(self).input_queue,
            final(self).send_queue == old(self).send_queue,
            final(self).current_inflight_addr == old(self).current_inflight_addr,
            final(self).send_size == old(self).send_size,
            final(self).is_write == old(self).is_write,
    {
        self.output_queue.take()
    }

    /// Accept one request.  On the read path every address must sit
    /// on a DRAM line boundary; a request that does not is refused
    /// with the address error.
    pub fn push_input(&mut self, input: MemInterfaceReq) -> (r: Result<(), GcnError>)
        requires
            old(self).input_queue is None,
        ensures
            match r {
                Ok(()) => {
                    &&& (old(self).is_write || forall|k: int|
                        0 <= k < input.addr_vec@.len() ==> (#[trigger] input.addr_vec@[k]) % 64
                            == 0)
                    &&& final(self).input_queue == Some(input)
                },
                Err(e) => {
                    &&& e == GcnError::InvalidAddress
                    &&& !old(self).is_write
                    &&& exists|k: int|
                        0 <= k < input.addr_vec@.len() && (#[trigger] input.addr_vec@[k]) % 64 != 0
                    &&& final(self).input_queue is None
                },
            },
            final(self).output_queue == old(self).output_queue,
            final(self).send_queue == old(self).send_queue,
            final(self).current_inflight_addr == old(self).current_inflight_addr,
            final(self).send_size == old(self).send_size,
            final(self).is_write == old(self).is_write,
    {
        if !self.is_write && !addrs_aligned(&input.addr_vec) {
            return Err(GcnError::InvalidAddress);
        }
        self.input_queue = Some(input);
        Ok(())
    }

    /// One cycle: admit a waiting request while the queue has room;
    /// release the head request once done; issue the head's addresses
    /// as fast as the DRAM accepts them, reads coalescing onto
    /// transactions already outstanding; drain every completion,
    /// notifying all coalesced consumers; advance the DRAM.
    ///
    /// The first ghost result lists the read addresses issued this
    /// cycle: none of them was outstanding when the cycle began and
    /// none is issued twice — one outstanding transaction per address,
    /// system-wide.  The second lists the completions drained; the
    /// outstanding set ends as the old one plus the issues minus the
    /// drains.  The third is exactly what the DRAM simulator was
    /// handed this cycle: its send log grows by that list and by
    /// nothing else, and its clock advances exactly once.  In read
    /// mode the list is the issued reads in order; in write mode every
    /// entry is a write.  The queue holds at most one new request per
    /// cycle — admitted exactly when the queue had room and an input
    /// waited — and releases at most its head, exactly when the head
    /// was done and the output slot free; tiles leave in the order
    /// their requests were admitted.
    pub fn tick<D: MemoryPort>(&mut self, mem: &mut D) -> (r: (
        Ghost<Seq<u64>>,
        Ghost<Seq<u64>>,
        Ghost<Seq<(u64, bool)>>,
    ))
        requires
            old(self).wf(),
        ensures
            final(self).wf(),
            final(self).send_size == old(self).send_size,
            final(self).is_write == old(self).is_write,
            r.0@.no_duplicates(),
            forall|i: int|
                0 <= i < r.0@.len() ==> !old(self).inflight().contains(#[trigger] r.0@[i]),
            forall|a: u64|
                final(self).inflight().contains(a) <==> ((old(self).inflight().contains(a)
                    || r.0@.contains(a)) && !r.1@.contains(a)),
            final(mem).sent() == old(mem).sent() + r.2@,
            final(mem).clock() == old(mem).clock() + 1,
            !old(self).is_write ==> r.2@ == Seq::new(r.0@.len(), |i: int| (r.0@[i], false)),
            old(self).is_write ==> r.0@.len() == 0 && forall|i: int|
                0 <= i < r.2@.len() ==> (#[trigger] r.2@[i]).1,
            old(self).is_write ==> match Self::spec_head_pending(*old(self)) {
                Some(rem0) => {
                    let t = rem0@.len() - r.2@.len();
                    &&& r.2@.len() <= rem0@.len()
                    &&& (forall|q: int|
                        0 <= q < r.2@.len() ==> (#[trigger] r.2@[q]) == (
                            rem0@[rem0@.len() - 1 - q],
                            true,
                        ))
                    &&& final(self).send_queue@.len() > 0
                    &&& match final(self).send_queue@[0].state {
                        TempMemReqState::Working(rem, _) => rem@ == rem0@.subrange(0, t),
                        TempMemReqState::Done => t == 0,
                    }
                },
                None => r.2@.len() == 0,
            },
            old(self).output_queue is Some ==> final(self).output_queue == old(self).output_queue,
            (old(self).output_queue is None && old(self).send_queue@.len() > 0 && old(
                self,
            ).send_queue@[0].state is Done) ==> final(self).output_queue == Some(
                old(self).send_queue@[0].id,
            ),
            !(old(self).output_queue is None && old(self).send_queue@.len() > 0 && old(
                self,
            ).send_queue@[0].state is Done) ==> final(self).output_queue == old(self).output_queue,
            (old(self).send_queue@.len() < old(self).send_size && old(self).input_queue is Some)
                ==> final(self).input_queue is None,
            old(self).send_queue@.len() >= old(self).send_size ==> final(self).input_queue == old(
                self,
            ).input_queue,
            ({
                let admitted = old(self).send_queue@.len() < old(self).send_size && old(
                    self,
                ).input_queue is Some;
                let released = old(self).output_queue is None && old(self).send_queue@.len() > 0
                    && old(self).send_queue@[0].state is Done;
                let mid_ids = if admitted {
                    queue_ids(old(self).send_queue@).push(old(self).input_queue->Some_0.window)
                } else {
                    queue_ids(old(self).send_queue@)
                };
                &&& queue_ids(final(self).send_queue@) == (if released {
                    mid_ids.drop_first()
                } else {
                    mid_ids
                })
                &&& final(self).send_queue@.len() == old(self).send_queue@.len() + (if admitted {
                    1int
                } else {
                    0int
                }) - (if released {
                    1int
                } else {
                    0int
                })
            }),
    {
        let ghost mut issued: Seq<u64> = Seq::empty();
        let ghost mut drained: Seq<u64> = Seq::empty();
        let ghost mut sends: Seq<(u64, bool)> = Seq::empty();
        let ghost inflight0 = old(self).inflight();
        let ghost sent0 = mem.sent();
        let ghost clock0 = mem.clock();
        // admit a waiting request
        if self.send_queue.len() < self.send_size && self.input_queue.is_some() {
            match self.input_queue.take() {
                Some(input) => {
                    let req = TempMemReq {
                        id: input.window,
                        is_write: self.is_write,
                        state: TempMemReqState::Working(input.addr_vec, AddrSet::new()),
                    };
                    self.send_queue.push(req);
                    proof {
                        assert forall|i: int|
                            0 <= i < self.send_queue@.len() implies match (
                        #[trigger] self.send_queue@[i]).state {
                            TempMemReqState::Working(_, recv) => recv.wf(),
                            TempMemReqState::Done => true,
                        } by {
                            if i < self.send_queue@.len() - 1 {
                                assert(self.send_queue@[i] == old(self).send_queue@[i]);
                            }
                        };
                        assert(queue_ids(self.send_queue@) =~= queue_ids(
                            old(self).send_queue@,
                        ).push(old(self).input_queue->Some_0.window));
                    }
                },
                None => {
                    proof {
                        assert(false);
                    }
                },
            }
        }
        // release the head once done
        if self.output_queue.is_none() && self.send_queue.len() > 0 {
            let head_done = match &self.send_queue[0].state {
                TempMemReqState::Done => true,
                TempMemReqState::Working(_, _) => false,
            };
            if head_done {
                let ghost pre = self.send_queue@;
                let head = self.send_queue.remove(0);
                self.output_queue = Some(head.id);
                proof {
                    assert forall|i: int|
                        0 <= i < self.send_queue@.len() implies match (
                    #[trigger] self.send_queue@[i]).state {
                        TempMemReqState::Working(_, recv) => recv.wf(),
                        TempMemReqState::Done => true,
                    } by {
                        assert(self.send_queue@[i] == pre[i + 1]);
                    };
                    assert(queue_ids(self.send_queue@) =~= queue_ids(pre).drop_first());
                }
            }
        }
        let ghost q_ar = self.send_queue@;
        let ghost ids_ar = queue_ids(self.send_queue@);
        let ghost head_pending0 = Self::spec_head_pending(*old(self));
        proof {
            assert(match head_pending0 {
                Some(v) => self.send_queue@.len() > 0 && (match self.send_queue@[0].state {
                    TempMemReqState::Working(v2, _) => v2 == v,
                    TempMemReqState::Done => false,
                }),
                None => self.send_queue@.len() == 0 || self.send_queue@[0].state is Done,
            });
        }
        // issue the head's addresses
        if self.send_queue.len() > 0 {
            let head_write = self.send_queue[0].is_write;
            let mut st = TempMemReqState::Done;
            core::mem::swap(&mut self.send_queue[0].state, &mut st);
            let ghost mid = *self;
            let ghost pre_q = self.send_queue@;
            match st {
                TempMemReqState::Working(mut remaining, mut receiving) => {
                    let mut stop = false;
                    let ghost rem0v = remaining@;
                    let ghost recv0 = receiving;
                    proof {
                        assert(mem.sent() =~= sent0 + sends);
                        assert(sends =~= Seq::new(issued.len(), |i: int| (issued[i], false)));
                        assert(remaining@ =~= rem0v.subrange(0, rem0v.len() - sends.len()));
                    }
                    if head_write {
                        while !stop
                            invariant
                                issued =~= Seq::<u64>::empty(),
                                *self == mid,
                                mem.sent() == sent0 + sends,
                                mem.clock() == clock0,
                                receiving == recv0,
                                sends.len() <= rem0v.len(),
                                remaining@ == rem0v.subrange(
                                    0,
                                    rem0v.len() - sends.len(),
                                ),
                                forall|q: int|
                                    0 <= q < sends.len() ==> (#[trigger] sends[q]) == (
                                        rem0v[rem0v.len() - 1 - q],
                                        true,
                                    ),
                            decreases 2 * remaining@.len() + (if stop {
                                0int
                            } else {
                                1int
                            }),
                        {
                            let ghost rem_pre = remaining@;
                            match remaining.pop() {
                                None => {
                                    stop = true;
                                },
                                Some(addr) => {
                                    proof {
                                        assert(addr == rem0v[rem0v.len() - 1 - sends.len()]);
                                    }
                                    if mem.available(addr, true) {
                                        mem.send(addr, true);
                                        proof {
                                            sends = sends.push((addr, true));
                                            assert(mem.sent() =~= sent0 + sends);
                                            assert(remaining@ =~= rem0v.subrange(
                                                0,
                                                rem0v.len() - sends.len(),
                                            ));
                                        }
                                    } else {
                                        remaining.push(addr);
                                        proof {
                                            assert(remaining@ =~= rem_pre);
                                        }
                                        stop = true;
                                    }
                                },
                            }
                        }
                    } else {
                        while !stop
                            invariant
                                self.current_inflight_addr.wf(),
                                receiving.wf(),
                                self.send_queue == mid.send_queue,
                                self.input_queue == mid.input_queue,
                                self.output_queue == mid.output_queue,
                                self.send_size == mid.send_size,
                                self.is_write == mid.is_write,
                                issued.no_duplicates(),
                                mem.sent() == sent0 + sends,
                                mem.clock() == clock0,
                                sends == Seq::new(issued.len(), |i: int| (issued[i], false)),
                                forall|i: int|
                                    0 <= i < issued.len() ==> !inflight0.contains(
                                        #[trigger] issued[i],
                                    ),
                                forall|a: u64|
                                    self.current_inflight_addr.has(a) <==> (inflight0.contains(a)
                                        || issued.contains(a)),
                            decreases 2 * remaining@.len() + (if stop {
                                0int
                            } else {
                                1int
                            }),
                        {
                            match remaining.pop() {
                                None => {
                                    stop = true;
                                },
                                Some(addr) => {
                                    if self.current_inflight_addr.contains(addr) {
                                        receiving.insert(addr);
                                    } else if mem.available(addr, false) {
                                        self.current_inflight_addr.insert(addr);
                                        receiving.insert(addr);
                                        mem.send(addr, false);
                                        proof {
                                            assert(!issued.contains(addr));
                                            let ghost pre_issued = issued;
                                            issued = issued.push(addr);
                                            assert forall|x: u64| issued.contains(x) implies (
                                            pre_issued.contains(x) || x == addr) by {
                                                let k = choose|k: int|
                                                    0 <= k < issued.len() && issued[k] == x;
                                                if k < pre_issued.len() {
                                                    assert(pre_issued[k] == x);
                                                }
                                            };
                                            assert forall|x: u64|
                                                pre_issued.contains(x) || x == addr implies issued
                                                .contains(x) by {
                                                if x == addr {
                                                    assert(issued[issued.len() - 1] == addr);
                                                } else {
                                                    let k = choose|k: int|
                                                        0 <= k < pre_issued.len() && pre_issued[k]
                                                            == x;
                                                    assert(issued[k] == x);
                                                }
                                            };
                                            assert(issued.no_duplicates()) by {
                                                assert forall|i: int, j: int|
                                                    0 <= i < issued.len() && 0 <= j < issued.len()
                                                        && i != j implies issued[i] != issued[j]
                                                    by {
                                                    if i < pre_issued.len() && j
                                                        < pre_issued.len() {
                                                    } else if i == pre_issued.len() && j
                                                        < pre_issued.len() {
                                                        assert(pre_issued[j]
                                                            == issued[j]);
                                                        assert(pre_issued.contains(issued[j]));
                                                    } else if j == pre_issued.len() && i
                                                        < pre_issued.len() {
                                                        assert(pre_issued[i]
                                                            == issued[i]);
                                                        assert(pre_issued.contains(issued[i]));
                                                    }
                                                };
                                            };
                                            sends = sends.push((addr, false));
                                            assert(mem.sent() =~= sent0 + sends);
                                            assert(sends =~= Seq::new(
                                                issued.len(),
                                                |i: int| (issued[i], false),
                                            ));
                                        }
                                    } else {
                                        remaining.push(addr);
                                        stop = true;
                                    }
                                },
                            }
                        }
                    }
                    st = TempMemReqState::Working(remaining, receiving);
                    proof {
                        if old(self).is_write {
                            match head_pending0 {
                                Some(rem0) => {
                                    assert(rem0v == rem0@);
                                    assert(sends.len() <= rem0@.len() && (match st {
                                        TempMemReqState::Working(rem, _) => rem@
                                            == rem0@.subrange(0, rem0@.len() - sends.len()),
                                        TempMemReqState::Done => false,
                                    }));
                                },
                                None => {
                                    assert(false);
                                },
                            }
                        }
                    }
                },
                TempMemReqState::Done => {
                    st = TempMemReqState::Done;
                    proof {
                        if old(self).is_write {
                            assert(head_pending0 is None);
                            assert(sends.len() == 0);
                        }
                    }
                },
            }
            core::mem::swap(&mut self.send_queue[0].state, &mut st);
            proof {
                assert forall|i: int|
                    0 <= i < self.send_queue@.len() implies match (
                #[trigger] self.send_queue@[i]).state {
                    TempMemReqState::Working(_, recv) => recv.wf(),
                    TempMemReqState::Done => true,
                } by {
                    if i > 0 {
                        assert(self.send_queue@[i] == pre_q[i]);
                    }
                };
                assert(queue_ids(self.send_queue@) =~= ids_ar) by {
                    assert forall|i: int|
                        0 <= i < self.send_queue@.len() implies (#[trigger] self.send_queue@[i]).id
                        == q_ar[i].id by {
                        if i > 0 {
                            assert(self.send_queue@[i] == pre_q[i]);
                        }
                    };
                };
            }
        }
        proof {
            assert(queue_ids(self.send_queue@) =~= ids_ar);
            if !old(self).is_write {
                assert(sends =~= Seq::new(issued.len(), |i: int| (issued[i], false)));
            }
            if old(self).is_write && head_pending0 is Some {
                assert(Self::head_keeps_prefix(
                    self.send_queue@,
                    head_pending0->Some_0,
                    sends.len() as int,
                ));
            }
        }
        // drain every completion of this cycle
        let ghost base = inflight0.union(issued.to_set());
        proof {
            assert forall|a: u64|
                self.current_inflight_addr.has(a) <==> (base.contains(a) && !drained.contains(
                    a,
                )) by {
                if issued.contains(a) {
                }
            };
        }
        let ghost mid2 = *self;
        while mem.ret_available()
            invariant
                self.wf(),
                self.input_queue == mid2.input_queue,
                self.output_queue == mid2.output_queue,
                self.send_size == mid2.send_size,
                self.is_write == mid2.is_write,
                self.send_queue@.len() == mid2.send_queue@.len(),
                queue_ids(self.send_queue@) == ids_ar,
                mem.sent() == sent0 + sends,
                mem.clock() == clock0,
                mid2.is_write && head_pending0 is Some ==> Self::head_keeps_prefix(
                    self.send_queue@,
                    head_pending0->Some_0,
                    sends.len() as int,
                ),
                forall|a: u64|
                    self.current_inflight_addr.has(a) <==> (base.contains(a) && !drained.contains(
                        a,
                    )),
            decreases mem.pending(),
        {
            let addr = mem.pop();
            self.current_inflight_addr.remove(addr);
            proof {
                let ghost pre_drained = drained;
                drained = drained.push(addr);
                assert forall|x: u64| drained.contains(x) implies (pre_drained.contains(x) || x
                    == addr) by {
                    let k = choose|k: int| 0 <= k < drained.len() && drained[k] == x;
                    if k < pre_drained.len() {
                        assert(pre_drained[k] == x);
                    }
                };
                assert forall|x: u64| pre_drained.contains(x) || x == addr implies drained
                    .contains(x) by {
                    if x == addr {
                        assert(drained[drained.len() - 1] == addr);
                    } else {
                        let k = choose|k: int|
                            0 <= k < pre_drained.len() && pre_drained[k] == x;
                        assert(drained[k] == x);
                    }
                };
            }
            let ghost ca = self.current_inflight_addr;
            let qn = self.send_queue.len();
            let mut i: usize = 0;
            while i < qn
                invariant
                    i <= qn,
                    qn == self.send_queue@.len(),
                    self.wf(),
                    self.current_inflight_addr == ca,
                    self.input_queue == mid2.input_queue,
                    self.output_queue == mid2.output_queue,
                    self.send_size == mid2.send_size,
                    self.is_write == mid2.is_write,
                    queue_ids(self.send_queue@) == ids_ar,
                    mid2.is_write && head_pending0 is Some ==> Self::head_keeps_prefix(
                        self.send_queue@,
                        head_pending0->Some_0,
                        sends.len() as int,
                    ),
                decreases qn - i,
            {
                let ghost pre_q = self.send_queue@;
                proof {
                    assert(match self.send_queue@[i as int].state {
                        TempMemReqState::Working(_, recv) => recv.wf(),
                        TempMemReqState::Done => true,
                    });
                }
                let mut st = TempMemReqState::Done;
                core::mem::swap(&mut self.send_queue[i].state, &mut st);
                let new_st = match st {
                    TempMemReqState::Working(rem, mut recv) => {
                        if recv.contains(addr) {
                            recv.remove(addr);
                            if rem.len() == 0 && recv.is_empty() {
                                TempMemReqState::Done
                            } else {
                                TempMemReqState::Working(rem, recv)
                            }
                        } else {
                            TempMemReqState::Working(rem, recv)
                        }
                    },
                    TempMemReqState::Done => TempMemReqState::Done,
                };
                let mut st2 = new_st;
                core::mem::swap(&mut self.send_queue[i].state, &mut st2);
                proof {
                    assert forall|j: int|
                        0 <= j < self.send_queue@.len() implies match (
                    #[trigger] self.send_queue@[j]).state {
                        TempMemReqState::Working(_, recv) => recv.wf(),
                        TempMemReqState::Done => true,
                    } by {
                        if j != i {
                            assert(self.send_queue@[j] == pre_q[j]);
                        }
                    };
                    assert(queue_ids(self.send_queue@) =~= queue_ids(pre_q)) by {
                        assert forall|j: int|
                            0 <= j < self.send_queue@.len() implies (
                        #[trigger] self.send_queue@[j]).id == pre_q[j].id by {
                            if j != i {
                                assert(self.send_queue@[j] == pre_q[j]);
                            }
                        };
                    };
                    if mid2.is_write && head_pending0 is Some {
                        assert(Self::head_keeps_prefix(
                            self.send_queue@,
                            head_pending0->Some_0,
                            sends.len() as int,
                        )) by {
                            if i != 0 {
                                assert(self.send_queue@[0] == pre_q[0]);
                            }
                        };
                    }
                }
                i += 1;
            }
        }
        // mark the head done when nothing remains to issue or receive
        if self.send_queue.len() > 0 {
            let ghost pre_q = self.send_queue@;
            proof {
                assert(match self.send_queue@[0].state {
                    TempMemReqState::Working(_, recv) => recv.wf(),
                    TempMemReqState::Done => true,
                });
            }
            let mut st = TempMemReqState::Done;
            core::mem::swap(&mut self.send_queue[0].state, &mut st);
            let new_st = match st {
                TempMemReqState::Working(rem, recv) => {
                    if rem.len() == 0 && recv.is_empty() {
                        TempMemReqState::Done
                    } else {
                        TempMemReqState::Working(rem, recv)
                    }
                },
                TempMemReqState::Done => TempMemReqState::Done,
            };
            let mut st2 = new_st;
            core::mem::swap(&mut self.send_queue[0].state, &mut st2);
            proof {
                assert forall|j: int|
                    0 <= j < self.send_queue@.len() implies match (
                #[trigger] self.send_queue@[j]).state {
                    TempMemReqState::Working(_, recv) => recv.wf(),
                    TempMemReqState::Done => true,
                } by {
                    if j != 0 {
                        assert(self.send_queue@[j] == pre_q[j]);
                    }
                };
                assert(queue_ids(self.send_queue@) =~= queue_ids(pre_q)) by {
                    assert forall|j: int|
                        0 <= j < self.send_queue@.len() implies (#[trigger] self.send_queue@[j]).id
                        == pre_q[j].id by {
                        if j != 0 {
                            assert(self.send_queue@[j] == pre_q[j]);
                        }
                    };
                };
                if old(self).is_write && head_pending0 is Some {
                    assert(Self::head_keeps_prefix(
                        self.send_queue@,
                        head_pending0->Some_0,
                        sends.len() as int,
                    ));
                }
            }
        }
        mem.tick();
        proof {
            assert forall|a: u64|
                self.inflight().contains(a) <==> ((old(self).inflight().contains(a)
                    || issued.contains(a)) && !drained.contains(a)) by {
                assert(self.inflight().contains(a) == self.current_inflight_addr.has(a));
                assert(base.contains(a) == (inflight0.contains(a) || issued.contains(a)));
            };
            assert(queue_ids(self.send_queue@) == ids_ar);
        }
        (Ghost(issued), Ghost(drained), Ghost(sends))
    }
}

/// Whether every address sits on a 64-byte line boundary.
pub fn addrs_aligned(addrs: &Vec<u64>) -> (r: bool)
    ensures
        r == (forall|k: int| 0 <= k < addrs@.len() ==> (#[trigger] addrs@[k]) % 64 == 0),
{
    let n = addrs.len();
    let mut k: usize = 0;
    while k < n
        invariant
            k <= n,
            n == addrs@.len(),
            forall|j: int| 0 <= j < k ==> (#[trigger] addrs@[j]) % 64 == 0,
        decreases n - k,
    {
        if addrs[k] % 64 != 0 {
            proof {
                assert((#[trigger] addrs@[k as int]) % 64 != 0);
            }
            return false;
        }
        k += 1;
    }
    true
}

/// How many 64-byte strides cover `[first, end)`.
pub open spec fn stride_count(first: int, end: int) -> int {
    if end <= first {
        0
    } else {
        (end - first + 63) / 64
    }
}

/// The DRAM line addresses a tile's input rows occupy.
///
/// Sparse modes: the tile's first node's start address rounded down
/// to a line boundary, strided by 64 bytes up to the end node's start
/// address.  Dense mode: a per-layer base of `layer · 2^32` plus the
/// row range scaled by the input dimension, four bytes per element,
/// strided the same way.
pub fn get_addr_vec_from_window(
    window: InputWindow,
    running_mode: RunningMode,
    node_features: &NodeFeatures,
    layer_id: usize,
) -> (r: MemInterfaceReq)
    requires
        running_mode != RunningMode::Dense ==> {
            &&& (window.end_input_index as int) < node_features.start_addrs@.len()
            &&& window.start_input_index <= window.end_input_index
            &&& node_features.wf()
            &&& node_features.start_addrs@[window.end_input_index as int] + 64 <= u64::MAX
        },
        running_mode == RunningMode::Dense ==> {
            &&& layer_id <= 0xFFFF_FFFFusize
            &&& window.start_input_index <= window.end_input_index
            &&& (window.end_input_index as int) * (window.output_window.input_node_dim as int) * 4
                <= 0xFFFF_FFFF
            &&& layer_id as int * 0x1_0000_0000 + (window.end_input_index as int) * (
            window.output_window.input_node_dim as int) * 4 + 64 <= u64::MAX
        },
    ensures
        r.window == window,
        running_mode != RunningMode::Dense ==> forall|i: int|
            0 <= i < r.addr_vec@.len() ==> (#[trigger] r.addr_vec@[i]) % 64 == 0,
        ({
            let first = if running_mode != RunningMode::Dense {
                node_features.start_addrs@[window.start_input_index as int] as int / 64 * 64
            } else {
                layer_id as int * 0x1_0000_0000 + window.start_input_index as int
                    * window.output_window.input_node_dim as int * 4
            };
            let end = if running_mode != RunningMode::Dense {
                node_features.start_addrs@[window.end_input_index as int] as int
            } else {
                layer_id as int * 0x1_0000_0000 + window.end_input_index as int
                    * window.output_window.input_node_dim as int * 4
            };
            &&& r.addr_vec@.len() == stride_count(first, end)
            &&& forall|i: int| 0 <= i < r.addr_vec@.len() ==> (#[trigger] r.addr_vec@[i]) == first
                + 64 * i
        }),
{
    let mut addr_vec: Vec<u64> = Vec::new();
    let si = window.start_input_index;
    let ei = window.end_input_index;
    let mut start_addr: u64;
    let end_addr: u64;
    match running_mode {
        RunningMode::Sparse | RunningMode::Mixed => {
            proof {
                assert(node_features.start_addrs@[si as int] <= node_features.start_addrs@[
                    ei as int]) by {
                    lemma_start_addrs_mono(node_features, si as int, ei as int);
                };
            }
            start_addr = node_features.start_addrs[si] / 64 * 64;
            end_addr = node_features.start_addrs[ei];
        },
        RunningMode::Dense => {
            let base: u64 = (layer_id as u64) * 0x1_0000_0000;
            let dim = window.output_window.input_node_dim;
            proof {
                assert((si as int) * (dim as int) * 4 <= (ei as int) * (dim as int) * 4) by (
                nonlinear_arith)
                    requires
                        si <= ei,
                        dim >= 0,
                ;
                assert((si as int) * (dim as int) * 4 >= 0) by (nonlinear_arith)
                    requires
                        si >= 0,
                        dim >= 0,
                ;
            }
            start_addr = base + (si as u64) * (dim as u64) * 4;
            end_addr = base + (ei as u64) * (dim as u64) * 4;
        },
    }
    let ghost first = start_addr as int;
    let ghost end = end_addr as int;
    proof {
        if running_mode != RunningMode::Dense {
            assert(first % 64 == 0);
        }
    }
    while start_addr < end_addr
        invariant
            end == end_addr as int,
            first <= start_addr as int,
            start_addr as int == first + 64 * addr_vec@.len(),
            end_addr as int + 64 <= u64::MAX,
            addr_vec@.len() > 0 ==> first + 64 * (addr_vec@.len() - 1) < end,
            forall|i: int| 0 <= i < addr_vec@.len() ==> (#[trigger] addr_vec@[i]) == first + 64
                * i,
        decreases end + 64 - start_addr,
    {
        addr_vec.push(start_addr);
        start_addr = start_addr + 64;
    }
    proof {
        let n = addr_vec@.len() as int;
        assert(first + 64 * n >= end);
        if n > 0 {
            assert(addr_vec@[n - 1] == first + 64 * (n - 1));
            assert(first + 64 * (n - 1) < end);
        }
        assert(n == stride_count(first, end));
        if running_mode != RunningMode::Dense {
            assert forall|i: int| 0 <= i < addr_vec@.len() implies (#[trigger] addr_vec@[i]) % 64
                == 0 by {
                assert(addr_vec@[i] == first + 64 * i);
            };
        }
    }
    MemInterfaceReq { addr_vec, window }
}

/// Start addresses never decrease along the node order.
proof fn lemma_start_addrs_mono(nf: &NodeFeatures, i: int, j: int)
    requires
        nf.wf(),
        0 <= i <= j < nf.start_addrs@.len(),
    ensures
        nf.start_addrs@[i] <= nf.start_addrs@[j],
    decreases j - i,
{
    if i < j {
        lemma_start_addrs_mono(nf, i + 1, j);
        assert(nf.start_addrs@[i + 1] as int == nf.start_addrs@[i] as int + 4 * nf.features@[
            i]@.len());
    }
}

/// One cycle of the whole system: the composite chain runs first,
/// downstream-first inside itself; then one released tile moves from
/// the memory stage into the chain if both sides permit; then the
/// memory stage runs with its DRAM.  Anything the chain's last stage
/// holds is popped and returned.  The chain's work counter never
/// decreases.
pub fn system_tick<D: MemoryPort, C: Stage<Input = InputWindow>>(
    mem_interface: &mut MemInterface,
    dram: &mut D,
    chain: &mut C,
) -> (r: Option<C::Output>)
    requires
        old(mem_interface).wf(),
    ensures
        final(mem_interface).wf(),
        final(chain).counter() >= old(chain).counter(),
        !final(chain).has_out(),
        final(dram).clock() == old(dram).clock() + 1,
{
    chain.tick();
    if chain.can_accept_input() && mem_interface.has_output() {
        match mem_interface.pop_output() {
            Some(w) => chain.push_input(w),
            None => {
                proof {
                    assert(false);
                }
            },
        }
    }
    let _ = mem_interface.tick(dram);
    if chain.has_output() {
        chain.pop_output()
    } else {
        None
    }
}

} // verus!
