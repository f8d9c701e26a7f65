//! The pipeline substrate.
//!
//! Every stage keeps a one-slot input queue and a one-slot output
//! queue and advances one simulated cycle per `tick`.  Two stages
//! compose into one stage again: per tick the downstream half runs
//! first, then one item moves across if both sides permit, then the
//! upstream half runs; a chain of `k` empty stages therefore takes
//! exactly `k` cycles to pass one item through.  The costed
//! composition consults a cost function at the transfer moment and
//! holds the downstream half for that many cycles.
//!
//! Each stage describes its own one-cycle transition as the spec
//! relation `step_rel`, and `tick` is bound to it; the transitions of
//! the compositions below state the composition law itself, so what a
//! chain does per cycle follows from what its parts do.

use vstd::prelude::*;

use crate::sliding_window::{InputWindow, OutputWindow};

verus! {

/// `a + b`, stopping at the counter's ceiling.
pub open spec fn sat_add_spec(a: u64, b: u64) -> u64 {
    if a + b > u64::MAX {
        u64::MAX
    } else {
        (a + b) as u64
    }
}

/// Saturating addition for cycle counters.
pub fn sat_add(a: u64, b: u64) -> (r: u64)
    ensures
        r == sat_add_spec(a, b),
        r >= a,
        r >= b,
{
    if a <= u64::MAX - b {
        a + b
    } else {
        u64::MAX
    }
}

/// `a · b`, stopping at the counter's ceiling.
pub open spec fn sat_mul_spec(a: u64, b: u64) -> u64 {
    if a * b > u64::MAX {
        u64::MAX
    } else {
        (a * b) as u64
    }
}

/// Saturating multiplication for cycle counters.
pub fn sat_mul(a: u64, b: u64) -> (r: u64)
    ensures
        r == sat_mul_spec(a, b),
{
    if a == 0 {
        return 0;
    }
    if b <= u64::MAX / a {
        proof {
            assert(a * b <= u64::MAX) by (nonlinear_arith)
                requires
                    a >= 1,
                    b <= u64::MAX as int / a as int,
            ;
        }
        a * b
    } else {
        proof {
            assert(a * b > u64::MAX) by (nonlinear_arith)
                requires
                    a >= 1,
                    b > u64::MAX as int / a as int,
            ;
        }
        u64::MAX
    }
}

/// The value behind an optional reference.
pub open spec fn opt_value<T>(o: Option<&T>) -> Option<T> {
    match o {
        Some(t) => Some(*t),
        None => None,
    }
}

/// The protocol every pipeline stage obeys: a one-slot input side, a
/// one-slot output side, a per-cycle `tick` bound to the stage's own
/// transition relation `step_rel`, and a work counter that `tick`
/// never decreases.
pub trait Stage: Sized {
    type Input;

    type Output;

    type InputInfo;

    type OutputInfo;

    /// Whether the input slot is free.
    spec fn ready(&self) -> bool;

    /// Whether the output slot holds an item.
    spec fn has_out(&self) -> bool;

    /// The cycle work this stage has accounted so far.
    spec fn counter(&self) -> int;

    /// The item the output slot holds: what `pop_output` returns.
    spec fn out_item(&self) -> Option<Self::Output>;

    /// What the input side reports to a cost model.
    spec fn in_info(&self) -> Option<Self::InputInfo>;

    /// What the output side reports to a cost model.
    spec fn out_info(&self) -> Option<Self::OutputInfo>;

    /// What `push_input` does to the stage.
    spec fn push_spec(self, x: Self::Input) -> Self;

    /// What `pop_output` does to the stage.
    spec fn pop_spec(self) -> Self;

    /// The stage's one-cycle transition: everything `tick` may do.
    spec fn step_rel(self, post: Self) -> bool;

    fn can_accept_input(&self) -> (r: bool)
        ensures
            r == self.ready(),
    ;

    fn has_output(&self) -> (r: bool)
        ensures
            r == self.has_out(),
            r == (self.out_item() is Some),
    ;

    fn push_input(&mut self, input: Self::Input)
        requires
            old(self).ready(),
        ensures
            *final(self) == old(self).push_spec(input),
            final(self).counter() == old(self).counter(),
    ;

    fn pop_output(&mut self) -> (r: Option<Self::Output>)
        ensures
            r == old(self).out_item(),
            (r is Some) == old(self).has_out(),
            *final(self) == old(self).pop_spec(),
            !final(self).has_out(),
            final(self).counter() == old(self).counter(),
    ;

    fn peek_input_info(&self) -> (r: Option<&Self::InputInfo>)
        ensures
            match r {
                Some(x) => self.in_info() == Some(*x),
                None => self.in_info() is None,
            },
    ;

    fn peek_output_info(&self) -> (r: Option<&Self::OutputInfo>)
        ensures
            match r {
                Some(x) => self.out_info() == Some(*x),
                None => self.out_info() is None,
            },
    ;

    /// Advance one simulated cycle, as `step_rel` describes.  The
    /// work counter is monotonic: no tick ever takes accounted cycles
    /// back.
    fn tick(&mut self)
        ensures
            old(self).step_rel(*final(self)),
            final(self).counter() >= old(self).counter(),
    ;
}

/// The zero-work latch: whatever it accepts it emits one tick later.
#[derive(Debug)]
pub struct DoubleBuffer<T> {
    pub in_slot: Option<T>,
    pub out_slot: Option<T>,
}

impl<T> DoubleBuffer<T> {
    pub fn new() -> (r: Self)
        ensures
            r.in_slot is None,
            r.out_slot is None,
    {
        DoubleBuffer { in_slot: None, out_slot: None }
    }
}

impl<T> Stage for DoubleBuffer<T> {
    type Input = T;

    type Output = T;

    type InputInfo = T;

    type OutputInfo = T;

    open spec fn ready(&self) -> bool {
        self.in_slot is None
    }

    open spec fn has_out(&self) -> bool {
        self.out_slot is Some
    }

    open spec fn counter(&self) -> int {
        0
    }

    open spec fn out_item(&self) -> Option<T> {
        self.out_slot
    }

    open spec fn in_info(&self) -> Option<T> {
        self.in_slot
    }

    open spec fn out_info(&self) -> Option<T> {
        self.out_slot
    }

    open spec fn push_spec(self, x: T) -> Self {
        DoubleBuffer { in_slot: Some(x), out_slot: self.out_slot }
    }

    open spec fn pop_spec(self) -> Self {
        DoubleBuffer { in_slot: self.in_slot, out_slot: None }
    }

    /// The held item moves forward exactly when the output slot is
    /// free.
    open spec fn step_rel(self, post: Self) -> bool {
        if self.out_slot is None {
            post == (DoubleBuffer { in_slot: None, out_slot: self.in_slot })
        } else {
            post == self
        }
    }

    fn can_accept_input(&self) -> (r: bool) {
        self.in_slot.is_none()
    }

    fn has_output(&self) -> (r: bool) {
        self.out_slot.is_some()
    }

    fn push_input(&mut self, input: T) {
        self.in_slot = Some(input);
    }

    fn pop_output(&mut self) -> (r: Option<T>) {
        self.out_slot.take()
    }

    fn peek_input_info(&self) -> (r: Option<&T>) {
        self.in_slot.as_ref()
    }

    fn peek_output_info(&self) -> (r: Option<&T>) {
        self.out_slot.as_ref()
    }

    fn tick(&mut self) {
        if self.out_slot.is_none() {
            self.out_slot = self.in_slot.take();
        }
    }
}

/// Two stages composed into one: input side of `a`, output side of
/// `b`, downstream-first ticking.
#[derive(Debug)]
pub struct Link<A, B> {
    pub a: A,
    pub b: B,
}

impl<A: Stage, B: Stage<Input = A::Output>> Link<A, B> {
    pub fn new(a: A, b: B) -> (r: Self)
        ensures
            r.a == a,
            r.b == b,
    {
        Link { a, b }
    }
}

impl<A: Stage, B: Stage<Input = A::Output>> Stage for Link<A, B> {
    type Input = A::Input;

    type Output = B::Output;

    type InputInfo = A::InputInfo;

    type OutputInfo = B::OutputInfo;

    open spec fn ready(&self) -> bool {
        self.a.ready()
    }

    open spec fn has_out(&self) -> bool {
        self.b.has_out()
    }

    open spec fn counter(&self) -> int {
        self.a.counter() + self.b.counter()
    }

    open spec fn out_item(&self) -> Option<B::Output> {
        self.b.out_item()
    }

    open spec fn in_info(&self) -> Option<A::InputInfo> {
        self.a.in_info()
    }

    open spec fn out_info(&self) -> Option<B::OutputInfo> {
        self.b.out_info()
    }

    open spec fn push_spec(self, x: A::Input) -> Self {
        Link { a: self.a.push_spec(x), b: self.b }
    }

    open spec fn pop_spec(self) -> Self {
        Link { a: self.a, b: self.b.pop_spec() }
    }

    /// The composition law: per cycle the downstream stage steps
    /// first; then, exactly when the stepped downstream side can
    /// accept and the upstream side holds an output, that item — and
    /// no other — moves across; then the upstream stage steps.
    open spec fn step_rel(self, post: Self) -> bool {
        exists|b1: B|
            {
                &&& #[trigger] self.b.step_rel(b1)
                &&& if b1.ready() && self.a.has_out() {
                    &&& self.a.out_item() is Some
                    &&& self.a.pop_spec().step_rel(post.a)
                    &&& post.b == b1.push_spec(self.a.out_item()->Some_0)
                } else {
                    &&& self.a.step_rel(post.a)
                    &&& post.b == b1
                }
            }
    }

    fn can_accept_input(&self) -> (r: bool) {
        self.a.can_accept_input()
    }

    fn has_output(&self) -> (r: bool) {
        self.b.has_output()
    }

    fn push_input(&mut self, input: A::Input) {
        self.a.push_input(input);
    }

    fn pop_output(&mut self) -> (r: Option<B::Output>) {
        self.b.pop_output()
    }

    fn peek_input_info(&self) -> (r: Option<&A::InputInfo>) {
        self.a.peek_input_info()
    }

    fn peek_output_info(&self) -> (r: Option<&B::OutputInfo>) {
        self.b.peek_output_info()
    }

    /// Tick downstream, transfer if both sides permit, tick upstream.
    fn tick(&mut self) {
        let ghost pre = *self;
        self.b.tick();
        let ghost b1 = self.b;
        if self.b.can_accept_input() && self.a.has_output() {
            match self.a.pop_output() {
                Some(v) => self.b.push_input(v),
                None => {
                    proof {
                        assert(false);
                    }
                },
            }
        }
        self.a.tick();
        proof {
            assert(pre.b.step_rel(b1));
            assert(pre.step_rel(*self));
        }
    }
}

/// A pluggable per-item cost model, consulted at the transfer moment
/// with the upstream stage's peeked output information and the
/// downstream stage's peeked input information.  `compute` is the
/// charge the pipeline pays; `stat_compute` is the value recorded in
/// the statistics, which a model that charges a multiple of its
/// accounted work keeps at the plain value.
pub trait CostFn<X, Y>: Sized {
    /// The work count the model charges the pipeline.
    spec fn spec_compute(&self, x: Option<X>, y: Option<Y>) -> u64;

    /// The work count the model records in the statistics.
    spec fn spec_stat(&self, x: Option<X>, y: Option<Y>) -> u64;

    fn compute(&self, x: Option<&X>, y: Option<&Y>) -> (r: u64)
        ensures
            r == self.spec_compute(opt_value(x), opt_value(y)),
    ;

    fn stat_compute(&self, x: Option<&X>, y: Option<&Y>) -> (r: u64)
        ensures
            r == self.spec_stat(opt_value(x), opt_value(y)),
    ;
}

/// The constant cost model: every transfer charges the same count,
/// whatever moves across.
pub struct FlatCost {
    pub per_item: u64,
}

impl<X, Y> CostFn<X, Y> for FlatCost {
    open spec fn spec_compute(&self, x: Option<X>, y: Option<Y>) -> u64 {
        self.per_item
    }

    open spec fn spec_stat(&self, x: Option<X>, y: Option<Y>) -> u64 {
        self.per_item
    }

    fn compute(&self, x: Option<&X>, y: Option<&Y>) -> (r: u64) {
        self.per_item
    }

    fn stat_compute(&self, x: Option<&X>, y: Option<&Y>) -> (r: u64) {
        self.per_item
    }
}

/// Two stages composed through a cost model: at the transfer moment
/// the model is consulted and the downstream half is held — no new
/// item moved across, no output reported — until the returned count
/// of work cycles has elapsed.
pub struct CostLink<A: Stage, B: Stage<Input = A::Output>, F: CostFn<
    A::OutputInfo,
    B::InputInfo,
>> {
    pub a: A,
    pub b: B,
    pub cost: F,
    pub pending: u64,
    pub cost_total: u64,
    pub stat_total: u64,
}

impl<A: Stage, B: Stage<Input = A::Output>, F: CostFn<A::OutputInfo, B::InputInfo>> CostLink<
    A,
    B,
    F,
> {
    pub fn new(a: A, b: B, cost: F) -> (r: Self)
        ensures
            r.a == a,
            r.b == b,
            r.cost == cost,
            r.pending == 0,
            r.cost_total == 0,
            r.stat_total == 0,
    {
        CostLink { a, b, cost, pending: 0, cost_total: 0, stat_total: 0 }
    }

    /// The sum of every work count the cost model has installed on
    /// the pipeline.
    pub fn get_cost_total(&self) -> (r: u64)
        ensures
            r == self.cost_total,
    {
        self.cost_total
    }

    /// The sum of every work count the cost model has recorded for
    /// the statistics.
    pub fn get_stat_total(&self) -> (r: u64)
        ensures
            r == self.stat_total,
    {
        self.stat_total
    }

    /// The downstream half's part of one tick: while work cycles
    /// remain, one is burned instead of running the downstream stage;
    /// otherwise the downstream stage steps.
    pub open spec fn down_rel(self, b1: B, p1: u64) -> bool {
        if self.pending > 0 {
            b1 == self.b && p1 == (self.pending - 1) as u64
        } else {
            self.b.step_rel(b1) && p1 == 0u64
        }
    }
}

impl<A: Stage, B: Stage<Input = A::Output>, F: CostFn<A::OutputInfo, B::InputInfo>> Stage
    for CostLink<A, B, F> {
    type Input = A::Input;

    type Output = B::Output;

    type InputInfo = A::InputInfo;

    type OutputInfo = B::OutputInfo;

    open spec fn ready(&self) -> bool {
        self.a.ready()
    }

    open spec fn has_out(&self) -> bool {
        self.pending == 0 && self.b.has_out()
    }

    open spec fn counter(&self) -> int {
        self.a.counter() + self.b.counter() + self.cost_total
    }

    open spec fn out_item(&self) -> Option<B::Output> {
        if self.pending == 0 {
            self.b.out_item()
        } else {
            None
        }
    }

    open spec fn in_info(&self) -> Option<A::InputInfo> {
        self.a.in_info()
    }

    open spec fn out_info(&self) -> Option<B::OutputInfo> {
        if self.pending == 0 {
            self.b.out_info()
        } else {
            None
        }
    }

    open spec fn push_spec(self, x: A::Input) -> Self {
        CostLink { a: self.a.push_spec(x), ..self }
    }

    open spec fn pop_spec(self) -> Self {
        if self.pending == 0 {
            CostLink { b: self.b.pop_spec(), ..self }
        } else {
            self
        }
    }

    /// The costed composition law: the downstream half burns a work
    /// cycle or steps; then, exactly when no work remains, the
    /// stepped downstream side can accept and the upstream side holds
    /// an output, that item moves across while the cost model's
    /// charge is installed on the link and added to the totals; then
    /// the upstream stage steps.
    open spec fn step_rel(self, post: Self) -> bool {
        exists|b1: B, p1: u64|
            {
                &&& #[trigger] self.down_rel(b1, p1)
                &&& post.cost == self.cost
                &&& if p1 == 0 && b1.ready() && self.a.has_out() {
                    let c = self.cost.spec_compute(self.a.out_info(), b1.in_info());
                    let s = self.cost.spec_stat(self.a.out_info(), b1.in_info());
                    &&& self.a.out_item() is Some
                    &&& self.a.pop_spec().step_rel(post.a)
                    &&& post.b == b1.push_spec(self.a.out_item()->Some_0)
                    &&& post.pending == c
                    &&& post.cost_total == sat_add_spec(self.cost_total, c)
                    &&& post.stat_total == sat_add_spec(self.stat_total, s)
                } else {
                    &&& self.a.step_rel(post.a)
                    &&& post.b == b1
                    &&& post.pending == p1
                    &&& post.cost_total == self.cost_total
                    &&& post.stat_total == self.stat_total
                }
            }
    }

    fn can_accept_input(&self) -> (r: bool) {
        self.a.can_accept_input()
    }

    fn has_output(&self) -> (r: bool) {
        self.pending == 0 && self.b.has_output()
    }

    fn push_input(&mut self, input: A::Input) {
        self.a.push_input(input);
    }

    fn pop_output(&mut self) -> (r: Option<B::Output>) {
        if self.pending == 0 {
            self.b.pop_output()
        } else {
            None
        }
    }

    fn peek_input_info(&self) -> (r: Option<&A::InputInfo>) {
        self.a.peek_input_info()
    }

    fn peek_output_info(&self) -> (r: Option<&B::OutputInfo>) {
        if self.pending == 0 {
            self.b.peek_output_info()
        } else {
            None
        }
    }

    /// While work cycles remain, burn one instead of running the
    /// downstream half; at the transfer moment install the cost
    /// model's charge on the link and record its statistics value.
    fn tick(&mut self) {
        let ghost pre = *self;
        if self.pending > 0 {
            self.pending = self.pending - 1;
        } else {
            self.b.tick();
        }
        let ghost b1 = self.b;
        let ghost p1 = self.pending;
        if self.pending == 0 && self.b.can_accept_input() && self.a.has_output() {
            let c = self.cost.compute(self.a.peek_output_info(), self.b.peek_input_info());
            let s = self.cost.stat_compute(self.a.peek_output_info(), self.b.peek_input_info());
            match self.a.pop_output() {
                Some(v) => self.b.push_input(v),
                None => {
                    proof {
                        assert(false);
                    }
                },
            }
            self.pending = c;
            self.cost_total = sat_add(self.cost_total, c);
            self.stat_total = sat_add(self.stat_total, s);
        }
        self.a.tick();
        proof {
            assert(pre.down_rel(b1, p1));
            assert(pre.step_rel(*self));
        }
    }
}

/// The latch in front of the aggregation stage.
pub type InputBuffer = DoubleBuffer<InputWindow>;

/// The latch that models the MLP stage's queue.
pub type MlpBuffer = DoubleBuffer<OutputWindow>;

/// The latch that models the sparsifier stage's queue.
pub type SparsifyBuffer = DoubleBuffer<OutputWindow>;

/// The latch at the pipeline's end.
pub type OutputBuffer = DoubleBuffer<OutputWindow>;

} // verus!
