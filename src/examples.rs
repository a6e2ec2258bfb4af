use vstd::prelude::*;

use crate::air::{AIR, BoundaryConstraint, Frame, TraceTable, all_wf, col_values, frame_values, table_values};
use crate::context::AirContext;
use crate::field::{Felt, add_mod, sub_mod, mul_mod};
use crate::transcript::StarkTranscript;

verus! {

/// The quadratic AIR on one column: `t(x + 1) = t(x)²`, with the first value
/// fixed to the public input.
#[derive(Clone, Debug)]
pub struct QuadraticAIR {
    pub context: AirContext,
    pub initial: Felt,
}

/// A context fits the quadratic AIR: one column, offsets 0 and 1, one
/// constraint, and at least one row.
pub open spec fn quadratic_context(ctx: AirContext) -> bool {
    &&& ctx.trace_columns == 1
    &&& ctx.transition_offsets@ == seq![0usize, 1]
    &&& ctx.num_transition_constraints == 1
    &&& ctx.trace_length >= 1
}

impl QuadraticAIR {
    pub fn new(context: AirContext, initial: Felt) -> (r: QuadraticAIR)
        requires
            quadratic_context(context),
            initial.wf(),
        ensures
            r.air_wf(),
            r.context == context,
            r.initial == initial,
    {
        QuadraticAIR { context, initial }
    }
}

impl AIR for QuadraticAIR {
    type RapChallenges = ();

    open spec fn air_context(&self) -> AirContext {
        self.context
    }

    open spec fn air_wf(&self) -> bool {
        quadratic_context(self.context) && self.initial.wf()
    }

    open spec fn rap_wf(&self, rap: &()) -> bool {
        true
    }

    open spec fn rap_spec(&self, absorbed: Seq<u8>) -> ((), Seq<u8>) {
        ((), absorbed)
    }

    open spec fn transition_spec(&self, frame: Seq<Seq<int>>, rap: &()) -> Seq<int> {
        seq![sub_mod(frame[1][0], mul_mod(frame[0][0], frame[0][0]))]
    }

    open spec fn boundary_spec(&self, rap: &()) -> Seq<BoundaryConstraint> {
        seq![BoundaryConstraint { col: 0, step: 0, value: self.initial }]
    }

    open spec fn degree_bound_spec(&self) -> int {
        self.context.trace_length as int
    }

    open spec fn num_aux_spec(&self) -> int {
        0
    }

    fn context(&self) -> (r: &AirContext) {
        &self.context
    }

    fn build_rap_challenges(&self, transcript: &mut StarkTranscript) -> (r: ()) {
    }

    open spec fn aux_spec(&self, main: Seq<Seq<int>>, rap: &()) -> Seq<Seq<int>> {
        Seq::empty()
    }

    fn build_auxiliary_trace(&self, main_trace: &TraceTable, rap: &()) -> (r: Option<TraceTable>) {
        let t = TraceTable::empty();
        proof {
            assert(table_values(t.cols@) =~= Seq::<Seq<int>>::empty());
        }
        Some(t)
    }

    fn number_auxiliary_rap_columns(&self) -> (r: usize) {
        0
    }

    fn composition_poly_degree_bound(&self) -> (r: usize) {
        self.context.trace_length
    }

    fn compute_transition(&self, frame: &Frame, rap: &()) -> (r: Vec<Felt>) {
        let t0 = &frame.rows[0][0];
        let t1 = &frame.rows[1][0];
        let r = vec![t1.sub(&t0.square())];
        proof {
            assert(col_values(r@) =~= self.transition_spec(frame_values(frame.rows@), rap));
        }
        r
    }

    fn boundary_constraints(&self, rap: &()) -> (r: Vec<BoundaryConstraint>) {
        let r = vec![BoundaryConstraint::new_simple(0, self.initial)];
        proof {
            assert(r@ =~= self.boundary_spec(rap));
        }
        r
    }
}

/// The value at row `i` of the quadratic trace from `a`: `a^(2^i)`.
pub open spec fn quadratic_value(a: int, i: nat) -> int
    decreases i,
{
    if i == 0 {
        a
    } else {
        let prev = quadratic_value(a, (i - 1) as nat);
        mul_mod(prev, prev)
    }
}

/// The quadratic trace: each value the square of the one before.
pub fn quadratic_trace(initial_value: Felt, trace_length: usize) -> (r: TraceTable)
    requires
        initial_value.wf(),
        trace_length >= 1,
    ensures
        r.wf(),
        r.cols.len() == 1,
        r.cols@[0].len() == trace_length,
        forall|i: int| 0 <= i < trace_length ==> (#[trigger] r.cols@[0]@[i])@ == quadratic_value(initial_value@, i as nat),
{
    let mut col: Vec<Felt> = vec![initial_value];
    let mut i: usize = 1;
    while i < trace_length
        invariant
            1 <= i <= trace_length,
            col.len() == i,
            all_wf(col@),
            forall|k: int| 0 <= k < i ==> (#[trigger] col@[k])@ == quadratic_value(initial_value@, k as nat),
        decreases trace_length - i,
    {
        let next = col[i - 1].square();
        col.push(next);
        i = i + 1;
    }
    TraceTable { cols: vec![col] }
}

/// An AIR on two columns with constraints of different degrees: column 0 holds
/// bits (`t₀·(t₀ − 1) = 0`, degree 2, no exemption) and column 1 a Fibonacci
/// sequence (`t₁(x + 2) = t₁(x + 1) + t₁(x)`, degree 1, exempt on the last two
/// rows) starting from 1, 1.
#[derive(Clone, Debug)]
pub struct DummyAIR {
    pub context: AirContext,
}

/// A context fits the dummy AIR: two columns, offsets 0, 1, 2, two
/// constraints, and at least two rows.
pub open spec fn dummy_context(ctx: AirContext) -> bool {
    &&& ctx.trace_columns == 2
    &&& ctx.transition_offsets@ == seq![0usize, 1, 2]
    &&& ctx.num_transition_constraints == 2
    &&& ctx.trace_length >= 2
}

impl DummyAIR {
    pub fn new(context: AirContext) -> (r: DummyAIR)
        requires
            dummy_context(context),
        ensures
            r.air_wf(),
            r.context == context,
    {
        DummyAIR { context }
    }
}

impl AIR for DummyAIR {
    type RapChallenges = ();

    open spec fn air_context(&self) -> AirContext {
        self.context
    }

    open spec fn air_wf(&self) -> bool {
        dummy_context(self.context)
    }

    open spec fn rap_wf(&self, rap: &()) -> bool {
        true
    }

    open spec fn rap_spec(&self, absorbed: Seq<u8>) -> ((), Seq<u8>) {
        ((), absorbed)
    }

    open spec fn transition_spec(&self, frame: Seq<Seq<int>>, rap: &()) -> Seq<int> {
        seq![
            mul_mod(frame[0][0], sub_mod(frame[0][0], 1)),
            sub_mod(sub_mod(frame[2][1], frame[1][1]), frame[0][1]),
        ]
    }

    open spec fn boundary_spec(&self, rap: &()) -> Seq<BoundaryConstraint> {
        seq![
            BoundaryConstraint { col: 1, step: 0, value: Felt { l0: 0, l1: 0, l2: 0, l3: 1 } },
            BoundaryConstraint { col: 1, step: 1, value: Felt { l0: 0, l1: 0, l2: 0, l3: 1 } },
        ]
    }

    open spec fn degree_bound_spec(&self) -> int {
        self.context.trace_length as int
    }

    open spec fn num_aux_spec(&self) -> int {
        0
    }

    fn context(&self) -> (r: &AirContext) {
        &self.context
    }

    fn build_rap_challenges(&self, transcript: &mut StarkTranscript) -> (r: ()) {
    }

    open spec fn aux_spec(&self, main: Seq<Seq<int>>, rap: &()) -> Seq<Seq<int>> {
        Seq::empty()
    }

    fn build_auxiliary_trace(&self, main_trace: &TraceTable, rap: &()) -> (r: Option<TraceTable>) {
        let t = TraceTable::empty();
        proof {
            assert(table_values(t.cols@) =~= Seq::<Seq<int>>::empty());
        }
        Some(t)
    }

    fn number_auxiliary_rap_columns(&self) -> (r: usize) {
        0
    }

    fn composition_poly_degree_bound(&self) -> (r: usize) {
        self.context.trace_length
    }

    fn compute_transition(&self, frame: &Frame, rap: &()) -> (r: Vec<Felt>) {
        let b = &frame.rows[0][0];
        let flag = b.mul(&b.sub(&Felt::one()));
        let fib = frame.rows[2][1].sub(&frame.rows[1][1]).sub(&frame.rows[0][1]);
        let r = vec![flag, fib];
        proof {
            assert(col_values(r@) =~= self.transition_spec(frame_values(frame.rows@), rap));
        }
        r
    }

    fn boundary_constraints(&self, rap: &()) -> (r: Vec<BoundaryConstraint>) {
        let r = vec![BoundaryConstraint::new(1, 0, Felt::one()), BoundaryConstraint::new(1, 1, Felt::one())];
        proof {
            assert(r@ =~= self.boundary_spec(rap));
        }
        r
    }
}

/// The Fibonacci AIR on two columns: each row holds two consecutive values,
/// `a' = a + b` and `b' = b + a'`, starting from `a = b = 1`.
#[derive(Clone, Debug)]
pub struct Fibonacci2ColsAIR {
    pub context: AirContext,
}

/// A context fits the two-column Fibonacci AIR: two columns, offsets 0 and 1,
/// two constraints, and at least one row.
pub open spec fn fibonacci_2_cols_context(ctx: AirContext) -> bool {
    &&& ctx.trace_columns == 2
    &&& ctx.transition_offsets@ == seq![0usize, 1]
    &&& ctx.num_transition_constraints == 2
    &&& ctx.trace_length >= 1
}

impl Fibonacci2ColsAIR {
    pub fn new(context: AirContext) -> (r: Fibonacci2ColsAIR)
        requires
            fibonacci_2_cols_context(context),
        ensures
            r.air_wf(),
            r.context == context,
    {
        Fibonacci2ColsAIR { context }
    }
}

impl AIR for Fibonacci2ColsAIR {
    type RapChallenges = ();

    open spec fn air_context(&self) -> AirContext {
        self.context
    }

    open spec fn air_wf(&self) -> bool {
        fibonacci_2_cols_context(self.context)
    }

    open spec fn rap_wf(&self, rap: &()) -> bool {
        true
    }

    open spec fn rap_spec(&self, absorbed: Seq<u8>) -> ((), Seq<u8>) {
        ((), absorbed)
    }

    open spec fn transition_spec(&self, frame: Seq<Seq<int>>, rap: &()) -> Seq<int> {
        seq![
            sub_mod(sub_mod(frame[1][0], frame[0][0]), frame[0][1]),
            sub_mod(sub_mod(frame[1][1], frame[0][1]), frame[1][0]),
        ]
    }

    open spec fn boundary_spec(&self, rap: &()) -> Seq<BoundaryConstraint> {
        seq![
            BoundaryConstraint { col: 0, step: 0, value: Felt { l0: 0, l1: 0, l2: 0, l3: 1 } },
            BoundaryConstraint { col: 1, step: 0, value: Felt { l0: 0, l1: 0, l2: 0, l3: 1 } },
        ]
    }

    open spec fn degree_bound_spec(&self) -> int {
        self.context.trace_length as int
    }

    open spec fn num_aux_spec(&self) -> int {
        0
    }

    fn context(&self) -> (r: &AirContext) {
        &self.context
    }

    fn build_rap_challenges(&self, transcript: &mut StarkTranscript) -> (r: ()) {
    }

    open spec fn aux_spec(&self, main: Seq<Seq<int>>, rap: &()) -> Seq<Seq<int>> {
        Seq::empty()
    }

    fn build_auxiliary_trace(&self, main_trace: &TraceTable, rap: &()) -> (r: Option<TraceTable>) {
        let t = TraceTable::empty();
        proof {
            assert(table_values(t.cols@) =~= Seq::<Seq<int>>::empty());
        }
        Some(t)
    }

    fn number_auxiliary_rap_columns(&self) -> (r: usize) {
        0
    }

    fn composition_poly_degree_bound(&self) -> (r: usize) {
        self.context.trace_length
    }

    fn compute_transition(&self, frame: &Frame, rap: &()) -> (r: Vec<Felt>) {
        let a0 = &frame.rows[0][0];
        let b0 = &frame.rows[0][1];
        let a1 = &frame.rows[1][0];
        let b1 = &frame.rows[1][1];
        let r = vec![a1.sub(a0).sub(b0), b1.sub(b0).sub(a1)];
        proof {
            assert(col_values(r@) =~= self.transition_spec(frame_values(frame.rows@), rap));
        }
        r
    }

    fn boundary_constraints(&self, rap: &()) -> (r: Vec<BoundaryConstraint>) {
        let r = vec![BoundaryConstraint::new(0, 0, Felt::one()), BoundaryConstraint::new(1, 0, Felt::one())];
        proof {
            assert(r@ =~= self.boundary_spec(rap));
        }
        r
    }
}

/// The two-column Fibonacci trace: row `i` holds the values `2i` and `2i + 1`
/// of the sequence from the two initial values.
pub fn fibonacci_trace_2_columns(initial_values: [Felt; 2], trace_length: usize) -> (r: TraceTable)
    requires
        initial_values[0].wf(),
        initial_values[1].wf(),
        trace_length >= 1,
    ensures
        r.wf(),
        r.cols.len() == 2,
        r.cols@[0].len() == trace_length,
        r.cols@[1].len() == trace_length,
        r.cols@[0]@[0] == initial_values[0],
        r.cols@[1]@[0] == initial_values[1],
        forall|i: int| 1 <= i < trace_length ==> (#[trigger] r.cols@[0]@[i])@
            == add_mod(r.cols@[0]@[i - 1]@, r.cols@[1]@[i - 1]@)
            && r.cols@[1]@[i]@ == add_mod(r.cols@[1]@[i - 1]@, r.cols@[0]@[i]@),
{
    let mut a: Vec<Felt> = vec![initial_values[0]];
    let mut b: Vec<Felt> = vec![initial_values[1]];
    let mut i: usize = 1;
    while i < trace_length
        invariant
            1 <= i <= trace_length,
            a.len() == i,
            b.len() == i,
            all_wf(a@),
            all_wf(b@),
            a@[0] == initial_values[0],
            b@[0] == initial_values[1],
            forall|k: int| 1 <= k < i ==> (#[trigger] a@[k])@ == add_mod(a@[k - 1]@, b@[k - 1]@)
                && b@[k]@ == add_mod(b@[k - 1]@, a@[k]@),
        decreases trace_length - i,
    {
        let next_a = a[i - 1].add(&b[i - 1]);
        let next_b = b[i - 1].add(&next_a);
        a.push(next_a);
        b.push(next_b);
        i = i + 1;
    }
    let r = TraceTable { cols: vec![a, b] };
    proof {
        assert(r.cols@[0]@ == a@);
        assert(r.cols@[1]@ == b@);
    }
    r
}

} // verus!
