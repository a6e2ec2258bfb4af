use vstd::prelude::*;

use crate::context::AirContext;
use crate::field::{Felt, add_mod, sub_mod, mul_mod, div_mod};
use crate::transcript::StarkTranscript;

verus! {

/// A trace table: columns of equal length.
#[derive(Clone, Debug)]
pub struct TraceTable {
    pub cols: Vec<Vec<Felt>>,
}

/// The values of a column.
pub open spec fn col_values(c: Seq<Felt>) -> Seq<int> {
    c.map_values(|x: Felt| x@)
}

/// The values of a table's columns.
pub open spec fn table_values(cols: Seq<Vec<Felt>>) -> Seq<Seq<int>> {
    cols.map_values(|c: Vec<Felt>| col_values(c@))
}

/// All elements of a sequence are reduced.
pub open spec fn all_wf(s: Seq<Felt>) -> bool {
    forall|i: int| 0 <= i < s.len() ==> #[trigger] s[i].wf()
}

impl TraceTable {
    /// All columns have one length and hold reduced elements.
    pub open spec fn wf(&self) -> bool {
        &&& forall|j: int| 0 <= j < self.cols.len() ==>
                #[trigger] self.cols@[j].len() == self.cols@[0].len()
        &&& forall|j: int| 0 <= j < self.cols.len() ==> all_wf(#[trigger] self.cols@[j]@)
    }

    pub open spec fn rows(&self) -> nat {
        if self.cols.len() == 0 {
            0
        } else {
            self.cols@[0]@.len()
        }
    }

    /// A table with no columns.
    pub fn empty() -> (r: TraceTable)
        ensures
            r.wf(),
            r.cols.len() == 0,
    {
        TraceTable { cols: Vec::new() }
    }

    pub fn n_cols(&self) -> (r: usize)
        ensures
            r == self.cols.len(),
    {
        self.cols.len()
    }

    pub fn n_rows(&self) -> (r: usize)
        ensures
            r == self.rows(),
    {
        if self.cols.len() == 0 {
            0
        } else {
            self.cols[0].len()
        }
    }
}

/// A constraint that fixes the value of one cell of the trace.
#[derive(Clone, Copy, Debug)]
pub struct BoundaryConstraint {
    pub col: usize,
    pub step: usize,
    pub value: Felt,
}

impl BoundaryConstraint {
    pub fn new(col: usize, step: usize, value: Felt) -> (r: BoundaryConstraint)
        ensures
            r == (BoundaryConstraint { col, step, value }),
    {
        BoundaryConstraint { col, step, value }
    }

    /// A constraint on the first column.
    pub fn new_simple(step: usize, value: Felt) -> (r: BoundaryConstraint)
        ensures
            r == (BoundaryConstraint { col: 0, step, value }),
    {
        BoundaryConstraint { col: 0, step, value }
    }
}

/// The rows of the trace that one evaluation of the transition constraints
/// reads: row `k` is the trace at the `k`-th transition offset.
#[derive(Clone, Debug)]
pub struct Frame {
    pub rows: Vec<Vec<Felt>>,
}

/// The values of a frame.
pub open spec fn frame_values(f: Seq<Vec<Felt>>) -> Seq<Seq<int>> {
    f.map_values(|row: Vec<Felt>| col_values(row@))
}

impl Frame {
    /// The frame fits a context: one row per offset, one element per column,
    /// all reduced.
    pub open spec fn fits(&self, ctx: AirContext) -> bool {
        &&& self.rows.len() == ctx.transition_offsets.len()
        &&& forall|k: int| 0 <= k < self.rows.len() ==>
                (#[trigger] self.rows@[k]).len() == ctx.trace_columns
        &&& forall|k: int| 0 <= k < self.rows.len() ==> all_wf(#[trigger] self.rows@[k]@)
    }
}

/// An algebraic intermediate representation: a trace layout with boundary and
/// transition constraints.
pub trait AIR {
    /// What the AIR draws from the transcript after the main trace is committed.
    type RapChallenges;

    /// The AIR's context.
    spec fn air_context(&self) -> AirContext;

    /// The AIR is consistent with its context.
    spec fn air_wf(&self) -> bool;

    /// Challenges of this AIR are well formed.
    spec fn rap_wf(&self, rap: &Self::RapChallenges) -> bool;

    /// The values of the transition constraints on a frame.
    spec fn transition_spec(&self, frame: Seq<Seq<int>>, rap: &Self::RapChallenges) -> Seq<int>;

    /// The boundary constraints.
    spec fn boundary_spec(&self, rap: &Self::RapChallenges) -> Seq<BoundaryConstraint>;

    fn context(&self) -> (r: &AirContext)
        ensures
            *r == self.air_context();

    /// The challenges drawn from a sponge holding `absorbed`, and what the
    /// sponge holds afterwards.
    spec fn rap_spec(&self, absorbed: Seq<u8>) -> (Self::RapChallenges, Seq<u8>);

    fn build_rap_challenges(&self, transcript: &mut StarkTranscript) -> (r: Self::RapChallenges)
        ensures
            self.rap_wf(&r),
            (r, final(transcript).absorbed@) == self.rap_spec(old(transcript).absorbed@);

    /// The values of the auxiliary columns built from the main columns' values.
    spec fn aux_spec(&self, main: Seq<Seq<int>>, rap: &Self::RapChallenges) -> Seq<Seq<int>>;

    /// The auxiliary columns built from the main trace and the challenges;
    /// `None` when the challenges make them undefined.
    fn build_auxiliary_trace(&self, main_trace: &TraceTable, rap: &Self::RapChallenges) -> (r: Option<TraceTable>)
        requires
            self.air_wf(),
            self.rap_wf(rap),
            main_trace.wf(),
            main_trace.cols.len() + self.num_aux_spec() == self.air_context().trace_columns,
            main_trace.rows() == self.air_context().trace_length,
        ensures
            r matches Some(t) ==> t.wf() && t.cols.len() == self.num_aux_spec()
                && (t.cols.len() > 0 ==> t.rows() == self.air_context().trace_length)
                && table_values(t.cols@) == self.aux_spec(table_values(main_trace.cols@), rap);

    /// The number of auxiliary columns.
    spec fn num_aux_spec(&self) -> int;

    fn number_auxiliary_rap_columns(&self) -> (r: usize)
        requires
            self.air_wf(),
        ensures
            r == self.num_aux_spec(),
            r <= self.air_context().trace_columns;

    /// The bound on the composition polynomial's degree.
    spec fn degree_bound_spec(&self) -> int;

    fn composition_poly_degree_bound(&self) -> (r: usize)
        requires
            self.air_wf(),
        ensures
            r == self.degree_bound_spec();

    fn compute_transition(&self, frame: &Frame, rap: &Self::RapChallenges) -> (r: Vec<Felt>)
        requires
            self.air_wf(),
            self.rap_wf(rap),
            frame.fits(self.air_context()),
        ensures
            r.len() == self.air_context().num_transition_constraints,
            all_wf(r@),
            col_values(r@) == self.transition_spec(frame_values(frame.rows@), rap);

    fn boundary_constraints(&self, rap: &Self::RapChallenges) -> (r: Vec<BoundaryConstraint>)
        requires
            self.air_wf(),
            self.rap_wf(rap),
        ensures
            r@ == self.boundary_spec(rap),
            forall|i: int| 0 <= i < r.len() ==> (#[trigger] r@[i]).col < self.air_context().trace_columns
                && r@[i].step < self.air_context().trace_length && r@[i].value.wf();
}

/// The Fibonacci AIR on one column: `t(x + 2) = t(x + 1) + t(x)`, `t(0) = t(1) = 1`.
#[derive(Clone, Debug)]
pub struct FibonacciAIR {
    pub context: AirContext,
}

/// A context fits the Fibonacci AIR: one column, offsets 0, 1, 2, one
/// constraint, and at least two rows.
pub open spec fn fibonacci_context(ctx: AirContext) -> bool {
    &&& ctx.trace_columns == 1
    &&& ctx.transition_offsets@ == seq![0usize, 1, 2]
    &&& ctx.num_transition_constraints == 1
    &&& ctx.trace_length >= 2
}

impl FibonacciAIR {
    pub fn from_context(context: AirContext) -> (r: FibonacciAIR)
        requires
            fibonacci_context(context),
        ensures
            r.air_context() == context,
            r.air_wf(),
    {
        FibonacciAIR { context }
    }
}

impl AIR for FibonacciAIR {
    type RapChallenges = ();

    open spec fn air_context(&self) -> AirContext {
        self.context
    }

    open spec fn air_wf(&self) -> bool {
        fibonacci_context(self.context)
    }

    open spec fn rap_wf(&self, rap: &()) -> bool {
        true
    }

    open spec fn rap_spec(&self, absorbed: Seq<u8>) -> ((), Seq<u8>) {
        ((), absorbed)
    }

    open spec fn transition_spec(&self, frame: Seq<Seq<int>>, rap: &()) -> Seq<int> {
        seq![sub_mod(sub_mod(frame[2][0], frame[1][0]), frame[0][0])]
    }

    open spec fn boundary_spec(&self, rap: &()) -> Seq<BoundaryConstraint> {
        seq![
            BoundaryConstraint { col: 0, step: 0, value: Felt { l0: 0, l1: 0, l2: 0, l3: 1 } },
            BoundaryConstraint { col: 0, step: 1, value: Felt { l0: 0, l1: 0, l2: 0, l3: 1 } },
        ]
    }

    open spec fn degree_bound_spec(&self) -> int {
        self.context.trace_length as int
    }

    open spec fn num_aux_spec(&self) -> int {
        0
    }

    fn context(&self) -> (r: &AirContext) {
        &self.context
    }

    fn build_rap_challenges(&self, transcript: &mut StarkTranscript) -> (r: ()) {
    }

    open spec fn aux_spec(&self, main: Seq<Seq<int>>, rap: &()) -> Seq<Seq<int>> {
        Seq::empty()
    }

    fn build_auxiliary_trace(&self, main_trace: &TraceTable, rap: &()) -> (r: Option<TraceTable>) {
        let t = TraceTable::empty();
        proof {
            assert(table_values(t.cols@) =~= Seq::<Seq<int>>::empty());
        }
        Some(t)
    }

    fn number_auxiliary_rap_columns(&self) -> (r: usize) {
        0
    }

    fn composition_poly_degree_bound(&self) -> (r: usize) {
        self.context.trace_length
    }

    fn compute_transition(&self, frame: &Frame, rap: &()) -> (r: Vec<Felt>) {
        let first = &frame.rows[0];
        let second = &frame.rows[1];
        let third = &frame.rows[2];
        let v = third[0].sub(&second[0]).sub(&first[0]);
        let r = vec![v];
        proof {
            assert(col_values(r@) =~= self.transition_spec(frame_values(frame.rows@), rap));
        }
        r
    }

    fn boundary_constraints(&self, rap: &()) -> (r: Vec<BoundaryConstraint>) {
        let a0 = BoundaryConstraint::new_simple(0, Felt::one());
        let a1 = BoundaryConstraint::new_simple(1, Felt::one());
        let r = vec![a0, a1];
        proof {
            assert(r@ =~= self.boundary_spec(rap));
        }
        r
    }
}

/// The value at row `i` of the Fibonacci sequence from `a`, `b`, in the field.
pub open spec fn fib_value(a: int, b: int, i: nat) -> int
    decreases i,
{
    if i == 0 {
        a
    } else if i == 1 {
        b
    } else {
        add_mod(fib_value(a, b, (i - 1) as nat), fib_value(a, b, (i - 2) as nat))
    }
}

/// The Fibonacci sequence from two values, `trace_length` elements.
fn fibonacci_column(initial_values: &[Felt; 2], trace_length: usize) -> (r: Vec<Felt>)
    requires
        trace_length >= 2,
        initial_values[0].wf(),
        initial_values[1].wf(),
    ensures
        r.len() == trace_length,
        all_wf(r@),
        forall|i: int| 0 <= i < trace_length ==>
            (#[trigger] r@[i])@ == fib_value(initial_values[0]@, initial_values[1]@, i as nat),
{
    let a = initial_values[0];
    let b = initial_values[1];
    let mut ret: Vec<Felt> = Vec::new();
    ret.push(a);
    ret.push(b);
    let mut i: usize = 2;
    while i < trace_length
        invariant
            2 <= i <= trace_length,
            ret.len() == i,
            a == initial_values[0],
            b == initial_values[1],
            all_wf(ret@),
            forall|k: int| 0 <= k < i ==> (#[trigger] ret@[k])@ == fib_value(a@, b@, k as nat),
        decreases trace_length - i,
    {
        let next = ret[i - 1].add(&ret[i - 2]);
        ret.push(next);
        i = i + 1;
    }
    ret
}

/// The one-column trace of the Fibonacci sequence from two values.
pub fn fibonacci_trace(initial_values: [Felt; 2], trace_length: usize) -> (r: TraceTable)
    requires
        trace_length >= 2,
        initial_values[0].wf(),
        initial_values[1].wf(),
    ensures
        r.wf(),
        r.cols.len() == 1,
        r.cols@[0].len() == trace_length,
        forall|i: int| 0 <= i < trace_length ==>
            (#[trigger] r.cols@[0]@[i])@ == fib_value(initial_values[0]@, initial_values[1]@, i as nat),
{
    let col = fibonacci_column(&initial_values, trace_length);
    TraceTable { cols: vec![col] }
}

} // verus!
