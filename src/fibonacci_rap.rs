use vstd::prelude::*;

use crate::air::{AIR, BoundaryConstraint, Frame, TraceTable, all_wf, col_values, fib_value, frame_values, table_values};
use crate::context::{AirContext, is_pow2};
use crate::field::{Felt, add_mod, sub_mod, mul_mod, div_mod};
use crate::transcript::{StarkTranscript, challenge_of, draw_felt, transcript_to_field};

verus! {

/// The Fibonacci AIR with a permutation argument: column 0 holds the sequence,
/// column 1 the same values with the first and last swapped, and the auxiliary
/// column 2 a running product that is 1 at both ends exactly when the two
/// columns are permutations of each other. Boundary constraints fix it to 1 on
/// the first and the last row.
#[derive(Clone, Debug)]
pub struct FibonacciRAP {
    pub context: AirContext,
    pub trace_length: usize,
}

/// A context fits the Fibonacci RAP: three columns (two main, one auxiliary),
/// offsets 0, 1, 2, two constraints, and at least two rows.
pub open spec fn fibonacci_rap_context(ctx: AirContext) -> bool {
    &&& ctx.trace_columns == 3
    &&& ctx.transition_offsets@ == seq![0usize, 1, 2]
    &&& ctx.num_transition_constraints == 2
    &&& ctx.trace_length >= 2
}

/// The running product at row `i` of the auxiliary column over columns `a`, `b`.
pub open spec fn aux_value(a: Seq<int>, b: Seq<int>, gamma: int, i: nat) -> int
    decreases i,
{
    if i == 0 {
        1
    } else {
        mul_mod(
            aux_value(a, b, gamma, (i - 1) as nat),
            div_mod(add_mod(a[i - 1], gamma), add_mod(b[i - 1], gamma)),
        )
    }
}

impl FibonacciRAP {
    pub fn new(context: AirContext, trace_length: usize) -> (r: FibonacciRAP)
        ensures
            r.context == context,
            r.trace_length == trace_length,
    {
        FibonacciRAP { context, trace_length }
    }

    pub fn trace_length(&self) -> (r: usize)
        ensures
            r == self.trace_length,
    {
        self.trace_length
    }

    /// The auxiliary column: `z₀ = 1`, `zᵢ = zᵢ₋₁ · (aᵢ₋₁ + γ) / (bᵢ₋₁ + γ)`,
    /// where `a` and `b` are the two main columns.
    pub fn running_product_trace(&self, main_trace: &TraceTable, gamma: &Felt) -> (r: TraceTable)
        requires
            main_trace.wf(),
            main_trace.cols.len() >= 2,
            gamma.wf(),
            forall|i: int| 0 <= i < main_trace.rows() ==>
                add_mod((#[trigger] main_trace.cols@[1]@[i])@, gamma@) != 0,
        ensures
            r.wf(),
            r.cols.len() == 1,
            r.cols@[0].len() == main_trace.rows(),
            forall|i: int| 0 <= i < main_trace.rows() ==> (#[trigger] r.cols@[0]@[i])@
                == aux_value(col_values(main_trace.cols@[0]@), col_values(main_trace.cols@[1]@), gamma@, i as nat),
    {
        let not_perm = &main_trace.cols[0];
        let perm = &main_trace.cols[1];
        let trace_len = main_trace.n_rows();
        let ghost a = col_values(not_perm@);
        let ghost b = col_values(perm@);
        let mut aux_col: Vec<Felt> = Vec::new();
        let mut i: usize = 0;
        while i < trace_len
            invariant
                i <= trace_len,
                trace_len == main_trace.rows(),
                not_perm.len() == trace_len,
                perm.len() == trace_len,
                all_wf(not_perm@),
                all_wf(perm@),
                gamma.wf(),
                a == col_values(not_perm@),
                b == col_values(perm@),
                *not_perm == main_trace.cols@[0],
                *perm == main_trace.cols@[1],
                forall|k: int| 0 <= k < trace_len ==> add_mod((#[trigger] perm@[k])@, gamma@) != 0,
                aux_col.len() == i,
                all_wf(aux_col@),
                forall|k: int| 0 <= k < i ==> (#[trigger] aux_col@[k])@ == aux_value(a, b, gamma@, k as nat),
            decreases trace_len - i,
        {
            if i == 0 {
                aux_col.push(Felt::one());
            } else {
                let n_p_term = not_perm[i - 1].add(gamma);
                let p_term = perm[i - 1].add(gamma);
                let q = n_p_term.div(&p_term);
                let z = aux_col[i - 1].mul(&q);
                aux_col.push(z);
            }
            i = i + 1;
        }
        TraceTable { cols: vec![aux_col] }
    }
}

impl AIR for FibonacciRAP {
    type RapChallenges = Felt;

    open spec fn air_context(&self) -> AirContext {
        self.context
    }

    open spec fn air_wf(&self) -> bool {
        fibonacci_rap_context(self.context) && self.trace_length == self.context.trace_length
    }

    open spec fn rap_wf(&self, rap: &Felt) -> bool {
        rap.wf()
    }

    open spec fn rap_spec(&self, absorbed: Seq<u8>) -> (Felt, Seq<u8>) {
        (draw_felt(challenge_of(absorbed)), challenge_of(absorbed))
    }

    open spec fn transition_spec(&self, frame: Seq<Seq<int>>, rap: &Felt) -> Seq<int> {
        seq![
            sub_mod(sub_mod(frame[2][0], frame[1][0]), frame[0][0]),
            sub_mod(
                mul_mod(frame[1][2], add_mod(frame[0][1], rap@)),
                mul_mod(frame[0][2], add_mod(frame[0][0], rap@)),
            ),
        ]
    }

    open spec fn boundary_spec(&self, rap: &Felt) -> Seq<BoundaryConstraint> {
        seq![
            BoundaryConstraint { col: 0, step: 0, value: Felt { l0: 0, l1: 0, l2: 0, l3: 1 } },
            BoundaryConstraint { col: 0, step: 1, value: Felt { l0: 0, l1: 0, l2: 0, l3: 1 } },
            BoundaryConstraint { col: 2, step: 0, value: Felt { l0: 0, l1: 0, l2: 0, l3: 1 } },
            BoundaryConstraint {
                col: 2,
                step: (self.trace_length - 1) as usize,
                value: Felt { l0: 0, l1: 0, l2: 0, l3: 1 },
            },
        ]
    }

    open spec fn degree_bound_spec(&self) -> int {
        self.trace_length as int
    }

    open spec fn num_aux_spec(&self) -> int {
        1
    }

    fn context(&self) -> (r: &AirContext) {
        &self.context
    }

    fn build_rap_challenges(&self, transcript: &mut StarkTranscript) -> (r: Felt) {
        transcript_to_field(transcript)
    }

    /// One column: the running product over the first two main columns.
    open spec fn aux_spec(&self, main: Seq<Seq<int>>, gamma: &Felt) -> Seq<Seq<int>> {
        seq![Seq::new(main[0].len(), |i: int| aux_value(main[0], main[1], gamma@, i as nat))]
    }

    fn build_auxiliary_trace(&self, main_trace: &TraceTable, gamma: &Felt) -> (r: Option<TraceTable>) {
        let perm = &main_trace.cols[1];
        let mut i: usize = 0;
        while i < perm.len()
            invariant
                i <= perm.len(),
                *perm == main_trace.cols@[1],
                gamma.wf(),
                all_wf(perm@),
                forall|k: int| 0 <= k < i ==> add_mod((#[trigger] perm@[k])@, gamma@) != 0,
            decreases perm.len() - i,
        {
            if perm[i].add(gamma).is_zero() {
                return None;
            }
            i = i + 1;
        }
        proof {
            assert(main_trace.cols@[1].len() == main_trace.rows());
        }
        let t = self.running_product_trace(main_trace, gamma);
        proof {
            let mv = table_values(main_trace.cols@);
            assert(mv[0] == col_values(main_trace.cols@[0]@));
            assert(mv[1] == col_values(main_trace.cols@[1]@));
            assert(main_trace.cols@[0].len() == main_trace.rows());
            assert(col_values(t.cols@[0]@) =~= Seq::new(mv[0].len(), |i: int| aux_value(mv[0], mv[1], gamma@, i as nat)));
            assert(table_values(t.cols@) =~= self.aux_spec(mv, gamma));
        }
        Some(t)
    }

    fn number_auxiliary_rap_columns(&self) -> (r: usize) {
        1
    }

    fn composition_poly_degree_bound(&self) -> (r: usize) {
        self.trace_length
    }

    fn compute_transition(&self, frame: &Frame, gamma: &Felt) -> (r: Vec<Felt>) {
        let first_row = &frame.rows[0];
        let second_row = &frame.rows[1];
        let third_row = &frame.rows[2];
        let main = third_row[0].sub(&second_row[0]).sub(&first_row[0]);
        let z_i = &first_row[2];
        let z_i_plus_one = &second_row[2];
        let a_i = &first_row[0];
        let b_i = &first_row[1];
        let eval = z_i_plus_one.mul(&b_i.add(gamma)).sub(&z_i.mul(&a_i.add(gamma)));
        let r = vec![main, eval];
        proof {
            assert(col_values(r@) =~= self.transition_spec(frame_values(frame.rows@), gamma));
        }
        r
    }

    fn boundary_constraints(&self, rap: &Felt) -> (r: Vec<BoundaryConstraint>) {
        let a0 = BoundaryConstraint::new_simple(0, Felt::one());
        let a1 = BoundaryConstraint::new_simple(1, Felt::one());
        let a0_aux = BoundaryConstraint::new(2, 0, Felt::one());
        let last_aux = BoundaryConstraint::new(2, self.trace_length - 1, Felt::one());
        let r = vec![a0, a1, a0_aux, last_aux];
        proof {
            assert(r@ =~= self.boundary_spec(rap));
        }
        r
    }
}

/// The smallest power of two that is at least `m`.
pub open spec fn next_pow2(m: nat) -> nat
    decreases m,
{
    if m <= 1 {
        1
    } else {
        2 * next_pow2(((m + 1) / 2) as nat)
    }
}

pub(crate) proof fn lemma_next_pow2(m: nat)
    ensures
        is_pow2(next_pow2(m)),
        next_pow2(m) >= m,
        m >= 1 ==> next_pow2(m) < 2 * m,
    decreases m,
{
    if m > 1 {
        lemma_next_pow2(((m + 1) / 2) as nat);
        let p = next_pow2(((m + 1) / 2) as nat);
        assert((2 * p) / 2 == p);
        assert((2 * p) % 2 == 0);
    }
}

/// The smallest power of two that is at least `m`.
pub(crate) fn next_power_of_two(m: usize) -> (r: usize)
    requires
        m <= usize::MAX / 4,
    ensures
        r as nat == next_pow2(m as nat),
    decreases m,
{
    proof {
        lemma_next_pow2(m as nat);
    }
    if m <= 1 {
        1
    } else {
        2 * next_power_of_two((m + 1) / 2)
    }
}

/// The value in the main columns of the Fibonacci RAP trace of `n` steps from
/// `a`, `b`: column 0 the sequence, column 1 the sequence with its first and
/// last values swapped, both padded with zeros.
pub open spec fn rap_trace_value(a: int, b: int, n: nat, col: int, i: int) -> int {
    if i >= n {
        0
    } else if col == 1 && i == 0 {
        fib_value(a, b, (n - 1) as nat)
    } else if col == 1 && i == n - 1 {
        a
    } else {
        fib_value(a, b, i as nat)
    }
}

/// The two main columns of the Fibonacci RAP: the sequence and its permutation
/// that swaps the first and last values, each followed by a zero and padded with
/// zeros to the next power of two.
pub fn fibonacci_rap_trace(initial_values: [Felt; 2], trace_length: usize) -> (r: TraceTable)
    requires
        2 <= trace_length < usize::MAX / 4,
        initial_values[0].wf(),
        initial_values[1].wf(),
    ensures
        r.wf(),
        r.cols.len() == 2,
        r.rows() == next_pow2(trace_length as nat + 1),
        forall|c: int, i: int| 0 <= c < 2 && 0 <= i < r.rows() ==> (#[trigger] r.cols@[c]@[i])@
            == rap_trace_value(initial_values[0]@, initial_values[1]@, trace_length as nat, c, i),
{
    let a = initial_values[0];
    let b = initial_values[1];
    let n = trace_length;
    let mut fib_seq: Vec<Felt> = Vec::new();
    fib_seq.push(a);
    fib_seq.push(b);
    let mut i: usize = 2;
    while i < n
        invariant
            2 <= i <= n,
            fib_seq.len() == i,
            a == initial_values[0],
            b == initial_values[1],
            all_wf(fib_seq@),
            forall|k: int| 0 <= k < i ==> (#[trigger] fib_seq@[k])@ == fib_value(a@, b@, k as nat),
        decreases n - i,
    {
        let next = fib_seq[i - 1].add(&fib_seq[i - 2]);
        fib_seq.push(next);
        i = i + 1;
    }
    let last_value = fib_seq[n - 1];
    let mut fib_permuted = fib_seq.clone();
    proof {
        assert(fib_permuted@ == fib_seq@);
    }
    fib_permuted.set(0, last_value);
    fib_permuted.set(n - 1, a);
    let len = next_power_of_two(n + 1);
    proof {
        lemma_next_pow2(n as nat + 1);
    }
    let mut k: usize = n;
    while k < len
        invariant
            n <= k <= len,
            len == next_pow2(n as nat + 1),
            fib_seq.len() == k,
            fib_permuted.len() == k,
            all_wf(fib_seq@),
            all_wf(fib_permuted@),
            forall|j: int| 0 <= j < k ==> (#[trigger] fib_seq@[j])@
                == rap_trace_value(a@, b@, n as nat, 0, j),
            forall|j: int| 0 <= j < k ==> (#[trigger] fib_permuted@[j])@
                == rap_trace_value(a@, b@, n as nat, 1, j),
        decreases len - k,
    {
        fib_seq.push(Felt::zero());
        fib_permuted.push(Felt::zero());
        k = k + 1;
    }
    let r = TraceTable { cols: vec![fib_seq, fib_permuted] };
    proof {
        assert(r.cols@[0]@ == fib_seq@);
        assert(r.cols@[1]@ == fib_permuted@);
    }
    r
}

} // verus!
