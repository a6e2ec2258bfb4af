use vstd::prelude::*;

verus! {

/// The options a proof is made with.
///
/// - `blowup_factor`: how many times larger the low-degree extension is than the trace
/// - `fri_number_of_queries`: how many FRI queries the verifier draws
/// - `coset_offset`: the offset of the coset the extension is evaluated on
/// - `grinding_factor`: the leading zero bits asked of `Hash(seed ∥ nonce)`
#[derive(Clone, Copy, Debug)]
pub struct ProofOptions {
    pub blowup_factor: u8,
    pub fri_number_of_queries: usize,
    pub coset_offset: u64,
    pub grinding_factor: u8,
}

impl ProofOptions {
    /// The options are admissible: a blowup factor among 2, 4, 8, 16 and 32, at
    /// least one query, a nonzero coset offset and a grinding factor below 32.
    pub open spec fn valid(&self) -> bool {
        (self.blowup_factor == 2 || self.blowup_factor == 4 || self.blowup_factor == 8
            || self.blowup_factor == 16 || self.blowup_factor == 32)
            && self.fri_number_of_queries >= 1
            && self.coset_offset != 0
            && self.grinding_factor < 32
    }

    /// Whether the options are admissible.
    pub fn is_valid(&self) -> (r: bool)
        ensures
            r == self.valid(),
    {
        (self.blowup_factor == 2 || self.blowup_factor == 4 || self.blowup_factor == 8
            || self.blowup_factor == 16 || self.blowup_factor == 32)
            && self.fri_number_of_queries >= 1
            && self.coset_offset != 0
            && self.grinding_factor < 32
    }
}

/// The number of queries and the blowup factor of a proof.
#[derive(Clone, Copy, Debug)]
pub struct ProofConfig {
    pub count_queries: usize,
    pub blowup_factor: usize,
}

/// What an AIR declares about its trace and constraints.
#[derive(Clone, Debug)]
pub struct AirContext {
    pub options: ProofOptions,
    pub trace_length: usize,
    pub trace_columns: usize,
    pub transition_degrees: Vec<usize>,
    pub transition_exemptions: Vec<usize>,
    pub transition_offsets: Vec<usize>,
    pub num_transition_constraints: usize,
}

/// `n` is a power of two.
pub open spec fn is_pow2(n: nat) -> bool
    decreases n,
{
    if n == 1 {
        true
    } else if n == 0 || n % 2 == 1 {
        false
    } else {
        is_pow2(n / 2)
    }
}

impl AirContext {
    /// The context is consistent: one degree and one exemption count per
    /// transition constraint, a power-of-two trace length, degrees at least
    /// one, and fewer exemptions than rows.
    pub open spec fn wf(&self) -> bool {
        &&& self.transition_degrees.len() == self.num_transition_constraints
        &&& self.transition_exemptions.len() == self.num_transition_constraints
        &&& is_pow2(self.trace_length as nat)
        &&& forall|i: int| 0 <= i < self.num_transition_constraints ==>
                #[trigger] self.transition_degrees@[i] >= 1
        &&& forall|i: int| 0 <= i < self.num_transition_constraints ==>
                #[trigger] self.transition_exemptions@[i] < self.trace_length
    }

    pub fn transition_degrees(&self) -> (r: &Vec<usize>)
        ensures
            r@ == self.transition_degrees@,
    {
        &self.transition_degrees
    }

    pub fn num_transition_constraints(&self) -> (r: usize)
        ensures
            r == self.num_transition_constraints,
    {
        self.num_transition_constraints
    }
}

} // verus!
