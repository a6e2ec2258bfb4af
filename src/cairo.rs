use vstd::prelude::*;
use vstd::string::StringExecFns;

use crate::air::{all_wf, col_values};
use crate::context::{AirContext, ProofOptions};
use crate::field::{Felt, add_mod, sub_mod, mul_mod, div_mod};

verus! {

/// The memory segments of a Cairo run that the public input names.
#[derive(Clone, Copy, Debug, PartialEq, Eq, Hash, Structural)]
pub enum MemorySegment {
    RangeCheck,
    Output,
}

/// A half-open range of memory addresses, `start..end`.
#[derive(Clone, Copy, Debug, PartialEq, Eq, Structural)]
pub struct SegmentRange {
    pub start: u64,
    pub end: u64,
}

/// The address range of each memory segment that a run uses.
#[derive(Clone, Copy, Debug, PartialEq, Eq, Structural)]
pub struct MemorySegmentMap {
    pub range_check: Option<SegmentRange>,
    pub output: Option<SegmentRange>,
}

impl MemorySegmentMap {
    pub fn new() -> (r: MemorySegmentMap)
        ensures
            r.range_check is None,
            r.output is None,
    {
        MemorySegmentMap { range_check: None, output: None }
    }

    /// The range of a segment, if the run uses it.
    pub fn get(&self, segment: MemorySegment) -> (r: Option<SegmentRange>)
        ensures
            r == (match segment {
                MemorySegment::RangeCheck => self.range_check,
                MemorySegment::Output => self.output,
            }),
    {
        match segment {
            MemorySegment::RangeCheck => self.range_check,
            MemorySegment::Output => self.output,
        }
    }

    /// Sets the range of a segment.
    pub fn insert(&mut self, segment: MemorySegment, range: SegmentRange)
        ensures
            final(self).get_spec(segment) == Some(range),
            segment == MemorySegment::RangeCheck ==> final(self).output == old(self).output,
            segment == MemorySegment::Output ==> final(self).range_check == old(self).range_check,
    {
        match segment {
            MemorySegment::RangeCheck => self.range_check = Some(range),
            MemorySegment::Output => self.output = Some(range),
        }
    }

    pub open spec fn get_spec(&self, segment: MemorySegment) -> Option<SegmentRange> {
        match segment {
            MemorySegment::RangeCheck => self.range_check,
            MemorySegment::Output => self.output,
        }
    }
}

/// The segment map of a run: the range-check builtin's range and the output
/// range, each where the run has one.
pub fn create_memory_segment_map(
    range_check_builtin_range: Option<SegmentRange>,
    output_range: &Option<SegmentRange>,
) -> (r: MemorySegmentMap)
    ensures
        r.range_check == range_check_builtin_range,
        r.output == *output_range,
{
    let mut memory_segments = MemorySegmentMap::new();
    if let Some(range) = range_check_builtin_range {
        memory_segments.insert(MemorySegment::RangeCheck, range);
    }
    if let Some(range) = output_range {
        memory_segments.insert(MemorySegment::Output, *range);
    }
    memory_segments
}

/// The path of a Cairo program: `<base_dir>/cairo_programs/<program_name>`.
pub fn program_path(base_dir: &str, program_name: &str) -> (r: String)
    ensures
        r@ == base_dir@ + "/cairo_programs/"@ + program_name@,
{
    let mut path = String::from_str(base_dir);
    path.append("/cairo_programs/");
    path.append(program_name);
    path
}

/// Columns of the Cairo trace without the range-check builtin.
pub const CAIRO_BASE_COLUMNS: usize = 52;

/// Columns that the range-check builtin adds: eight for the decomposition, one
/// for the value.
pub const RC_BUILTIN_COLUMNS: usize = 9;

/// The auxiliary columns' index shift when the range-check builtin is absent.
pub const BUILTIN_OFFSET: usize = 9;

/// The degrees of the Cairo transition constraints without the builtin.
pub open spec fn cairo_base_degrees() -> Seq<usize> {
    seq![
        2usize, 2, 2, 2, 2, 2, 2, 2, 2, 2, 2, 2, 2, 2, 2,
        1,
        3, 3, 3, 3, 3, 3, 3, 3, 3, 3, 3, 3, 3, 3, 3,
        2, 2, 2, 2,
        2, 2, 2, 2,
        2, 2, 2, 2,
        2, 2, 2,
        2, 2, 2,
    ]
}

/// The exemptions of the Cairo transition constraints without the builtin.
pub open spec fn cairo_base_exemptions() -> Seq<usize> {
    seq![
        0usize, 0, 0, 0, 0, 0, 0, 0, 0, 0, 0, 0, 0, 0, 0, 0,
        0,
        0, 0, 0,
        1, 1, 1, 1, 0, 0,
        0, 0, 0, 0, 0,
        0, 0, 0, 1,
        0, 0, 0, 1,
        0, 0, 0, 1,
        0, 0, 1,
        0, 0, 0,
    ]
}

/// The AIR of the Cairo virtual machine's execution.
#[derive(Clone, Debug)]
pub struct CairoAIR {
    pub context: AirContext,
    pub number_steps: usize,
    pub has_rc_builtin: bool,
}

impl CairoAIR {
    /// The Cairo AIR for a trace of `full_trace_length` rows (a power of two)
    /// holding `number_steps` steps; the range-check builtin adds nine columns and
    /// one constraint of degree 1 with no exemption.
    pub fn new(proof_options: ProofOptions, full_trace_length: usize, number_steps: usize, has_rc_builtin: bool) -> (r: CairoAIR)
        ensures
            r.context.options == proof_options,
            r.context.trace_length == full_trace_length,
            r.context.trace_columns == if has_rc_builtin { CAIRO_BASE_COLUMNS + RC_BUILTIN_COLUMNS } else { CAIRO_BASE_COLUMNS as int },
            r.context.transition_degrees@ == if has_rc_builtin { cairo_base_degrees().push(1) } else { cairo_base_degrees() },
            r.context.transition_exemptions@ == if has_rc_builtin { cairo_base_exemptions().push(0) } else { cairo_base_exemptions() },
            r.context.transition_offsets@ == seq![0usize, 1],
            r.context.num_transition_constraints == if has_rc_builtin { 50usize } else { 49usize },
            r.number_steps == number_steps,
            r.has_rc_builtin == has_rc_builtin,
    {
        let mut trace_columns: usize = CAIRO_BASE_COLUMNS;
        let mut transition_degrees: Vec<usize> = vec![
            2, 2, 2, 2, 2, 2, 2, 2, 2, 2, 2, 2, 2, 2, 2,
            1,
            3, 3, 3, 3, 3, 3, 3, 3, 3, 3, 3, 3, 3, 3, 3,
            2, 2, 2, 2,
            2, 2, 2, 2,
            2, 2, 2, 2,
            2, 2, 2,
            2, 2, 2,
        ];
        let mut transition_exemptions: Vec<usize> = vec![
            0, 0, 0, 0, 0, 0, 0, 0, 0, 0, 0, 0, 0, 0, 0, 0,
            0,
            0, 0, 0,
            1, 1, 1, 1, 0, 0,
            0, 0, 0, 0, 0,
            0, 0, 0, 1,
            0, 0, 0, 1,
            0, 0, 0, 1,
            0, 0, 1,
            0, 0, 0,
        ];
        let mut num_transition_constraints: usize = 49;
        proof {
            assert(transition_degrees@ =~= cairo_base_degrees());
            assert(transition_exemptions@ =~= cairo_base_exemptions());
        }
        if has_rc_builtin {
            trace_columns = trace_columns + RC_BUILTIN_COLUMNS;
            transition_degrees.push(1);
            transition_exemptions.push(0);
            num_transition_constraints = num_transition_constraints + 1;
        }
        let context = AirContext {
            options: proof_options,
            trace_length: full_trace_length,
            trace_columns,
            transition_degrees,
            transition_exemptions,
            transition_offsets: vec![0, 1],
            num_transition_constraints,
        };
        proof {
            assert(context.transition_offsets@ =~= seq![0usize, 1]);
        }
        CairoAIR { context, number_steps, has_rc_builtin }
    }

    /// How far the auxiliary columns shift when the builtin's columns are absent.
    pub fn get_builtin_offset(&self) -> (r: usize)
        ensures
            r == if self.has_rc_builtin { 0 } else { BUILTIN_OFFSET },
    {
        if self.has_rc_builtin {
            0
        } else {
            BUILTIN_OFFSET
        }
    }
}

/// Why running a Cairo program failed.
#[derive(Clone, Debug, PartialEq, Eq, Structural)]
pub enum Error {
    /// The file system could not be read or written.
    IO,
    /// The program's execution failed.
    Runner,
    /// The trace could not be encoded.
    EncodeTrace,
    /// The virtual machine failed.
    VirtualMachine,
    /// The trace could not be relocated.
    Trace,
}

impl Error {
    /// The message that describes the error.
    pub fn message(&self) -> (r: &'static str) {
        match self {
            Error::IO => "Failed to interact with the file system",
            Error::Runner => "The cairo program execution failed",
            Error::EncodeTrace => "The execution trace could not be encoded",
            Error::VirtualMachine => "The virtual machine failed",
            Error::Trace => "The execution trace could not be relocated",
        }
    }
}

/// What the Cairo AIR draws after the main trace is committed.
#[derive(Clone, Copy, Debug)]
pub struct CairoRAPChallenges {
    pub alpha_memory: Felt,
    pub z_memory: Felt,
    pub z_range_check: Felt,
}

/// The memory permutation argument's factor at one row:
/// `(z − (a + α·v)) / (z − (a' + α·v'))`.
pub open spec fn memory_factor(z: int, alpha: int, a: int, v: int, ap: int, vp: int) -> int {
    div_mod(sub_mod(z, add_mod(a, mul_mod(alpha, v))), sub_mod(z, add_mod(ap, mul_mod(alpha, vp))))
}

/// The memory permutation column's value at row `i`: the product of the
/// factors of rows `0..=i`.
pub open spec fn memory_permutation_value(
    a: Seq<int>,
    v: Seq<int>,
    ap: Seq<int>,
    vp: Seq<int>,
    z: int,
    alpha: int,
    i: nat,
) -> int
    decreases i,
{
    let f = memory_factor(z, alpha, a[i as int], v[i as int], ap[i as int], vp[i as int]);
    if i == 0 {
        f
    } else {
        mul_mod(memory_permutation_value(a, v, ap, vp, z, alpha, (i - 1) as nat), f)
    }
}

/// The running product of the memory permutation argument: row `i` holds
/// `∏_{k≤i} (z − (aₖ + α·vₖ)) / (z − (a'ₖ + α·v'ₖ))` over the original and the
/// sorted address/value columns.
pub fn generate_memory_permutation_argument_column(
    addresses_original: &Vec<Felt>,
    values_original: &Vec<Felt>,
    addresses_sorted: &Vec<Felt>,
    values_sorted: &Vec<Felt>,
    rap_challenges: &CairoRAPChallenges,
) -> (r: Vec<Felt>)
    requires
        addresses_original.len() == addresses_sorted.len(),
        values_original.len() == addresses_sorted.len(),
        values_sorted.len() == addresses_sorted.len(),
        all_wf(addresses_original@),
        all_wf(values_original@),
        all_wf(addresses_sorted@),
        all_wf(values_sorted@),
        rap_challenges.alpha_memory.wf(),
        rap_challenges.z_memory.wf(),
        forall|i: int| 0 <= i < addresses_sorted.len() ==> sub_mod(
            rap_challenges.z_memory@,
            add_mod((#[trigger] addresses_sorted@[i])@, mul_mod(rap_challenges.alpha_memory@, values_sorted@[i]@)),
        ) != 0,
    ensures
        r.len() == addresses_sorted.len(),
        all_wf(r@),
        forall|i: int| 0 <= i < r.len() ==> (#[trigger] r@[i])@ == memory_permutation_value(
            col_values(addresses_original@),
            col_values(values_original@),
            col_values(addresses_sorted@),
            col_values(values_sorted@),
            rap_challenges.z_memory@,
            rap_challenges.alpha_memory@,
            i as nat,
        ),
{
    let z = &rap_challenges.z_memory;
    let alpha = &rap_challenges.alpha_memory;
    let n = addresses_sorted.len();
    let mut col: Vec<Felt> = Vec::new();
    let mut i: usize = 0;
    while i < n
        invariant
            i <= n,
            n == addresses_sorted.len(),
            addresses_original.len() == n,
            values_original.len() == n,
            values_sorted.len() == n,
            all_wf(addresses_original@),
            all_wf(values_original@),
            all_wf(addresses_sorted@),
            all_wf(values_sorted@),
            *z == rap_challenges.z_memory,
            *alpha == rap_challenges.alpha_memory,
            z.wf(),
            alpha.wf(),
            forall|k: int| 0 <= k < n ==> sub_mod(
                z@,
                add_mod((#[trigger] addresses_sorted@[k])@, mul_mod(alpha@, values_sorted@[k]@)),
            ) != 0,
            col.len() == i,
            all_wf(col@),
            forall|k: int| 0 <= k < i ==> (#[trigger] col@[k])@ == memory_permutation_value(
                col_values(addresses_original@),
                col_values(values_original@),
                col_values(addresses_sorted@),
                col_values(values_sorted@),
                z@,
                alpha@,
                k as nat,
            ),
        decreases n - i,
    {
        proof {
            assert(addresses_sorted@[i as int].wf() && values_sorted@[i as int].wf());
            assert(addresses_original@[i as int].wf() && values_original@[i as int].wf());
        }
        let num = z.sub(&addresses_original[i].add(&alpha.mul(&values_original[i])));
        let den = z.sub(&addresses_sorted[i].add(&alpha.mul(&values_sorted[i])));
        let f = num.div(&den);
        if i == 0 {
            col.push(f);
        } else {
            let next = col[i - 1].mul(&f);
            col.push(next);
        }
        i = i + 1;
    }
    col
}

/// The range-check permutation column's value at row `i`:
/// `∏_{k≤i} (z − aₖ) / (z − a'ₖ)`.
pub open spec fn range_check_permutation_value(a: Seq<int>, ap: Seq<int>, z: int, i: nat) -> int
    decreases i,
{
    let f = div_mod(sub_mod(z, a[i as int]), sub_mod(z, ap[i as int]));
    if i == 0 {
        f
    } else {
        mul_mod(range_check_permutation_value(a, ap, z, (i - 1) as nat), f)
    }
}

/// The running product of the range-check permutation argument over the
/// original and the sorted offset columns.
pub fn generate_range_check_permutation_argument_column(
    offset_column_original: &Vec<Felt>,
    offset_column_sorted: &Vec<Felt>,
    rap_challenges: &CairoRAPChallenges,
) -> (r: Vec<Felt>)
    requires
        offset_column_original.len() == offset_column_sorted.len(),
        all_wf(offset_column_original@),
        all_wf(offset_column_sorted@),
        rap_challenges.z_range_check.wf(),
        forall|i: int| 0 <= i < offset_column_sorted.len() ==>
            sub_mod(rap_challenges.z_range_check@, (#[trigger] offset_column_sorted@[i])@) != 0,
    ensures
        r.len() == offset_column_sorted.len(),
        all_wf(r@),
        forall|i: int| 0 <= i < r.len() ==> (#[trigger] r@[i])@ == range_check_permutation_value(
            col_values(offset_column_original@),
            col_values(offset_column_sorted@),
            rap_challenges.z_range_check@,
            i as nat,
        ),
{
    let z = &rap_challenges.z_range_check;
    let n = offset_column_sorted.len();
    let mut col: Vec<Felt> = Vec::new();
    let mut i: usize = 0;
    while i < n
        invariant
            i <= n,
            n == offset_column_sorted.len(),
            offset_column_original.len() == n,
            all_wf(offset_column_original@),
            all_wf(offset_column_sorted@),
            *z == rap_challenges.z_range_check,
            z.wf(),
            forall|k: int| 0 <= k < n ==> sub_mod(z@, (#[trigger] offset_column_sorted@[k])@) != 0,
            col.len() == i,
            all_wf(col@),
            forall|k: int| 0 <= k < i ==> (#[trigger] col@[k])@ == range_check_permutation_value(
                col_values(offset_column_original@),
                col_values(offset_column_sorted@),
                z@,
                k as nat,
            ),
        decreases n - i,
    {
        proof {
            assert(offset_column_sorted@[i as int].wf() && offset_column_original@[i as int].wf());
        }
        let f = z.sub(&offset_column_original[i]).div(&z.sub(&offset_column_sorted[i]));
        if i == 0 {
            col.push(f);
        } else {
            let next = col[i - 1].mul(&f);
            col.push(next);
        }
        i = i + 1;
    }
    col
}

} // verus!
