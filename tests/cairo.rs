use lambdaworks_stark::cairo::{
    create_memory_segment_map, program_path, CairoAIR, Error, MemorySegment, MemorySegmentMap, SegmentRange,
};
use lambdaworks_stark::context::ProofOptions;

fn options() -> ProofOptions {
    ProofOptions { blowup_factor: 4, fri_number_of_queries: 3, coset_offset: 3, grinding_factor: 1 }
}

#[test]
fn cairo_air_without_builtin() {
    let air = CairoAIR::new(options(), 128, 100, false);
    assert_eq!(air.context.trace_columns, 52);
    assert_eq!(air.context.num_transition_constraints, 49);
    assert_eq!(air.context.transition_degrees.len(), 49);
    assert_eq!(air.context.transition_exemptions.len(), 49);
    assert_eq!(air.context.transition_offsets, vec![0, 1]);
    assert_eq!(air.context.transition_degrees[15], 1);
    assert_eq!(air.context.transition_degrees[16], 3);
    assert_eq!(air.context.transition_exemptions[20], 1);
    assert_eq!(air.context.trace_length, 128);
    assert_eq!(air.number_steps, 100);
    assert_eq!(air.get_builtin_offset(), 9);
}

#[test]
fn cairo_air_with_builtin() {
    let air = CairoAIR::new(options(), 64, 10, true);
    assert_eq!(air.context.trace_columns, 61);
    assert_eq!(air.context.num_transition_constraints, 50);
    assert_eq!(air.context.transition_degrees.last(), Some(&1));
    assert_eq!(air.context.transition_exemptions.last(), Some(&0));
    assert_eq!(air.get_builtin_offset(), 0);
}

#[test]
fn memory_segment_map_holds_given_ranges() {
    let rc = SegmentRange { start: 25, end: 26 };
    let out = SegmentRange { start: 131, end: 132 };
    let m = create_memory_segment_map(Some(rc), &Some(out));
    assert_eq!(m.get(MemorySegment::RangeCheck), Some(rc));
    assert_eq!(m.get(MemorySegment::Output), Some(out));
    let empty = create_memory_segment_map(None, &None);
    assert_eq!(empty, MemorySegmentMap::new());
    assert_eq!(empty.get(MemorySegment::Output), None);
}

#[test]
fn program_paths() {
    assert_eq!(program_path("/base", "fibonacci_5.json"), "/base/cairo_programs/fibonacci_5.json");
}

#[test]
fn error_messages() {
    assert_eq!(Error::IO.message(), "Failed to interact with the file system");
    assert_eq!(Error::Runner.message(), "The cairo program execution failed");
}

use lambdaworks_stark::cairo::{
    generate_memory_permutation_argument_column, generate_range_check_permutation_argument_column, CairoRAPChallenges,
};
use lambdaworks_stark::field::Felt;

fn fe(v: u64) -> Felt {
    Felt::from_u64(v)
}

fn challenges() -> CairoRAPChallenges {
    CairoRAPChallenges { alpha_memory: fe(15), z_memory: fe(10), z_range_check: fe(30) }
}

#[test]
fn memory_permutation_column_ends_at_one_for_a_permutation() {
    let a = vec![fe(3), fe(1), fe(2)];
    let v = vec![fe(30), fe(10), fe(20)];
    let a_sorted = vec![fe(1), fe(2), fe(3)];
    let v_sorted = vec![fe(10), fe(20), fe(30)];
    let col = generate_memory_permutation_argument_column(&a, &v, &a_sorted, &v_sorted, &challenges());
    assert_eq!(col.len(), 3);
    // Row 0: (10 − (3 + 15·30)) / (10 − (1 + 15·10)).
    let first = fe(10).sub(&fe(3 + 15 * 30)).div(&fe(10).sub(&fe(1 + 15 * 10)));
    assert_eq!(col[0], first);
    assert_eq!(col[2], fe(1));
}

#[test]
fn memory_permutation_column_detects_a_changed_value() {
    let a = vec![fe(3), fe(1), fe(2)];
    let v = vec![fe(30), fe(10), fe(21)];
    let a_sorted = vec![fe(1), fe(2), fe(3)];
    let v_sorted = vec![fe(10), fe(20), fe(30)];
    let col = generate_memory_permutation_argument_column(&a, &v, &a_sorted, &v_sorted, &challenges());
    assert_ne!(col[2], fe(1));
}

#[test]
fn range_check_permutation_column() {
    let orig = vec![fe(5), fe(2), fe(9), fe(2)];
    let sorted = vec![fe(2), fe(2), fe(5), fe(9)];
    let col = generate_range_check_permutation_argument_column(&orig, &sorted, &challenges());
    assert_eq!(col[0], fe(30).sub(&fe(5)).div(&fe(30).sub(&fe(2))));
    assert_eq!(col[3], fe(1));
}
