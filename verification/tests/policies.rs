use threading_split::chunks::{chunk_up, CHUNK_SIZE};
use threading_split::policy::{
    apply_with_size_policy, apply_with_time_policy, proceed_elem, size_policy_splits,
    SIZE_THRESHOLD,
};

fn double(x: i64) -> i64 {
    x + x
}

/// A doubling transformation that burns wall-clock time on every call, so that
/// the time policy's budget runs out partway through the input.
fn slow_double(x: i64) -> i64 {
    let begin = std::time::Instant::now();
    while begin.elapsed().as_micros() < 20 {}
    x + x
}

fn demo_input() -> Vec<i64> {
    let mut v = Vec::new();
    for _ in 0..4 {
        for x in 1..13 {
            v.push(x);
        }
    }
    v
}

#[test]
fn size_policy_matches_map_every_index() {
    let input: Vec<i64> = vec![3, -7, 0, 25, 11, 8, -1, 4, 9, 16, 2, 5];
    let expected: Vec<i64> = input.iter().map(|&x| x + x).collect();
    let out = apply_with_size_policy(input.clone(), double);
    assert_eq!(out.len(), input.len());
    assert_eq!(out, expected);
}

#[test]
fn time_policy_matches_map_every_index() {
    let input: Vec<i64> = vec![3, -7, 0, 25, 11, 8, -1, 4, 9, 16, 2, 5];
    let expected: Vec<i64> = input.iter().map(|&x| x + x).collect();
    let out = apply_with_time_policy(input.clone(), double);
    assert_eq!(out.len(), input.len());
    assert_eq!(out, expected);
}

#[test]
fn both_policies_equal_sequential_map() {
    for len in [0usize, 1, 2, 9, 10, 11, 30, 48] {
        let input: Vec<i64> = (0..len as i64).map(|x| x - 5).collect();
        let sequential: Vec<i64> = input.iter().map(|&x| x + x).collect();
        assert_eq!(apply_with_size_policy(input.clone(), double), sequential);
        assert_eq!(apply_with_time_policy(input.clone(), double), sequential);
    }
}

#[test]
fn policies_are_idempotent_across_runs() {
    let input = demo_input();
    let first = apply_with_size_policy(input.clone(), double);
    let second = apply_with_size_policy(input.clone(), double);
    assert_eq!(first, second);
    let first = apply_with_time_policy(input.clone(), slow_double);
    let second = apply_with_time_policy(input, slow_double);
    assert_eq!(first, second);
}

#[test]
fn empty_input_gives_empty_output() {
    let empty: Vec<i64> = Vec::new();
    assert_eq!(apply_with_size_policy(empty.clone(), double), Vec::new());
    assert_eq!(apply_with_time_policy(empty, double), Vec::new());
}

#[test]
fn size_threshold_boundary_is_exact() {
    assert!(size_policy_splits(SIZE_THRESHOLD));
    assert!(!size_policy_splits(SIZE_THRESHOLD - 1));
    assert!(size_policy_splits(SIZE_THRESHOLD + 1));
    assert!(!size_policy_splits(0));
}

#[test]
fn results_correct_on_both_sides_of_the_threshold() {
    // One below the threshold takes the sequential path, exactly at it the
    // parallel path; the values must come out the same either way.
    let below: Vec<i64> = (1..SIZE_THRESHOLD as i64).collect();
    let expected: Vec<i64> = below.iter().map(|&x| x + x).collect();
    assert_eq!(below.len(), SIZE_THRESHOLD - 1);
    assert_eq!(apply_with_size_policy(below, double), expected);

    let at: Vec<i64> = (1..=SIZE_THRESHOLD as i64).collect();
    let expected: Vec<i64> = at.iter().map(|&x| x + x).collect();
    assert_eq!(at.len(), SIZE_THRESHOLD);
    assert_eq!(apply_with_size_policy(at, double), expected);
}

#[test]
fn time_budget_exceeded_hands_suffix_to_parallel_path() {
    // Each call of slow_double takes at least 20 microseconds, so a budget of
    // 100 microseconds runs out after a handful of elements and the rest of
    // the input goes through the parallel path; every value must still be the
    // doubled input.
    let input = demo_input();
    let expected: Vec<i64> = input.iter().map(|&x| x + x).collect();
    let out = apply_with_time_policy(input, slow_double);
    assert_eq!(out, expected);
}

#[test]
fn sequential_scenario_doubles_five_elements() {
    let out = apply_with_size_policy(vec![1i64, 2, 3, 4, 5], double);
    assert_eq!(out, vec![2, 4, 6, 8, 10]);
}

#[test]
fn demo_scenario_doubles_cycling_input() {
    let input = demo_input();
    assert_eq!(input.len(), 48);
    let expected: Vec<i64> = input.iter().map(|&x| x + x).collect();
    assert_eq!(expected[0..4], [2, 4, 6, 8]);
    assert_eq!(apply_with_time_policy(input.clone(), slow_double), expected);
    assert_eq!(apply_with_time_policy(input, double), expected);
}

#[test]
fn proceed_elem_adds_a_value_to_itself() {
    assert_eq!(proceed_elem(5i64), 10);
    assert_eq!(proceed_elem(0i64), 0);
    assert_eq!(proceed_elem(-13i64), -26);
    assert_eq!(proceed_elem(21u8), 42);
}

#[test]
fn parallel_path_transforms_every_chunk() {
    // Lengths around multiples of the chunk size, all at or above the size
    // threshold: a short final chunk, an exact fit, and a lone-element chunk
    // must all come back transformed.
    for len in [10usize, 11, 12, 13, 47] {
        let input: Vec<i64> = (0..len as i64).collect();
        let expected: Vec<i64> = input.iter().map(|&x| x + x).collect();
        assert_eq!(apply_with_size_policy(input, double), expected);
    }
}

#[test]
fn chunks_partition_the_region() {
    let v: Vec<i64> = (0..11).collect();
    let chunks = chunk_up(&v, 0);
    let mut flat: Vec<i64> = Vec::new();
    for (c, chunk) in chunks.iter().enumerate() {
        assert!(!chunk.is_empty());
        assert!(chunk.len() <= CHUNK_SIZE);
        if c + 1 < chunks.len() {
            assert_eq!(chunk.len(), CHUNK_SIZE);
        }
        flat.extend_from_slice(chunk);
    }
    assert_eq!(flat, v);

    let suffix_chunks = chunk_up(&v, 7);
    let mut flat: Vec<i64> = Vec::new();
    for chunk in &suffix_chunks {
        flat.extend_from_slice(chunk);
    }
    assert_eq!(flat, v[7..].to_vec());
}
