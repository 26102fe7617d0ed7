use plutils::offsets::check_lengths;
use plutils::offsets::check_offsets;
use plutils::offsets::find_mismatch;
use plutils::offsets::join_chunks;
use plutils::offsets::offsets_from_lengths;
use plutils::offsets::rebase;
use plutils::offsets::strip_nulls;
use plutils::Mismatch;
use plutils::NullsIn;
use plutils::ReshapeError;

fn shape_mismatch<T: std::fmt::Debug>(r: Result<T, ReshapeError>) -> Mismatch {
    match r {
        Err(ReshapeError::ShapeMismatch(m)) => m,
        other => panic!("expected a shape mismatch, got {:?}", other),
    }
}

fn nulls_in<T: std::fmt::Debug>(r: Result<T, ReshapeError>) -> NullsIn {
    match r {
        Err(ReshapeError::ComputeError(n)) => n,
        other => panic!("expected a compute error, got {:?}", other),
    }
}

#[test]
fn strip_nulls_keeps_values_in_order() {
    assert_eq!(strip_nulls(&vec![Some(3), Some(-1), Some(7)]), Some(vec![3, -1, 7]));
    assert_eq!(strip_nulls(&vec![]), Some(vec![]));
}

#[test]
fn strip_nulls_refuses_any_null() {
    assert_eq!(strip_nulls(&vec![Some(3), None, Some(7)]), None);
    assert_eq!(strip_nulls(&vec![None]), None);
}

#[test]
fn offsets_from_lengths_prefixes_zero_and_sums() {
    assert_eq!(offsets_from_lengths(&vec![2, 1, 0, 2]), Ok(vec![0, 2, 3, 3, 5]));
    assert_eq!(offsets_from_lengths(&vec![]), Ok(vec![0]));
    assert_eq!(offsets_from_lengths(&vec![2, -1, 4]), Ok(vec![0, 2, 1, 5]));
}

#[test]
fn offsets_from_lengths_reports_where_the_total_overflows() {
    assert_eq!(
        offsets_from_lengths(&vec![i64::MAX, 0, 1, 5]),
        Err(Mismatch::TotalTooLarge { at: 2 })
    );
    assert_eq!(
        offsets_from_lengths(&vec![-1, i64::MIN]),
        Err(Mismatch::TotalTooLarge { at: 1 })
    );
    assert_eq!(offsets_from_lengths(&vec![i64::MAX, -1, 1]), Ok(vec![0, i64::MAX, i64::MAX - 1, i64::MAX]));
}

#[test]
fn find_mismatch_accepts_valid_offsets() {
    assert_eq!(find_mismatch(&vec![0, 2, 3, 3, 6], 6), None);
    assert_eq!(find_mismatch(&vec![0], 0), None);
    assert_eq!(find_mismatch(&vec![0, 0, 0], 0), None);
}

#[test]
fn find_mismatch_tests_first_then_last_then_order() {
    assert_eq!(find_mismatch(&vec![], 0), Some(Mismatch::FirstOffset { first: None }));
    assert_eq!(
        find_mismatch(&vec![1, 0, 4], 5),
        Some(Mismatch::FirstOffset { first: Some(1) })
    );
    assert_eq!(
        find_mismatch(&vec![0, 3, 2, 4], 5),
        Some(Mismatch::LastOffset { last: 4, target_len: 5 })
    );
    assert_eq!(find_mismatch(&vec![0, 3, 2, 1, 5], 5), Some(Mismatch::Decreasing { at: 1 }));
    assert_eq!(find_mismatch(&vec![0, 1, 2, 6, 5], 5), Some(Mismatch::Decreasing { at: 3 }));
    assert_eq!(
        find_mismatch(&vec![0, -1], 0),
        Some(Mismatch::LastOffset { last: -1, target_len: 0 })
    );
}

#[test]
fn check_offsets_hands_back_accepted_offsets() {
    let r = check_offsets(&vec![Some(0), Some(1), Some(1), Some(3)], 3);
    assert_eq!(r.unwrap(), vec![0, 1, 1, 3]);
}

#[test]
fn check_offsets_looks_for_nulls_first() {
    assert_eq!(nulls_in(check_offsets(&vec![Some(7), None], 3)), NullsIn::Offsets);
    assert_eq!(nulls_in(check_offsets(&vec![None], 0)), NullsIn::Offsets);
}

#[test]
fn check_offsets_reports_each_mismatch() {
    assert_eq!(shape_mismatch(check_offsets(&vec![], 0)), Mismatch::FirstOffset { first: None });
    assert_eq!(
        shape_mismatch(check_offsets(&vec![Some(2), Some(5)], 5)),
        Mismatch::FirstOffset { first: Some(2) }
    );
    assert_eq!(
        shape_mismatch(check_offsets(&vec![Some(0), Some(2), Some(4)], 5)),
        Mismatch::LastOffset { last: 4, target_len: 5 }
    );
    assert_eq!(
        shape_mismatch(check_offsets(&vec![Some(0), Some(4), Some(2), Some(5)], 5)),
        Mismatch::Decreasing { at: 1 }
    );
}

#[test]
fn check_lengths_gives_the_offsets_of_accepted_lengths() {
    let r = check_lengths(&vec![Some(2), Some(1), Some(0), Some(2)], 5);
    assert_eq!(r.unwrap(), vec![0, 2, 3, 3, 5]);
    assert_eq!(check_lengths(&vec![], 0).unwrap(), vec![0]);
}

#[test]
fn check_lengths_reports_each_fault() {
    assert_eq!(nulls_in(check_lengths(&vec![Some(2), None], 2)), NullsIn::Lengths);
    assert_eq!(
        shape_mismatch(check_lengths(&vec![Some(i64::MAX), Some(1)], 2)),
        Mismatch::TotalTooLarge { at: 1 }
    );
    assert_eq!(
        shape_mismatch(check_lengths(&vec![Some(2), Some(2)], 5)),
        Mismatch::LastOffset { last: 4, target_len: 5 }
    );
    assert_eq!(
        shape_mismatch(check_lengths(&vec![Some(3), Some(-1), Some(3)], 5)),
        Mismatch::Decreasing { at: 1 }
    );
    assert_eq!(
        shape_mismatch(check_lengths(&vec![], 1)),
        Mismatch::LastOffset { last: 0, target_len: 1 }
    );
}

#[test]
fn check_lengths_agrees_with_check_offsets_on_the_running_totals() {
    let cases: Vec<(Vec<i64>, usize)> = vec![
        (vec![2, 1, 0, 2], 5),
        (vec![2, 1, 0, 2], 4),
        (vec![3, -1, 3], 5),
        (vec![], 0),
        (vec![], 3),
    ];
    for (lengths, target_len) in cases {
        let offsets = offsets_from_lengths(&lengths).unwrap();
        let as_lengths: Vec<Option<i64>> = lengths.iter().map(|v| Some(*v)).collect();
        let as_offsets: Vec<Option<i64>> = offsets.iter().map(|v| Some(*v)).collect();
        let by_lengths = check_lengths(&as_lengths, target_len);
        let by_offsets = check_offsets(&as_offsets, target_len);
        match (by_lengths, by_offsets) {
            (Ok(a), Ok(b)) => assert_eq!(a, b),
            (Err(ReshapeError::ShapeMismatch(a)), Err(ReshapeError::ShapeMismatch(b))) => {
                assert_eq!(a, b)
            }
            (a, b) => panic!("outcomes differ: {:?} and {:?}", a, b),
        }
    }
}

#[test]
fn rebase_moves_offsets_to_zero() {
    assert_eq!(rebase(&vec![3, 4, 4, 7]), vec![0, 1, 1, 4]);
    assert_eq!(rebase(&vec![0, 2, 5]), vec![0, 2, 5]);
    assert_eq!(rebase(&vec![9]), vec![0]);
}

#[test]
fn join_chunks_keeps_a_single_zero_based_chunk() {
    assert_eq!(join_chunks(&vec![vec![0, 2, 3, 3, 6]]), Ok(vec![0, 2, 3, 3, 6]));
}

#[test]
fn join_chunks_rebases_a_single_chunk() {
    assert_eq!(join_chunks(&vec![vec![2, 3, 3, 6]]), Ok(vec![0, 1, 1, 4]));
}

#[test]
fn join_chunks_sums_lengths_across_chunks() {
    assert_eq!(
        join_chunks(&vec![vec![0, 2, 3], vec![5, 5, 8], vec![0], vec![1, 2]]),
        Ok(vec![0, 2, 3, 3, 6, 7])
    );
    assert_eq!(join_chunks(&vec![]), Ok(vec![0]));
}

#[test]
fn join_chunks_reports_a_total_that_is_too_large() {
    assert_eq!(
        join_chunks(&vec![vec![0, i64::MAX], vec![0, 0, 1]]),
        Err(Mismatch::TotalTooLarge { at: 2 })
    );
}

#[test]
fn error_kinds_are_told_apart() {
    let shape = ReshapeError::ShapeMismatch(Mismatch::FirstOffset { first: None });
    let compute = ReshapeError::ComputeError(NullsIn::Layout);
    assert!(shape.is_shape_mismatch() && !shape.is_compute_error() && !shape.is_engine());
    assert!(compute.is_compute_error() && !compute.is_shape_mismatch() && !compute.is_engine());
}
