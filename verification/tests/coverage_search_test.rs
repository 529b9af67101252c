use puzzle_core::errors::CoverageError;
use puzzle_core::gap_search::{
    count_covered_on_row, find_gap_by_perimeter_search, find_gap_by_row_scan, find_unique_gap,
};
use puzzle_core::geometry::{Couple, Pos, Segment};
use puzzle_core::interval_set::Segments;

fn sample_couples() -> Vec<Couple> {
    let pairs: [(isize, isize, isize, isize); 14] = [
        (2, 18, -2, 15),
        (9, 16, 10, 16),
        (13, 2, 15, 3),
        (12, 14, 10, 16),
        (10, 20, 10, 16),
        (14, 17, 10, 16),
        (8, 7, 2, 10),
        (2, 0, 2, 10),
        (0, 11, 2, 10),
        (20, 14, 25, 17),
        (17, 20, 21, 22),
        (16, 7, 15, 3),
        (14, 3, 15, 3),
        (20, 1, 15, 3),
    ];
    let mut couples = Vec::new();
    for (sx, sy, bx, by) in pairs {
        couples.push(Couple::new(Pos { x: sx, y: sy }, Pos { x: bx, y: by }));
    }
    couples
}

#[test]
fn couple_new_computes_radius() {
    let c = Couple::new(Pos { x: 2, y: 18 }, Pos { x: -2, y: 15 });
    assert_eq!(c.distance, 7);
}

#[test]
fn covered_count_on_sample_row() {
    let couples = sample_couples();
    assert_eq!(count_covered_on_row(&couples, 10), 26);
}

#[test]
fn both_strategies_find_the_same_gap() {
    let couples = sample_couples();
    let by_rows = find_gap_by_row_scan(&couples, 20);
    let by_perimeter = find_gap_by_perimeter_search(&couples, 20);
    assert_eq!(by_rows, Some(Pos { x: 14, y: 11 }));
    assert_eq!(by_perimeter, Some(Pos { x: 14, y: 11 }));
}

#[test]
fn unique_gap_as_result() {
    let couples = sample_couples();
    assert_eq!(find_unique_gap(&couples, 20), Ok(Pos { x: 14, y: 11 }));
}

#[test]
fn no_unique_gap_error() {
    let couples: Vec<Couple> = Vec::new();
    assert_eq!(find_unique_gap(&couples, 5), Err(CoverageError::NoUniqueGap));
}

#[test]
fn invalid_segment_error() {
    assert_eq!(Segment::new(3, 0), Err(CoverageError::InvalidSegment));
    assert_eq!(Segment::new(3, 4), Ok(Segment { start: 3, length: 4 }));

    let mut segments = Segments::new();
    assert_eq!(
        segments.try_add_segment(Segment { start: 3, length: 0 }),
        Err(CoverageError::InvalidSegment)
    );
    assert_eq!(segments.map.len(), 0);
    assert_eq!(segments.try_add_segment(Segment { start: 3, length: 4 }), Ok(()));
    assert_eq!(segments.get_covered(), 4);
}

#[test]
fn out_of_bounds_error() {
    let segments = Segments::new();
    let result = segments.try_get_inverse_on_range(10, 3);
    assert!(matches!(result, Err(CoverageError::OutOfBounds)));
    let result = segments.try_get_inverse_on_range(3, 10);
    assert!(result.is_ok());
}

#[test]
fn adding_twice_changes_nothing() {
    let mut once = Segments::new();
    once.add_segment(Segment { start: 3, length: 4 });
    once.add_segment(Segment { start: 7, length: 2 });

    let mut twice = Segments::new();
    twice.add_segment(Segment { start: 3, length: 4 });
    twice.add_segment(Segment { start: 7, length: 2 });
    twice.add_segment(Segment { start: 7, length: 2 });

    assert_eq!(once.map, twice.map);
}

#[test]
fn covered_count_is_size_of_union() {
    let mut segments = Segments::new();
    segments.add_segment(Segment { start: 3, length: 4 });
    segments.add_segment(Segment { start: 2, length: 6 });
    segments.add_segment(Segment { start: 10, length: 2 });
    // {2..=7} union {10, 11} holds 8 distinct points
    assert_eq!(segments.get_covered(), 8);
}

#[test]
fn double_complement_restores_the_clipped_set() {
    let mut segments = Segments::new();
    segments.add_segment(Segment { start: 3, length: 2 });
    segments.add_segment(Segment { start: 7, length: 1 });

    let inverse = segments.get_inverse_on_range(0, 10);
    let back = inverse.get_inverse_on_range(0, 10);

    assert_eq!(back.map, segments.map);
}

#[test]
fn perimeter_walk_is_complete_and_distinct() {
    let center = Pos { x: 0, y: 0 };
    let mut it = center.get_circle_iter(3);
    let mut seen: Vec<(isize, isize)> = Vec::new();
    while let Some(pos) = it.next() {
        let key = (pos.x, pos.y);
        assert!(!seen.contains(&key));
        assert_eq!(pos.x.abs() + pos.y.abs(), 3);
        seen.push(key);
    }
    assert_eq!(seen.len(), 12);
}
