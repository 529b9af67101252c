use puzzle_core::geometry::Segment;
use puzzle_core::interval_set::Segments;

fn fmt_map(segments: &Segments) -> String {
    let mut out = String::new();
    out.push('{');
    let mut first = true;
    for seg in segments.map.iter() {
        if !first {
            out.push_str(", ");
        }
        first = false;
        out.push_str(&format!("{}: {}", seg.start, seg.length));
    }
    out.push('}');
    out
}

#[test]
fn test_simple() {
    let mut segments = Segments::new();

    segments.add_segment(Segment { start: 3, length: 4 });

    assert_eq!(fmt_map(&segments), "{3: 4}");
}

#[test]
fn test_overlap_inside() {
    let mut segments = Segments::new();
    segments.add_segment(Segment { start: 3, length: 4 });

    segments.add_segment(Segment { start: 4, length: 1 });

    assert_eq!(fmt_map(&segments), "{3: 4}");
}

#[test]
fn test_overlap_inside_begining() {
    let mut segments = Segments::new();
    segments.add_segment(Segment { start: 3, length: 4 });

    segments.add_segment(Segment { start: 3, length: 1 });

    assert_eq!(fmt_map(&segments), "{3: 4}");
}

#[test]
fn test_overlap_inside_end() {
    let mut segments = Segments::new();
    segments.add_segment(Segment { start: 3, length: 4 });

    segments.add_segment(Segment { start: 6, length: 1 });

    assert_eq!(fmt_map(&segments), "{3: 4}");
}

#[test]
fn test_overlap_full() {
    let mut segments = Segments::new();
    segments.add_segment(Segment { start: 3, length: 4 });

    segments.add_segment(Segment { start: 3, length: 4 });

    assert_eq!(fmt_map(&segments), "{3: 4}");
}

#[test]
fn test_overflow_left_edge() {
    let mut segments = Segments::new();
    segments.add_segment(Segment { start: 3, length: 4 });

    segments.add_segment(Segment { start: 2, length: 1 });

    assert_eq!(fmt_map(&segments), "{2: 5}");
}

#[test]
fn test_overflow_left() {
    let mut segments = Segments::new();
    segments.add_segment(Segment { start: 3, length: 4 });

    segments.add_segment(Segment { start: 2, length: 2 });

    assert_eq!(fmt_map(&segments), "{2: 5}");
}

#[test]
fn test_overflow_right_edge() {
    let mut segments = Segments::new();
    segments.add_segment(Segment { start: 3, length: 4 });

    segments.add_segment(Segment { start: 7, length: 1 });

    assert_eq!(fmt_map(&segments), "{3: 5}");
}

#[test]
fn test_overflow_right() {
    let mut segments = Segments::new();
    segments.add_segment(Segment { start: 3, length: 4 });

    segments.add_segment(Segment { start: 6, length: 2 });

    assert_eq!(fmt_map(&segments), "{3: 5}");
}

#[test]
fn test_overflow_both_sides() {
    let mut segments = Segments::new();
    segments.add_segment(Segment { start: 3, length: 4 });

    segments.add_segment(Segment { start: 2, length: 6 });

    assert_eq!(fmt_map(&segments), "{2: 6}");
}

#[test]
fn test_before() {
    let mut segments = Segments::new();
    segments.add_segment(Segment { start: 3, length: 4 });

    segments.add_segment(Segment { start: 0, length: 2 });

    assert_eq!(fmt_map(&segments), "{0: 2, 3: 4}");
}

#[test]
fn test_after() {
    let mut segments = Segments::new();
    segments.add_segment(Segment { start: 3, length: 4 });

    segments.add_segment(Segment { start: 9, length: 2 });

    assert_eq!(fmt_map(&segments), "{3: 4, 9: 2}");
}

#[test]
fn segments_test_test_before() {
    let mut segments = Segments::new();
    segments.add_segment(Segment { start: 3, length: 4 });

    segments.remove_dot(2);

    assert_eq!(fmt_map(&segments), "{3: 4}");
}

#[test]
fn segments_test_test_after() {
    let mut segments = Segments::new();
    segments.add_segment(Segment { start: 3, length: 4 });

    segments.remove_dot(7);

    assert_eq!(fmt_map(&segments), "{3: 4}");
}

#[test]
fn test_start() {
    let mut segments = Segments::new();
    segments.add_segment(Segment { start: 3, length: 4 });

    segments.remove_dot(3);

    assert_eq!(fmt_map(&segments), "{4: 3}");
}

#[test]
fn test_end() {
    let mut segments = Segments::new();
    segments.add_segment(Segment { start: 3, length: 4 });

    segments.remove_dot(6);

    assert_eq!(fmt_map(&segments), "{3: 3}");
}

#[test]
fn test_middle() {
    let mut segments = Segments::new();
    segments.add_segment(Segment { start: 3, length: 4 });

    segments.remove_dot(5);

    assert_eq!(fmt_map(&segments), "{3: 2, 6: 1}");
}

#[test]
fn test_middle_2() {
    let mut segments = Segments::new();
    segments.add_segment(Segment { start: 3, length: 4 });

    segments.remove_dot(4);

    assert_eq!(fmt_map(&segments), "{3: 1, 5: 2}");
}

#[test]
fn test_on_dot() {
    let mut segments = Segments::new();
    segments.add_segment(Segment { start: 3, length: 1 });

    segments.remove_dot(3);

    assert_eq!(fmt_map(&segments), "{}");
}

#[test]
fn test_empty() {
    let segments = Segments::new();

    let result = segments.get_inverse_on_range(3, 10);

    assert_eq!(fmt_map(&result), "{3: 8}");
}

#[test]
fn test_surounded() {
    let mut segments = Segments::new();
    segments.add_segment(Segment { start: 0, length: 1 });
    segments.add_segment(Segment { start: 12, length: 3 });

    let result = segments.get_inverse_on_range(3, 10);

    assert_eq!(fmt_map(&result), "{3: 8}");
}

#[test]
fn test_surounded_edge() {
    let mut segments = Segments::new();
    segments.add_segment(Segment { start: 0, length: 3 });
    segments.add_segment(Segment { start: 11, length: 3 });

    let result = segments.get_inverse_on_range(3, 10);

    assert_eq!(fmt_map(&result), "{3: 8}");
}

#[test]
fn test_surounded_overlap() {
    let mut segments = Segments::new();
    segments.add_segment(Segment { start: 0, length: 4 });
    segments.add_segment(Segment { start: 10, length: 3 });

    let result = segments.get_inverse_on_range(3, 10);

    assert_eq!(fmt_map(&result), "{4: 6}");
}

#[test]
fn test_full_overlap() {
    let mut segments = Segments::new();
    segments.add_segment(Segment { start: 3, length: 8 });

    let result = segments.get_inverse_on_range(3, 10);

    assert_eq!(fmt_map(&result), "{}");
}

#[test]
fn test_left_overlap() {
    let mut segments = Segments::new();
    segments.add_segment(Segment { start: 3, length: 2 });

    let result = segments.get_inverse_on_range(3, 10);

    assert_eq!(fmt_map(&result), "{5: 6}");
}

#[test]
fn test_right_overlap() {
    let mut segments = Segments::new();
    segments.add_segment(Segment { start: 9, length: 2 });

    let result = segments.get_inverse_on_range(3, 10);

    assert_eq!(fmt_map(&result), "{3: 6}");
}

#[test]
fn test_inside() {
    let mut segments = Segments::new();
    segments.add_segment(Segment { start: 5, length: 2 });

    let result = segments.get_inverse_on_range(3, 10);

    assert_eq!(fmt_map(&result), "{3: 2, 7: 4}");
}

#[test]
fn test_two_inside() {
    let mut segments = Segments::new();
    segments.add_segment(Segment { start: 4, length: 1 });
    segments.add_segment(Segment { start: 7, length: 1 });

    let result = segments.get_inverse_on_range(3, 10);

    assert_eq!(fmt_map(&result), "{3: 1, 5: 2, 8: 3}");
}
