use puzzle_core::perimeter::CircleIterator;
use puzzle_core::geometry::Pos;

fn get_pos_array(mut iter: CircleIterator) -> Vec<(isize, isize)> {
    let mut list = Vec::new();
    while let Some(pos) = iter.next() {
        list.push((pos.x, pos.y));
    }
    list
}

#[test]
fn test_0() {
    let pos = Pos { x: 2, y: 4 };

    let result = get_pos_array(pos.get_circle_iter(0));

    assert_eq!(format!("{:?}", result), "[(2, 4)]");
}

#[test]
fn test_1() {
    let pos = Pos { x: 2, y: 4 };

    let result = get_pos_array(pos.get_circle_iter(1));

    assert_eq!(format!("{:?}", result), "[(2, 5), (1, 4), (3, 4), (2, 3)]");
}

#[test]
fn test_2() {
    let pos = Pos { x: 2, y: 4 };

    let result = get_pos_array(pos.get_circle_iter(2));

    assert_eq!(
        format!("{:?}", result),
        "[(2, 6), (1, 5), (3, 5), (0, 4), (4, 4), (1, 3), (3, 3), (2, 2)]"
    );
}
