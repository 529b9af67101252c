use puzzle_core::supply_stacks::{CratesRow, CratesStacks, Movement};

#[test]
fn basic_setup() {
    let mut crates_stacks = CratesStacks::new();

    crates_stacks.add_crates_row(&CratesRow { list: vec![Some('D'), None, None] });
    crates_stacks.add_crates_row(&CratesRow { list: vec![Some('E'), Some('F'), None] });
    crates_stacks.add_crates_row(&CratesRow { list: vec![Some('G'), Some('H'), Some('K')] });

    crates_stacks.mark_moving();

    let result = crates_stacks.get_result();
    assert_eq!(&result, "DFK");
}

#[test]
fn moving_stuff() {
    let mut crates_stacks = CratesStacks::new();
    crates_stacks.add_crates_row(&CratesRow { list: vec![Some('D'), None, None] });
    crates_stacks.add_crates_row(&CratesRow { list: vec![Some('E'), Some('F'), None] });
    crates_stacks.add_crates_row(&CratesRow { list: vec![Some('G'), Some('H'), Some('K')] });

    crates_stacks.move_crates(&Movement { from: 0, to: 2, quantity: 2 });

    let result = crates_stacks.get_result();
    assert_eq!(&result, "GFE");
}

#[test]
fn row_reading() {
    let row = CratesRow::from_str("[D]     [K]");
    assert_eq!(row.list, vec![Some('D'), None, Some('K')]);
    let row = CratesRow::from_str("");
    assert_eq!(row.list, Vec::<Option<char>>::new());
}
