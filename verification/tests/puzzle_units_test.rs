use puzzle_core::calorie_counter;
use puzzle_core::valve_network::{Board, GameState, ValveDeclaration};
use puzzle_core::disk_usage::{FileSystem, Line};
use puzzle_core::monkey_business::{Item, Monkey, Operation, OperationKind, TopMonkey};
use puzzle_core::packet_compare::compare_list;
use puzzle_core::rope_single::{Command, Direction};
use puzzle_core::sand_scan::{Pos, Scan};
use puzzle_core::signal_cycles::{Instruction, Payload, Processor};
use puzzle_core::calorie_podium;
use puzzle_core::rope_chain;
use puzzle_core::rope_single;
use puzzle_core::rucksack;
use puzzle_core::rucksack_badge;
use puzzle_core::sand_scan;
use puzzle_core::signal_cycles;
use puzzle_core::stream_marker;
use puzzle_core::tree_house;

#[test]
fn max_calories_of_groups() {
    let mut list = calorie_counter::CaloriesList::new();
    list.add_elf_item(100);
    list.add_elf_item(200);
    list.complete_elf();
    list.add_elf_item(250);
    list.complete_elf();
    assert_eq!(list.get_max_elf_calories(), 300);
}

#[test]
fn top_three_calories_of_groups() {
    let mut list = calorie_podium::CaloriesList::new();
    for calories in [100, 400, 50, 300, 200] {
        list.add_elf_item(calories);
        list.complete_elf();
    }
    // the three largest groups are 400, 300 and 200
    assert_eq!(list.get_max_top_elf_calories(), 900);
}

#[test]
fn rucksack_duplicate_priority() {
    let line = "vJrwpWtwJgWrhcsFMMfFFhFp";
    let (left, right) = rucksack::split_line(line);
    let left_set = rucksack::str_to_set(left);
    let duplicate = rucksack::find_duplicate(&left_set, right);
    assert_eq!(duplicate, 'p');
    assert_eq!(rucksack::get_item_priority(duplicate), 16);
    assert_eq!(rucksack::get_item_priority('a'), 1);
    assert_eq!(rucksack::get_item_priority('z'), 26);
    assert_eq!(rucksack::get_item_priority('A'), 27);
    assert_eq!(rucksack::get_item_priority('Z'), 52);
}

#[test]
fn badge_of_three_bags() {
    let bags = vec![
        rucksack::str_to_set("vJrwpWtwJgWrhcsFMMfFFhFp"),
        rucksack::str_to_set("jqHRNqRjqzjGDLGLrsFMfFZSrLrFZsSL"),
        rucksack::str_to_set("PmmdzqPrVvPwwTWBwg"),
    ];
    assert_eq!(rucksack_badge::find_badge(&bags), 'r');
}

#[test]
fn marker_window_detection() {
    let line = "mjqjpqmgbljsphdztnvjfqwrcgsmlb";
    // the first window of fourteen distinct characters ends at 19
    let mut found = None;
    for pos in 0..=line.len() {
        if let Some(p) = stream_marker::predicate(line, pos) {
            found = Some(p);
            break;
        }
    }
    assert_eq!(found, Some(19));
    assert_eq!(stream_marker::predicate(line, 5), None);
}

#[test]
fn visible_trees_in_grid() {
    let mut forest = tree_house::Forest::new();
    forest.add_line("30373");
    forest.add_line("25512");
    forest.add_line("65332");
    forest.add_line("33549");
    forest.add_line("35390");
    assert_eq!(forest.get_height(), 5);
    assert_eq!(forest.get_width(), 5);

    let mut visible = 0;
    let mut it = forest.get_trees_iter();
    while let Some(pos) = it.next() {
        if forest.is_tree_visible(&pos) {
            visible += 1;
        }
    }
    assert_eq!(visible, 21);
}

#[test]
fn rope_tail_visits() {
    let mut rope = rope_single::RopeMap::new();
    let commands = [
        (Direction::Right, 4),
        (Direction::Up, 4),
        (Direction::Left, 3),
        (Direction::Down, 1),
        (Direction::Right, 4),
        (Direction::Down, 1),
        (Direction::Left, 5),
        (Direction::Right, 2),
    ];
    for (direction, nb_steps) in commands {
        rope.process_command(&Command { direction, nb_steps });
    }
    assert_eq!(rope.pos_tail_history.len(), 13);
}

#[test]
fn long_rope_tail_visits() {
    let mut rope = rope_chain::RopeMap::new();
    let commands = [
        (Direction::Right, 5),
        (Direction::Up, 8),
        (Direction::Left, 8),
        (Direction::Down, 3),
        (Direction::Right, 17),
        (Direction::Down, 10),
        (Direction::Left, 25),
        (Direction::Up, 20),
    ];
    for (direction, nb_steps) in commands {
        rope.process_command(&Command { direction, nb_steps });
    }
    assert_eq!(rope.pos_tail_history.len(), 36);
}

#[test]
fn sampled_signal_strengths() {
    let mut processor = Processor::new();
    // one two-cycle addition, then enough no-ops to pass cycle twenty
    processor.add_instruction(Instruction { nb_cycles: 2, payload: Payload::AddX(9) });
    for _ in 0..20 {
        processor.add_instruction(Instruction { nb_cycles: 1, payload: Payload::Noop });
    }
    while !processor.is_finished() {
        processor.do_cycle();
    }
    assert_eq!(processor.cycle_number, 22);
    // on cycle twenty the register held 1 + 9 = 10
    assert_eq!(processor.interesting_signals, vec![200]);
}

#[test]
fn instruction_reading() {
    let i = Instruction::from_str("noop");
    assert_eq!(i.payload, Payload::Noop);
    assert_eq!(i.nb_cycles, 1);
    let i = Instruction::from_str("addx -11");
    assert_eq!(i.payload, Payload::AddX(-11));
    assert_eq!(i.nb_cycles, 2);
    let i = Instruction::from_str("addx 15");
    assert_eq!(i.payload, Payload::AddX(15));
}

#[test]
fn sand_settles_and_fills() {
    let mut scan = Scan::new();
    scan.add_rocks_lines(&vec![Pos { x: 498, y: 4 }, Pos { x: 498, y: 6 }, Pos { x: 496, y: 6 }]);
    scan.add_rocks_lines(&vec![Pos { x: 503, y: 4 }, Pos { x: 502, y: 4 }, Pos {
        x: 502,
        y: 9,
    }, Pos { x: 494, y: 9 }]);
    assert_eq!(scan.depth, 10);
    let mut grains = 0;
    while scan.try_generate_sand() {
        grains += 1;
    }
    assert_eq!(grains, 24);
}

#[test]
fn digit_runs_are_parsed() {
    assert_eq!(puzzle_core::parsing::parse_usize("move 13 from 2", 5, 7), 13);
    assert_eq!(puzzle_core::parsing::parse_i64("x=-42;", 2, 5), -42);
    assert_eq!(puzzle_core::parsing::parse_u64("18446744073709551615", 0, 20), u64::MAX);
}

#[test]
fn packets_parse_and_order() {
    fn parse(line: &str) -> Vec<puzzle_core::packet_compare::Node> {
        let mut parser = puzzle_core::packet_compare::LineParser::new();
        for c in line.chars() {
            parser.parse_char(c);
        }
        parser.get_result()
    }
    let a = parse("[1,1,3,1,1]");
    let b = parse("[1,1,5,1,1]");
    assert_eq!(compare_list(&a, &b), Err(true));
    let c = parse("[[1],[2,3,4]]");
    let d = parse("[[1],4]");
    assert_eq!(compare_list(&c, &d), Err(true));
    let e = parse("[7,7,7,7]");
    let f = parse("[7,7,7]");
    assert_eq!(compare_list(&e, &f), Err(false));
    let g = parse("[]");
    assert_eq!(compare_list(&g, &g), Ok(()));
    let h = parse("[9]");
    let i = parse("[[8,7,6]]");
    assert_eq!(compare_list(&h, &i), Err(false));
    let _ = puzzle_core::packet_compare::Packet::new(h, false);
}

#[test]
fn item_remainders_track_operations() {
    let mut item = Item::new(79);
    item.fill_congruences_map(&vec![23, 19, 13, 17]);
    // 79 * 19 = 1501: the remainders must match 1501 mod each divisor
    let op = Operation { kind: OperationKind::Multiply, right: Some(19) };
    op.manipulate(&mut item);
    assert_eq!(item.congruences_map, vec![(23, 1501 % 23), (19, 0), (13, 1501 % 13), (17, 1501 % 17)]);
    // adding 6 gives 1507
    let op = Operation { kind: OperationKind::Add, right: Some(6) };
    op.manipulate(&mut item);
    assert_eq!(item.congruences_map, vec![(23, 1507 % 23), (19, 6), (13, 1507 % 13), (17, 1507 % 17)]);
    // squaring gives 1507 * 1507 = 2271049
    let op = Operation { kind: OperationKind::Multiply, right: None };
    op.manipulate(&mut item);
    assert_eq!(
        item.congruences_map,
        vec![(23, 2271049 % 23), (19, 2271049 % 19), (13, 2271049 % 13), (17, 2271049 % 17)]
    );
}

#[test]
fn monkey_throws_by_divisibility() {
    let mut item = Item::new(98);
    item.fill_congruences_map(&vec![13]);
    let op = Operation { kind: OperationKind::Multiply, right: Some(19) };
    let mut monkey = Monkey::new(0, op, 13, 2, 3, vec![item]);
    assert!(monkey.has_items_left());
    monkey.take_item();
    monkey.manipulate_item();
    // 98 * 19 = 1862 is not divisible by 13: the item flies to monkey 3
    let flying = monkey.throw_item();
    assert_eq!(flying.target_monkey_id, 3);
    assert_eq!(monkey.manipulations_count, 1);
    assert!(!monkey.has_items_left());
    let mut receiver = Monkey::new(
        3,
        Operation { kind: OperationKind::Add, right: Some(3) },
        17,
        0,
        1,
        Vec::new(),
    );
    receiver.receive_item(flying.item);
    assert!(receiver.has_items_left());
}

#[test]
fn top_two_monkeys_multiply() {
    let mut top = TopMonkey::new();
    top.add_monkey(101);
    top.add_monkey(95);
    top.add_monkey(7);
    top.add_monkey(105);
    assert_eq!(top.get_monkey_business(), 101 * 105);
}

#[test]
fn shell_session_rebuilds_tree() {
    let session = [
        "$ cd /",
        "$ ls",
        "dir a",
        "14848514 b.txt",
        "8504156 c.dat",
        "dir d",
        "$ cd a",
        "$ ls",
        "dir e",
        "29116 f",
        "2557 g",
        "62596 h.lst",
        "$ cd e",
        "$ ls",
        "584 i",
        "$ cd ..",
        "$ cd ..",
        "$ cd d",
        "$ ls",
        "4060174 j",
        "8033020 d.log",
        "5626152 d.ext",
        "7214296 k",
    ];
    let mut fs = FileSystem::new();
    for line in session {
        fs.process_line(Line::from_str(line));
    }
    assert_eq!(fs.get_size(0), 48381165);
    let smallest = fs.get_smallest_fitting_directory();
    assert_eq!(fs.get_size(smallest), 24933642);
    assert!(!fs.check_duplicate("nothing-of-this-name"));
}

#[test]
fn valves_open_and_release_pressure() {
    let mut board = Board::new();
    board.add_valve(ValveDeclaration {
        name: String::from("AA"),
        rate: 0,
        connections: vec![String::from("BB"), String::from("CC")],
    });
    board.add_valve(ValveDeclaration {
        name: String::from("BB"),
        rate: 13,
        connections: vec![String::from("AA")],
    });
    board.add_valve(ValveDeclaration {
        name: String::from("CC"),
        rate: 2,
        connections: vec![String::from("AA")],
    });
    board.add_valve(ValveDeclaration {
        name: String::from("DD"),
        rate: 0,
        connections: vec![String::from("AA")],
    });
    board.update_distance("BB", "CC", 2);
    board.remove_empty_valves();
    // the origin stays even with rate zero; the idle DD is gone
    assert_eq!(board.valves.len(), 3);

    let state = GameState::new_initial(&board);
    assert_eq!(state.remaining_valves.len(), 2);
    assert_eq!(state.get_remaining_time(), 30);
    // walk to BB (distance 1) and open it: two minutes pass
    let state = state.open_valve(&board, 1);
    assert_eq!(state.minutes_elapsed, 2);
    assert_eq!(state.cumulated_rate, 13);
    assert_eq!(state.cumulated_pressure, 0);
    // walk to CC (distance 2) and open it: three more minutes
    let state = state.open_valve(&board, 2);
    assert_eq!(state.minutes_elapsed, 5);
    assert_eq!(state.cumulated_rate, 15);
    assert_eq!(state.cumulated_pressure, 39);
    // sit out the remaining 25 minutes
    let state = state.wait();
    assert_eq!(state.minutes_elapsed, 30);
    assert_eq!(state.cumulated_pressure, 39 + 15 * 25);
}
