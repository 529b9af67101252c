use puzzle_core::cyclic_move::PlayerMove;
use puzzle_core::duel_forced_round::{get_complementary_move, parse_str, Round};
use puzzle_core::duel_outcome::Outcome;

#[test]
fn paper_lose_rock() {
    let result = get_complementary_move(PlayerMove::Paper, Outcome::LOSE);

    assert_eq!(result, PlayerMove::Rock);
}

#[test]
fn rock_lose_scissor() {
    let result = get_complementary_move(PlayerMove::Rock, Outcome::LOSE);

    assert_eq!(result, PlayerMove::Scissor);
}

#[test]
fn scissor_lose_paper() {
    let result = get_complementary_move(PlayerMove::Scissor, Outcome::LOSE);

    assert_eq!(result, PlayerMove::Paper);
}

#[test]
fn paper_win_scissor() {
    let result = get_complementary_move(PlayerMove::Paper, Outcome::WIN);

    assert_eq!(result, PlayerMove::Scissor);
}

#[test]
fn scissor_win_rock() {
    let result = get_complementary_move(PlayerMove::Scissor, Outcome::WIN);

    assert_eq!(result, PlayerMove::Rock);
}

#[test]
fn rock_win_paper() {
    let result = get_complementary_move(PlayerMove::Rock, Outcome::WIN);

    assert_eq!(result, PlayerMove::Paper);
}

#[test]
fn rock_draw_rock() {
    let result = get_complementary_move(PlayerMove::Rock, Outcome::DRAW);

    assert_eq!(result, PlayerMove::Rock);
}

#[test]
fn forced_round_scores_from_line() {
    // "A Y" demands a draw against Rock: Rock against Rock scores 1 + 3
    let round = parse_str("A Y");
    assert_eq!(round.get_score(), 4);
    // "B X" demands a loss against Paper: Rock against Paper scores 1 + 0
    let round = parse_str("B X");
    assert_eq!(round.get_score(), 1);
    // "C Z" demands a win against Scissor: Rock against Scissor scores 1 + 6
    let round = parse_str("C Z");
    assert_eq!(round.get_score(), 7);
}

#[test]
fn plain_round_scores_from_line() {
    // my Paper against their Rock: 2 + 6
    let round = puzzle_core::duel_round::parse_str("A Y");
    assert_eq!(round.get_score(), 8);
    // my Rock against their Paper: 1 + 0
    let round = puzzle_core::duel_round::parse_str("B X");
    assert_eq!(round.get_score(), 1);
    // my Scissor against their Scissor: 3 + 3
    let round = puzzle_core::duel_round::parse_str("C Z");
    assert_eq!(round.get_score(), 6);
}

#[test]
fn outcome_points() {
    assert_eq!(Outcome::from_char('X'), Outcome::LOSE);
    assert_eq!(Outcome::from_char('Y'), Outcome::DRAW);
    assert_eq!(Outcome::from_char('Z'), Outcome::WIN);
    assert_eq!(Outcome::LOSE.to_point(), 0);
    assert_eq!(Outcome::DRAW.to_point(), 3);
    assert_eq!(Outcome::WIN.to_point(), 6);
}

#[test]
fn fight_scores_cycle() {
    let rock = PlayerMove::from_points(1);
    let paper = PlayerMove::from_points(2);
    let scissor = PlayerMove::from_points(3);
    assert_eq!(puzzle_core::cyclic_move::get_fight_score(&rock, &scissor), 6);
    assert_eq!(puzzle_core::cyclic_move::get_fight_score(&scissor, &paper), 6);
    assert_eq!(puzzle_core::cyclic_move::get_fight_score(&paper, &rock), 6);
    assert_eq!(puzzle_core::cyclic_move::get_fight_score(&rock, &paper), 0);
    assert_eq!(puzzle_core::cyclic_move::get_fight_score(&rock, &rock), 3);

    let _ = Round::new(rock, paper);
}
