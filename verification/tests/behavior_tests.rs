use htt::Dir;
use htt::Grid;
use htt::Instr;
use htt::Point;
use htt::Rover;
use htt::SIZE_X;
use htt::SIZE_Y;
use htt::parse_input;
use htt::solve;

fn standard_grid() -> Grid {
    Grid { width: SIZE_X, height: SIZE_Y }
}

// Parse failures: fewer than three segments, a coordinate segment without
// a comma, an empty direction segment, an unrecognized direction.

#[test]
fn parse_fails_on_empty_input() {
    assert!(parse_input("").is_none());
}

#[test]
fn parse_fails_on_two_segments() {
    assert!(parse_input("10, 10\nN").is_none());
}

#[test]
fn parse_fails_without_comma() {
    assert!(parse_input("10 10\nN\nF").is_none());
}

#[test]
fn parse_fails_on_empty_direction() {
    assert!(parse_input("10, 10\n\nF").is_none());
}

#[test]
fn parse_fails_on_unknown_direction() {
    assert!(parse_input("10, 10\nX\nF").is_none());
}

// The documented coordinate quirk: a coordinate that is not a well-formed
// i32 counts as zero.

#[test]
fn unparsable_coordinate_counts_as_zero() {
    let (rover, _) = parse_input("abc, 5\nN\nF").unwrap();
    assert_eq!(rover.pos, Point { x: 0, y: 5 });
}

#[test]
fn overflowing_coordinate_counts_as_zero() {
    let (rover, _) = parse_input("2147483648, 5\nN\nF").unwrap();
    assert_eq!(rover.pos, Point { x: 0, y: 5 });
}

#[test]
fn signed_coordinates_parse() {
    let (rover, _) = parse_input("+7, -2\nE\nF").unwrap();
    assert_eq!(rover.pos, Point { x: 7, y: -2 });
}

#[test]
fn extreme_coordinates_parse_exactly() {
    let (rover, _) = parse_input("2147483647, -2147483648\nE\nF").unwrap();
    assert_eq!(rover.pos, Point { x: 2147483647, y: -2147483648 });
}

// Parsing of the remaining segments.

#[test]
fn only_first_direction_character_matters() {
    let (rover, _) = parse_input("5, 5\nNorth\nF").unwrap();
    assert_eq!(rover.facing, Dir::North);
}

#[test]
fn unrecognized_instruction_characters_are_noops() {
    let mut input = parse_input("0, 0\nN\nFXFY").unwrap();
    let p = solve(&mut input, &standard_grid());
    assert_eq!(Ok(Point { x: 0, y: 2 }), p);
}

#[test]
fn extra_commas_are_ignored() {
    let (rover, _) = parse_input("1,2,3\nN\nF").unwrap();
    assert_eq!(rover.pos, Point { x: 1, y: 2 });
}

#[test]
fn fourth_segment_is_ignored() {
    let mut input = parse_input("1, 1\nN\nF\nFFFF").unwrap();
    let p = solve(&mut input, &standard_grid());
    assert_eq!(Ok(Point { x: 1, y: 2 }), p);
}

#[test]
fn empty_instruction_segment_is_a_success() {
    let mut input = parse_input("5, 5\nW\n\nrest").unwrap();
    assert!(input.1.is_empty());
    let p = solve(&mut input, &standard_grid());
    assert_eq!(Ok(Point { x: 5, y: 5 }), p);
}

// Trimming removes the whole Unicode white-space set, around the input
// as a whole and around each coordinate.

#[test]
fn unicode_whitespace_around_input_is_trimmed() {
    let padded = parse_input("\u{a0}\u{2028} 5, 5\nN\nF\u{3000}\u{a0}").unwrap();
    let plain = parse_input("5, 5\nN\nF").unwrap();
    assert_eq!(padded.0, plain.0);
    assert_eq!(padded.1, plain.1);
}

#[test]
fn unicode_whitespace_around_coordinates_is_trimmed() {
    let (rover, _) = parse_input("5\u{a0}, \u{2009}6\nN\nF").unwrap();
    assert_eq!(rover.pos, Point { x: 5, y: 6 });
}

// Turning: left then right is the identity, and four quarter turns in the
// same sense come back around.

#[test]
fn turn_left_then_right_restores_facing() {
    let mut input = parse_input("10, 10\nE\nLR").unwrap();
    let p = solve(&mut input, &standard_grid());
    assert_eq!(Ok(Point { x: 10, y: 10 }), p);
    assert_eq!(input.0.facing, Dir::East);
}

#[test]
fn four_right_turns_restore_facing() {
    let mut input = parse_input("10, 10\nN\nRRRR").unwrap();
    solve(&mut input, &standard_grid()).unwrap();
    assert_eq!(input.0.facing, Dir::North);
}

#[test]
fn four_left_turns_restore_facing() {
    let mut input = parse_input("10, 10\nS\nLLLL").unwrap();
    solve(&mut input, &standard_grid()).unwrap();
    assert_eq!(input.0.facing, Dir::South);
}

// A forward move followed by a forward move in the opposite direction
// returns to the starting position.

#[test]
fn forward_and_back_restore_position() {
    let grid = standard_grid();
    let mut first = (Rover { pos: Point { x: 10, y: 10 }, facing: Dir::East }, vec![
        Instr::Forward,
    ]);
    let p = solve(&mut first, &grid);
    assert_eq!(Ok(Point { x: 11, y: 10 }), p);
    let mut back = (Rover { pos: Point { x: 11, y: 10 }, facing: Dir::West }, vec![
        Instr::Forward,
    ]);
    let q = solve(&mut back, &grid);
    assert_eq!(Ok(Point { x: 10, y: 10 }), q);
}

// No-ops inserted anywhere leave the result unchanged.

#[test]
fn noops_do_not_change_the_result() {
    let grid = standard_grid();
    let mut plain = parse_input("3, 3\nN\nFFRF").unwrap();
    let mut padded = parse_input("3, 3\nN\n..FF..R.F..").unwrap();
    assert_eq!(solve(&mut plain, &grid), solve(&mut padded, &grid));
    assert_eq!(plain.0, padded.0);
}

// The first collision is final: the second invalid move is never applied,
// and the failing position is not committed to the rover.

#[test]
fn first_collision_is_reported() {
    let mut input = parse_input("0, 0\nS\nFF").unwrap();
    let p = solve(&mut input, &standard_grid());
    assert_eq!(Err(Point { x: 0, y: -1 }), p);
    assert_eq!(input.0.pos, Point { x: 0, y: 0 });
}

#[test]
fn instructions_after_collision_are_not_applied() {
    let mut input = parse_input("0, 0\nW\nFLFFFF").unwrap();
    let p = solve(&mut input, &standard_grid());
    assert_eq!(Err(Point { x: -1, y: 0 }), p);
    assert_eq!(input.0.pos, Point { x: 0, y: 0 });
    assert_eq!(input.0.facing, Dir::West);
}

// A starting position outside the grid is only detected when a move is
// attempted, and the attempted position is the one reported.

#[test]
fn out_of_bounds_start_collides_on_first_move() {
    let mut input = parse_input("300, 300\nN\nF").unwrap();
    let p = solve(&mut input, &standard_grid());
    assert_eq!(Err(Point { x: 300, y: 301 }), p);
}

// The grid bounds are an explicit argument to the engine.

#[test]
fn smaller_grids_collide_sooner() {
    let small = Grid { width: 3, height: 3 };
    let mut input = parse_input("0, 0\nE\nFFFF").unwrap();
    let p = solve(&mut input, &small);
    assert_eq!(Err(Point { x: 3, y: 0 }), p);
    assert_eq!(input.0.pos, Point { x: 2, y: 0 });
}
