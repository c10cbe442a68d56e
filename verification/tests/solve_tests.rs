use htt::Grid;
use htt::Point;
use htt::SIZE_X;
use htt::SIZE_Y;
use htt::parse_input;
use htt::solve;

fn standard_grid() -> Grid {
    Grid { width: SIZE_X, height: SIZE_Y }
}

#[test]
fn solve_basic_test() {
    let input = String::from("\n10, 10\nN\nF\n");
    let mut input = parse_input(&input).unwrap();
    let p = solve(&mut input, &standard_grid());
    assert_eq!(Ok(Point { x: 10, y: 11 }), p);
}

#[test]
fn solve_longer_test() {
    let input = String::from("\n10, 10\nN\nFFFFLFFFFRFFFFRFFFFRFFFF\n");
    let mut input = parse_input(&input).unwrap();
    let p = solve(&mut input, &standard_grid());
    assert_eq!(Ok(Point { x: 10, y: 14 }), p);
}

#[test]
fn solve_basic_collision() {
    let input = String::from("\n0, 0\nS\nF\n");
    let mut input = parse_input(&input).unwrap();
    let p = solve(&mut input, &standard_grid());
    assert_eq!(Err(Point { x: 0, y: -1 }), p);
}

#[test]
fn solve_longer_collision() {
    let input = String::from("\n0, 0\nN\nFFFFRFFFFRFFFFF\n");
    let mut input = parse_input(&input).unwrap();
    let p = solve(&mut input, &standard_grid());
    assert_eq!(Err(Point { x: 4, y: -1 }), p);
}

#[test]
fn solve_critical_points() {
    let mut input = String::from("\n0, 0\nN\n");
    input.push_str(&"F".repeat(199));
    input.push_str("R");
    input.push_str(&"F".repeat(199));
    input.push_str("R");
    input.push_str(&"F".repeat(199));
    input.push_str("R");
    input.push_str(&"F".repeat(199));
    let mut input = parse_input(&input).unwrap();
    let p = solve(&mut input, &standard_grid());
    assert_eq!(Ok(Point { x: 0, y: 0 }), p);
}
