use laser_puzzle::block_type::{BlockType, MirrorState};
use laser_puzzle::level::{Level, LevelCreationError};
use laser_puzzle::parse::{parse_isize, parse_level, split_chars};
use laser_puzzle::point::Point;

const EXAMPLE: &str = "4\n0 1\n4 6\no o o / o\no o o o o\no x x o o\no o o \\ o\n";

fn chars(s: &str) -> Vec<char> {
    s.chars().collect()
}

#[test]
fn parse_example_level() {
    let level = parse_level(EXAMPLE).unwrap();
    assert_eq!(level.get_height(), 4);
    assert_eq!(level.get_width(), 5);
    assert_eq!(level.get_starting_point(), Point { x: 0, y: 1 });
    assert_eq!(level.get_finishing_point(), Point { x: 4, y: 6 });
    let grid = level.get_grid();
    assert_eq!(grid[0][3], BlockType::Mirror(MirrorState::Default));
    assert_eq!(grid[2][1], BlockType::Blocking);
    assert_eq!(grid[3][3], BlockType::Mirror(MirrorState::Flipped));
    assert_eq!(grid[1][1], BlockType::Empty);
    assert_eq!(level.cell_point(0, 3), Point { x: 3, y: 3 });
    assert_eq!(level.cell_point(3, 0), Point { x: 0, y: 0 });
}

#[test]
fn parse_ignores_carriage_returns() {
    let text = EXAMPLE.replace('\n', "\r\n");
    let level = parse_level(&text).unwrap();
    assert_eq!(level.get_width(), 5);
}

#[test]
fn parse_zero_height_is_empty_level() {
    let r = parse_level("0\n0 0\n0 0\n");
    assert!(matches!(r, Err(LevelCreationError::EmptyLevel)));
}

#[test]
fn parse_uneven_rows_is_grid_width_error() {
    let r = parse_level("2\n0 1\n3 1\noo\nooo\n");
    match r {
        Err(LevelCreationError::GridWidth(expected, actual, row)) => {
            assert_eq!(expected, 2);
            assert_eq!(actual, 3);
            assert_eq!(row, vec![BlockType::Empty; 3]);
        }
        _ => panic!("expected a grid width error"),
    }
}

#[test]
fn parse_point_off_perimeter() {
    let r = parse_level("1\n1 1\n0 1\no\n");
    match r {
        Err(LevelCreationError::PointLocation(p, h, w)) => {
            assert_eq!(p, Point { x: 1, y: 1 });
            assert_eq!(h, 2);
            assert_eq!(w, 2);
        }
        _ => panic!("expected a point location error"),
    }
    let corner = parse_level("1\n0 1\n0 0\no\n");
    assert!(matches!(
        corner,
        Err(LevelCreationError::PointLocation(Point { x: 0, y: 0 }, 2, 2))
    ));
}

#[test]
fn parse_bad_coordinate_line() {
    match parse_level("1\n0 1 2\n0 1\no\n") {
        Err(LevelCreationError::LineParse(s)) => assert_eq!(s, "0 1 2"),
        _ => panic!("expected a line parse error"),
    }
    match parse_level("1\n0 1\n0 z\no\n") {
        Err(LevelCreationError::LineParse(s)) => assert_eq!(s, "0 z"),
        _ => panic!("expected a line parse error"),
    }
}

#[test]
fn parse_bad_height() {
    match parse_level("a\n0 1\n0 1\no\n") {
        Err(LevelCreationError::HeightParse(s)) => assert_eq!(s, "a"),
        _ => panic!("expected a height parse error"),
    }
}

#[test]
fn parse_too_short() {
    assert!(matches!(parse_level("1\n0 1"), Err(LevelCreationError::InputTooShort)));
    assert!(matches!(parse_level("3\n0 1\n2 0\noo\n"), Err(LevelCreationError::InputTooShort)));
}

#[test]
fn parse_unknown_cell() {
    assert!(matches!(
        parse_level("1\n0 1\n2 0\no q\n"),
        Err(LevelCreationError::UnrecognizedBlock('q'))
    ));
}

#[test]
fn parse_numbers() {
    assert_eq!(parse_isize(&chars("42")), Some(42));
    assert_eq!(parse_isize(&chars("-17")), Some(-17));
    assert_eq!(parse_isize(&chars("+5")), Some(5));
    assert_eq!(parse_isize(&chars("")), None);
    assert_eq!(parse_isize(&chars("-")), None);
    assert_eq!(parse_isize(&chars("1a")), None);
    assert_eq!(parse_isize(&chars(&isize::MAX.to_string())), Some(isize::MAX));
    assert_eq!(parse_isize(&chars(&isize::MIN.to_string())), Some(isize::MIN));
    assert_eq!(parse_isize(&chars("99999999999999999999999")), None);
}

#[test]
fn split_keeps_empty_pieces() {
    let parts = split_chars(&chars("a  b"), ' ');
    assert_eq!(parts, vec![chars("a"), chars(""), chars("b")]);
    assert_eq!(split_chars(&chars(""), ' '), vec![chars("")]);
}

#[test]
fn new_checks_in_order() {
    let empty = Level::new(vec![], Point { x: 0, y: 1 }, Point { x: 0, y: 1 });
    assert!(matches!(empty, Err(LevelCreationError::EmptyLevel)));
    let grid = vec![vec![BlockType::Empty, BlockType::Blocking]];
    let ok = Level::new(grid, Point { x: 0, y: 1 }, Point { x: 3, y: 1 }).unwrap();
    assert_eq!(ok.get_height(), 1);
    assert_eq!(ok.get_width(), 2);
}

#[test]
fn rotate_twice_restores_level() {
    let mut level = parse_level(EXAMPLE).unwrap();
    let target = Point { x: 3, y: 3 };
    level.rotate(target);
    assert_eq!(level.get_grid()[0][3], BlockType::Mirror(MirrorState::Flipped));
    level.rotate(target);
    assert_eq!(level.get_grid()[0][3], BlockType::Mirror(MirrorState::Default));
    level.rotate(Point { x: 1, y: 1 });
    assert_eq!(level.get_grid()[2][1], BlockType::Blocking);
    level.rotate(Point { x: 9, y: 9 });
    assert_eq!(level.get_grid(), parse_level(EXAMPLE).unwrap().get_grid());
}

#[test]
fn rotate_propagating_turns_neighbour_mirrors() {
    let text = "2\n0 1\n3 1\n//\n/x\n";
    let mut level = parse_level(text).unwrap();
    level.rotate_propagating(Point { x: 0, y: 1 });
    let g = level.get_grid();
    assert_eq!(g[0][0], BlockType::Mirror(MirrorState::Flipped));
    assert_eq!(g[0][1], BlockType::Mirror(MirrorState::Flipped));
    assert_eq!(g[1][0], BlockType::Mirror(MirrorState::Flipped));
    assert_eq!(g[1][1], BlockType::Blocking);
}
