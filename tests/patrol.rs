use aoc2024::patrol::{move_one, Board, Direction, Guard, Piece};

fn board_of(lines: &[&str]) -> (Board, Guard) {
    let rows = lines.len();
    let cols = lines[0].len();
    let mut data = Vec::new();
    let mut guard = Guard { position: (0, 0), direction: Direction::Up };
    for (row, line) in lines.iter().enumerate() {
        for (col, c) in line.chars().enumerate() {
            data.push(match c {
                '.' => Piece::Empty,
                '#' => Piece::Obstacle,
                _ => {
                    guard.position = (row, col);
                    Piece::Visited
                }
            });
        }
    }
    (Board::from_cells(rows, cols, data).unwrap(), guard)
}

#[test]
fn rotate_turns_clockwise() {
    let mut g = Guard { position: (2, 3), direction: Direction::Up };
    g.rotate_direction();
    assert_eq!(g.direction, Direction::Right);
    g.rotate_direction();
    assert_eq!(g.direction, Direction::Down);
    g.rotate_direction();
    assert_eq!(g.direction, Direction::Left);
    g.rotate_direction();
    assert_eq!(g.direction, Direction::Up);
    assert_eq!(g.position, (2, 3));
}

#[test]
fn pieces_and_bounds() {
    let (mut board, _) = board_of(&[".#", "^."]);
    assert_eq!(board.piece_at(0, 0), Piece::Empty);
    assert_eq!(board.piece_at(0, 1), Piece::Obstacle);
    assert_eq!(board.piece_at(1, 0), Piece::Visited);
    assert_eq!(board.piece_at(2, 0), Piece::OutOfBounds);
    assert_eq!(board.piece_at(0, 2), Piece::OutOfBounds);
    assert_eq!(board.visited_count(), 1);
    board.visit(1, 1);
    board.visit(5, 5);
    assert_eq!(board.piece_at(1, 1), Piece::Visited);
    assert_eq!(board.visited_count(), 2);
    assert!(Board::from_cells(2, 2, vec![Piece::Empty]).is_none());
}

#[test]
fn patrol_sample_visits_41_cells() {
    let (mut board, mut guard) = board_of(&[
        "....#.....",
        ".........#",
        "..........",
        "..#.......",
        ".......#..",
        "..........",
        ".#..^.....",
        "........#.",
        "#.........",
        "......#...",
    ]);
    while move_one(&mut board, &mut guard) {}
    assert_eq!(board.visited_count(), 41);
}

#[test]
fn move_turns_at_obstacle_and_stops_at_edge() {
    let (mut board, mut guard) = board_of(&["#.", "^."]);
    assert!(move_one(&mut board, &mut guard));
    assert_eq!(guard.direction, Direction::Right);
    assert_eq!(guard.position, (1, 0));
    assert!(move_one(&mut board, &mut guard));
    assert_eq!(guard.position, (1, 1));
    assert_eq!(board.visited_count(), 2);
    assert!(!move_one(&mut board, &mut guard));
    assert_eq!(guard.position, (1, 1));
    let (mut board, mut guard) = board_of(&["^"]);
    assert!(!move_one(&mut board, &mut guard));
}
