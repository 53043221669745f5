use aoc2024::trails::{find_paths, trailheads, Board};

fn board_of(lines: &[&str]) -> Board {
    let data: Vec<Vec<i32>> = lines
        .iter()
        .map(|l| {
            l.chars()
                .map(|c| match c {
                    '.' => 100,
                    _ => c.to_digit(10).map(|d| d as i32).unwrap_or(101),
                })
                .collect()
        })
        .collect();
    Board { rows: lines.len(), cols: lines[0].len(), data }
}

const SAMPLE: [&str; 8] = [
    "89010123", "78121874", "87430965", "96549874", "45678903", "32019012", "01329801", "10456732",
];

#[test]
fn sample_ratings_sum() {
    let board = board_of(&SAMPLE);
    let heads = trailheads(&board);
    assert_eq!(heads.len(), 9);
    assert_eq!(heads[0], (0, 2));
    let mut total = 0;
    for (row, col) in heads {
        let mut paths = Vec::new();
        find_paths(&board, row, col, Vec::new(), &mut paths);
        total += paths.len();
    }
    assert_eq!(total, 81);
}

#[test]
fn single_trail_steps() {
    let board = board_of(&["0123", "...4", "...5", "9876"]);
    let mut paths = Vec::new();
    find_paths(&board, 0, 0, Vec::new(), &mut paths);
    assert_eq!(
        paths,
        vec![vec![(0, 1), (0, 2), (0, 3), (1, 3), (2, 3), (3, 3), (3, 2), (3, 1), (3, 0)]]
    );
    let mut from_nine = vec![vec![(7, 7)]];
    find_paths(&board, 3, 0, vec![(5, 5)], &mut from_nine);
    assert_eq!(from_nine, vec![vec![(7, 7)], vec![(5, 5)]]);
}

#[test]
fn value_lookup() {
    let board = board_of(&["012", "3"]);
    assert_eq!(board.value_at(0, 2), Some(&2));
    assert_eq!(board.value_at(1, 0), Some(&3));
    assert_eq!(board.value_at(1, 1), None);
    assert_eq!(board.value_at(-1, 0), None);
    assert_eq!(trailheads(&board), vec![(0, 0)]);
}
