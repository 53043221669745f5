//! Hiking trails on a height map: a trail starts at height 0 and climbs by
//! exactly one at each step up, down, left or right, until it reaches 9.
use vstd::prelude::*;

verus! {

/// A height map, one line per row.
pub struct Board {
    pub rows: usize,
    pub cols: usize,
    pub data: Vec<Vec<i32>>,
}

impl Board {
    /// Every cell has coordinates that fit in `i32`, with room for one step.
    pub open spec fn wf(&self) -> bool {
        &&& self.data@.len() < i32::MAX
        &&& forall|r: int| 0 <= r < self.data@.len() ==> #[trigger] self.data@[r]@.len() < i32::MAX
    }

    pub open spec fn height(&self, row: int, col: int) -> Option<i32> {
        if 0 <= row < self.data@.len() && 0 <= col < self.data@[row]@.len() {
            Some(self.data@[row]@[col])
        } else {
            None
        }
    }

    /// The height at (`row`, `col`), if the map has that cell.
    pub fn value_at(&self, row: i32, col: i32) -> (v: Option<&i32>)
        ensures
            match self.height(row as int, col as int) {
                Some(h) => v == Some(&h),
                None => v is None,
            },
    {
        if row < 0 || col < 0 {
            return None;
        }
        let r = row as usize;
        let c = col as usize;
        if r < self.data.len() && c < self.data[r].len() {
            Some(&self.data[r][c])
        } else {
            None
        }
    }
}

pub open spec fn rank(b: Board, row: int, col: int) -> int {
    match b.height(row, col) {
        Some(h) => i32::MAX - h,
        None => 0,
    }
}

/// Each path of `ps` with the step to (`row`, `col`) in front.
pub open spec fn led_by(row: int, col: int, ps: Seq<Seq<(i32, i32)>>) -> Seq<Seq<(i32, i32)>> {
    ps.map_values(|p: Seq<(i32, i32)>| seq![(row as i32, col as i32)] + p)
}

/// The trails that go on from a cell of height `h` through (`row`, `col`):
/// none unless that cell is one higher.
pub open spec fn branch(b: Board, h: i32, row: int, col: int) -> Seq<Seq<(i32, i32)>>
    decreases i32::MAX - h, 0int,
{
    if h < i32::MAX && b.height(row, col) == Some((h + 1) as i32) {
        led_by(row, col, trails(b, row, col))
    } else {
        Seq::empty()
    }
}

/// The steps of each trail from (`row`, `col`) to a 9, the start left out:
/// one empty trail at a 9, else those through the cell below, above, to the
/// right and to the left, in that order.
pub open spec fn trails(b: Board, row: int, col: int) -> Seq<Seq<(i32, i32)>>
    decreases rank(b, row, col), 1int,
{
    match b.height(row, col) {
        None => Seq::empty(),
        Some(h) => if h == 9 {
            seq![Seq::empty()]
        } else {
            branch(b, h, row + 1, col) + branch(b, h, row - 1, col) + branch(b, h, row, col + 1)
                + branch(b, h, row, col - 1)
        },
    }
}

pub open spec fn views(ps: Seq<Vec<(i32, i32)>>) -> Seq<Seq<(i32, i32)>> {
    ps.map_values(|p: Vec<(i32, i32)>| p@)
}

pub open spec fn after(acc: Seq<(i32, i32)>, ps: Seq<Seq<(i32, i32)>>) -> Seq<Seq<(i32, i32)>> {
    ps.map_values(|p: Seq<(i32, i32)>| acc + p)
}

/// `acc` with `step` added at the end.
fn extended(acc: &Vec<(i32, i32)>, step: (i32, i32)) -> (r: Vec<(i32, i32)>)
    ensures
        r@ == acc@.push(step),
{
    let mut r: Vec<(i32, i32)> = Vec::new();
    let mut i: usize = 0;
    while i < acc.len()
        invariant
            i <= acc@.len(),
            r@ == acc@.take(i as int),
        decreases acc@.len() - i,
    {
        r.push(acc[i]);
        i = i + 1;
        assert(r@ =~= acc@.take(i as int));
    }
    assert(acc@.take(i as int) =~= acc@);
    r.push(step);
    r
}

/// Follows the trails from a cell of height `h` through (`row`, `col`).
fn follow(
    board: &Board,
    h: i32,
    row: i32,
    col: i32,
    acc: &Vec<(i32, i32)>,
    paths: &mut Vec<Vec<(i32, i32)>>,
)
    requires
        board.wf(),
    ensures
        views(final(paths)@) == views(old(paths)@) + after(acc@, branch(*board, h, row as int, col as int)),
    decreases i32::MAX - h, 0int,
{
    if h < i32::MAX {
        if let Some(v) = board.value_at(row, col) {
            if *v == h + 1 {
                let next = extended(acc, (row, col));
                find_paths(board, row, col, next, paths);
                proof {
                    let t = trails(*board, row as int, col as int);
                    assert forall|i: int| 0 <= i < t.len() implies #[trigger] after(next@, t)[i]
                        == after(acc@, led_by(row as int, col as int, t))[i] by {
                        assert(acc@.push((row, col)) + t[i] =~= acc@ + (seq![(row, col)] + t[i]));
                    }
                    assert(after(next@, t) =~= after(acc@, led_by(row as int, col as int, t)));
                }
                return;
            }
        }
    }
    assert(views(old(paths)@) + after(acc@, Seq::empty()) =~= views(old(paths)@));
}

/// Adds to `paths` every trail from (`row`, `col`) to a 9, each after the
/// steps `acc` that led there.
pub fn find_paths(
    board: &Board,
    row: i32,
    col: i32,
    acc: Vec<(i32, i32)>,
    paths: &mut Vec<Vec<(i32, i32)>>,
)
    requires
        board.wf(),
        board.height(row as int, col as int) is Some,
    ensures
        views(final(paths)@) == views(old(paths)@) + after(acc@, trails(*board, row as int, col as int)),
    decreases rank(*board, row as int, col as int), 1int,
{
    let current = match board.value_at(row, col) {
        Some(v) => *v,
        None => {
            return;
        },
    };
    if current == 9 {
        let ghost before = paths@;
        paths.push(acc);
        assert(views(paths@) =~= views(before) + after(acc@, seq![Seq::empty()]));
        return;
    }
    let ghost b = *board;
    let ghost (r, c) = (row as int, col as int);
    let ghost start = views(paths@);
    assert(0 <= r < board.data@.len() && 0 <= c < board.data@[r]@.len());
    assert(board.data@[r]@.len() < i32::MAX);
    follow(board, current, row + 1, col, &acc, paths);
    follow(board, current, row - 1, col, &acc, paths);
    follow(board, current, row, col + 1, &acc, paths);
    follow(board, current, row, col - 1, &acc, paths);
    proof {
        let a = after(acc@, branch(b, current, r + 1, c));
        let bb = after(acc@, branch(b, current, r - 1, c));
        let cc = after(acc@, branch(b, current, r, c + 1));
        let d = after(acc@, branch(b, current, r, c - 1));
        assert(after(
            acc@,
            branch(b, current, r + 1, c) + branch(b, current, r - 1, c) + branch(b, current, r, c + 1)
                + branch(b, current, r, c - 1),
        ) =~= a + bb + cc + d);
        assert(views(paths@) =~= start + (a + bb + cc + d));
    }
}

/// The cells of height 0 in row `row`, among its first `upto` cells.
pub open spec fn zeros_in_row(b: Board, row: int, upto: nat) -> Seq<(i32, i32)>
    decreases upto,
{
    if upto == 0 {
        Seq::empty()
    } else {
        zeros_in_row(b, row, (upto - 1) as nat) + if b.height(row, upto - 1) == Some(0i32) {
            seq![(row as i32, (upto - 1) as i32)]
        } else {
            Seq::empty()
        }
    }
}

/// The cells of height 0 in the first `upto` rows, row by row.
pub open spec fn zeros_upto(b: Board, upto: nat) -> Seq<(i32, i32)>
    decreases upto,
{
    if upto == 0 {
        Seq::empty()
    } else {
        zeros_upto(b, (upto - 1) as nat) + zeros_in_row(
            b,
            upto - 1,
            b.data@[upto - 1]@.len(),
        )
    }
}

/// The cells of height 0, where trails start, row by row.
pub fn trailheads(board: &Board) -> (heads: Vec<(i32, i32)>)
    requires
        board.wf(),
    ensures
        heads@ == zeros_upto(*board, board.data@.len()),
{
    let mut heads: Vec<(i32, i32)> = Vec::new();
    let mut r: usize = 0;
    while r < board.data.len()
        invariant
            board.wf(),
            r <= board.data@.len(),
            heads@ == zeros_upto(*board, r as nat),
        decreases board.data@.len() - r,
    {
        let line = &board.data[r];
        let ghost before = heads@;
        assert(board.data@[r as int]@.len() < i32::MAX);
        let mut c: usize = 0;
        while c < line.len()
            invariant
                board.wf(),
                r < board.data@.len(),
                *line == board.data@[r as int],
                line@.len() < i32::MAX,
                c <= line@.len(),
                heads@ == before + zeros_in_row(*board, r as int, c as nat),
            decreases line@.len() - c,
        {
            if line[c] == 0 {
                heads.push((r as i32, c as i32));
            }
            c = c + 1;
            assert(heads@ =~= before + zeros_in_row(*board, r as int, c as nat));
        }
        r = r + 1;
    }
    heads
}

} // verus!
