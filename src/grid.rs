//! A word search over a grid of letters.
use crate::string_of;
use vstd::prelude::*;

verus! {

/// A grid of letters, one line per row. Its size for the searches is `rows`
/// by `cols`; a cell that no line holds reads as `*`.
pub struct Board {
    pub rows: usize,
    pub cols: usize,
    pub data: Vec<Vec<char>>,
}

pub open spec fn is_xmas(w: Seq<char>) -> bool {
    w == seq!['X', 'M', 'A', 'S'] || w == seq!['S', 'A', 'M', 'X']
}

pub open spec fn is_mas(w: Seq<char>) -> bool {
    w == seq!['M', 'A', 'S'] || w == seq!['S', 'A', 'M']
}

/// The four lines of four cells that start from a corner of the square at a
/// cell: across, down, down the diagonal, and up the other diagonal.
pub open spec fn square_offsets() -> Seq<Seq<(usize, usize)>> {
    seq![
        seq![(0, 0), (0, 1), (0, 2), (0, 3)],
        seq![(0, 0), (1, 0), (2, 0), (3, 0)],
        seq![(0, 0), (1, 1), (2, 2), (3, 3)],
        seq![(3, 0), (2, 1), (1, 2), (0, 3)],
    ]
}

/// The two diagonals of the three-by-three square at a cell.
pub open spec fn cross_offsets() -> Seq<Seq<(usize, usize)>> {
    seq![seq![(0, 0), (1, 1), (2, 2)], seq![(2, 0), (1, 1), (0, 2)]]
}

impl Board {
    pub open spec fn letter(&self, row: int, col: int) -> char {
        if 0 <= row < self.data@.len() && 0 <= col < self.data@[row]@.len() {
            self.data@[row]@[col]
        } else {
            '*'
        }
    }

    /// The letters read at the cells `offsets` away from (`row`, `col`).
    pub open spec fn word(&self, row: int, col: int, offsets: Seq<(usize, usize)>) -> Seq<char> {
        Seq::new(offsets.len(), |i: int| self.letter(row + offsets[i].0, col + offsets[i].1))
    }

    /// How many of the four lines from (`row`, `col`) spell XMAS, either way.
    pub open spec fn xmas_at(&self, row: int, col: int) -> nat {
        let o = square_offsets();
        (if is_xmas(self.word(row, col, o[0])) { 1nat } else { 0nat })
            + (if is_xmas(self.word(row, col, o[1])) { 1nat } else { 0nat })
            + (if is_xmas(self.word(row, col, o[2])) { 1nat } else { 0nat })
            + (if is_xmas(self.word(row, col, o[3])) { 1nat } else { 0nat })
    }

    /// Both diagonals of the square at (`row`, `col`) spell MAS, either way.
    pub open spec fn x_mas_at(&self, row: int, col: int) -> bool {
        let o = cross_offsets();
        is_mas(self.word(row, col, o[0])) && is_mas(self.word(row, col, o[1]))
    }

    pub open spec fn xmas_in_row(&self, row: int, upto: nat) -> nat
        decreases upto,
    {
        if upto == 0 {
            0
        } else {
            self.xmas_in_row(row, (upto - 1) as nat) + self.xmas_at(row, upto - 1)
        }
    }

    pub open spec fn xmas_in_rows(&self, upto: nat) -> nat
        decreases upto,
    {
        if upto == 0 {
            0
        } else {
            self.xmas_in_rows((upto - 1) as nat) + self.xmas_in_row(upto - 1, self.cols as nat)
        }
    }

    pub open spec fn x_mas_in_row(&self, row: int, upto: nat) -> nat
        decreases upto,
    {
        if upto == 0 {
            0
        } else {
            self.x_mas_in_row(row, (upto - 1) as nat) + if self.x_mas_at(row, upto - 1) {
                1nat
            } else {
                0nat
            }
        }
    }

    pub open spec fn x_mas_in_rows(&self, upto: nat) -> nat
        decreases upto,
    {
        if upto == 0 {
            0
        } else {
            self.x_mas_in_rows((upto - 1) as nat) + self.x_mas_in_row(upto - 1, self.cols as nat)
        }
    }

    pub fn new(rows: usize, cols: usize, data: Vec<Vec<char>>) -> (b: Self)
        ensures
            b.rows == rows,
            b.cols == cols,
            b.data@ == data@,
    {
        Board { rows, cols, data }
    }

    /// The letter at (`row` + `dr`, `col` + `dc`).
    fn letter_at(&self, row: usize, dr: usize, col: usize, dc: usize) -> (c: char)
        ensures
            c == self.letter(row + dr, col + dc),
    {
        let r = match row.checked_add(dr) {
            Some(r) => r,
            None => {
                let _ = self.data.len();
                return '*';
            },
        };
        let c = match col.checked_add(dc) {
            Some(c) => c,
            None => {
                if r < self.data.len() {
                    let _ = self.data[r].len();
                }
                return '*';
            },
        };
        if r < self.data.len() && c < self.data[r].len() {
            self.data[r][c]
        } else {
            '*'
        }
    }

    /// The letters at the cells `offsets` away from (`row`, `col`).
    fn read_word(&self, row: usize, col: usize, offsets: &Vec<(usize, usize)>) -> (w: Vec<char>)
        ensures
            w@ == self.word(row as int, col as int, offsets@),
    {
        let mut w: Vec<char> = Vec::new();
        let mut i: usize = 0;
        while i < offsets.len()
            invariant
                i <= offsets@.len(),
                w@ == self.word(row as int, col as int, offsets@.take(i as int)),
            decreases offsets@.len() - i,
        {
            let (dr, dc) = offsets[i];
            w.push(self.letter_at(row, dr, col, dc));
            i = i + 1;
            assert(w@ =~= self.word(row as int, col as int, offsets@.take(i as int)));
        }
        assert(offsets@.take(i as int) =~= offsets@);
        w
    }

    /// The four lines of letters from (`row`, `col`), as `square_offsets`
    /// lays them out.
    fn square_words(&self, row: usize, col: usize) -> (ws: Vec<Vec<char>>)
        ensures
            ws@.len() == 4,
            forall|i: int|
                0 <= i < 4 ==> #[trigger] ws@[i]@ == self.word(
                    row as int,
                    col as int,
                    square_offsets()[i],
                ),
    {
        let across = vec![(0, 0), (0, 1), (0, 2), (0, 3)];
        let down = vec![(0, 0), (1, 0), (2, 0), (3, 0)];
        let diagonal = vec![(0, 0), (1, 1), (2, 2), (3, 3)];
        let anti = vec![(3, 0), (2, 1), (1, 2), (0, 3)];
        assert(across@ =~= square_offsets()[0]);
        assert(down@ =~= square_offsets()[1]);
        assert(diagonal@ =~= square_offsets()[2]);
        assert(anti@ =~= square_offsets()[3]);
        let ws = vec![
            self.read_word(row, col, &across),
            self.read_word(row, col, &down),
            self.read_word(row, col, &diagonal),
            self.read_word(row, col, &anti),
        ];
        ws
    }

    /// The four lines of letters from (`row`, `col`): across, down, down the
    /// diagonal, and up the other diagonal.
    pub fn square_values_a(&self, row: usize, col: usize) -> (vs: Vec<String>)
        ensures
            vs@.len() == 4,
            forall|i: int|
                0 <= i < 4 ==> #[trigger] vs@[i]@ == self.word(
                    row as int,
                    col as int,
                    square_offsets()[i],
                ),
    {
        let ws = self.square_words(row, col);
        let mut vs: Vec<String> = Vec::new();
        let mut i: usize = 0;
        while i < 4
            invariant
                i <= 4,
                ws@.len() == 4,
                vs@.len() == i,
                forall|j: int| 0 <= j < i ==> #[trigger] vs@[j]@ == ws@[j]@,
            decreases 4 - i,
        {
            vs.push(string_of(&ws[i]));
            i = i + 1;
        }
        assert forall|j: int| 0 <= j < 4 implies #[trigger] vs@[j]@ == self.word(
            row as int,
            col as int,
            square_offsets()[j],
        ) by {
            assert(ws@[j]@ == self.word(row as int, col as int, square_offsets()[j]));
        }
        vs
    }

    /// The two diagonal words of the three-by-three square at (`row`, `col`).
    fn cross_words(&self, row: usize, col: usize) -> (ws: (Vec<char>, Vec<char>))
        ensures
            ws.0@ == self.word(row as int, col as int, cross_offsets()[0]),
            ws.1@ == self.word(row as int, col as int, cross_offsets()[1]),
    {
        let first = vec![(0, 0), (1, 1), (2, 2)];
        let second = vec![(2, 0), (1, 1), (0, 2)];
        assert(first@ =~= cross_offsets()[0]);
        assert(second@ =~= cross_offsets()[1]);
        (self.read_word(row, col, &first), self.read_word(row, col, &second))
    }

    /// The two diagonals of the three-by-three square at (`row`, `col`):
    /// down from its top left corner, and up from its bottom left corner.
    pub fn diag_values_b(&self, row: usize, col: usize) -> (vs: [String; 2])
        ensures
            vs@[0]@ == self.word(row as int, col as int, cross_offsets()[0]),
            vs@[1]@ == self.word(row as int, col as int, cross_offsets()[1]),
    {
        let (first, second) = self.cross_words(row, col);
        [string_of(&first), string_of(&second)]
    }

    /// How many of the four lines from (`row`, `col`) spell XMAS.
    fn xmas_count_at(&self, row: usize, col: usize) -> (n: usize)
        ensures
            n == self.xmas_at(row as int, col as int),
            n <= 4,
    {
        let ws = self.square_words(row, col);
        let mut n: usize = 0;
        if spells_xmas(&ws[0]) {
            n = n + 1;
        }
        if spells_xmas(&ws[1]) {
            n = n + 1;
        }
        if spells_xmas(&ws[2]) {
            n = n + 1;
        }
        if spells_xmas(&ws[3]) {
            n = n + 1;
        }
        n
    }

    /// How many times XMAS can be read in a straight line, in any of the
    /// eight directions, from the cells of the `rows` by `cols` grid.
    pub fn counts_a(&self) -> (n: usize)
        requires
            4 * self.rows * self.cols <= usize::MAX,
        ensures
            n == self.xmas_in_rows(self.rows as nat),
    {
        let mut count: usize = 0;
        let mut row: usize = 0;
        while row < self.rows
            invariant
                4 * self.rows * self.cols <= usize::MAX,
                row <= self.rows,
                count == self.xmas_in_rows(row as nat),
                count <= 4 * row * self.cols,
            decreases self.rows - row,
        {
            let mut in_row: usize = 0;
            let mut col: usize = 0;
            assert(4 * self.cols <= 4 * self.rows * self.cols) by (nonlinear_arith)
                requires
                    row < self.rows,
            ;
            while col < self.cols
                invariant
                    row < self.rows,
                    col <= self.cols,
                    4 * self.cols <= usize::MAX,
                    in_row == self.xmas_in_row(row as int, col as nat),
                    in_row <= 4 * col,
                decreases self.cols - col,
            {
                in_row = in_row + self.xmas_count_at(row, col);
                col = col + 1;
            }
            assert(count + in_row <= 4 * (row + 1) * self.cols <= 4 * self.rows * self.cols)
                by (nonlinear_arith)
                requires
                    count <= 4 * row * self.cols,
                    in_row <= 4 * self.cols,
                    row < self.rows,
            ;
            count = count + in_row;
            row = row + 1;
        }
        count
    }

    /// Whether both diagonals of the square at (`row`, `col`) spell MAS.
    fn x_mas_here(&self, row: usize, col: usize) -> (r: bool)
        ensures
            r == self.x_mas_at(row as int, col as int),
    {
        let (first, second) = self.cross_words(row, col);
        spells_mas(&first) && spells_mas(&second)
    }

    /// How many three-by-three squares of the grid hold MAS on both
    /// diagonals, either way.
    pub fn counts_b(&self) -> (n: usize)
        requires
            self.rows * self.cols <= usize::MAX,
        ensures
            n == self.x_mas_in_rows(self.rows as nat),
    {
        let mut count: usize = 0;
        let mut row: usize = 0;
        while row < self.rows
            invariant
                self.rows * self.cols <= usize::MAX,
                row <= self.rows,
                count == self.x_mas_in_rows(row as nat),
                count <= row * self.cols,
            decreases self.rows - row,
        {
            let mut in_row: usize = 0;
            let mut col: usize = 0;
            while col < self.cols
                invariant
                    row < self.rows,
                    col <= self.cols,
                    in_row == self.x_mas_in_row(row as int, col as nat),
                    in_row <= col,
                decreases self.cols - col,
            {
                if self.x_mas_here(row, col) {
                    in_row = in_row + 1;
                }
                col = col + 1;
            }
            assert(count + in_row <= (row + 1) * self.cols <= self.rows * self.cols)
                by (nonlinear_arith)
                requires
                    count <= row * self.cols,
                    in_row <= self.cols,
                    row < self.rows,
            ;
            count = count + in_row;
            row = row + 1;
        }
        count
    }
}

fn spells_xmas(w: &Vec<char>) -> (r: bool)
    ensures
        r == is_xmas(w@),
{
    if w.len() != 4 {
        return false;
    }
    let forward = w[0] == 'X' && w[1] == 'M' && w[2] == 'A' && w[3] == 'S';
    let backward = w[0] == 'S' && w[1] == 'A' && w[2] == 'M' && w[3] == 'X';
    if forward {
        assert(w@ =~= seq!['X', 'M', 'A', 'S']);
    }
    if backward {
        assert(w@ =~= seq!['S', 'A', 'M', 'X']);
    }
    if !forward && !backward {
        assert(w@ != seq!['X', 'M', 'A', 'S']);
        assert(w@ != seq!['S', 'A', 'M', 'X']);
    }
    forward || backward
}

fn spells_mas(w: &Vec<char>) -> (r: bool)
    ensures
        r == is_mas(w@),
{
    if w.len() != 3 {
        return false;
    }
    let forward = w[0] == 'M' && w[1] == 'A' && w[2] == 'S';
    let backward = w[0] == 'S' && w[1] == 'A' && w[2] == 'M';
    if forward {
        assert(w@ =~= seq!['M', 'A', 'S']);
    }
    if backward {
        assert(w@ =~= seq!['S', 'A', 'M']);
    }
    if !forward && !backward {
        assert(w@ != seq!['M', 'A', 'S']);
        assert(w@ != seq!['S', 'A', 'M']);
    }
    forward || backward
}

} // verus!
