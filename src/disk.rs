//! A disk map: files and free space laid out block by block, compacted by
//! moving file blocks from the end into free blocks at the front.
use crate::{chars_of, string_of};
use vstd::prelude::*;

verus! {

#[derive(Clone, Copy, Debug)]
pub enum DiskBlock {
    File(u32),
    Free,
}

/// The blocks of a disk, in order.
pub struct DiskMap(pub Vec<DiskBlock>);

impl View for DiskMap {
    type V = Seq<DiskBlock>;

    open spec fn view(&self) -> Seq<DiskBlock> {
        self.0@
    }
}

pub open spec fn is_digit(c: char) -> bool {
    '0' <= c <= '9'
}

pub open spec fn digit_value(c: char) -> u32 {
    (c as u32 - '0' as u32) as u32
}

/// The block that entry `i` of a dense layout stands for: even entries are
/// files, numbered from zero, odd entries free space.
pub open spec fn entry_block(i: int) -> DiskBlock {
    if i % 2 == 0 {
        DiskBlock::File((i / 2) as u32)
    } else {
        DiskBlock::Free
    }
}

/// The blocks that a dense layout describes: entry `i` repeated as many times
/// as it says.
pub open spec fn layout_blocks(entries: Seq<u32>) -> Seq<DiskBlock>
    decreases entries.len(),
{
    if entries.len() == 0 {
        Seq::empty()
    } else {
        let k = entries.len() - 1;
        layout_blocks(entries.drop_last()) + Seq::new(entries.last() as nat, |j: int| entry_block(k))
    }
}

/// How a block is drawn: a file by its number when that is one digit, `$`
/// otherwise; free space as `.`.
pub open spec fn block_char(b: DiskBlock) -> char {
    match b {
        DiskBlock::File(id) => if id < 10 {
            (id + 48) as char
        } else {
            '$'
        },
        DiskBlock::Free => '.',
    }
}

/// The sum, over file blocks, of position times file number.
pub open spec fn checksum_of(b: Seq<DiskBlock>) -> nat
    decreases b.len(),
{
    if b.len() == 0 {
        0
    } else {
        checksum_of(b.drop_last()) + match b.last() {
            DiskBlock::File(id) => ((b.len() - 1) * id) as nat,
            DiskBlock::Free => 0nat,
        }
    }
}

/// The blocks that a dense layout describes.
pub fn blocks_from_layout(entries: Vec<u32>) -> (r: Vec<DiskBlock>)
    requires
        entries@.len() <= 2 * (u32::MAX as int),
    ensures
        r@ == layout_blocks(entries@),
{
    let mut layout: Vec<DiskBlock> = Vec::new();
    let mut index: usize = 0;
    while index < entries.len()
        invariant
            index <= entries@.len() <= 2 * (u32::MAX as int),
            layout@ == layout_blocks(entries@.take(index as int)),
        decreases entries@.len() - index,
    {
        let ghost before = layout@;
        let block = if index % 2 == 0 {
            DiskBlock::File((index / 2) as u32)
        } else {
            DiskBlock::Free
        };
        let count = entries[index];
        let mut j: u32 = 0;
        while j < count
            invariant
                j <= count,
                block == entry_block(index as int),
                layout@ == before + Seq::new(j as nat, |t: int| entry_block(index as int)),
            decreases count - j,
        {
            layout.push(block);
            j = j + 1;
            assert(layout@ =~= before + Seq::new(j as nat, |t: int| entry_block(index as int)));
        }
        assert(entries@.take(index + 1).drop_last() =~= entries@.take(index as int));
        index = index + 1;
    }
    assert(entries@.take(index as int) =~= entries@);
    layout
}

/// The last file block before position `end`, or -1 when there is none.
pub open spec fn last_file_before(b: Seq<DiskBlock>, end: nat) -> int
    decreases end,
{
    if end == 0 {
        -1
    } else if b[end - 1] is File {
        end - 1
    } else {
        last_file_before(b, (end - 1) as nat)
    }
}

/// Compaction by two cursors: `left` walks forward; at each free block it
/// takes the last file block at or before `right`, swaps the two, and that
/// block becomes the new `right`. It stops once `left + 1` reaches `right`,
/// or when no file block is left to take.
pub open spec fn compact(b: Seq<DiskBlock>, left: nat, right: int) -> Seq<DiskBlock>
    decreases b.len() - left,
{
    if left + 1 < right && right < b.len() {
        if b[left as int] is Free {
            let r = last_file_before(b, (right + 1) as nat);
            if r < 0 || r > right {
                b
            } else {
                compact(b.update(left as int, b[r]).update(r, b[left as int]), left + 1, r)
            }
        } else {
            compact(b, left + 1, right)
        }
    } else {
        b
    }
}

proof fn lemma_last_file_before(b: Seq<DiskBlock>, end: nat)
    requires
        end <= b.len(),
    ensures
        -1 <= last_file_before(b, end) < end,
        last_file_before(b, end) >= 0 ==> b[last_file_before(b, end)] is File,
    decreases end,
{
    if end > 0 {
        lemma_last_file_before(b, (end - 1) as nat);
    }
}

proof fn lemma_swap_keeps_blocks(s: Seq<DiskBlock>, i: int, j: int)
    requires
        0 <= i < s.len(),
        0 <= j < s.len(),
    ensures
        s.update(i, s[j]).update(j, s[i]).to_multiset() == s.to_multiset(),
{
    broadcast use
        vstd::seq_lib::to_multiset_update,
        vstd::seq_lib::to_multiset_contains,
        vstd::multiset::group_multiset_axioms,
    ;

    let s1 = s.update(i, s[j]);
    if i == j {
        assert(s1 =~= s);
        assert(s1.update(j, s[i]) =~= s);
    } else {
        assert(s1[j] == s[j]);
        assert(s.contains(s[i]));
        assert(s.contains(s[j]));
        assert(s1.to_multiset() == s.to_multiset().insert(s[j]).remove(s[i]));
        assert(s1.update(j, s[i]).to_multiset() == s1.to_multiset().insert(s[i]).remove(s[j]));
        assert(s.to_multiset().insert(s[j]).remove(s[i]).insert(s[i]).remove(s[j])
            =~= s.to_multiset());
    }
}

proof fn lemma_checksum_prefix(b: Seq<DiskBlock>, i: int, j: int)
    requires
        0 <= i <= j <= b.len(),
    ensures
        checksum_of(b.take(i)) <= checksum_of(b.take(j)),
    decreases j - i,
{
    if i < j {
        lemma_checksum_prefix(b, i, j - 1);
        assert(b.take(j).drop_last() =~= b.take(j - 1));
    }
}

pub open spec fn digits_of(s: Seq<char>) -> Seq<u32> {
    s.map_values(|c: char| digit_value(c))
}

impl DiskMap {
    /// The disk that a dense layout of decimal digits describes.
    pub fn new(content: String) -> (r: Self)
        requires
            forall|i: int| 0 <= i < content@.len() ==> is_digit(#[trigger] content@[i]),
            content@.len() <= 2 * (u32::MAX as int),
        ensures
            r@ == layout_blocks(digits_of(content@)),
    {
        let chars = chars_of(content.as_str());
        let mut values: Vec<u32> = Vec::new();
        let mut i: usize = 0;
        while i < chars.len()
            invariant
                chars@ == content@,
                forall|k: int| 0 <= k < content@.len() ==> is_digit(#[trigger] content@[k]),
                i <= chars@.len(),
                values@ == digits_of(content@).take(i as int),
            decreases chars@.len() - i,
        {
            let c = chars[i];
            assert(is_digit(content@[i as int]));
            values.push((c as u32) - ('0' as u32));
            i = i + 1;
            assert(values@ =~= digits_of(content@).take(i as int));
        }
        assert(values@ =~= digits_of(content@));
        DiskMap(blocks_from_layout(values))
    }

    /// The blocks drawn one character each.
    pub fn display_layout(&self) -> (s: String)
        ensures
            s@ == self@.map_values(|b: DiskBlock| block_char(b)),
    {
        let mut out: Vec<char> = Vec::new();
        let mut i: usize = 0;
        while i < self.0.len()
            invariant
                i <= self@.len(),
                out@ == self@.take(i as int).map_values(|b: DiskBlock| block_char(b)),
            decreases self@.len() - i,
        {
            let c = match self.0[i] {
                DiskBlock::File(id) => if id < 10 {
                    (id + 48) as u8 as char
                } else {
                    '$'
                },
                DiskBlock::Free => '.',
            };
            out.push(c);
            i = i + 1;
            assert(out@ =~= self@.take(i as int).map_values(|b: DiskBlock| block_char(b)));
        }
        assert(self@.take(i as int) =~= self@);
        string_of(&out)
    }

    /// Moves file blocks from the end into free blocks at the front, as
    /// `compact` describes, starting with the cursors at both ends.
    pub fn defragment(&mut self)
        ensures
            final(self)@ == compact(old(self)@, 0, old(self)@.len() - 1),
            final(self)@.to_multiset() == old(self)@.to_multiset(),
    {
        let n = self.0.len();
        if n < 3 {
            return;
        }
        let mut left: usize = 0;
        let mut right: usize = n - 1;
        while left + 1 < right
            invariant
                self@.len() == n,
                old(self)@.len() == n,
                n >= 3,
                left < n,
                right < n,
                compact(self@, left as nat, right as int) == compact(old(self)@, 0, n - 1),
                self@.to_multiset() == old(self)@.to_multiset(),
            decreases n - left,
        {
            if let DiskBlock::Free = self.0[left] {
                let mut r: usize = right;
                while matches!(self.0[r], DiskBlock::Free)
                    invariant
                        self@.len() == n,
                        old(self)@.len() == n,
                        r <= right < n,
                        left + 1 < right,
                        self@[left as int] is Free,
                        self@.to_multiset() == old(self)@.to_multiset(),
                        compact(self@, left as nat, right as int) == compact(old(self)@, 0, n - 1),
                        last_file_before(self@, (right + 1) as nat) == last_file_before(
                            self@,
                            (r + 1) as nat,
                        ),
                    decreases r,
                {
                    if r == 0 {
                        assert(last_file_before(self@, 0) == -1);
                        assert(last_file_before(self@, 1) == -1);
                        assert(compact(self@, left as nat, right as int) == self@);
                        return;
                    }
                    r = r - 1;
                }
                let ghost before = self@;
                assert(last_file_before(before, (r + 1) as nat) == r);
                assert(compact(before, left as nat, right as int) == compact(
                    before.update(left as int, before[r as int]).update(r as int, before[left as int]),
                    (left + 1) as nat,
                    r as int,
                ));
                let moved = self.0[r];
                let freed = self.0[left];
                self.0.set(left, moved);
                self.0.set(r, freed);
                proof {
                    lemma_swap_keeps_blocks(before, left as int, r as int);
                }
                right = r;
            }
            left = left + 1;
        }
    }

    /// The sum, over file blocks, of position times file number, or `None`
    /// when it passes `usize::MAX`.
    pub fn checksum_checked(&self) -> (c: Option<usize>)
        ensures
            c is Some <==> checksum_of(self@) <= usize::MAX,
            c matches Some(v) ==> v == checksum_of(self@),
    {
        let mut sum: usize = 0;
        let mut i: usize = 0;
        while i < self.0.len()
            invariant
                i <= self@.len(),
                sum == checksum_of(self@.take(i as int)),
            decreases self@.len() - i,
        {
            proof {
                lemma_checksum_prefix(self@, i + 1, self@.len() as int);
                assert(self@.take(self@.len() as int) =~= self@);
                assert(self@.take(i + 1).drop_last() =~= self@.take(i as int));
            }
            if let DiskBlock::File(id) = self.0[i] {
                let term = match i.checked_mul(id as usize) {
                    Some(t) => t,
                    None => {
                        return None;
                    },
                };
                match sum.checked_add(term) {
                    Some(t) => sum = t,
                    None => {
                        return None;
                    },
                }
            }
            i = i + 1;
        }
        assert(self@.take(i as int) =~= self@);
        Some(sum)
    }

    /// The sum, over file blocks, of position times file number.
    pub fn checksum(&self) -> (c: usize)
        requires
            checksum_of(self@) <= usize::MAX,
        ensures
            c == checksum_of(self@),
    {
        match self.checksum_checked() {
            Some(c) => c,
            None => 0,
        }
    }
}

} // verus!
