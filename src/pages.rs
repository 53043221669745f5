//! Page updates checked against ordering rules: an update is in order when
//! every page comes before every later page by some rule.
use vstd::prelude::*;

verus! {

/// The pairs (`s[i]`, `s[j]`) with `i < j` for the first `upto` values of `i`,
/// by `i` and then by `j`.
pub open spec fn pairs_upto(s: Seq<i32>, upto: nat) -> Seq<(i32, i32)>
    decreases upto,
{
    if upto == 0 {
        Seq::empty()
    } else {
        let i = upto - 1;
        pairs_upto(s, (upto - 1) as nat) + Seq::new(
            (if s.len() > i + 1 { s.len() - i - 1 } else { 0 }) as nat,
            |k: int| (s[i], s[i + 1 + k]),
        )
    }
}

/// Every pair (`s[i]`, `s[j]`) with `i < j`, by `i` and then by `j`.
pub open spec fn pairs_of(s: Seq<i32>) -> Seq<(i32, i32)> {
    pairs_upto(s, s.len())
}

/// Every page of `update` comes before every later page by some rule.
pub open spec fn in_order(rules: Seq<(i32, i32)>, update: Seq<i32>) -> bool {
    forall|i: int, j: int|
        0 <= i < j < update.len() ==> rules.contains((#[trigger] update[i], #[trigger] update[j]))
}

/// The sum of the middle pages of the updates that are in order.
pub open spec fn middle_sum(rules: Seq<(i32, i32)>, updates: Seq<Vec<i32>>) -> int
    decreases updates.len(),
{
    if updates.len() == 0 {
        0
    } else {
        let u = updates.last()@;
        middle_sum(rules, updates.drop_last()) + if in_order(rules, u) {
            u[(u.len() / 2) as int] as int
        } else {
            0
        }
    }
}

/// Every pair of values of `input` taken in order, by first position and then
/// by second.
pub fn generate_pairs(input: &[i32]) -> (pairs: Vec<(i32, i32)>)
    ensures
        pairs@ == pairs_of(input@),
{
    let n = input.len();
    let mut pairs: Vec<(i32, i32)> = Vec::new();
    let mut i: usize = 0;
    while i < n
        invariant
            n == input@.len(),
            i <= n,
            pairs@ == pairs_upto(input@, i as nat),
        decreases n - i,
    {
        let ghost before = pairs@;
        let mut j: usize = i + 1;
        while j < n
            invariant
                n == input@.len(),
                i < n,
                i + 1 <= j <= n,
                pairs@ == before + Seq::new((j - i - 1) as nat, |k: int| (input@[i as int], input@[i + 1 + k])),
            decreases n - j,
        {
            pairs.push((input[i], input[j]));
            j = j + 1;
            assert(pairs@ =~= before + Seq::new(
                (j - i - 1) as nat,
                |k: int| (input@[i as int], input@[i + 1 + k]),
            ));
        }
        i = i + 1;
        assert(pairs@ =~= pairs_upto(input@, i as nat));
    }
    pairs
}

/// Whether `rules` holds the pair (`a`, `b`).
fn has_rule(rules: &Vec<(i32, i32)>, a: i32, b: i32) -> (r: bool)
    ensures
        r == rules@.contains((a, b)),
{
    let mut k: usize = 0;
    while k < rules.len()
        invariant
            k <= rules@.len(),
            forall|m: int| 0 <= m < k ==> #[trigger] rules@[m] != (a, b),
        decreases rules@.len() - k,
    {
        let (l, r) = rules[k];
        if l == a && r == b {
            assert(rules@[k as int] == (a, b));
            return true;
        }
        k = k + 1;
    }
    false
}

/// Whether every page of `update` comes before every later page by some rule.
pub fn is_in_order(rules: &Vec<(i32, i32)>, update: &[i32]) -> (r: bool)
    ensures
        r == in_order(rules@, update@),
{
    let n = update.len();
    let mut i: usize = 0;
    while i < n
        invariant
            n == update@.len(),
            i <= n,
            forall|a: int, b: int|
                0 <= a < i && a < b < n ==> rules@.contains(
                    (#[trigger] update@[a], #[trigger] update@[b]),
                ),
        decreases n - i,
    {
        let mut j: usize = i + 1;
        while j < n
            invariant
                n == update@.len(),
                i < n,
                i + 1 <= j <= n,
                forall|a: int, b: int|
                    0 <= a < i && a < b < n ==> rules@.contains(
                        (#[trigger] update@[a], #[trigger] update@[b]),
                    ),
                forall|b: int| i < b < j ==> rules@.contains((update@[i as int], #[trigger] update@[b])),
            decreases n - j,
        {
            if !has_rule(rules, update[i], update[j]) {
                return false;
            }
            j = j + 1;
        }
        i = i + 1;
    }
    true
}

/// The sum of the middle pages of the updates that are in order, or `None`
/// when it leaves the range of `i32`.
pub fn sum_ordered_middles(rules: &Vec<(i32, i32)>, updates: &Vec<Vec<i32>>) -> (r: Option<i32>)
    requires
        forall|k: int| 0 <= k < updates@.len() ==> (#[trigger] updates@[k])@.len() > 0,
    ensures
        r matches Some(s) ==> s == middle_sum(rules@, updates@),
        r is None ==> exists|k: int|
            0 <= k <= updates@.len() && !(i32::MIN <= #[trigger] middle_sum(
                rules@,
                updates@.take(k),
            ) <= i32::MAX),
{
    let mut total: i32 = 0;
    let mut i: usize = 0;
    while i < updates.len()
        invariant
            forall|k: int| 0 <= k < updates@.len() ==> (#[trigger] updates@[k])@.len() > 0,
            i <= updates@.len(),
            total == middle_sum(rules@, updates@.take(i as int)),
        decreases updates@.len() - i,
    {
        assert(updates@.take(i + 1).drop_last() =~= updates@.take(i as int));
        let update = &updates[i];
        assert(update@.len() > 0);
        if is_in_order(rules, update.as_slice()) {
            match total.checked_add(update[update.len() / 2]) {
                Some(t) => total = t,
                None => {
                    assert(!(i32::MIN <= middle_sum(rules@, updates@.take(i + 1)) <= i32::MAX));
                    return None;
                },
            }
        }
        i = i + 1;
    }
    assert(updates@.take(i as int) =~= updates@);
    Some(total)
}

} // verus!
