//! Two lists of location numbers compared: by the distance between them once
//! both are sorted, and by how often each left number appears on the right.
use vstd::prelude::*;

verus! {

pub open spec fn is_sorted(s: Seq<i32>) -> bool {
    forall|i: int, j: int| 0 <= i <= j < s.len() ==> s[i] <= s[j]
}

/// `s` holds the values of `t` in ascending order.
pub open spec fn sorts(s: Seq<i32>, t: Seq<i32>) -> bool {
    is_sorted(s) && s.to_multiset() == t.to_multiset()
}

pub open spec fn distance(a: i32, b: i32) -> nat {
    if a >= b {
        (a - b) as nat
    } else {
        (b - a) as nat
    }
}

/// The sum of `distance(a[i], b[i])` for `i` below `n`.
pub open spec fn distance_upto(a: Seq<i32>, b: Seq<i32>, n: nat) -> nat
    decreases n,
{
    if n == 0 {
        0
    } else {
        distance_upto(a, b, (n - 1) as nat) + distance(a[n - 1], b[n - 1])
    }
}

/// The sum of the distances between values at the same position, as far as
/// the shorter list goes.
pub open spec fn distance_sum(a: Seq<i32>, b: Seq<i32>) -> nat {
    distance_upto(a, b, if a.len() <= b.len() { a.len() } else { b.len() })
}

/// How many times `x` appears in `s`.
pub open spec fn count_of(s: Seq<i32>, x: i32) -> nat
    decreases s.len(),
{
    if s.len() == 0 {
        0
    } else {
        count_of(s.drop_last(), x) + if s.last() == x {
            1nat
        } else {
            0nat
        }
    }
}

/// The sum of `l * count_of(right, l)` over the first `n` values `l` of
/// `left`.
pub open spec fn similarity_upto(left: Seq<i32>, right: Seq<i32>, n: nat) -> int
    decreases n,
{
    if n == 0 {
        0
    } else {
        similarity_upto(left, right, (n - 1) as nat) + left[n - 1] * count_of(right, left[n - 1])
    }
}

pub open spec fn similarity(left: Seq<i32>, right: Seq<i32>) -> int {
    similarity_upto(left, right, left.len())
}

/// Relies on `slice::sort`: the same values, in ascending order.
#[verifier::external_body]
fn sort_values(v: Vec<i32>) -> (r: Vec<i32>)
    ensures
        r@.len() == v@.len(),
        sorts(r@, v@),
{
    let mut v = v;
    v.sort();
    v
}

proof fn lemma_distance_prefix(a: Seq<i32>, b: Seq<i32>, i: nat, j: nat)
    requires
        i <= j <= a.len(),
        j <= b.len(),
    ensures
        distance_upto(a, b, i) <= distance_upto(a, b, j),
    decreases j - i,
{
    if i < j {
        lemma_distance_prefix(a, b, i, (j - 1) as nat);
    }
}

/// The sum of the distances between values at the same position, as far as
/// the shorter list goes, or `None` when it passes `u64::MAX`.
pub fn sum_distances(a: &Vec<i32>, b: &Vec<i32>) -> (r: Option<u64>)
    ensures
        r is Some <==> distance_sum(a@, b@) <= u64::MAX,
        r matches Some(s) ==> s == distance_sum(a@, b@),
{
    let n = if a.len() <= b.len() {
        a.len()
    } else {
        b.len()
    };
    let mut total: u64 = 0;
    let mut i: usize = 0;
    while i < n
        invariant
            n <= a@.len(),
            n <= b@.len(),
            n == (if a@.len() <= b@.len() { a@.len() } else { b@.len() }),
            i <= n,
            total == distance_upto(a@, b@, i as nat),
        decreases n - i,
    {
        let (x, y) = (a[i] as i64, b[i] as i64);
        let d: u64 = if x >= y {
            (x - y) as u64
        } else {
            (y - x) as u64
        };
        match total.checked_add(d) {
            Some(t) => total = t,
            None => {
                proof {
                    lemma_distance_prefix(a@, b@, (i + 1) as nat, n as nat);
                }
                return None;
            },
        }
        i = i + 1;
    }
    Some(total)
}

/// The total distance between the two lists once both are sorted, or `None`
/// when it passes `u64::MAX`.
pub fn total_distance(left: Vec<i32>, right: Vec<i32>) -> (r: Option<u64>)
    ensures
        exists|a: Seq<i32>, b: Seq<i32>|
            {
                &&& sorts(a, left@)
                &&& sorts(b, right@)
                &&& (r is Some <==> distance_sum(a, b) <= u64::MAX)
                &&& (r matches Some(s) ==> s == distance_sum(a, b))
            },
{
    let a = sort_values(left);
    let b = sort_values(right);
    let r = sum_distances(&a, &b);
    assert(sorts(a@, left@) && sorts(b@, right@));
    r
}

/// How many times `x` appears in `s`.
fn occurrences(s: &Vec<i32>, x: i32) -> (n: usize)
    ensures
        n == count_of(s@, x),
{
    let mut n: usize = 0;
    let mut i: usize = 0;
    while i < s.len()
        invariant
            i <= s@.len(),
            n <= i,
            n == count_of(s@.take(i as int), x),
        decreases s@.len() - i,
    {
        assert(s@.take(i + 1).drop_last() =~= s@.take(i as int));
        if s[i] == x {
            n = n + 1;
        }
        i = i + 1;
    }
    assert(s@.take(i as int) =~= s@);
    n
}

/// The similarity score: each left number times how often it appears on the
/// right, summed; `None` when a partial sum leaves the range of `i128`.
pub fn similarity_score(left: &Vec<i32>, right: &Vec<i32>) -> (r: Option<i128>)
    ensures
        r matches Some(s) ==> s == similarity(left@, right@),
        r is None ==> exists|k: nat|
            k <= left@.len() && !(i128::MIN <= #[trigger] similarity_upto(left@, right@, k)
                <= i128::MAX),
{
    let mut total: i128 = 0;
    let mut i: usize = 0;
    while i < left.len()
        invariant
            i <= left@.len(),
            total == similarity_upto(left@, right@, i as nat),
        decreases left@.len() - i,
    {
        let l = left[i];
        let c = occurrences(right, l);
        assert(-0x8000_0000 * 0x1_0000_0000_0000_0000 <= (l as int) * (c as int)
            <= 0x8000_0000 * 0x1_0000_0000_0000_0000) by (nonlinear_arith)
            requires
                -0x8000_0000 <= l < 0x8000_0000,
                0 <= c < 0x1_0000_0000_0000_0000,
        ;
        let term = (l as i128) * (c as i128);
        match total.checked_add(term) {
            Some(t) => total = t,
            None => {
                assert(!(i128::MIN <= similarity_upto(left@, right@, (i + 1) as nat)
                    <= i128::MAX));
                return None;
            },
        }
        i = i + 1;
    }
    Some(total)
}

} // verus!
