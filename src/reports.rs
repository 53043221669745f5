//! Reports: validation against the monotonic bounded-step rule, and repair by
//! removing one element.
use vstd::prelude::*;

verus! {

/// A report: an ordered sequence of readings.
pub struct Reports(pub Vec<i32>);

impl View for Reports {
    type V = Seq<i32>;

    open spec fn view(&self) -> Seq<i32> {
        self.0@
    }
}

/// The differences between consecutive readings; empty for a report of
/// length 0 or 1.
pub open spec fn diffs(r: Seq<i32>) -> Seq<int> {
    if r.len() <= 1 {
        Seq::empty()
    } else {
        Seq::new((r.len() - 1) as nat, |i: int| r[i + 1] as int - r[i] as int)
    }
}

pub open spec fn all_increasing(d: Seq<int>) -> bool {
    forall|i: int| 0 <= i < d.len() ==> #[trigger] d[i] > 0
}

pub open spec fn all_decreasing(d: Seq<int>) -> bool {
    forall|i: int| 0 <= i < d.len() ==> #[trigger] d[i] < 0
}

pub open spec fn all_bounded(d: Seq<int>) -> bool {
    forall|i: int| 0 <= i < d.len() ==> (1 <= #[trigger] d[i] <= 3 || -3 <= d[i] <= -1)
}

/// A report is valid when it strictly increases or strictly decreases, with
/// every step between 1 and 3 in size.
pub open spec fn valid_report(r: Seq<i32>) -> bool {
    let d = diffs(r);
    (all_increasing(d) || all_decreasing(d)) && all_bounded(d)
}

/// A report is repairable when it is valid, or becomes valid once one element
/// is removed.
pub open spec fn repairable(r: Seq<i32>) -> bool {
    valid_report(r) || exists|k: int| 0 <= k < r.len() && valid_report(#[trigger] r.remove(k))
}

/// The four tallies the repair heuristic keeps over the differences. They
/// overlap: a step of -5 is both negative and out of bounds.
#[derive(Clone, Copy)]
pub enum DiffClass {
    Negative,
    Positive,
    Zero,
    OutOfBounds,
}

pub open spec fn in_class(c: DiffClass, x: int) -> bool {
    match c {
        DiffClass::Negative => x < 0,
        DiffClass::Positive => x > 0,
        DiffClass::Zero => x == 0,
        DiffClass::OutOfBounds => x < -3 || x > 3,
    }
}

/// How many differences fall in class `c`.
pub open spec fn count_in(d: Seq<int>, c: DiffClass) -> nat
    decreases d.len(),
{
    if d.len() == 0 {
        0
    } else {
        count_in(d.drop_last(), c) + if in_class(c, d.last()) {
            1nat
        } else {
            0nat
        }
    }
}

/// `i` is the first position of a difference in class `c`.
pub open spec fn is_first_in(d: Seq<int>, c: DiffClass, i: int) -> bool {
    &&& 0 <= i < d.len()
    &&& in_class(c, d[i])
    &&& forall|j: int| 0 <= j < i ==> !in_class(c, #[trigger] d[j])
}

pub open spec fn first_in(d: Seq<int>, c: DiffClass) -> int {
    choose|i: int| is_first_in(d, c, i)
}

/// The position the heuristic blames: in the order negative, positive, zero,
/// out of bounds, the first class that holds exactly one difference names it.
pub open spec fn anomaly_index(d: Seq<int>) -> Option<int> {
    if count_in(d, DiffClass::Negative) == 1 {
        Some(first_in(d, DiffClass::Negative))
    } else if count_in(d, DiffClass::Positive) == 1 {
        Some(first_in(d, DiffClass::Positive))
    } else if count_in(d, DiffClass::Zero) == 1 {
        Some(first_in(d, DiffClass::Zero))
    } else if count_in(d, DiffClass::OutOfBounds) == 1 {
        Some(first_in(d, DiffClass::OutOfBounds))
    } else {
        None
    }
}

/// What the heuristic decides: valid as it stands, or valid once one of the
/// two readings around the blamed difference is removed.
pub open spec fn heuristic_repairable(r: Seq<i32>) -> bool {
    valid_report(r) || match anomaly_index(diffs(r)) {
        Some(i) => valid_report(r.remove(i)) || valid_report(r.remove(i + 1)),
        None => false,
    }
}

/// How many reports of `rs` are valid.
pub open spec fn valid_count(rs: Seq<Reports>) -> nat
    decreases rs.len(),
{
    if rs.len() == 0 {
        0
    } else {
        valid_count(rs.drop_last()) + if valid_report(rs.last()@) {
            1nat
        } else {
            0nat
        }
    }
}

/// How many reports of `rs` are repairable.
pub open spec fn repairable_count(rs: Seq<Reports>) -> nat
    decreases rs.len(),
{
    if rs.len() == 0 {
        0
    } else {
        repairable_count(rs.drop_last()) + if repairable(rs.last()@) {
            1nat
        } else {
            0nat
        }
    }
}

proof fn lemma_count_zero(d: Seq<int>, c: DiffClass)
    requires
        count_in(d, c) == 0,
    ensures
        forall|j: int| 0 <= j < d.len() ==> !in_class(c, #[trigger] d[j]),
    decreases d.len(),
{
    if d.len() > 0 {
        lemma_count_zero(d.drop_last(), c);
        assert forall|j: int| 0 <= j < d.len() implies !in_class(c, #[trigger] d[j]) by {
            if j < d.len() - 1 {
                assert(d[j] == d.drop_last()[j]);
            }
        }
    }
}

proof fn lemma_first_in(d: Seq<int>, c: DiffClass)
    requires
        count_in(d, c) > 0,
    ensures
        is_first_in(d, c, first_in(d, c)),
    decreases d.len(),
{
    let p = d.drop_last();
    if count_in(p, c) > 0 {
        lemma_first_in(p, c);
        let i = first_in(p, c);
        assert forall|j: int| 0 <= j < i implies !in_class(c, #[trigger] d[j]) by {
            assert(d[j] == p[j]);
        }
        assert(d[i] == p[i]);
        assert(is_first_in(d, c, i));
    } else {
        lemma_count_zero(p, c);
        let i = d.len() - 1;
        assert forall|j: int| 0 <= j < i implies !in_class(c, #[trigger] d[j]) by {
            assert(d[j] == p[j]);
        }
        assert(is_first_in(d, c, i));
    }
}

/// A report of length 0 or 1 is valid: it has no step to break the rule.
pub proof fn lemma_short_report_valid(r: Seq<i32>)
    requires
        r.len() <= 1,
    ensures
        valid_report(r),
{
}

/// A valid report is repairable by both strategies.
pub proof fn lemma_valid_is_repairable(r: Seq<i32>)
    requires
        valid_report(r),
    ensures
        repairable(r),
        heuristic_repairable(r),
{
}

/// Dropping the first reading keeps a valid report valid.
proof fn lemma_valid_without_first(r: Seq<i32>)
    requires
        valid_report(r),
        r.len() >= 1,
    ensures
        valid_report(r.remove(0)),
{
    let s = r.remove(0);
    let d = diffs(r);
    let e = diffs(s);
    if s.len() >= 2 {
        assert forall|i: int| 0 <= i < e.len() implies #[trigger] e[i] == d[i + 1] by {
            assert(s[i] == r[i + 1]);
            assert(s[i + 1] == r[i + 2]);
        }
        if all_increasing(d) {
            assert forall|i: int| 0 <= i < e.len() implies #[trigger] e[i] > 0 by {
                assert(e[i] == d[i + 1]);
            }
        }
        if all_decreasing(d) {
            assert forall|i: int| 0 <= i < e.len() implies #[trigger] e[i] < 0 by {
                assert(e[i] == d[i + 1]);
            }
        }
        assert forall|i: int| 0 <= i < e.len() implies (1 <= #[trigger] e[i] <= 3 || -3 <= e[i]
            <= -1) by {
            assert(e[i] == d[i + 1]);
        }
    }
}

/// For a report with at least one reading, repairability is exactly the
/// existence of one reading whose removal leaves a valid report.
pub proof fn lemma_repairable_iff_one_removal(r: Seq<i32>)
    requires
        r.len() >= 1,
    ensures
        repairable(r) <==> exists|k: int| 0 <= k < r.len() && valid_report(#[trigger] r.remove(k)),
{
    if valid_report(r) {
        lemma_valid_without_first(r);
        assert(valid_report(r.remove(0)));
    }
}

/// Whatever the heuristic accepts, trying every removal accepts too: it never
/// reports a repair that does not exist.
pub proof fn lemma_heuristic_sound(r: Seq<i32>)
    requires
        heuristic_repairable(r),
    ensures
        repairable(r),
{
    let d = diffs(r);
    if !valid_report(r) {
        let c = if count_in(d, DiffClass::Negative) == 1 {
            DiffClass::Negative
        } else if count_in(d, DiffClass::Positive) == 1 {
            DiffClass::Positive
        } else if count_in(d, DiffClass::Zero) == 1 {
            DiffClass::Zero
        } else {
            DiffClass::OutOfBounds
        };
        assert(count_in(d, c) == 1);
        lemma_first_in(d, c);
        let i = first_in(d, c);
        assert(anomaly_index(d) == Some(i));
        assert(r.len() >= 2);
        if valid_report(r.remove(i)) {
            assert(0 <= i < r.len());
        } else {
            assert(valid_report(r.remove(i + 1)));
            assert(0 <= i + 1 < r.len());
        }
    }
}

impl Reports {
    /// The step from reading `i` to reading `i + 1`, in a type wide enough
    /// that it never wraps.
    fn step(&self, i: usize) -> (d: i64)
        requires
            i + 1 < self@.len(),
        ensures
            d as int == diffs(self@)[i as int],
    {
        let n = self.0.len();
        assert(i + 1 < n);
        self.0[i + 1] as i64 - self.0[i] as i64
    }

    /// Whether the report is valid as it stands.
    pub fn is_valid_part_a(&self) -> (r: bool)
        ensures
            r == valid_report(self@),
    {
        let n = self.0.len();
        if n <= 1 {
            return true;
        }
        let ghost d = diffs(self@);
        let mut increasing = true;
        let mut decreasing = true;
        let mut bounded = true;
        let mut i: usize = 0;
        while i + 1 < n
            invariant
                n == self@.len(),
                n >= 2,
                d == diffs(self@),
                d.len() == n - 1,
                i <= n - 1,
                increasing == (forall|j: int| 0 <= j < i ==> #[trigger] d[j] > 0),
                decreasing == (forall|j: int| 0 <= j < i ==> #[trigger] d[j] < 0),
                bounded == (forall|j: int|
                    0 <= j < i ==> (1 <= #[trigger] d[j] <= 3 || -3 <= d[j] <= -1)),
            decreases n - i,
        {
            let s = self.step(i);
            if s <= 0 {
                increasing = false;
            }
            if s >= 0 {
                decreasing = false;
            }
            if s == 0 || s > 3 || s < -3 {
                bounded = false;
            }
            i = i + 1;
        }
        (increasing || decreasing) && bounded
    }

    /// A copy of the report without the reading at `k`.
    pub fn without(&self, k: usize) -> (r: Reports)
        requires
            k < self@.len(),
        ensures
            r@ == self@.remove(k as int),
    {
        let n = self.0.len();
        let mut v: Vec<i32> = Vec::new();
        let mut i: usize = 0;
        while i < k
            invariant
                n == self@.len(),
                k < n,
                i <= k,
                v@ == self@.subrange(0, i as int),
            decreases k - i,
        {
            v.push(self.0[i]);
            i = i + 1;
            assert(v@ =~= self@.subrange(0, i as int));
        }
        i = k + 1;
        while i < n
            invariant
                n == self@.len(),
                k < n,
                k + 1 <= i <= n,
                v@ == self@.subrange(0, k as int) + self@.subrange(k + 1, i as int),
            decreases n - i,
        {
            v.push(self.0[i]);
            i = i + 1;
            assert(v@ =~= self@.subrange(0, k as int) + self@.subrange(k + 1, i as int));
        }
        assert(v@ =~= self@.remove(k as int));
        Reports(v)
    }

    /// How many differences fall in class `c`, and where the first of them
    /// stands.
    fn class_scan(&self, c: DiffClass) -> (res: (usize, Option<usize>))
        ensures
            res.0 == count_in(diffs(self@), c),
            res.1 is Some <==> res.0 > 0,
            res.1 matches Some(p) ==> is_first_in(diffs(self@), c, p as int) && p == first_in(
                diffs(self@),
                c,
            ),
    {
        let n = self.0.len();
        let ghost d = diffs(self@);
        if n <= 1 {
            assert(d.len() == 0);
            return (0, None);
        }
        let mut count: usize = 0;
        let mut first: Option<usize> = None;
        let mut i: usize = 0;
        while i + 1 < n
            invariant
                n == self@.len(),
                n >= 2,
                d == diffs(self@),
                d.len() == n - 1,
                i <= n - 1,
                count == count_in(d.take(i as int), c),
                count <= i,
                first is Some <==> count > 0,
                first matches Some(p) ==> is_first_in(d, c, p as int) && p < i,
                first is None ==> forall|j: int| 0 <= j < i ==> !in_class(c, #[trigger] d[j]),
            decreases n - i,
        {
            let s = self.step(i);
            let hit = match c {
                DiffClass::Negative => s < 0,
                DiffClass::Positive => s > 0,
                DiffClass::Zero => s == 0,
                DiffClass::OutOfBounds => s < -3 || s > 3,
            };
            assert(d.take(i + 1).drop_last() =~= d.take(i as int));
            assert(d.take(i + 1).last() == d[i as int]);
            if hit {
                count = count + 1;
                if first.is_none() {
                    first = Some(i);
                }
            }
            i = i + 1;
        }
        assert(d.take(i as int) =~= d);
        if let Some(p) = first {
            proof {
                assert(is_first_in(d, c, first_in(d, c)));
                let q = first_in(d, c);
                if q < p {
                    assert(!in_class(c, d[q]));
                }
                if p < q {
                    assert(!in_class(c, d[p as int]));
                }
            }
        }
        (count, first)
    }

    /// Whether removing at most one reading makes the report valid, decided by
    /// looking at the shape of the failure and trying two removals at most.
    pub fn is_valid_part_b(&self) -> (r: bool)
        ensures
            r == heuristic_repairable(self@),
    {
        if self.is_valid_part_a() {
            return true;
        }
        let (negative, negative_at) = self.class_scan(DiffClass::Negative);
        let (positive, positive_at) = self.class_scan(DiffClass::Positive);
        let (zero, zero_at) = self.class_scan(DiffClass::Zero);
        let (out_of_bounds, out_of_bounds_at) = self.class_scan(DiffClass::OutOfBounds);
        let index = if negative == 1 {
            negative_at
        } else if positive == 1 {
            positive_at
        } else if zero == 1 {
            zero_at
        } else if out_of_bounds == 1 {
            out_of_bounds_at
        } else {
            None
        };
        match index {
            Some(i) => {
                assert(i + 1 < self@.len());
                self.without(i).is_valid_part_a() || self.without(i + 1).is_valid_part_a()
            },
            None => false,
        }
    }

    /// Whether removing at most one reading makes the report valid, decided by
    /// trying every removal.
    pub fn is_valid_part_b_brute(&self) -> (r: bool)
        ensures
            r == repairable(self@),
    {
        if self.is_valid_part_a() {
            return true;
        }
        let n = self.0.len();
        let mut k: usize = 0;
        while k < n
            invariant
                n == self@.len(),
                k <= n,
                !valid_report(self@),
                forall|j: int| 0 <= j < k ==> !valid_report(#[trigger] self@.remove(j)),
            decreases n - k,
        {
            if self.without(k).is_valid_part_a() {
                assert(valid_report(self@.remove(k as int)));
                return true;
            }
            k = k + 1;
        }
        false
    }
}

/// The number of reports that are valid as they stand.
pub fn count_valid(reports: &Vec<Reports>) -> (n: usize)
    ensures
        n == valid_count(reports@),
{
    let mut n: usize = 0;
    let mut i: usize = 0;
    while i < reports.len()
        invariant
            i <= reports@.len(),
            n == valid_count(reports@.take(i as int)),
            n <= i,
        decreases reports@.len() - i,
    {
        assert(reports@.take(i + 1).drop_last() =~= reports@.take(i as int));
        if reports[i].is_valid_part_a() {
            n = n + 1;
        }
        i = i + 1;
    }
    assert(reports@.take(i as int) =~= reports@);
    n
}

/// The number of reports that are valid once at most one reading is removed.
pub fn count_repairable(reports: &Vec<Reports>) -> (n: usize)
    ensures
        n == repairable_count(reports@),
{
    let mut n: usize = 0;
    let mut i: usize = 0;
    while i < reports.len()
        invariant
            i <= reports@.len(),
            n == repairable_count(reports@.take(i as int)),
            n <= i,
        decreases reports@.len() - i,
    {
        assert(reports@.take(i + 1).drop_last() =~= reports@.take(i as int));
        if reports[i].is_valid_part_b_brute() {
            n = n + 1;
        }
        i = i + 1;
    }
    assert(reports@.take(i as int) =~= reports@);
    n
}

} // verus!
