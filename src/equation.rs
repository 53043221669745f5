//! Calibration equations: can the operators `+`, `*` and digit concatenation,
//! applied left to right, combine the values into the target?
use vstd::prelude::*;

verus! {

pub struct Equation {
    pub target: u128,
    pub values: Vec<u128>,
}

pub open spec fn pow10(k: nat) -> nat
    decreases k,
{
    if k == 0 {
        1
    } else {
        10 * pow10((k - 1) as nat)
    }
}

/// How many decimal digits `n` is written with.
pub open spec fn num_digits(n: nat) -> nat
    decreases n,
{
    if n < 10 {
        1
    } else {
        1 + num_digits(n / 10)
    }
}

/// The number whose decimal digits are those of `l` followed by those of `r`.
pub open spec fn merged(l: nat, r: nat) -> nat {
    l * pow10(num_digits(r)) + r
}

/// Whether, from `current`, the values from `index` on can be folded into
/// `target`. A branch whose running value passes `u128::MAX` is dropped.
pub open spec fn reaches(target: nat, values: Seq<u128>, index: nat, current: nat) -> bool
    decreases values.len() - index,
{
    if index >= values.len() {
        current == target
    } else {
        let v = values[index as int] as nat;
        ||| (current + v <= u128::MAX && reaches(target, values, index + 1, current + v))
        ||| (current * v <= u128::MAX && reaches(target, values, index + 1, current * v))
        ||| (merged(current, v) <= u128::MAX && reaches(
            target,
            values,
            index + 1,
            merged(current, v),
        ))
    }
}

proof fn lemma_pow10_monotonic(a: nat, b: nat)
    requires
        a <= b,
    ensures
        1 <= pow10(a) <= pow10(b),
    decreases b,
{
    if a < b {
        lemma_pow10_monotonic(a, (b - 1) as nat);
    } else if b > 0 {
        lemma_pow10_monotonic((b - 1) as nat, (b - 1) as nat);
    }
}

/// `left` followed by the digits of `right`, or `None` when that passes `u128::MAX`.
pub fn merge_checked(left: u128, right: u128) -> (r: Option<u128>)
    ensures
        r is Some <==> merged(left as nat, right as nat) <= u128::MAX,
        r matches Some(m) ==> m == merged(left as nat, right as nat),
{
    let ghost d = num_digits(right as nat);
    let mut q: u128 = right;
    let mut p: u128 = 10;
    let ghost mut k: nat = 1;
    assert(pow10(1) == 10 * pow10(0));
    while q >= 10
        invariant
            d == num_digits(right as nat),
            d == num_digits(q as nat) + k - 1,
            p == pow10(k),
            1 <= k,
        decreases q,
    {
        proof {
            assert(num_digits((q / 10) as nat) >= 1);
            assert(num_digits(q as nat) == 1 + num_digits((q / 10) as nat));
            lemma_pow10_monotonic(k + 1, d);
        }
        q = q / 10;
        match p.checked_mul(10) {
            Some(next) => {
                p = next;
                proof {
                    k = k + 1;
                }
            },
            None => {
                if left == 0 {
                    return Some(right);
                }
                proof {
                    assert(pow10(k + 1) == 10 * pow10(k));
                    let pd = pow10(d);
                    assert((left as nat) * pd >= pd) by (nonlinear_arith)
                        requires
                            left >= 1,
                    ;
                }
                return None;
            },
        }
    }
    assert(k == d);
    match left.checked_mul(p) {
        Some(scaled) => scaled.checked_add(right),
        None => None,
    }
}

/// `left` followed by the digits of `right`.
pub fn merge(left: u128, right: u128) -> (r: u128)
    requires
        merged(left as nat, right as nat) <= u128::MAX,
    ensures
        r == merged(left as nat, right as nat),
{
    match merge_checked(left, right) {
        Some(m) => m,
        None => 0,
    }
}

/// Whether the values from `index` on can be folded, starting from
/// `current`, into the equation's target.
pub fn evaluate(equation: &Equation, index: usize, current: u128) -> (r: bool)
    requires
        index <= equation.values@.len(),
    ensures
        r == reaches(equation.target as nat, equation.values@, index as nat, current as nat),
    decreases equation.values@.len() - index,
{
    if index == equation.values.len() {
        return current == equation.target;
    }
    let value = equation.values[index];
    let by_sum = match current.checked_add(value) {
        Some(next) => evaluate(equation, index + 1, next),
        None => false,
    };
    if by_sum {
        return true;
    }
    let by_product = match current.checked_mul(value) {
        Some(next) => evaluate(equation, index + 1, next),
        None => false,
    };
    if by_product {
        return true;
    }
    match merge_checked(current, value) {
        Some(next) => evaluate(equation, index + 1, next),
        None => false,
    }
}

/// Whether the whole equation can be made true.
pub open spec fn solvable(e: Equation) -> bool {
    reaches(e.target as nat, e.values@, 0, 0)
}

/// The sum of the targets of the solvable equations.
pub open spec fn calibration_sum(es: Seq<Equation>) -> nat
    decreases es.len(),
{
    if es.len() == 0 {
        0
    } else {
        calibration_sum(es.drop_last()) + if solvable(es.last()) {
            es.last().target as nat
        } else {
            0nat
        }
    }
}

proof fn lemma_calibration_prefix(es: Seq<Equation>, i: int, j: int)
    requires
        0 <= i <= j <= es.len(),
    ensures
        calibration_sum(es.take(i)) <= calibration_sum(es.take(j)),
    decreases j - i,
{
    if i < j {
        lemma_calibration_prefix(es, i, j - 1);
        assert(es.take(j).drop_last() =~= es.take(j - 1));
    }
}

/// The sum of the targets of the solvable equations, or `None` when it
/// passes `u128::MAX`.
pub fn total_calibration(equations: &Vec<Equation>) -> (r: Option<u128>)
    ensures
        r is Some <==> calibration_sum(equations@) <= u128::MAX,
        r matches Some(t) ==> t == calibration_sum(equations@),
{
    let mut total: u128 = 0;
    let mut i: usize = 0;
    while i < equations.len()
        invariant
            i <= equations@.len(),
            total == calibration_sum(equations@.take(i as int)),
        decreases equations@.len() - i,
    {
        assert(equations@.take(i + 1).drop_last() =~= equations@.take(i as int));
        let e = &equations[i];
        if evaluate(e, 0, 0) {
            match total.checked_add(e.target) {
                Some(t) => total = t,
                None => {
                    proof {
                        lemma_calibration_prefix(equations@, i + 1, equations@.len() as int);
                        assert(equations@.take(equations@.len() as int) =~= equations@);
                    }
                    return None;
                },
            }
        }
        i = i + 1;
    }
    assert(equations@.take(i as int) =~= equations@);
    Some(total)
}

} // verus!
