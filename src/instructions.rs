//! A corrupted program scanned for its instructions: `mul(a,b)` with `a` and
//! `b` runs of decimal digits, `do()` and `don't()`. Everything else is noise.
use crate::chars_of;
use vstd::prelude::*;

verus! {

#[derive(Clone, Copy, Debug, PartialEq, Eq, Structural)]
pub enum Instruction {
    Mul(i32, i32),
    Do,
    Donot,
}

pub open spec fn is_ascii_digit(c: char) -> bool {
    '0' <= c <= '9'
}

/// `s` holds `lit` from position `p` on.
pub open spec fn has_at(s: Seq<char>, p: int, lit: Seq<char>) -> bool {
    0 <= p && p + lit.len() <= s.len() && s.subrange(p, p + lit.len()) == lit
}

/// How many digits follow on from position `p`.
pub open spec fn digit_run(s: Seq<char>, p: int) -> nat
    decreases s.len() - p,
{
    if 0 <= p < s.len() && is_ascii_digit(s[p]) {
        1 + digit_run(s, p + 1)
    } else {
        0
    }
}

/// The number written by the `n` digits from position `p`.
pub open spec fn digits_value(s: Seq<char>, p: int, n: nat) -> nat
    decreases n,
{
    if n == 0 {
        0
    } else {
        digits_value(s, p, (n - 1) as nat) * 10 + (s[p + n - 1] as nat - '0' as nat) as nat
    }
}

/// A number at `p`: its value and how many digits it takes, where at least
/// one digit stands there and the value fits in `i32`.
pub open spec fn number_at(s: Seq<char>, p: int) -> Option<(i32, nat)> {
    let n = digit_run(s, p);
    if n > 0 && digits_value(s, p, n) <= i32::MAX {
        Some((digits_value(s, p, n) as i32, n))
    } else {
        None
    }
}

/// A `mul(a,b)` at `p`: the instruction and how many characters it takes.
pub open spec fn mul_at(s: Seq<char>, p: int) -> Option<(Instruction, nat)> {
    if has_at(s, p, seq!['m', 'u', 'l', '(']) {
        match number_at(s, p + 4) {
            Some((a, n)) => if has_at(s, p + 4 + n, seq![',']) {
                match number_at(s, p + 5 + n) {
                    Some((b, m)) => if has_at(s, p + 5 + n + m, seq![')']) {
                        Some((Instruction::Mul(a, b), 6 + n + m))
                    } else {
                        None
                    },
                    None => None,
                }
            } else {
                None
            },
            None => None,
        }
    } else {
        None
    }
}

/// The instruction that starts at `p`, if any, and how many characters it
/// takes.
pub open spec fn token_at(s: Seq<char>, p: int) -> Option<(Instruction, nat)> {
    if mul_at(s, p) is Some {
        mul_at(s, p)
    } else if has_at(s, p, seq!['d', 'o', '(', ')']) {
        Some((Instruction::Do, 4))
    } else if has_at(s, p, seq!['d', 'o', 'n', '\'', 't', '(', ')']) {
        Some((Instruction::Donot, 7))
    } else {
        None
    }
}

/// The instructions from position `p` on: leftmost first, and the scan goes
/// on after the end of each one found.
pub open spec fn scan(s: Seq<char>, p: int) -> Seq<Instruction>
    decreases s.len() - p,
{
    if p < 0 || p >= s.len() {
        Seq::empty()
    } else {
        match token_at(s, p) {
            Some((ins, len)) => if len > 0 {
                seq![ins] + scan(s, p + len)
            } else {
                Seq::empty()
            },
            None => scan(s, p + 1),
        }
    }
}

/// The sum of the products of every `mul`.
pub open spec fn products_sum(ins: Seq<Instruction>) -> int
    decreases ins.len(),
{
    if ins.len() == 0 {
        0
    } else {
        products_sum(ins.drop_last()) + match ins.last() {
            Instruction::Mul(a, b) => a * b,
            _ => 0,
        }
    }
}

/// The sum of the products of the `mul`s among the first `n` instructions.
pub open spec fn products_upto(ins: Seq<Instruction>, n: nat) -> int {
    products_sum(ins.take(n as int))
}

/// Whether a `mul` after the first `n` instructions counts: `don't()` turns
/// counting off, `do()` turns it back on, and it starts on.
pub open spec fn enabled_after(ins: Seq<Instruction>, n: nat) -> bool
    decreases n,
{
    if n == 0 {
        true
    } else {
        match ins[n - 1] {
            Instruction::Do => true,
            Instruction::Donot => false,
            _ => enabled_after(ins, (n - 1) as nat),
        }
    }
}

/// The sum of the products of the `mul`s among the first `n` instructions
/// that come while counting is on.
pub open spec fn enabled_sum(ins: Seq<Instruction>, n: nat) -> int
    decreases n,
{
    if n == 0 {
        0
    } else {
        enabled_sum(ins, (n - 1) as nat) + match ins[n - 1] {
            Instruction::Mul(a, b) => if enabled_after(ins, (n - 1) as nat) {
                a * b
            } else {
                0
            },
            _ => 0,
        }
    }
}

/// Whether `s` holds `lit` from position `p` on.
fn matches_at(s: &Vec<char>, p: usize, lit: &Vec<char>) -> (r: bool)
    ensures
        r == has_at(s@, p as int, lit@),
{
    if p > s.len() || lit.len() > s.len() - p {
        return false;
    }
    let len = s.len();
    let mut i: usize = 0;
    while i < lit.len()
        invariant
            len == s@.len(),
            p + lit@.len() <= s@.len(),
            i <= lit@.len(),
            forall|k: int| 0 <= k < i ==> s@[p + k] == #[trigger] lit@[k],
        decreases lit@.len() - i,
    {
        if s[p + i] != lit[i] {
            assert(s@.subrange(p as int, p + lit@.len())[i as int] != lit@[i as int]);
            return false;
        }
        i = i + 1;
    }
    assert(s@.subrange(p as int, p + lit@.len()) =~= lit@);
    true
}

proof fn lemma_product_fits(a: i32, b: i32)
    ensures
        i64::MIN <= (a as int) * (b as int) <= i64::MAX,
{
    assert(-0x4000_0000_0000_0000 <= (a as int) * (b as int) <= 0x4000_0000_0000_0000)
        by (nonlinear_arith)
        requires
            -0x8000_0000 <= a < 0x8000_0000,
            -0x8000_0000 <= b < 0x8000_0000,
    ;
}

proof fn lemma_digits_value_grows(s: Seq<char>, p: int, n: nat, m: nat)
    requires
        n <= m,
        forall|k: int| p <= k < p + m ==> is_ascii_digit(#[trigger] s[k]),
    ensures
        digits_value(s, p, n) <= digits_value(s, p, m),
    decreases m - n,
{
    if n < m {
        lemma_digits_value_grows(s, p, n, (m - 1) as nat);
    }
}

proof fn lemma_digit_run_digits(s: Seq<char>, p: int)
    ensures
        forall|k: int| p <= k < p + digit_run(s, p) ==> is_ascii_digit(#[trigger] s[k]),
        0 <= p < s.len() && digit_run(s, p) > 0 ==> p + digit_run(s, p) <= s.len(),
        digit_run(s, p) > 0 ==> 0 <= p < s.len(),
    decreases s.len() - p,
{
    if 0 <= p < s.len() && is_ascii_digit(s[p]) {
        lemma_digit_run_digits(s, p + 1);
        assert forall|k: int| p <= k < p + digit_run(s, p) implies is_ascii_digit(
            #[trigger] s[k],
        ) by {
            if k > p {
                assert(p + 1 <= k < p + 1 + digit_run(s, p + 1));
            }
        }
    }
}

/// The number written at `p`, as `number_at` describes it.
fn read_number(s: &Vec<char>, p: usize) -> (r: Option<(i32, usize)>)
    requires
        p <= s@.len(),
    ensures
        match number_at(s@, p as int) {
            Some((v, n)) => r == Some((v, n as usize)),
            None => r is None,
        },
{
    let ghost run = digit_run(s@, p as int);
    proof {
        lemma_digit_run_digits(s@, p as int);
    }
    let len = s.len();
    let mut k: usize = 0;
    let mut value: i64 = 0;
    let mut fits = true;
    while p + k < len && '0' <= s[p + k] && s[p + k] <= '9'
        invariant
            len == s@.len(),
            run == digit_run(s@, p as int),
            forall|j: int|
                p <= j < p + run ==> is_ascii_digit(#[trigger] s@[j]),
            digit_run(s@, p as int) == k + digit_run(s@, p + k),
            k <= run,
            p + k <= s@.len(),
            fits ==> value == digits_value(s@, p as int, k as nat),
            fits ==> value <= i32::MAX,
            !fits ==> digits_value(s@, p as int, k as nat) > i32::MAX,
        decreases s@.len() - p - k,
    {
        let d = (s[p + k] as u32 - '0' as u32) as i64;
        proof {
            assert(digit_run(s@, p + k) == 1 + digit_run(s@, p + k + 1));
        }
        if fits {
            let next = value * 10 + d;
            if next > i32::MAX as i64 {
                fits = false;
            } else {
                value = next;
            }
        }
        proof {
            if !fits {
                lemma_digits_value_grows(s@, p as int, k as nat, (k + 1) as nat);
            }
        }
        k = k + 1;
    }
    proof {
        if p + k < s@.len() {
            assert(!is_ascii_digit(s@[p + k]));
        }
        assert(digit_run(s@, p + k) == 0);
    }
    if k == 0 || !fits {
        None
    } else {
        Some((value as i32, k))
    }
}

/// The instruction that starts at `p`, as `token_at` describes it.
fn read_token(s: &Vec<char>, p: usize) -> (r: Option<(Instruction, usize)>)
    requires
        p < s@.len(),
    ensures
        match token_at(s@, p as int) {
            Some((ins, n)) => r == Some((ins, n as usize)) && p + n <= s@.len(),
            None => r is None,
        },
{
    let _ = s.len();
    let mul = vec!['m', 'u', 'l', '('];
    let comma = vec![','];
    let close = vec![')'];
    assert(mul@ =~= seq!['m', 'u', 'l', '(']);
    assert(comma@ =~= seq![',']);
    assert(close@ =~= seq![')']);
    if matches_at(s, p, &mul) {
        if let Some((a, n)) = read_number(s, p + 4) {
            proof {
                lemma_digit_run_digits(s@, p + 4);
            }
            if matches_at(s, p + 4 + n, &comma) {
                if let Some((b, m)) = read_number(s, p + 5 + n) {
                    proof {
                        lemma_digit_run_digits(s@, p + 5 + n);
                    }
                    if matches_at(s, p + 5 + n + m, &close) {
                        return Some((Instruction::Mul(a, b), 6 + n + m));
                    }
                }
            }
        }
    }
    let open_do = vec!['d', 'o', '(', ')'];
    let open_dont = vec!['d', 'o', 'n', '\'', 't', '(', ')'];
    assert(open_do@ =~= seq!['d', 'o', '(', ')']);
    assert(open_dont@ =~= seq!['d', 'o', 'n', '\'', 't', '(', ')']);
    if matches_at(s, p, &open_do) {
        Some((Instruction::Do, 4))
    } else if matches_at(s, p, &open_dont) {
        Some((Instruction::Donot, 7))
    } else {
        None
    }
}

/// Every instruction in `input`, leftmost first.
pub fn parse_b(input: &str) -> (ins: Vec<Instruction>)
    ensures
        ins@ == scan(input@, 0),
{
    let s = chars_of(input);
    let mut out: Vec<Instruction> = Vec::new();
    let mut p: usize = 0;
    while p < s.len()
        invariant
            s@ == input@,
            p <= s@.len(),
            out@ + scan(s@, p as int) == scan(s@, 0),
        decreases s@.len() - p,
    {
        match read_token(&s, p) {
            Some((ins, n)) => {
                assert(scan(s@, p as int) == seq![ins] + scan(s@, p + n));
                out.push(ins);
                assert(out@ + scan(s@, p + n) =~= scan(s@, 0));
                p = p + n;
            },
            None => {
                p = p + 1;
            },
        }
    }
    assert(out@ + scan(s@, p as int) =~= out@);
    out
}

/// The sum of the products of every `mul` in `ins`; `None` when a partial sum
/// leaves the range of `i64`.
pub fn sum_products(ins: &Vec<Instruction>) -> (r: Option<i64>)
    ensures
        r matches Some(t) ==> t == products_sum(ins@),
        r is None ==> exists|k: nat|
            k <= ins@.len() && !(i64::MIN <= #[trigger] products_upto(ins@, k) <= i64::MAX),
{
    let mut total: i64 = 0;
    let mut i: usize = 0;
    while i < ins.len()
        invariant
            i <= ins@.len(),
            total == products_upto(ins@, i as nat),
        decreases ins@.len() - i,
    {
        assert(ins@.take(i + 1).drop_last() =~= ins@.take(i as int));
        if let Instruction::Mul(a, b) = ins[i] {
            proof {
                lemma_product_fits(a, b);
            }
            let term = (a as i64) * (b as i64);
            match total.checked_add(term) {
                Some(t) => total = t,
                None => {
                    assert(!(i64::MIN <= products_upto(ins@, (i + 1) as nat) <= i64::MAX));
                    return None;
                },
            }
        }
        i = i + 1;
    }
    assert(ins@.take(i as int) =~= ins@);
    Some(total)
}

/// The sum of the products of the `mul`s that come while counting is on;
/// `None` when a partial sum leaves the range of `i64`.
pub fn sum_enabled(ins: &Vec<Instruction>) -> (r: Option<i64>)
    ensures
        r matches Some(t) ==> t == enabled_sum(ins@, ins@.len()),
        r is None ==> exists|k: nat|
            k <= ins@.len() && !(i64::MIN <= #[trigger] enabled_sum(ins@, k) <= i64::MAX),
{
    let mut total: i64 = 0;
    let mut enabled = true;
    let mut i: usize = 0;
    while i < ins.len()
        invariant
            i <= ins@.len(),
            total == enabled_sum(ins@, i as nat),
            enabled == enabled_after(ins@, i as nat),
        decreases ins@.len() - i,
    {
        match ins[i] {
            Instruction::Mul(a, b) => {
                if enabled {
                    proof {
                lemma_product_fits(a, b);
            }
            let term = (a as i64) * (b as i64);
                    match total.checked_add(term) {
                        Some(t) => total = t,
                        None => {
                            assert(!(i64::MIN <= enabled_sum(ins@, (i + 1) as nat) <= i64::MAX));
                            return None;
                        },
                    }
                }
            },
            Instruction::Do => {
                enabled = true;
            },
            Instruction::Donot => {
                enabled = false;
            },
        }
        i = i + 1;
    }
    Some(total)
}

/// The sum of the products of every `mul` in `input`; `None` when a partial
/// sum leaves the range of `i64`.
pub fn parse_a(input: &str) -> (r: Option<i64>)
    ensures
        r matches Some(t) ==> t == products_sum(scan(input@, 0)),
        r is None ==> exists|k: nat|
            k <= scan(input@, 0).len() && !(i64::MIN <= #[trigger] products_upto(
                scan(input@, 0),
                k,
            ) <= i64::MAX),
{
    let ins = parse_b(input);
    sum_products(&ins)
}

} // verus!
