//! Puzzle solvers over sequences and grids, with the report validator and
//! single-element repair engine at their core.
use vstd::prelude::*;

pub mod disk;
pub mod equation;
pub mod grid;
pub mod instructions;
pub mod lists;
pub mod pages;
pub mod patrol;
pub mod reports;
pub mod trails;

verus! {

/// Relies on `str::chars`, collected into a `Vec`: the characters of `s`, in
/// order.
#[verifier::external_body]
pub(crate) fn chars_of(s: &str) -> (v: Vec<char>)
    ensures
        v@ == s@,
{
    s.chars().collect()
}

/// Relies on collecting characters into a `String`: the string of exactly
/// those characters, in order.
#[verifier::external_body]
pub(crate) fn string_of(v: &Vec<char>) -> (s: String)
    ensures
        s@ == v@,
{
    v.iter().collect()
}

} // verus!
