//! Bounded differences, the lesser and the greater of two numbers.

use vstd::prelude::*;

verus! {

/// The difference, or zero where there is none.
pub open spec fn less(a: int, b: int) -> int {
    if a > b {
        a - b
    } else {
        0
    }
}

pub open spec fn lesser(a: int, b: int) -> int {
    if a <= b {
        a
    } else {
        b
    }
}

pub open spec fn greater(a: int, b: int) -> int {
    if a >= b {
        a
    } else {
        b
    }
}

pub fn min_of(a: usize, b: usize) -> (r: usize)
    ensures
        r == lesser(a as int, b as int),
{
    if a <= b {
        a
    } else {
        b
    }
}

pub fn max_of(a: usize, b: usize) -> (r: usize)
    ensures
        r == greater(a as int, b as int),
{
    if a >= b {
        a
    } else {
        b
    }
}

/// The lesser of a sum and a bound.
pub fn sum_up_to(a: usize, b: usize, bound: usize) -> (r: usize)
    ensures
        r == lesser(a + b, bound as int),
{
    if b > usize::MAX - a {
        bound
    } else {
        min_of(a + b, bound)
    }
}

} // verus!
