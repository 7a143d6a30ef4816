//! Estimates of allocated memory.
//!
//! How much a container has allocated is up to its allocator: of a capacity only that it is not
//! less than what the container holds. Sums stop at the largest `usize`.
use std::collections::{HashMap, VecDeque};
use vstd::prelude::*;

verus! {

/// A number of octets as a `usize`, at most the largest one.
pub open spec fn saturated(n: int) -> usize {
    if n > usize::MAX {
        usize::MAX
    } else {
        n as usize
    }
}

/// The sum of numbers.
pub open spec fn sum_of(s: Seq<usize>) -> nat
    decreases s.len(),
{
    if s.len() == 0 {
        0
    } else {
        sum_of(s.drop_last()) + s.last() as nat
    }
}

/// The sum with one more number.
pub proof fn sum_push(s: Seq<usize>, n: usize)
    ensures
        sum_of(s.push(n)) == sum_of(s) + n,
{
    assert(s.push(n).drop_last() =~= s);
}

/// `Vec::capacity` is not less than the length.
#[verifier::external_body]
pub(crate) fn vec_capacity<T>(v: &Vec<T>) -> (r: usize)
    ensures
        r >= v@.len(),
{
    v.capacity()
}

/// `VecDeque::capacity` is not less than the length.
#[verifier::external_body]
pub(crate) fn deque_capacity<T>(v: &VecDeque<T>) -> (r: usize)
    ensures
        r >= v@.len(),
{
    v.capacity()
}

/// `String::capacity` is not less than the number of octets of the text.
#[verifier::external_body]
pub(crate) fn string_capacity(v: &String) -> (r: usize)
    ensures
        r >= vstd::utf8::encode_utf8(v@).len(),
{
    v.capacity()
}

/// `HashMap::capacity` is not less than the number of entries.
#[verifier::external_body]
pub(crate) fn table_capacity<K, V>(m: &HashMap<K, V>) -> (r: usize)
    ensures
        r >= m@.len(),
{
    m.capacity()
}

pub(crate) fn plus(a: usize, b: usize) -> (r: usize)
    ensures
        r == saturated(a + b),
{
    a.saturating_add(b)
}

pub(crate) fn times(a: usize, b: usize) -> (r: usize)
    ensures
        r == saturated(a * b),
{
    match a.checked_mul(b) {
        Some(v) => v,
        None => usize::MAX,
    }
}

} // verus!
