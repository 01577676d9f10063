//! The few outside calls the library relies on without proof.

use vstd::prelude::*;

verus! {

/// Relies on rand 0.8's `random`: draws a value from the thread-local
/// generator.  Nothing can be promised of a random value.
pub assume_specification<T>[ rand::random::<T> ]() -> (r: T)
    where
        rand::distributions::Standard: rand::distributions::Distribution<T>,
;

/// A fresh sampling seed from the process-wide random generator, for
/// callers that do not carry their own seed.  Sampling with it is still
/// reproducible once the seed value is known.
pub fn fresh_seed() -> u64 {
    rand::random::<u64>()
}

/// Relies on `char::from_u32`: `Some` exactly on Unicode scalar values
/// (code points outside the surrogate range and at most `0x10FFFF`),
/// returning the character with that code point.
#[verifier::external_body]
pub fn char_from_u32(x: u32) -> (r: Option<char>)
    ensures
        r is Some <==> (x < 0xD800 || (0xE000 <= x && x <= 0x10FFFF)),
        r is Some ==> r->Some_0 as u32 == x,
{
    char::from_u32(x)
}

/// Relies on `Iterator::collect` for `String`: the collected string holds
/// exactly the characters of the vector, in order.
#[verifier::external_body]
pub fn chars_to_string(v: &Vec<char>) -> (r: String)
    ensures
        r@ == v@,
{
    v.iter().collect()
}

/// Relies on `str::chars`: the iterator yields the characters of the
/// string, in order.
#[verifier::external_body]
pub fn string_to_chars(s: &str) -> (r: Vec<char>)
    ensures
        r@ == s@,
{
    s.chars().collect()
}

} // verus!
