//! Random name generation: fixed-length strings drawn from the
//! alphanumeric alphabet, and the dataset built from them.

use vstd::prelude::*;
use crate::NAME_LEN;
use crate::DATASET_SIZE;

verus! {

/// True of the 62 ASCII characters (digits and letters of either
/// case) that generated names are drawn from.
pub open spec fn is_alnum(c: char) -> bool {
    (48 <= c as u32 && c as u32 <= 57)
    || (65 <= c as u32 && c as u32 <= 90)
    || (97 <= c as u32 && c as u32 <= 122)
}

/// True of a well-formed generated name: exactly `NAME_LEN`
/// characters, each alphanumeric.
pub open spec fn valid_name(s: Seq<char>) -> bool {
    &&& s.len() == NAME_LEN as nat
    &&& forall|i: int| 0 <= i < s.len() ==> is_alnum(s[i])
}

/// Relies on rand's `thread_rng` sampling the `Alphanumeric`
/// distribution: every sample is one of the 62 ASCII alphanumeric
/// bytes, picked uniformly.
#[verifier::external_body]
fn sample_alnum_char() -> (c: char)
    ensures
        is_alnum(c),
{
    char::from(rand::Rng::sample(&mut rand::thread_rng(), rand::distributions::Alphanumeric))
}

/// Relies on `String::push`: appends exactly one character at the end.
#[verifier::external_body]
fn push_char(s: &mut String, c: char)
    ensures
        final(s)@ == old(s)@.push(c),
{
    s.push(c)
}

/// Produce one random name of `NAME_LEN` alphanumeric characters.
pub fn generate_name() -> (name: String)
    ensures
        valid_name(name@),
{
    let mut name = String::new();
    let mut i: usize = 0;
    while i < NAME_LEN
        invariant
            i <= NAME_LEN,
            name@.len() == i as nat,
            forall|j: int| 0 <= j < name@.len() ==> is_alnum(name@[j]),
        decreases NAME_LEN - i,
    {
        let c = sample_alnum_char();
        push_char(&mut name, c);
        i = i + 1;
    }
    name
}

/// Build the dataset: `DATASET_SIZE` generated names, in order.
/// Uniqueness is probabilistic, not guaranteed.
pub fn create_users() -> (names: Vec<String>)
    ensures
        names@.len() == DATASET_SIZE as nat,
        forall|i: int| 0 <= i < names@.len() ==> valid_name(#[trigger] names@[i]@),
{
    let mut names: Vec<String> = Vec::new();
    let mut i: usize = 0;
    while i < DATASET_SIZE
        invariant
            i <= DATASET_SIZE,
            names@.len() == i as nat,
            forall|j: int| 0 <= j < names@.len() ==> valid_name(#[trigger] names@[j]@),
        decreases DATASET_SIZE - i,
    {
        names.push(generate_name());
        i = i + 1;
    }
    names
}

} // verus!
