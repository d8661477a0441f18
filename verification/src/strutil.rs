//! Conversions between `String` and `Vec<char>`.
//!
//! The parsing and rendering logic works on vectors of characters; these
//! two functions move between that form and `String`.

use vstd::prelude::*;

verus! {

use vstd::std_specs::iter::IteratorSpec;

broadcast use vstd::string::group_string_axioms;

/// The characters of the string, in order, as a vector.
pub fn chars_of(s: &str) -> (r: Vec<char>)
    ensures
        r@ == s@,
{
    let mut it = s.chars();
    let mut r: Vec<char> = Vec::new();
    loop
        invariant
            it.obeys_prophetic_iter_laws(),
            it.decrease() is Some,
            r@ + it.remaining() == s@,
        decreases it.decrease()->0,
    {
        let ghost prev = it;
        match it.next() {
            Option::Some(c) => {
                r.push(c);
                proof {
                    assert(prev.remaining().len() > 0);
                    assert(r@ + it.remaining() =~= s@);
                }
            },
            Option::None => {
                proof {
                    assert(it.remaining().len() == 0);
                    assert(r@ =~= s@);
                }
                return r;
            },
        }
    }
}

/// Relies on String's FromIterator via Iterator::collect: builds the
/// string holding exactly the given characters, in order.
#[verifier::external_body]
pub fn string_from_chars(v: &Vec<char>) -> (r: String)
    ensures
        r@ == v@,
{
    v.iter().collect()
}

} // verus!
