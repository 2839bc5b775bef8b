//! Primitive text operations.  Three are thin trusted wrappers around one
//! `std` function each, for what vstd leaves unspecified; the rest is
//! verified.

use vstd::std_specs::iter::IteratorSpec;
use vstd::prelude::*;

verus! {

broadcast use vstd::string::group_string_axioms;

/// Relies on `String::push`: appends the given character to the end of the
/// string.
#[verifier::external_body]
pub fn push_char(s: &mut String, c: char)
    ensures
        final(s)@ == old(s)@.push(c),
{
    s.push(c);
}

/// Relies on `String::from_utf8`: returns the decoded string exactly when the
/// bytes are valid UTF-8, and an error otherwise.
#[verifier::external_body]
pub fn bytes_to_string(v: Vec<u8>) -> (r: Option<String>)
    ensures
        match r {
            Some(s) => vstd::utf8::valid_utf8(v@) && s@ == vstd::utf8::decode_utf8(v@),
            None => !vstd::utf8::valid_utf8(v@),
        },
{
    String::from_utf8(v).ok()
}

/// Relies on `char::from_u32`: succeeds exactly on Unicode scalar values,
/// that is all code points except the surrogate range, and returns the
/// character with that code.
#[verifier::external_body]
pub fn char_from_u32(u: u32) -> (r: Option<char>)
    ensures
        match r {
            Some(c) => (u < 0xD800 || (0xE000 <= u && u <= 0x10FFFF)) && c as u32 == u,
            None => !(u < 0xD800 || (0xE000 <= u && u <= 0x10FFFF)),
        },
{
    char::from_u32(u)
}

/// The characters of a string, in order.
pub fn str_chars(s: &str) -> (r: Vec<char>)
    ensures
        r@ == s@,
{
    let mut it = s.chars();
    let mut out: Vec<char> = Vec::new();
    proof {
        vstd::string::axiom_spec_iter(s);
        assert(out@ + it.remaining() =~= s@);
    }
    loop
        invariant
            out@ + it.remaining() == s@,
            it.decrease() is Some,
        ensures
            out@ + it.remaining() == s@,
            it.remaining().len() == 0,
        decreases it.decrease()->0,
    {
        let ghost out0 = out@;
        let ghost rem0 = it.remaining();
        match it.next() {
            Some(c) => {
                out.push(c);
                proof {
                    assert(rem0.len() > 0);
                    assert(out0.push(c) + rem0.drop_first() =~= out0 + rem0);
                }
            },
            None => {
                break;
            },
        }
    }
    proof {
        assert(out@ =~= s@);
    }
    out
}

} // verus!
