//! A line-oriented, pipe-delimited, quoted text format for tabular data.
//!
//! The crate offers two components built around one grammar:
//! a streaming row reader that turns text into rows of field strings,
//! and an escaping writer that serialises items back into that format.
//! The two are exact inverses; see the proofs in [`laws`].

pub mod grammar;
pub mod laws;
pub mod reader;
pub mod writer;

use vstd::prelude::*;

verus! {

/// Relies on `String::push`: appends one character at the end of the
/// string.
#[verifier::external_body]
pub(crate) fn push_char(s: &mut String, c: char)
    ensures
        final(s)@ == old(s)@.push(c),
{
    s.push(c);
}

} // verus!
