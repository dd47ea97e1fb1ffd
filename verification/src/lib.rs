//! Core of a line-oriented terminal shell: an edit buffer with a wrap-aware
//! coordinate model, a classified output model, and a cursor/scroll engine
//! that keeps the physical cursor consistent with a bounded viewport.
use vstd::prelude::*;

pub mod buffer;
pub mod cursor;
pub mod session;
pub mod writer;
pub mod printer;
pub mod render;

verus! {

/// Relies on String::push: appends exactly the one given character.
#[verifier::external_body]
pub(crate) fn push_char(s: &mut String, c: char)
    ensures
        final(s)@ == old(s)@.push(c),
{
    s.push(c)
}

} // verus!
