//! The pidfile.

use vstd::prelude::*;

use crate::text::{chars_of, parse_i32, signed, trim, trimmed};

verus! {

/// Reads the contents of a pidfile: a number, with white space around it.
pub fn parse_pid(contents: &str) -> (r: Option<i32>)
    ensures
        r == signed(trimmed(contents@)),
{
    parse_i32(&trim(&chars_of(contents)))
}

} // verus!
