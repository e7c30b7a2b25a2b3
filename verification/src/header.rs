//! The lines of the second section of a report, which give a label, a colon
//! and a value.

use crate::bytes::{first_byte, spec_first_byte, trim, trimmed};
use vstd::prelude::*;
use vstd::slice::slice_subrange;

verus! {

/// The label and the value of a line, where the line has a colon: what
/// stands before the first colon and what stands after it, each without the
/// white space at its ends.
pub open spec fn entry_of(line: Seq<u8>) -> Option<(Seq<u8>, Seq<u8>)> {
    let colon = spec_first_byte(line, 0, 0x3a);
    if colon < line.len() {
        Some(
            (
                trimmed(line.subrange(0, colon)),
                trimmed(line.subrange(colon + 1, line.len() as int)),
            ),
        )
    } else {
        None
    }
}

/// Splits a line into its label and its value.
pub fn split_entry<'a>(line: &'a [u8]) -> (r: Option<(&'a [u8], &'a [u8])>)
    ensures
        match entry_of(line@) {
            Some((label, value)) => r matches Some((l, v)) && l@ == label && v@ == value,
            None => r is None,
        },
{
    let colon: usize = first_byte(line, 0, 0x3a);
    if colon >= line.len() {
        return None;
    }
    let label = trim(slice_subrange(line, 0, colon));
    let value = trim(slice_subrange(line, colon + 1, line.len()));
    Some((label, value))
}

} // verus!
