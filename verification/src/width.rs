//! Display width of text, measured in terminal columns.

use vstd::prelude::*;

verus! {

/// The displayed column width of a character sequence. The width rules are
/// the outside crate's; the library relies only on the result being a
/// function of the characters alone and on the bounds stated below.
pub uninterp spec fn width_of(s: Seq<char>) -> nat;

/// Relies on `unicode_width::UnicodeWidthStr::width`: the displayed column
/// width of a string, computed from its character sequence alone. By the
/// crate's documented width rules no character contributes more than three
/// columns, and an empty string has width zero.
#[verifier::external_body]
pub fn display_width(s: &str) -> (r: usize)
    ensures
        r == width_of(s@),
        r <= 3 * s@.len(),
        s@.len() == 0 ==> r == 0,
{
    unicode_width::UnicodeWidthStr::width(s)
}

} // verus!
