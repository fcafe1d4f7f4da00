//! Display widths from the `unicode-width` crate.

use vstd::prelude::*;

use unicode_width::{UnicodeWidthChar, UnicodeWidthStr};

verus! {

/// What `unicode_width::UnicodeWidthChar::width` gives for a character.
pub uninterp spec fn unicode_char_width(c: char) -> Option<usize>;

/// What `unicode_width::UnicodeWidthStr::width` gives for a string.
pub uninterp spec fn unicode_str_width(s: Seq<char>) -> usize;

/// Every character of `s` is printable ASCII (U+0020 to U+007E).
pub open spec fn printable_ascii(s: Seq<char>) -> bool {
    forall|k: int| 0 <= k < s.len() ==> 0x20 <= (#[trigger] s[k] as u32) < 0x7F
}

/// `UnicodeWidthChar::width`: the display columns of `c`. The contract
/// claims that the result is `unicode_char_width(c)`, and restates the
/// crate's ASCII and C1 cases (`None` for control codes, `Some(1)` for the
/// printable ASCII range, some width from U+00A0 on); the Unicode tables
/// behind the remaining widths are not restated.
#[verifier::external_body]
pub(crate) fn char_width(c: char) -> (r: Option<usize>)
    ensures
        r == unicode_char_width(c),
        (c as u32) < 0x20 ==> r is None,
        0x20 <= (c as u32) < 0x7F ==> r == Some(1usize),
        0x7F <= (c as u32) < 0xA0 ==> r is None,
        0xA0 <= (c as u32) ==> r is Some,
{
    UnicodeWidthChar::width(c)
}

/// `UnicodeWidthStr::width`: the display columns of `s`. The contract claims
/// that the result is `unicode_str_width(s)` and restates the crate's case
/// of printable ASCII text (U+0020 to U+007E), one column per character; its
/// rules for other characters and sequences are not restated.
#[verifier::external_body]
pub(crate) fn str_width(s: &str) -> (r: usize)
    ensures
        r == unicode_str_width(s@),
        printable_ascii(s@) ==> r == s@.len(),
{
    UnicodeWidthStr::width(s)
}

} // verus!
