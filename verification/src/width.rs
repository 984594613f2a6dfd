//! Display width of text in terminal columns.
use vstd::prelude::*;
use unicode_width::UnicodeWidthStr;
use crate::ansi::{law_styling_is_invisible, strip_ansi, strip_ansi_text, styled_text, AnsiStyle};

verus! {

/// The number of terminal columns that `unicode_width` assigns to a string.
pub uninterp spec fn display_width(s: Seq<char>) -> usize;

/// Every character is printable ASCII (space through `~`).
pub open spec fn printable_ascii(s: Seq<char>) -> bool {
    forall|i: int| 0 <= i < s.len() ==> ' ' <= #[trigger] s[i] && s[i] <= '~'
}

/// `UnicodeWidthStr::width`. The result is named by `display_width`; the
/// crate's source also shows that a string of printable ASCII characters is
/// one column per character. Nothing else about the width tables, ligatures
/// or emoji sequences is stated.
#[verifier::external_body]
fn str_display_width(s: &str) -> (w: usize)
    ensures
        w == display_width(s@),
        printable_ascii(s@) ==> w == s@.len(),
{
    UnicodeWidthStr::width(s)
}

/// The columns a string takes in a terminal once its ANSI escapes are removed.
pub open spec fn visible_width_of(s: Seq<char>) -> usize {
    display_width(strip_ansi_text(s))
}

/// Printable ASCII text, once its escapes are stripped, takes one column per
/// character.
pub open spec fn ascii_width_holds(s: Seq<char>) -> bool {
    printable_ascii(strip_ansi_text(s)) ==> visible_width_of(s) == strip_ansi_text(s).len()
}

/// The number of terminal columns the text occupies, ignoring colour escapes.
pub fn visible_width(value: &str) -> (w: usize)
    ensures
        w == visible_width_of(value@),
        ascii_width_holds(value@),
{
    let plain = strip_ansi(value);
    str_display_width(plain.as_str())
}

/// Colouring text does not change how many columns it takes.
pub proof fn law_styling_keeps_visible_width(value: Seq<char>, style: AnsiStyle, enabled: bool)
    ensures
        visible_width_of(styled_text(value, style, enabled)) == visible_width_of(value),
{
    law_styling_is_invisible(value, style, enabled);
}

} // verus!
