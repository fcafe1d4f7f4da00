//! The plain-text screenshot format.

use vstd::prelude::*;

use crate::chars::{dec, push_dec, push_str, string_of};
use crate::protocol::CursorPos;

verus! {

/// The screenshot text: the screen's content unchanged, followed, when the
/// synthetic mouse cursor is placed, by a blank line and a trailer line
/// saying where it is and whether a button is held.
pub open spec fn screenshot_text(content: Seq<char>, mouse_cursor: Option<CursorPos>, mouse_held: bool) -> Seq<char> {
    match mouse_cursor {
        None => content,
        Some(pos) => content + "\n\n"@ + (if mouse_held { "▲"@ } else { "△"@ }) + " tu mouse cursor "@ + (
        if mouse_held {
            "held "@
        } else {
            Seq::empty()
        }) + "at ("@ + dec(pos.col as nat) + ","@ + dec(pos.row as nat) + ")"@,
    }
}

/// Formats a plain-text screenshot for human display; see
/// `screenshot_text`. The screen size and text cursor are not shown.
pub fn format_screenshot(
    content: &str,
    _rows: u16,
    _cols: u16,
    _cursor_row: u16,
    _cursor_col: u16,
    mouse_cursor: Option<CursorPos>,
    mouse_held: bool,
) -> (r: String)
    ensures
        r@ == screenshot_text(content@, mouse_cursor, mouse_held),
{
    match mouse_cursor {
        None => content.to_owned(),
        Some(pos) => {
            let mut out: Vec<char> = Vec::new();
            push_str(&mut out, content);
            push_str(&mut out, "\n\n");
            if mouse_held {
                push_str(&mut out, "▲");
            } else {
                push_str(&mut out, "△");
            }
            push_str(&mut out, " tu mouse cursor ");
            let ghost before = out@;
            if mouse_held {
                push_str(&mut out, "held ");
            }
            assert(out@ == before + (if mouse_held { "held "@ } else { Seq::<char>::empty() }));
            push_str(&mut out, "at (");
            push_dec(&mut out, pos.col as u64);
            push_str(&mut out, ",");
            push_dec(&mut out, pos.row as u64);
            push_str(&mut out, ")");
            assert(out@ =~= screenshot_text(content@, mouse_cursor, mouse_held));
            string_of(&out)
        },
    }
}

/// The screenshot's body is the screen's content, byte for byte, so that
/// searches over it only ever match what the application drew: with a mouse
/// cursor the content is a prefix of the text, without one it is the text.
pub proof fn law_screenshot_keeps_content(content: Seq<char>, mouse_cursor: Option<CursorPos>, mouse_held: bool)
    ensures
        screenshot_text(content, mouse_cursor, mouse_held).len() >= content.len(),
        screenshot_text(content, mouse_cursor, mouse_held).take(content.len() as int) == content,
        mouse_cursor is None ==> screenshot_text(content, mouse_cursor, mouse_held) == content,
{
    assert(screenshot_text(content, mouse_cursor, mouse_held).take(content.len() as int) =~= content);
}

} // verus!
