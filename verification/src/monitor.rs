//! The live monitor's decisions: reading keys and mouse clicks from the raw
//! terminal, laying out the tab bar and frame, clipping ANSI lines to the
//! terminal width, and working out which rows to repaint.

use vstd::prelude::*;

use crate::chars::dec_bytes;
use crate::decimal::{
    is_digit_byte, lemma_dec_bytes_parses, lemma_dec_bytes_value, parse_unsigned_bytes, unsigned_from_bytes,
};
use crate::mouse::{event_coords, mods_bits, sgr_button, sgr_bytes, WireEvent};
use crate::protocol::{CursorPos, MouseButton};
use crate::chars::{dec, push_dec, push_str, string_of};
use crate::width::{char_width, printable_ascii, str_width, unicode_char_width, unicode_str_width};

verus! {

/// An input the monitor acts on.
#[derive(Clone, Copy, Debug, PartialEq, Eq, Structural)]
pub enum Key {
    Quit,
    Left,
    Right,
    /// Left-button press at a 1-indexed terminal (row, col).
    Click { row: u16, col: u16 },
}

pub open spec fn is_report_end(b: u8) -> bool {
    b == 77 || b == 109
}

/// Index of the first `M` or `m` in `s`, or `s.len()` when there is none.
pub open spec fn report_end(s: Seq<u8>) -> nat
    decreases s.len(),
{
    if s.len() == 0 {
        0
    } else if is_report_end(s[0]) {
        0
    } else {
        1 + report_end(s.drop_first())
    }
}

/// Pieces of `s` between occurrences of `sep` (always at least one piece).
pub open spec fn byte_fields(s: Seq<u8>, sep: u8) -> Seq<Seq<u8>>
    decreases s.len(),
{
    if s.len() == 0 {
        seq![Seq::<u8>::empty()]
    } else {
        let prev = byte_fields(s.drop_last(), sep);
        if s.last() == sep {
            prev.push(Seq::<u8>::empty())
        } else {
            prev.update(prev.len() - 1, prev.last().push(s.last()))
        }
    }
}

/// Button parameter of a left-button event with any of Shift (4), Alt (8)
/// and Ctrl (16), and neither motion nor wheel bits.
pub open spec fn is_left_button_param(b: nat) -> bool {
    b <= 28 && b % 4 == 0
}

/// The click carried by the body of an SGR mouse report (the bytes after
/// `ESC [ <`): only the first report counts, it must be three `;`-separated
/// numbers (button, column, row) closed by `M` (press), and the button a
/// left button, modifiers allowed.
pub open spec fn sgr_click(body: Seq<u8>) -> Option<Key> {
    let t = report_end(body) as int;
    if t >= body.len() {
        None
    } else {
        let fields = byte_fields(body.take(t), 59);
        if fields.len() != 3 {
            None
        } else {
            match (
                unsigned_from_bytes(fields[0], u32::MAX as nat),
                unsigned_from_bytes(fields[1], u16::MAX as nat),
                unsigned_from_bytes(fields[2], u16::MAX as nat),
            ) {
                (Some(b), Some(c), Some(r)) => if body[t] == 77 && is_left_button_param(b) {
                    Some(Key::Click { row: r as u16, col: c as u16 })
                } else {
                    None
                },
                _ => None,
            }
        }
    }
}

/// The key that the bytes of one read from the terminal stand for: Ctrl+C
/// or `q` quit, an SGR mouse report may be a click, and the arrow keys (CSI
/// or SS3 form) move between sessions.
pub open spec fn key_of(buf: Seq<u8>) -> Option<Key> {
    if buf.len() == 0 {
        None
    } else if buf[0] == 3 || buf[0] == 113 {
        Some(Key::Quit)
    } else if buf.len() >= 4 && buf[0] == 27 && buf[1] == 91 && buf[2] == 60 {
        sgr_click(buf.skip(3))
    } else if buf.len() >= 3 && buf[0] == 27 && (buf[1] == 91 || buf[1] == 79) && buf[2] == 67 {
        Some(Key::Right)
    } else if buf.len() >= 3 && buf[0] == 27 && (buf[1] == 91 || buf[1] == 79) && buf[2] == 68 {
        Some(Key::Left)
    } else {
        None
    }
}

fn first_report_end(body: &[u8]) -> (t: usize)
    ensures
        t == report_end(body@),
        t <= body@.len(),
{
    let mut i: usize = 0;
    assert(body@.skip(0) =~= body@);
    while i < body.len()
        invariant
            i <= body@.len(),
            forall|j: int| 0 <= j < i ==> !is_report_end(#[trigger] body@[j]),
            report_end(body@) == i + report_end(body@.skip(i as int)),
        decreases body@.len() - i,
    {
        if body[i] == 77u8 || body[i] == 109u8 {
            return i;
        }
        assert(body@.skip(i as int).drop_first() =~= body@.skip(i + 1));
        i = i + 1;
    }
    i
}

/// The pieces of `s[..end]` between the bytes `sep`.
fn split_bytes(s: &[u8], end: usize, sep: u8) -> (parts: Vec<Vec<u8>>)
    requires
        end <= s@.len(),
    ensures
        parts@.map_values(|p: Vec<u8>| p@) == byte_fields(s@.take(end as int), sep),
{
    let mut done: Vec<Vec<u8>> = Vec::new();
    let mut cur: Vec<u8> = Vec::new();
    let mut i: usize = 0;
    assert(s@.take(0) =~= Seq::<u8>::empty());
    assert(done@.map_values(|p: Vec<u8>| p@).push(cur@) =~= seq![Seq::<u8>::empty()]);
    while i < end
        invariant
            i <= end <= s@.len(),
            done@.map_values(|p: Vec<u8>| p@).push(cur@) == byte_fields(s@.take(i as int), sep),
        decreases end - i,
    {
        let c = s[i];
        let ghost prev = byte_fields(s@.take(i as int), sep);
        assert(s@.take(i + 1).drop_last() =~= s@.take(i as int));
        assert(s@.take(i + 1).last() == c);
        if c == sep {
            done.push(cur);
            cur = Vec::new();
            assert(done@.map_values(|p: Vec<u8>| p@).push(cur@) =~= prev.push(Seq::<u8>::empty()));
        } else {
            cur.push(c);
            assert(done@.map_values(|p: Vec<u8>| p@).push(cur@) =~= prev.update(
                prev.len() - 1,
                prev.last().push(c),
            ));
        }
        i = i + 1;
    }
    done.push(cur);
    done
}

/// Reads the body of an SGR mouse report (the bytes after `ESC [ <`); see
/// `sgr_click`.
pub fn parse_sgr_mouse(body: &[u8]) -> (r: Option<Key>)
    ensures
        r == sgr_click(body@),
{
    let t = first_report_end(body);
    if t >= body.len() {
        return None;
    }
    let is_press = body[t] == 77u8;
    let parts = split_bytes(body, t, 59u8);
    let ghost fields = byte_fields(body@.take(t as int), 59);
    if parts.len() != 3 {
        return None;
    }
    assert(parts@[0]@ == fields[0]);
    assert(parts@[1]@ == fields[1]);
    assert(parts@[2]@ == fields[2]);
    assert(parts@[0]@.subrange(0, parts@[0]@.len() as int) =~= fields[0]);
    assert(parts@[1]@.subrange(0, parts@[1]@.len() as int) =~= fields[1]);
    assert(parts@[2]@.subrange(0, parts@[2]@.len() as int) =~= fields[2]);
    let button = match parse_unsigned_bytes(parts[0].as_slice(), 0, parts[0].len(), 0xFFFF_FFFF) {
        Some(v) => v,
        None => {
            return None;
        },
    };
    let col = match parse_unsigned_bytes(parts[1].as_slice(), 0, parts[1].len(), 0xFFFF) {
        Some(v) => v,
        None => {
            return None;
        },
    };
    let row = match parse_unsigned_bytes(parts[2].as_slice(), 0, parts[2].len(), 0xFFFF) {
        Some(v) => v,
        None => {
            return None;
        },
    };
    let b = button as u32;
    let left = (b & !28u32) == 0;
    assert(left == (b <= 28 && b % 4 == 0)) by (bit_vector)
        requires
            left == ((b & !28u32) == 0),
    ;
    if is_press && left {
        Some(Key::Click { row: row as u16, col: col as u16 })
    } else {
        None
    }
}

/// What the bytes of one read from the terminal stand for; see `key_of`.
pub fn decode_key(buf: &[u8]) -> (r: Option<Key>)
    ensures
        r == key_of(buf@),
{
    let n = buf.len();
    if n == 0 {
        return None;
    }
    if buf[0] == 3u8 || buf[0] == 113u8 {
        return Some(Key::Quit);
    }
    if n >= 4 && buf[0] == 27u8 && buf[1] == 91u8 && buf[2] == 60u8 {
        let body = slice_from(buf, 3);
        return parse_sgr_mouse(body.as_slice());
    }
    if n >= 3 && buf[0] == 27u8 {
        if (buf[1] == 91u8 || buf[1] == 79u8) && buf[2] == 67u8 {
            return Some(Key::Right);
        }
        if (buf[1] == 91u8 || buf[1] == 79u8) && buf[2] == 68u8 {
            return Some(Key::Left);
        }
    }
    None
}

fn slice_from(buf: &[u8], k: usize) -> (v: Vec<u8>)
    requires
        k <= buf@.len(),
    ensures
        v@ == buf@.skip(k as int),
{
    let mut v: Vec<u8> = Vec::new();
    let mut i = k;
    while i < buf.len()
        invariant
            k <= i <= buf@.len(),
            v@ == buf@.subrange(k as int, i as int),
        decreases buf@.len() - i,
    {
        v.push(buf[i]);
        i = i + 1;
        assert(v@ =~= buf@.subrange(k as int, i as int));
    }
    assert(buf@.subrange(k as int, i as int) =~= buf@.skip(k as int));
    v
}

proof fn lemma_fields_nonempty(s: Seq<u8>, sep: u8)
    ensures
        byte_fields(s, sep).len() >= 1,
    decreases s.len(),
{
    if s.len() > 0 {
        lemma_fields_nonempty(s.drop_last(), sep);
    }
}

/// Appending bytes without a separator extends the last piece.
proof fn lemma_fields_plain(x: Seq<u8>, y: Seq<u8>, sep: u8)
    requires
        forall|i: int| 0 <= i < y.len() ==> y[i] != sep,
    ensures
        byte_fields(x + y, sep) == byte_fields(x, sep).update(
            byte_fields(x, sep).len() - 1,
            byte_fields(x, sep).last() + y,
        ),
    decreases y.len(),
{
    lemma_fields_nonempty(x, sep);
    let fx = byte_fields(x, sep);
    if y.len() == 0 {
        assert(x + y =~= x);
        assert(fx.last() + y =~= fx.last());
        assert(fx.update(fx.len() - 1, fx.last()) =~= fx);
    } else {
        let y0 = y.drop_last();
        lemma_fields_plain(x, y0, sep);
        assert((x + y).drop_last() =~= x + y0);
        assert((x + y).last() == y.last());
        let prev = byte_fields(x + y0, sep);
        assert(prev == fx.update(fx.len() - 1, fx.last() + y0));
        assert(prev.last() == fx.last() + y0);
        assert((fx.last() + y0).push(y.last()) =~= fx.last() + y);
        assert(prev.update(prev.len() - 1, prev.last().push(y.last())) =~= fx.update(
            fx.len() - 1,
            fx.last() + y,
        ));
    }
}

/// A separator starts a new, empty piece.
proof fn lemma_fields_sep(x: Seq<u8>, sep: u8)
    ensures
        byte_fields(x.push(sep), sep) == byte_fields(x, sep).push(Seq::<u8>::empty()),
{
    assert(x.push(sep).drop_last() =~= x);
}

proof fn lemma_report_end_at(s: Seq<u8>, k: int)
    requires
        0 <= k < s.len(),
        is_report_end(s[k]),
        forall|j: int| 0 <= j < k ==> !is_report_end(#[trigger] s[j]),
    ensures
        report_end(s) == k,
    decreases k,
{
    if k > 0 {
        let t = s.drop_first();
        assert forall|j: int| 0 <= j < k - 1 implies !is_report_end(#[trigger] t[j]) by {
            assert(t[j] == s[j + 1]);
        }
        assert(!is_report_end(s[0]));
        lemma_report_end_at(t, k - 1);
    }
}

proof fn lemma_digits_plain(s: Seq<u8>)
    requires
        crate::decimal::all_digit_bytes(s),
    ensures
        forall|i: int| 0 <= i < s.len() ==> s[i] != 59u8 && !is_report_end(#[trigger] s[i]),
{
    assert forall|i: int| 0 <= i < s.len() implies s[i] != 59u8 && !is_report_end(#[trigger] s[i]) by {
        assert(is_digit_byte(s[i]));
    }
}

/// The monitor takes a report that the SGR mouse encoder writes as a click
/// exactly when it is a left-button press (with any modifiers), and then at
/// the encoder's 1-based column and row.
pub proof fn law_monitor_reads_encoded_left_press(e: WireEvent)
    requires
        event_coords(e).0 < u16::MAX,
        event_coords(e).1 < u16::MAX,
    ensures
        key_of(sgr_bytes(e)) == (if e matches WireEvent::Down { button: MouseButton::Left, .. } {
            Some(Key::Click { row: (event_coords(e).1 + 1) as u16, col: (event_coords(e).0 + 1) as u16 })
        } else {
            None
        }),
{
    let (col, row) = event_coords(e);
    let b = sgr_button(e) as nat;
    let c = (col + 1) as nat;
    let r = (row + 1) as nat;
    let a1 = dec_bytes(b);
    let a2 = dec_bytes(c);
    let a3 = dec_bytes(r);
    let term: u8 = if e is Up { 109u8 } else { 77u8 };
    let whole = sgr_bytes(e);
    let body = whole.skip(3);
    lemma_dec_bytes_value(b);
    lemma_dec_bytes_value(c);
    lemma_dec_bytes_value(r);
    lemma_digits_plain(a1);
    lemma_digits_plain(a2);
    lemma_digits_plain(a3);
    let pre = a1.push(59u8) + a2.push(59u8) + a3;
    assert(body =~= pre.push(term));
    let t = pre.len() as int;
    assert forall|j: int| 0 <= j < t implies !is_report_end(#[trigger] body[j]) by {
        if j < a1.len() {
            assert(body[j] == a1[j]);
        } else if j == a1.len() {
            assert(body[j] == 59u8);
        } else if j < a1.len() + 1 + a2.len() {
            assert(body[j] == a2[j - a1.len() - 1]);
        } else if j == a1.len() + 1 + a2.len() {
            assert(body[j] == 59u8);
        } else {
            assert(body[j] == a3[j - a1.len() - a2.len() - 2]);
        }
    }
    lemma_report_end_at(body, t);
    assert(body.take(t) =~= pre);
    // the three fields
    let e0 = Seq::<u8>::empty();
    lemma_fields_plain(e0, a1, 59u8);
    assert(e0 + a1 =~= a1);
    assert(byte_fields(e0, 59u8) =~= seq![e0]);
    assert(byte_fields(a1, 59u8) =~= seq![a1]);
    lemma_fields_sep(a1, 59u8);
    lemma_fields_plain(a1.push(59u8), a2, 59u8);
    assert(byte_fields(a1.push(59u8) + a2, 59u8) =~= seq![a1, a2]);
    lemma_fields_sep(a1.push(59u8) + a2, 59u8);
    assert((a1.push(59u8) + a2).push(59u8) =~= a1.push(59u8) + a2.push(59u8));
    lemma_fields_plain(a1.push(59u8) + a2.push(59u8), a3, 59u8);
    assert(byte_fields(pre, 59u8) =~= seq![a1, a2, a3]);
    lemma_dec_bytes_parses(b, u32::MAX as nat);
    lemma_dec_bytes_parses(c, u16::MAX as nat);
    lemma_dec_bytes_parses(r, u16::MAX as nat);
    assert(whole[0] == 27u8);
    assert(whole.len() >= 4);
    assert(whole[1] == 91u8 && whole[2] == 60u8);
    assert(body[t] == term);
    match e {
        WireEvent::Down { button, mods, .. } => {
            assert(mods_bits(mods) <= 28 && mods_bits(mods) % 4 == 0);
        },
        WireEvent::Up { .. } => {},
        WireEvent::Move { mods, .. } => {
            assert(mods_bits(mods) <= 28);
        },
        WireEvent::DragMove { mods, .. } => {
            assert(mods_bits(mods) <= 28);
        },
        WireEvent::Scroll { mods, .. } => {
            assert(mods_bits(mods) <= 28);
        },
    }
}

pub open spec fn is_csi_final(c: char) -> bool {
    0x40 <= (c as u32) <= 0x7E
}

/// Index just past the final byte of a CSI sequence whose parameters start
/// at `j` (the end of `s` when it has none).
pub open spec fn csi_end(s: Seq<char>, j: int) -> int
    decreases s.len() - j,
{
    if j >= s.len() || j < 0 {
        s.len() as int
    } else if is_csi_final(s[j]) {
        j + 1
    } else {
        csi_end(s, j + 1)
    }
}

/// Index just past the BEL or `ESC \` that ends an OSC string whose text
/// starts at `j` (the end of `s` when it is unterminated). Inside the string,
/// `ESC` takes the next character with it.
pub open spec fn osc_end(s: Seq<char>, j: int) -> int
    decreases s.len() - j,
{
    if j >= s.len() || j < 0 {
        s.len() as int
    } else if s[j] == '\x07' {
        j + 1
    } else if s[j] == '\x1b' {
        if j + 1 >= s.len() {
            s.len() as int
        } else if s[j + 1] == '\\' {
            j + 2
        } else {
            osc_end(s, j + 2)
        }
    } else {
        osc_end(s, j + 1)
    }
}

/// Index just past the escape sequence whose `ESC` is at `i`, given that a
/// character follows it: CSI and OSC run to their terminators, every other
/// escape is two characters long.
pub open spec fn escape_end(s: Seq<char>, i: int) -> int {
    if s[i + 1] == '[' {
        csi_end(s, i + 2)
    } else if s[i + 1] == ']' {
        osc_end(s, i + 2)
    } else {
        i + 2
    }
}

/// Display columns of a printable character (control characters count 0).
pub open spec fn columns(c: char) -> int {
    match unicode_char_width(c) {
        Some(w) => w as int,
        None => 0,
    }
}

pub proof fn lemma_csi_end_bounds(s: Seq<char>, j: int)
    requires
        0 <= j <= s.len(),
    ensures
        j <= csi_end(s, j) <= s.len(),
        j < s.len() ==> j < csi_end(s, j),
    decreases s.len() - j,
{
    if j < s.len() && !is_csi_final(s[j]) {
        lemma_csi_end_bounds(s, j + 1);
    }
}

pub proof fn lemma_osc_end_bounds(s: Seq<char>, j: int)
    requires
        0 <= j <= s.len(),
    ensures
        j <= osc_end(s, j) <= s.len(),
        j < s.len() ==> j < osc_end(s, j),
    decreases s.len() - j,
{
    if j < s.len() && s[j] != '\x07' {
        if s[j] == '\x1b' {
            if j + 1 < s.len() && s[j + 1] != '\\' {
                lemma_osc_end_bounds(s, j + 2);
            }
        } else {
            lemma_osc_end_bounds(s, j + 1);
        }
    }
}

pub proof fn lemma_escape_end_bounds(s: Seq<char>, i: int)
    requires
        0 <= i,
        i + 1 < s.len(),
    ensures
        i + 2 <= escape_end(s, i) <= s.len(),
{
    lemma_csi_end_bounds(s, i + 2);
    lemma_osc_end_bounds(s, i + 2);
}

/// Where clipping `s` to `max` columns stops, walking from `i` with `used`
/// columns already taken: escape sequences are kept whole and take no
/// columns, and the walk stops before the first character that would not
/// fit.
pub open spec fn clip_end(s: Seq<char>, i: int, used: int, max: int) -> int
    decreases s.len() - i,
{
    if i >= s.len() || i < 0 {
        s.len() as int
    } else if s[i] == '\x1b' {
        if i + 1 >= s.len() {
            s.len() as int
        } else {
            proof {
                lemma_escape_end_bounds(s, i);
            }
            clip_end(s, escape_end(s, i), used, max)
        }
    } else if used + columns(s[i]) > max {
        i
    } else {
        clip_end(s, i + 1, used + columns(s[i]), max)
    }
}

/// `line` cut to at most `max` display columns (nothing at all for zero).
pub open spec fn clipped(line: Seq<char>, max: int) -> Seq<char> {
    if max == 0 {
        Seq::<char>::empty()
    } else {
        line.take(clip_end(line, 0, 0, max))
    }
}

/// Display columns of the characters of `s` from `i` on, escape sequences
/// taking none.
pub open spec fn visible_columns(s: Seq<char>, i: int) -> int
    decreases s.len() - i,
{
    if i >= s.len() || i < 0 {
        0
    } else if s[i] == '\x1b' {
        if i + 1 >= s.len() {
            0
        } else {
            proof {
                lemma_escape_end_bounds(s, i);
            }
            visible_columns(s, escape_end(s, i))
        }
    } else {
        columns(s[i]) + visible_columns(s, i + 1)
    }
}

fn csi_stop(v: &Vec<char>, j: usize) -> (e: usize)
    requires
        j <= v@.len(),
    ensures
        e == csi_end(v@, j as int),
{
    let mut k = j;
    while k < v.len()
        invariant
            j <= k <= v@.len(),
            csi_end(v@, j as int) == csi_end(v@, k as int),
        decreases v@.len() - k,
    {
        let c = v[k];
        if 0x40 <= (c as u32) && (c as u32) <= 0x7E {
            return k + 1;
        }
        k = k + 1;
    }
    k
}

fn osc_stop(v: &Vec<char>, j: usize) -> (e: usize)
    requires
        j <= v@.len(),
    ensures
        e == osc_end(v@, j as int),
{
    let mut k = j;
    while k < v.len()
        invariant
            j <= k <= v@.len(),
            osc_end(v@, j as int) == osc_end(v@, k as int),
        decreases v@.len() - k,
    {
        let c = v[k];
        if c == '\x07' {
            return k + 1;
        }
        if c == '\x1b' {
            if k + 1 >= v.len() {
                return v.len();
            }
            if v[k + 1] == '\\' {
                return k + 2;
            }
            k = k + 2;
        } else {
            k = k + 1;
        }
    }
    v.len()
}

/// Cuts an ANSI-decorated line to at most `max_visible` display columns,
/// copying escape sequences verbatim; see `clipped`.
pub fn truncate_ansi_visible(line: &str, max_visible: usize) -> (r: String)
    ensures
        r@ == clipped(line@, max_visible as int),
{
    if max_visible == 0 {
        return String::new();
    }
    let v = crate::chars::chars_of(line);
    let n = v.len();
    let mut out: Vec<char> = Vec::new();
    let mut visible: usize = 0;
    let mut i: usize = 0;
    while i < n
        invariant
            n == v@.len(),
            v@ == line@,
            i <= n,
            0 < max_visible,
            visible <= max_visible,
            out@ == v@.take(i as int),
            clip_end(v@, i as int, visible as int, max_visible as int) == clip_end(v@, 0, 0, max_visible as int),
        decreases n - i,
    {
        let c = v[i];
        if c == '\x1b' {
            if i + 1 >= n {
                out.push(c);
                assert(clip_end(v@, i as int, visible as int, max_visible as int) == n as int);
                assert(out@ =~= v@.take(n as int));
                return crate::chars::string_of(&out);
            }
            let next = v[i + 1];
            let e = if next == '[' {
                csi_stop(&v, i + 2)
            } else if next == ']' {
                osc_stop(&v, i + 2)
            } else {
                i + 2
            };
            proof {
                lemma_escape_end_bounds(v@, i as int);
            }
            assert(e == escape_end(v@, i as int));
            while i < e
                invariant
                    e <= n == v@.len(),
                    i <= e,
                    out@ == v@.take(i as int),
                decreases e - i,
            {
                out.push(v[i]);
                i = i + 1;
                assert(out@ =~= v@.take(i as int));
            }
        } else {
            let w = match char_width(c) {
                Some(w) => w,
                None => 0,
            };
            assert(w as int == columns(c));
            if w > max_visible - visible {
                assert(clip_end(v@, i as int, visible as int, max_visible as int) == i as int);
                return crate::chars::string_of(&out);
            }
            out.push(c);
            visible = visible + w;
            i = i + 1;
            assert(out@ =~= v@.take(i as int));
        }
    }
    assert(v@.take(n as int) =~= v@);
    crate::chars::string_of(&out)
}

proof fn lemma_csi_end_take(s: Seq<char>, j: int, k: int)
    requires
        0 <= j,
        csi_end(s, j) <= k <= s.len(),
    ensures
        csi_end(s.take(k), j) == csi_end(s, j),
    decreases s.len() - j,
{
    if j >= s.len() {
        assert(s.take(k) =~= s);
    } else {
        lemma_csi_end_bounds(s, j);
        assert(s.take(k)[j] == s[j]);
        if !is_csi_final(s[j]) {
            lemma_csi_end_take(s, j + 1, k);
        }
    }
}

proof fn lemma_osc_end_take(s: Seq<char>, j: int, k: int)
    requires
        0 <= j,
        osc_end(s, j) <= k <= s.len(),
    ensures
        osc_end(s.take(k), j) == osc_end(s, j),
    decreases s.len() - j,
{
    if j >= s.len() {
        assert(s.take(k) =~= s);
    } else {
        lemma_osc_end_bounds(s, j);
        let t = s.take(k);
        assert(t[j] == s[j]);
        if s[j] == '\x07' {
        } else if s[j] == '\x1b' {
            if j + 1 >= s.len() {
                assert(t =~= s);
            } else {
                lemma_osc_end_bounds(s, j + 2);
                assert(j + 1 < k);
                assert(t[j + 1] == s[j + 1]);
                if s[j + 1] != '\\' {
                    lemma_osc_end_take(s, j + 2, k);
                }
            }
        } else {
            lemma_osc_end_take(s, j + 1, k);
        }
    }
}

proof fn lemma_escape_end_take(s: Seq<char>, i: int, k: int)
    requires
        0 <= i,
        i + 1 < s.len(),
        escape_end(s, i) <= k <= s.len(),
    ensures
        escape_end(s.take(k), i) == escape_end(s, i),
{
    lemma_escape_end_bounds(s, i);
    assert(s.take(k)[i + 1] == s[i + 1]);
    if s[i + 1] == '[' {
        lemma_csi_end_take(s, i + 2, k);
    } else if s[i + 1] == ']' {
        lemma_osc_end_take(s, i + 2, k);
    }
}

proof fn lemma_columns_nonneg(c: char)
    ensures
        columns(c) >= 0,
{
}

proof fn lemma_visible_nonneg(s: Seq<char>, i: int)
    ensures
        visible_columns(s, i) >= 0,
    decreases s.len() - i,
{
    if 0 <= i < s.len() {
        if s[i] == '\x1b' {
            if i + 1 < s.len() {
                lemma_escape_end_bounds(s, i);
                lemma_visible_nonneg(s, escape_end(s, i));
            }
        } else {
            lemma_visible_nonneg(s, i + 1);
        }
    }
}

proof fn lemma_clip_walk(s: Seq<char>, i: int, used: int, max: int)
    requires
        0 <= i <= s.len(),
        0 <= used <= max,
    ensures
        i <= clip_end(s, i, used, max) <= s.len(),
        used + visible_columns(s.take(clip_end(s, i, used, max)), i) <= max,
    decreases s.len() - i,
{
    let k = clip_end(s, i, used, max);
    if i >= s.len() {
        assert(s.take(k) =~= s);
    } else if s[i] == '\x1b' {
        if i + 1 >= s.len() {
            assert(s.take(k) =~= s);
        } else {
            lemma_escape_end_bounds(s, i);
            let e = escape_end(s, i);
            lemma_clip_walk(s, e, used, max);
            let t = s.take(k);
            assert(t[i] == s[i]);
            lemma_escape_end_take(s, i, k);
            assert(visible_columns(t, i) == visible_columns(t, e));
        }
    } else if used + columns(s[i]) > max {
        assert(visible_columns(s.take(i), i) == 0);
    } else {
        lemma_columns_nonneg(s[i]);
        lemma_clip_walk(s, i + 1, used + columns(s[i]), max);
        let t = s.take(k);
        assert(t[i] == s[i]);
        assert(visible_columns(t, i) == columns(s[i]) + visible_columns(t, i + 1));
    }
}

proof fn lemma_clip_fitting(s: Seq<char>, i: int, used: int, max: int)
    requires
        0 <= i <= s.len(),
        0 <= used,
        used + visible_columns(s, i) <= max,
    ensures
        clip_end(s, i, used, max) == s.len(),
    decreases s.len() - i,
{
    if i < s.len() {
        if s[i] == '\x1b' {
            if i + 1 < s.len() {
                lemma_escape_end_bounds(s, i);
                lemma_clip_fitting(s, escape_end(s, i), used, max);
            }
        } else {
            lemma_columns_nonneg(s[i]);
            lemma_visible_nonneg(s, i + 1);
            lemma_clip_fitting(s, i + 1, used + columns(s[i]), max);
        }
    }
}

/// A clipped line is a prefix of the input line: characters and escape
/// sequences are copied verbatim, in order.
pub proof fn law_clip_keeps_a_prefix(line: Seq<char>, max: nat)
    ensures
        clipped(line, max as int).len() <= line.len(),
        clipped(line, max as int) == line.take(clipped(line, max as int).len() as int),
{
    if max > 0 {
        lemma_clip_walk(line, 0, 0, max as int);
    }
}

/// A clipped line never takes more than `max` display columns.
pub proof fn law_clip_fits_the_width(line: Seq<char>, max: nat)
    ensures
        visible_columns(clipped(line, max as int), 0) <= max,
{
    if max > 0 {
        lemma_clip_walk(line, 0, 0, max as int);
    }
}

/// A line that already fits in `max` (non-zero) columns comes back unchanged.
pub proof fn law_clip_keeps_a_fitting_line(line: Seq<char>, max: nat)
    requires
        max > 0,
        visible_columns(line, 0) <= max,
    ensures
        clipped(line, max as int) == line,
{
    lemma_clip_fitting(line, 0, 0, max as int);
    assert(line.take(line.len() as int) =~= line);
}

/// A clickable tab region in the (possibly wrapped) tab bar.
#[derive(Debug)]
pub struct TabHit {
    /// 1-indexed terminal row the tab label occupies.
    pub term_row: u16,
    /// 1-indexed inclusive terminal column range covered by the label
    /// (including its one space of padding on each side).
    pub start_col: u16,
    pub end_col: u16,
    /// Session name this tab selects.
    pub name: String,
}

impl View for TabHit {
    type V = (u16, u16, u16, Seq<char>);

    open spec fn view(&self) -> (u16, u16, u16, Seq<char>) {
        (self.term_row, self.start_col, self.end_col, self.name@)
    }
}

/// The text of each string.
pub open spec fn texts(v: Seq<String>) -> Seq<Seq<char>> {
    v.map_values(|s: String| s@)
}

pub open spec fn hit_views(v: Seq<TabHit>) -> Seq<(u16, u16, u16, Seq<char>)> {
    v.map_values(|h: TabHit| h@)
}

/// Largest display width of a session name (or frame title) that the tab
/// bar and the frame lay out: a quarter of `usize`'s range, so that the
/// layout's column sums (a line's columns, a separator and the next label)
/// stay within `usize`, the type the layout counts columns in (names near
/// half that range overflow it).
pub const NAME_WIDTH_LIMIT: usize = usize::MAX / 4;

/// Every name's display width is within `NAME_WIDTH_LIMIT`.
pub open spec fn widths_fit(names: Seq<Seq<char>>) -> bool {
    forall|i: int| 0 <= i < names.len() ==> unicode_str_width(#[trigger] names[i]) <= NAME_WIDTH_LIMIT
}

/// Each name made of printable ASCII takes one column per character.
pub open spec fn ascii_names_measured(names: Seq<Seq<char>>) -> bool {
    forall|i: int|
        0 <= i < names.len() && printable_ascii(#[trigger] names[i]) ==> unicode_str_width(names[i])
            == names[i].len()
}

/// A tab's label: the active one bold and inverse, the others dim.
pub open spec fn tab_label(name: Seq<char>, active: bool) -> Seq<char> {
    (if active { "\x1b[1;7m "@ } else { "\x1b[2m "@ }) + name + " \x1b[0m"@
}

/// The tab bar after laying out the first `n` names into lines of `max`
/// columns: the finished lines, the line being filled, the columns it uses,
/// and the click regions so far. A tab goes on a new line when it and its
/// separator would not fit and the current line already holds a tab.
pub open spec fn tab_layout(names: Seq<Seq<char>>, active: int, max: int, base_row: int, n: nat) -> (
    Seq<Seq<char>>,
    Seq<char>,
    int,
    Seq<(u16, u16, u16, Seq<char>)>,
)
    decreases n,
{
    if n == 0 {
        (Seq::empty(), Seq::empty(), 0, Seq::empty())
    } else {
        let (lines, cur, col, hits) = tab_layout(names, active, max, base_row, (n - 1) as nat);
        let i = n - 1;
        let name = names[i];
        let label_w = unicode_str_width(name) + 2;
        let sep_w = if col > 0 { 3int } else { 0int };
        let wrap = col > 0 && col + sep_w + label_w > max;
        let lines1 = if wrap { lines.push(cur) } else { lines };
        let cur1 = if wrap { Seq::<char>::empty() } else { cur };
        let col1 = if wrap { 0 } else { col };
        let cur2 = if col1 > 0 { cur1 + "\x1b[90m \u{2502} \x1b[0m"@ } else { cur1 };
        let col2 = if col1 > 0 { col1 + 3 } else { col1 };
        let cur3 = cur2 + tab_label(name, i == active);
        let col3 = col2 + label_w;
        let hit = ((base_row + lines1.len()) as u16, (col2 + 1) as u16, col3 as u16, name);
        (lines1, cur3, col3, hits.push(hit))
    }
}

/// The tab bar's lines and click regions for `names` on a terminal
/// `term_cols` wide, the first line on terminal row `base_row`.
pub open spec fn tab_bar(names: Seq<Seq<char>>, active: int, term_cols: int, base_row: int) -> (
    Seq<Seq<char>>,
    Seq<(u16, u16, u16, Seq<char>)>,
) {
    let max = if term_cols >= 1 { term_cols } else { 1 };
    let (lines, cur, _col, hits) = tab_layout(names, active, max, base_row, names.len());
    (lines.push(cur), hits)
}

proof fn lemma_tab_layout_shape(names: Seq<Seq<char>>, active: int, max: int, base_row: int, n: nat)
    requires
        n <= names.len(),
        widths_fit(names),
        1 <= max <= u16::MAX,
    ensures
        tab_layout(names, active, max, base_row, n).0.len() <= n,
        tab_layout(names, active, max, base_row, n).3.len() == n,
        0 <= tab_layout(names, active, max, base_row, n).2 <= u16::MAX + NAME_WIDTH_LIMIT + 2,
    decreases n,
{
    if n > 0 {
        lemma_tab_layout_shape(names, active, max, base_row, (n - 1) as nat);
    }
}

/// Lays out the session tabs into lines no wider than `term_cols` (a lone
/// over-wide tab may overflow) and returns the rendered lines with the click
/// regions; see `tab_bar`. A name of printable ASCII takes one column per
/// character.
pub fn layout_tabs(sessions: &[String], active_idx: usize, term_cols: u16, base_row: u16) -> (r: (
    Vec<String>,
    Vec<TabHit>,
))
    requires
        base_row + sessions@.len() <= u16::MAX,
        widths_fit(texts(sessions@)),
    ensures
        (texts(r.0@), hit_views(r.1@)) == tab_bar(texts(sessions@), active_idx as int, term_cols as int, base_row as int),
        ascii_names_measured(texts(sessions@)),
{
    let ghost names = texts(sessions@);
    let max: usize = if term_cols >= 1 { term_cols as usize } else { 1 };
    let mut lines: Vec<String> = Vec::new();
    let mut hits: Vec<TabHit> = Vec::new();
    let mut cur: Vec<char> = Vec::new();
    let mut col: usize = 0;
    let mut i: usize = 0;
    while i < sessions.len()
        invariant
            names == texts(sessions@),
            widths_fit(names),
            base_row + sessions@.len() <= u16::MAX,
            i <= sessions@.len(),
            max == (if term_cols >= 1 { term_cols as int } else { 1 }),
            forall|j: int|
                0 <= j < i && printable_ascii(#[trigger] names[j]) ==> unicode_str_width(names[j]) == names[j].len(),
            (texts(lines@), cur@, col as int, hit_views(hits@)) == tab_layout(
                names,
                active_idx as int,
                max as int,
                base_row as int,
                i as nat,
            ),
        decreases sessions@.len() - i,
    {
        proof {
            lemma_tab_layout_shape(names, active_idx as int, max as int, base_row as int, i as nat);
        }
        let ghost prev_lines = texts(lines@);
        let ghost prev_hits = hit_views(hits@);
        let name = &sessions[i];
        assert(name@ == names[i as int]);
        let label_w = str_width(name.as_str()) + 2;
        let sep_w: usize = if col > 0 { 3 } else { 0 };
        if col > 0 && col + sep_w + label_w > max {
            lines.push(string_of(&cur));
            cur = Vec::new();
            col = 0;
        }
        if col > 0 {
            push_str(&mut cur, "\x1b[90m \u{2502} \x1b[0m");
            col = col + 3;
        }
        let start_col = col + 1;
        if i == active_idx {
            push_str(&mut cur, "\x1b[1;7m ");
        } else {
            push_str(&mut cur, "\x1b[2m ");
        }
        push_str(&mut cur, name.as_str());
        push_str(&mut cur, " \x1b[0m");
        col = col + label_w;
        let row = base_row + lines.len() as u16;
        hits.push(TabHit { term_row: row, start_col: start_col as u16, end_col: col as u16, name: name.clone() });
        proof {
            assert(texts(lines@) =~= if texts(lines@).len() > prev_lines.len() { prev_lines.push(
                texts(lines@).last(),
            ) } else { prev_lines });
            assert(hit_views(hits@) =~= prev_hits.push(hits@.last()@));
        }
        i = i + 1;
    }
    lines.push(string_of(&cur));
    proof {
        assert(texts(lines@) =~= texts(lines@).drop_last().push(cur@));
    }
    (lines, hits)
}

proof fn lemma_tab_rows(names: Seq<Seq<char>>, active: int, max: int, base_row: int, n: nat)
    requires
        n <= names.len(),
        widths_fit(names),
        1 <= max <= u16::MAX,
        0 <= base_row,
        base_row + names.len() <= u16::MAX,
    ensures
        ({
            let (lines, _cur, col, hits) = tab_layout(names, active, max, base_row, n);
            &&& hits.len() == n
            &&& lines.len() <= n
            &&& forall|i: int| 0 <= i < n ==> (#[trigger] hits[i]).3 == names[i]
            &&& forall|i: int, j: int| 0 <= i <= j < n ==> (#[trigger] hits[i]).0 <= (#[trigger] hits[j]).0
            &&& forall|i: int| 0 <= i < n ==> (#[trigger] hits[i]).0 <= base_row + lines.len()
            &&& n > 0 ==> hits[n - 1].0 == base_row + lines.len()
            &&& n > 0 ==> hits[0].0 == base_row && hits[0].1 == 1
            &&& n > 0 ==> col > 0
        }),
    decreases n,
{
    if n > 0 {
        lemma_tab_rows(names, active, max, base_row, (n - 1) as nat);
        lemma_tab_layout_shape(names, active, max, base_row, (n - 1) as nat);
    }
}

/// Every session gets exactly one tab, in list order, selecting it by name;
/// the first tab starts at column 1 of `base_row`; a later tab never sits on
/// an earlier row; and the bar has one line for each row the tabs use.
pub proof fn law_tab_bar_shape(names: Seq<Seq<char>>, active: int, term_cols: u16, base_row: u16)
    requires
        widths_fit(names),
        base_row + names.len() <= u16::MAX,
    ensures
        ({
            let (lines, hits) = tab_bar(names, active, term_cols as int, base_row as int);
            &&& hits.len() == names.len()
            &&& forall|i: int| 0 <= i < names.len() ==> (#[trigger] hits[i]).3 == names[i]
            &&& names.len() > 0 ==> hits[0].0 == base_row && hits[0].1 == 1
            &&& forall|i: int, j: int| 0 <= i <= j < names.len() ==> (#[trigger] hits[i]).0 <= (#[trigger] hits[j]).0
            &&& names.len() > 0 ==> lines.len() == hits[names.len() - 1].0 - base_row + 1
        }),
{
    let max = if term_cols >= 1 { term_cols as int } else { 1 };
    lemma_tab_rows(names, active, max, base_row as int, names.len());
}

} // verus!

verus! {

/// `n` copies of `s`, one after another.
pub open spec fn repeat(s: Seq<char>, n: nat) -> Seq<char>
    decreases n,
{
    if n == 0 {
        Seq::empty()
    } else {
        repeat(s, (n - 1) as nat) + s
    }
}

fn push_repeat(out: &mut Vec<char>, s: &str, n: usize)
    ensures
        final(out)@ == old(out)@ + repeat(s@, n as nat),
{
    let mut k: usize = 0;
    assert(old(out)@ + repeat(s@, 0) =~= old(out)@);
    while k < n
        invariant
            k <= n,
            out@ == old(out)@ + repeat(s@, k as nat),
        decreases n - k,
    {
        push_str(out, s);
        k = k + 1;
        assert(out@ =~= old(out)@ + repeat(s@, k as nat));
    }
}

/// How long ago the screen last changed: seconds under a minute, minutes
/// under an hour, hours after that.
pub open spec fn elapsed_text(secs: nat) -> Seq<char> {
    if secs < 60 {
        dec(secs) + "s ago"@
    } else if secs < 3600 {
        dec(secs / 60) + "m ago"@
    } else {
        dec(secs / 3600) + "h ago"@
    }
}

/// How long ago the screen last changed, from whole seconds; see
/// `elapsed_text`.
pub fn format_elapsed(secs: u64) -> (r: String)
    ensures
        r@ == elapsed_text(secs as nat),
{
    let mut out: Vec<char> = Vec::new();
    if secs < 60 {
        push_dec(&mut out, secs);
        push_str(&mut out, "s ago");
    } else if secs < 3600 {
        push_dec(&mut out, secs / 60);
        push_str(&mut out, "m ago");
    } else {
        push_dec(&mut out, secs / 3600);
        push_str(&mut out, "h ago");
    }
    string_of(&out)
}

/// The monitor's mouse cursor: a magenta triangle, drawn as bright white on a
/// magenta cell while a button is held.
pub open spec fn cursor_glyph(held: bool) -> Seq<char> {
    if held {
        "\x1b[1;48;5;201;97m△"@
    } else {
        "\x1b[1;38;5;201m△"@
    }
}

/// SGR-wrapped glyph for the monitor's mouse cursor; see `cursor_glyph`.
pub fn mouse_cursor_glyph(held: bool) -> (r: &'static str)
    ensures
        r@ == cursor_glyph(held),
{
    if held {
        "\x1b[1;48;5;201;97m△"
    } else {
        "\x1b[1;38;5;201m△"
    }
}

} // verus!

verus! {

/// A rendered monitor frame: one ANSI string per terminal row (index 0 is
/// row 1), plus the clickable tab regions.
#[derive(Debug)]
pub struct Frame {
    pub lines: Vec<String>,
    pub tab_hits: Vec<TabHit>,
}

pub open spec fn sat_sub(a: int, b: int) -> int {
    if a > b {
        a - b
    } else {
        0
    }
}

/// The status bar text.
pub open spec fn status_text(multi: bool, secs: nat) -> Seq<char> {
    if multi {
        "terminal-use monitor · last change "@ + elapsed_text(secs) + " · ← → or click · Ctrl+C detach"@
    } else {
        "terminal-use monitor · last change "@ + elapsed_text(secs) + " · Ctrl+C detach"@
    }
}

/// The title in the frame's top border, e.g. ` main [120x40] `.
pub open spec fn frame_title(name: Seq<char>, cols: u16, rows: u16) -> Seq<char> {
    " "@ + name + " ["@ + dec(cols as nat) + "x"@ + dec(rows as nat) + "] "@
}

/// A border run of `space` columns cut short by the terminal: dashes ending
/// in `···` when there is room for more than three.
pub open spec fn cut_run(space: int) -> Seq<char> {
    if space > 3 {
        repeat("─"@, (space - 3) as nat) + "···"@
    } else {
        repeat("─"@, space as nat)
    }
}

/// The frame's top border with its title, cut at the terminal's edge when
/// the frame is wider than the terminal.
pub open spec fn top_border(title: Seq<char>, tcols: int, frame_width: int) -> Seq<char> {
    let prefix = 2 + unicode_str_width(title);
    if tcols < frame_width {
        "\x1b[90m┌─\x1b[0m\x1b[1m"@ + title + "\x1b[0m\x1b[90m"@ + cut_run(sat_sub(tcols, prefix)) + "\x1b[0m"@
    } else {
        "\x1b[90m┌─\x1b[0m\x1b[1m"@ + title + "\x1b[0m\x1b[90m"@ + repeat("─"@, sat_sub(frame_width, prefix + 1) as nat)
            + "┐\x1b[0m"@
    }
}

/// The frame's bottom border.
pub open spec fn bottom_border(tcols: int, frame_width: int) -> Seq<char> {
    if tcols < frame_width {
        "\x1b[90m└"@ + cut_run(sat_sub(tcols, 1)) + "\x1b[0m"@
    } else {
        "\x1b[90m└"@ + repeat("─"@, sat_sub(frame_width, 2) as nat) + "┘\x1b[0m"@
    }
}

/// The side border of a content row: dotted on the last rows shown when the
/// frame is cut at the bottom.
pub open spec fn side(faded: bool) -> Seq<char> {
    if faded {
        "·"@
    } else {
        "│"@
    }
}

/// One content row: clipped to the terminal when the frame is wider than
/// it, otherwise closed by the right border at the frame's last column.
pub open spec fn content_row(line: Seq<char>, faded: bool, tcols: int, frame_width: int) -> Seq<char> {
    if tcols < frame_width {
        "\x1b[90m"@ + side(faded) + "\x1b[0m"@ + clipped(line, sat_sub(tcols, 2)) + "\x1b[0m"@
    } else {
        "\x1b[90m"@ + side(faded) + "\x1b[0m"@ + line + "\x1b[0m\x1b["@ + dec(frame_width as nat) + "G\x1b[90m"@
            + side(faded) + "\x1b[0m"@
    }
}

/// The mouse cursor drawn over content row `r` (on terminal row `term_row`)
/// when it sits there and its column is on screen.
pub open spec fn cursor_overlay(
    cursor: Option<CursorPos>,
    r: int,
    term_row: int,
    sess_cols: u16,
    term_cols: u16,
    held: bool,
) -> Seq<char> {
    match cursor {
        Some(c) => if c.row == r && c.col < sess_cols && 2 + c.col <= (if term_cols >= 2 {
            term_cols as int
        } else {
            1
        }) {
            "\x1b["@ + dec(term_row as nat) + ";"@ + dec((2 + c.col) as nat) + "H"@ + cursor_glyph(held) + "\x1b[0m"@
        } else {
            Seq::empty()
        },
        None => Seq::empty(),
    }
}

/// The session's row `r`, or nothing past its last row.
pub open spec fn row_text(rows: Seq<Seq<char>>, r: int) -> Seq<char> {
    if 0 <= r < rows.len() {
        rows[r]
    } else {
        Seq::empty()
    }
}

/// Rows of the session shown: all of them, or as many as fit below the
/// status bar, tab bar and top border with one row left for the bottom
/// border.
pub open spec fn shown_rows(sess_rows: int, term_rows: int, tab_lines: int) -> int {
    let available = sat_sub(term_rows, 2 + tab_lines + 1);
    if sess_rows < available {
        sess_rows
    } else {
        available
    }
}

/// The tab bar's lines: none for a single session.
pub open spec fn frame_tabs(names: Seq<Seq<char>>, active: int, term_cols: u16) -> Seq<Seq<char>> {
    if names.len() > 1 {
        tab_bar(names, active, term_cols as int, 2).0
    } else {
        Seq::empty()
    }
}

/// The monitor frame, one string per terminal row: the status bar, the tab
/// bar (several sessions only), the top border with the session's title, the
/// session's rows as far as they fit, and the bottom border unless rows were
/// cut off.
pub open spec fn frame_lines(
    names: Seq<Seq<char>>,
    active: int,
    rows: Seq<Seq<char>>,
    sess_rows: u16,
    sess_cols: u16,
    term_cols: u16,
    term_rows: u16,
    secs: nat,
    cursor: Option<CursorPos>,
    held: bool,
) -> Seq<Seq<char>> {
    let multi = names.len() > 1;
    let tabs = frame_tabs(names, active, term_cols);
    let tcols = term_cols as int;
    let frame_width = sess_cols + 2;
    let header = 2 + tabs.len();
    let shown = shown_rows(sess_rows as int, term_rows as int, tabs.len() as int);
    let cropped_bottom = shown < sess_rows;
    let head = seq!["\x1b[90m"@ + clipped(status_text(multi, secs), tcols) + "\x1b[0m"@] + tabs.map_values(
        |l: Seq<char>| clipped(l, tcols) + "\x1b[0m"@,
    ) + seq![top_border(frame_title(names[active], sess_cols, sess_rows), tcols, frame_width)];
    let body = Seq::new(
        shown as nat,
        |r: int|
            content_row(row_text(rows, r), cropped_bottom && r >= sat_sub(shown, 3), tcols, frame_width)
                + cursor_overlay(cursor, r, header + r + 1, sess_cols, term_cols, held),
    );
    head + body + (if cropped_bottom {
        Seq::<Seq<char>>::empty()
    } else {
        seq![bottom_border(tcols, frame_width)]
    })
}

/// The click regions of the frame's tab bar: none for a single session.
pub open spec fn frame_hits(names: Seq<Seq<char>>, active: int, term_cols: u16) -> Seq<
    (u16, u16, u16, Seq<char>),
> {
    if names.len() > 1 {
        tab_bar(names, active, term_cols as int, 2).1
    } else {
        Seq::empty()
    }
}

/// What the frame needs of the display widths it measures: the names (for
/// the tab bar) and the title.
pub open spec fn frame_measurable(names: Seq<Seq<char>>, active: int, sess_cols: u16, sess_rows: u16) -> bool {
    &&& (names.len() > 1 ==> widths_fit(names))
    &&& unicode_str_width(frame_title(names[active], sess_cols, sess_rows)) <= NAME_WIDTH_LIMIT
}

} // verus!

verus! {

fn push_cut_run(out: &mut Vec<char>, space: usize)
    ensures
        final(out)@ == old(out)@ + cut_run(space as int),
{
    if space > 3 {
        push_repeat(out, "─", space - 3);
        push_str(out, "···");
        assert(final(out)@ =~= old(out)@ + cut_run(space as int));
    } else {
        push_repeat(out, "─", space);
    }
}

fn title_text(name: &str, cols: u16, rows: u16) -> (r: String)
    ensures
        r@ == frame_title(name@, cols, rows),
{
    let mut t: Vec<char> = Vec::new();
    push_str(&mut t, " ");
    push_str(&mut t, name);
    push_str(&mut t, " [");
    push_dec(&mut t, cols as u64);
    push_str(&mut t, "x");
    push_dec(&mut t, rows as u64);
    push_str(&mut t, "] ");
    assert(t@ =~= frame_title(name@, cols, rows));
    string_of(&t)
}

fn top_border_line(title: &str, tcols: usize, frame_width: usize) -> (r: String)
    requires
        unicode_str_width(title@) <= NAME_WIDTH_LIMIT,
    ensures
        r@ == top_border(title@, tcols as int, frame_width as int),
{
    let prefix_width = 2 + str_width(title);
    let mut l: Vec<char> = Vec::new();
    push_str(&mut l, "\x1b[90m┌─\x1b[0m\x1b[1m");
    push_str(&mut l, title);
    push_str(&mut l, "\x1b[0m\x1b[90m");
    if tcols < frame_width {
        push_cut_run(&mut l, tcols.saturating_sub(prefix_width));
        push_str(&mut l, "\x1b[0m");
    } else {
        push_repeat(&mut l, "─", frame_width.saturating_sub(prefix_width + 1));
        push_str(&mut l, "┐\x1b[0m");
    }
    assert(l@ =~= top_border(title@, tcols as int, frame_width as int));
    string_of(&l)
}

fn bottom_border_line(tcols: usize, frame_width: usize) -> (r: String)
    ensures
        r@ == bottom_border(tcols as int, frame_width as int),
{
    let mut l: Vec<char> = Vec::new();
    push_str(&mut l, "\x1b[90m└");
    if tcols < frame_width {
        push_cut_run(&mut l, tcols.saturating_sub(1));
        push_str(&mut l, "\x1b[0m");
    } else {
        push_repeat(&mut l, "─", frame_width.saturating_sub(2));
        push_str(&mut l, "┘\x1b[0m");
    }
    assert(l@ =~= bottom_border(tcols as int, frame_width as int));
    string_of(&l)
}

fn push_side(out: &mut Vec<char>, faded: bool)
    ensures
        final(out)@ == old(out)@ + side(faded),
{
    if faded {
        push_str(out, "·");
    } else {
        push_str(out, "│");
    }
}

fn content_row_line(line: &str, faded: bool, tcols: usize, frame_width: usize) -> (r: Vec<char>)
    ensures
        r@ == content_row(line@, faded, tcols as int, frame_width as int),
{
    let mut l: Vec<char> = Vec::new();
    push_str(&mut l, "\x1b[90m");
    push_side(&mut l, faded);
    push_str(&mut l, "\x1b[0m");
    if tcols < frame_width {
        let clipped_line = truncate_ansi_visible(line, tcols.saturating_sub(2));
        push_str(&mut l, clipped_line.as_str());
        push_str(&mut l, "\x1b[0m");
    } else {
        push_str(&mut l, line);
        push_str(&mut l, "\x1b[0m\x1b[");
        push_dec(&mut l, frame_width as u64);
        push_str(&mut l, "G\x1b[90m");
        push_side(&mut l, faded);
        push_str(&mut l, "\x1b[0m");
    }
    assert(l@ =~= content_row(line@, faded, tcols as int, frame_width as int));
    l
}

fn push_cursor_overlay(
    out: &mut Vec<char>,
    cursor: Option<CursorPos>,
    r: usize,
    term_row: u16,
    sess_cols: u16,
    term_cols: u16,
    held: bool,
)
    requires
        cursor matches Some(c) ==> (c.col < sess_cols ==> c.col + 2 <= u16::MAX),
    ensures
        final(out)@ == old(out)@ + cursor_overlay(cursor, r as int, term_row as int, sess_cols, term_cols, held),
{
    if let Some(c) = cursor {
        if c.row as usize == r && c.col < sess_cols {
            let term_col = 2 + c.col;
            let max_col = if term_cols >= 2 { term_cols } else { 1 };
            if term_col <= max_col {
                push_str(out, "\x1b[");
                push_dec(out, term_row as u64);
                push_str(out, ";");
                push_dec(out, term_col as u64);
                push_str(out, "H");
                push_str(out, mouse_cursor_glyph(held));
                push_str(out, "\x1b[0m");
                assert(final(out)@ =~= old(out)@ + cursor_overlay(cursor, r as int, term_row as int, sess_cols, term_cols, held));
                return;
            }
        }
    }
    assert(old(out)@ + cursor_overlay(cursor, r as int, term_row as int, sess_cols, term_cols, held) =~= old(out)@);
}

} // verus!

verus! {

/// Renders the monitor frame; see `frame_lines` and `frame_hits`.
#[verifier::spinoff_prover]
#[verifier::rlimit(40)]
pub fn build_frame_strings(
    sessions: &[String],
    active_idx: usize,
    rows_ansi: &[String],
    sess_rows: u16,
    sess_cols: u16,
    term_size: (u16, u16),
    since_last_change_secs: u64,
    mouse_cursor: Option<CursorPos>,
    mouse_held: bool,
) -> (f: Frame)
    requires
        active_idx < sessions@.len(),
        sessions@.len() <= 65531,
        frame_measurable(texts(sessions@), active_idx as int, sess_cols, sess_rows),
        mouse_cursor matches Some(c) ==> (c.col < sess_cols ==> c.col + 2 <= u16::MAX),
    ensures
        texts(f.lines@) == frame_lines(
            texts(sessions@),
            active_idx as int,
            texts(rows_ansi@),
            sess_rows,
            sess_cols,
            term_size.0,
            term_size.1,
            since_last_change_secs as nat,
            mouse_cursor,
            mouse_held,
        ),
        hit_views(f.tab_hits@) == frame_hits(texts(sessions@), active_idx as int, term_size.0),
{
    let ghost names = texts(sessions@);
    let ghost rows = texts(rows_ansi@);
    let (term_cols, term_rows) = term_size;
    let multi = sessions.len() > 1;
    let (tab_lines, tab_hits) = if multi {
        layout_tabs(sessions, active_idx, term_cols, 2)
    } else {
        (Vec::new(), Vec::new())
    };
    let ghost tabs = texts(tab_lines@);
    proof {
        if multi {
            let max = if term_cols >= 1 { term_cols as int } else { 1 };
            lemma_tab_layout_shape(names, active_idx as int, max, 2, names.len());
        }
        assert(tabs == frame_tabs(names, active_idx as int, term_cols));
        assert(hit_views(tab_hits@) == frame_hits(names, active_idx as int, term_cols));
    }
    let frame_width: usize = sess_cols as usize + 2;
    let tcols = term_cols as usize;
    let header_rows: u16 = 1 + tab_lines.len() as u16 + 1;
    let available = term_rows.saturating_sub(header_rows + 1);
    let shown: u16 = if sess_rows < available { sess_rows } else { available };
    let cropped_bottom = shown < sess_rows;
    assert(shown == shown_rows(sess_rows as int, term_rows as int, tabs.len() as int));
    let mut frame: Vec<String> = Vec::new();

    // Status bar, clipped to the terminal before it is coloured.
    let elapsed = format_elapsed(since_last_change_secs);
    let mut st: Vec<char> = Vec::new();
    push_str(&mut st, "terminal-use monitor · last change ");
    push_str(&mut st, elapsed.as_str());
    if multi {
        push_str(&mut st, " · ← → or click · Ctrl+C detach");
    } else {
        push_str(&mut st, " · Ctrl+C detach");
    }
    assert(st@ =~= status_text(multi, since_last_change_secs as nat));
    let status_plain = string_of(&st);
    let status = truncate_ansi_visible(status_plain.as_str(), tcols);
    let mut l: Vec<char> = Vec::new();
    push_str(&mut l, "\x1b[90m");
    push_str(&mut l, status.as_str());
    push_str(&mut l, "\x1b[0m");
    frame.push(string_of(&l));

    // Tab bar lines, clipped for the same reason.
    let mut k: usize = 0;
    while k < tab_lines.len()
        invariant
            k <= tab_lines@.len(),
            tabs == texts(tab_lines@),
            texts(frame@) =~= seq![
                "\x1b[90m"@ + clipped(status_text(multi, since_last_change_secs as nat), tcols as int) + "\x1b[0m"@,
            ] + tabs.take(k as int).map_values(|t: Seq<char>| clipped(t, tcols as int) + "\x1b[0m"@),
        decreases tab_lines@.len() - k,
    {
        let clipped_tab = truncate_ansi_visible(tab_lines[k].as_str(), tcols);
        let mut tl: Vec<char> = Vec::new();
        push_str(&mut tl, clipped_tab.as_str());
        push_str(&mut tl, "\x1b[0m");
        let ghost before = texts(frame@);
        frame.push(string_of(&tl));
        assert(texts(frame@) =~= before.push(tl@));
        assert(tab_lines@[k as int]@ == tabs[k as int]);
        assert(tabs.take(k + 1) =~= tabs.take(k as int).push(tabs[k as int]));
        k = k + 1;
    }
    assert(tabs.take(k as int) =~= tabs);

    // Top border with the session's title.
    let title = title_text(sessions[active_idx].as_str(), sess_cols, sess_rows);
    assert(sessions@[active_idx as int]@ == names[active_idx as int]);
    let ghost before_top = texts(frame@);
    frame.push(top_border_line(title.as_str(), tcols, frame_width));
    let ghost head = texts(frame@);
    assert(head =~= before_top.push(top_border(frame_title(names[active_idx as int], sess_cols, sess_rows), tcols as int, frame_width as int)));
    assert(head.len() == 2 + tabs.len());
    assert(head =~= seq![
        "\x1b[90m"@ + clipped(status_text(multi, since_last_change_secs as nat), tcols as int) + "\x1b[0m"@,
    ] + tabs.map_values(|t: Seq<char>| clipped(t, tcols as int) + "\x1b[0m"@) + seq![
        top_border(frame_title(names[active_idx as int], sess_cols, sess_rows), tcols as int, frame_width as int),
    ]);

    // The session's rows.
    let mut r: usize = 0;
    while r < shown as usize
        invariant
            r <= shown,
            frame@.len() == header_rows + r,
            head.len() == header_rows,
            header_rows == 2 + tabs.len(),
            header_rows as int + shown + 1 <= term_rows || shown == 0,
            rows == texts(rows_ansi@),
            mouse_cursor matches Some(c) ==> (c.col < sess_cols ==> c.col + 2 <= u16::MAX),
            texts(frame@) =~= head + Seq::new(
                r as nat,
                |i: int|
                    content_row(
                        row_text(rows, i),
                        cropped_bottom && i >= sat_sub(shown as int, 3),
                        tcols as int,
                        frame_width as int,
                    ) + cursor_overlay(mouse_cursor, i, header_rows + i + 1, sess_cols, term_cols, mouse_held),
            ),
        decreases shown - r,
    {
        let faded = cropped_bottom && r >= (shown as usize).saturating_sub(3);
        let mut row_line = if r < rows_ansi.len() {
            content_row_line(rows_ansi[r].as_str(), faded, tcols, frame_width)
        } else {
            content_row_line("", faded, tcols, frame_width)
        };
        proof {
            if r < rows_ansi@.len() {
                assert(rows_ansi@[r as int]@ == rows[r as int]);
            } else {
                assert(""@ =~= Seq::<char>::empty()) by {
                    reveal_strlit("");
                }
            }
        }
        let term_row = frame.len() as u16 + 1;
        push_cursor_overlay(&mut row_line, mouse_cursor, r, term_row, sess_cols, term_cols, mouse_held);
        let ghost before = texts(frame@);
        let ghost f = |i: int|
            content_row(
                row_text(rows, i),
                cropped_bottom && i >= sat_sub(shown as int, 3),
                tcols as int,
                frame_width as int,
            ) + cursor_overlay(mouse_cursor, i, header_rows + i + 1, sess_cols, term_cols, mouse_held);
        assert(row_line@ == f(r as int));
        frame.push(string_of(&row_line));
        assert(texts(frame@) =~= before.push(row_line@));
        assert(Seq::new((r + 1) as nat, f) =~= Seq::new(r as nat, f).push(f(r as int)));
        r = r + 1;
    }

    // Bottom border unless rows were cut off.
    let ghost body = texts(frame@);
    if !cropped_bottom {
        frame.push(bottom_border_line(tcols, frame_width));
        assert(texts(frame@) =~= body.push(bottom_border(tcols as int, frame_width as int)));
    }
    Frame { lines: frame, tab_hits }
}

} // verus!

verus! {

/// Whether every name's display width is within `NAME_WIDTH_LIMIT`.
fn names_measurable(sessions: &[String]) -> (r: bool)
    ensures
        r == widths_fit(texts(sessions@)),
        ascii_names_measured(texts(sessions@)),
{
    let ghost names = texts(sessions@);
    let mut fit = true;
    let mut i: usize = 0;
    while i < sessions.len()
        invariant
            names == texts(sessions@),
            i <= sessions@.len(),
            fit == (forall|j: int| 0 <= j < i ==> unicode_str_width(#[trigger] names[j]) <= NAME_WIDTH_LIMIT),
            forall|j: int|
                0 <= j < i && printable_ascii(#[trigger] names[j]) ==> unicode_str_width(names[j]) == names[j].len(),
        decreases sessions@.len() - i,
    {
        assert(names[i as int] == sessions@[i as int]@);
        if str_width(sessions[i].as_str()) > NAME_WIDTH_LIMIT {
            fit = false;
        }
        i = i + 1;
    }
    fit
}

proof fn lemma_title_printable(name: Seq<char>, cols: u16, rows: u16)
    ensures
        printable_ascii(name) ==> printable_ascii(frame_title(name, cols, rows)),
{
    reveal_strlit(" ");
    reveal_strlit(" [");
    reveal_strlit("x");
    reveal_strlit("] ");
    crate::decimal::lemma_dec_value(cols as nat);
    crate::decimal::lemma_dec_value(rows as nat);
    let t = frame_title(name, cols, rows);
    let c = dec(cols as nat);
    let w = dec(rows as nat);
    if printable_ascii(name) {
        assert forall|k: int| 0 <= k < t.len() implies 0x20 <= (#[trigger] t[k] as u32) < 0x7F by {
            let a = " "@;
            let b = " ["@;
            let x = "x"@;
            let e = "] "@;
            assert(t == a + name + b + c + x + w + e);
            if k < 1 {
                assert(t[k] == a[k]);
            } else if k < 1 + name.len() {
                assert(t[k] == name[k - 1]);
            } else if k < 3 + name.len() {
                assert(t[k] == b[k - 1 - name.len()]);
            } else if k < 3 + name.len() + c.len() {
                assert(t[k] == c[k - 3 - name.len()]);
                assert(crate::decimal::is_digit_char(c[k - 3 - name.len()]));
            } else if k < 4 + name.len() + c.len() {
                assert(t[k] == x[k - 3 - name.len() - c.len()]);
            } else if k < 4 + name.len() + c.len() + w.len() {
                assert(t[k] == w[k - 4 - name.len() - c.len()]);
                assert(crate::decimal::is_digit_char(w[k - 4 - name.len() - c.len()]));
            } else {
                assert(t[k] == e[k - 4 - name.len() - c.len() - w.len()]);
            }
        }
    }
}

/// The monitor frame (see `build_frame_strings`) when the display widths it
/// measures are within bounds, `None` when a name or the title is too wide
/// to lay out. The names it measures (all of them when there are several)
/// and the title take one column per character when they are printable
/// ASCII.
pub fn render_frame(
    sessions: &[String],
    active_idx: usize,
    rows_ansi: &[String],
    sess_rows: u16,
    sess_cols: u16,
    term_size: (u16, u16),
    since_last_change_secs: u64,
    mouse_cursor: Option<CursorPos>,
    mouse_held: bool,
) -> (r: Option<Frame>)
    requires
        active_idx < sessions@.len(),
        sessions@.len() <= 65531,
        mouse_cursor matches Some(c) ==> (c.col < sess_cols ==> c.col + 2 <= u16::MAX),
    ensures
        r is Some <==> frame_measurable(texts(sessions@), active_idx as int, sess_cols, sess_rows),
        r matches Some(f) ==> texts(f.lines@) == frame_lines(
            texts(sessions@),
            active_idx as int,
            texts(rows_ansi@),
            sess_rows,
            sess_cols,
            term_size.0,
            term_size.1,
            since_last_change_secs as nat,
            mouse_cursor,
            mouse_held,
        ),
        r matches Some(f) ==> hit_views(f.tab_hits@) == frame_hits(texts(sessions@), active_idx as int, term_size.0),
        sessions@.len() > 1 ==> ascii_names_measured(texts(sessions@)),
        printable_ascii(sessions@[active_idx as int]@) ==> unicode_str_width(
            frame_title(sessions@[active_idx as int]@, sess_cols, sess_rows),
        ) == frame_title(sessions@[active_idx as int]@, sess_cols, sess_rows).len(),
{
    let names_fit = if sessions.len() > 1 {
        names_measurable(sessions)
    } else {
        true
    };
    let title = title_text(sessions[active_idx].as_str(), sess_cols, sess_rows);
    assert(sessions@[active_idx as int]@ == texts(sessions@)[active_idx as int]);
    proof {
        lemma_title_printable(sessions@[active_idx as int]@, sess_cols, sess_rows);
    }
    let title_fits = str_width(title.as_str()) <= NAME_WIDTH_LIMIT;
    if !names_fit || !title_fits {
        return None;
    }
    Some(
        build_frame_strings(
            sessions,
            active_idx,
            rows_ansi,
            sess_rows,
            sess_cols,
            term_size,
            since_last_change_secs,
            mouse_cursor,
            mouse_held,
        ),
    )
}

} // verus!

verus! {

/// Row `i` of `new` is already on screen: no wipe is pending and the
/// previous frame had the same text there.
pub open spec fn row_unchanged(needs_clear: bool, prev: Option<Seq<Seq<char>>>, new: Seq<Seq<char>>, i: int) -> bool {
    &&& !needs_clear
    &&& prev matches Some(p)
    &&& 0 <= i < p.len()
    &&& p[i] == new[i]
}

/// Moves to the start of row `i + 1`, erases it and writes row `i` of `new`.
pub open spec fn repaint_row(new: Seq<Seq<char>>, i: int) -> Seq<char> {
    "\x1b["@ + dec((i + 1) as nat) + ";1H\x1b[2K"@ + new[i]
}

/// The repaints of the first `n` rows of `new` that changed.
pub open spec fn changed_rows(needs_clear: bool, prev: Option<Seq<Seq<char>>>, new: Seq<Seq<char>>, n: nat) -> Seq<
    char,
>
    decreases n,
{
    if n == 0 {
        Seq::empty()
    } else {
        changed_rows(needs_clear, prev, new, (n - 1) as nat) + (if row_unchanged(
            needs_clear,
            prev,
            new,
            n - 1,
        ) {
            Seq::<char>::empty()
        } else {
            repaint_row(new, n - 1)
        })
    }
}

/// What the monitor writes to move the screen from `prev` to `new`: a wipe
/// and a new window title first when one is pending, then every row that
/// changed, then an erase below the frame when it got shorter.
pub open spec fn frame_diff_text(
    needs_clear: bool,
    prev: Option<Seq<Seq<char>>>,
    new: Seq<Seq<char>>,
    session_name: Seq<char>,
) -> Seq<char> {
    let prev_len: int = if needs_clear {
        0
    } else {
        match prev {
            Some(p) => p.len() as int,
            None => 0,
        }
    };
    (if needs_clear {
        "\x1b[2J\x1b[H\x1b]0;tu monitor: "@ + session_name + "\x07"@
    } else {
        Seq::<char>::empty()
    }) + changed_rows(needs_clear, prev, new, new.len()) + (if new.len() < prev_len {
        "\x1b["@ + dec((new.len() + 1) as nat) + ";1H\x1b[J"@
    } else {
        Seq::<char>::empty()
    })
}

fn row_is_unchanged(needs_clear: bool, prev: Option<&[String]>, new: &[String], i: usize) -> (r: bool)
    requires
        i < new@.len(),
    ensures
        r == row_unchanged(
            needs_clear,
            match prev {
                Some(p) => Some(texts(p@)),
                None => None,
            },
            texts(new@),
            i as int,
        ),
{
    if needs_clear {
        return false;
    }
    match prev {
        Some(p) => {
            if i < p.len() {
                assert(texts(p@)[i as int] == p@[i as int]@);
                assert(texts(new@)[i as int] == new@[i as int]@);
                p[i] == new[i]
            } else {
                false
            }
        },
        None => false,
    }
}

/// The bytes to write to bring the screen from frame `prev` to frame `new`;
/// see `frame_diff_text`.
pub fn frame_diff(needs_clear: bool, prev: Option<&[String]>, new: &[String], session_name: &str) -> (r: String)
    ensures
        r@ == frame_diff_text(
            needs_clear,
            match prev {
                Some(p) => Some(texts(p@)),
                None => None,
            },
            texts(new@),
            session_name@,
        ),
{
    let ghost pv = match prev {
        Some(p) => Some(texts(p@)),
        None => None,
    };
    let ghost nv = texts(new@);
    let mut out: Vec<char> = Vec::new();
    if needs_clear {
        push_str(&mut out, "\x1b[2J\x1b[H\x1b]0;tu monitor: ");
        push_str(&mut out, session_name);
        push_str(&mut out, "\x07");
    }
    let ghost start = out@;
    let prev_len: usize = if needs_clear {
        0
    } else {
        match prev {
            Some(p) => p.len(),
            None => 0,
        }
    };
    let mut i: usize = 0;
    while i < new.len()
        invariant
            i <= new@.len(),
            nv == texts(new@),
            pv == (match prev {
                Some(p) => Some(texts(p@)),
                None => None,
            }),
            out@ == start + changed_rows(needs_clear, pv, nv, i as nat),
        decreases new@.len() - i,
    {
        let unchanged = row_is_unchanged(needs_clear, prev, new, i);
        let ghost before = out@;
        if !unchanged {
            push_str(&mut out, "\x1b[");
            push_dec(&mut out, (i + 1) as u64);
            push_str(&mut out, ";1H\x1b[2K");
            push_str(&mut out, new[i].as_str());
            assert(new@[i as int]@ == nv[i as int]);
            assert(out@ =~= before + repaint_row(nv, i as int));
        }
        assert(out@ =~= start + changed_rows(needs_clear, pv, nv, (i + 1) as nat));
        i = i + 1;
    }
    if new.len() < prev_len {
        push_str(&mut out, "\x1b[");
        push_dec(&mut out, (new.len() + 1) as u64);
        push_str(&mut out, ";1H\x1b[J");
    }
    assert(out@ =~= frame_diff_text(needs_clear, pv, nv, session_name@));
    string_of(&out)
}

proof fn lemma_unchanged_rows_write_nothing(prev: Seq<Seq<char>>, n: nat)
    requires
        n <= prev.len(),
    ensures
        changed_rows(false, Some(prev), prev, n) == Seq::<char>::empty(),
    decreases n,
{
    if n > 0 {
        lemma_unchanged_rows_write_nothing(prev, (n - 1) as nat);
        assert(row_unchanged(false, Some(prev), prev, n - 1));
        assert(changed_rows(false, Some(prev), prev, n) =~= Seq::<char>::empty());
    }
}

/// Repainting a frame over an identical one, with no wipe pending, writes
/// nothing: the terminal is left alone.
pub proof fn law_same_frame_writes_nothing(frame: Seq<Seq<char>>, session_name: Seq<char>)
    ensures
        frame_diff_text(false, Some(frame), frame, session_name) == Seq::<char>::empty(),
{
    lemma_unchanged_rows_write_nothing(frame, frame.len());
    assert(frame_diff_text(false, Some(frame), frame, session_name) =~= Seq::<char>::empty());
}

/// With a wipe pending, every row of the new frame is written, whatever was
/// on screen before.
pub proof fn law_wipe_repaints_every_row(prev: Option<Seq<Seq<char>>>, new: Seq<Seq<char>>, i: int)
    requires
        0 <= i < new.len(),
    ensures
        !row_unchanged(true, prev, new, i),
{
}

} // verus!

verus! {

/// `s` centred in `w` columns of spaces (the extra space, if any, on the
/// right), as `{:^w$}` formats it; `s` as it is when it is not shorter.
pub open spec fn centered(s: Seq<char>, w: nat) -> Seq<char> {
    if s.len() >= w {
        s
    } else {
        let pad = (w - s.len()) as nat;
        repeat(" "@, pad / 2) + s + repeat(" "@, (pad - pad / 2) as nat)
    }
}

fn push_centered(out: &mut Vec<char>, s: &str, w: usize)
    ensures
        final(out)@ == old(out)@ + centered(s@, w as nat),
{
    let n = s.unicode_len();
    if n >= w {
        push_str(out, s);
    } else {
        let pad = w - n;
        push_repeat(out, " ", pad / 2);
        push_str(out, s);
        push_repeat(out, " ", pad - pad / 2);
        assert(final(out)@ =~= old(out)@ + centered(s@, w as nat));
    }
}

/// Row of the waiting box's top edge: two rows above the middle, but never
/// above row 1.
pub open spec fn waiting_top_row(rows: u16) -> int {
    let m = sat_sub((rows / 2) as int, 2);
    if m >= 1 {
        m
    } else {
        1
    }
}

/// One line of the waiting box, at `row`, indented by `pad` spaces.
pub open spec fn box_line(row: int, pad: nat, body: Seq<char>) -> Seq<char> {
    "\x1b["@ + dec(row as nat) + ";1H"@ + repeat(" "@, pad) + body
}

/// The screen shown while no session exists: a cleared screen with a
/// 32-column box centred horizontally around the middle row.
pub open spec fn waiting_screen_text(cols: u16, rows: u16) -> Seq<char> {
    let pad = (sat_sub(cols as int, 32) / 2) as nat;
    let top = waiting_top_row(rows);
    "\x1b[H\x1b[2J"@ + box_line(top, pad, "\x1b[90m┌"@ + repeat("─"@, 30) + "┐\x1b[0m"@) + box_line(
        top + 1,
        pad,
        "\x1b[90m│\x1b[0m\x1b[1m"@ + centered("terminal-use"@, 30) + "\x1b[0m\x1b[90m│\x1b[0m"@,
    ) + box_line(top + 2, pad, "\x1b[90m│"@ + centered("Waiting for sessions..."@, 30) + "│\x1b[0m"@) + box_line(
        top + 3,
        pad,
        "\x1b[90m│"@ + centered(""@, 30) + "│\x1b[0m"@,
    ) + box_line(
        top + 4,
        pad,
        "\x1b[90m│\x1b[2m"@ + centered("Ctrl+C to quit"@, 30) + "\x1b[0m\x1b[90m│\x1b[0m"@,
    ) + box_line(top + 5, pad, "\x1b[90m└"@ + repeat("─"@, 30) + "┘\x1b[0m"@)
}

fn push_box_text(out: &mut Vec<char>, row: u16, pad: usize, left: &str, text: &str, right: &str)
    ensures
        final(out)@ == old(out)@ + box_line(row as int, pad as nat, left@ + centered(text@, 30) + right@),
{
    push_str(out, "\x1b[");
    push_dec(out, row as u64);
    push_str(out, ";1H");
    push_repeat(out, " ", pad);
    push_str(out, left);
    push_centered(out, text, 30);
    push_str(out, right);
    assert(final(out)@ =~= old(out)@ + box_line(row as int, pad as nat, left@ + centered(text@, 30) + right@));
}

fn push_box_edge(out: &mut Vec<char>, row: u16, pad: usize, left: &str, right: &str)
    ensures
        final(out)@ == old(out)@ + box_line(row as int, pad as nat, left@ + repeat("─"@, 30) + right@),
{
    push_str(out, "\x1b[");
    push_dec(out, row as u64);
    push_str(out, ";1H");
    push_repeat(out, " ", pad);
    push_str(out, left);
    push_repeat(out, "─", 30);
    push_str(out, right);
    assert(final(out)@ =~= old(out)@ + box_line(row as int, pad as nat, left@ + repeat("─"@, 30) + right@));
}

/// What the monitor draws while there are no sessions, on a terminal of
/// `cols` by `rows`; see `waiting_screen_text`.
pub fn waiting_screen(cols: u16, rows: u16) -> (r: String)
    ensures
        r@ == waiting_screen_text(cols, rows),
{
    let box_width: usize = 32;
    let pad_x = (cols as usize).saturating_sub(box_width) / 2;
    let half = (rows / 2).saturating_sub(2);
    let mid_row: u16 = if half >= 1 { half } else { 1 };
    let mut out: Vec<char> = Vec::new();
    push_str(&mut out, "\x1b[H\x1b[2J");
    push_box_edge(&mut out, mid_row, pad_x, "\x1b[90m┌", "┐\x1b[0m");
    push_box_text(&mut out, mid_row + 1, pad_x, "\x1b[90m│\x1b[0m\x1b[1m", "terminal-use", "\x1b[0m\x1b[90m│\x1b[0m");
    push_box_text(&mut out, mid_row + 2, pad_x, "\x1b[90m│", "Waiting for sessions...", "│\x1b[0m");
    push_box_text(&mut out, mid_row + 3, pad_x, "\x1b[90m│", "", "│\x1b[0m");
    push_box_text(&mut out, mid_row + 4, pad_x, "\x1b[90m│\x1b[2m", "Ctrl+C to quit", "\x1b[0m\x1b[90m│\x1b[0m");
    push_box_edge(&mut out, mid_row + 5, pad_x, "\x1b[90m└", "┘\x1b[0m");
    assert(mid_row as int == waiting_top_row(rows));
    assert(pad_x as nat == (sat_sub(cols as int, 32) / 2) as nat);
    assert(out@ =~= waiting_screen_text(cols, rows));
    string_of(&out)
}

} // verus!

verus! {

/// What a key does to the monitor's view.
#[derive(Clone, Copy, Debug, PartialEq, Eq, Structural)]
pub enum KeyOutcome {
    /// Leave the monitor.
    Quit,
    /// Keep showing the current session.
    Stay,
    /// Show the session at `index` of the session list.
    Switch { index: usize },
}

/// The name of the first tab whose region holds terminal cell (`row`, `col`).
pub open spec fn first_hit(hits: Seq<(u16, u16, u16, Seq<char>)>, row: u16, col: u16) -> Option<Seq<char>>
    decreases hits.len(),
{
    if hits.len() == 0 {
        None
    } else if hits[0].0 == row && hits[0].1 <= col && col <= hits[0].2 {
        Some(hits[0].3)
    } else {
        first_hit(hits.drop_first(), row, col)
    }
}

/// Index of the first occurrence of `name` in `names`.
pub open spec fn first_index_of(names: Seq<Seq<char>>, name: Seq<char>) -> Option<int>
    decreases names.len(),
{
    if names.len() == 0 {
        None
    } else if names[0] == name {
        Some(0)
    } else {
        match first_index_of(names.drop_first(), name) {
            Some(i) => Some(i + 1),
            None => None,
        }
    }
}

/// The view's reaction to a key, showing session `current` of `names` (the
/// freshly fetched list) with the tab regions `hits` of the last frame:
/// quit; the left arrow moves one session back and the right arrow one
/// forward while there is one; a click on a tab shows that tab's session,
/// looked up again by name in case the list changed.
pub open spec fn key_outcome(
    current: int,
    key: Option<Key>,
    names: Seq<Seq<char>>,
    hits: Seq<(u16, u16, u16, Seq<char>)>,
) -> KeyOutcome {
    match key {
        Some(Key::Quit) => KeyOutcome::Quit,
        Some(Key::Left) => if current > 0 {
            KeyOutcome::Switch { index: (current - 1) as usize }
        } else {
            KeyOutcome::Stay
        },
        Some(Key::Right) => if current + 1 < names.len() {
            KeyOutcome::Switch { index: (current + 1) as usize }
        } else {
            KeyOutcome::Stay
        },
        Some(Key::Click { row, col }) => match first_hit(hits, row, col) {
            Some(name) => match first_index_of(names, name) {
                Some(i) => if i != current {
                    KeyOutcome::Switch { index: i as usize }
                } else {
                    KeyOutcome::Stay
                },
                None => KeyOutcome::Stay,
            },
            None => KeyOutcome::Stay,
        },
        None => KeyOutcome::Stay,
    }
}

proof fn lemma_first_index_in_range(names: Seq<Seq<char>>, name: Seq<char>)
    ensures
        first_index_of(names, name) matches Some(i) ==> 0 <= i < names.len() && names[i] == name,
    decreases names.len(),
{
    if names.len() > 0 && names[0] != name {
        lemma_first_index_in_range(names.drop_first(), name);
    }
}

fn find_tab(tab_hits: &[TabHit], row: u16, col: u16) -> (r: Option<&String>)
    ensures
        match r {
            Some(n) => first_hit(hit_views(tab_hits@), row, col) == Some(n@),
            None => first_hit(hit_views(tab_hits@), row, col) is None,
        },
{
    let mut i: usize = 0;
    assert(hit_views(tab_hits@).skip(0) =~= hit_views(tab_hits@));
    while i < tab_hits.len()
        invariant
            i <= tab_hits@.len(),
            first_hit(hit_views(tab_hits@), row, col) == first_hit(hit_views(tab_hits@).skip(i as int), row, col),
        decreases tab_hits@.len() - i,
    {
        let h = &tab_hits[i];
        let ghost rest = hit_views(tab_hits@).skip(i as int);
        assert(rest[0] == h@);
        if h.term_row == row && col >= h.start_col && col <= h.end_col {
            return Some(&h.name);
        }
        assert(rest.drop_first() =~= hit_views(tab_hits@).skip(i + 1));
        i = i + 1;
    }
    None
}

fn find_session(sessions: &[String], name: &String) -> (r: Option<usize>)
    ensures
        match r {
            Some(i) => first_index_of(texts(sessions@), name@) == Some(i as int),
            None => first_index_of(texts(sessions@), name@) is None,
        },
{
    let ghost names = texts(sessions@);
    let mut i: usize = 0;
    assert(names.skip(0) =~= names);
    while i < sessions.len()
        invariant
            i <= sessions@.len(),
            names == texts(sessions@),
            first_index_of(names, name@) == (match first_index_of(names.skip(i as int), name@) {
                Some(j) => Some(j + i),
                None => None,
            }),
        decreases sessions@.len() - i,
    {
        let ghost rest = names.skip(i as int);
        assert(rest[0] == sessions@[i as int]@);
        if sessions[i] == *name {
            return Some(i);
        }
        assert(rest.drop_first() =~= names.skip(i + 1));
        i = i + 1;
    }
    None
}

/// What `key` does to the view; see `key_outcome`.
pub fn key_action(current: usize, key: Option<Key>, sessions: &[String], tab_hits: &[TabHit]) -> (r: KeyOutcome)
    ensures
        r == key_outcome(current as int, key, texts(sessions@), hit_views(tab_hits@)),
{
    match key {
        Some(Key::Quit) => KeyOutcome::Quit,
        Some(Key::Left) => {
            if current > 0 {
                KeyOutcome::Switch { index: current - 1 }
            } else {
                KeyOutcome::Stay
            }
        },
        Some(Key::Right) => {
            if sessions.len() > 0 && current < sessions.len() - 1 {
                KeyOutcome::Switch { index: current + 1 }
            } else {
                KeyOutcome::Stay
            }
        },
        Some(Key::Click { row, col }) => {
            match find_tab(tab_hits, row, col) {
                Some(name) => {
                    match find_session(sessions, name) {
                        Some(idx) => {
                            if idx != current {
                                KeyOutcome::Switch { index: idx }
                            } else {
                                KeyOutcome::Stay
                            }
                        },
                        None => KeyOutcome::Stay,
                    }
                },
                None => KeyOutcome::Stay,
            }
        },
        None => KeyOutcome::Stay,
    }
}

/// The session to show first: the one named `name`, or the first one.
pub fn initial_index(sessions: &[String], name: &String) -> (r: usize)
    ensures
        r == (match first_index_of(texts(sessions@), name@) {
            Some(i) => i as usize,
            None => 0usize,
        }),
{
    match find_session(sessions, name) {
        Some(i) => i,
        None => 0,
    }
}

/// `current`, moved back to the last session when the list shrank below it.
pub fn clamp_index(current: usize, len: usize) -> (r: usize)
    requires
        len > 0,
    ensures
        r == (if current >= len { len - 1 } else { current as int }),
        r < len,
{
    if current >= len {
        len - 1
    } else {
        current
    }
}

/// Whatever key came, the view only ever switches to a session that is in
/// the list it was given, and only to a different one.
pub proof fn law_switch_stays_in_range(
    current: int,
    key: Option<Key>,
    names: Seq<Seq<char>>,
    hits: Seq<(u16, u16, u16, Seq<char>)>,
)
    requires
        0 <= current < names.len(),
        names.len() <= usize::MAX,
    ensures
        key_outcome(current, key, names, hits) matches KeyOutcome::Switch { index } ==> index < names.len()
            && index != current,
{
    if let Some(Key::Click { row, col }) = key {
        if let Some(name) = first_hit(hits, row, col) {
            lemma_first_index_in_range(names, name);
        }
    }
}

} // verus!

verus! {

/// The terminal size to lay out for: the size the terminal reported when it
/// reported a non-zero width, 80 by 24 otherwise.
pub fn usable_terminal_size(reported: Option<(u16, u16)>) -> (r: (u16, u16))
    ensures
        r == (match reported {
            Some((c, rw)) => if c > 0 {
                (c, rw)
            } else {
                (80u16, 24u16)
            },
            None => (80u16, 24u16),
        }),
{
    match reported {
        Some((c, rw)) => {
            if c > 0 {
                (c, rw)
            } else {
                (80, 24)
            }
        },
        None => (80, 24),
    }
}

} // verus!

verus! {

/// The CSI sequence whose parameters start at `j` has its final character
/// in `s`.
pub open spec fn csi_closed(s: Seq<char>, j: int) -> bool
    decreases s.len() - j,
{
    if j < 0 || j >= s.len() {
        false
    } else if is_csi_final(s[j]) {
        true
    } else {
        csi_closed(s, j + 1)
    }
}

/// The OSC string whose text starts at `j` has its terminator in `s`.
pub open spec fn osc_closed(s: Seq<char>, j: int) -> bool
    decreases s.len() - j,
{
    if j < 0 || j >= s.len() {
        false
    } else if s[j] == '\x07' {
        true
    } else if s[j] == '\x1b' {
        if j + 1 >= s.len() {
            false
        } else if s[j + 1] == '\\' {
            true
        } else {
            osc_closed(s, j + 2)
        }
    } else {
        osc_closed(s, j + 1)
    }
}

/// The escape sequence whose `ESC` is at `i` (a character follows it) ends
/// inside `s`.
pub open spec fn escape_closed(s: Seq<char>, i: int) -> bool {
    if s[i + 1] == '[' {
        csi_closed(s, i + 2)
    } else if s[i + 1] == ']' {
        osc_closed(s, i + 2)
    } else {
        true
    }
}

/// Every escape sequence of `s` from `i` on ends inside `s`, so that text
/// appended to `s` is not taken into one of them.
pub open spec fn escapes_closed(s: Seq<char>, i: int) -> bool
    decreases s.len() - i,
{
    if i < 0 || i >= s.len() {
        true
    } else if s[i] == '\x1b' {
        if i + 1 >= s.len() {
            false
        } else {
            proof {
                lemma_escape_end_bounds(s, i);
            }
            escape_closed(s, i) && escapes_closed(s, escape_end(s, i))
        }
    } else {
        escapes_closed(s, i + 1)
    }
}

/// `s` holds no escape character.
pub open spec fn plain(s: Seq<char>) -> bool {
    forall|k: int| 0 <= k < s.len() ==> s[k] != '\x1b'
}

proof fn lemma_csi_append(a: Seq<char>, b: Seq<char>, j: int)
    requires
        0 <= j,
        csi_closed(a, j),
    ensures
        csi_end(a + b, j) == csi_end(a, j),
        csi_closed(a + b, j),
    decreases a.len() - j,
{
    assert((a + b)[j] == a[j]);
    if !is_csi_final(a[j]) {
        lemma_csi_append(a, b, j + 1);
    }
}

proof fn lemma_osc_append(a: Seq<char>, b: Seq<char>, j: int)
    requires
        0 <= j,
        osc_closed(a, j),
    ensures
        osc_end(a + b, j) == osc_end(a, j),
        osc_closed(a + b, j),
    decreases a.len() - j,
{
    assert((a + b)[j] == a[j]);
    if a[j] == '\x1b' {
        assert((a + b)[j + 1] == a[j + 1]);
        if a[j + 1] != '\\' {
            lemma_osc_append(a, b, j + 2);
        }
    } else if a[j] != '\x07' {
        lemma_osc_append(a, b, j + 1);
    }
}

proof fn lemma_escape_append(a: Seq<char>, b: Seq<char>, i: int)
    requires
        0 <= i,
        i + 1 < a.len(),
        escape_closed(a, i),
    ensures
        escape_end(a + b, i) == escape_end(a, i),
        escape_closed(a + b, i),
{
    assert((a + b)[i + 1] == a[i + 1]);
    if a[i + 1] == '[' {
        lemma_csi_append(a, b, i + 2);
    } else if a[i + 1] == ']' {
        lemma_osc_append(a, b, i + 2);
    }
}

proof fn lemma_csi_shift(a: Seq<char>, b: Seq<char>, j: int)
    requires
        0 <= j,
    ensures
        csi_end(a + b, a.len() + j) == a.len() + csi_end(b, j),
        csi_closed(a + b, a.len() + j) == csi_closed(b, j),
    decreases b.len() - j,
{
    if j < b.len() {
        assert((a + b)[a.len() + j] == b[j]);
        if !is_csi_final(b[j]) {
            lemma_csi_shift(a, b, j + 1);
        }
    }
}

proof fn lemma_osc_shift(a: Seq<char>, b: Seq<char>, j: int)
    requires
        0 <= j,
    ensures
        osc_end(a + b, a.len() + j) == a.len() + osc_end(b, j),
        osc_closed(a + b, a.len() + j) == osc_closed(b, j),
    decreases b.len() - j,
{
    if j < b.len() {
        assert((a + b)[a.len() + j] == b[j]);
        if b[j] == '\x1b' {
            if j + 1 < b.len() {
                assert((a + b)[a.len() + j + 1] == b[j + 1]);
                if b[j + 1] != '\\' {
                    lemma_osc_shift(a, b, j + 2);
                }
            }
        } else if b[j] != '\x07' {
            lemma_osc_shift(a, b, j + 1);
        }
    }
}

proof fn lemma_escape_shift(a: Seq<char>, b: Seq<char>, i: int)
    requires
        0 <= i,
        i + 1 < b.len(),
    ensures
        escape_end(a + b, a.len() + i) == a.len() + escape_end(b, i),
        escape_closed(a + b, a.len() + i) == escape_closed(b, i),
{
    assert((a + b)[a.len() + i + 1] == b[i + 1]);
    lemma_csi_shift(a, b, i + 2);
    lemma_osc_shift(a, b, i + 2);
}

proof fn lemma_visible_shift(a: Seq<char>, b: Seq<char>, k: int)
    requires
        0 <= k,
    ensures
        visible_columns(a + b, a.len() + k) == visible_columns(b, k),
        escapes_closed(a + b, a.len() + k) == escapes_closed(b, k),
    decreases b.len() - k,
{
    if k < b.len() {
        assert((a + b)[a.len() + k] == b[k]);
        if b[k] == '\x1b' {
            if k + 1 < b.len() {
                lemma_escape_shift(a, b, k);
                lemma_escape_end_bounds(b, k);
                lemma_visible_shift(a, b, escape_end(b, k));
            }
        } else {
            lemma_visible_shift(a, b, k + 1);
        }
    }
}

/// Text after a string whose escapes are all closed adds its own columns.
proof fn lemma_visible_append(a: Seq<char>, b: Seq<char>, i: int)
    requires
        0 <= i <= a.len(),
        escapes_closed(a, i),
    ensures
        visible_columns(a + b, i) == visible_columns(a, i) + visible_columns(b, 0),
        escapes_closed(a + b, i) == escapes_closed(b, 0),
    decreases a.len() - i,
{
    if i == a.len() {
        lemma_visible_shift(a, b, 0);
    } else {
        assert((a + b)[i] == a[i]);
        if a[i] == '\x1b' {
            assert((a + b)[i + 1] == a[i + 1]);
            lemma_escape_append(a, b, i);
            lemma_escape_end_bounds(a, i);
            lemma_visible_append(a, b, escape_end(a, i));
        } else {
            lemma_visible_append(a, b, i + 1);
        }
    }
}

proof fn lemma_csi_take_closed(s: Seq<char>, j: int, k: int)
    requires
        0 <= j,
        csi_closed(s, j),
        csi_end(s, j) <= k <= s.len(),
    ensures
        csi_closed(s.take(k), j),
    decreases s.len() - j,
{
    lemma_csi_end_bounds(s, j);
    assert(s.take(k)[j] == s[j]);
    if !is_csi_final(s[j]) {
        lemma_csi_take_closed(s, j + 1, k);
    }
}

proof fn lemma_osc_take_closed(s: Seq<char>, j: int, k: int)
    requires
        0 <= j,
        osc_closed(s, j),
        osc_end(s, j) <= k <= s.len(),
    ensures
        osc_closed(s.take(k), j),
    decreases s.len() - j,
{
    lemma_osc_end_bounds(s, j);
    let t = s.take(k);
    assert(t[j] == s[j]);
    if s[j] == '\x1b' {
        if j + 2 <= s.len() {
            lemma_osc_end_bounds(s, j + 2);
        }
        assert(t[j + 1] == s[j + 1]);
        if s[j + 1] != '\\' {
            lemma_osc_take_closed(s, j + 2, k);
        }
    } else if s[j] != '\x07' {
        lemma_osc_take_closed(s, j + 1, k);
    }
}

proof fn lemma_clip_closed(s: Seq<char>, i: int, used: int, max: int)
    requires
        0 <= i <= s.len(),
        0 <= used <= max,
        escapes_closed(s, i),
    ensures
        escapes_closed(s.take(clip_end(s, i, used, max)), i),
    decreases s.len() - i,
{
    let k = clip_end(s, i, used, max);
    lemma_clip_walk(s, i, used, max);
    let t = s.take(k);
    if i >= s.len() {
    } else if s[i] == '\x1b' {
        lemma_escape_end_bounds(s, i);
        let e = escape_end(s, i);
        lemma_clip_walk(s, e, used, max);
        lemma_clip_closed(s, e, used, max);
        assert(t[i] == s[i]);
        assert(t[i + 1] == s[i + 1]);
        lemma_escape_end_take(s, i, k);
        if s[i + 1] == '[' {
            lemma_csi_take_closed(s, i + 2, k);
        } else if s[i + 1] == ']' {
            lemma_osc_take_closed(s, i + 2, k);
        }
    } else if used + columns(s[i]) > max {
    } else {
        lemma_clip_walk(s, i + 1, used + columns(s[i]), max);
        lemma_clip_closed(s, i + 1, used + columns(s[i]), max);
        assert(t[i] == s[i]);
    }
}

proof fn lemma_clipped_closed(s: Seq<char>, max: int)
    requires
        0 <= max,
        escapes_closed(s, 0),
    ensures
        escapes_closed(clipped(s, max), 0),
{
    if max > 0 {
        lemma_clip_closed(s, 0, 0, max);
    }
}

proof fn lemma_plain_closed(s: Seq<char>, i: int)
    requires
        0 <= i,
        plain(s),
    ensures
        escapes_closed(s, i),
        visible_columns(s, i) >= 0,
    decreases s.len() - i,
{
    if i < s.len() {
        lemma_plain_closed(s, i + 1);
    }
}

proof fn lemma_concat_closed(a: Seq<char>, b: Seq<char>)
    requires
        escapes_closed(a, 0),
        escapes_closed(b, 0),
    ensures
        escapes_closed(a + b, 0),
{
    lemma_visible_append(a, b, 0);
}

} // verus!

verus! {

proof fn lemma_csi_run(s: Seq<char>, j: int)
    requires
        0 <= j < s.len(),
        forall|k: int| j <= k < s.len() - 1 ==> !is_csi_final(#[trigger] s[k]),
        is_csi_final(s[s.len() - 1]),
    ensures
        csi_closed(s, j),
        csi_end(s, j) == s.len(),
    decreases s.len() - j,
{
    if j < s.len() - 1 {
        lemma_csi_run(s, j + 1);
    }
}

/// A complete CSI sequence (`ESC [`, parameters, final character) is closed
/// and takes no columns.
proof fn lemma_csi_piece(p: Seq<char>, f: char)
    requires
        forall|k: int| 0 <= k < p.len() ==> !is_csi_final(#[trigger] p[k]),
        is_csi_final(f),
    ensures
        escapes_closed(seq!['\x1b', '['] + p + seq![f], 0),
        visible_columns(seq!['\x1b', '['] + p + seq![f], 0) == 0,
{
    let s = seq!['\x1b', '['] + p + seq![f];
    assert(s[0] == '\x1b' && s[1] == '[');
    assert(s[s.len() - 1] == f);
    assert forall|k: int| 2 <= k < s.len() - 1 implies !is_csi_final(#[trigger] s[k]) by {
        assert(s[k] == p[k - 2]);
    }
    lemma_csi_run(s, 2);
    assert(escape_end(s, 0) == s.len());
    assert(escape_closed(s, 0));
    assert(escapes_closed(s, s.len() as int));
    assert(visible_columns(s, s.len() as int) == 0);
    assert(escapes_closed(s, 0));
    assert(visible_columns(s, 0) == visible_columns(s, escape_end(s, 0)));
}

proof fn lemma_plain_concat(a: Seq<char>, b: Seq<char>)
    requires
        plain(a),
        plain(b),
    ensures
        plain(a + b),
{
    assert forall|k: int| 0 <= k < (a + b).len() implies (a + b)[k] != '\x1b' by {
        if k < a.len() {
            assert((a + b)[k] == a[k]);
        } else {
            assert((a + b)[k] == b[k - a.len()]);
        }
    }
}

/// The literal pieces the header is built from: complete escape sequences
/// and plain text.
proof fn lemma_header_pieces()
    ensures
        escapes_closed("\x1b[0m"@, 0),
        visible_columns("\x1b[0m"@, 0) == 0,
        escapes_closed("\x1b[90m"@, 0),
        visible_columns("\x1b[90m"@, 0) == 0,
        escapes_closed("\x1b[1;7m "@, 0),
        escapes_closed("\x1b[2m "@, 0),
        escapes_closed(" \x1b[0m"@, 0),
        escapes_closed("\x1b[90m \u{2502} \x1b[0m"@, 0),
{
    reveal_strlit("\x1b[0m");
    reveal_strlit("\x1b[90m");
    reveal_strlit("\x1b[1;7m ");
    reveal_strlit("\x1b[2m ");
    reveal_strlit(" \x1b[0m");
    reveal_strlit("\x1b[90m \u{2502} \x1b[0m");
    let reset = seq!['\x1b', '['] + seq!['0'] + seq!['m'];
    let grey = seq!['\x1b', '['] + seq!['9', '0'] + seq!['m'];
    let bold = seq!['\x1b', '['] + seq!['1', ';', '7'] + seq!['m'];
    let dim = seq!['\x1b', '['] + seq!['2'] + seq!['m'];
    lemma_csi_piece(seq!['0'], 'm');
    lemma_csi_piece(seq!['9', '0'], 'm');
    lemma_csi_piece(seq!['1', ';', '7'], 'm');
    lemma_csi_piece(seq!['2'], 'm');
    assert("\x1b[0m"@ =~= reset);
    assert("\x1b[90m"@ =~= grey);
    let sp = seq![' '];
    let bar = seq![' ', '\u{2502}', ' '];
    lemma_plain_closed(sp, 0);
    lemma_plain_closed(bar, 0);
    lemma_concat_closed(bold, sp);
    assert("\x1b[1;7m "@ =~= bold + sp);
    lemma_concat_closed(dim, sp);
    assert("\x1b[2m "@ =~= dim + sp);
    lemma_concat_closed(sp, reset);
    assert(" \x1b[0m"@ =~= sp + reset);
    lemma_concat_closed(grey, bar);
    lemma_concat_closed(grey + bar, reset);
    assert("\x1b[90m \u{2502} \x1b[0m"@ =~= grey + bar + reset);
}

proof fn lemma_tab_layout_closed(names: Seq<Seq<char>>, active: int, max: int, base_row: int, n: nat)
    requires
        n <= names.len(),
        forall|i: int| 0 <= i < names.len() ==> plain(#[trigger] names[i]),
    ensures
        forall|j: int|
            0 <= j < tab_layout(names, active, max, base_row, n).0.len() ==> escapes_closed(
                #[trigger] tab_layout(names, active, max, base_row, n).0[j],
                0,
            ),
        escapes_closed(tab_layout(names, active, max, base_row, n).1, 0),
    decreases n,
{
    if n > 0 {
        lemma_tab_layout_closed(names, active, max, base_row, (n - 1) as nat);
        lemma_header_pieces();
        let (lines, cur, col, hits) = tab_layout(names, active, max, base_row, (n - 1) as nat);
        let i = n - 1;
        let name = names[i];
        let label_w = unicode_str_width(name) + 2;
        let sep_w = if col > 0 { 3int } else { 0int };
        let wrap = col > 0 && col + sep_w + label_w > max;
        let lines1 = if wrap { lines.push(cur) } else { lines };
        let cur1 = if wrap { Seq::<char>::empty() } else { cur };
        let col1 = if wrap { 0 } else { col };
        let cur2 = if col1 > 0 { cur1 + "\x1b[90m \u{2502} \x1b[0m"@ } else { cur1 };
        let cur3 = cur2 + tab_label(name, i == active);
        assert forall|j: int| 0 <= j < lines1.len() implies escapes_closed(#[trigger] lines1[j], 0) by {
            if j < lines.len() {
                assert(lines1[j] == lines[j]);
            }
        }
        lemma_plain_closed(Seq::<char>::empty(), 0);
        if col1 > 0 {
            lemma_concat_closed(cur1, "\x1b[90m \u{2502} \x1b[0m"@);
        }
        lemma_plain_closed(name, 0);
        let pre = if i == active { "\x1b[1;7m "@ } else { "\x1b[2m "@ };
        lemma_concat_closed(pre, name);
        lemma_concat_closed(pre + name, " \x1b[0m"@);
        assert(tab_label(name, i == active) == pre + name + " \x1b[0m"@);
        lemma_concat_closed(cur2, tab_label(name, i == active));
        assert(tab_layout(names, active, max, base_row, n).0 == lines1);
        assert(tab_layout(names, active, max, base_row, n).1 == cur3);
    }
}

proof fn lemma_status_plain(multi: bool, secs: nat)
    ensures
        plain(status_text(multi, secs)),
{
    reveal_strlit("terminal-use monitor · last change ");
    reveal_strlit(" · ← → or click · Ctrl+C detach");
    reveal_strlit(" · Ctrl+C detach");
    reveal_strlit("s ago");
    reveal_strlit("m ago");
    reveal_strlit("h ago");
    let n = if secs < 60 { secs } else if secs < 3600 { secs / 60 } else { secs / 3600 };
    crate::decimal::lemma_dec_value(n);
    assert(plain(dec(n))) by {
        assert forall|k: int| 0 <= k < dec(n).len() implies dec(n)[k] != '\x1b' by {
            assert(crate::decimal::is_digit_char(dec(n)[k]));
        }
    }
    let unit = if secs < 60 { "s ago"@ } else if secs < 3600 { "m ago"@ } else { "h ago"@ };
    assert(plain(unit));
    lemma_plain_concat(dec(n), unit);
    assert(elapsed_text(secs) == dec(n) + unit);
    let head = "terminal-use monitor · last change "@;
    assert(plain(head));
    lemma_plain_concat(head, elapsed_text(secs));
    let tail = if multi { " · ← → or click · Ctrl+C detach"@ } else { " · Ctrl+C detach"@ };
    assert(plain(tail));
    lemma_plain_concat(head + elapsed_text(secs), tail);
    assert(status_text(multi, secs) == head + elapsed_text(secs) + tail);
}

/// The status bar and every line of the tab bar fit the terminal: none takes
/// more display columns than it is wide, so none wraps onto the rows below
/// (session names are taken to hold no escape character).
pub proof fn law_header_fits_the_width(
    names: Seq<Seq<char>>,
    active: int,
    rows: Seq<Seq<char>>,
    sess_rows: u16,
    sess_cols: u16,
    term_cols: u16,
    term_rows: u16,
    secs: nat,
    cursor: Option<CursorPos>,
    held: bool,
)
    requires
        forall|i: int| 0 <= i < names.len() ==> plain(#[trigger] names[i]),
    ensures
        forall|i: int|
            0 <= i < 1 + frame_tabs(names, active, term_cols).len() ==> visible_columns(
                #[trigger] frame_lines(
                    names,
                    active,
                    rows,
                    sess_rows,
                    sess_cols,
                    term_cols,
                    term_rows,
                    secs,
                    cursor,
                    held,
                )[i],
                0,
            ) <= term_cols,
{
    let lines = frame_lines(names, active, rows, sess_rows, sess_cols, term_cols, term_rows, secs, cursor, held);
    let tabs = frame_tabs(names, active, term_cols);
    let tcols = term_cols as int;
    let multi = names.len() > 1;
    lemma_header_pieces();
    let reset = "\x1b[0m"@;
    let grey = "\x1b[90m"@;
    // The status bar.
    let status = clipped(status_text(multi, secs), tcols);
    lemma_status_plain(multi, secs);
    lemma_plain_closed(status_text(multi, secs), 0);
    lemma_clipped_closed(status_text(multi, secs), tcols);
    law_clip_fits_the_width(status_text(multi, secs), term_cols as nat);
    lemma_visible_append(grey, status, 0);
    lemma_concat_closed(grey, status);
    lemma_visible_append(grey + status, reset, 0);
    // The tab bar.
    if multi {
        let max = if tcols >= 1 { tcols } else { 1 };
        lemma_tab_layout_closed(names, active, max, 2, names.len());
    }
    assert forall|k: int| 0 <= k < tabs.len() implies escapes_closed(#[trigger] tabs[k], 0) by {
        if multi {
            let max = if tcols >= 1 { tcols } else { 1 };
            let (tl, cur, _c, _h) = tab_layout(names, active, max, 2, names.len());
            assert(tabs == tl.push(cur));
            if k < tl.len() {
                assert(tabs[k] == tl[k]);
            }
        }
    }
    assert forall|i: int| 0 <= i < 1 + tabs.len() implies visible_columns(#[trigger] lines[i], 0) <= term_cols by {
        if i == 0 {
            assert(lines[0] == grey + status + reset);
        } else {
            let l = tabs[i - 1];
            assert(lines[i] == clipped(l, tcols) + reset);
            lemma_clipped_closed(l, tcols);
            law_clip_fits_the_width(l, term_cols as nat);
            lemma_visible_append(clipped(l, tcols), reset, 0);
        }
    }
}

} // verus!

verus! {

/// A tab's label as the bar shows it: bold and inverse for the active
/// session, dim for the others.
pub open spec fn styled_label(name: Seq<char>, active: bool) -> Seq<char> {
    (if active { "\x1b[1;7m "@ } else { "\x1b[2m "@ }) + name + " \x1b[0m"@
}

/// `s` occurs in `line` at character `k`.
pub open spec fn occurs_in_at(line: Seq<char>, s: Seq<char>, k: int) -> bool {
    0 <= k && k + s.len() <= line.len() && line.subrange(k, k + s.len()) == s
}

/// `s` occurs somewhere in `line`.
pub open spec fn shows(line: Seq<char>, s: Seq<char>) -> bool {
    exists|k: int| #[trigger] occurs_in_at(line, s, k)
}

proof fn lemma_tab_labels(names: Seq<Seq<char>>, active: int, max: int, base_row: int, n: nat)
    requires
        n <= names.len(),
        widths_fit(names),
        1 <= max <= u16::MAX,
        0 <= base_row,
        base_row + names.len() <= u16::MAX,
    ensures
        ({
            let (lines, cur, _col, hits) = tab_layout(names, active, max, base_row, n);
            forall|i: int|
                0 <= i < n ==> shows(
                    #[trigger] lines.push(cur)[(hits[i].0 - base_row) as int],
                    styled_label(names[i], i == active),
                )
        }),
    decreases n,
{
    lemma_tab_rows(names, active, max, base_row, n);
    if n > 0 {
        lemma_tab_labels(names, active, max, base_row, (n - 1) as nat);
        lemma_tab_rows(names, active, max, base_row, (n - 1) as nat);
        lemma_tab_layout_shape(names, active, max, base_row, (n - 1) as nat);
        let (lines, cur, col, hits) = tab_layout(names, active, max, base_row, (n - 1) as nat);
        let i = n - 1;
        let name = names[i];
        let label_w = unicode_str_width(name) + 2;
        let sep_w = if col > 0 { 3int } else { 0int };
        let wrap = col > 0 && col + sep_w + label_w > max;
        let lines1 = if wrap { lines.push(cur) } else { lines };
        let cur1 = if wrap { Seq::<char>::empty() } else { cur };
        let col1 = if wrap { 0 } else { col };
        let cur2 = if col1 > 0 { cur1 + "\x1b[90m \u{2502} \x1b[0m"@ } else { cur1 };
        let cur3 = cur2 + tab_label(name, i == active);
        let (lines_n, cur_n, _c, hits_n) = tab_layout(names, active, max, base_row, n);
        assert(lines_n == lines1);
        assert(cur_n == cur3);
        let all0 = lines.push(cur);
        let all1 = lines1.push(cur3);
        assert(tab_label(name, i == active) == styled_label(name, i == active));
        assert forall|j: int| 0 <= j < n implies shows(
            #[trigger] all1[(hits_n[j].0 - base_row) as int],
            styled_label(names[j], j == active),
        ) by {
            let lbl = styled_label(names[j], j == active);
            if j == i {
                assert(hits_n[j].0 == base_row + lines1.len());
                assert(all1[(hits_n[j].0 - base_row) as int] == cur3);
                assert(cur3.subrange(cur2.len() as int, (cur2.len() + lbl.len()) as int) =~= lbl);
                assert(occurs_in_at(cur3, lbl, cur2.len() as int));
            } else {
                assert(hits_n[j] == hits[j]);
                let row = (hits[j].0 - base_row) as int;
                let k = choose|k: int| occurs_in_at(all0[row], lbl, k);
                assert(0 <= row <= lines.len());
                if row < lines.len() {
                    assert(all1[row] == all0[row]);
                } else if wrap {
                    assert(all1[row] == cur);
                    assert(all0[row] == cur);
                } else {
                    assert(all0[row] == cur);
                    assert(all1[row] == cur3);
                    assert(cur3.subrange(k, k + lbl.len()) =~= cur.subrange(k, k + lbl.len()));
                }
                assert(occurs_in_at(all1[row], lbl, k));
            }
        }
    }
}

/// The tab bar marks the session on screen: the line each tab sits on shows
/// that session's name in a bold, inverse label when it is the active one
/// and in a dim label otherwise.
pub proof fn law_tab_bar_marks_the_active_session(names: Seq<Seq<char>>, active: int, term_cols: u16, base_row: u16)
    requires
        widths_fit(names),
        base_row + names.len() <= u16::MAX,
    ensures
        ({
            let (lines, hits) = tab_bar(names, active, term_cols as int, base_row as int);
            forall|i: int|
                0 <= i < names.len() ==> {
                    let row = (#[trigger] hits[i]).0 - base_row;
                    &&& 0 <= row < lines.len()
                    &&& shows(lines[row], styled_label(names[i], i == active))
                }
        }),
{
    let max = if term_cols >= 1 { term_cols as int } else { 1 };
    lemma_tab_rows(names, active, max, base_row as int, names.len());
    lemma_tab_labels(names, active, max, base_row as int, names.len());
    let (lines, cur, _c, hits) = tab_layout(names, active, max, base_row as int, names.len());
    assert forall|i: int| 0 <= i < names.len() implies {
        let row = (#[trigger] hits[i]).0 - base_row;
        &&& 0 <= row < lines.push(cur).len()
        &&& shows(lines.push(cur)[row], styled_label(names[i], i == active))
    } by {
        assert(hits[i].0 <= base_row + lines.len());
        assert(hits[i].0 >= base_row) by {
            assert(hits[0].0 <= hits[i].0);
        }
    }
}

} // verus!
