//! Mouse-event encoding for the xterm mouse protocols (SGR 1006, legacy 1000
//! and UTF-8 1005), plus text and regex targeting on the visible screen.
//!
//! Coordinates are 0-based on the public surface; the wire formats are
//! 1-based, so one is added at encode time.

use vstd::prelude::*;

use crate::chars::{
    chars_of, debug_quoted, dec, dec_bytes, push_dec, push_dec_bytes, push_scalar, push_str, quoted, same_chars,
    split_chars, split_on, string_of, to_lowercase, trim, trimmed, unicode_lowercase, views,
};
use crate::protocol::{MouseButton, MouseEncoding, MouseMods, ScrollDir};

verus! {

/// One low-level wire event ready to encode (0-based coordinates).
#[derive(Debug, Clone, Copy, PartialEq, Eq, Structural)]
pub enum WireEvent {
    /// Button press.
    Down { col: u16, row: u16, button: MouseButton, mods: MouseMods },
    /// Button release.
    Up { col: u16, row: u16, button: MouseButton, mods: MouseMods },
    /// Bare move, no button held.
    Move { col: u16, row: u16, mods: MouseMods },
    /// Move while a button is held (drag).
    DragMove { col: u16, row: u16, button: MouseButton, mods: MouseMods },
    /// One wheel notch.
    Scroll { col: u16, row: u16, dir: ScrollDir, mods: MouseMods },
}

/// Why a sequence of mouse events could not be encoded.
#[derive(Debug, Clone, Copy, PartialEq, Eq, Structural)]
pub enum EncodeError {
    /// The legacy encoding tops out at column/row 223 (1-based).
    LegacyOutOfRange { col: u16, row: u16 },
    /// A coordinate is not a Unicode scalar value in the UTF-8 encoding.
    InvalidUtf8Coordinate { cp: u32 },
}

pub open spec fn button_bits(b: MouseButton) -> u32 {
    match b {
        MouseButton::Left => 0,
        MouseButton::Middle => 1,
        MouseButton::Right => 2,
    }
}

/// Shift 4, Alt 8, Ctrl 16.
pub open spec fn mods_bits(m: MouseMods) -> u32 {
    ((if m.shift { 4u32 } else { 0u32 }) + (if m.alt { 8u32 } else { 0u32 }) + (if m.ctrl { 16u32 } else { 0u32 })) as u32
}

pub open spec fn scroll_bits(d: ScrollDir) -> u32 {
    match d {
        ScrollDir::Up => 0,
        ScrollDir::Down => 1,
        ScrollDir::Left => 2,
        ScrollDir::Right => 3,
    }
}

/// The SGR button parameter: low bits for the button (3 for "none"), plus the
/// modifier bits, plus 32 for motion and 64 for the wheel.
pub open spec fn sgr_button(e: WireEvent) -> u32 {
    match e {
        WireEvent::Down { button, mods, .. } => (button_bits(button) + mods_bits(mods)) as u32,
        WireEvent::Up { button, mods, .. } => (button_bits(button) + mods_bits(mods)) as u32,
        WireEvent::Move { mods, .. } => (32 + 3 + mods_bits(mods)) as u32,
        WireEvent::DragMove { button, mods, .. } => (32 + button_bits(button) + mods_bits(mods)) as u32,
        WireEvent::Scroll { dir, mods, .. } => (64 + scroll_bits(dir) + mods_bits(mods)) as u32,
    }
}

/// The cell an event happens at, `(col, row)`.
pub open spec fn event_coords(e: WireEvent) -> (u16, u16) {
    match e {
        WireEvent::Down { col, row, .. } => (col, row),
        WireEvent::Up { col, row, .. } => (col, row),
        WireEvent::Move { col, row, .. } => (col, row),
        WireEvent::DragMove { col, row, .. } => (col, row),
        WireEvent::Scroll { col, row, .. } => (col, row),
    }
}

/// The modifiers of an event.
pub open spec fn event_mods(e: WireEvent) -> MouseMods {
    match e {
        WireEvent::Down { mods, .. } => mods,
        WireEvent::Up { mods, .. } => mods,
        WireEvent::Move { mods, .. } => mods,
        WireEvent::DragMove { mods, .. } => mods,
        WireEvent::Scroll { mods, .. } => mods,
    }
}

/// `CSI < cb ; col+1 ; row+1 M` (press/motion/wheel) or `... m` (release).
pub open spec fn sgr_bytes(e: WireEvent) -> Seq<u8> {
    let (col, row) = event_coords(e);
    seq![27u8, 91u8, 60u8] + dec_bytes(sgr_button(e) as nat) + seq![59u8] + dec_bytes((col + 1) as nat) + seq![59u8]
        + dec_bytes((row + 1) as nat) + seq![if e is Up { 109u8 } else { 77u8 }]
}

/// The button byte of the legacy and UTF-8 encodings: releases become button 3
/// (the protocol cannot tell which button was released), plus modifiers.
pub open spec fn legacy_button(e: WireEvent) -> u32 {
    if e is Up {
        (3 + mods_bits(event_mods(e))) as u32
    } else {
        sgr_button(e)
    }
}

/// Legacy `CSI M Cb Cx Cy`, each parameter one byte of value + 32; cells past
/// column/row 223 (1-based) cannot be represented.
pub open spec fn legacy_bytes(e: WireEvent) -> Result<Seq<u8>, EncodeError> {
    let (col, row) = event_coords(e);
    if col + 1 > 223 || row + 1 > 223 {
        Err(EncodeError::LegacyOutOfRange { col, row })
    } else {
        Ok(seq![27u8, 91u8, 77u8, (legacy_button(e) + 32) as u8, (col + 1 + 32) as u8, (row + 1 + 32) as u8])
    }
}

/// UTF-8 `CSI M Cb Cx Cy`: like legacy, but Cx and Cy are the UTF-8 encodings of
/// the code points value + 32, which must be Unicode scalar values.
pub open spec fn utf8_bytes(e: WireEvent) -> Result<Seq<u8>, EncodeError> {
    let (col, row) = event_coords(e);
    let cx = (col + 1 + 32) as u32;
    let cy = (row + 1 + 32) as u32;
    if !vstd::utf8::is_scalar(cx) {
        Err(EncodeError::InvalidUtf8Coordinate { cp: cx })
    } else if !vstd::utf8::is_scalar(cy) {
        Err(EncodeError::InvalidUtf8Coordinate { cp: cy })
    } else {
        Ok(seq![27u8, 91u8, 77u8, (legacy_button(e) + 32) as u8] + vstd::utf8::encode_scalar(cx)
            + vstd::utf8::encode_scalar(cy))
    }
}

/// The bytes of one event in the given encoding.
pub open spec fn encode_one(e: WireEvent, enc: MouseEncoding) -> Result<Seq<u8>, EncodeError> {
    match enc {
        MouseEncoding::Sgr => Ok(sgr_bytes(e)),
        MouseEncoding::Default => legacy_bytes(e),
        MouseEncoding::Utf8 => utf8_bytes(e),
    }
}

/// The bytes of a sequence of events: the concatenation of each event's bytes,
/// or the error of the first event that cannot be encoded.
pub open spec fn encode_all(es: Seq<WireEvent>, enc: MouseEncoding) -> Result<Seq<u8>, EncodeError>
    decreases es.len(),
{
    if es.len() == 0 {
        Ok(Seq::<u8>::empty())
    } else {
        match encode_all(es.drop_last(), enc) {
            Err(e) => Err(e),
            Ok(prefix) => match encode_one(es.last(), enc) {
                Err(e) => Err(e),
                Ok(b) => Ok(prefix + b),
            },
        }
    }
}

fn button_low_bits(button: MouseButton) -> (r: u32)
    ensures
        r == button_bits(button),
{
    match button {
        MouseButton::Left => 0,
        MouseButton::Middle => 1,
        MouseButton::Right => 2,
    }
}

fn mods_bits_of(mods: MouseMods) -> (r: u32)
    ensures
        r == mods_bits(mods),
        r <= 28,
{
    let mut b: u32 = 0;
    if mods.shift {
        b = b + 4;
    }
    if mods.alt {
        b = b + 8;
    }
    if mods.ctrl {
        b = b + 16;
    }
    b
}

fn scroll_low_bits(dir: ScrollDir) -> (r: u32)
    ensures
        r == scroll_bits(dir),
{
    match dir {
        ScrollDir::Up => 0,
        ScrollDir::Down => 1,
        ScrollDir::Left => 2,
        ScrollDir::Right => 3,
    }
}

fn sgr_button_of(event: &WireEvent) -> (r: u32)
    ensures
        r == sgr_button(*event),
        r <= 95,
{
    match *event {
        WireEvent::Down { button, mods, .. } => button_low_bits(button) + mods_bits_of(mods),
        WireEvent::Up { button, mods, .. } => button_low_bits(button) + mods_bits_of(mods),
        WireEvent::Move { mods, .. } => 32 + 3 + mods_bits_of(mods),
        WireEvent::DragMove { button, mods, .. } => 32 + button_low_bits(button) + mods_bits_of(mods),
        WireEvent::Scroll { dir, mods, .. } => 64 + scroll_low_bits(dir) + mods_bits_of(mods),
    }
}

fn coords(event: &WireEvent) -> (r: (u16, u16))
    ensures
        r == event_coords(*event),
{
    match *event {
        WireEvent::Down { col, row, .. } => (col, row),
        WireEvent::Up { col, row, .. } => (col, row),
        WireEvent::Move { col, row, .. } => (col, row),
        WireEvent::DragMove { col, row, .. } => (col, row),
        WireEvent::Scroll { col, row, .. } => (col, row),
    }
}

fn is_release(event: &WireEvent) -> (r: bool)
    ensures
        r == (*event is Up),
{
    match *event {
        WireEvent::Up { .. } => true,
        _ => false,
    }
}

fn legacy_button_of(event: &WireEvent) -> (r: u32)
    ensures
        r == legacy_button(*event),
        r <= 95,
{
    match *event {
        WireEvent::Up { mods, .. } => 3 + mods_bits_of(mods),
        _ => sgr_button_of(event),
    }
}

fn encode_sgr(event: &WireEvent, out: &mut Vec<u8>)
    ensures
        final(out)@ == old(out)@ + sgr_bytes(*event),
{
    let (col, row) = coords(event);
    let cb = sgr_button_of(event);
    out.push(27u8);
    out.push(91u8);
    out.push(60u8);
    push_dec_bytes(out, cb as u64);
    out.push(59u8);
    push_dec_bytes(out, col as u64 + 1);
    out.push(59u8);
    push_dec_bytes(out, row as u64 + 1);
    out.push(if is_release(event) { 109u8 } else { 77u8 });
    assert(final(out)@ =~= old(out)@ + sgr_bytes(*event));
}

fn encode_default(event: &WireEvent, out: &mut Vec<u8>) -> (r: Result<(), EncodeError>)
    ensures
        match legacy_bytes(*event) {
            Ok(b) => r is Ok && final(out)@ == old(out)@ + b,
            Err(e) => r == Err::<(), EncodeError>(e) && final(out)@ == old(out)@,
        },
{
    let (col, row) = coords(event);
    let cb = legacy_button_of(event);
    let cx = col as u32 + 1;
    let cy = row as u32 + 1;
    if cx > 223 || cy > 223 {
        return Err(EncodeError::LegacyOutOfRange { col, row });
    }
    out.push(27u8);
    out.push(91u8);
    out.push(77u8);
    out.push((cb + 32) as u8);
    out.push((cx + 32) as u8);
    out.push((cy + 32) as u8);
    assert(final(out)@ =~= old(out)@ + legacy_bytes(*event)->Ok_0);
    Ok(())
}

fn encode_utf8(event: &WireEvent, out: &mut Vec<u8>) -> (r: Result<(), EncodeError>)
    ensures
        match utf8_bytes(*event) {
            Ok(b) => r is Ok && final(out)@ == old(out)@ + b,
            Err(e) => r == Err::<(), EncodeError>(e) && final(out)@ == old(out)@,
        },
{
    let (col, row) = coords(event);
    let cb = legacy_button_of(event);
    let cx = col as u32 + 1 + 32;
    let cy = row as u32 + 1 + 32;
    if !is_scalar_value(cx) {
        return Err(EncodeError::InvalidUtf8Coordinate { cp: cx });
    }
    if !is_scalar_value(cy) {
        return Err(EncodeError::InvalidUtf8Coordinate { cp: cy });
    }
    out.push(27u8);
    out.push(91u8);
    out.push(77u8);
    out.push((cb + 32) as u8);
    push_scalar(out, cx);
    push_scalar(out, cy);
    assert(final(out)@ =~= old(out)@ + utf8_bytes(*event)->Ok_0);
    Ok(())
}

/// Whether `v` is a Unicode scalar value (what `char::from_u32` accepts).
fn is_scalar_value(v: u32) -> (r: bool)
    ensures
        r == vstd::utf8::is_scalar(v),
{
    v <= 0xD7FF || (0xE000 <= v && v <= 0x10FFFF)
}

/// Encodes a sequence of events into the bytes to write to the terminal.
/// Fails with the error of the first event the encoding cannot represent.
pub fn encode(events: &[WireEvent], encoding: MouseEncoding) -> (r: Result<Vec<u8>, EncodeError>)
    ensures
        match r {
            Ok(b) => encode_all(events@, encoding) == Ok::<Seq<u8>, EncodeError>(b@),
            Err(e) => encode_all(events@, encoding) == Err::<Seq<u8>, EncodeError>(e),
        },
{
    let mut out: Vec<u8> = Vec::new();
    let mut i: usize = 0;
    assert(events@.take(0) =~= Seq::<WireEvent>::empty());
    while i < events.len()
        invariant
            i <= events@.len(),
            encode_all(events@.take(i as int), encoding) == Ok::<Seq<u8>, EncodeError>(out@),
        decreases events@.len() - i,
    {
        let ev = &events[i];
        assert(events@.take(i + 1).drop_last() =~= events@.take(i as int));
        assert(events@.take(i + 1).last() == *ev);
        match encoding {
            MouseEncoding::Sgr => {
                encode_sgr(ev, &mut out);
            },
            MouseEncoding::Default => {
                if let Err(e) = encode_default(ev, &mut out) {
                    proof {
                        lemma_encode_all_err(events@, encoding, i as int);
                    }
                    return Err(e);
                }
            },
            MouseEncoding::Utf8 => {
                if let Err(e) = encode_utf8(ev, &mut out) {
                    proof {
                        lemma_encode_all_err(events@, encoding, i as int);
                    }
                    return Err(e);
                }
            },
        }
        i = i + 1;
    }
    assert(events@.take(events@.len() as int) =~= events@);
    Ok(out)
}

/// When the prefix up to `i` encodes and event `i` fails, the whole sequence
/// fails with event `i`'s error.
proof fn lemma_encode_all_err(es: Seq<WireEvent>, enc: MouseEncoding, i: int)
    requires
        0 <= i < es.len(),
        encode_all(es.take(i), enc) is Ok,
        encode_one(es[i], enc) is Err,
    ensures
        encode_all(es, enc) == Err::<Seq<u8>, EncodeError>(encode_one(es[i], enc)->Err_0),
    decreases es.len(),
{
    if i == es.len() - 1 {
        assert(es.drop_last() =~= es.take(i));
    } else {
        assert(es.drop_last().take(i) =~= es.take(i));
        assert(es.drop_last()[i] == es[i]);
        lemma_encode_all_err(es.drop_last(), enc, i);
    }
}

} // verus!

verus! {

/// Why a modifier list was rejected; `part` is the offending piece as given.
#[derive(Debug, Clone, PartialEq, Eq)]
pub enum ModsError {
    /// A modifier the xterm mouse protocol cannot carry (Super, Hyper, Cmd, ...).
    NotRepresentable { part: String },
    /// Not a modifier name at all.
    Unknown { part: String },
}

/// Modifier names that exist on keyboards but not in the mouse protocol.
pub open spec fn unrepresentable_modifier(tok: Seq<char>) -> bool {
    tok == seq!['s', 'u', 'p', 'e', 'r'] || tok == seq!['h', 'y', 'p', 'e', 'r'] || tok == seq!['c', 'm', 'd'] || tok == seq!['c', 'o', 'm', 'm', 'a', 'n', 'd'] || tok == seq!['w', 'i', 'n']
}

/// The modifiers after reading one (trimmed, lowercase) token, or `None` when
/// the token is not a modifier name; empty tokens are skipped.
pub open spec fn mods_token(tok: Seq<char>, m: MouseMods) -> Option<MouseMods> {
    if tok.len() == 0 {
        Some(m)
    } else if tok == seq!['s', 'h', 'i', 'f', 't'] {
        Some(MouseMods { shift: true, ..m })
    } else if tok == seq!['c', 't', 'r', 'l'] || tok == seq!['c', 'o', 'n', 't', 'r', 'o', 'l'] {
        Some(MouseMods { ctrl: true, ..m })
    } else if tok == seq!['a', 'l', 't'] || tok == seq!['m', 'e', 't', 'a'] {
        Some(MouseMods { alt: true, ..m })
    } else {
        None
    }
}

/// A comma-separated piece after `trim` and lowercasing.
pub open spec fn mods_piece_token(p: Seq<char>) -> Seq<char> {
    unicode_lowercase(trim(p))
}

/// Reads the pieces left to right: the modifiers named, or the index of the
/// first piece that is not a modifier.
pub open spec fn mods_parse(parts: Seq<Seq<char>>) -> Result<MouseMods, int>
    decreases parts.len(),
{
    if parts.len() == 0 {
        Ok(MouseMods { shift: false, alt: false, ctrl: false })
    } else {
        match mods_parse(parts.drop_last()) {
            Err(i) => Err(i),
            Ok(m) => match mods_token(mods_piece_token(parts.last()), m) {
                None => Err(parts.len() - 1),
                Some(m2) => Ok(m2),
            },
        }
    }
}

/// Parses a comma-separated modifier list such as `"Ctrl,Shift"`
/// (case-insensitive, pieces trimmed, empty pieces ignored).
pub fn parse_mods(s: &str) -> (r: Result<MouseMods, ModsError>)
    ensures
        r matches Ok(m) ==> mods_parse(split_on(s@, ',')) == Ok::<MouseMods, int>(m),
        r matches Err(e) ==> {
            let parts = split_on(s@, ',');
            &&& mods_parse(parts) is Err
            &&& match e {
                ModsError::NotRepresentable { part } => part@ == parts[mods_parse(parts)->Err_0]
                    && unrepresentable_modifier(mods_piece_token(parts[mods_parse(parts)->Err_0])),
                ModsError::Unknown { part } => part@ == parts[mods_parse(parts)->Err_0]
                    && !unrepresentable_modifier(mods_piece_token(parts[mods_parse(parts)->Err_0])),
            }
        },
{
    let sv = chars_of(s);
    let parts = split_chars(&sv, ',');
    let ghost pv = views(parts@);
    let mut mods = MouseMods { shift: false, alt: false, ctrl: false };
    let mut i: usize = 0;
    assert(pv.take(0) =~= Seq::<Seq<char>>::empty());
    while i < parts.len()
        invariant
            pv == views(parts@),
            pv == split_on(s@, ','),
            i <= parts@.len(),
            mods_parse(pv.take(i as int)) == Ok::<MouseMods, int>(mods),
        decreases parts@.len() - i,
    {
        assert(pv.take(i + 1).drop_last() =~= pv.take(i as int));
        assert(pv.take(i + 1).last() == parts@[i as int]@);
        let piece = string_of(&parts[i]);
        let t = trimmed(&parts[i]);
        let tok_s = to_lowercase(string_of(&t).as_str());
        let tok = chars_of(tok_s.as_str());
        assert(tok@ == mods_piece_token(parts@[i as int]@));
        if tok.len() == 0 {
        } else if same_chars(&tok, &['s', 'h', 'i', 'f', 't']) {
            assert(['s', 'h', 'i', 'f', 't']@ =~= seq!['s', 'h', 'i', 'f', 't']);
            mods.shift = true;
        } else if same_chars(&tok, &['c', 't', 'r', 'l']) || same_chars(&tok, &['c', 'o', 'n', 't', 'r', 'o', 'l']) {
            assert(['c', 't', 'r', 'l']@ =~= seq!['c', 't', 'r', 'l']);
            assert(['c', 'o', 'n', 't', 'r', 'o', 'l']@ =~= seq!['c', 'o', 'n', 't', 'r', 'o', 'l']);
            mods.ctrl = true;
        } else if same_chars(&tok, &['a', 'l', 't']) || same_chars(&tok, &['m', 'e', 't', 'a']) {
            assert(['a', 'l', 't']@ =~= seq!['a', 'l', 't']);
            assert(['m', 'e', 't', 'a']@ =~= seq!['m', 'e', 't', 'a']);
            mods.alt = true;
        } else {
            assert(['s', 'h', 'i', 'f', 't']@ =~= seq!['s', 'h', 'i', 'f', 't']);
            assert(['c', 't', 'r', 'l']@ =~= seq!['c', 't', 'r', 'l']);
            assert(['c', 'o', 'n', 't', 'r', 'o', 'l']@ =~= seq!['c', 'o', 'n', 't', 'r', 'o', 'l']);
            assert(['a', 'l', 't']@ =~= seq!['a', 'l', 't']);
            assert(['m', 'e', 't', 'a']@ =~= seq!['m', 'e', 't', 'a']);
            proof {
                lemma_mods_parse_err(pv, i as int);
            }
            if same_chars(&tok, &['s', 'u', 'p', 'e', 'r']) || same_chars(&tok, &['h', 'y', 'p', 'e', 'r']) || same_chars(&tok, &['c', 'm', 'd']) || same_chars(&tok, &['c', 'o', 'm', 'm', 'a', 'n', 'd']) || same_chars(&tok, &['w', 'i', 'n']) {
                assert(['s', 'u', 'p', 'e', 'r']@ =~= seq!['s', 'u', 'p', 'e', 'r']);
                assert(['h', 'y', 'p', 'e', 'r']@ =~= seq!['h', 'y', 'p', 'e', 'r']);
                assert(['c', 'm', 'd']@ =~= seq!['c', 'm', 'd']);
                assert(['c', 'o', 'm', 'm', 'a', 'n', 'd']@ =~= seq!['c', 'o', 'm', 'm', 'a', 'n', 'd']);
                assert(['w', 'i', 'n']@ =~= seq!['w', 'i', 'n']);
                return Err(ModsError::NotRepresentable { part: piece });
            }
            assert(['s', 'u', 'p', 'e', 'r']@ =~= seq!['s', 'u', 'p', 'e', 'r']);
            assert(['h', 'y', 'p', 'e', 'r']@ =~= seq!['h', 'y', 'p', 'e', 'r']);
            assert(['c', 'm', 'd']@ =~= seq!['c', 'm', 'd']);
            assert(['c', 'o', 'm', 'm', 'a', 'n', 'd']@ =~= seq!['c', 'o', 'm', 'm', 'a', 'n', 'd']);
            assert(['w', 'i', 'n']@ =~= seq!['w', 'i', 'n']);
            return Err(ModsError::Unknown { part: piece });
        }
        i = i + 1;
    }
    assert(pv.take(parts@.len() as int) =~= pv);
    Ok(mods)
}

proof fn lemma_mods_parse_err(parts: Seq<Seq<char>>, i: int)
    requires
        0 <= i < parts.len(),
        mods_parse(parts.take(i)) is Ok,
        mods_token(mods_piece_token(parts[i]), mods_parse(parts.take(i))->Ok_0) is None,
    ensures
        mods_parse(parts) == Err::<MouseMods, int>(i),
    decreases parts.len(),
{
    if i == parts.len() - 1 {
        assert(parts.drop_last() =~= parts.take(i));
    } else {
        assert(parts.drop_last().take(i) =~= parts.take(i));
        assert(parts.drop_last()[i] == parts[i]);
        lemma_mods_parse_err(parts.drop_last(), i);
    }
}

/// The MouseButton a lowercase word names.
pub open spec fn button_named(lower: Seq<char>) -> Option<MouseButton> {
    if lower == seq!['l', 'e', 'f', 't'] || lower == seq!['l'] {
        Some(MouseButton::Left)
    } else if lower == seq!['r', 'i', 'g', 'h', 't'] || lower == seq!['r'] {
        Some(MouseButton::Right)
    } else if lower == seq!['m', 'i', 'd', 'd', 'l', 'e'] || lower == seq!['m'] {
        Some(MouseButton::Middle)
    } else {
        None
    }
}

/// Parses a MouseButton name (case-insensitive); the error is the message shown to the user.
pub fn parse_button(s: &str) -> (r: Result<MouseButton, String>)
    ensures
        r matches Ok(b) ==> button_named(unicode_lowercase(s@)) == Some(b),
        r matches Err(msg) ==> button_named(unicode_lowercase(s@)) is None
            && msg@ == "invalid --button "@ + debug_quoted(s@) + ". Use left|right|middle"@,
{
    let lower_s = to_lowercase(s);
    let lower = chars_of(lower_s.as_str());
    if same_chars(&lower, &['l', 'e', 'f', 't']) || same_chars(&lower, &['l']) {
        assert(['l', 'e', 'f', 't']@ =~= seq!['l', 'e', 'f', 't']);
        assert(['l']@ =~= seq!['l']);
        return Ok(MouseButton::Left);
    }
    if same_chars(&lower, &['r', 'i', 'g', 'h', 't']) || same_chars(&lower, &['r']) {
        assert(['r', 'i', 'g', 'h', 't']@ =~= seq!['r', 'i', 'g', 'h', 't']);
        assert(['r']@ =~= seq!['r']);
        return Ok(MouseButton::Right);
    }
    if same_chars(&lower, &['m', 'i', 'd', 'd', 'l', 'e']) || same_chars(&lower, &['m']) {
        assert(['m', 'i', 'd', 'd', 'l', 'e']@ =~= seq!['m', 'i', 'd', 'd', 'l', 'e']);
        assert(['m']@ =~= seq!['m']);
        return Ok(MouseButton::Middle);
    }
    assert(['l', 'e', 'f', 't']@ =~= seq!['l', 'e', 'f', 't']);
    assert(['l']@ =~= seq!['l']);
    assert(['r', 'i', 'g', 'h', 't']@ =~= seq!['r', 'i', 'g', 'h', 't']);
    assert(['r']@ =~= seq!['r']);
    assert(['m', 'i', 'd', 'd', 'l', 'e']@ =~= seq!['m', 'i', 'd', 'd', 'l', 'e']);
    assert(['m']@ =~= seq!['m']);
    let mut msg: Vec<char> = Vec::new();
    push_str(&mut msg, "invalid --button ");
    push_str(&mut msg, quoted(s).as_str());
    push_str(&mut msg, ". Use left|right|middle");
    Err(string_of(&msg))
}

/// The ScrollDir a lowercase word names.
pub open spec fn scroll_dir_named(lower: Seq<char>) -> Option<ScrollDir> {
    if lower == seq!['u', 'p'] || lower == seq!['u'] {
        Some(ScrollDir::Up)
    } else if lower == seq!['d', 'o', 'w', 'n'] || lower == seq!['d'] {
        Some(ScrollDir::Down)
    } else if lower == seq!['l', 'e', 'f', 't'] || lower == seq!['l'] {
        Some(ScrollDir::Left)
    } else if lower == seq!['r', 'i', 'g', 'h', 't'] || lower == seq!['r'] {
        Some(ScrollDir::Right)
    } else {
        None
    }
}

/// Parses a ScrollDir name (case-insensitive); the error is the message shown to the user.
pub fn parse_scroll_dir(s: &str) -> (r: Result<ScrollDir, String>)
    ensures
        r matches Ok(b) ==> scroll_dir_named(unicode_lowercase(s@)) == Some(b),
        r matches Err(msg) ==> scroll_dir_named(unicode_lowercase(s@)) is None
            && msg@ == "invalid scroll direction "@ + debug_quoted(s@) + ". Use up|down|left|right"@,
{
    let lower_s = to_lowercase(s);
    let lower = chars_of(lower_s.as_str());
    if same_chars(&lower, &['u', 'p']) || same_chars(&lower, &['u']) {
        assert(['u', 'p']@ =~= seq!['u', 'p']);
        assert(['u']@ =~= seq!['u']);
        return Ok(ScrollDir::Up);
    }
    if same_chars(&lower, &['d', 'o', 'w', 'n']) || same_chars(&lower, &['d']) {
        assert(['d', 'o', 'w', 'n']@ =~= seq!['d', 'o', 'w', 'n']);
        assert(['d']@ =~= seq!['d']);
        return Ok(ScrollDir::Down);
    }
    if same_chars(&lower, &['l', 'e', 'f', 't']) || same_chars(&lower, &['l']) {
        assert(['l', 'e', 'f', 't']@ =~= seq!['l', 'e', 'f', 't']);
        assert(['l']@ =~= seq!['l']);
        return Ok(ScrollDir::Left);
    }
    if same_chars(&lower, &['r', 'i', 'g', 'h', 't']) || same_chars(&lower, &['r']) {
        assert(['r', 'i', 'g', 'h', 't']@ =~= seq!['r', 'i', 'g', 'h', 't']);
        assert(['r']@ =~= seq!['r']);
        return Ok(ScrollDir::Right);
    }
    assert(['u', 'p']@ =~= seq!['u', 'p']);
    assert(['u']@ =~= seq!['u']);
    assert(['d', 'o', 'w', 'n']@ =~= seq!['d', 'o', 'w', 'n']);
    assert(['d']@ =~= seq!['d']);
    assert(['l', 'e', 'f', 't']@ =~= seq!['l', 'e', 'f', 't']);
    assert(['l']@ =~= seq!['l']);
    assert(['r', 'i', 'g', 'h', 't']@ =~= seq!['r', 'i', 'g', 'h', 't']);
    assert(['r']@ =~= seq!['r']);
    let mut msg: Vec<char> = Vec::new();
    push_str(&mut msg, "invalid scroll direction ");
    push_str(&mut msg, quoted(s).as_str());
    push_str(&mut msg, ". Use up|down|left|right");
    Err(string_of(&msg))
}

} // verus!

verus! {

/// One match found on the visible screen (0-based cells, `col_end` exclusive).
#[derive(Debug, Clone, Copy, PartialEq, Eq, Structural)]
pub struct ScreenMatch {
    pub row: u16,
    pub col_start: u16,
    pub col_end: u16,
}

impl ScreenMatch {
    /// The middle cell of the match, `(col, row)`; for an even width the
    /// right-hand one of the two middle cells.
    pub fn center(self) -> (r: (u16, u16))
        ensures
            r == (self.center_col(), self.row),
    {
        let len = if self.col_end > self.col_start { self.col_end - self.col_start } else { 0 };
        let mid = self.col_start + len / 2;
        (mid, self.row)
    }

    pub open spec fn center_col(self) -> u16 {
        if self.col_end > self.col_start {
            (self.col_start + (self.col_end - self.col_start) / 2) as u16
        } else {
            self.col_start
        }
    }
}

/// Whether `needle` occurs in `line` starting at character `p`.
pub open spec fn occurs_at(line: Seq<char>, needle: Seq<char>, p: int) -> bool {
    0 <= p && p + needle.len() <= line.len() && line.subrange(p, p + needle.len()) == needle
}

/// The match record for an occurrence of `len` characters at `p` in row `r`.
pub open spec fn match_at(r: int, p: int, len: int) -> ScreenMatch {
    ScreenMatch { row: r as u16, col_start: p as u16, col_end: (p + len) as u16 }
}

/// The match records of the occurrences in row `r` found scanning from `from`.
pub open spec fn row_matches(r: int, line: Seq<char>, needle: Seq<char>, from: int) -> Seq<ScreenMatch>
    decreases line.len() - from,
{
    if needle.len() == 0 || from < 0 || from + needle.len() > line.len() {
        Seq::<ScreenMatch>::empty()
    } else if occurs_at(line, needle, from) {
        seq![match_at(r, from, needle.len() as int)].add(row_matches(r, line, needle, from + needle.len()))
    } else {
        row_matches(r, line, needle, from + 1)
    }
}

/// Matches of `needle` on rows `0..rows.len()`, row by row, left to right.
pub open spec fn text_matches(rows: Seq<Seq<char>>, needle: Seq<char>) -> Seq<ScreenMatch>
    decreases rows.len(),
{
    if rows.len() == 0 {
        Seq::<ScreenMatch>::empty()
    } else {
        text_matches(rows.drop_last(), needle) + row_matches(rows.len() - 1, rows.last(), needle, 0)
    }
}

/// The views of a list of strings.
pub open spec fn string_views(v: Seq<String>) -> Seq<Seq<char>> {
    v.map_values(|s: String| s@)
}

/// Whether `needle` occurs in `line` at `p`.
fn occurs_at_exec(line: &Vec<char>, needle: &Vec<char>, p: usize) -> (r: bool)
    requires
        p + needle@.len() <= line@.len(),
    ensures
        r == occurs_at(line@, needle@, p as int),
{
    let mut j: usize = 0;
    let lim = line.len();
    while j < needle.len()
        invariant
            lim == line@.len(),
            p + needle@.len() <= line@.len(),
            j <= needle@.len(),
            forall|k: int| 0 <= k < j ==> line@[p + k] == needle@[k],
        decreases needle@.len() - j,
    {
        if line[p + j] != needle[j] {
            assert(line@.subrange(p as int, p + needle@.len())[j as int] != needle@[j as int]);
            return false;
        }
        j = j + 1;
    }
    assert(line@.subrange(p as int, p + needle@.len()) =~= needle@);
    true
}

/// Finds every line-confined occurrence of `needle` on the screen; one
/// string per visible row. Overlapping occurrences are not reported (the
/// scan resumes after each match); an empty needle matches nothing.
pub fn find_text(screen_rows: &[String], needle: &str) -> (r: Vec<ScreenMatch>)
    ensures
        r@ == text_matches(string_views(screen_rows@), needle@),
{
    let nv = chars_of(needle);
    let ghost rows = string_views(screen_rows@);
    let mut out: Vec<ScreenMatch> = Vec::new();
    let mut row: usize = 0;
    assert(rows.take(0) =~= Seq::<Seq<char>>::empty());
    while row < screen_rows.len()
        invariant
            rows == string_views(screen_rows@),
            nv@ == needle@,
            row <= rows.len(),
            out@ == text_matches(rows.take(row as int), needle@),
        decreases rows.len() - row,
    {
        let line = chars_of(screen_rows[row].as_str());
        let ghost before = out@;
        let mut p: usize = 0;
        let ll = line.len();
        let nl = nv.len();
        while nl > 0 && p <= ll && nl <= ll - p
            invariant
                ll == line@.len(),
                nl == nv@.len(),
                row < rows.len(),
                nv@ == needle@,
                line@ == rows[row as int],
                p <= line@.len(),
                before + row_matches(row as int, line@, nv@, 0) == out@ + row_matches(row as int, line@, nv@, p as int),
            decreases line@.len() - p,
        {
            if occurs_at_exec(&line, &nv, p) {
                let ghost rest = row_matches(row as int, line@, nv@, (p + nv@.len()) as int);
                let m = ScreenMatch { row: row as u16, col_start: p as u16, col_end: (p + nl) as u16 };
                assert(row_matches(row as int, line@, nv@, p as int) == seq![m].add(rest));
                let ghost out_before = out@;
                out.push(m);
                assert(out_before + seq![m].add(rest) =~= out@ + rest);
                p = p + nl;
            } else {
                assert(row_matches(row as int, line@, nv@, p as int) == row_matches(row as int, line@, nv@, p + 1));
                p = p + 1;
            }
        }
        assert(row_matches(row as int, line@, nv@, p as int) =~= Seq::<ScreenMatch>::empty());
        assert(rows.take(row + 1).drop_last() =~= rows.take(row as int));
        assert(rows.take(row + 1).last() == line@);
        row = row + 1;
    }
    assert(rows.take(rows.len() as int) =~= rows);
    out
}

/// A screen of at most `u16` rows and columns, so that cells have
/// coordinates.
pub open spec fn addressable(rows: Seq<Seq<char>>) -> bool {
    &&& rows.len() <= u16::MAX
    &&& forall|r: int| 0 <= r < rows.len() ==> #[trigger] rows[r].len() <= u16::MAX
}

/// `m` marks an occurrence of `needle` on `rows`: on an existing row, at the
/// match's first column, and spanning the needle's length; its center cell
/// lies inside it.
pub open spec fn marks_occurrence(rows: Seq<Seq<char>>, needle: Seq<char>, m: ScreenMatch) -> bool {
    &&& m.row < rows.len()
    &&& occurs_at(rows[m.row as int], needle, m.col_start as int)
    &&& m.col_end == m.col_start + needle.len()
    &&& m.col_start <= m.center_col() < m.col_end
}

proof fn lemma_row_matches_occur(r: int, line: Seq<char>, needle: Seq<char>, from: int)
    requires
        0 <= r <= u16::MAX,
        line.len() <= u16::MAX,
    ensures
        forall|i: int| 0 <= i < row_matches(r, line, needle, from).len() ==> {
            let m = #[trigger] row_matches(r, line, needle, from)[i];
            &&& m.row == r
            &&& from <= m.col_start
            &&& occurs_at(line, needle, m.col_start as int)
            &&& m.col_end == m.col_start + needle.len()
            &&& needle.len() > 0
        },
    decreases line.len() - from,
{
    if needle.len() == 0 || from < 0 || from + needle.len() > line.len() {
    } else if occurs_at(line, needle, from) {
        lemma_row_matches_occur(r, line, needle, from + needle.len());
        let rest = row_matches(r, line, needle, from + needle.len());
        assert forall|i: int| 0 <= i < row_matches(r, line, needle, from).len() implies {
            let m = #[trigger] row_matches(r, line, needle, from)[i];
            &&& m.row == r
            &&& from <= m.col_start
            &&& occurs_at(line, needle, m.col_start as int)
            &&& m.col_end == m.col_start + needle.len()
            &&& needle.len() > 0
        } by {
            if i > 0 {
                assert(row_matches(r, line, needle, from)[i] == rest[i - 1]);
            } else {
                let m = match_at(r, from, needle.len() as int);
                assert(row_matches(r, line, needle, from)[0] == m);
                assert(m.col_start as int == from);
                assert(m.col_end as int == from + needle.len());
            }
        }
    } else {
        lemma_row_matches_occur(r, line, needle, from + 1);
        assert(row_matches(r, line, needle, from) == row_matches(r, line, needle, from + 1));
    }
}

/// Every match that text targeting finds is an occurrence of the text on its
/// row, and the cell a click aims at (the match's center) lies within it.
pub proof fn law_text_matches_are_occurrences(rows: Seq<Seq<char>>, needle: Seq<char>)
    requires
        addressable(rows),
    ensures
        forall|i: int| 0 <= i < text_matches(rows, needle).len() ==> marks_occurrence(
            rows,
            needle,
            #[trigger] text_matches(rows, needle)[i],
        ),
    decreases rows.len(),
{
    if rows.len() > 0 {
        let front = rows.drop_last();
        assert(addressable(front)) by {
            assert forall|r: int| 0 <= r < front.len() implies #[trigger] front[r].len() <= u16::MAX by {
                assert(front[r] == rows[r]);
            }
        }
        law_text_matches_are_occurrences(front, needle);
        let last = rows.len() - 1;
        assert(rows[last].len() <= u16::MAX);
        lemma_row_matches_occur(last, rows.last(), needle, 0);
        let a = text_matches(front, needle);
        let b = row_matches(last, rows.last(), needle, 0);
        assert forall|i: int| 0 <= i < text_matches(rows, needle).len() implies marks_occurrence(
            rows,
            needle,
            #[trigger] text_matches(rows, needle)[i],
        ) by {
            if i < a.len() {
                let m = a[i];
                assert(text_matches(rows, needle)[i] == m);
                assert(marks_occurrence(front, needle, m));
                assert(rows[m.row as int] == front[m.row as int]);
            } else {
                let m = b[i - a.len()];
                assert(text_matches(rows, needle)[i] == m);
                assert(occurs_at(rows.last(), needle, m.col_start as int));
            }
        }
    }
}

} // verus!

verus! {

/// Number of bytes in the UTF-8 encoding of `c`.
pub open spec fn utf8_len(c: char) -> int {
    vstd::utf8::encode_scalar(c as u32).len() as int
}

/// Number of characters of `line` whose encoding starts before byte `b`
/// (for a byte offset on a character boundary: the characters before it).
pub open spec fn chars_before_byte(line: Seq<char>, b: int) -> int
    decreases line.len(),
{
    if line.len() == 0 || b <= 0 {
        0
    } else {
        1 + chars_before_byte(line.drop_first(), b - utf8_len(line[0]))
    }
}

/// Match records for byte spans of row `r`.
pub open spec fn span_matches(r: int, line: Seq<char>, spans: Seq<(usize, usize)>) -> Seq<ScreenMatch>
    decreases spans.len(),
{
    if spans.len() == 0 {
        Seq::<ScreenMatch>::empty()
    } else {
        span_matches(r, line, spans.drop_last()).push(
            ScreenMatch {
                row: r as u16,
                col_start: chars_before_byte(line, spans.last().0 as int) as u16,
                col_end: chars_before_byte(line, spans.last().1 as int) as u16,
            },
        )
    }
}

/// Regex matches of `pattern` on rows `0..rows.len()`, row by row.
pub open spec fn regex_matches(rows: Seq<Seq<char>>, pattern: Seq<char>) -> Seq<ScreenMatch>
    decreases rows.len(),
{
    if rows.len() == 0 {
        Seq::<ScreenMatch>::empty()
    } else {
        regex_matches(rows.drop_last(), pattern) + span_matches(
            rows.len() - 1,
            rows.last(),
            crate::pattern::regex_match_spans(pattern, rows.last()),
        )
    }
}

/// A pattern the regex engine rejected.
#[derive(Debug, Clone, PartialEq, Eq)]
pub struct InvalidPattern {
    pub pattern: String,
    /// The engine's explanation.
    pub reason: String,
}

fn utf8_len_of(c: char) -> (r: usize)
    ensures
        r == utf8_len(c),
        1 <= r <= 4,
{
    let v = c as u32;
    proof {
        vstd::utf8::char_is_scalar(c);
    }
    if v <= 0x7F {
        1
    } else if v <= 0x7FF {
        2
    } else if v <= 0xFFFF {
        3
    } else {
        4
    }
}

/// The characters of `line` starting before byte `b`.
fn chars_before(line: &Vec<char>, b: usize) -> (r: usize)
    ensures
        r == chars_before_byte(line@, b as int),
{
    let mut remaining: usize = b;
    let mut i: usize = 0;
    assert(line@.skip(0) =~= line@);
    while i < line.len() && remaining > 0
        invariant
            i <= line@.len(),
            chars_before_byte(line@, b as int) == i + chars_before_byte(line@.skip(i as int), remaining as int),
        decreases line@.len() - i,
    {
        let w = utf8_len_of(line[i]);
        assert(line@.skip(i as int).drop_first() =~= line@.skip(i + 1));
        assert(line@.skip(i as int)[0] == line@[i as int]);
        if remaining <= w {
            assert(chars_before_byte(line@.skip(i + 1), remaining - w) == 0);
            i = i + 1;
            assert(chars_before_byte(line@, b as int) == i);
            return i;
        }
        remaining = remaining - w;
        i = i + 1;
    }
    i
}

/// Finds every match of the regular expression `pattern` on the screen, row
/// by row; columns count characters.
pub fn find_regex(screen_rows: &[String], pattern: &str) -> (r: Result<Vec<ScreenMatch>, InvalidPattern>)
    ensures
        match r {
            Ok(ms) => crate::pattern::regex_compiles(pattern@) && ms@ == regex_matches(
                string_views(screen_rows@),
                pattern@,
            ),
            Err(e) => !crate::pattern::regex_compiles(pattern@) && e.pattern@ == pattern@ && e.reason@
                == crate::pattern::regex_rejection(pattern@),
        },
{
    let re = match crate::pattern::compile_pattern(pattern) {
        Ok(re) => re,
        Err(e) => {
            return Err(InvalidPattern { pattern: pattern.to_owned(), reason: e });
        },
    };
    let ghost rows = string_views(screen_rows@);
    let mut out: Vec<ScreenMatch> = Vec::new();
    let mut row: usize = 0;
    assert(rows.take(0) =~= Seq::<Seq<char>>::empty());
    while row < screen_rows.len()
        invariant
            rows == string_views(screen_rows@),
            re.source() == pattern@,
            row <= rows.len(),
            out@ == regex_matches(rows.take(row as int), pattern@),
        decreases rows.len() - row,
    {
        let line_s = screen_rows[row].as_str();
        let line = chars_of(line_s);
        let spans = crate::pattern::match_spans(&re, line_s);
        let ghost before = out@;
        let mut k: usize = 0;
        assert(spans@.take(0) =~= Seq::<(usize, usize)>::empty());
        while k < spans.len()
            invariant
                line@ == rows[row as int],
                row < rows.len(),
                k <= spans@.len(),
                out@ == before + span_matches(row as int, line@, spans@.take(k as int)),
            decreases spans@.len() - k,
        {
            let (s, e) = spans[k];
            let cs = chars_before(&line, s);
            let ce = chars_before(&line, e);
            out.push(ScreenMatch { row: row as u16, col_start: cs as u16, col_end: ce as u16 });
            assert(spans@.take(k + 1).drop_last() =~= spans@.take(k as int));
            assert(spans@.take(k + 1).last() == spans@[k as int]);
            k = k + 1;
            assert(out@ =~= before + span_matches(row as int, line@, spans@.take(k as int)));
        }
        assert(spans@.take(spans@.len() as int) =~= spans@);
        assert(rows.take(row + 1).drop_last() =~= rows.take(row as int));
        assert(rows.take(row + 1).last() == line@);
        row = row + 1;
    }
    assert(rows.take(rows.len() as int) =~= rows);
    Ok(out)
}

} // verus!

verus! {

/// The text of an encoding error.
pub open spec fn encode_error_text(e: EncodeError) -> Seq<char> {
    match e {
        EncodeError::LegacyOutOfRange { col, row } => "legacy mouse encoding cannot represent col="@ + dec(col as nat)
            + " row="@ + dec(row as nat) + " (max 223). The inner app should enable SGR (DECSET 1006)."@,
        EncodeError::InvalidUtf8Coordinate { cp } => "invalid utf-8 mouse coordinate "@ + dec(cp as nat),
    }
}

impl EncodeError {
    /// The message shown to the user.
    pub fn message(&self) -> (r: String)
        ensures
            r@ == encode_error_text(*self),
    {
        let mut out: Vec<char> = Vec::new();
        match *self {
            EncodeError::LegacyOutOfRange { col, row } => {
                push_str(&mut out, "legacy mouse encoding cannot represent col=");
                push_dec(&mut out, col as u64);
                push_str(&mut out, " row=");
                push_dec(&mut out, row as u64);
                push_str(&mut out, " (max 223). The inner app should enable SGR (DECSET 1006).");
            },
            EncodeError::InvalidUtf8Coordinate { cp } => {
                push_str(&mut out, "invalid utf-8 mouse coordinate ");
                push_dec(&mut out, cp as u64);
            },
        }
        string_of(&out)
    }
}

} // verus!

verus! {

impl ModsError {
    /// The message shown to the user.
    pub fn message(&self) -> (r: String)
        ensures
            match *self {
                ModsError::NotRepresentable { part } => r@ == "modifier "@ + debug_quoted(part@)
                    + " is not representable in the xterm mouse protocol (only Ctrl, Shift, Alt are supported)"@,
                ModsError::Unknown { part } => r@ == "unknown modifier "@ + debug_quoted(part@)
                    + ". Valid: Ctrl, Shift, Alt"@,
            },
    {
        let mut m: Vec<char> = Vec::new();
        match self {
            ModsError::NotRepresentable { part } => {
                push_str(&mut m, "modifier ");
                push_str(&mut m, quoted(part.as_str()).as_str());
                push_str(&mut m, " is not representable in the xterm mouse protocol (only Ctrl, Shift, Alt are supported)");
            },
            ModsError::Unknown { part } => {
                push_str(&mut m, "unknown modifier ");
                push_str(&mut m, quoted(part.as_str()).as_str());
                push_str(&mut m, ". Valid: Ctrl, Shift, Alt");
            },
        }
        string_of(&m)
    }
}

impl InvalidPattern {
    /// The message shown to the user.
    pub fn message(&self) -> (r: String)
        ensures
            r@ == "invalid regex "@ + debug_quoted(self.pattern@) + ": "@ + self.reason@,
    {
        let mut m: Vec<char> = Vec::new();
        push_str(&mut m, "invalid regex ");
        push_str(&mut m, quoted(self.pattern.as_str()).as_str());
        push_str(&mut m, ": ");
        push_str(&mut m, self.reason.as_str());
        string_of(&m)
    }
}

} // verus!

verus! {

/// `e` with its modifiers replaced by `m`.
pub open spec fn with_mods(e: WireEvent, m: MouseMods) -> WireEvent {
    match e {
        WireEvent::Down { col, row, button, .. } => WireEvent::Down { col, row, button, mods: m },
        WireEvent::Up { col, row, button, .. } => WireEvent::Up { col, row, button, mods: m },
        WireEvent::Move { col, row, .. } => WireEvent::Move { col, row, mods: m },
        WireEvent::DragMove { col, row, button, .. } => WireEvent::DragMove { col, row, button, mods: m },
        WireEvent::Scroll { col, row, dir, .. } => WireEvent::Scroll { col, row, dir, mods: m },
    }
}

/// Both encodings fail alike, or both succeed with the same bytes but for
/// the button byte (the fourth), which is `w` higher in the second.
pub open spec fn button_byte_bumped(a: Result<Seq<u8>, EncodeError>, b: Result<Seq<u8>, EncodeError>, w: nat) -> bool {
    match (a, b) {
        (Ok(x), Ok(y)) => x.len() == y.len() && x.len() > 3 && x[3] + w == y[3] && forall|k: int|
            0 <= k < x.len() && k != 3 ==> x[k] == y[k],
        (Err(x), Err(y)) => x == y,
        _ => false,
    }
}

/// Modifier keys: each held modifier adds its weight to the button
/// parameter of every encoding, Shift 4, Alt 8 and Ctrl 16, and nothing else
/// changes. In SGR the event with modifiers `m` reads `CSI < p+w ; ...` where
/// the same event without modifiers reads `CSI < p ; ...`; in the legacy and
/// UTF-8 encodings the button byte goes up by `w`.
pub proof fn law_modifiers_add_their_weight(e: WireEvent, m: MouseMods)
    ensures
        ({
            let plain = with_mods(e, MouseMods { shift: false, alt: false, ctrl: false });
            let held = with_mods(e, m);
            let w: nat = (if m.shift { 4nat } else { 0nat }) + (if m.alt { 8nat } else { 0nat }) + (if m.ctrl {
                16nat
            } else {
                0nat
            });
            &&& exists|p: nat, rest: Seq<u8>|
                encode_one(plain, MouseEncoding::Sgr) == Ok::<Seq<u8>, EncodeError>(
                    seq![27u8, 91u8, 60u8] + dec_bytes(p) + rest,
                ) && encode_one(held, MouseEncoding::Sgr) == Ok::<Seq<u8>, EncodeError>(
                    seq![27u8, 91u8, 60u8] + dec_bytes(p + w) + rest,
                )
            &&& button_byte_bumped(encode_one(plain, MouseEncoding::Default), encode_one(held, MouseEncoding::Default), w)
            &&& button_byte_bumped(encode_one(plain, MouseEncoding::Utf8), encode_one(held, MouseEncoding::Utf8), w)
        }),
{
    lemma_mods_weight(m);
    lemma_sgr_weight(e, m);
    lemma_legacy_weight(e, m);
    lemma_utf8_weight(e, m);
}

proof fn lemma_mods_weight(m: MouseMods)
    ensures
        mods_bits(m) as nat == (if m.shift { 4nat } else { 0nat }) + (if m.alt { 8nat } else { 0nat }) + (if m.ctrl {
            16nat
        } else {
            0nat
        }),
{
}

proof fn lemma_button_weight(e: WireEvent, m: MouseMods)
    ensures
        ({
            let plain = with_mods(e, MouseMods { shift: false, alt: false, ctrl: false });
            let held = with_mods(e, m);
            &&& event_coords(plain) == event_coords(e)
            &&& event_coords(held) == event_coords(e)
            &&& (plain is Up) == (e is Up)
            &&& (held is Up) == (e is Up)
            &&& sgr_button(held) == sgr_button(plain) + mods_bits(m)
            &&& legacy_button(held) == legacy_button(plain) + mods_bits(m)
            &&& legacy_button(plain) <= 67
            &&& mods_bits(m) <= 28
        }),
{
}

proof fn lemma_sgr_weight(e: WireEvent, m: MouseMods)
    ensures
        ({
            let plain = with_mods(e, MouseMods { shift: false, alt: false, ctrl: false });
            let held = with_mods(e, m);
            let p = sgr_button(plain) as nat;
            let rest = seq![59u8] + dec_bytes((event_coords(e).0 + 1) as nat) + seq![59u8] + dec_bytes(
                (event_coords(e).1 + 1) as nat,
            ) + seq![if e is Up { 109u8 } else { 77u8 }];
            &&& encode_one(plain, MouseEncoding::Sgr) == Ok::<Seq<u8>, EncodeError>(
                seq![27u8, 91u8, 60u8] + dec_bytes(p) + rest,
            )
            &&& encode_one(held, MouseEncoding::Sgr) == Ok::<Seq<u8>, EncodeError>(
                seq![27u8, 91u8, 60u8] + dec_bytes(p + mods_bits(m) as nat) + rest,
            )
        }),
{
    lemma_button_weight(e, m);
    let plain = with_mods(e, MouseMods { shift: false, alt: false, ctrl: false });
    let held = with_mods(e, m);
    let p = sgr_button(plain) as nat;
    let rest = seq![59u8] + dec_bytes((event_coords(e).0 + 1) as nat) + seq![59u8] + dec_bytes(
        (event_coords(e).1 + 1) as nat,
    ) + seq![if e is Up { 109u8 } else { 77u8 }];
    assert(sgr_bytes(plain) =~= seq![27u8, 91u8, 60u8] + dec_bytes(p) + rest);
    assert(sgr_bytes(held) =~= seq![27u8, 91u8, 60u8] + dec_bytes(p + mods_bits(m) as nat) + rest);
}

proof fn lemma_legacy_weight(e: WireEvent, m: MouseMods)
    ensures
        button_byte_bumped(
            encode_one(with_mods(e, MouseMods { shift: false, alt: false, ctrl: false }), MouseEncoding::Default),
            encode_one(with_mods(e, m), MouseEncoding::Default),
            mods_bits(m) as nat,
        ),
{
    lemma_button_weight(e, m);
}

proof fn lemma_utf8_weight(e: WireEvent, m: MouseMods)
    ensures
        button_byte_bumped(
            encode_one(with_mods(e, MouseMods { shift: false, alt: false, ctrl: false }), MouseEncoding::Utf8),
            encode_one(with_mods(e, m), MouseEncoding::Utf8),
            mods_bits(m) as nat,
        ),
{
    lemma_button_weight(e, m);
    let plain = with_mods(e, MouseMods { shift: false, alt: false, ctrl: false });
    let held = with_mods(e, m);
    let (col, row) = event_coords(e);
    let cx = (col + 1 + 32) as u32;
    let cy = (row + 1 + 32) as u32;
    if vstd::utf8::is_scalar(cx) && vstd::utf8::is_scalar(cy) {
        let tail = vstd::utf8::encode_scalar(cx) + vstd::utf8::encode_scalar(cy);
        assert(utf8_bytes(plain)->Ok_0 =~= seq![27u8, 91u8, 77u8, (legacy_button(plain) + 32) as u8] + tail);
        assert(utf8_bytes(held)->Ok_0 =~= seq![27u8, 91u8, 77u8, (legacy_button(held) + 32) as u8] + tail);
    }
}

/// The matches that text targeting finds come in reading order and do not
/// overlap: each later match is on a later row, or on the same row starting
/// at or after the end of the earlier one.
pub proof fn law_text_matches_in_reading_order(rows: Seq<Seq<char>>, needle: Seq<char>)
    requires
        addressable(rows),
    ensures
        forall|i: int, j: int|
            0 <= i < j < text_matches(rows, needle).len() ==> {
                let a = #[trigger] text_matches(rows, needle)[i];
                let b = #[trigger] text_matches(rows, needle)[j];
                a.row < b.row || (a.row == b.row && a.col_end <= b.col_start)
            },
    decreases rows.len(),
{
    if rows.len() > 0 {
        let front = rows.drop_last();
        assert(addressable(front)) by {
            assert forall|r: int| 0 <= r < front.len() implies #[trigger] front[r].len() <= u16::MAX by {
                assert(front[r] == rows[r]);
            }
        }
        law_text_matches_in_reading_order(front, needle);
        law_text_matches_are_occurrences(front, needle);
        let last = rows.len() - 1;
        assert(rows[last].len() <= u16::MAX);
        lemma_row_matches_occur(last, rows.last(), needle, 0);
        lemma_row_matches_ordered(last, rows.last(), needle, 0);
        let a = text_matches(front, needle);
        let b = row_matches(last, rows.last(), needle, 0);
        assert(text_matches(rows, needle) == a + b);
        assert forall|i: int, j: int| 0 <= i < j < text_matches(rows, needle).len() implies {
            let x = #[trigger] text_matches(rows, needle)[i];
            let y = #[trigger] text_matches(rows, needle)[j];
            x.row < y.row || (x.row == y.row && x.col_end <= y.col_start)
        } by {
            if j < a.len() {
                assert(text_matches(rows, needle)[i] == a[i]);
                assert(text_matches(rows, needle)[j] == a[j]);
            } else if i < a.len() {
                assert(text_matches(rows, needle)[i] == a[i]);
                assert(text_matches(rows, needle)[j] == b[j - a.len()]);
                assert(marks_occurrence(front, needle, a[i]));
            } else {
                assert(text_matches(rows, needle)[i] == b[i - a.len()]);
                assert(text_matches(rows, needle)[j] == b[j - a.len()]);
            }
        }
    }
}

proof fn lemma_row_matches_ordered(r: int, line: Seq<char>, needle: Seq<char>, from: int)
    requires
        0 <= r <= u16::MAX,
        line.len() <= u16::MAX,
    ensures
        forall|i: int, j: int|
            0 <= i < j < row_matches(r, line, needle, from).len() ==> (#[trigger] row_matches(r, line, needle, from)[i]).col_end
                <= (#[trigger] row_matches(r, line, needle, from)[j]).col_start,
    decreases line.len() - from,
{
    if needle.len() == 0 || from < 0 || from + needle.len() > line.len() {
    } else if occurs_at(line, needle, from) {
        let next = from + needle.len();
        lemma_row_matches_ordered(r, line, needle, next);
        lemma_row_matches_occur(r, line, needle, next);
        let rest = row_matches(r, line, needle, next);
        let all = row_matches(r, line, needle, from);
        assert(all == seq![match_at(r, from, needle.len() as int)].add(rest));
        assert forall|i: int, j: int| 0 <= i < j < all.len() implies (#[trigger] all[i]).col_end <= (#[trigger] all[j]).col_start by {
            assert(all[j] == rest[j - 1]);
            if i > 0 {
                assert(all[i] == rest[i - 1]);
            } else {
                assert(all[0] == match_at(r, from, needle.len() as int));
                assert(rest[j - 1].col_start >= next);
            }
        }
    } else {
        lemma_row_matches_ordered(r, line, needle, from + 1);
        assert(row_matches(r, line, needle, from) == row_matches(r, line, needle, from + 1));
    }
}

} // verus!
