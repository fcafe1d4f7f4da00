//! What the daemon decides when it handles a mouse request: resolving
//! targets, expanding compound actions into wire events, and the per-cell
//! events of the cursor's glide.

use vstd::prelude::*;

use crate::chars::{debug_quoted, dec, push_dec, push_str, quoted, string_of};
use crate::emu::{MouseProtocolEncoding, MouseProtocolMode};
use crate::mouse::{ScreenMatch, WireEvent};
use crate::protocol::{MouseAction, MouseButton, MouseEncoding, MouseMode, MouseMods, MouseTarget, ScrollDir};

verus! {

/// The protocol's name for an emulator mouse mode.
pub open spec fn mode_of(m: MouseProtocolMode) -> MouseMode {
    match m {
        MouseProtocolMode::Off => MouseMode::Off,
        MouseProtocolMode::PressRelease => MouseMode::PressRelease,
        MouseProtocolMode::ButtonMotion => MouseMode::ButtonMotion,
        MouseProtocolMode::AnyMotion => MouseMode::AnyMotion,
    }
}

/// The protocol's name for an emulator mouse encoding.
pub open spec fn encoding_of(e: MouseProtocolEncoding) -> MouseEncoding {
    match e {
        MouseProtocolEncoding::Default => MouseEncoding::Default,
        MouseProtocolEncoding::Utf8 => MouseEncoding::Utf8,
        MouseProtocolEncoding::Sgr => MouseEncoding::Sgr,
    }
}

pub fn vt_mode_to_proto(mode: MouseProtocolMode) -> (r: MouseMode)
    ensures
        r == mode_of(mode),
{
    match mode {
        MouseProtocolMode::Off => MouseMode::Off,
        MouseProtocolMode::PressRelease => MouseMode::PressRelease,
        MouseProtocolMode::ButtonMotion => MouseMode::ButtonMotion,
        MouseProtocolMode::AnyMotion => MouseMode::AnyMotion,
    }
}

pub fn vt_encoding_to_proto(enc: MouseProtocolEncoding) -> (r: MouseEncoding)
    ensures
        r == encoding_of(enc),
{
    match enc {
        MouseProtocolEncoding::Default => MouseEncoding::Default,
        MouseProtocolEncoding::Utf8 => MouseEncoding::Utf8,
        MouseProtocolEncoding::Sgr => MouseEncoding::Sgr,
    }
}

/// The center of match `i` among `hits`, or the message explaining why there
/// is none.
pub open spec fn pick_result(hits: Seq<ScreenMatch>, i: int, label: Seq<char>) -> Result<(u16, u16), Seq<char>> {
    if hits.len() == 0 {
        Err("no match for "@ + label + " on visible screen"@)
    } else if i >= hits.len() {
        Err("match-index "@ + dec(i as nat) + " out of range for "@ + label + " ("@ + dec(hits.len()) + " match"@
            + (if hits.len() == 1 { ""@ } else { "es"@ }) + ")"@)
    } else {
        Ok((hits[i].center_col(), hits[i].row))
    }
}

/// Chooses match `match_index` among `hits` and returns its center cell.
pub fn pick_match(hits: &[ScreenMatch], match_index: usize, label: &str) -> (r: Result<(u16, u16), String>)
    ensures
        match r {
            Ok(p) => pick_result(hits@, match_index as int, label@) == Ok::<(u16, u16), Seq<char>>(p),
            Err(msg) => pick_result(hits@, match_index as int, label@) == Err::<(u16, u16), Seq<char>>(msg@),
        },
{
    if hits.len() == 0 {
        let mut m: Vec<char> = Vec::new();
        push_str(&mut m, "no match for ");
        push_str(&mut m, label);
        push_str(&mut m, " on visible screen");
        return Err(string_of(&m));
    }
    if match_index >= hits.len() {
        let mut m: Vec<char> = Vec::new();
        push_str(&mut m, "match-index ");
        push_dec(&mut m, match_index as u64);
        push_str(&mut m, " out of range for ");
        push_str(&mut m, label);
        push_str(&mut m, " (");
        push_dec(&mut m, hits.len() as u64);
        push_str(&mut m, " match");
        if hits.len() == 1 {
            push_str(&mut m, "");
        } else {
            push_str(&mut m, "es");
        }
        push_str(&mut m, ")");
        return Err(string_of(&m));
    }
    Ok(hits[match_index].center())
}

} // verus!

verus! {

/// `n` presses and releases of `button` at `p`, alternating (at least one pair).
pub open spec fn click_events(p: (u16, u16), button: MouseButton, mods: MouseMods, clicks: u32) -> Seq<WireEvent> {
    click_pairs(p, button, mods, if clicks == 0 { 1nat } else { clicks as nat })
}

/// Exactly `n` press/release pairs of `button` at `p`.
pub open spec fn click_pairs(p: (u16, u16), button: MouseButton, mods: MouseMods, n: nat) -> Seq<WireEvent> {
    Seq::new(
        2 * n,
        |i: int|
            if i % 2 == 0 {
                WireEvent::Down { col: p.0, row: p.1, button, mods }
            } else {
                WireEvent::Up { col: p.0, row: p.1, button, mods }
            },
    )
}

/// `amount` wheel notches at `p` (at least one).
pub open spec fn scroll_events(p: (u16, u16), dir: ScrollDir, mods: MouseMods, amount: u32) -> Seq<WireEvent> {
    scroll_notches(p, dir, mods, if amount == 0 { 1nat } else { amount as nat })
}

/// Exactly `n` wheel notches at `p`.
pub open spec fn scroll_notches(p: (u16, u16), dir: ScrollDir, mods: MouseMods, n: nat) -> Seq<WireEvent> {
    Seq::new(n, |i: int| WireEvent::Scroll { col: p.0, row: p.1, dir, mods })
}

/// Drag motion through the given cells.
pub open spec fn drag_moves(path: Seq<(u16, u16)>, button: MouseButton, mods: MouseMods) -> Seq<WireEvent> {
    path.map_values(|c: (u16, u16)| WireEvent::DragMove { col: c.0, row: c.1, button, mods })
}

/// A drag: press at `from`, motion through `path`, release at `to`.
pub open spec fn drag_events(
    from: (u16, u16),
    to: (u16, u16),
    path: Seq<(u16, u16)>,
    button: MouseButton,
    mods: MouseMods,
) -> Seq<WireEvent> {
    seq![WireEvent::Down { col: from.0, row: from.1, button, mods }] + drag_moves(path, button, mods)
        + seq![WireEvent::Up { col: to.0, row: to.1, button, mods }]
}

/// Whether a mouse mode reports bare motion.
pub open spec fn reports_motion(mode: MouseMode) -> bool {
    !(mode == MouseMode::Off || mode == MouseMode::PressRelease)
}

/// The name of a mouse mode as reports spell it.
pub open spec fn mode_name(mode: MouseMode) -> Seq<char> {
    match mode {
        MouseMode::Off => "None"@,
        MouseMode::Press => "Press"@,
        MouseMode::PressRelease => "PressRelease"@,
        MouseMode::ButtonMotion => "ButtonMotion"@,
        MouseMode::AnyMotion => "AnyMotion"@,
    }
}

pub(crate) fn push_mode_name(out: &mut Vec<char>, mode: MouseMode)
    ensures
        final(out)@ == old(out)@ + mode_name(mode),
{
    match mode {
        MouseMode::Off => push_str(out, "None"),
        MouseMode::Press => push_str(out, "Press"),
        MouseMode::PressRelease => push_str(out, "PressRelease"),
        MouseMode::ButtonMotion => push_str(out, "ButtonMotion"),
        MouseMode::AnyMotion => push_str(out, "AnyMotion"),
    }
}

/// Expands a mouse action into wire events. `resolve` turns a target into a
/// cell; `interpolate` gives the cells strictly between a drag's two ends.
/// A Move is refused when `mode` does not report motion; a Scroll without a
/// target happens at the top-left cell.
pub fn build_events<F, P>(action: &MouseAction, resolve: &F, mode: MouseMode, interpolate: &P) -> (r: Result<Vec<WireEvent>, String>)
    where
        F: Fn(&MouseTarget) -> Result<(u16, u16), String>,
        P: Fn(u16, u16, u16, u16) -> Vec<(u16, u16)>,
    requires
        forall|t: &MouseTarget| resolve.requires((t,)),
        forall|a: u16, b: u16, c: u16, d: u16| interpolate.requires((a, b, c, d)),
    ensures
        match *action {
            MouseAction::Click { target, button, mods, clicks } => match r {
                Ok(evs) => exists|p: (u16, u16)| resolve.ensures((&target,), Ok::<(u16, u16), String>(p))
                    && evs@ == click_events(p, button, mods, clicks),
                Err(e) => resolve.ensures((&target,), Err::<(u16, u16), String>(e)),
            },
            MouseAction::Down { target, button, mods } => match r {
                Ok(evs) => exists|p: (u16, u16)| resolve.ensures((&target,), Ok::<(u16, u16), String>(p))
                    && evs@ == seq![WireEvent::Down { col: p.0, row: p.1, button, mods }],
                Err(e) => resolve.ensures((&target,), Err::<(u16, u16), String>(e)),
            },
            MouseAction::Up { target, button, mods } => match r {
                Ok(evs) => exists|p: (u16, u16)| resolve.ensures((&target,), Ok::<(u16, u16), String>(p))
                    && evs@ == seq![WireEvent::Up { col: p.0, row: p.1, button, mods }],
                Err(e) => resolve.ensures((&target,), Err::<(u16, u16), String>(e)),
            },
            MouseAction::Move { target, mods } => match r {
                Ok(evs) => reports_motion(mode) && exists|p: (u16, u16)| resolve.ensures((&target,), Ok::<(u16, u16), String>(p))
                    && evs@ == seq![WireEvent::Move { col: p.0, row: p.1, mods }],
                Err(e) => if reports_motion(mode) {
                    resolve.ensures((&target,), Err::<(u16, u16), String>(e))
                } else {
                    e@ == "mouse mode "@ + mode_name(mode) + " does not report bare motion (need ButtonMotion or AnyMotion)"@
                },
            },
            MouseAction::Drag { from, to, button, mods } => match r {
                Ok(evs) => exists|p1: (u16, u16), p2: (u16, u16), path: Vec<(u16, u16)>|
                    resolve.ensures((&from,), Ok::<(u16, u16), String>(p1))
                    && resolve.ensures((&to,), Ok::<(u16, u16), String>(p2))
                    && interpolate.ensures((p1.0, p1.1, p2.0, p2.1), path)
                    && evs@ == drag_events(p1, p2, path@, button, mods),
                Err(e) => resolve.ensures((&from,), Err::<(u16, u16), String>(e)) || exists|p1: (u16, u16)|
                    resolve.ensures((&from,), Ok::<(u16, u16), String>(p1))
                    && resolve.ensures((&to,), Err::<(u16, u16), String>(e)),
            },
            MouseAction::Scroll { target, dir, amount, mods } => match target {
                None => r matches Ok(evs) && evs@ == scroll_events((0u16, 0u16), dir, mods, amount),
                Some(t) => match r {
                    Ok(evs) => exists|p: (u16, u16)| resolve.ensures((&t,), Ok::<(u16, u16), String>(p))
                        && evs@ == scroll_events(p, dir, mods, amount),
                    Err(e) => resolve.ensures((&t,), Err::<(u16, u16), String>(e)),
                },
            },
        },
{
    let mut out: Vec<WireEvent> = Vec::new();
    match action {
        MouseAction::Click { target, button, mods, clicks } => {
            let (col, row) = match resolve(target) {
                Ok(p) => p,
                Err(e) => return Err(e),
            };
            let n = if *clicks == 0 { 1 } else { *clicks };
            let mut i: u32 = 0;
            while i < n
                invariant
                    i <= n,
                    n == (if *clicks == 0 { 1u32 } else { *clicks }),
                    out@ == click_pairs((col, row), *button, *mods, i as nat),
                    resolve.ensures((target,), Ok::<(u16, u16), String>((col, row))),
                decreases n - i,
            {
                let ghost prev = out@;
                out.push(WireEvent::Down { col, row, button: *button, mods: *mods });
                out.push(WireEvent::Up { col, row, button: *button, mods: *mods });
                i = i + 1;
                assert(out@ =~= click_pairs((col, row), *button, *mods, i as nat));
            }
            assert(out@ == click_events((col, row), *button, *mods, *clicks));
            assert(resolve.ensures((target,), Ok::<(u16, u16), String>((col, row))));
        },
        MouseAction::Down { target, button, mods } => {
            let (col, row) = match resolve(target) {
                Ok(p) => p,
                Err(e) => return Err(e),
            };
            out.push(WireEvent::Down { col, row, button: *button, mods: *mods });
        },
        MouseAction::Up { target, button, mods } => {
            let (col, row) = match resolve(target) {
                Ok(p) => p,
                Err(e) => return Err(e),
            };
            out.push(WireEvent::Up { col, row, button: *button, mods: *mods });
        },
        MouseAction::Move { target, mods } => {
            if mode == MouseMode::Off || mode == MouseMode::PressRelease {
                let mut m: Vec<char> = Vec::new();
                push_str(&mut m, "mouse mode ");
                push_mode_name(&mut m, mode);
                push_str(&mut m, " does not report bare motion (need ButtonMotion or AnyMotion)");
                return Err(string_of(&m));
            }
            let (col, row) = match resolve(target) {
                Ok(p) => p,
                Err(e) => return Err(e),
            };
            out.push(WireEvent::Move { col, row, mods: *mods });
        },
        MouseAction::Drag { from, to, button, mods } => {
            let (c1, r1) = match resolve(from) {
                Ok(p) => p,
                Err(e) => return Err(e),
            };
            let (c2, r2) = match resolve(to) {
                Ok(p) => p,
                Err(e) => return Err(e),
            };
            out.push(WireEvent::Down { col: c1, row: r1, button: *button, mods: *mods });
            let path = interpolate(c1, r1, c2, r2);
            let mut i: usize = 0;
            while i < path.len()
                invariant
                    i <= path@.len(),
                    out@ == seq![WireEvent::Down { col: c1, row: r1, button: *button, mods: *mods }]
                        + drag_moves(path@.take(i as int), *button, *mods),
                decreases path@.len() - i,
            {
                let (col, row) = path[i];
                out.push(WireEvent::DragMove { col, row, button: *button, mods: *mods });
                i = i + 1;
                assert(drag_moves(path@.take(i as int), *button, *mods) =~= drag_moves(path@.take(i - 1), *button, *mods).push(
                    WireEvent::DragMove { col, row, button: *button, mods: *mods },
                ));
            }
            assert(path@.take(path@.len() as int) =~= path@);
            out.push(WireEvent::Up { col: c2, row: r2, button: *button, mods: *mods });
            assert(out@ =~= drag_events((c1, r1), (c2, r2), path@, *button, *mods));
        },
        MouseAction::Scroll { target, dir, amount, mods } => {
            let (col, row) = match target {
                Some(t) => match resolve(t) {
                    Ok(p) => p,
                    Err(e) => return Err(e),
                },
                None => (0, 0),
            };
            let n = if *amount == 0 { 1 } else { *amount };
            let mut i: u32 = 0;
            while i < n
                invariant
                    i <= n,
                    n == (if *amount == 0 { 1u32 } else { *amount }),
                    out@ == scroll_notches((col, row), *dir, *mods, i as nat),
                    *target matches Some(t) ==> resolve.ensures((&t,), Ok::<(u16, u16), String>((col, row))),
                    target.is_none() ==> col == 0 && row == 0,
                decreases n - i,
            {
                out.push(WireEvent::Scroll { col, row, dir: *dir, mods: *mods });
                i = i + 1;
                assert(out@ =~= scroll_notches((col, row), *dir, *mods, i as nat));
            }
            assert(out@ == scroll_events((col, row), *dir, *mods, *amount));
            if let Some(t) = target {
                assert(resolve.ensures((t,), Ok::<(u16, u16), String>((col, row))));
            }
        },
    }
    Ok(out)
}

} // verus!

verus! {

/// Where a target lies on a `cols` x `rows` screen whose rows read `text`;
/// `None` stands for a regex the engine rejects (whose message names the
/// engine's reason).
pub open spec fn target_cell(cols: u16, rows: u16, text: Seq<Seq<char>>, t: MouseTarget) -> Result<(u16, u16), Seq<char>> {
    match t {
        MouseTarget::Coords { col, row } => if col < cols && row < rows {
            Ok((col, row))
        } else {
            Err("coords ("@ + dec(col as nat) + ","@ + dec(row as nat) + ") out of bounds (terminal is "@
                + dec(cols as nat) + "x"@ + dec(rows as nat) + ")"@)
        },
        MouseTarget::Text { needle, match_index } => pick_result(
            crate::mouse::text_matches(text, needle@),
            match_index as int,
            "text "@ + debug_quoted(needle@),
        ),
        MouseTarget::Regex { pattern, match_index } => if crate::pattern::regex_compiles(pattern@) {
            pick_result(crate::mouse::regex_matches(text, pattern@), match_index as int, "regex "@ + debug_quoted(pattern@))
        } else {
            Err("invalid regex "@ + debug_quoted(pattern@) + ": "@ + crate::pattern::regex_rejection(pattern@))
        },
    }
}

/// Resolves a mouse target against the visible screen: coordinates must lie
/// on it; text and regex targets pick the center of the chosen match.
pub fn resolve_target(cols: u16, rows: u16, screen_rows: &[String], target: &MouseTarget) -> (r: Result<(u16, u16), String>)
    ensures
        match target_cell(cols, rows, crate::mouse::string_views(screen_rows@), *target) {
            Ok(p) => r == Ok::<(u16, u16), String>(p),
            Err(m) => r matches Err(e) && e@ == m,
        },
{
    match target {
        MouseTarget::Coords { col, row } => {
            if *col >= cols || *row >= rows {
                let mut m: Vec<char> = Vec::new();
                push_str(&mut m, "coords (");
                push_dec(&mut m, *col as u64);
                push_str(&mut m, ",");
                push_dec(&mut m, *row as u64);
                push_str(&mut m, ") out of bounds (terminal is ");
                push_dec(&mut m, cols as u64);
                push_str(&mut m, "x");
                push_dec(&mut m, rows as u64);
                push_str(&mut m, ")");
                return Err(string_of(&m));
            }
            Ok((*col, *row))
        },
        MouseTarget::Text { needle, match_index } => {
            let hits = crate::mouse::find_text(screen_rows, needle.as_str());
            let mut label: Vec<char> = Vec::new();
            push_str(&mut label, "text ");
            push_str(&mut label, quoted(needle.as_str()).as_str());
            pick_match(hits.as_slice(), *match_index, string_of(&label).as_str())
        },
        MouseTarget::Regex { pattern, match_index } => {
            match crate::mouse::find_regex(screen_rows, pattern.as_str()) {
                Ok(hits) => {
                    let mut label: Vec<char> = Vec::new();
                    push_str(&mut label, "regex ");
                    push_str(&mut label, quoted(pattern.as_str()).as_str());
                    pick_match(hits.as_slice(), *match_index, string_of(&label).as_str())
                },
                Err(e) => {
                    let mut m: Vec<char> = Vec::new();
                    push_str(&mut m, "invalid regex ");
                    push_str(&mut m, quoted(pattern.as_str()).as_str());
                    push_str(&mut m, ": ");
                    push_str(&mut m, e.reason.as_str());
                    assert(m@ == "invalid regex "@ + debug_quoted(pattern@) + ": "@ + e.reason@);
                    Err(string_of(&m))
                },
            }
        },
    }
}

/// Refuses to send mouse events to a session whose application has not
/// enabled mouse reporting, unless forced.
pub fn check_mouse_enabled(name: &str, mode: MouseMode, force: bool) -> (r: Result<(), String>)
    ensures
        match r {
            Ok(()) => force || mode != MouseMode::Off,
            Err(m) => !force && mode == MouseMode::Off && m@ == "session "@ + debug_quoted(name@)
                + " has not enabled mouse reporting (DECSET 1000/1002/1006). Use --force to send raw bytes anyway."@,
        },
{
    if !force && mode == MouseMode::Off {
        let mut m: Vec<char> = Vec::new();
        push_str(&mut m, "session ");
        push_str(&mut m, quoted(name).as_str());
        push_str(&mut m, " has not enabled mouse reporting (DECSET 1000/1002/1006). Use --force to send raw bytes anyway.");
        return Err(string_of(&m));
    }
    Ok(())
}

/// The target the cursor glides to before an action's own events: the
/// action's target, a drag's start; none for the wheel.
pub open spec fn glide_target_of(a: MouseAction) -> Option<MouseTarget> {
    match a {
        MouseAction::Click { target, .. } => Some(target),
        MouseAction::Down { target, .. } => Some(target),
        MouseAction::Up { target, .. } => Some(target),
        MouseAction::Move { target, .. } => Some(target),
        MouseAction::Drag { from, .. } => Some(from),
        MouseAction::Scroll { .. } => None,
    }
}

/// A copy of a target.
fn copy_target(t: &MouseTarget) -> (r: MouseTarget)
    ensures
        r == *t,
{
    match t {
        MouseTarget::Coords { col, row } => MouseTarget::Coords { col: *col, row: *row },
        MouseTarget::Text { needle, match_index } => MouseTarget::Text { needle: needle.clone(), match_index: *match_index },
        MouseTarget::Regex { pattern, match_index } => MouseTarget::Regex { pattern: pattern.clone(), match_index: *match_index },
    }
}

/// The target the cursor glides to before the action (see `glide_target_of`).
pub fn glide_target(action: &MouseAction) -> (r: Option<MouseTarget>)
    ensures
        r == glide_target_of(*action),
{
    match action {
        MouseAction::Click { target, .. } => Some(copy_target(target)),
        MouseAction::Down { target, .. } => Some(copy_target(target)),
        MouseAction::Up { target, .. } => Some(copy_target(target)),
        MouseAction::Move { target, .. } => Some(copy_target(target)),
        MouseAction::Drag { from, .. } => Some(copy_target(from)),
        MouseAction::Scroll { .. } => None,
    }
}

/// The motion event reported for one cell of a glide, if the application's
/// mode reports it: drag motion while a button is held (AnyMotion or
/// ButtonMotion), bare motion without one (AnyMotion only).
pub open spec fn glide_event_of(mode: MouseMode, drag_button: Option<MouseButton>, col: u16, row: u16) -> Option<WireEvent> {
    let mods = MouseMods { shift: false, alt: false, ctrl: false };
    match (mode, drag_button) {
        (MouseMode::AnyMotion, Some(button)) => Some(WireEvent::DragMove { col, row, button, mods }),
        (MouseMode::AnyMotion, None) => Some(WireEvent::Move { col, row, mods }),
        (MouseMode::ButtonMotion, Some(button)) => Some(WireEvent::DragMove { col, row, button, mods }),
        _ => None,
    }
}

pub fn glide_event(mode: MouseMode, drag_button: Option<MouseButton>, col: u16, row: u16) -> (r: Option<WireEvent>)
    ensures
        r == glide_event_of(mode, drag_button, col, row),
{
    let mods = MouseMods { shift: false, alt: false, ctrl: false };
    match (mode, drag_button) {
        (MouseMode::AnyMotion, Some(button)) => Some(WireEvent::DragMove { col, row, button, mods }),
        (MouseMode::AnyMotion, None) => Some(WireEvent::Move { col, row, mods }),
        (MouseMode::ButtonMotion, Some(button)) => Some(WireEvent::DragMove { col, row, button, mods }),
        _ => None,
    }
}

/// Milliseconds to pause per cell of a glide over `cells` cells: about 6 ms
/// each, at most 250 ms in total, at least 1 ms per cell.
pub fn glide_pace_ms(cells: usize) -> (r: u64)
    requires
        cells > 0,
    ensures
        ({
            let total = if cells * 6 < 250 { cells * 6 } else { 250 };
            r == (if total / (cells as int) < 1 { 1 } else { total / (cells as int) })
        }),
{
    let c = cells as u64;
    let total: u64 = if c < 42 { c * 6 } else { 250 };
    let per = total / c;
    if per < 1 { 1 } else { per }
}

/// Records one glide step in the tracker: the cursor moves to the cell and,
/// when a motion event was written, it becomes the last event.
pub fn record_glide_step(
    tracker: &mut crate::session::MouseTracker,
    col: u16,
    row: u16,
    wire_event: Option<WireEvent>,
    drag_button: Option<MouseButton>,
    ts: u64,
)
    ensures
        final(tracker).cursor == Some(crate::protocol::CursorPos { row, col }),
        final(tracker).buttons_held@ == old(tracker).buttons_held@,
        final(tracker).last_event == (match wire_event {
            None => old(tracker).last_event,
            Some(ev) => Some(
                crate::protocol::MouseLastEvent {
                    kind: if ev is DragMove { crate::protocol::MouseEventKind::DragMove } else {
                        crate::protocol::MouseEventKind::Move
                    },
                    col,
                    row,
                    button: drag_button,
                    scroll_dir: None,
                    mods: MouseMods { shift: false, alt: false, ctrl: false },
                    ts_unix: ts,
                },
            ),
        }),
{
    tracker.record_position(col, row);
    if let Some(ev) = wire_event {
        let kind = match ev {
            WireEvent::DragMove { .. } => crate::protocol::MouseEventKind::DragMove,
            _ => crate::protocol::MouseEventKind::Move,
        };
        tracker.last_event = Some(
            crate::protocol::MouseLastEvent {
                kind,
                col,
                row,
                button: drag_button,
                scroll_dir: None,
                mods: MouseMods { shift: false, alt: false, ctrl: false },
                ts_unix: ts,
            },
        );
    }
}

} // verus!


verus! {

/// The cell the cursor glides to before an action, on the screen given by
/// `cols`, `rows` and `text`: `Ok(None)` for the wheel, the message when the
/// target does not resolve.
pub open spec fn glide_cell(a: MouseAction, cols: u16, rows: u16, text: Seq<Seq<char>>) -> Result<Option<(u16, u16)>, Seq<char>> {
    match glide_target_of(a) {
        None => Ok(None),
        Some(t) => match target_cell(cols, rows, text, t) {
            Ok(p) => Ok(Some(p)),
            Err(m) => Err(m),
        },
    }
}

/// The glide from the tracked cursor to `to`: none without a tracked cursor
/// or when the cursor already sits there.
pub open spec fn glide_of(cursor: Option<(u16, u16)>, to: Option<(u16, u16)>) -> Option<((u16, u16), (u16, u16))> {
    match (cursor, to) {
        (Some(c), Some(p)) => if c.0 != p.0 || c.1 != p.1 {
            Some((c, p))
        } else {
            None
        },
        _ => None,
    }
}

/// The events an action (other than a Move) expands to on the screen given
/// by `cols`, `rows` and `text`, a drag's motion going through `path`; or the
/// message of the first target that does not resolve.
pub open spec fn action_events(
    a: MouseAction,
    cols: u16,
    rows: u16,
    text: Seq<Seq<char>>,
    path: Seq<(u16, u16)>,
) -> Result<Seq<WireEvent>, Seq<char>> {
    match a {
        MouseAction::Click { target, button, mods, clicks } => match target_cell(cols, rows, text, target) {
            Ok(p) => Ok(click_events(p, button, mods, clicks)),
            Err(m) => Err(m),
        },
        MouseAction::Down { target, button, mods } => match target_cell(cols, rows, text, target) {
            Ok(p) => Ok(seq![WireEvent::Down { col: p.0, row: p.1, button, mods }]),
            Err(m) => Err(m),
        },
        MouseAction::Up { target, button, mods } => match target_cell(cols, rows, text, target) {
            Ok(p) => Ok(seq![WireEvent::Up { col: p.0, row: p.1, button, mods }]),
            Err(m) => Err(m),
        },
        MouseAction::Move { target, mods } => match target_cell(cols, rows, text, target) {
            Ok(p) => Ok(seq![WireEvent::Move { col: p.0, row: p.1, mods }]),
            Err(m) => Err(m),
        },
        MouseAction::Drag { from, to, button, mods } => match target_cell(cols, rows, text, from) {
            Err(m) => Err(m),
            Ok(p1) => match target_cell(cols, rows, text, to) {
                Err(m) => Err(m),
                Ok(p2) => Ok(drag_events(p1, p2, path, button, mods)),
            },
        },
        MouseAction::Scroll { target, dir, amount, mods } => match target {
            None => Ok(scroll_events((0u16, 0u16), dir, mods, amount)),
            Some(t) => match target_cell(cols, rows, text, t) {
                Ok(p) => Ok(scroll_events(p, dir, mods, amount)),
                Err(m) => Err(m),
            },
        },
    }
}

/// The cells a drag interpolates between its two ends are `path`, as
/// `interpolate` gives them (any cells for actions that are no drag or
/// whose ends do not resolve).
pub open spec fn drag_path_from<P: Fn(u16, u16, u16, u16) -> Vec<(u16, u16)>>(
    a: MouseAction,
    cols: u16,
    rows: u16,
    text: Seq<Seq<char>>,
    interpolate: P,
    path: Vec<(u16, u16)>,
) -> bool {
    match a {
        MouseAction::Drag { from, to, .. } => match (target_cell(cols, rows, text, from), target_cell(cols, rows, text, to)) {
            (Ok(p1), Ok(p2)) => interpolate.ensures((p1.0, p1.1, p2.0, p2.1), path),
            _ => true,
        },
        _ => true,
    }
}

/// What is written for the action's own events: their encoding, or the
/// message of the target that did not resolve or of the encoding error.
pub open spec fn write_matches(
    events: Result<Seq<WireEvent>, Seq<char>>,
    encoding: MouseEncoding,
    write: Result<Option<(Vec<WireEvent>, Vec<u8>)>, String>,
) -> bool {
    match events {
        Err(m) => (write matches Err(e) && e@ == m),
        Ok(evs) => match crate::mouse::encode_all(evs, encoding) {
            Ok(b) => (write matches Ok(Some((v, bytes))) && v@ == evs && bytes@ == b),
            Err(e) => (write matches Err(s) && s@ == "encode mouse events: "@ + crate::mouse::encode_error_text(e)),
        },
    }
}

/// The daemon's plan for a mouse request: the glide to run first, then what
/// to write for the action's own events (nothing for a Move, whose glide
/// already put the cursor there).
pub struct MousePlan {
    /// The glide's start and end cells.
    pub glide: Option<((u16, u16), (u16, u16))>,
    /// The events and their bytes; `Ok(None)` when nothing is written.
    pub write: Result<Option<(Vec<WireEvent>, Vec<u8>)>, String>,
}

/// Decides a mouse request for session `name` on a `cols` x `rows` screen
/// whose rows read `screen_rows`, the application's mouse `mode` and
/// `encoding`, and the tracked `cursor`. A request to a session without
/// mouse reporting is refused unless forced, then one whose glide target
/// does not resolve: a refused request writes nothing. Otherwise the cursor
/// glides from where it is to the action's cell, a Move is then done, and
/// the other actions' events are built and encoded; their error comes after
/// the glide.
pub fn plan_mouse_request<P>(
    name: &str,
    action: &MouseAction,
    force: bool,
    mode: MouseMode,
    encoding: MouseEncoding,
    cols: u16,
    rows: u16,
    screen_rows: &[String],
    cursor: Option<(u16, u16)>,
    interpolate: &P,
) -> (r: Result<MousePlan, String>)
    where
        P: Fn(u16, u16, u16, u16) -> Vec<(u16, u16)>,
    requires
        forall|a: u16, b: u16, c: u16, d: u16| interpolate.requires((a, b, c, d)),
    ensures
        !force && mode == MouseMode::Off ==> (r matches Err(m) && m@ == "session "@ + debug_quoted(name@)
            + " has not enabled mouse reporting (DECSET 1000/1002/1006). Use --force to send raw bytes anyway."@),
        force || mode != MouseMode::Off ==> match glide_cell(*action, cols, rows, crate::mouse::string_views(screen_rows@)) {
            Err(m) => (r matches Err(e) && e@ == m),
            Ok(to) => (r matches Ok(p) && p.glide == glide_of(cursor, to)),
        },
        r matches Ok(p) ==> (if action is Move {
            p.write == Ok::<Option<(Vec<WireEvent>, Vec<u8>)>, String>(None)
        } else {
            exists|path: Vec<(u16, u16)>|
                drag_path_from(*action, cols, rows, crate::mouse::string_views(screen_rows@), *interpolate, path)
                    && write_matches(
                    action_events(*action, cols, rows, crate::mouse::string_views(screen_rows@), path@),
                    encoding,
                    p.write,
                )
        }),
{
    let ghost text = crate::mouse::string_views(screen_rows@);
    if let Err(m) = check_mouse_enabled(name, mode, force) {
        return Err(m);
    }
    let resolve = |t: &MouseTarget| -> (r: Result<(u16, u16), String>)
        ensures
            match target_cell(cols, rows, crate::mouse::string_views(screen_rows@), *t) {
                Ok(p) => r == Ok::<(u16, u16), String>(p),
                Err(m) => (r matches Err(e) && e@ == m),
            },
        { resolve_target(cols, rows, screen_rows, t) };
    let to = match glide_target(action) {
        Some(t) => match resolve(&t) {
            Ok(p) => Some(p),
            Err(m) => return Err(m),
        },
        None => None,
    };
    let glide = match (cursor, to) {
        (Some(c), Some(p)) => if c.0 != p.0 || c.1 != p.1 {
            Some((c, p))
        } else {
            None
        },
        _ => None,
    };
    if let MouseAction::Move { .. } = action {
        return Ok(MousePlan { glide, write: Ok(None) });
    }
    let built = build_events(action, &resolve, mode, interpolate);
    let ghost built_view = built;
    let write = match built {
        Err(m) => Err(m),
        Ok(evs) => match crate::mouse::encode(evs.as_slice(), encoding) {
            Ok(b) => Ok(Some((evs, b))),
            Err(e) => {
                let mut m: Vec<char> = Vec::new();
                push_str(&mut m, "encode mouse events: ");
                push_str(&mut m, e.message().as_str());
                Err(string_of(&m))
            },
        },
    };
    proof {
        let any_path: Vec<(u16, u16)> = vstd::pervasive::arbitrary();
        let a = *action;
        match a {
            MouseAction::Drag { from, to, button, mods } => {
                if built_view is Ok {
                    let evs = built_view->Ok_0;
                    let (p1, p2, path) = choose|p1: (u16, u16), p2: (u16, u16), path: Vec<(u16, u16)>|
                        resolve.ensures((&from,), Ok::<(u16, u16), String>(p1))
                        && resolve.ensures((&to,), Ok::<(u16, u16), String>(p2))
                        && interpolate.ensures((p1.0, p1.1, p2.0, p2.1), path)
                        && evs@ == drag_events(p1, p2, path@, button, mods);
                    assert(drag_path_from(*action, cols, rows, text, *interpolate, path));
                    assert(write_matches(action_events(*action, cols, rows, text, path@), encoding, write));
                } else {
                    assert(drag_path_from(*action, cols, rows, text, *interpolate, any_path));
                    assert(write_matches(action_events(*action, cols, rows, text, any_path@), encoding, write));
                }
            },
            _ => {
                assert(drag_path_from(*action, cols, rows, text, *interpolate, any_path));
                assert(write_matches(action_events(*action, cols, rows, text, any_path@), encoding, write));
            },
        }
    }
    Ok(MousePlan { glide, write })
}

} // verus!

verus! {

/// The wheel turns where it is aimed: every notch of a scroll happens at the
/// cell `p` it was aimed at, in the requested direction, with at least one
/// notch and exactly `amount` of them when `amount` is positive. A Scroll
/// action with a target turns the wheel over the cell its target resolves
/// to, and one without a target over the top-left cell.
pub proof fn law_scroll_happens_at_its_cell(
    p: (u16, u16),
    dir: ScrollDir,
    mods: MouseMods,
    amount: u32,
    target: Option<MouseTarget>,
    cols: u16,
    rows: u16,
    text: Seq<Seq<char>>,
    path: Seq<(u16, u16)>,
)
    ensures
        scroll_events(p, dir, mods, amount).len() == (if amount == 0 { 1 } else { amount as int }),
        forall|i: int|
            0 <= i < scroll_events(p, dir, mods, amount).len() ==> #[trigger] scroll_events(p, dir, mods, amount)[i]
                == (WireEvent::Scroll { col: p.0, row: p.1, dir, mods }),
        ({
            let a = MouseAction::Scroll { target, dir, amount, mods };
            let at = match target {
                None => Some((0u16, 0u16)),
                Some(t) => match target_cell(cols, rows, text, t) {
                    Ok(q) => Some(q),
                    Err(_) => None,
                },
            };
            at matches Some(q) ==> (action_events(a, cols, rows, text, path) matches Ok(evs) && evs.len() >= 1
                && forall|i: int|
                0 <= i < evs.len() ==> crate::mouse::event_coords(#[trigger] evs[i]) == q && evs[i] is Scroll)
        }),
{
    let a = MouseAction::Scroll { target, dir, amount, mods };
    match target {
        None => {
            let evs = scroll_events((0u16, 0u16), dir, mods, amount);
            assert(forall|i: int| 0 <= i < evs.len() ==> evs[i] == WireEvent::Scroll { col: 0u16, row: 0u16, dir, mods });
        },
        Some(t) => {
            if let Ok(q) = target_cell(cols, rows, text, t) {
                let evs = scroll_events(q, dir, mods, amount);
                assert(forall|i: int| 0 <= i < evs.len() ==> evs[i] == WireEvent::Scroll { col: q.0, row: q.1, dir, mods });
            }
        },
    }
}

} // verus!
