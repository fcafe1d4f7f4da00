//! The `mouse` command line: turning its arguments into a mouse request.
//! Coordinates are 0-based; `--on-text` / `--on-regex` replace positional
//! coordinates by a search of the visible screen.

use vstd::prelude::*;

use crate::chars::{debug_quoted, push_str, string_of};
use crate::mouse::{mods_parse, parse_mods, ModsError};
use crate::protocol::{MouseAction, MouseButton, MouseMods, MouseTarget, ScrollDir};

verus! {

/// Screen-search targeting options.
#[derive(Debug, Clone)]
pub struct TargetOpts {
    /// Literal text to aim at.
    pub on_text: Option<String>,
    /// Regular expression to aim at.
    pub on_regex: Option<String>,
    /// Which match (0-based) when there are several.
    pub match_index: usize,
}

impl Default for TargetOpts {
    /// No search, first match.
    fn default() -> (t: Self)
        ensures
            t.on_text is None,
            t.on_regex is None,
            t.match_index == 0,
    {
        TargetOpts { on_text: None, on_regex: None, match_index: 0 }
    }
}

/// Options every mouse subcommand takes.
#[derive(Debug, Clone)]
pub struct CommonOpts {
    /// Comma-separated modifiers: Ctrl,Shift,Alt.
    pub mods: String,
    /// Session name.
    pub name: String,
    /// Send even if the application has not enabled mouse reporting.
    pub force: bool,
}

/// The `mouse` subcommands.
#[derive(Debug, Clone)]
pub enum MouseCmd {
    Click { col: Option<u16>, row: Option<u16>, target: TargetOpts, common: CommonOpts, button: MouseButton, clicks: u32 },
    Down { col: Option<u16>, row: Option<u16>, target: TargetOpts, common: CommonOpts, button: MouseButton },
    Up { col: Option<u16>, row: Option<u16>, target: TargetOpts, common: CommonOpts, button: MouseButton },
    Move { col: Option<u16>, row: Option<u16>, target: TargetOpts, common: CommonOpts },
    Drag { col1: u16, row1: u16, col2: u16, row2: u16, common: CommonOpts, button: MouseButton },
    Scroll { dir: ScrollDir, col: Option<u16>, row: Option<u16>, target: TargetOpts, common: CommonOpts, amount: u32 },
    State { name: String },
}

/// Both coordinates or neither.
pub open spec fn partial_coords_message() -> Seq<char> {
    "provide both <col> and <row>, or neither (with --on-text / --on-regex)"@
}

pub open spec fn no_target_message() -> Seq<char> {
    "no target: provide <col> <row>, --on-text, or --on-regex"@
}

pub open spec fn conflicting_target_message() -> Seq<char> {
    "specify exactly one of: positional <col> <row>, --on-text, --on-regex"@
}

/// Builds a target from positional coordinates or one of the search options;
/// exactly one way must be given.
pub fn build_target(col: Option<u16>, row: Option<u16>, t: &TargetOpts) -> (r: Result<MouseTarget, String>)
    ensures
        match r {
            Ok(x) => build_target_ok(col, row, *t, x),
            Err(m) => build_target_err(col, row, *t, m@),
        },
{
    let positional = match (col, row) {
        (Some(c), Some(r)) => Some((c, r)),
        (None, None) => None,
        _ => {
            let mut m: Vec<char> = Vec::new();
            push_str(&mut m, "provide both <col> and <row>, or neither (with --on-text / --on-regex)");
            return Err(string_of(&m));
        },
    };
    match (positional, &t.on_text, &t.on_regex) {
        (Some((c, r)), None, None) => Ok(MouseTarget::Coords { col: c, row: r }),
        (None, Some(needle), None) => Ok(MouseTarget::Text { needle: needle.clone(), match_index: t.match_index }),
        (None, None, Some(pat)) => Ok(MouseTarget::Regex { pattern: pat.clone(), match_index: t.match_index }),
        (None, None, None) => {
            let mut m: Vec<char> = Vec::new();
            push_str(&mut m, "no target: provide <col> <row>, --on-text, or --on-regex");
            Err(string_of(&m))
        },
        _ => {
            let mut m: Vec<char> = Vec::new();
            push_str(&mut m, "specify exactly one of: positional <col> <row>, --on-text, --on-regex");
            Err(string_of(&m))
        },
    }
}

/// Like `build_target`, but nothing given at all means no target.
pub fn build_optional_target(col: Option<u16>, row: Option<u16>, t: &TargetOpts) -> (r: Result<Option<MouseTarget>, String>)
    ensures
        (col is None && row is None && t.on_text is None && t.on_regex is None) ==> r == Ok::<Option<MouseTarget>, String>(None),
        !(col is None && row is None && t.on_text is None && t.on_regex is None) ==> match r {
            Ok(Some(x)) => build_target_ok(col, row, *t, x),
            Ok(None) => false,
            Err(m) => build_target_err(col, row, *t, m@),
        },
{
    if col.is_none() && row.is_none() && t.on_text.is_none() && t.on_regex.is_none() {
        return Ok(None);
    }
    match build_target(col, row, t) {
        Ok(x) => Ok(Some(x)),
        Err(m) => Err(m),
    }
}

/// What `build_target` returns on success (see its contract).
pub open spec fn build_target_ok(col: Option<u16>, row: Option<u16>, t: TargetOpts, x: MouseTarget) -> bool {
    match x {
        MouseTarget::Coords { col: c, row: w } => col == Some(c) && row == Some(w) && t.on_text is None
            && t.on_regex is None,
        MouseTarget::Text { needle, match_index } => col is None && row is None && (t.on_text matches Some(s)
            && s@ == needle@) && t.on_regex is None && match_index == t.match_index,
        MouseTarget::Regex { pattern, match_index } => col is None && row is None && t.on_text is None
            && (t.on_regex matches Some(s) && s@ == pattern@) && match_index == t.match_index,
    }
}

/// What `build_target` fails with (see its contract).
pub open spec fn build_target_err(col: Option<u16>, row: Option<u16>, t: TargetOpts, m: Seq<char>) -> bool {
    if col is Some != row is Some {
        m == partial_coords_message()
    } else if col is None && t.on_text is None && t.on_regex is None {
        m == no_target_message()
    } else {
        m == conflicting_target_message() && (col is Some && (t.on_text is Some || t.on_regex is Some)
            || t.on_text is Some && t.on_regex is Some)
    }
}

/// The names of the held modifiers, `ctrl`, `shift`, `alt` in that order,
/// joined by commas.
pub open spec fn mods_text(m: MouseMods) -> Seq<char> {
    let parts = (if m.ctrl { seq!["ctrl"@] } else { Seq::<Seq<char>>::empty() })
        + (if m.shift { seq!["shift"@] } else { Seq::<Seq<char>>::empty() })
        + (if m.alt { seq!["alt"@] } else { Seq::<Seq<char>>::empty() });
    join_with_commas(parts)
}

/// Words joined by `,`.
pub open spec fn join_with_commas(parts: Seq<Seq<char>>) -> Seq<char>
    decreases parts.len(),
{
    if parts.len() == 0 {
        Seq::<char>::empty()
    } else if parts.len() == 1 {
        parts[0]
    } else {
        join_with_commas(parts.drop_last()) + ","@ + parts.last()
    }
}

/// The modifier list as text, e.g. `"ctrl,alt"`.
pub fn mods_to_str(mods: &MouseMods) -> (r: String)
    ensures
        r@ == mods_text(*mods),
{
    let mut out: Vec<char> = Vec::new();
    let ghost mut parts: Seq<Seq<char>> = Seq::empty();
    if mods.ctrl {
        push_str(&mut out, "ctrl");
        proof {
            parts = parts.push("ctrl"@);
        }
    }
    assert(out@ == join_with_commas(parts));
    if mods.shift {
        if out.len() > 0 {
            push_str(&mut out, ",");
        }
        push_str(&mut out, "shift");
        proof {
            let p0 = parts;
            parts = parts.push("shift"@);
            assert(parts.drop_last() == p0);
        }
    }
    assert(out@ == join_with_commas(parts)) by {
        reveal_strlit("ctrl");
        reveal_strlit("shift");
    }
    if mods.alt {
        if out.len() > 0 {
            push_str(&mut out, ",");
        }
        push_str(&mut out, "alt");
        proof {
            let p0 = parts;
            parts = parts.push("alt"@);
            assert(parts.drop_last() == p0);
        }
    }
    assert(out@ == join_with_commas(parts)) by {
        reveal_strlit("ctrl");
        reveal_strlit("shift");
        reveal_strlit("alt");
    }
    assert(parts =~= (if mods.ctrl { seq!["ctrl"@] } else { Seq::<Seq<char>>::empty() })
        + (if mods.shift { seq!["shift"@] } else { Seq::<Seq<char>>::empty() })
        + (if mods.alt { seq!["alt"@] } else { Seq::<Seq<char>>::empty() }));
    string_of(&out)
}

} // verus!

verus! {

/// A modifier list's meaning: the modifiers, or the message for its first
/// bad piece.
pub open spec fn mods_result(s: Seq<char>) -> Result<MouseMods, Seq<char>> {
    let parts = crate::chars::split_on(s, ',');
    match mods_parse(parts) {
        Ok(m) => Ok(m),
        Err(i) => Err(
            if crate::mouse::unrepresentable_modifier(crate::mouse::mods_piece_token(parts[i])) {
                "modifier "@ + debug_quoted(parts[i])
                    + " is not representable in the xterm mouse protocol (only Ctrl, Shift, Alt are supported)"@
            } else {
                "unknown modifier "@ + debug_quoted(parts[i]) + ". Valid: Ctrl, Shift, Alt"@
            },
        ),
    }
}

/// `parse_mods` with its error turned into the user-facing message.
pub fn parse_mods_message(s: &str) -> (r: Result<MouseMods, String>)
    ensures
        match r {
            Ok(m) => mods_result(s@) == Ok::<MouseMods, Seq<char>>(m),
            Err(m) => mods_result(s@) == Err::<MouseMods, Seq<char>>(m@),
        },
{
    match parse_mods(s) {
        Ok(m) => Ok(m),
        Err(e) => Err(e.message()),
    }
}

/// What a `mouse` command asks the daemon for.
#[derive(Debug, Clone)]
pub enum MouseCommandPlan {
    /// Report the session's mouse state.
    State { name: String },
    /// Perform a mouse action in a session.
    Send { name: String, action: MouseAction, force: bool },
}

/// The action requested by a positional command, given its resolved target
/// and modifiers (`None` for State, Drag and Scroll, handled apart).
pub open spec fn positional_action(cmd: MouseCmd, target: MouseTarget, mods: MouseMods) -> Option<MouseAction> {
    match cmd {
        MouseCmd::Click { button, clicks, .. } => Some(MouseAction::Click { target, button, mods, clicks }),
        MouseCmd::Down { button, .. } => Some(MouseAction::Down { target, button, mods }),
        MouseCmd::Up { button, .. } => Some(MouseAction::Up { target, button, mods }),
        MouseCmd::Move { .. } => Some(MouseAction::Move { target, mods }),
        _ => None,
    }
}

/// Turns a `mouse` command into a request. Positional commands report a bad
/// target before bad modifiers; Scroll checks its modifiers first.
pub fn plan_mouse_command(cmd: MouseCmd) -> (r: Result<MouseCommandPlan, String>)
    ensures
        match cmd {
            MouseCmd::State { name } => r matches Ok(MouseCommandPlan::State { name: n }) && n == name,
            MouseCmd::Drag { col1, row1, col2, row2, common, button } => match mods_result(common.mods@) {
                Err(m) => r matches Err(e) && e@ == m,
                Ok(mods) => r matches Ok(MouseCommandPlan::Send { name, action, force }) && name == common.name
                    && force == common.force && action == (MouseAction::Drag {
                    from: MouseTarget::Coords { col: col1, row: row1 },
                    to: MouseTarget::Coords { col: col2, row: row2 },
                    button,
                    mods,
                }),
            },
            MouseCmd::Scroll { dir, col, row, target, common, amount } => match mods_result(common.mods@) {
                Err(m) => r matches Err(e) && e@ == m,
                Ok(mods) => if col is None && row is None && target.on_text is None && target.on_regex is None {
                    r matches Ok(MouseCommandPlan::Send { name, action, force }) && name == common.name
                        && force == common.force && action == (MouseAction::Scroll { target: None, dir, amount, mods })
                } else {
                    match r {
                        Ok(MouseCommandPlan::Send { name, action: MouseAction::Scroll { target: Some(t), dir: d, amount: a, mods: m }, force }) =>
                            name == common.name && force == common.force && d == dir && a == amount && m == mods
                            && build_target_ok(col, row, target, t),
                        Err(e) => build_target_err(col, row, target, e@),
                        _ => false,
                    }
                },
            },
            MouseCmd::Click { col, row, target, common, .. } => positional_plan(cmd, col, row, target, common, r),
            MouseCmd::Down { col, row, target, common, .. } => positional_plan(cmd, col, row, target, common, r),
            MouseCmd::Up { col, row, target, common, .. } => positional_plan(cmd, col, row, target, common, r),
            MouseCmd::Move { col, row, target, common } => positional_plan(cmd, col, row, target, common, r),
        },
{
    match cmd {
        MouseCmd::State { name } => Ok(MouseCommandPlan::State { name }),
        MouseCmd::Click { col, row, target, common, button, clicks } => {
            let t = match build_target(col, row, &target) {
                Ok(t) => t,
                Err(e) => return Err(e),
            };
            assert(build_target_ok(col, row, target, t));
            let mods = match parse_mods_message(common.mods.as_str()) {
                Ok(m) => m,
                Err(e) => return Err(e),
            };
            assert(mods_result(common.mods@) == Ok::<MouseMods, Seq<char>>(mods));
            let ghost tg = t;
            let action = MouseAction::Click { target: t, button, mods, clicks };
            assert(positional_action(cmd, tg, mods) == Some(action));
            Ok(MouseCommandPlan::Send { name: common.name, action, force: common.force })
        },
        MouseCmd::Down { col, row, target, common, button } => {
            let t = match build_target(col, row, &target) {
                Ok(t) => t,
                Err(e) => return Err(e),
            };
            assert(build_target_ok(col, row, target, t));
            let mods = match parse_mods_message(common.mods.as_str()) {
                Ok(m) => m,
                Err(e) => return Err(e),
            };
            assert(mods_result(common.mods@) == Ok::<MouseMods, Seq<char>>(mods));
            let ghost tg = t;
            let action = MouseAction::Down { target: t, button, mods };
            assert(positional_action(cmd, tg, mods) == Some(action));
            Ok(MouseCommandPlan::Send { name: common.name, action, force: common.force })
        },
        MouseCmd::Up { col, row, target, common, button } => {
            let t = match build_target(col, row, &target) {
                Ok(t) => t,
                Err(e) => return Err(e),
            };
            assert(build_target_ok(col, row, target, t));
            let mods = match parse_mods_message(common.mods.as_str()) {
                Ok(m) => m,
                Err(e) => return Err(e),
            };
            assert(mods_result(common.mods@) == Ok::<MouseMods, Seq<char>>(mods));
            let ghost tg = t;
            let action = MouseAction::Up { target: t, button, mods };
            assert(positional_action(cmd, tg, mods) == Some(action));
            Ok(MouseCommandPlan::Send { name: common.name, action, force: common.force })
        },
        MouseCmd::Move { col, row, target, common } => {
            let t = match build_target(col, row, &target) {
                Ok(t) => t,
                Err(e) => return Err(e),
            };
            assert(build_target_ok(col, row, target, t));
            let mods = match parse_mods_message(common.mods.as_str()) {
                Ok(m) => m,
                Err(e) => return Err(e),
            };
            assert(mods_result(common.mods@) == Ok::<MouseMods, Seq<char>>(mods));
            let ghost tg = t;
            let action = MouseAction::Move { target: t, mods };
            assert(positional_action(cmd, tg, mods) == Some(action));
            Ok(MouseCommandPlan::Send { name: common.name, action, force: common.force })
        },
        MouseCmd::Drag { col1, row1, col2, row2, common, button } => {
            let mods = match parse_mods_message(common.mods.as_str()) {
                Ok(m) => m,
                Err(e) => return Err(e),
            };
            Ok(MouseCommandPlan::Send {
                name: common.name,
                action: MouseAction::Drag {
                    from: MouseTarget::Coords { col: col1, row: row1 },
                    to: MouseTarget::Coords { col: col2, row: row2 },
                    button,
                    mods,
                },
                force: common.force,
            })
        },
        MouseCmd::Scroll { dir, col, row, target, common, amount } => {
            let mods = match parse_mods_message(common.mods.as_str()) {
                Ok(m) => m,
                Err(e) => return Err(e),
            };
            let resolved = match build_optional_target(col, row, &target) {
                Ok(t) => t,
                Err(e) => return Err(e),
            };
            Ok(MouseCommandPlan::Send { name: common.name, action: MouseAction::Scroll { target: resolved, dir, amount, mods }, force: common.force })
        },
    }
}

/// The result a positional command (Click, Down, Up, Move) must give: a bad
/// target first, then bad modifiers, else the action.
pub open spec fn positional_plan(
    cmd: MouseCmd,
    col: Option<u16>,
    row: Option<u16>,
    target: TargetOpts,
    common: CommonOpts,
    r: Result<MouseCommandPlan, String>,
) -> bool {
    match r {
        Err(e) => build_target_err(col, row, target, e@) || (exists|t: MouseTarget| build_target_ok(col, row, target, t))
            && mods_result(common.mods@) == Err::<MouseMods, Seq<char>>(e@),
        Ok(MouseCommandPlan::Send { name, action, force }) => name == common.name && force == common.force
            && exists|t: MouseTarget, m: MouseMods| build_target_ok(col, row, target, t) && mods_result(common.mods@)
                == Ok::<MouseMods, Seq<char>>(m) && positional_action(cmd, t, m) == Some(action),
        _ => false,
    }
}

} // verus!
