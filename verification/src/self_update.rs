//! `tu self update`: what to report and whether to install, once the latest
//! release is known.

use vstd::prelude::*;

use crate::chars::{push_str, string_of};
use crate::version::{is_newer, newer};

verus! {

/// Actions of `tu self`.
#[derive(Debug, Clone, Copy, PartialEq, Eq, Structural)]
pub enum SelfAction {
    /// Update tu to the latest release.
    Update(UpdateArgs),
}

/// Options of `tu self update`.
#[derive(Debug, Clone, Copy, PartialEq, Eq, Structural)]
pub struct UpdateArgs {
    /// Only report whether an update is available; install nothing.
    pub check: bool,
}

/// What `tu self update` prints, and whether it goes on to install.
#[derive(Debug, Clone)]
pub struct UpdatePlan {
    pub lines: Vec<String>,
    pub install: bool,
}

/// The lines printed for the running version `current` and the latest
/// release `latest`: nothing to do unless `latest` is newer; with `check`
/// only a notice, otherwise the announcement of the update.
pub open spec fn update_text(check: bool, current: Seq<char>, latest: Seq<char>) -> Seq<Seq<char>> {
    if !newer(current, latest) {
        seq!["tu "@ + current + " is already the latest version."@]
    } else if check {
        seq!["Update available: "@ + current + " -> "@ + latest, "Run `tu self update` to upgrade."@]
    } else {
        seq!["Updating tu "@ + current + " -> "@ + latest]
    }
}

/// Whether the update is installed: only when `latest` is newer and the
/// user did not ask for a check alone.
pub open spec fn update_installs(check: bool, current: Seq<char>, latest: Seq<char>) -> bool {
    newer(current, latest) && !check
}

/// Decides what `tu self update` reports and does; see `update_text` and
/// `update_installs`.
pub fn plan_update(args: &UpdateArgs, current: &str, latest: &str) -> (p: UpdatePlan)
    ensures
        p.lines@.map_values(|l: String| l@) == update_text(args.check, current@, latest@),
        p.install == update_installs(args.check, current@, latest@),
{
    let mut lines: Vec<String> = Vec::new();
    if !is_newer(current, latest) {
        let mut a: Vec<char> = Vec::new();
        push_str(&mut a, "tu ");
        push_str(&mut a, current);
        push_str(&mut a, " is already the latest version.");
        lines.push(string_of(&a));
        assert(lines@.map_values(|l: String| l@) =~= update_text(args.check, current@, latest@));
        return UpdatePlan { lines, install: false };
    }
    if args.check {
        let mut a: Vec<char> = Vec::new();
        push_str(&mut a, "Update available: ");
        push_str(&mut a, current);
        push_str(&mut a, " -> ");
        push_str(&mut a, latest);
        lines.push(string_of(&a));
        lines.push("Run `tu self update` to upgrade.".to_owned());
        assert(lines@.map_values(|l: String| l@) =~= update_text(args.check, current@, latest@));
        return UpdatePlan { lines, install: false };
    }
    let mut a: Vec<char> = Vec::new();
    push_str(&mut a, "Updating tu ");
    push_str(&mut a, current);
    push_str(&mut a, " -> ");
    push_str(&mut a, latest);
    lines.push(string_of(&a));
    assert(lines@.map_values(|l: String| l@) =~= update_text(args.check, current@, latest@));
    UpdatePlan { lines, install: true }
}

} // verus!
