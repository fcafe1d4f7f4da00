//! Choosing between human-readable and JSON output.

use vstd::prelude::*;

verus! {

/// Output format.
#[derive(Debug, Clone, Copy, PartialEq, Eq, Structural)]
pub enum Format {
    Human,
    Json,
}

/// The output format: JSON when asked for, otherwise human-readable on a
/// terminal and JSON for anything else (a pipe, a file, an agent).
pub fn resolve_format(json_flag: bool, stdout_is_terminal: bool) -> (f: Format)
    ensures
        f == (if json_flag || !stdout_is_terminal { Format::Json } else { Format::Human }),
{
    if json_flag {
        Format::Json
    } else if stdout_is_terminal {
        Format::Human
    } else {
        Format::Json
    }
}

} // verus!
