//! Settings of the command-line run.

use vstd::prelude::*;

use crate::text::same_text;

verus! {

/// How many trending rows one run asks for.
pub const DEFAULT_LIMIT: u32 = 200;

/// How many models a dry run previews.
pub const DRY_RUN_PREVIEW: usize = 5;

/// A dry run is asked for by `DRY_RUN=true` or `DRY_RUN=1`; an unset or
/// unreadable variable means no.
pub open spec fn dry_run_spec(value: Option<&str>) -> bool {
    match value {
        Some(v) => v@ == "true"@ || v@ == "1"@,
        None => false,
    }
}

/// Whether the value of `DRY_RUN` (when set and readable) asks for a dry run.
pub fn dry_run_requested(value: Option<&str>) -> (r: bool)
    ensures
        r == dry_run_spec(value),
{
    match value {
        Some(v) => same_text(v, "true") || same_text(v, "1"),
        None => false,
    }
}

} // verus!
