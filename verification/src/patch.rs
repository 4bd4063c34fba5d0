//! The offline-patch stage's error taxonomy: every landmark the stage
//! must find is checked, and a missing one is a reported failure, never
//! a silent no-op that would ship an unpatched bundle.

use vstd::prelude::*;

verus! {

/// Why a patch step refused a bundle artifact.
#[derive(Clone, Copy, PartialEq, Eq, Structural, Debug)]
pub enum PatchError {
    /// The script lacks the initialization-closure anchor line.
    AnchorMissing,
    /// The script lacks the fetch-path fallback block.
    FetchPatternMissing,
    /// A module script block opens but never closes.
    UnclosedModuleScript,
    /// A preload link tag never closes.
    UnclosedLink,
    /// The HTML shell has no head end tag to install the loader before.
    HeadMissing,
    /// A module script block would remain in the patched shell.
    ResidualModuleScript,
    /// A cross-origin attribute would remain in the patched shell.
    ResidualCrossOrigin,
    /// The patched shell would not reference the script exactly once.
    ScriptRefMiscount,
}

} // verus!
