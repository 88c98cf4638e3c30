//! Kernel module loading policy: which directory entries count as loadable
//! module files, and the best-effort summary of a loading pass. A per-file
//! load failure is counted, never fatal: a missing optional driver must not
//! block boot.

use vstd::prelude::*;
use crate::strutil::{has_suffix, str_ends_with};

verus! {

/// Whether a file name names a kernel module: it ends in `.ko`, `.ko.xz`, or
/// `.ko.gz`.
pub open spec fn is_module_file_name(name: Seq<char>) -> bool {
    has_suffix(name, ".ko"@) || has_suffix(name, ".ko.xz"@) || has_suffix(name, ".ko.gz"@)
}

/// Whether `name` names a kernel module file (plain or compressed).
pub fn is_module_file(name: &str) -> (r: bool)
    ensures
        r == is_module_file_name(name@),
{
    str_ends_with(name, ".ko") || str_ends_with(name, ".ko.xz") || str_ends_with(name, ".ko.gz")
}

/// The tally of one best-effort module loading pass.
#[derive(Debug, Clone, Copy, PartialEq, Eq, Structural)]
pub struct ModuleLoadSummary {
    /// Modules loaded successfully.
    pub loaded: u64,
    /// Modules whose load attempt failed; counted, never fatal.
    pub failed: u64,
}

impl ModuleLoadSummary {
    /// The tally before any file is attempted.
    pub fn new() -> (r: Self)
        ensures
            r.loaded == 0,
            r.failed == 0,
    {
        ModuleLoadSummary { loaded: 0, failed: 0 }
    }

    /// Count one attempted module: loaded when `ok`, failed otherwise.
    pub fn record(&mut self, ok: bool)
        requires
            old(self).loaded < u64::MAX,
            old(self).failed < u64::MAX,
        ensures
            final(self).loaded == old(self).loaded + if ok {
                1int
            } else {
                0int
            },
            final(self).failed == old(self).failed + if ok {
                0int
            } else {
                1int
            },
    {
        if ok {
            self.loaded = self.loaded + 1;
        } else {
            self.failed = self.failed + 1;
        }
    }

    /// Every module attempted, loaded or failed.
    pub fn total(&self) -> (r: u64)
        requires
            self.loaded + self.failed <= u64::MAX,
        ensures
            r == self.loaded + self.failed,
    {
        self.loaded + self.failed
    }
}

} // verus!
