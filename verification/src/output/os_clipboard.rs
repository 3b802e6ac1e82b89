//! The operating system's clipboard.

use vstd::prelude::*;
use super::OutputTarget;

verus! {

/// The operating system's clipboard.
#[derive(Debug, Clone, Copy, PartialEq, Eq)]
pub struct OsClipboard;

impl OutputTarget for OsClipboard {
    open spec fn target_name(&self) -> Seq<char> {
        "os-clipboard"@
    }

    fn name(&self) -> (n: &'static str) {
        "os-clipboard"
    }
}

} // verus!
