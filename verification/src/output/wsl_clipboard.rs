//! The Windows clipboard, from WSL through `clip.exe`.

use vstd::prelude::*;
use super::OutputTarget;

verus! {

/// The Windows clipboard, from WSL through `clip.exe`.
#[derive(Debug, Clone, Copy, PartialEq, Eq)]
pub struct WslClipboard;

impl OutputTarget for WslClipboard {
    open spec fn target_name(&self) -> Seq<char> {
        "wsl-clipboard"@
    }

    fn name(&self) -> (n: &'static str) {
        "wsl-clipboard"
    }
}

} // verus!
