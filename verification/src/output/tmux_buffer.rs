//! A tmux paste buffer.

use vstd::prelude::*;
use super::OutputTarget;

verus! {

/// A tmux paste buffer.
#[derive(Debug, Clone, Copy, PartialEq, Eq)]
pub struct TmuxBuffer;

impl OutputTarget for TmuxBuffer {
    open spec fn target_name(&self) -> Seq<char> {
        "tmux-buffer"@
    }

    fn name(&self) -> (n: &'static str) {
        "tmux-buffer"
    }
}

} // verus!
