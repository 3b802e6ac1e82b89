//! The GNU screen paste buffer.

use vstd::prelude::*;
use super::OutputTarget;

verus! {

/// The GNU screen paste buffer.
#[derive(Debug, Clone, Copy, PartialEq, Eq)]
pub struct ScreenBuffer;

impl OutputTarget for ScreenBuffer {
    open spec fn target_name(&self) -> Seq<char> {
        "screen-buffer"@
    }

    fn name(&self) -> (n: &'static str) {
        "screen-buffer"
    }
}

} // verus!
