//! Standard output.

use vstd::prelude::*;
use super::OutputTarget;

verus! {

/// Standard output.
#[derive(Debug, Clone, Copy, PartialEq, Eq)]
pub struct Stdout;

impl OutputTarget for Stdout {
    open spec fn target_name(&self) -> Seq<char> {
        "stdout"@
    }

    fn name(&self) -> (n: &'static str) {
        "stdout"
    }
}

} // verus!
