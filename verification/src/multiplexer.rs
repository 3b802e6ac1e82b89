//! The terminal multiplexer that the program runs inside, if any.

use vstd::prelude::*;

verus! {

/// tmux or GNU screen.
#[derive(Debug, Clone, Copy, PartialEq, Eq)]
pub enum Multiplexer {
    Tmux,
    Screen,
}

impl Multiplexer {
    /// The multiplexer that the session variables point to: tmux where `TMUX`
    /// is set, else screen where `STY` is set.
    pub fn detect_from(tmux_set: bool, sty_set: bool) -> (m: Option<Self>)
        ensures
            m == (if tmux_set {
                Some(Multiplexer::Tmux)
            } else if sty_set {
                Some(Multiplexer::Screen)
            } else {
                None
            }),
    {
        if tmux_set {
            return Some(Multiplexer::Tmux);
        }
        if sty_set {
            return Some(Multiplexer::Screen);
        }
        None
    }
}

} // verus!
