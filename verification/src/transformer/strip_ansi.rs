//! ANSI escape sequences.

use vstd::prelude::*;
use crate::error::TransformerError;
use super::{TransformDiagnostics, Transformer, Warning};

verus! {

pub struct StripAnsi;

/// The printable content of a text, escape sequences removed, as
/// `anstream::adapter::StripStr` gives it.
pub uninterp spec fn ansi_stripped(text: Seq<char>) -> Seq<char>;

/// A character that the stripper always keeps where no escape sequence is
/// open: the ASCII white space `\t`, `\n`, form feed and `\r`, the printable
/// ASCII characters, and every character from U+0080 on.
pub open spec fn kept_char(c: char) -> bool {
    ||| c == '\t'
    ||| c == '\n'
    ||| c == '\x0c'
    ||| c == '\r'
    ||| (' ' <= c && c <= '~')
    ||| c >= '\u{80}'
}

/// Text made only of characters that the stripper keeps: no escape
/// character, no other control character and no DEL.
pub open spec fn plain(s: Seq<char>) -> bool {
    forall|i: int| 0 <= i < s.len() ==> kept_char(#[trigger] s[i])
}

/// `anstream::adapter::StripStr::new` and `StripStr::strip_next`, the printable
/// pieces collected into one string. The contract names the result, and
/// claims what the source shows of it (adapter/strip.rs `next_str` and
/// `is_printable_bytes`, anstyle-parse's state table): starting in the ground
/// state, a run of characters that are printable ASCII, ASCII white space
/// other than vertical tab, or from U+0080 on (their lead bytes begin UTF-8
/// and their continuation bytes are kept), is given out as it is, and the
/// stripper is back in the ground state after it. So a plain start of the
/// text is kept and the rest is stripped as if on its own, and plain text
/// comes back unchanged.
#[verifier::external_body]
fn strip_escapes(text: &str) -> (out: String)
    ensures
        out@ == ansi_stripped(text@),
        plain(text@) ==> out@ == text@,
        forall|k: int|
            0 <= k <= text@.len() && plain(#[trigger] text@.take(k)) ==> out@ == text@.take(k)
                + ansi_stripped(text@.skip(k)),
{
    let mut stripper = anstream::adapter::StripStr::new();
    stripper.strip_next(text).collect()
}

impl Transformer for StripAnsi {
    open spec fn accepts(&self, text: Seq<char>) -> bool {
        true
    }

    open spec fn result_of(&self, text: Seq<char>) -> Seq<char> {
        ansi_stripped(text)
    }

    open spec fn warnings_of(&self, text: Seq<char>) -> Seq<Warning> {
        Seq::empty()
    }

    open spec fn name_of(&self) -> Seq<char> {
        "strip_ansi"@
    }

    fn name(&self) -> (n: &'static str) {
        "strip_ansi"
    }

    /// Only escape sequences and control characters go: plain text comes
    /// back unchanged, tabs included, and a plain start of the text is kept as
    /// it is.
    fn transform(&self, text: &str) -> (res: Result<String, TransformerError>)
        ensures
            res matches Ok(out) && (plain(text@) ==> out@ == text@),
            res matches Ok(out) && forall|k: int|
                0 <= k <= text@.len() && plain(#[trigger] text@.take(k)) ==> out@ == text@.take(k)
                    + ansi_stripped(text@.skip(k)),
    {
        Ok(strip_escapes(text))
    }

    fn transform_with_diagnostics(&self, text: &str) -> (res: Result<
        (String, TransformDiagnostics),
        TransformerError,
    >)
        ensures
            res matches Ok((out, _d)) && (plain(text@) ==> out@ == text@),
    {
        let out = strip_escapes(text);
        Ok((out, TransformDiagnostics::default()))
    }
}

} // verus!
