//! Lines that hold nothing but a shell prompt.

use vstd::prelude::*;
use crate::error::TransformerError;
use crate::pattern::{compile, is_match, prompt_pattern};
use crate::text::{chars_of, lines_of, rejoin, rejoin_lines, split_lines, string_from, trim, views};
use super::{TransformDiagnostics, Transformer, Warning};

verus! {

pub struct StripPrompt;

/// A line that, white space aside, is one of the prompts `❯`, `$`, `%`, `>` or `>>>`.
pub open spec fn is_bare_prompt(l: Seq<char>) -> bool {
    let t = trim(l);
    ||| t == seq!['\u{276f}']
    ||| t == seq!['$']
    ||| t == seq!['%']
    ||| t == seq!['>']
    ||| t == seq!['>', '>', '>']
}

/// The line is not a bare prompt.
pub open spec fn keeps_line(l: Seq<char>) -> bool {
    !is_bare_prompt(l)
}

/// The lines that are not bare prompts, in order.
pub open spec fn kept_lines(ls: Seq<Seq<char>>) -> Seq<Seq<char>> {
    ls.filter(|l: Seq<char>| keeps_line(l))
}

/// The lines of the text without its bare prompts.
pub open spec fn strip_prompt_text(text: Seq<char>) -> Seq<char> {
    rejoin(kept_lines(lines_of(text)), text)
}

/// No line of the result is a bare prompt, and every line that is not one
/// is kept, in order.
pub proof fn lemma_no_prompt_left(ls: Seq<Seq<char>>)
    ensures
        forall|k: int| 0 <= k < kept_lines(ls).len() ==> !is_bare_prompt(#[trigger] kept_lines(ls)[k]),
        forall|k: int| 0 <= k < ls.len() && !is_bare_prompt(#[trigger] ls[k]) ==> kept_lines(ls).contains(ls[k]),
{
    let p = |l: Seq<char>| keeps_line(l);
    assert forall|k: int| 0 <= k < kept_lines(ls).len() implies !is_bare_prompt(#[trigger] kept_lines(ls)[k]) by {
        ls.lemma_filter_pred(p, k);
    }
    assert forall|k: int| 0 <= k < ls.len() && !is_bare_prompt(#[trigger] ls[k]) implies kept_lines(ls).contains(ls[k]) by {
        ls.lemma_filter_contains(p, k);
    }
}

impl StripPrompt {
    fn strip(text: &str) -> (res: Result<String, TransformerError>)
        ensures
            res matches Ok(out) && out@ == strip_prompt_text(text@),
    {
        let re = match compile("^\\s*(?:\u{276F}|[$%>]|>>>)\\s*$") {
            Ok(c) => c,
            Err(e) => {
                return Err(TransformerError::Regex(e));
            },
        };
        let lines = split_lines(text);
        let ghost ls = lines_of(text@);
        let ghost pred = |l: Seq<char>| keeps_line(l);
        let mut result: Vec<Vec<char>> = Vec::new();
        let n = lines.len();
        let mut i: usize = 0;
        while i < n
            invariant
                n == lines@.len(),
                views(lines@) == ls,
                i <= n,
                pred == (|l: Seq<char>| keeps_line(l)),
                re.pattern() == prompt_pattern(),
                views(result@) == ls.take(i as int).filter(pred),
            decreases n - i,
        {
            proof {
                assert(views(lines@)[i as int] == lines@[i as int]@);
                assert(ls.take(i + 1) =~= ls.take(i as int).push(ls[i as int]));
                ls.take(i as int).lemma_filter_push(ls[i as int], pred);
            }
            let s = string_from(&lines[i]);
            if !is_match(&re, s.as_str()) {
                let ghost before = views(result@);
                result.push(lines[i].clone());
                proof {
                    assert(views(result@) =~= before.push(ls[i as int]));
                }
            }
            i = i + 1;
        }
        proof {
            assert(ls.take(n as int) =~= ls);
        }
        let original = chars_of(text);
        Ok(rejoin_lines(&result, &original))
    }
}

impl Transformer for StripPrompt {
    open spec fn accepts(&self, text: Seq<char>) -> bool {
        true
    }

    open spec fn result_of(&self, text: Seq<char>) -> Seq<char> {
        strip_prompt_text(text)
    }

    open spec fn warnings_of(&self, text: Seq<char>) -> Seq<Warning> {
        Seq::empty()
    }

    open spec fn name_of(&self) -> Seq<char> {
        "strip_prompt"@
    }

    fn name(&self) -> (n: &'static str) {
        "strip_prompt"
    }

    fn transform(&self, text: &str) -> (res: Result<String, TransformerError>) {
        Self::strip(text)
    }

    fn transform_with_diagnostics(&self, text: &str) -> (res: Result<
        (String, TransformDiagnostics),
        TransformerError,
    >) {
        match Self::strip(text) {
            Ok(out) => Ok((out, TransformDiagnostics::default())),
            Err(e) => Err(e),
        }
    }
}

} // verus!
