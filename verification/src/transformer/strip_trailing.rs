//! Trailing white space and trailing blank lines.

use vstd::prelude::*;
use crate::error::TransformerError;
use crate::text::{
    ends_with_newline, is_ws, join_chars, join_lines, leading_ws, lemma_trailing_ws_bounds,
    lemma_ws_run_bounds, lines_of, split_lines, string_from, trailing_ws, trim_end, trim_end_chars,
    trim_start, trim_start_chars, views,
};
use super::{TransformDiagnostics, Transformer, Warning};

verus! {

pub struct StripTrailing;

/// `s` without the line feeds at its end.
pub open spec fn drop_final_newlines(s: Seq<char>) -> Seq<char>
    decreases s.len(),
{
    if ends_with_newline(s) {
        drop_final_newlines(s.drop_last())
    } else {
        s
    }
}

/// Each line trimmed at its end.
pub open spec fn trimmed_lines(text: Seq<char>) -> Seq<Seq<char>> {
    lines_of(text).map_values(|l: Seq<char>| trim_end(l))
}

/// Each line trimmed at its end, the lines joined, the final line feeds
/// dropped, and a text of a single line trimmed at its start too.
pub open spec fn strip_trailing_text(text: Seq<char>) -> Seq<char> {
    let joined = join_lines(trimmed_lines(text));
    let r = drop_final_newlines(joined);
    if r.contains('\n') {
        r
    } else {
        trim_start(r)
    }
}

/// Whether `v` holds a line feed.
fn contains_newline(v: &Vec<char>) -> (b: bool)
    ensures
        b == v@.contains('\n'),
{
    let n = v.len();
    let mut i: usize = 0;
    while i < n
        invariant
            n == v@.len(),
            i <= n,
            forall|j: int| 0 <= j < i ==> v@[j] != '\n',
        decreases n - i,
    {
        if v[i] == '\n' {
            return true;
        }
        i = i + 1;
    }
    false
}

/// Dropping the final line feeds one at a time while two of them end the text,
/// and then the last one, drops them all.
proof fn lemma_drop_final_newlines(s: Seq<char>)
    requires
        !(s.len() >= 2 && s[s.len() - 1] == '\n' && s[s.len() - 2] == '\n'),
    ensures
        drop_final_newlines(s) == (if ends_with_newline(s) { s.drop_last() } else { s }),
{
    if ends_with_newline(s) {
        let d = s.drop_last();
        if d.len() > 0 {
            assert(d.last() == s[s.len() - 2]);
        }
        assert(!ends_with_newline(d));
        assert(drop_final_newlines(d) == d);
    }
}

/// The sequence ends with a character that is not white space, or is empty.
pub open spec fn ends_clean(s: Seq<char>) -> bool {
    s.len() == 0 || !is_ws(s.last())
}

/// A line trimmed at its end ends clean.
proof fn lemma_trim_end_clean(l: Seq<char>)
    ensures
        ends_clean(trim_end(l)),
{
    lemma_trailing_ws_bounds(l);
    let t = trim_end(l);
    if t.len() > 0 {
        assert(t.last() == l[l.len() - trailing_ws(l) - 1]);
    }
}

/// Lines that each end clean, joined, with the final line feeds dropped, end clean.
proof fn lemma_join_drop_clean(ls: Seq<Seq<char>>)
    requires
        forall|k: int| 0 <= k < ls.len() ==> ends_clean(#[trigger] ls[k]),
    ensures
        ends_clean(drop_final_newlines(join_lines(ls))),
    decreases ls.len(),
{
    let j = join_lines(ls);
    if ls.len() == 1 {
        assert(!ends_with_newline(j));
    } else if ls.len() >= 2 {
        let last = ls.last();
        let front = join_lines(ls.drop_last());
        assert(j == front + seq!['\n'] + last);
        if last.len() > 0 {
            assert(j.last() == last.last());
            assert(!ends_with_newline(j));
        } else {
            assert(j =~= front.push('\n'));
            assert(j.drop_last() =~= front);
            assert forall|k: int| 0 <= k < ls.drop_last().len() implies ends_clean(
                #[trigger] ls.drop_last()[k],
            ) by {
                assert(ls.drop_last()[k] == ls[k]);
            }
            lemma_join_drop_clean(ls.drop_last());
        }
    }
}

/// Stripping leaves no white space at the end of the text: every line is
/// trimmed at its end and the final blank lines are gone.
pub proof fn lemma_strip_trailing_ends_clean(text: Seq<char>)
    ensures
        ends_clean(strip_trailing_text(text)),
        forall|k: int| 0 <= k < trimmed_lines(text).len() ==> ends_clean(#[trigger] trimmed_lines(text)[k]),
{
    let ls = trimmed_lines(text);
    assert forall|k: int| 0 <= k < ls.len() implies ends_clean(#[trigger] ls[k]) by {
        lemma_trim_end_clean(lines_of(text)[k]);
    }
    lemma_join_drop_clean(ls);
    let r = drop_final_newlines(join_lines(ls));
    if !r.contains('\n') && r.len() > 0 {
        lemma_ws_run_bounds(r, 0);
        let w = leading_ws(r);
        if w == r.len() {
            assert(is_ws(r[r.len() - 1]));
        }
        let t = trim_start(r);
        assert(t.last() == r.last());
    }
}

impl StripTrailing {
    fn strip(text: &str) -> (out: String)
        ensures
            out@ == strip_trailing_text(text@),
    {
        let lines = split_lines(text);
        let mut trimmed: Vec<Vec<char>> = Vec::new();
        let n = lines.len();
        let mut i: usize = 0;
        while i < n
            invariant
                n == lines@.len(),
                views(lines@) == lines_of(text@),
                i <= n,
                views(trimmed@) == lines_of(text@).take(i as int).map_values(
                    |l: Seq<char>| trim_end(l),
                ),
            decreases n - i,
        {
            let t = trim_end_chars(&lines[i]);
            proof {
                assert(views(lines@)[i as int] == lines@[i as int]@);
            }
            let ghost before = views(trimmed@);
            trimmed.push(t);
            proof {
                assert(views(trimmed@) =~= before.push(t@));
                assert(views(trimmed@) =~= lines_of(text@).take(i + 1).map_values(
                    |l: Seq<char>| trim_end(l),
                ));
            }
            i = i + 1;
        }
        proof {
            assert(lines_of(text@).take(n as int) =~= lines_of(text@));
        }
        let mut r = join_chars(&trimmed);
        let ghost joined = r@;
        while r.len() >= 2 && r[r.len() - 1] == '\n' && r[r.len() - 2] == '\n'
            invariant
                drop_final_newlines(r@) == drop_final_newlines(joined),
            decreases r@.len(),
        {
            let ghost before = r@;
            r.pop();
            proof {
                assert(r@ =~= before.drop_last());
            }
        }
        proof {
            lemma_drop_final_newlines(r@);
        }
        if r.len() > 0 && r[r.len() - 1] == '\n' {
            r.pop();
        }
        if contains_newline(&r) {
            string_from(&r)
        } else {
            let t = trim_start_chars(&r);
            string_from(&t)
        }
    }
}

impl Transformer for StripTrailing {
    open spec fn accepts(&self, text: Seq<char>) -> bool {
        true
    }

    open spec fn result_of(&self, text: Seq<char>) -> Seq<char> {
        strip_trailing_text(text)
    }

    open spec fn warnings_of(&self, text: Seq<char>) -> Seq<Warning> {
        Seq::empty()
    }

    open spec fn name_of(&self) -> Seq<char> {
        "strip_trailing"@
    }

    fn name(&self) -> (n: &'static str) {
        "strip_trailing"
    }

    fn transform(&self, text: &str) -> (res: Result<String, TransformerError>) {
        Ok(Self::strip(text))
    }

    fn transform_with_diagnostics(&self, text: &str) -> (res: Result<
        (String, TransformDiagnostics),
        TransformerError,
    >) {
        Ok((Self::strip(text), TransformDiagnostics::default()))
    }
}

} // verus!
