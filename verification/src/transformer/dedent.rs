//! Indentation common to the lines after the first.

use vstd::prelude::*;
use crate::error::TransformerError;
use crate::text::{
    chars_of, is_blank, is_blank_line, leading_ws, leading_ws_count, lines_of, rejoin, rejoin_lines,
    skip_chars, split_lines, string_from, views, lemma_blank_iff_leading, ends_with_newline, strip_cr,
};
use super::{TransformDiagnostics, Transformer, Warning};

verus! {

pub struct Dedent;

/// The smallest indentation (leading white-space characters) among the lines
/// that are not blank; `None` where every line is blank.
pub open spec fn min_indent_opt(ls: Seq<Seq<char>>) -> Option<nat>
    decreases ls.len(),
{
    if ls.len() == 0 {
        None
    } else {
        let rest = min_indent_opt(ls.drop_last());
        if is_blank(ls.last()) {
            rest
        } else {
            let w = leading_ws(ls.last());
            match rest {
                None => Some(w),
                Some(m) => Some(if w < m { w } else { m }),
            }
        }
    }
}

/// The indentation that the lines after the first share: the smallest among
/// them that are not blank, and 0 where all of them are blank.
pub open spec fn common_indent(ls: Seq<Seq<char>>) -> nat {
    match min_indent_opt(ls.skip(1)) {
        Some(m) => m,
        None => 0,
    }
}

/// Line `k` of the text after removing `m` characters of indentation: the
/// first line only where it is indented that far, the other blank lines made
/// empty.
pub open spec fn dedent_line(ls: Seq<Seq<char>>, m: nat, k: int) -> Seq<char> {
    if k == 0 {
        if leading_ws(ls[0]) >= m {
            ls[0].skip(m as int)
        } else {
            ls[0]
        }
    } else if is_blank(ls[k]) {
        Seq::empty()
    } else {
        ls[k].skip(m as int)
    }
}

/// The text with the common indentation of its later lines removed; a text of
/// at most one line, or whose later lines share no indentation, is returned
/// unchanged.
pub open spec fn dedent_text(text: Seq<char>) -> Seq<char> {
    let ls = lines_of(text);
    if ls.len() <= 1 || common_indent(ls) == 0 {
        text
    } else {
        let m = common_indent(ls);
        rejoin(Seq::new(ls.len(), |k: int| dedent_line(ls, m, k)), text)
    }
}

/// The smallest indentation of the lines that are not blank is at most that of
/// each of them, and is that of one of them.
pub proof fn lemma_min_indent(ls: Seq<Seq<char>>)
    ensures
        min_indent_opt(ls) is None <==> (forall|k: int| 0 <= k < ls.len() ==> is_blank(#[trigger] ls[k])),
        min_indent_opt(ls) matches Some(m) ==> (forall|k: int|
            0 <= k < ls.len() && !is_blank(#[trigger] ls[k]) ==> m <= leading_ws(ls[k])),
        min_indent_opt(ls) matches Some(m) ==> exists|k: int|
            0 <= k < ls.len() && !is_blank(#[trigger] ls[k]) && m == leading_ws(ls[k]),
    decreases ls.len(),
{
    if ls.len() > 0 {
        let d = ls.drop_last();
        lemma_min_indent(d);
        assert forall|k: int| 0 <= k < d.len() implies #[trigger] d[k] == ls[k] by {}
        if let Some(m) = min_indent_opt(ls) {
            assert forall|k: int|
                0 <= k < ls.len() && !is_blank(#[trigger] ls[k]) implies m <= leading_ws(ls[k]) by {
                if k < d.len() {
                    assert(d[k] == ls[k]);
                }
            }
        }
        if min_indent_opt(ls) is None {
            assert forall|k: int| 0 <= k < ls.len() implies is_blank(#[trigger] ls[k]) by {
                if k < d.len() {
                    assert(d[k] == ls[k]);
                }
            }
        }
        if let Some(m) = min_indent_opt(ls) {
            if !is_blank(ls.last()) {
                if let Some(m2) = min_indent_opt(d) {
                    let k2 = choose|k: int| 0 <= k < d.len() && !is_blank(#[trigger] d[k]) && m2 == leading_ws(d[k]);
                    assert(d[k2] == ls[k2]);
                }
            } else {
                let k2 = choose|k: int| 0 <= k < d.len() && !is_blank(#[trigger] d[k]) && m == leading_ws(d[k]);
                assert(d[k2] == ls[k2]);
            }
        }
    }
}

impl Dedent {
    fn dedent(text: &str) -> (out: String)
        ensures
            out@ == dedent_text(text@),
    {
        let lines = split_lines(text);
        let ghost ls = lines_of(text@);
        let n = lines.len();
        if n <= 1 {
            return String::from_str(text);
        }
        let ghost later = ls.skip(1);
        let mut min: Option<usize> = None;
        let mut i: usize = 1;
        while i < n
            invariant
                n == lines@.len(),
                views(lines@) == ls,
                later == ls.skip(1),
                1 <= i <= n,
                (match min {
                    Some(m) => Some(m as nat),
                    None => None::<nat>,
                }) == min_indent_opt(later.take(i - 1)),
            decreases n - i,
        {
            proof {
                assert(views(lines@)[i as int] == lines@[i as int]@);
                let t = later.take(i as int);
                assert(t.drop_last() =~= later.take(i - 1));
                assert(t.last() == ls[i as int]);
            }
            if !is_blank_line(&lines[i]) {
                let w = leading_ws_count(&lines[i]);
                min = match min {
                    None => Some(w),
                    Some(m) => Some(if w < m { w } else { m }),
                };
            }
            i = i + 1;
        }
        proof {
            assert(later.take(n - 1) =~= later);
        }
        let m: usize = match min {
            Some(m) => m,
            None => 0,
        };
        if m == 0 {
            return String::from_str(text);
        }
        let mut out: Vec<Vec<char>> = Vec::new();
        let ghost target = Seq::new(ls.len(), |k: int| dedent_line(ls, m as nat, k));
        proof {
            assert(views(lines@)[0] == lines@[0]@);
        }
        let first_indent = leading_ws_count(&lines[0]);
        if first_indent >= m {
            out.push(skip_chars(&lines[0], m));
        } else {
            out.push(lines[0].clone());
        }
        proof {
            assert(views(out@) =~= target.take(1));
        }
        let mut k: usize = 1;
        while k < n
            invariant
                n == lines@.len(),
                views(lines@) == ls,
                later == ls.skip(1),
                1 <= k <= n,
                m > 0,
                min_indent_opt(later) == Some(m as nat),
                target == Seq::new(ls.len(), |j: int| dedent_line(ls, m as nat, j)),
                views(out@) == target.take(k as int),
            decreases n - k,
        {
            proof {
                assert(views(lines@)[k as int] == lines@[k as int]@);
                lemma_min_indent(later);
                assert(later[k - 1] == ls[k as int]);
                lemma_blank_iff_leading(ls[k as int]);
                crate::text::lemma_ws_run_bounds(ls[k as int], 0);
            }
            let ghost before = views(out@);
            if is_blank_line(&lines[k]) {
                out.push(Vec::new());
                proof {
                    assert(views(out@) =~= before.push(Seq::<char>::empty()));
                }
            } else {
                let line = skip_chars(&lines[k], m);
                out.push(line);
                proof {
                    assert(views(out@) =~= before.push(line@));
                }
            }
            proof {
                assert(target.take(k + 1) =~= target.take(k as int).push(target[k as int]));
            }
            k = k + 1;
        }
        proof {
            assert(target.take(n as int) =~= target);
        }
        let original = chars_of(text);
        rejoin_lines(&out, &original)
    }
}

/// Dedenting removes the same number of indentation characters from every
/// line after the first that is not blank, so their relative indentation is
/// kept; and where it removes any, one of them is left without indentation.
pub proof fn lemma_dedent_keeps_relative_indent(ls: Seq<Seq<char>>, k: int)
    requires
        ls.len() >= 2,
        1 <= k < ls.len(),
        !is_blank(ls[k]),
    ensures
        common_indent(ls) <= leading_ws(ls[k]),
        leading_ws(dedent_line(ls, common_indent(ls), k)) == leading_ws(ls[k]) - common_indent(ls),
        common_indent(ls) > 0 ==> exists|j: int|
            1 <= j < ls.len() && !is_blank(#[trigger] ls[j]) && leading_ws(
                dedent_line(ls, common_indent(ls), j),
            ) == 0,
{
    let later = ls.skip(1);
    lemma_min_indent(later);
    assert(later[k - 1] == ls[k]);
    assert(min_indent_opt(later) is Some);
    let m = common_indent(ls);
    lemma_skip_leading(ls[k], m);
    if m > 0 {
        let j0 = choose|j: int| 0 <= j < later.len() && !is_blank(#[trigger] later[j]) && m == leading_ws(later[j]);
        assert(later[j0] == ls[j0 + 1]);
        lemma_skip_leading(ls[j0 + 1], m);
        assert(leading_ws(dedent_line(ls, m, j0 + 1)) == 0);
    }
}

/// Where the lines after the first share some indentation, one of them that
/// is not blank is read back from the result without any.
proof fn lemma_dedent_unindents_core(text: Seq<char>)
    requires
        lines_of(text).len() >= 2,
        common_indent(lines_of(text)) > 0,
    ensures
        exists|j: int|
            1 <= j < lines_of(dedent_text(text)).len() && !is_blank(#[trigger] lines_of(dedent_text(text))[j])
                && leading_ws(lines_of(dedent_text(text))[j]) == 0,
{
    let ls = lines_of(text);
    let m = common_indent(ls);
    let l2 = Seq::new(ls.len(), |k: int| dedent_line(ls, m, k));
    let r = dedent_text(text);
    assert(r == rejoin(l2, text));
    // a later line that is not blank is left without indentation
    let later = ls.skip(1);
    lemma_min_indent(later);
    let j0 = choose|k: int| 0 <= k < later.len() && !is_blank(#[trigger] later[k]) && m == leading_ws(later[k]);
    let j = j0 + 1;
    assert(later[j0] == ls[j]);
    lemma_dedent_keeps_relative_indent(ls, j);
    let d = l2[j];
    assert(d == ls[j].skip(m as int));
    assert(leading_ws(d) == 0);
    lemma_blank_iff_leading(ls[j]);
    crate::text::lemma_ws_run_bounds(ls[j], 0);
    lemma_blank_iff_leading(d);
    assert(!is_blank(d));
    assert(d.len() > 0);
    assert(!crate::text::is_ws(d[0])) by {
        crate::text::lemma_ws_run_bounds(d, 0);
    }
    // no line holds a line feed
    crate::text::lemma_lines_no_newline(text);
    assert forall|k: int| 0 <= k < l2.len() implies crate::text::no_newline(#[trigger] l2[k]) by {
        assert(crate::text::no_newline(ls[k]));
        crate::text::lemma_ws_run_bounds(ls[k], 0);
        if k == 0 {
            if leading_ws(ls[0]) >= m {
                assert forall|i: int| 0 <= i < l2[k].len() implies l2[k][i] != '\n' by {
                    assert(l2[k][i] == ls[0][i + m]);
                }
            }
        } else if !is_blank(ls[k]) {
            lemma_dedent_keeps_relative_indent(ls, k);
            assert(l2[k] == ls[k].skip(m as int));
            assert forall|i: int| 0 <= i < l2[k].len() implies l2[k][i] != '\n' by {
                assert(l2[k][i] == ls[k][i + m]);
            }
        }
    }
    crate::text::lemma_split_joined(l2);
    // the lines read back from the result: line j is kept, at most losing a
    // final carriage return
    let ls2 = lines_of(r);
    let c = strip_cr(d);
    assert(c.len() > 0 && c[0] == d[0]) by {
        if d.len() == 1 {
            assert(d.last() == d[0]);
        }
    }
    assert(j < ls2.len() && (ls2[j] == c || ls2[j] == d)) by {
        if ends_with_newline(text) {
            assert(ls2 == l2.map_values(|l: Seq<char>| strip_cr(l)));
        } else if j < l2.len() - 1 {
            assert(ls2[j] == l2.drop_last().map_values(|l: Seq<char>| strip_cr(l))[j]);
        } else {
            assert(l2.last() == d);
        }
    }
    let e = ls2[j];
    assert(e.len() > 0 && e[0] == d[0]);
    assert(leading_ws(e) == 0);
    assert(!is_blank(e));
    assert(ls2[j] == e);
}

/// Dedenting takes the shared indentation off the lines after the first: in a
/// text of two or more lines whose later lines that are not blank are all
/// indented, and one at least is not blank, the result has a later line that
/// is not blank and starts without indentation.
pub proof fn lemma_dedent_unindents(text: Seq<char>)
    requires
        lines_of(text).len() >= 2,
        exists|k: int| 1 <= k < lines_of(text).len() && !is_blank(#[trigger] lines_of(text)[k]),
        forall|k: int|
            1 <= k < lines_of(text).len() && !is_blank(#[trigger] lines_of(text)[k]) ==> leading_ws(
                lines_of(text)[k],
            ) >= 1,
    ensures
        exists|j: int|
            1 <= j < lines_of(dedent_text(text)).len() && !is_blank(#[trigger] lines_of(dedent_text(text))[j])
                && leading_ws(lines_of(dedent_text(text))[j]) == 0,
{
    let ls = lines_of(text);
    let later = ls.skip(1);
    lemma_min_indent(later);
    let k = choose|k: int| 1 <= k < ls.len() && !is_blank(#[trigger] ls[k]);
    assert(later[k - 1] == ls[k]);
    assert(!is_blank(later[k - 1]));
    let m = common_indent(ls);
    let j0 = choose|i: int| 0 <= i < later.len() && !is_blank(#[trigger] later[i]) && m == leading_ws(later[i]);
    assert(later[j0] == ls[j0 + 1]);
    lemma_dedent_unindents_core(text);
}

/// Dedenting removes only white space: the characters that are not white
/// space are all kept, in order.
pub proof fn lemma_dedent_keeps_visible(text: Seq<char>)
    ensures
        crate::text::visible(dedent_text(text)) == crate::text::visible(text),
{
    let ls = lines_of(text);
    if ls.len() <= 1 || common_indent(ls) == 0 {
        return;
    }
    let m = common_indent(ls);
    let l2 = Seq::new(ls.len(), |k: int| dedent_line(ls, m, k));
    crate::text::lemma_visible_lines_of(text);
    crate::text::lemma_visible_rejoin(l2, text);
    assert forall|k: int| 0 <= k < l2.len() implies crate::text::visible(#[trigger] l2[k])
        == crate::text::visible(ls[k]) by {
        crate::text::lemma_ws_run_bounds(ls[k], 0);
        if k == 0 {
            if leading_ws(ls[0]) >= m {
                crate::text::lemma_visible_skip_ws(ls[0], m as int);
            }
        } else if is_blank(ls[k]) {
            crate::text::lemma_visible_all_ws(ls[k]);
            crate::text::lemma_visible_all_ws(l2[k]);
        } else {
            lemma_dedent_keeps_relative_indent(ls, k);
            crate::text::lemma_visible_skip_ws(ls[k], m as int);
        }
    }
    crate::text::lemma_visible_lines_pointwise(l2, ls);
}

/// Dedenting twice is dedenting once: after one pass a line after the first
/// that is not blank starts without indentation, so there is nothing left in
/// common to remove.
pub proof fn lemma_dedent_idempotent(text: Seq<char>)
    ensures
        dedent_text(dedent_text(text)) == dedent_text(text),
{
    let ls = lines_of(text);
    if ls.len() <= 1 || common_indent(ls) == 0 {
        return;
    }
    lemma_dedent_unindents_core(text);
    let r = dedent_text(text);
    let ls2 = lines_of(r);
    let j = choose|j: int| 1 <= j < ls2.len() && !is_blank(#[trigger] ls2[j]) && leading_ws(ls2[j]) == 0;
    let later2 = ls2.skip(1);
    lemma_min_indent(later2);
    assert(later2[j - 1] == ls2[j]);
    assert(common_indent(ls2) == 0);
}

/// Removing `m` of the leading white-space characters leaves the rest of them.
proof fn lemma_skip_leading(l: Seq<char>, m: nat)
    requires
        m <= leading_ws(l),
    ensures
        leading_ws(l.skip(m as int)) == leading_ws(l) - m,
{
    crate::text::lemma_ws_run_bounds(l, 0);
    let s = l.skip(m as int);
    let w = leading_ws(l);
    assert forall|j: int| 0 <= j < w - m implies crate::text::is_ws(#[trigger] s[j]) by {
        assert(s[j] == l[j + m]);
    }
    if w < l.len() {
        assert(s[w - m] == l[w as int]);
    }
    crate::text::lemma_ws_run(s, 0, w - m);
}

impl Transformer for Dedent {
    open spec fn accepts(&self, text: Seq<char>) -> bool {
        true
    }

    open spec fn result_of(&self, text: Seq<char>) -> Seq<char> {
        dedent_text(text)
    }

    open spec fn warnings_of(&self, text: Seq<char>) -> Seq<Warning> {
        Seq::empty()
    }

    open spec fn name_of(&self) -> Seq<char> {
        "dedent"@
    }

    fn name(&self) -> (n: &'static str) {
        "dedent"
    }

    fn transform(&self, text: &str) -> (res: Result<String, TransformerError>) {
        Ok(Self::dedent(text))
    }

    fn transform_with_diagnostics(&self, text: &str) -> (res: Result<
        (String, TransformDiagnostics),
        TransformerError,
    >) {
        Ok((Self::dedent(text), TransformDiagnostics::default()))
    }
}

} // verus!
