//! Runs of blank lines.

use vstd::prelude::*;
use crate::error::TransformerError;
use crate::text::{is_blank, is_blank_line, lines_of, rejoin, rejoin_lines, chars_of, split_lines, views};
use super::{TransformDiagnostics, Transformer, Warning};

verus! {

pub struct CompressBlank;

/// The number of blank lines in the run that starts at line `i`.
pub open spec fn blank_run(ls: Seq<Seq<char>>, i: int) -> nat
    decreases ls.len() - i,
{
    if 0 <= i < ls.len() && is_blank(ls[i]) {
        1 + blank_run(ls, i + 1)
    } else {
        0
    }
}

/// A run of blank lines ends inside the sequence, and is longer than zero
/// where it starts at a blank line.
pub proof fn lemma_blank_run_bounds(ls: Seq<Seq<char>>, i: int)
    requires
        0 <= i <= ls.len(),
    ensures
        i + blank_run(ls, i) <= ls.len(),
        i < ls.len() && is_blank(ls[i]) ==> blank_run(ls, i) >= 1,
        forall|j: int| i <= j < i + blank_run(ls, i) ==> is_blank(#[trigger] ls[j]),
        i + blank_run(ls, i) == ls.len() || !is_blank(ls[i + blank_run(ls, i)]),
    decreases ls.len() - i,
{
    if i < ls.len() && is_blank(ls[i]) {
        lemma_blank_run_bounds(ls, i + 1);
    }
}

/// `n` empty lines.
pub open spec fn empty_lines(n: nat) -> Seq<Seq<char>> {
    Seq::new(n, |k: int| Seq::<char>::empty())
}

/// The lines from `i` on, each run of blank lines replaced by as many empty
/// lines when it is one or two long, and by a single empty line when longer.
pub open spec fn compress_from(ls: Seq<Seq<char>>, i: int) -> Seq<Seq<char>>
    decreases ls.len() - i,
{
    if i < 0 || i >= ls.len() {
        Seq::empty()
    } else if !is_blank(ls[i]) {
        seq![ls[i]] + compress_from(ls, i + 1)
    } else {
        let r = blank_run(ls, i);
        proof {
            lemma_blank_run_bounds(ls, i);
        }
        let keep: nat = if r >= 3 { 1 } else { r };
        empty_lines(keep) + compress_from(ls, i + r)
    }
}

/// The lines of the text with runs of three or more blank lines compressed.
pub open spec fn compress_lines(ls: Seq<Seq<char>>) -> Seq<Seq<char>> {
    compress_from(ls, 0)
}

/// No three lines in a row are blank.
pub open spec fn no_three_blank(ls: Seq<Seq<char>>) -> bool {
    forall|k: int|
        0 <= k && k + 2 < ls.len() ==> !(is_blank(#[trigger] ls[k]) && is_blank(ls[k + 1]) && is_blank(
            ls[k + 2],
        ))
}

/// The compressed lines from `i` on hold no three blank lines in a row, and
/// start with the line at `i` where that one is not blank.
proof fn lemma_compress_from(ls: Seq<Seq<char>>, i: int)
    requires
        0 <= i <= ls.len(),
    ensures
        no_three_blank(compress_from(ls, i)),
        i == ls.len() ==> compress_from(ls, i).len() == 0,
        i < ls.len() && !is_blank(ls[i]) ==> compress_from(ls, i).len() > 0 && compress_from(
            ls,
            i,
        )[0] == ls[i],
    decreases ls.len() - i,
{
    if i < ls.len() {
        let out = compress_from(ls, i);
        if !is_blank(ls[i]) {
            lemma_compress_from(ls, i + 1);
            let rest = compress_from(ls, i + 1);
            assert(out == seq![ls[i]] + rest);
            assert forall|k: int|
                0 <= k && k + 2 < out.len() implies !(is_blank(#[trigger] out[k]) && is_blank(out[k + 1])
                && is_blank(out[k + 2])) by {
                if k >= 1 {
                    assert(out[k] == rest[k - 1]);
                    assert(out[k + 1] == rest[k]);
                    assert(out[k + 2] == rest[k + 1]);
                }
            }
        } else {
            lemma_blank_run_bounds(ls, i);
            let r = blank_run(ls, i);
            let keep: nat = if r >= 3 { 1 } else { r };
            lemma_compress_from(ls, i + r);
            let e = empty_lines(keep);
            let rest = compress_from(ls, i + r);
            assert(out == e + rest);
            assert forall|k: int|
                0 <= k && k + 2 < out.len() implies !(is_blank(#[trigger] out[k]) && is_blank(out[k + 1])
                && is_blank(out[k + 2])) by {
                if k >= keep {
                    assert(out[k] == rest[k - keep]);
                    assert(out[k + 1] == rest[k + 1 - keep]);
                    assert(out[k + 2] == rest[k + 2 - keep]);
                } else {
                    assert(rest.len() > 0);
                    assert(i + r < ls.len());
                    assert(out[keep as int] == rest[0]);
                    assert(!is_blank(rest[0]));
                }
            }
        }
    }
}

/// After compression no three lines in a row are blank: a run of three or
/// more blank lines is left as one empty line.
pub proof fn lemma_compress_leaves_no_three_blank(ls: Seq<Seq<char>>)
    ensures
        no_three_blank(compress_lines(ls)),
{
    lemma_compress_from(ls, 0);
}

/// The line holds more than white space.
pub open spec fn has_text(l: Seq<char>) -> bool {
    !is_blank(l)
}

/// The compressed lines from `i` on hold the same lines with text as the
/// lines from `i` on, in the same order.
proof fn lemma_compress_from_keeps_text(ls: Seq<Seq<char>>, i: int)
    requires
        0 <= i <= ls.len(),
    ensures
        compress_from(ls, i).filter(|l: Seq<char>| has_text(l)) == ls.skip(i).filter(
            |l: Seq<char>| has_text(l),
        ),
    decreases ls.len() - i,
{
    let p = |l: Seq<char>| has_text(l);
    if i == ls.len() {
        assert(ls.skip(i) =~= Seq::<Seq<char>>::empty());
        assert(compress_from(ls, i) =~= Seq::<Seq<char>>::empty());
    } else if !is_blank(ls[i]) {
        lemma_compress_from_keeps_text(ls, i + 1);
        let rest = compress_from(ls, i + 1);
        assert(ls.skip(i) =~= seq![ls[i]] + ls.skip(i + 1));
        rest.lemma_filter_prepend(ls[i], p);
        ls.skip(i + 1).lemma_filter_prepend(ls[i], p);
    } else {
        lemma_blank_run_bounds(ls, i);
        let r = blank_run(ls, i);
        let keep: nat = if r >= 3 { 1 } else { r };
        lemma_compress_from_keeps_text(ls, i + r);
        let e = empty_lines(keep);
        let run = ls.subrange(i, i + r);
        assert(ls.skip(i) =~= run + ls.skip(i + r));
        Seq::filter_distributes_over_add(e, compress_from(ls, i + r), p);
        Seq::filter_distributes_over_add(run, ls.skip(i + r), p);
        assert(e.all(|x: Seq<char>| !p(x)));
        e.lemma_all_neg_filter_empty(p);
        assert(run.all(|x: Seq<char>| !p(x)));
        run.lemma_all_neg_filter_empty(p);
        assert(e.filter(p) =~= Seq::<Seq<char>>::empty());
        assert(run.filter(p) =~= Seq::<Seq<char>>::empty());
    }
}

/// Compression keeps every line that holds text, in order: it only drops and
/// empties blank lines.
pub proof fn lemma_compress_keeps_text_lines(ls: Seq<Seq<char>>)
    ensures
        compress_lines(ls).filter(|l: Seq<char>| has_text(l)) == ls.filter(|l: Seq<char>| has_text(l)),
{
    lemma_compress_from_keeps_text(ls, 0);
    assert(ls.skip(0) =~= ls);
}

/// The lengths of the runs of blank lines, in order.
pub open spec fn blank_runs(ls: Seq<Seq<char>>) -> Seq<nat>
    decreases ls.len(),
{
    if ls.len() == 0 {
        Seq::empty()
    } else if !is_blank(ls[0]) {
        blank_runs(ls.drop_first())
    } else {
        let r = blank_run(ls, 0);
        proof {
            lemma_blank_run_bounds(ls, 0);
        }
        seq![r] + blank_runs(ls.skip(r as int))
    }
}

/// The run at `j` of the lines from `i` on is the run at `i + j`.
proof fn lemma_blank_run_skip(ls: Seq<Seq<char>>, i: int, j: int)
    requires
        0 <= i <= ls.len(),
        0 <= j,
    ensures
        blank_run(ls.skip(i), j) == blank_run(ls, i + j),
    decreases ls.len() - (i + j),
{
    if i + j < ls.len() {
        assert(ls.skip(i)[j] == ls[i + j]);
        lemma_blank_run_skip(ls, i, j + 1);
    }
}

/// A run of `k` blank lines followed by a line with text, or by nothing, is a
/// run of length `k`.
proof fn lemma_blank_run_exact(s: Seq<Seq<char>>, k: int, t: int)
    requires
        0 <= t <= k <= s.len(),
        forall|j: int| 0 <= j < k ==> is_blank(#[trigger] s[j]),
        k == s.len() || !is_blank(s[k]),
    ensures
        blank_run(s, t) == k - t,
    decreases k - t,
{
    if t < k {
        lemma_blank_run_exact(s, k, t + 1);
    }
}

/// Compression keeps every run of blank lines, in order, and shortens only
/// the long ones: a run of one or two blank lines stays as long, and a run of
/// three or more becomes a single empty line. So two lines with text that had
/// blank lines between them still have an empty line between them.
proof fn lemma_compress_from_runs(ls: Seq<Seq<char>>, i: int)
    requires
        0 <= i <= ls.len(),
    ensures
        blank_runs(compress_from(ls, i)).len() == blank_runs(ls.skip(i)).len(),
        forall|k: int|
            0 <= k < blank_runs(ls.skip(i)).len() ==> #[trigger] blank_runs(compress_from(ls, i))[k] == (if blank_runs(
                ls.skip(i),
            )[k] >= 3 {
                1
            } else {
                blank_runs(ls.skip(i))[k]
            }),
    decreases ls.len() - i,
{
    let sk = ls.skip(i);
    let out = compress_from(ls, i);
    if i == ls.len() {
        assert(sk =~= Seq::<Seq<char>>::empty());
        assert(out =~= Seq::<Seq<char>>::empty());
    } else if !is_blank(ls[i]) {
        lemma_compress_from_runs(ls, i + 1);
        let rest = compress_from(ls, i + 1);
        assert(out == seq![ls[i]] + rest);
        assert(out[0] == ls[i]);
        assert(out.drop_first() =~= rest);
        assert(sk[0] == ls[i]);
        assert(sk.drop_first() =~= ls.skip(i + 1));
    } else {
        lemma_blank_run_bounds(ls, i);
        let r = blank_run(ls, i);
        let keep: nat = if r >= 3 { 1 } else { r };
        lemma_compress_from(ls, i + r);
        lemma_compress_from_runs(ls, i + r);
        let e = empty_lines(keep);
        let rest = compress_from(ls, i + r);
        assert(out == e + rest);
        // the result: a run of `keep` empty lines, then the rest
        assert(is_blank(Seq::<char>::empty()));
        assert forall|j: int| 0 <= j < keep implies is_blank(#[trigger] out[j]) by {
            assert(out[j] == e[j]);
        }
        if (keep as int) < out.len() {
            assert(out[keep as int] == rest[0]);
            assert(!is_blank(rest[0]));
        }
        lemma_blank_run_exact(out, keep as int, 0);
        assert(out.len() > 0 && out[0] == e[0]);
        assert(out.skip(keep as int) =~= rest);
        // the lines given: a run of `r` blank lines, then the lines after it
        assert(sk[0] == ls[i]);
        lemma_blank_run_skip(ls, i, 0);
        assert(sk.skip(r as int) =~= ls.skip(i + r));
        let a = blank_runs(out);
        let b = blank_runs(sk);
        assert(a == seq![keep] + blank_runs(rest));
        assert(b == seq![r] + blank_runs(ls.skip(i + r)));
        assert forall|k: int| 0 <= k < b.len() implies #[trigger] a[k] == (if b[k] >= 3 { 1 } else { b[k] }) by {
            if k > 0 {
                assert(a[k] == blank_runs(rest)[k - 1]);
                assert(b[k] == blank_runs(ls.skip(i + r))[k - 1]);
            }
        }
    }
}

/// Every blank line of the result from `i` on is empty.
proof fn lemma_compress_from_empties(ls: Seq<Seq<char>>, i: int)
    requires
        0 <= i <= ls.len(),
    ensures
        forall|k: int|
            0 <= k < compress_from(ls, i).len() && is_blank(#[trigger] compress_from(ls, i)[k]) ==> compress_from(
                ls,
                i,
            )[k].len() == 0,
    decreases ls.len() - i,
{
    if i < ls.len() {
        let out = compress_from(ls, i);
        if !is_blank(ls[i]) {
            lemma_compress_from_empties(ls, i + 1);
            let rest = compress_from(ls, i + 1);
            assert forall|k: int| 0 <= k < out.len() && is_blank(#[trigger] out[k]) implies out[k].len() == 0 by {
                if k > 0 {
                    assert(out[k] == rest[k - 1]);
                }
            }
        } else {
            lemma_blank_run_bounds(ls, i);
            let r = blank_run(ls, i);
            let keep: nat = if r >= 3 { 1 } else { r };
            lemma_compress_from_empties(ls, i + r);
            let e = empty_lines(keep);
            let rest = compress_from(ls, i + r);
            assert(out == e + rest);
            assert forall|k: int| 0 <= k < out.len() && is_blank(#[trigger] out[k]) implies out[k].len() == 0 by {
                if k < keep {
                    assert(out[k] == e[k]);
                } else {
                    assert(out[k] == rest[k - keep]);
                }
            }
        }
    }
}

/// The blank lines that compression leaves are empty: it keeps no white space
/// of them.
pub proof fn lemma_compress_blank_lines_empty(ls: Seq<Seq<char>>)
    ensures
        forall|k: int|
            0 <= k < compress_lines(ls).len() && is_blank(#[trigger] compress_lines(ls)[k]) ==> compress_lines(
                ls,
            )[k].len() == 0,
{
    lemma_compress_from_empties(ls, 0);
}

/// Compression keeps every run of blank lines, in order, and shortens only
/// the long ones: a run of one or two blank lines stays as long, and a run of
/// three or more becomes a single empty line. So no run of blank lines
/// vanishes: paragraphs that blank lines kept apart stay apart.
pub proof fn lemma_compress_keeps_runs(ls: Seq<Seq<char>>)
    ensures
        blank_runs(compress_lines(ls)).len() == blank_runs(ls).len(),
        forall|k: int|
            0 <= k < blank_runs(ls).len() ==> #[trigger] blank_runs(compress_lines(ls))[k] == (if blank_runs(ls)[k]
                >= 3 {
                1
            } else {
                blank_runs(ls)[k]
            }),
        forall|k: int| 0 <= k < blank_runs(ls).len() ==> #[trigger] blank_runs(compress_lines(ls))[k] >= 1,
{
    lemma_compress_from_runs(ls, 0);
    assert(ls.skip(0) =~= ls);
    lemma_blank_runs_positive(ls);
}

/// Every run counted is at least one line long.
proof fn lemma_blank_runs_positive(ls: Seq<Seq<char>>)
    ensures
        forall|k: int| 0 <= k < blank_runs(ls).len() ==> #[trigger] blank_runs(ls)[k] >= 1,
    decreases ls.len(),
{
    if ls.len() > 0 {
        if !is_blank(ls[0]) {
            lemma_blank_runs_positive(ls.drop_first());
            assert(blank_runs(ls) == blank_runs(ls.drop_first()));
        } else {
            lemma_blank_run_bounds(ls, 0);
            let r = blank_run(ls, 0);
            lemma_blank_runs_positive(ls.skip(r as int));
            let b = blank_runs(ls);
            assert(r >= 1);
            assert(b == seq![r] + blank_runs(ls.skip(r as int)));
            assert forall|k: int| 0 <= k < b.len() implies #[trigger] b[k] >= 1 by {
                if k > 0 {
                    assert(b[k] == blank_runs(ls.skip(r as int))[k - 1]);
                }
            }
        }
    }
}

impl CompressBlank {
    fn compress(text: &str) -> (out: String)
        ensures
            out@ == rejoin(compress_lines(lines_of(text@)), text@),
    {
        let lines = split_lines(text);
        let ghost ls = lines_of(text@);
        let mut result: Vec<Vec<char>> = Vec::new();
        let n = lines.len();
        let mut i: usize = 0;
        while i < n
            invariant
                n == lines@.len(),
                views(lines@) == ls,
                i <= n,
                views(result@) + compress_from(ls, i as int) == compress_lines(ls),
            decreases n - i,
        {
            proof {
                assert(views(lines@)[i as int] == lines@[i as int]@);
            }
            if is_blank_line(&lines[i]) {
                let start = i;
                while i < n && is_blank_line(&lines[i])
                    invariant
                        n == lines@.len(),
                        views(lines@) == ls,
                        start <= i <= n,
                        blank_run(ls, start as int) == (i - start) + blank_run(ls, i as int),
                    decreases n - i,
                {
                    proof {
                        assert(views(lines@)[i as int] == lines@[i as int]@);
                    }
                    i = i + 1;
                }
                proof {
                    if i < n {
                        assert(views(lines@)[i as int] == lines@[i as int]@);
                    }
                    assert(blank_run(ls, i as int) == 0);
                }
                let run = i - start;
                let keep: usize = if run >= 3 { 1 } else { run };
                let ghost before = views(result@);
                let mut k: usize = 0;
                while k < keep
                    invariant
                        k <= keep,
                        views(result@) == before + empty_lines(k as nat),
                    decreases keep - k,
                {
                    let e: Vec<char> = Vec::new();
                    let ghost mid = views(result@);
                    result.push(e);
                    proof {
                        assert(views(result@) =~= mid.push(Seq::<char>::empty()));
                        assert(views(result@) =~= before + empty_lines((k + 1) as nat));
                    }
                    k = k + 1;
                }
                proof {
                    assert(compress_from(ls, start as int) == empty_lines(keep as nat) + compress_from(
                        ls,
                        i as int,
                    ));
                    assert(views(result@) + compress_from(ls, i as int) =~= before + compress_from(
                        ls,
                        start as int,
                    ));
                }
            } else {
                let ghost before = views(result@);
                result.push(lines[i].clone());
                proof {
                    assert(views(result@) =~= before.push(ls[i as int]));
                    assert(views(result@) + compress_from(ls, i + 1) =~= before + compress_from(
                        ls,
                        i as int,
                    ));
                }
                i = i + 1;
            }
        }
        proof {
            assert(views(result@) =~= compress_lines(ls));
        }
        let original = chars_of(text);
        rejoin_lines(&result, &original)
    }
}

impl Transformer for CompressBlank {
    open spec fn accepts(&self, text: Seq<char>) -> bool {
        true
    }

    open spec fn result_of(&self, text: Seq<char>) -> Seq<char> {
        rejoin(compress_lines(lines_of(text)), text)
    }

    open spec fn warnings_of(&self, text: Seq<char>) -> Seq<Warning> {
        Seq::empty()
    }

    open spec fn name_of(&self) -> Seq<char> {
        "compress_blank"@
    }

    fn name(&self) -> (n: &'static str) {
        "compress_blank"
    }

    fn transform(&self, text: &str) -> (res: Result<String, TransformerError>) {
        Ok(Self::compress(text))
    }

    fn transform_with_diagnostics(&self, text: &str) -> (res: Result<
        (String, TransformDiagnostics),
        TransformerError,
    >) {
        Ok((Self::compress(text), TransformDiagnostics::default()))
    }
}

} // verus!
