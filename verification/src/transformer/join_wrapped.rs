//! Lines that the terminal wrapped at its width, joined back.

use vstd::prelude::*;
use crate::error::TransformerError;
use crate::text::{
    split_state, join_lines, chars_of, extend_chars, lines_of, rejoin, rejoin_lines, split_lines, string_from, trim_start,
    trim_start_chars, views, visible, visible_lines, lemma_visible_add, lemma_visible_lines_add,
    lemma_visible_lines_of, lemma_visible_rejoin, lemma_visible_trim_start, ends_with_newline,
    no_newline, lemma_join_lines_last, lemma_last_line_not_empty, lemma_lines_no_newline,
};
use super::{TransformDiagnostics, Transformer, Warning};

verus! {

/// The display width of a text in terminal columns, as
/// `unicode_width::UnicodeWidthStr::width` computes it.
pub uninterp spec fn display_width(s: Seq<char>) -> nat;

/// `unicode_width::UnicodeWidthStr::width`: the number of terminal columns that
/// the text takes. The contract names the result, and claims that an empty
/// text takes none (the sum over its characters starts at 0).
#[verifier::external_body]
pub(crate) fn str_width(s: &str) -> (w: usize)
    ensures
        w as nat == display_width(s@),
        s@.len() == 0 ==> w == 0,
{
    unicode_width::UnicodeWidthStr::width(s)
}

/// A character of a script written without spaces between words (Han,
/// Hiragana, Katakana, Hangul and their punctuation).
pub open spec fn is_cjk_char(c: char) -> bool {
    ||| ('\u{3000}' <= c && c <= '\u{303F}')
    ||| ('\u{3040}' <= c && c <= '\u{309F}')
    ||| ('\u{30A0}' <= c && c <= '\u{30FF}')
    ||| ('\u{3400}' <= c && c <= '\u{4DBF}')
    ||| ('\u{4E00}' <= c && c <= '\u{9FFF}')
    ||| ('\u{AC00}' <= c && c <= '\u{D7AF}')
    ||| ('\u{F900}' <= c && c <= '\u{FAFF}')
    ||| ('\u{FE30}' <= c && c <= '\u{FE4F}')
    ||| ('\u{FF65}' <= c && c <= '\u{FF9F}')
    ||| ('\u{1100}' <= c && c <= '\u{11FF}')
    ||| ('\u{20000}' <= c && c <= '\u{2A6DF}')
    ||| ('\u{2A700}' <= c && c <= '\u{2B73F}')
}

/// Whether the character, if there is one, belongs to a script written
/// without spaces between words.
pub open spec fn is_cjk_opt(c: Option<char>) -> bool {
    match c {
        None => false,
        Some(c) => is_cjk_char(c),
    }
}

fn is_cjk(ch: Option<char>) -> (b: bool)
    ensures
        b == is_cjk_opt(ch),
{
    match ch {
        None => false,
        Some(c) => ('\u{3000}' <= c && c <= '\u{303F}') || ('\u{3040}' <= c && c <= '\u{309F}')
            || ('\u{30A0}' <= c && c <= '\u{30FF}') || ('\u{3400}' <= c && c <= '\u{4DBF}')
            || ('\u{4E00}' <= c && c <= '\u{9FFF}') || ('\u{AC00}' <= c && c <= '\u{D7AF}')
            || ('\u{F900}' <= c && c <= '\u{FAFF}') || ('\u{FE30}' <= c && c <= '\u{FE4F}')
            || ('\u{FF65}' <= c && c <= '\u{FF9F}') || ('\u{1100}' <= c && c <= '\u{11FF}')
            || ('\u{20000}' <= c && c <= '\u{2A6DF}') || ('\u{2A700}' <= c && c <= '\u{2B73F}'),
    }
}

/// The last character, if any.
pub open spec fn last_char(s: Seq<char>) -> Option<char> {
    if s.len() > 0 { Some(s.last()) } else { None }
}

/// The first character, if any.
pub open spec fn first_char(s: Seq<char>) -> Option<char> {
    if s.len() > 0 { Some(s[0]) } else { None }
}

/// A space goes between two joined pieces unless one side already has one at
/// the seam, the continuation is empty, or either side is CJK at the seam.
pub open spec fn needs_space(joined: Seq<char>, cont: Seq<char>) -> bool {
    &&& last_char(joined) != Some(' ')
    &&& first_char(cont) != Some(' ')
    &&& cont.len() > 0
    &&& !is_cjk_opt(last_char(joined))
    &&& !is_cjk_opt(first_char(cont))
}

/// `joined` followed by `cont`, with a space between them where one is needed.
pub open spec fn seam(joined: Seq<char>, cont: Seq<char>) -> Seq<char> {
    if needs_space(joined, cont) {
        joined.push(' ') + cont
    } else {
        joined + cont
    }
}

/// The width from which a line counts as wrapped: two columns short of the
/// wrap width.
pub open spec fn join_threshold(ww: nat) -> nat {
    if ww >= 2 { (ww - 2) as nat } else { 0 }
}

/// The width from which a continuation line may itself continue: half the
/// wrap width.
pub open spec fn relaxed_threshold(ww: nat) -> nat {
    ww / 2
}

/// The width from which a line that was not joined counts as a near miss:
/// 70% of the wrap width.
pub open spec fn near_miss_floor(ww: nat) -> nat {
    (ww * 70) / 100
}

/// Every empty line of the text is measured as zero columns wide, as
/// `str_width` gives it; the laws on empty lines and the final line feed
/// then hold of the measured text.
pub open spec fn empty_lines_zero_wide(text: Seq<char>) -> bool {
    forall|k: int|
        0 <= k < lines_of(text).len() && (#[trigger] lines_of(text)[k]).len() == 0 ==> line_widths(
            lines_of(text),
        )[k] == 0
}

/// The display width of every line.
pub open spec fn line_widths(ls: Seq<Seq<char>>) -> Seq<nat> {
    ls.map_values(|l: Seq<char>| display_width(l))
}

/// Widths held in `usize`, as numbers.
pub open spec fn nat_widths(ws: Seq<usize>) -> Seq<nat> {
    ws.map_values(|w: usize| w as nat)
}

/// Whether a line follows line `i` and is not empty.
pub open spec fn next_non_empty(ls: Seq<Seq<char>>, i: int) -> bool {
    i + 1 < ls.len() && ls[i + 1].len() > 0
}

/// Joining continuation lines onto `acc` from line `j` on, where line `k` is
/// `ws[k]` columns wide: each is appended with its leading white space
/// removed; the next one follows while the one just appended is at least half
/// the wrap width wide and the next is not empty. The result is the joined
/// text, the index of the first line not taken, and a warning for each line
/// taken that was narrower than the threshold.
pub open spec fn absorb(ls: Seq<Seq<char>>, ws: Seq<nat>, acc: Seq<char>, j: int, ww: nat) -> (
    Seq<char>,
    int,
    Seq<Warning>,
)
    decreases ls.len() - j,
{
    if j < 0 || j >= ls.len() {
        (acc, j, Seq::empty())
    } else {
        let acc2 = seam(acc, trim_start(ls[j]));
        let sw = ws[j];
        let warn = if sw < join_threshold(ww) && sw >= relaxed_threshold(ww) {
            seq![Warning::JoinRelaxedUsed { line_index: j as usize, width: sw as usize }]
        } else {
            Seq::empty()
        };
        if sw >= relaxed_threshold(ww) && next_non_empty(ls, j) {
            let (a, e, ws2) = absorb(ls, ws, acc2, j + 1, ww);
            (a, e, warn + ws2)
        } else {
            (acc2, j + 1, warn)
        }
    }
}

/// Joining stops after the line it starts at, and inside the text.
pub proof fn lemma_absorb_end(ls: Seq<Seq<char>>, ws: Seq<nat>, acc: Seq<char>, j: int, ww: nat)
    requires
        0 <= j < ls.len(),
    ensures
        j < absorb(ls, ws, acc, j, ww).1 <= ls.len(),
    decreases ls.len() - j,
{
    let acc2 = seam(acc, trim_start(ls[j]));
    if ws[j] >= relaxed_threshold(ww) && next_non_empty(ls, j) {
        lemma_absorb_end(ls, ws, acc2, j + 1, ww);
    }
}

/// The lines from `i` on with wrapped lines joined, where line `k` is `ws[k]`
/// columns wide, and the warnings: a line at least as wide as the threshold,
/// followed by a non-empty line, starts a join; a line that does not, though
/// followed by a non-empty line and at least 70% of the wrap width wide, is
/// reported as a near miss.
pub open spec fn join_from(ls: Seq<Seq<char>>, ws: Seq<nat>, i: int, ww: nat) -> (
    Seq<Seq<char>>,
    Seq<Warning>,
)
    decreases ls.len() - i,
{
    if i < 0 || i >= ls.len() {
        (Seq::empty(), Seq::empty())
    } else if ws[i] >= join_threshold(ww) && next_non_empty(ls, i) {
        let (joined, j, wn) = absorb(ls, ws, ls[i], i + 1, ww);
        proof {
            lemma_absorb_end(ls, ws, ls[i], i + 1, ww);
        }
        let (rest, rwn) = join_from(ls, ws, j, ww);
        (seq![joined] + rest, wn + rwn)
    } else {
        let w = ws[i];
        let nm = if next_non_empty(ls, i) && w >= near_miss_floor(ww) && w < join_threshold(ww) {
            seq![Warning::JoinNearMiss { line_index: i as usize, width: w as usize, wrap_width: ww as usize }]
        } else {
            Seq::empty()
        };
        let (rest, rwn) = join_from(ls, ws, i + 1, ww);
        (seq![ls[i]] + rest, nm + rwn)
    }
}

/// The text with wrapped lines joined, line `k` being `ws[k]` columns wide.
pub open spec fn joined_text(text: Seq<char>, ws: Seq<nat>, ww: nat) -> Seq<char> {
    rejoin(join_from(lines_of(text), ws, 0, ww).0, text)
}

/// The warnings that joining reports, line `k` being `ws[k]` columns wide.
pub open spec fn joined_warnings(text: Seq<char>, ws: Seq<nat>, ww: nat) -> Seq<Warning> {
    join_from(lines_of(text), ws, 0, ww).1
}

/// The text with wrapped lines joined, each line measured by its display width.
pub open spec fn join_wrapped_text(text: Seq<char>, ww: nat) -> Seq<char> {
    joined_text(text, line_widths(lines_of(text)), ww)
}

/// The warnings that joining reports, each line measured by its display width.
pub open spec fn join_wrapped_warnings(text: Seq<char>, ww: nat) -> Seq<Warning> {
    joined_warnings(text, line_widths(lines_of(text)), ww)
}

/// Where no line reaches the threshold width, nothing is joined: the lines
/// stay as they are.
pub proof fn lemma_narrow_lines_stay(ls: Seq<Seq<char>>, ws: Seq<nat>, ww: nat, i: int)
    requires
        0 <= i <= ls.len(),
        forall|k: int| 0 <= k < ls.len() ==> #[trigger] ws[k] < join_threshold(ww),
    ensures
        join_from(ls, ws, i, ww).0 == ls.skip(i),
    decreases ls.len() - i,
{
    if i == ls.len() {
        assert(ls.skip(i) =~= Seq::<Seq<char>>::empty());
    } else {
        lemma_narrow_lines_stay(ls, ws, ww, i + 1);
        assert(ls.skip(i) =~= seq![ls[i]] + ls.skip(i + 1));
    }
}

/// A line followed by an empty line, or by no line, is never joined with
/// what follows it, and joining never makes more lines than it was given.
pub proof fn lemma_join_bounds(ls: Seq<Seq<char>>, ws: Seq<nat>, ww: nat, i: int)
    requires
        0 <= i <= ls.len(),
    ensures
        join_from(ls, ws, i, ww).0.len() <= ls.len() - i,
        i < ls.len() && !next_non_empty(ls, i) ==> join_from(ls, ws, i, ww).0[0] == ls[i],
    decreases ls.len() - i,
{
    if i < ls.len() {
        if ws[i] >= join_threshold(ww) && next_non_empty(ls, i) {
            lemma_absorb_end(ls, ws, ls[i], i + 1, ww);
            let j = absorb(ls, ws, ls[i], i + 1, ww).1;
            lemma_join_bounds(ls, ws, ww, j);
        } else {
            lemma_join_bounds(ls, ws, ww, i + 1);
        }
    }
}

/// Putting two pieces together at a seam adds at most a space: what is
/// visible is what is visible in each.
pub proof fn lemma_visible_seam(a: Seq<char>, b: Seq<char>)
    ensures
        visible(seam(a, b)) == visible(a) + visible(b),
{
    lemma_visible_add(a, b);
    if needs_space(a, b) {
        lemma_visible_add(a.push(' '), b);
        assert(a.push(' ').drop_last() =~= a);
    }
}

/// Joining continuation lines onto `acc` hides nothing: what is visible in
/// the result is what is visible in `acc` and in the lines taken.
pub proof fn lemma_visible_absorb(ls: Seq<Seq<char>>, ws: Seq<nat>, acc: Seq<char>, j: int, ww: nat)
    requires
        0 <= j < ls.len(),
    ensures
        visible(absorb(ls, ws, acc, j, ww).0) == visible(acc) + visible_lines(
            ls.subrange(j, absorb(ls, ws, acc, j, ww).1),
        ),
    decreases ls.len() - j,
{
    let acc2 = seam(acc, trim_start(ls[j]));
    lemma_visible_seam(acc, trim_start(ls[j]));
    lemma_visible_trim_start(ls[j]);
    lemma_absorb_end(ls, ws, acc, j, ww);
    let e = absorb(ls, ws, acc, j, ww).1;
    let sub = ls.subrange(j, e);
    assert(sub[0] == ls[j]);
    if ws[j] >= relaxed_threshold(ww) && next_non_empty(ls, j) {
        lemma_visible_absorb(ls, ws, acc2, j + 1, ww);
        lemma_absorb_end(ls, ws, acc2, j + 1, ww);
        assert(sub.drop_first() =~= ls.subrange(j + 1, e));
        assert(visible(acc) + visible(ls[j]) + visible_lines(ls.subrange(j + 1, e)) =~= visible(acc)
            + (visible(ls[j]) + visible_lines(ls.subrange(j + 1, e))));
    } else {
        assert(sub.drop_first() =~= Seq::<Seq<char>>::empty());
        assert(visible_lines(sub.drop_first()) == Seq::<char>::empty());
        assert(visible(ls[j]) + Seq::<char>::empty() =~= visible(ls[j]));
    }
}

/// Joining the lines from `i` on hides nothing and adds nothing visible.
pub proof fn lemma_visible_join_from(ls: Seq<Seq<char>>, ws: Seq<nat>, i: int, ww: nat)
    requires
        0 <= i <= ls.len(),
    ensures
        visible_lines(join_from(ls, ws, i, ww).0) == visible_lines(ls.skip(i)),
    decreases ls.len() - i,
{
    if i == ls.len() {
        assert(ls.skip(i) =~= Seq::<Seq<char>>::empty());
    } else if ws[i] >= join_threshold(ww) && next_non_empty(ls, i) {
        let (joined, j, wn) = absorb(ls, ws, ls[i], i + 1, ww);
        lemma_absorb_end(ls, ws, ls[i], i + 1, ww);
        lemma_visible_absorb(ls, ws, ls[i], i + 1, ww);
        lemma_visible_join_from(ls, ws, j, ww);
        let rest = join_from(ls, ws, j, ww).0;
        let out = seq![joined] + rest;
        assert(join_from(ls, ws, i, ww).0 == out);
        assert(out[0] == joined);
        assert(out.drop_first() =~= rest);
        let mid = ls.subrange(i + 1, j);
        assert(ls.skip(i) =~= seq![ls[i]] + (mid + ls.skip(j)));
        lemma_visible_lines_add(mid, ls.skip(j));
        let one = seq![ls[i]] + (mid + ls.skip(j));
        assert(one[0] == ls[i]);
        assert(one.drop_first() =~= mid + ls.skip(j));
        assert(visible(ls[i]) + visible_lines(mid) + visible_lines(ls.skip(j)) =~= visible(ls[i]) + (
        visible_lines(mid) + visible_lines(ls.skip(j))));
    } else {
        lemma_visible_join_from(ls, ws, i + 1, ww);
        let rest = join_from(ls, ws, i + 1, ww).0;
        let out = seq![ls[i]] + rest;
        assert(join_from(ls, ws, i, ww).0 == out);
        assert(out[0] == ls[i]);
        assert(out.drop_first() =~= rest);
        assert(ls.skip(i)[0] == ls[i]);
        assert(ls.skip(i).drop_first() =~= ls.skip(i + 1));
    }
}

/// Joining wrapped lines keeps every visible character, in order: only line
/// feeds, carriage returns and the white space at the start of continuation
/// lines go, and only spaces come in. This holds whatever widths the lines
/// are taken to have.
pub proof fn lemma_join_keeps_visible(text: Seq<char>, ws: Seq<nat>, ww: nat)
    ensures
        visible(joined_text(text, ws, ww)) == visible(text),
        visible(join_wrapped_text(text, ww)) == visible(text),
{
    let ls = lines_of(text);
    lemma_visible_lines_of(text);
    lemma_visible_join_from(ls, ws, 0, ww);
    lemma_visible_rejoin(join_from(ls, ws, 0, ww).0, text);
    assert(ls.skip(0) =~= ls);
    let ws2 = line_widths(ls);
    lemma_visible_join_from(ls, ws2, 0, ww);
    lemma_visible_rejoin(join_from(ls, ws2, 0, ww).0, text);
}

/// A warning that joining can give: a near miss or a join at the relaxed
/// threshold.
pub open spec fn is_join_warning(w: Warning) -> bool {
    w is JoinNearMiss || w is JoinRelaxedUsed
}

/// Joining continuation lines only warns of joins at the relaxed threshold.
pub proof fn lemma_absorb_warnings(ls: Seq<Seq<char>>, ws: Seq<nat>, acc: Seq<char>, j: int, ww: nat)
    ensures
        forall|k: int|
            0 <= k < absorb(ls, ws, acc, j, ww).2.len() ==> #[trigger] absorb(ls, ws, acc, j, ww).2[k] is JoinRelaxedUsed,
    decreases ls.len() - j,
{
    if 0 <= j < ls.len() {
        let acc2 = seam(acc, trim_start(ls[j]));
        if ws[j] >= relaxed_threshold(ww) && next_non_empty(ls, j) {
            lemma_absorb_warnings(ls, ws, acc2, j + 1, ww);
        }
    }
}

/// Joining gives no other warnings than near misses and joins at the
/// relaxed threshold.
pub proof fn lemma_join_warnings_kinds(ls: Seq<Seq<char>>, ws: Seq<nat>, i: int, ww: nat)
    ensures
        forall|k: int| 0 <= k < join_from(ls, ws, i, ww).1.len() ==> is_join_warning(
            #[trigger] join_from(ls, ws, i, ww).1[k],
        ),
    decreases ls.len() - i,
{
    if 0 <= i < ls.len() {
        if ws[i] >= join_threshold(ww) && next_non_empty(ls, i) {
            let (joined, j, wn) = absorb(ls, ws, ls[i], i + 1, ww);
            lemma_absorb_end(ls, ws, ls[i], i + 1, ww);
            lemma_absorb_warnings(ls, ws, ls[i], i + 1, ww);
            lemma_join_warnings_kinds(ls, ws, j, ww);
            let all = join_from(ls, ws, i, ww).1;
            let rest = join_from(ls, ws, j, ww).1;
            assert(all == wn + rest);
            assert forall|k: int| 0 <= k < all.len() implies is_join_warning(#[trigger] all[k]) by {
                if k < wn.len() {
                    assert(all[k] == wn[k]);
                } else {
                    assert(all[k] == rest[k - wn.len()]);
                }
            }
        } else {
            lemma_join_warnings_kinds(ls, ws, i + 1, ww);
            let all = join_from(ls, ws, i, ww).1;
            let rest = join_from(ls, ws, i + 1, ww).1;
            let w = ws[i];
            let nm = if next_non_empty(ls, i) && w >= near_miss_floor(ww) && w < join_threshold(ww) {
                seq![Warning::JoinNearMiss { line_index: i as usize, width: w as usize, wrap_width: ww as usize }]
            } else {
                Seq::empty()
            };
            assert(all == nm + rest);
            assert forall|k: int| 0 <= k < all.len() implies is_join_warning(#[trigger] all[k]) by {
                if k < nm.len() {
                    assert(all[k] == nm[k]);
                } else {
                    assert(all[k] == rest[k - nm.len()]);
                }
            }
        }
    }
}

/// Every warning that joining a text reports is a near miss or a join at the
/// relaxed threshold, whatever widths the lines are taken to have.
pub proof fn lemma_joined_warnings_kinds(text: Seq<char>, ws: Seq<nat>, ww: nat)
    ensures
        forall|k: int| 0 <= k < joined_warnings(text, ws, ww).len() ==> is_join_warning(
            #[trigger] joined_warnings(text, ws, ww)[k],
        ),
{
    lemma_join_warnings_kinds(lines_of(text), ws, 0, ww);
}

/// The number of empty lines.
pub open spec fn count_empty(ls: Seq<Seq<char>>) -> nat
    decreases ls.len(),
{
    if ls.len() == 0 {
        0
    } else {
        (if ls[0].len() == 0 { 1nat } else { 0nat }) + count_empty(ls.drop_first())
    }
}

/// Counting empty lines over two runs of lines put together.
pub proof fn lemma_count_empty_add(a: Seq<Seq<char>>, b: Seq<Seq<char>>)
    ensures
        count_empty(a + b) == count_empty(a) + count_empty(b),
    decreases a.len(),
{
    if a.len() == 0 {
        assert(a + b =~= b);
    } else {
        assert((a + b).drop_first() =~= a.drop_first() + b);
        assert((a + b)[0] == a[0]);
        lemma_count_empty_add(a.drop_first(), b);
    }
}

/// Joining onto `acc` takes lines that are not empty, and never shortens `acc`.
pub proof fn lemma_absorb_non_empty(ls: Seq<Seq<char>>, ws: Seq<nat>, acc: Seq<char>, j: int, ww: nat)
    requires
        0 <= j < ls.len(),
        ls[j].len() > 0,
    ensures
        absorb(ls, ws, acc, j, ww).0.len() >= acc.len(),
        count_empty(ls.subrange(j, absorb(ls, ws, acc, j, ww).1)) == 0,
    decreases ls.len() - j,
{
    let acc2 = seam(acc, trim_start(ls[j]));
    assert(acc2.len() >= acc.len());
    lemma_absorb_end(ls, ws, acc, j, ww);
    let e = absorb(ls, ws, acc, j, ww).1;
    let sub = ls.subrange(j, e);
    assert(sub[0] == ls[j]);
    if ws[j] >= relaxed_threshold(ww) && next_non_empty(ls, j) {
        lemma_absorb_non_empty(ls, ws, acc2, j + 1, ww);
        assert(e == absorb(ls, ws, acc2, j + 1, ww).1);
        assert(sub.drop_first() =~= ls.subrange(j + 1, e));
        assert(count_empty(sub) == count_empty(sub.drop_first()));
    } else {
        assert(e == j + 1);
        assert(sub.drop_first() =~= Seq::<Seq<char>>::empty());
        assert(count_empty(sub.drop_first()) == 0);
        assert(count_empty(sub) == count_empty(sub.drop_first()));
    }
}

/// Where the wrap width is over two columns and empty lines are taken as
/// zero columns wide, joining keeps every empty line as a line of its own:
/// the result has as many empty lines as the lines it was given.
pub proof fn lemma_join_keeps_empty_lines(ls: Seq<Seq<char>>, ws: Seq<nat>, i: int, ww: nat)
    requires
        0 <= i <= ls.len(),
        ww >= 3,
        forall|k: int| 0 <= k < ls.len() && (#[trigger] ls[k]).len() == 0 ==> ws[k] == 0,
    ensures
        count_empty(join_from(ls, ws, i, ww).0) == count_empty(ls.skip(i)),
    decreases ls.len() - i,
{
    if i == ls.len() {
        assert(ls.skip(i) =~= Seq::<Seq<char>>::empty());
    } else if ws[i] >= join_threshold(ww) && next_non_empty(ls, i) {
        assert(ls[i].len() > 0);
        let (joined, j, wn) = absorb(ls, ws, ls[i], i + 1, ww);
        lemma_absorb_end(ls, ws, ls[i], i + 1, ww);
        lemma_absorb_non_empty(ls, ws, ls[i], i + 1, ww);
        lemma_join_keeps_empty_lines(ls, ws, j, ww);
        let rest = join_from(ls, ws, j, ww).0;
        let out = seq![joined] + rest;
        assert(join_from(ls, ws, i, ww).0 == out);
        assert(out[0] == joined);
        assert(out.drop_first() =~= rest);
        let mid = ls.subrange(i + 1, j);
        let one = seq![ls[i]] + (mid + ls.skip(j));
        assert(ls.skip(i) =~= one);
        lemma_count_empty_add(mid, ls.skip(j));
        assert(one[0] == ls[i]);
        assert(one.drop_first() =~= mid + ls.skip(j));
    } else {
        lemma_join_keeps_empty_lines(ls, ws, i + 1, ww);
        let rest = join_from(ls, ws, i + 1, ww).0;
        let out = seq![ls[i]] + rest;
        assert(join_from(ls, ws, i, ww).0 == out);
        assert(out[0] == ls[i]);
        assert(out.drop_first() =~= rest);
        assert(ls.skip(i)[0] == ls[i]);
        assert(ls.skip(i).drop_first() =~= ls.skip(i + 1));
    }
}

/// Pieces without line feeds put together at a seam hold none.
proof fn lemma_seam_no_newline(a: Seq<char>, b: Seq<char>)
    requires
        no_newline(a),
        no_newline(b),
    ensures
        no_newline(seam(a, b)),
{
    let r = seam(a, b);
    if needs_space(a, b) {
        assert forall|i: int| 0 <= i < r.len() implies r[i] != '\n' by {
            if i < a.len() {
                assert(r[i] == a[i]);
            } else if i > a.len() {
                assert(r[i] == b[i - a.len() - 1]);
            }
        }
    } else {
        assert forall|i: int| 0 <= i < r.len() implies r[i] != '\n' by {
            if i < a.len() {
                assert(r[i] == a[i]);
            } else {
                assert(r[i] == b[i - a.len()]);
            }
        }
    }
}

/// Joining lines without line feeds onto `acc` gives a line without them.
proof fn lemma_absorb_no_newline(ls: Seq<Seq<char>>, ws: Seq<nat>, acc: Seq<char>, j: int, ww: nat)
    requires
        no_newline(acc),
        forall|k: int| 0 <= k < ls.len() ==> no_newline(#[trigger] ls[k]),
    ensures
        no_newline(absorb(ls, ws, acc, j, ww).0),
    decreases ls.len() - j,
{
    if 0 <= j < ls.len() {
        let t = trim_start(ls[j]);
        assert(no_newline(ls[j]));
        assert forall|i: int| 0 <= i < t.len() implies t[i] != '\n' by {
            crate::text::lemma_ws_run_bounds(ls[j], 0);
            assert(t[i] == ls[j][i + crate::text::leading_ws(ls[j])]);
        }
        lemma_seam_no_newline(acc, t);
        let acc2 = seam(acc, t);
        if ws[j] >= relaxed_threshold(ww) && next_non_empty(ls, j) {
            lemma_absorb_no_newline(ls, ws, acc2, j + 1, ww);
        }
    }
}

/// Where the last line is not empty, neither is the last line joined; and
/// that one holds no line feed.
proof fn lemma_join_last_line(ls: Seq<Seq<char>>, ws: Seq<nat>, i: int, ww: nat)
    requires
        0 <= i < ls.len(),
        ls.last().len() > 0,
        ww >= 3,
        forall|k: int| 0 <= k < ls.len() && (#[trigger] ls[k]).len() == 0 ==> ws[k] == 0,
        forall|k: int| 0 <= k < ls.len() ==> no_newline(#[trigger] ls[k]),
    ensures
        join_from(ls, ws, i, ww).0.len() > 0,
        join_from(ls, ws, i, ww).0.last().len() > 0,
        no_newline(join_from(ls, ws, i, ww).0.last()),
    decreases ls.len() - i,
{
    if ws[i] >= join_threshold(ww) && next_non_empty(ls, i) {
        assert(ls[i].len() > 0);
        let (joined, j, wn) = absorb(ls, ws, ls[i], i + 1, ww);
        lemma_absorb_end(ls, ws, ls[i], i + 1, ww);
        lemma_absorb_non_empty(ls, ws, ls[i], i + 1, ww);
        lemma_absorb_no_newline(ls, ws, ls[i], i + 1, ww);
        let rest = join_from(ls, ws, j, ww).0;
        assert(join_from(ls, ws, i, ww).0 == seq![joined] + rest);
        if j < ls.len() {
            lemma_join_last_line(ls, ws, j, ww);
            assert((seq![joined] + rest).last() == rest.last());
        } else {
            assert(rest =~= Seq::<Seq<char>>::empty());
            assert((seq![joined] + rest).last() == joined);
        }
    } else {
        let rest = join_from(ls, ws, i + 1, ww).0;
        assert(join_from(ls, ws, i, ww).0 == seq![ls[i]] + rest);
        if i + 1 < ls.len() {
            lemma_join_last_line(ls, ws, i + 1, ww);
            assert((seq![ls[i]] + rest).last() == rest.last());
        } else {
            assert(rest =~= Seq::<Seq<char>>::empty());
            assert((seq![ls[i]] + rest).last() == ls[i]);
        }
    }
}

/// Where the wrap width is over two columns and empty lines are taken as zero
/// columns wide, the joined text ends with a line feed exactly where the text
/// did.
pub proof fn lemma_join_keeps_final_newline(text: Seq<char>, ws: Seq<nat>, ww: nat)
    requires
        ww >= 3,
        forall|k: int|
            0 <= k < lines_of(text).len() && (#[trigger] lines_of(text)[k]).len() == 0 ==> ws[k] == 0,
    ensures
        ends_with_newline(joined_text(text, ws, ww)) == ends_with_newline(text),
{
    let ls = lines_of(text);
    let out = join_from(ls, ws, 0, ww).0;
    if !ends_with_newline(text) && text.len() > 0 {
        lemma_last_line_not_empty(text);
        lemma_lines_no_newline(text);
        lemma_join_last_line(ls, ws, 0, ww);
        lemma_join_lines_last(out);
    } else if text.len() == 0 {
        assert(split_state(text) == (Seq::<Seq<char>>::empty(), Seq::<char>::empty()));
        assert(ls.len() == 0);
        assert(out =~= Seq::<Seq<char>>::empty());
    }
}

/// A character of a script written without spaces between words: the CJK
/// symbols and punctuation, Hiragana, Katakana, the CJK unified and
/// compatibility ideographs with extensions A, B and C, the compatibility
/// forms, halfwidth Katakana, and Hangul syllables and jamo.
pub open spec fn written_without_spaces(c: char) -> bool {
    ||| ('\u{3000}' <= c && c <= '\u{30FF}')
    ||| ('\u{3400}' <= c && c <= '\u{4DBF}')
    ||| ('\u{4E00}' <= c && c < '\u{A000}')
    ||| ('\u{AC00}' <= c && c <= '\u{D7AF}')
    ||| ('\u{F900}' <= c && c <= '\u{FAFF}')
    ||| ('\u{FE30}' <= c && c <= '\u{FE4F}')
    ||| ('\u{FF65}' <= c && c <= '\u{FF9F}')
    ||| ('\u{1100}' <= c && c <= '\u{11FF}')
    ||| ('\u{20000}' <= c && c <= '\u{2A6DF}')
    ||| ('\u{2A700}' <= c && c <= '\u{2B73F}')
}

/// An ASCII letter or digit.
pub open spec fn ascii_alnum(c: char) -> bool {
    ('a' <= c && c <= 'z') || ('A' <= c && c <= 'Z') || ('0' <= c && c <= '9')
}

/// The text of one line, with a final line feed where `text` has one.
pub open spec fn as_text(line: Seq<char>, text: Seq<char>) -> Seq<char> {
    if ends_with_newline(text) {
        line.push('\n')
    } else {
        line
    }
}

/// A text of two lines whose first is wide enough is joined into one line:
/// the first, then the second without its leading white space, put together
/// at a seam.
proof fn lemma_join_two_lines(text: Seq<char>, ws: Seq<nat>, ww: nat)
    requires
        lines_of(text).len() == 2,
        lines_of(text)[1].len() > 0,
        ws[0] >= join_threshold(ww),
    ensures
        joined_text(text, ws, ww) == as_text(seam(lines_of(text)[0], trim_start(lines_of(text)[1])), text),
{
    let ls = lines_of(text);
    let acc2 = seam(ls[0], trim_start(ls[1]));
    assert(next_non_empty(ls, 0));
    assert(!next_non_empty(ls, 1));
    assert(absorb(ls, ws, ls[0], 1, ww).0 == acc2);
    assert(absorb(ls, ws, ls[0], 1, ww).1 == 2);
    assert(join_from(ls, ws, 2, ww).0 == Seq::<Seq<char>>::empty());
    assert(join_from(ls, ws, 0, ww).0 =~= seq![acc2]);
    assert(join_lines(seq![acc2]) == acc2);
}

/// Where a terminal wrapped a line inside Chinese, Japanese or Korean text,
/// joining puts the pieces together with no space between them: a text of two
/// lines whose first fills the width, where the first line ends or the second
/// (its leading white space aside) starts with a character written without
/// spaces, becomes the two pieces side by side.
pub proof fn lemma_join_cjk_without_space(text: Seq<char>, ws: Seq<nat>, ww: nat)
    requires
        lines_of(text).len() == 2,
        lines_of(text)[1].len() > 0,
        ws[0] >= join_threshold(ww),
        ({
            let a = lines_of(text)[0];
            let b = trim_start(lines_of(text)[1]);
            (a.len() > 0 && written_without_spaces(a.last())) || (b.len() > 0 && written_without_spaces(b[0]))
        }),
    ensures
        joined_text(text, ws, ww) == as_text(lines_of(text)[0] + trim_start(lines_of(text)[1]), text),
{
    lemma_join_two_lines(text, ws, ww);
}

/// Where a terminal wrapped a line between two words of Latin letters or
/// digits, joining puts one space between the pieces.
pub proof fn lemma_join_words_with_space(text: Seq<char>, ws: Seq<nat>, ww: nat)
    requires
        lines_of(text).len() == 2,
        lines_of(text)[1].len() > 0,
        ws[0] >= join_threshold(ww),
        ({
            let a = lines_of(text)[0];
            let b = trim_start(lines_of(text)[1]);
            a.len() > 0 && ascii_alnum(a.last()) && b.len() > 0 && ascii_alnum(b[0])
        }),
    ensures
        joined_text(text, ws, ww) == as_text(
            lines_of(text)[0].push(' ') + trim_start(lines_of(text)[1]),
            text,
        ),
{
    lemma_join_two_lines(text, ws, ww);
}

pub struct JoinWrapped {
    pub wrap_width: usize,
}

/// The display width of the characters `v`.
fn chars_width(v: &Vec<char>) -> (w: usize)
    ensures
        w as nat == display_width(v@),
        v@.len() == 0 ==> w == 0,
{
    let s = string_from(v);
    str_width(s.as_str())
}

/// The text with the lines that the terminal wrapped joined back, and the
/// warnings, given the display width of each line of the text.
pub fn join_measured(text: &str, widths: &Vec<usize>, wrap_width: usize) -> (res: (
    String,
    Vec<Warning>,
))
    requires
        widths@.len() == lines_of(text@).len(),
        wrap_width * 70 <= usize::MAX,
    ensures
        res.0@ == joined_text(text@, nat_widths(widths@), wrap_width as nat),
        res.1@ == joined_warnings(text@, nat_widths(widths@), wrap_width as nat),
{
    let lines = split_lines(text);
    let ghost ls = lines_of(text@);
    let ghost ws = nat_widths(widths@);
    let ghost ww = wrap_width as nat;
    let mut result: Vec<Vec<char>> = Vec::new();
    let mut warnings: Vec<Warning> = Vec::new();
    let n = lines.len();
    let mut i: usize = 0;
    let threshold = wrap_width.saturating_sub(2);
    let relaxed = wrap_width / 2;
    let near_miss_low = wrap_width * 70 / 100;
    while i < n
        invariant
            n == lines@.len(),
            n == widths@.len(),
            views(lines@) == ls,
            ws == nat_widths(widths@),
            ww == wrap_width as nat,
            threshold as nat == join_threshold(ww),
            relaxed as nat == relaxed_threshold(ww),
            near_miss_low as nat == near_miss_floor(ww),
            i <= n,
            views(result@) + join_from(ls, ws, i as int, ww).0 == join_from(ls, ws, 0, ww).0,
            warnings@ + join_from(ls, ws, i as int, ww).1 == join_from(ls, ws, 0, ww).1,
        decreases n - i,
    {
        proof {
            assert(views(lines@)[i as int] == lines@[i as int]@);
            if i + 1 < n {
                assert(views(lines@)[i + 1] == lines@[i + 1]@);
            }
        }
        let width = widths[i];
        let next_is_non_empty = i + 1 < n && lines[i + 1].len() > 0;
        if width >= threshold && next_is_non_empty {
            let ghost target = absorb(ls, ws, ls[i as int], i + 1, ww);
            proof {
                lemma_absorb_end(ls, ws, ls[i as int], i + 1, ww);
            }
            let mut joined = lines[i].clone();
            let mut j = i + 1;
            let mut inner: Vec<Warning> = Vec::new();
            loop
                invariant_except_break
                    n == lines@.len(),
                    n == widths@.len(),
                    views(lines@) == ls,
                    ws == nat_widths(widths@),
                    ww == wrap_width as nat,
                    threshold as nat == join_threshold(ww),
                    relaxed as nat == relaxed_threshold(ww),
                    i < j < n,
                    absorb(ls, ws, joined@, j as int, ww).0 == target.0,
                    absorb(ls, ws, joined@, j as int, ww).1 == target.1,
                    inner@ + absorb(ls, ws, joined@, j as int, ww).2 == target.2,
                ensures
                    joined@ == target.0,
                    j as int == target.1,
                    inner@ == target.2,
                decreases n - j,
            {
                proof {
                    assert(views(lines@)[j as int] == lines@[j as int]@);
                    if j + 1 < n {
                        assert(views(lines@)[j + 1] == lines@[j + 1]@);
                    }
                }
                let ghost acc = joined@;
                let ghost step = absorb(ls, ws, acc, j as int, ww);
                let cont = trim_start_chars(&lines[j]);
                let jl = joined.len();
                let last = if jl > 0 { Some(joined[jl - 1]) } else { None };
                let first = if cont.len() > 0 { Some(cont[0]) } else { None };
                let needs_space = !(jl > 0 && joined[jl - 1] == ' ') && !(cont.len() > 0 && cont[0] == ' ')
                    && cont.len() > 0 && !is_cjk(last) && !is_cjk(first);
                if needs_space {
                    joined.push(' ');
                }
                extend_chars(&mut joined, &cont);
                proof {
                    assert(joined@ =~= seam(acc, trim_start(ls[j as int])));
                }
                j = j + 1;
                let seg_width = widths[j - 1];
                let next_exists = j < n && lines[j].len() > 0;
                let ghost before_inner = inner@;
                if seg_width < threshold && seg_width >= relaxed {
                    inner.push(Warning::JoinRelaxedUsed { line_index: j - 1, width: seg_width });
                }
                if seg_width >= relaxed && next_exists {
                    proof {
                        assert(inner@ + absorb(ls, ws, joined@, j as int, ww).2 =~= before_inner + step.2);
                    }
                    continue;
                }
                proof {
                    assert(inner@ =~= before_inner + step.2);
                }
                break;
            }
            let ghost before = views(result@);
            let ghost before_w = warnings@;
            let ghost rest = join_from(ls, ws, j as int, ww);
            result.push(joined);
            extend_warnings(&mut warnings, &inner);
            proof {
                assert(views(result@) =~= before.push(target.0));
                assert(join_from(ls, ws, i as int, ww).0 == seq![target.0] + rest.0);
                assert(views(result@) + rest.0 =~= before + join_from(ls, ws, i as int, ww).0);
                assert(warnings@ + rest.1 =~= before_w + join_from(ls, ws, i as int, ww).1);
            }
            i = j;
        } else {
            let ghost before = views(result@);
            let ghost before_w = warnings@;
            let ghost rest = join_from(ls, ws, i + 1, ww);
            if next_is_non_empty && width >= near_miss_low && width < threshold {
                warnings.push(Warning::JoinNearMiss { line_index: i, width, wrap_width });
            }
            result.push(lines[i].clone());
            proof {
                assert(views(result@) =~= before.push(ls[i as int]));
                assert(views(result@) + rest.0 =~= before + join_from(ls, ws, i as int, ww).0);
                assert(warnings@ + rest.1 =~= before_w + join_from(ls, ws, i as int, ww).1);
            }
            i = i + 1;
        }
    }
    proof {
        assert(views(result@) =~= join_from(ls, ws, 0, ww).0);
        assert(warnings@ =~= join_from(ls, ws, 0, ww).1);
    }
    let original = chars_of(text);
    (rejoin_lines(&result, &original), warnings)
}

/// The text with wrapped lines joined, and the warnings: each line is
/// measured with `unicode_width`, then joined as `join_measured` does.
fn join_inner(text: &str, wrap_width: usize) -> (res: (String, Vec<Warning>))
    requires
        wrap_width * 70 <= usize::MAX,
    ensures
        res.0@ == join_wrapped_text(text@, wrap_width as nat),
        res.1@ == join_wrapped_warnings(text@, wrap_width as nat),
        empty_lines_zero_wide(text@),
{
    let lines = split_lines(text);
    let ghost ls = lines_of(text@);
    let n = lines.len();
    let mut widths: Vec<usize> = Vec::new();
    let mut i: usize = 0;
    while i < n
        invariant
            n == lines@.len(),
            views(lines@) == ls,
            i <= n,
            widths@.len() == i,
            nat_widths(widths@) == line_widths(ls).take(i as int),
            forall|k: int| 0 <= k < i && (#[trigger] ls[k]).len() == 0 ==> line_widths(ls)[k] == 0,
        decreases n - i,
    {
        proof {
            assert(views(lines@)[i as int] == lines@[i as int]@);
        }
        let w = chars_width(&lines[i]);
        proof {
            if ls[i as int].len() == 0 {
                assert(lines@[i as int]@.len() == 0);
            }
        }
        let ghost before = widths@;
        widths.push(w);
        proof {
            assert(w as nat == line_widths(ls)[i as int]);
            assert forall|k: int| 0 <= k < i implies #[trigger] nat_widths(widths@)[k]
                == line_widths(ls).take(i + 1)[k] by {
                assert(widths@[k] == before[k]);
                assert(nat_widths(before)[k] == line_widths(ls).take(i as int)[k]);
            }
            assert(nat_widths(widths@) =~= line_widths(ls).take(i + 1));
        }
        i = i + 1;
    }
    proof {
        assert(line_widths(ls).take(n as int) =~= line_widths(ls));
    }
    join_measured(text, &widths, wrap_width)
}

/// Appends the warnings `w` to `v`.
fn extend_warnings(v: &mut Vec<Warning>, w: &Vec<Warning>)
    ensures
        final(v)@ == old(v)@ + w@,
{
    let n = w.len();
    let mut i: usize = 0;
    while i < n
        invariant
            n == w@.len(),
            i <= n,
            v@ == old(v)@ + w@.take(i as int),
        decreases n - i,
    {
        v.push(w[i]);
        proof {
            assert(w@.take(i + 1) =~= w@.take(i as int).push(w@[i as int]));
        }
        i = i + 1;
    }
    proof {
        assert(w@.take(n as int) =~= w@);
    }
}

impl Transformer for JoinWrapped {
    open spec fn accepts(&self, text: Seq<char>) -> bool {
        self.wrap_width * 70 <= usize::MAX
    }

    open spec fn result_of(&self, text: Seq<char>) -> Seq<char> {
        join_wrapped_text(text, self.wrap_width as nat)
    }

    open spec fn warnings_of(&self, text: Seq<char>) -> Seq<Warning> {
        join_wrapped_warnings(text, self.wrap_width as nat)
    }

    open spec fn name_of(&self) -> Seq<char> {
        "join_wrapped"@
    }

    fn name(&self) -> (n: &'static str) {
        "join_wrapped"
    }

    fn transform(&self, text: &str) -> (res: Result<String, TransformerError>)
        ensures
            empty_lines_zero_wide(text@),
    {
        Ok(join_inner(text, self.wrap_width).0)
    }

    fn transform_with_diagnostics(&self, text: &str) -> (res: Result<
        (String, TransformDiagnostics),
        TransformerError,
    >)
        ensures
            empty_lines_zero_wide(text@),
    {
        let (out, warnings) = join_inner(text, self.wrap_width);
        Ok((out, TransformDiagnostics { warnings }))
    }
}

} // verus!
