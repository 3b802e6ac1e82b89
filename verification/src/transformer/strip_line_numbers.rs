//! A gutter of line numbers at the start of the lines.

use vstd::prelude::*;
use vstd::utf8::encode_utf8;
use crate::error::TransformerError;
use crate::pattern::{compile, find_text, lemma_number_prefix_at_start, line_number_pattern, number_prefix, opt_chars};
use crate::text::{
    chars_of, is_blank, is_blank_line, lines_of, rejoin, rejoin_lines, skip_chars, split_lines,
    string_from, views,
};
use super::{TransformDiagnostics, Transformer, Warning};

verus! {

pub struct StripLineNumbers;

/// A line paired with the line-number prefix found at its start, if any.
pub open spec fn with_found(ls: Seq<Seq<char>>, ms: Seq<Option<Seq<char>>>) -> Seq<
    (Seq<char>, Option<Seq<char>>),
> {
    Seq::new(ls.len(), |k: int| (ls[k], ms[k]))
}

/// The line-number prefix of each line.
pub open spec fn prefixes_found(ls: Seq<Seq<char>>) -> Seq<Option<Seq<char>>> {
    ls.map_values(|l: Seq<char>| number_prefix(l))
}

/// Each prefix found is a prefix of its line.
pub open spec fn found_at_start(ls: Seq<Seq<char>>, ms: Seq<Option<Seq<char>>>) -> bool {
    &&& ms.len() == ls.len()
    &&& forall|k: int| 0 <= k < ls.len() ==> (#[trigger] ms[k] matches Some(m) ==> m.is_prefix_of(ls[k]))
}

/// The characters that matches held in strings hold.
pub open spec fn found_views(found: Seq<Option<String>>) -> Seq<Option<Seq<char>>> {
    found.map_values(
        |m: Option<String>|
            match m {
                Some(s) => Some(s@),
                None => None,
            },
    )
}

/// The line starts with a line number.
pub open spec fn numbered(p: (Seq<char>, Option<Seq<char>>)) -> bool {
    p.1 is Some
}

/// The characters of the line-number prefix.
pub open spec fn gutter_chars(p: (Seq<char>, Option<Seq<char>>)) -> nat {
    match p.1 {
        Some(m) => m.len(),
        None => 0,
    }
}

/// The bytes of the line-number prefix in UTF-8, as `str::len` gives them:
/// the offset at which the match ends.
pub open spec fn gutter_bytes(p: (Seq<char>, Option<Seq<char>>)) -> nat {
    match p.1 {
        Some(m) => (encode_utf8(m).len() as usize) as nat,
        None => 0,
    }
}

/// The line with its line-number prefix removed, where it has one.
pub open spec fn unnumbered(p: (Seq<char>, Option<Seq<char>>)) -> Seq<char> {
    if numbered(p) {
        p.0.skip(gutter_chars(p) as int)
    } else {
        p.0
    }
}

/// The number of leading spaces (`' '`; in UTF-8 each is the byte 0x20, and
/// no other character holds that byte).
pub open spec fn leading_spaces(l: Seq<char>) -> nat
    decreases l.len(),
{
    if l.len() > 0 && l[0] == ' ' {
        1 + leading_spaces(l.skip(1))
    } else {
        0
    }
}

/// The number of lines that are not blank.
pub open spec fn count_non_blank(ps: Seq<(Seq<char>, Option<Seq<char>>)>) -> nat
    decreases ps.len(),
{
    if ps.len() == 0 {
        0
    } else {
        count_non_blank(ps.drop_last()) + if !is_blank(ps.last().0) { 1nat } else { 0 }
    }
}

/// The number of lines that are not blank and start with a line number.
pub open spec fn count_numbered(ps: Seq<(Seq<char>, Option<Seq<char>>)>) -> nat
    decreases ps.len(),
{
    if ps.len() == 0 {
        0
    } else {
        count_numbered(ps.drop_last()) + if !is_blank(ps.last().0) && numbered(ps.last()) {
            1nat
        } else {
            0
        }
    }
}

/// The widest line-number prefix, in bytes, among the lines that are not
/// blank; `None` where none of them has one.
pub open spec fn widest_gutter(ps: Seq<(Seq<char>, Option<Seq<char>>)>) -> Option<nat>
    decreases ps.len(),
{
    if ps.len() == 0 {
        None
    } else {
        let rest = widest_gutter(ps.drop_last());
        let l = ps.last();
        if !is_blank(l.0) && numbered(l) {
            match rest {
                None => Some(gutter_bytes(l)),
                Some(g) => Some(if gutter_bytes(l) > g { gutter_bytes(l) } else { g }),
            }
        } else {
            rest
        }
    }
}

/// The number of lines that are not blank, have no line number, and are
/// indented by at least `gw` spaces: continuation lines left in the gutter.
pub open spec fn count_partial(ps: Seq<(Seq<char>, Option<Seq<char>>)>, gw: nat) -> nat
    decreases ps.len(),
{
    if ps.len() == 0 {
        0
    } else {
        let l = ps.last();
        count_partial(ps.drop_last(), gw) + if !is_blank(l.0) && !numbered(l) && leading_spaces(l.0) >= gw {
            1nat
        } else {
            0
        }
    }
}

/// What stripping finds and makes, given the prefix found in each line: the
/// text, the percentage of lines that are not blank and carry a line number,
/// the gutter width, and the number of continuation lines left in the gutter.
/// Nothing is stripped where there is no line that is not blank, or where
/// no more than half of those carry a number: stripping needs a match rate
/// above 50%.
pub open spec fn strip_outcome_with(text: Seq<char>, ms: Seq<Option<Seq<char>>>) -> (
    Seq<char>,
    nat,
    Option<nat>,
    nat,
) {
    let ps = with_found(lines_of(text), ms);
    let nb = count_non_blank(ps);
    let mt = count_numbered(ps);
    if nb == 0 {
        (text, 0, None, 0)
    } else if mt * 2 <= nb {
        (text, (mt * 100) / nb, None, 0)
    } else {
        let gw = widest_gutter(ps);
        let partial = match gw {
            Some(g) => count_partial(ps, g),
            None => 0,
        };
        (rejoin(ps.map_values(|p: (Seq<char>, Option<Seq<char>>)| unnumbered(p)), text), (mt * 100) / nb, gw, partial)
    }
}

/// The warnings for a match rate, a gutter width and a number of lines left
/// in the gutter: a borderline match rate (50% to 70%), and lines left in the
/// gutter where there is one.
pub open spec fn outcome_warnings(rate: nat, gw: Option<nat>, partial: nat) -> Seq<Warning> {
    let borderline = if 50 <= rate && rate <= 70 {
        seq![Warning::LineNumbersBorderline { match_rate_pct: rate as u32 }]
    } else {
        Seq::empty()
    };
    let gutter = if partial > 0 && gw is Some {
        seq![Warning::LineNumbersPartialGutter { gutter_width: gw->0 as usize, affected_lines: partial as usize }]
    } else {
        Seq::empty()
    };
    borderline + gutter
}

/// The warnings that stripping reports, given the prefix found in each line.
pub open spec fn strip_warnings_with(text: Seq<char>, ms: Seq<Option<Seq<char>>>) -> Seq<Warning> {
    let (_t, rate, gw, partial) = strip_outcome_with(text, ms);
    outcome_warnings(rate, gw, partial)
}

/// A gutter width held in `usize`, as a number.
pub open spec fn gutter_nat(g: Option<usize>) -> Option<nat> {
    match g {
        Some(g) => Some(g as nat),
        None => None,
    }
}

/// What stripping finds and makes, each line searched with the pattern.
pub open spec fn strip_outcome(text: Seq<char>) -> (Seq<char>, nat, Option<nat>, nat) {
    strip_outcome_with(text, prefixes_found(lines_of(text)))
}

/// The warnings that stripping reports, each line searched with the pattern.
pub open spec fn strip_warnings(text: Seq<char>) -> Seq<Warning> {
    strip_warnings_with(text, prefixes_found(lines_of(text)))
}

/// Where a line that is not blank carries a number, there is a widest gutter.
proof fn lemma_gutter_exists(ps: Seq<(Seq<char>, Option<Seq<char>>)>)
    ensures
        count_numbered(ps) > 0 ==> widest_gutter(ps) is Some,
    decreases ps.len(),
{
    if ps.len() > 0 {
        lemma_gutter_exists(ps.drop_last());
    }
}

/// A count over the lines stays within the number of lines.
proof fn lemma_counts_bounded(ps: Seq<(Seq<char>, Option<Seq<char>>)>, gw: nat)
    ensures
        count_numbered(ps) <= count_non_blank(ps) <= ps.len(),
        count_partial(ps, gw) <= ps.len(),
    decreases ps.len(),
{
    if ps.len() > 0 {
        lemma_counts_bounded(ps.drop_last(), gw);
    }
}

/// Where no more than half of the lines that are not blank carry a number, or
/// none is not blank, the text is left as it is; where more than half do,
/// every line that carries none is kept as it is, and the others lose exactly
/// their number prefix.
pub proof fn lemma_strip_threshold(text: Seq<char>, ms: Seq<Option<Seq<char>>>)
    ensures
        ({
            let ps = with_found(lines_of(text), ms);
            count_numbered(ps) * 2 <= count_non_blank(ps) ==> strip_outcome_with(text, ms).0 == text
        }),
        count_non_blank(with_found(lines_of(text), ms)) == 0 ==> strip_outcome_with(text, ms).0 == text,
        forall|p: (Seq<char>, Option<Seq<char>>)| !numbered(p) ==> #[trigger] unnumbered(p) == p.0,
        forall|p: (Seq<char>, Option<Seq<char>>)|
            numbered(p) ==> #[trigger] unnumbered(p) == p.0.skip(gutter_chars(p) as int),
{
}

/// The match rate is a percentage.
pub proof fn lemma_match_rate_at_most_100(text: Seq<char>, ms: Seq<Option<Seq<char>>>)
    ensures
        strip_outcome_with(text, ms).1 <= 100,
{
    let ps = with_found(lines_of(text), ms);
    lemma_counts_bounded(ps, 0);
    let nb = count_non_blank(ps);
    let mt = count_numbered(ps);
    if nb > 0 {
        assert((mt * 100) / nb <= 100) by (nonlinear_arith)
            requires
                mt <= nb,
                nb > 0,
        ;
    }
}

/// What stripping found and made.
pub struct StripResult {
    /// The text, stripped or as it was.
    pub text: String,
    /// The percentage of lines that are not blank and carry a line number.
    pub match_rate_pct: u32,
    /// The widest line-number prefix in bytes, where the text was stripped.
    pub gutter_width: Option<usize>,
    /// The lines left in the gutter without a number.
    pub partial_gutter_lines: usize,
}

/// The number of leading spaces of `l`.
fn leading_space_count(l: &Vec<char>) -> (n: usize)
    ensures
        n == leading_spaces(l@),
{
    let len = l.len();
    let mut i: usize = 0;
    proof {
        assert(l@.skip(0) =~= l@);
    }
    while i < len && l[i] == ' '
        invariant
            len == l@.len(),
            i <= len,
            leading_spaces(l@) == i + leading_spaces(l@.skip(i as int)),
        decreases len - i,
    {
        proof {
            assert(l@.skip(i as int)[0] == l@[i as int]);
            assert(l@.skip(i as int).skip(1) =~= l@.skip(i + 1));
        }
        i = i + 1;
    }
    i
}

/// Strips the line numbers of `text`, given the line-number prefix found at
/// the start of each of its lines.
pub fn strip_found(text: &str, found: &Vec<Option<String>>) -> (r: StripResult)
    requires
        found_at_start(lines_of(text@), found_views(found@)),
    ensures
        ({
            let o = strip_outcome_with(text@, found_views(found@));
            &&& r.text@ == o.0
            &&& r.match_rate_pct as nat == o.1
            &&& gutter_nat(r.gutter_width) == o.2
            &&& r.partial_gutter_lines as nat == o.3
        }),
{
    let lines = split_lines(text);
    let ghost ls = lines_of(text@);
    let ghost ms = found_views(found@);
    let ghost ps = with_found(ls, ms);
    let n = lines.len();
    proof {
        lemma_counts_bounded(ps, 0);
    }
    // per line: blank, and the line-number prefix (characters, bytes)
    let mut blank: Vec<bool> = Vec::new();
    let mut prefix: Vec<Option<(usize, usize)>> = Vec::new();
    let mut non_empty: usize = 0;
    let mut matching: usize = 0;
    let mut gutter_width: Option<usize> = None;
    let mut i: usize = 0;
    while i < n
        invariant
            n == lines@.len(),
            n == found@.len(),
            views(lines@) == ls,
            ms == found_views(found@),
            ps == with_found(ls, ms),
            found_at_start(ls, ms),
            i <= n,
            blank@.len() == i,
            prefix@.len() == i,
            forall|k: int| 0 <= k < i ==> #[trigger] blank@[k] == is_blank(ls[k]),
            forall|k: int|
                0 <= k < i ==> (match #[trigger] prefix@[k] {
                    Some((c, b)) => numbered(ps[k]) && c == gutter_chars(ps[k]) && b == gutter_bytes(ps[k]),
                    None => !numbered(ps[k]),
                }),
            non_empty == count_non_blank(ps.take(i as int)),
            matching == count_numbered(ps.take(i as int)),
            (match gutter_width {
                Some(g) => Some(g as nat),
                None => None::<nat>,
            }) == widest_gutter(ps.take(i as int)),
        decreases n - i,
    {
        proof {
            assert(views(lines@)[i as int] == lines@[i as int]@);
            let t = ps.take(i + 1);
            assert(t.drop_last() =~= ps.take(i as int));
            assert(t.last() == ps[i as int]);
            assert(ps[i as int] == (ls[i as int], ms[i as int]));
            lemma_counts_bounded(ps.take(i as int), 0);
        }
        let b = is_blank_line(&lines[i]);
        let p: Option<(usize, usize)> = match &found[i] {
            Some(m) => {
                let chars = m.as_str().unicode_len();
                let bytes = m.as_str().len();
                Some((chars, bytes))
            },
            None => None,
        };
        if !b {
            non_empty = non_empty + 1;
            if let Some((_c, bytes)) = p {
                matching = matching + 1;
                gutter_width = match gutter_width {
                    None => Some(bytes),
                    Some(g) => Some(if bytes > g { bytes } else { g }),
                };
            }
        }
        blank.push(b);
        prefix.push(p);
        proof {
            assert(prefix@[i as int] == p);
            assert(blank@[i as int] == b);
        }
        i = i + 1;
    }
    proof {
        assert(ps.take(n as int) =~= ps);
        lemma_counts_bounded(ps, 0);
        lemma_gutter_exists(ps);
    }
    if non_empty == 0 {
        return StripResult {
            text: String::from_str(text),
            match_rate_pct: 0,
            gutter_width: None,
            partial_gutter_lines: 0,
        };
    }
    assert((matching * 100) / (non_empty as int) <= 100) by (nonlinear_arith)
        requires
            matching <= non_empty,
            non_empty > 0,
    ;
    let wide: u128 = (matching as u128) * 100 / (non_empty as u128);
    assert(wide == (matching * 100) / (non_empty as int));
    let match_rate_pct = wide as u32;
    if matching <= non_empty - matching {
        return StripResult {
            text: String::from_str(text),
            match_rate_pct,
            gutter_width: None,
            partial_gutter_lines: 0,
        };
    }
    let mut result: Vec<Vec<char>> = Vec::new();
    let mut partial: usize = 0;
    let ghost gw: nat = match gutter_width { Some(g) => g as nat, None => 0 };
    let mut k: usize = 0;
    while k < n
        invariant
            n == lines@.len(),
            views(lines@) == ls,
            ps == with_found(ls, ms),
            found_at_start(ls, ms),
            k <= n,
            blank@.len() == n,
            prefix@.len() == n,
            forall|j: int| 0 <= j < n ==> #[trigger] blank@[j] == is_blank(ls[j]),
            forall|j: int|
                0 <= j < n ==> (match #[trigger] prefix@[j] {
                    Some((c, b)) => numbered(ps[j]) && c == gutter_chars(ps[j]) && b == gutter_bytes(ps[j]),
                    None => !numbered(ps[j]),
                }),
            gw == (match gutter_width { Some(g) => g as nat, None => 0 }),
            gutter_width is Some,
            views(result@) == ps.take(k as int).map_values(|p: (Seq<char>, Option<Seq<char>>)| unnumbered(p)),
            partial == count_partial(ps.take(k as int), gw),
            partial <= k,
        decreases n - k,
    {
        proof {
            assert(views(lines@)[k as int] == lines@[k as int]@);
            let t = ps.take(k + 1);
            assert(t.drop_last() =~= ps.take(k as int));
            assert(t.last() == ps[k as int]);
            assert(ps[k as int] == (ls[k as int], ms[k as int]));
        }
        let ghost before = views(result@);
        match prefix[k] {
            Some((c, _b)) => {
                proof {
                    let m = ms[k as int]->0;
                    assert(c == m.len());
                    assert(m.is_prefix_of(ls[k as int]));
                    assert(c <= ls[k as int].len());
                }
                let stripped = skip_chars(&lines[k], c);
                result.push(stripped);
                proof {
                    assert(views(result@) =~= before.push(unnumbered(ps[k as int])));
                }
            },
            None => {
                result.push(lines[k].clone());
                proof {
                    assert(views(result@) =~= before.push(unnumbered(ps[k as int])));
                }
            },
        }
        proof {
            assert(views(result@) =~= ps.take(k + 1).map_values(
                |p: (Seq<char>, Option<Seq<char>>)| unnumbered(p),
            ));
        }
        if let Some(g) = gutter_width {
            if !blank[k] && prefix[k].is_none() && leading_space_count(&lines[k]) >= g {
                partial = partial + 1;
            }
        }
        k = k + 1;
    }
    proof {
        assert(ps.take(n as int) =~= ps);
    }
    let original = chars_of(text);
    StripResult {
        text: rejoin_lines(&result, &original),
        match_rate_pct,
        gutter_width,
        partial_gutter_lines: partial,
    }
}

/// The warnings that a stripping result calls for.
pub fn result_warnings(r: &StripResult) -> (w: Vec<Warning>)
    ensures
        w@ == outcome_warnings(r.match_rate_pct as nat, gutter_nat(r.gutter_width), r.partial_gutter_lines as nat),
{
    let mut warnings: Vec<Warning> = Vec::new();
    if r.match_rate_pct >= 50 && r.match_rate_pct <= 70 {
        warnings.push(Warning::LineNumbersBorderline { match_rate_pct: r.match_rate_pct });
    }
    if r.partial_gutter_lines > 0 {
        if let Some(gw) = r.gutter_width {
            warnings.push(
                Warning::LineNumbersPartialGutter { gutter_width: gw, affected_lines: r.partial_gutter_lines },
            );
        }
    }
    proof {
        assert(warnings@ =~= outcome_warnings(
            r.match_rate_pct as nat,
            gutter_nat(r.gutter_width),
            r.partial_gutter_lines as nat,
        ));
    }
    warnings
}

/// Strips the line numbers of `text`: the pattern is compiled once, each line
/// is searched with it, then stripped as `strip_found` does.
fn strip_inner(text: &str) -> (res: Result<StripResult, TransformerError>)
    ensures
        res matches Ok(r) && r.text@ == strip_outcome(text@).0 && r.match_rate_pct as nat
            == strip_outcome(text@).1 && gutter_nat(r.gutter_width) == strip_outcome(text@).2
            && r.partial_gutter_lines as nat == strip_outcome(text@).3,
{
    let re = match compile("^\\s*\\d+(\\s|$)") {
        Ok(c) => c,
        Err(e) => {
            return Err(TransformerError::Regex(e));
        },
    };
    let lines = split_lines(text);
    let ghost ls = lines_of(text@);
    let n = lines.len();
    let mut found: Vec<Option<String>> = Vec::new();
    let mut i: usize = 0;
    while i < n
        invariant
            n == lines@.len(),
            views(lines@) == ls,
            re.pattern() == line_number_pattern(),
            i <= n,
            found@.len() == i,
            found_views(found@) == prefixes_found(ls).take(i as int),
            forall|k: int|
                0 <= k < i ==> (#[trigger] found_views(found@)[k] matches Some(m) ==> m.is_prefix_of(ls[k])),
        decreases n - i,
    {
        proof {
            assert(views(lines@)[i as int] == lines@[i as int]@);
        }
        let s = string_from(&lines[i]);
        let m = find_text(&re, s.as_str());
        let ghost before = found@;
        found.push(m);
        proof {
            lemma_number_prefix_at_start(ls[i as int]);
            assert(found@[i as int] == m);
            assert(found_views(found@)[i as int] == opt_chars(m));
            assert forall|k: int| 0 <= k < i implies #[trigger] found_views(found@)[k]
                == found_views(before)[k] by {
                assert(found@[k] == before[k]);
            }
            assert(found_views(found@) =~= prefixes_found(ls).take(i + 1));
        }
        i = i + 1;
    }
    proof {
        assert(prefixes_found(ls).take(n as int) =~= prefixes_found(ls));
    }
    Ok(strip_found(text, &found))
}

impl Transformer for StripLineNumbers {
    open spec fn accepts(&self, text: Seq<char>) -> bool {
        true
    }

    open spec fn result_of(&self, text: Seq<char>) -> Seq<char> {
        strip_outcome(text).0
    }

    open spec fn warnings_of(&self, text: Seq<char>) -> Seq<Warning> {
        strip_warnings(text)
    }

    open spec fn name_of(&self) -> Seq<char> {
        "strip_line_numbers"@
    }

    fn name(&self) -> (n: &'static str) {
        "strip_line_numbers"
    }

    fn transform(&self, text: &str) -> (res: Result<String, TransformerError>) {
        match strip_inner(text) {
            Ok(result) => Ok(result.text),
            Err(e) => Err(e),
        }
    }

    fn transform_with_diagnostics(&self, text: &str) -> (res: Result<
        (String, TransformDiagnostics),
        TransformerError,
    >) {
        match strip_inner(text) {
            Ok(result) => {
                let warnings = result_warnings(&result);
                Ok((result.text, TransformDiagnostics { warnings }))
            },
            Err(e) => Err(e),
        }
    }
}

} // verus!
