//! Regular expressions, compiled once and applied line by line: the two
//! patterns that the transformers use, and what each of them matches.

use vstd::prelude::*;
use crate::text::{is_ws, leading_ws};
use crate::transformer::strip_prompt::is_bare_prompt;

verus! {

#[verifier::external_type_specification]
#[verifier::external_body]
pub struct ExRegex(regex::Regex);

/// The pattern of a line-number prefix: white space, digits, then white
/// space or the end of the line.
pub open spec fn line_number_pattern() -> Seq<char> {
    "^\\s*\\d+(\\s|$)"@
}

/// The pattern of a line that holds only a shell prompt.
pub open spec fn prompt_pattern() -> Seq<char> {
    "^\\s*(?:\u{276F}|[$%>]|>>>)\\s*$"@
}

/// A decimal digit: Unicode General_Category `Nd`, the class that `\d`
/// stands for in the regex crate.
pub open spec fn is_decimal_digit(c: char) -> bool {
    ||| ('\u{30}' <= c && c <= '\u{39}')
    ||| ('\u{660}' <= c && c <= '\u{669}')
    ||| ('\u{6F0}' <= c && c <= '\u{6F9}')
    ||| ('\u{7C0}' <= c && c <= '\u{7C9}')
    ||| ('\u{966}' <= c && c <= '\u{96F}')
    ||| ('\u{9E6}' <= c && c <= '\u{9EF}')
    ||| ('\u{A66}' <= c && c <= '\u{A6F}')
    ||| ('\u{AE6}' <= c && c <= '\u{AEF}')
    ||| ('\u{B66}' <= c && c <= '\u{B6F}')
    ||| ('\u{BE6}' <= c && c <= '\u{BEF}')
    ||| ('\u{C66}' <= c && c <= '\u{C6F}')
    ||| ('\u{CE6}' <= c && c <= '\u{CEF}')
    ||| ('\u{D66}' <= c && c <= '\u{D6F}')
    ||| ('\u{DE6}' <= c && c <= '\u{DEF}')
    ||| ('\u{E50}' <= c && c <= '\u{E59}')
    ||| ('\u{ED0}' <= c && c <= '\u{ED9}')
    ||| ('\u{F20}' <= c && c <= '\u{F29}')
    ||| ('\u{1040}' <= c && c <= '\u{1049}')
    ||| ('\u{1090}' <= c && c <= '\u{1099}')
    ||| ('\u{17E0}' <= c && c <= '\u{17E9}')
    ||| ('\u{1810}' <= c && c <= '\u{1819}')
    ||| ('\u{1946}' <= c && c <= '\u{194F}')
    ||| ('\u{19D0}' <= c && c <= '\u{19D9}')
    ||| ('\u{1A80}' <= c && c <= '\u{1A89}')
    ||| ('\u{1A90}' <= c && c <= '\u{1A99}')
    ||| ('\u{1B50}' <= c && c <= '\u{1B59}')
    ||| ('\u{1BB0}' <= c && c <= '\u{1BB9}')
    ||| ('\u{1C40}' <= c && c <= '\u{1C49}')
    ||| ('\u{1C50}' <= c && c <= '\u{1C59}')
    ||| ('\u{A620}' <= c && c <= '\u{A629}')
    ||| ('\u{A8D0}' <= c && c <= '\u{A8D9}')
    ||| ('\u{A900}' <= c && c <= '\u{A909}')
    ||| ('\u{A9D0}' <= c && c <= '\u{A9D9}')
    ||| ('\u{A9F0}' <= c && c <= '\u{A9F9}')
    ||| ('\u{AA50}' <= c && c <= '\u{AA59}')
    ||| ('\u{ABF0}' <= c && c <= '\u{ABF9}')
    ||| ('\u{FF10}' <= c && c <= '\u{FF19}')
    ||| ('\u{104A0}' <= c && c <= '\u{104A9}')
    ||| ('\u{10D30}' <= c && c <= '\u{10D39}')
    ||| ('\u{10D40}' <= c && c <= '\u{10D49}')
    ||| ('\u{11066}' <= c && c <= '\u{1106F}')
    ||| ('\u{110F0}' <= c && c <= '\u{110F9}')
    ||| ('\u{11136}' <= c && c <= '\u{1113F}')
    ||| ('\u{111D0}' <= c && c <= '\u{111D9}')
    ||| ('\u{112F0}' <= c && c <= '\u{112F9}')
    ||| ('\u{11450}' <= c && c <= '\u{11459}')
    ||| ('\u{114D0}' <= c && c <= '\u{114D9}')
    ||| ('\u{11650}' <= c && c <= '\u{11659}')
    ||| ('\u{116C0}' <= c && c <= '\u{116C9}')
    ||| ('\u{116D0}' <= c && c <= '\u{116E3}')
    ||| ('\u{11730}' <= c && c <= '\u{11739}')
    ||| ('\u{118E0}' <= c && c <= '\u{118E9}')
    ||| ('\u{11950}' <= c && c <= '\u{11959}')
    ||| ('\u{11BF0}' <= c && c <= '\u{11BF9}')
    ||| ('\u{11C50}' <= c && c <= '\u{11C59}')
    ||| ('\u{11D50}' <= c && c <= '\u{11D59}')
    ||| ('\u{11DA0}' <= c && c <= '\u{11DA9}')
    ||| ('\u{11F50}' <= c && c <= '\u{11F59}')
    ||| ('\u{16130}' <= c && c <= '\u{16139}')
    ||| ('\u{16A60}' <= c && c <= '\u{16A69}')
    ||| ('\u{16AC0}' <= c && c <= '\u{16AC9}')
    ||| ('\u{16B50}' <= c && c <= '\u{16B59}')
    ||| ('\u{16D70}' <= c && c <= '\u{16D79}')
    ||| ('\u{1CCF0}' <= c && c <= '\u{1CCF9}')
    ||| ('\u{1D7CE}' <= c && c <= '\u{1D7FF}')
    ||| ('\u{1E140}' <= c && c <= '\u{1E149}')
    ||| ('\u{1E2F0}' <= c && c <= '\u{1E2F9}')
    ||| ('\u{1E4F0}' <= c && c <= '\u{1E4F9}')
    ||| ('\u{1E5F1}' <= c && c <= '\u{1E5FA}')
    ||| ('\u{1E950}' <= c && c <= '\u{1E959}')
    ||| ('\u{1FBF0}' <= c && c <= '\u{1FBF9}')
}

/// The number of decimal digits in a row from index `i` on.
pub open spec fn digit_run_from(l: Seq<char>, i: int) -> nat
    decreases l.len() - i,
{
    if i < 0 || i >= l.len() || !is_decimal_digit(l[i]) {
        0
    } else {
        1 + digit_run_from(l, i + 1)
    }
}

/// What `line_number_pattern` matches in a line: its leading white space, a
/// run of one or more decimal digits, then one white-space character, or
/// nothing where the digits end the line. There is no match where no digit
/// follows the leading white space, or where the digits are followed by
/// anything else.
pub open spec fn number_prefix(l: Seq<char>) -> Option<Seq<char>> {
    let w = leading_ws(l);
    let e = w + digit_run_from(l, w as int);
    if e == w {
        None
    } else if e >= l.len() {
        Some(l.take(e as int))
    } else if is_ws(l[e as int]) {
        Some(l.take((e + 1) as int))
    } else {
        None
    }
}

/// The digit run from `i` stays inside the line.
pub proof fn lemma_digit_run_bounds(l: Seq<char>, i: int)
    requires
        0 <= i <= l.len(),
    ensures
        i + digit_run_from(l, i) <= l.len(),
    decreases l.len() - i,
{
    if i < l.len() && is_decimal_digit(l[i]) {
        lemma_digit_run_bounds(l, i + 1);
    }
}

/// A match of `line_number_pattern` is a prefix of the line.
pub proof fn lemma_number_prefix_at_start(l: Seq<char>)
    ensures
        number_prefix(l) matches Some(m) ==> m.is_prefix_of(l),
{
    crate::text::lemma_ws_run_bounds(l, 0);
    lemma_digit_run_bounds(l, leading_ws(l) as int);
}

/// The first match of a pattern in a text, as `regex::Regex::find` gives it,
/// taken as the matched text.
pub uninterp spec fn regex_found(pattern: Seq<char>, haystack: Seq<char>) -> Option<Seq<char>>;

/// Whether a pattern matches somewhere in a text, as `regex::Regex::is_match`
/// gives it.
pub uninterp spec fn regex_matched(pattern: Seq<char>, haystack: Seq<char>) -> bool;

/// The characters of an optional string.
pub open spec fn opt_chars(s: Option<String>) -> Option<Seq<char>> {
    match s {
        Some(s) => Some(s@),
        None => None,
    }
}

/// A compiled regular expression, with the pattern it was compiled from.
pub struct CompiledPattern {
    re: regex::Regex,
    pattern: Ghost<Seq<char>>,
}

impl CompiledPattern {
    /// The pattern it was compiled from.
    pub closed spec fn pattern(&self) -> Seq<char> {
        self.pattern@
    }
}

/// `regex::Regex::new`: the pattern compiled, or the error that refuses it.
/// The contract claims that the compiled expression keeps its pattern, and
/// that the two patterns of this library compile: both are in the syntax
/// that the crate documents.
#[verifier::external_body]
pub(crate) fn compile(pattern: &str) -> (r: Result<CompiledPattern, regex::Error>)
    ensures
        r matches Ok(c) ==> c.pattern() == pattern@,
        pattern@ == line_number_pattern() ==> r is Ok,
        pattern@ == prompt_pattern() ==> r is Ok,
{
    match regex::Regex::new(pattern) {
        Ok(re) => Ok(CompiledPattern { re, pattern: Ghost(pattern@) }),
        Err(e) => Err(e),
    }
}

/// `regex::Regex::find` and `regex::Match::as_str`: the text of the first
/// match. The contract names the result, and for `line_number_pattern` states
/// it: the pattern is anchored at the start, `\s` is Unicode White_Space,
/// `\d` is `Nd`, the repetitions are greedy and the alternation prefers
/// `\s` to the end of the text.
#[verifier::external_body]
pub(crate) fn find_text(c: &CompiledPattern, haystack: &str) -> (m: Option<String>)
    ensures
        opt_chars(m) == regex_found(c.pattern(), haystack@),
        c.pattern() == line_number_pattern() ==> opt_chars(m) == number_prefix(haystack@),
{
    match c.re.find(haystack) {
        Some(found) => Some(found.as_str().to_string()),
        None => None,
    }
}

/// `regex::Regex::is_match`. The contract names the result, and for
/// `prompt_pattern` states it: anchored at both ends, white space (`\s`,
/// Unicode White_Space) around exactly one of the five prompts.
#[verifier::external_body]
pub(crate) fn is_match(c: &CompiledPattern, haystack: &str) -> (b: bool)
    ensures
        b == regex_matched(c.pattern(), haystack@),
        c.pattern() == prompt_pattern() ==> b == is_bare_prompt(haystack@),
{
    c.re.is_match(haystack)
}

} // verus!
