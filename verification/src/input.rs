//! Where the text and the wrap width come from, in order of priority.

use vstd::prelude::*;
use crate::config::Config;
use crate::multiplexer::Multiplexer;
use crate::text::{chars_of, trim, trim_chars};

verus! {

/// Where the wrap width came from.
#[derive(Debug, Clone, Copy, PartialEq, Eq)]
pub enum WidthSource {
    CliFlag,
    Columns,
    TmuxPane,
    Ioctl,
    TputCols,
    ConfigFallback,
}

/// The next thing to do in resolving the width: the width is known, or a
/// source has to be asked.
#[derive(Debug, Clone, Copy, PartialEq, Eq)]
pub enum WidthStep {
    Resolved(usize, WidthSource),
    Ask(WidthSource),
}

/// The sources that are asked, in order, when no width was given on the
/// command line: `$COLUMNS`, the tmux pane, the terminal's ioctl, `tput cols`.
pub open spec fn probe_order(k: int) -> WidthSource {
    if k == 0 {
        WidthSource::Columns
    } else if k == 1 {
        WidthSource::TmuxPane
    } else if k == 2 {
        WidthSource::Ioctl
    } else {
        WidthSource::TputCols
    }
}

/// The index of the first source that gave a width, among those asked.
pub open spec fn first_answer(answers: Seq<Option<usize>>) -> Option<int>
    decreases answers.len(),
{
    if answers.len() == 0 {
        None
    } else {
        match first_answer(answers.drop_last()) {
            Some(k) => Some(k),
            None => if answers.last() is Some {
                Some(answers.len() - 1)
            } else {
                None
            },
        }
    }
}

/// What to do next: the width from the command line; else the first answer
/// among the sources asked so far; else ask the next source; else, all four
/// asked in vain, the configured fallback width.
pub open spec fn next_width_step(
    cli_width: Option<usize>,
    answers: Seq<Option<usize>>,
    fallback: usize,
) -> WidthStep {
    match cli_width {
        Some(w) => WidthStep::Resolved(w, WidthSource::CliFlag),
        None => match first_answer(answers) {
            Some(k) => WidthStep::Resolved(answers[k]->0, probe_order(k)),
            None => if answers.len() < 4 {
                WidthStep::Ask(probe_order(answers.len() as int))
            } else {
                WidthStep::Resolved(fallback, WidthSource::ConfigFallback)
            },
        },
    }
}

fn probe_at(k: usize) -> (s: WidthSource)
    ensures
        s == probe_order(k as int),
{
    if k == 0 {
        WidthSource::Columns
    } else if k == 1 {
        WidthSource::TmuxPane
    } else if k == 2 {
        WidthSource::Ioctl
    } else {
        WidthSource::TputCols
    }
}

impl WidthSource {
    /// How the source is described to the user.
    pub open spec fn label_of(self) -> Seq<char> {
        match self {
            WidthSource::CliFlag => "from --width"@,
            WidthSource::Columns => "from $COLUMNS"@,
            WidthSource::TmuxPane => "from tmux pane"@,
            WidthSource::Ioctl => "from terminal ioctl"@,
            WidthSource::TputCols => "from tput cols"@,
            WidthSource::ConfigFallback => "from config fallback_width"@,
        }
    }

    /// The description of the source.
    pub fn label(&self) -> (s: &'static str)
        ensures
            s@ == self.label_of(),
    {
        match self {
            WidthSource::CliFlag => "from --width",
            WidthSource::Columns => "from $COLUMNS",
            WidthSource::TmuxPane => "from tmux pane",
            WidthSource::Ioctl => "from terminal ioctl",
            WidthSource::TputCols => "from tput cols",
            WidthSource::ConfigFallback => "from config fallback_width",
        }
    }
}

/// The next step in resolving the width, given the width from the command
/// line and the answers of the sources asked so far, in `probe_order`.
pub fn width_step(cli_width: Option<usize>, answers: &Vec<Option<usize>>, config: &Config) -> (step:
    WidthStep)
    ensures
        step == next_width_step(cli_width, answers@, config.fallback_width),
{
    if let Some(w) = cli_width {
        return WidthStep::Resolved(w, WidthSource::CliFlag);
    }
    let n = answers.len();
    let mut k: usize = 0;
    while k < n
        invariant
            n == answers@.len(),
            cli_width is None,
            k <= n,
            first_answer(answers@.take(k as int)) is None,
        decreases n - k,
    {
        proof {
            let t = answers@.take(k + 1);
            assert(t.drop_last() =~= answers@.take(k as int));
        }
        if let Some(w) = answers[k] {
            proof {
                assert(answers@[k as int] == Some(w));
                lemma_first_answer_extends(answers@, k as int);
            }
            return WidthStep::Resolved(w, probe_at(k));
        }
        k = k + 1;
    }
    proof {
        assert(answers@.take(n as int) =~= answers@);
    }
    if n < 4 {
        WidthStep::Ask(probe_at(n))
    } else {
        WidthStep::Resolved(config.fallback_width, WidthSource::ConfigFallback)
    }
}

/// Where no answer comes before `k` and `k` has one, `k` is the first.
proof fn lemma_first_answer_extends(answers: Seq<Option<usize>>, k: int)
    requires
        0 <= k < answers.len(),
        first_answer(answers.take(k)) is None,
        answers[k] is Some,
    ensures
        first_answer(answers) == Some(k),
    decreases answers.len(),
{
    if answers.len() == k + 1 {
        assert(answers.drop_last() =~= answers.take(k));
    } else {
        assert(answers.drop_last().take(k) =~= answers.take(k));
        lemma_first_answer_extends(answers.drop_last(), k);
    }
}

/// Where the text to clean is read from.
#[derive(Debug, Clone, Copy, PartialEq, Eq)]
pub enum InputSource {
    /// The text given on the command line.
    Argument,
    /// Standard input.
    Stdin,
    /// The paste buffer of the multiplexer.
    Buffer(Multiplexer),
}

/// The source of the text, in order of priority: the command-line argument
/// where one was given; else standard input where it is not a terminal; else
/// the paste buffer of the multiplexer that the program runs inside; else
/// none, and there is no input.
pub fn input_source(has_argument: bool, stdin_is_terminal: bool, mux: Option<Multiplexer>) -> (src:
    Option<InputSource>)
    ensures
        src == (if has_argument {
            Some(InputSource::Argument)
        } else if !stdin_is_terminal {
            Some(InputSource::Stdin)
        } else {
            match mux {
                Some(m) => Some(InputSource::Buffer(m)),
                None => None,
            }
        }),
{
    if has_argument {
        return Some(InputSource::Argument);
    }
    if !stdin_is_terminal {
        return Some(InputSource::Stdin);
    }
    match mux {
        Some(m) => Some(InputSource::Buffer(m)),
        None => None,
    }
}

/// The value of a run of decimal digits.
pub open spec fn digits_value(d: Seq<char>) -> nat
    decreases d.len(),
{
    if d.len() == 0 {
        0
    } else {
        digits_value(d.drop_last()) * 10 + ((d.last() as int - '0' as int) as nat)
    }
}

/// Every character is an ASCII digit.
pub open spec fn all_digits(d: Seq<char>) -> bool {
    forall|i: int| 0 <= i < d.len() ==> '0' <= #[trigger] d[i] && d[i] <= '9'
}

/// `str::parse::<usize>`: an optional `+`, then one or more ASCII digits whose
/// value fits.
pub open spec fn parse_usize(s: Seq<char>) -> Option<usize> {
    let d = if s.len() > 0 && s[0] == '+' { s.skip(1) } else { s };
    if d.len() > 0 && all_digits(d) && digits_value(d) <= usize::MAX {
        Some(digits_value(d) as usize)
    } else {
        None
    }
}

/// A width written as text: trimmed, then parsed as a `usize`.
pub fn parse_width(s: &str) -> (w: Option<usize>)
    ensures
        w == parse_usize(trim(s@)),
{
    let chars = chars_of(s);
    let t = trim_chars(&chars);
    parse_usize_chars(&t)
}

/// The characters `t` parsed as a `usize`.
pub fn parse_usize_chars(t: &Vec<char>) -> (w: Option<usize>)
    ensures
        w == parse_usize(t@),
{
    let start: usize = if t.len() > 0 && t[0] == '+' { 1 } else { 0 };
    let ghost d = if t@.len() > 0 && t@[0] == '+' { t@.skip(1) } else { t@ };
    let n = t.len();
    proof {
        assert(t@.skip(0) =~= t@);
    }
    if start >= n {
        proof {
            assert(d.len() == 0);
        }
        return None;
    }
    let mut value: usize = 0;
    let mut i: usize = start;
    while i < n
        invariant
            n == t@.len(),
            d == (if t@.len() > 0 && t@[0] == '+' { t@.skip(1) } else { t@ }),
            start <= i <= n,
            start <= 1,
            d == t@.skip(start as int),
            all_digits(d.take(i - start)),
            value as nat == digits_value(d.take(i - start)),
        decreases n - i,
    {
        let c = t[i];
        proof {
            let p = d.take(i - start + 1);
            assert(p.drop_last() =~= d.take(i - start));
            assert(p.last() == c);
        }
        if !('0' <= c && c <= '9') {
            proof {
                assert(d[i - start] == c);
                assert(!all_digits(d));
            }
            return None;
        }
        let digit = (c as u32 - '0' as u32) as usize;
        if value > (usize::MAX - digit) / 10 {
            proof {
                assert(digits_value(d.take(i - start + 1)) == value * 10 + digit);
                assert(digits_value(d.take(i - start + 1)) > usize::MAX) by (nonlinear_arith)
                    requires
                        digits_value(d.take(i - start + 1)) == value * 10 + digit,
                        value > (usize::MAX - digit) / 10,
                        digit < 10,
                ;
                if all_digits(d) {
                    lemma_digits_value_prefix(d, i - start + 1);
                }
            }
            return None;
        }
        value = value * 10 + digit;
        proof {
            assert(all_digits(d.take(i - start + 1)));
        }
        i = i + 1;
    }
    proof {
        assert(d.take(n - start) =~= d);
    }
    Some(value)
}

/// The value of digits grows with each digit added: a prefix's value is at
/// most the whole run's.
proof fn lemma_digits_value_prefix(d: Seq<char>, k: int)
    requires
        0 <= k <= d.len(),
        all_digits(d),
    ensures
        digits_value(d.take(k)) <= digits_value(d),
    decreases d.len(),
{
    if k < d.len() {
        assert(d.drop_last().take(k) =~= d.take(k));
        lemma_digits_value_prefix(d.drop_last(), k);
        assert(all_digits(d.drop_last()));
    } else {
        assert(d.take(k) =~= d);
    }
}

} // verus!
