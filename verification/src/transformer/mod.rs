//! The transformers: each turns a text into a cleaner one, and some report
//! the decisions that came close to going the other way.

pub mod compress_blank;
pub mod dedent;
pub mod join_wrapped;
pub mod strip_ansi;
pub mod strip_line_numbers;
pub mod strip_prompt;
pub mod strip_trailing;

use vstd::prelude::*;
use crate::error::TransformerError;
use crate::text::{decimal, push_decimal};

verus! {

/// A decision that a transformer made close to its threshold.
#[derive(Debug, Clone, Copy, PartialEq, Eq)]
pub enum Warning {
    LineNumbersBorderline { match_rate_pct: u32 },
    LineNumbersPartialGutter { gutter_width: usize, affected_lines: usize },
    JoinNearMiss { line_index: usize, width: usize, wrap_width: usize },
    JoinRelaxedUsed { line_index: usize, width: usize },
}

impl Warning {
    /// The one-line description of the warning.
    pub open spec fn describe(self) -> Seq<char> {
        match self {
            Warning::LineNumbersBorderline { match_rate_pct } => "line_numbers_borderline: match_rate="@
                + decimal(match_rate_pct as nat) + "%"@,
            Warning::LineNumbersPartialGutter { gutter_width, affected_lines } =>
                "line_numbers_partial_gutter: gutter_width="@ + decimal(gutter_width as nat) + ", "@
                + decimal(affected_lines as nat) + " lines affected"@,
            Warning::JoinNearMiss { line_index, width, wrap_width } => "join_near_miss: line "@
                + decimal(line_index as nat) + " width="@ + decimal(width as nat) + " ("@
                + decimal(((width * 100) / (wrap_width as int)) as nat) + "% of wrap_width="@
                + decimal(wrap_width as nat) + ")"@,
            Warning::JoinRelaxedUsed { line_index, width } => "join_relaxed_used: line "@
                + decimal(line_index as nat) + " width="@ + decimal(width as nat),
        }
    }

    /// The warning as one line of text.
    pub fn to_string(&self) -> (s: String)
        requires
            self matches Warning::JoinNearMiss { width, wrap_width, .. } ==> wrap_width > 0
                && width * 100 <= usize::MAX,
        ensures
            s@ == self.describe(),
    {
        let mut s = String::new();
        match *self {
            Warning::LineNumbersBorderline { match_rate_pct } => {
                s.append("line_numbers_borderline: match_rate=");
                push_decimal(&mut s, match_rate_pct as usize);
                s.append("%");
            },
            Warning::LineNumbersPartialGutter { gutter_width, affected_lines } => {
                s.append("line_numbers_partial_gutter: gutter_width=");
                push_decimal(&mut s, gutter_width);
                s.append(", ");
                push_decimal(&mut s, affected_lines);
                s.append(" lines affected");
            },
            Warning::JoinNearMiss { line_index, width, wrap_width } => {
                s.append("join_near_miss: line ");
                push_decimal(&mut s, line_index);
                s.append(" width=");
                push_decimal(&mut s, width);
                s.append(" (");
                push_decimal(&mut s, width * 100 / wrap_width);
                s.append("% of wrap_width=");
                push_decimal(&mut s, wrap_width);
                s.append(")");
            },
            Warning::JoinRelaxedUsed { line_index, width } => {
                s.append("join_relaxed_used: line ");
                push_decimal(&mut s, line_index);
                s.append(" width=");
                push_decimal(&mut s, width);
            },
        }
        s
    }
}

/// What a transformer reports besides its result.
#[derive(Debug)]
pub struct TransformDiagnostics {
    pub warnings: Vec<Warning>,
}

impl Default for TransformDiagnostics {
    fn default() -> (d: Self)
        ensures
            d.warnings@ == Seq::<Warning>::empty(),
    {
        TransformDiagnostics { warnings: Vec::new() }
    }
}

/// A cleaning step over a whole text.
pub trait Transformer {
    /// The texts on which the step runs (it would overflow on the others).
    spec fn accepts(&self, text: Seq<char>) -> bool;

    /// The text that the step makes of `text`.
    spec fn result_of(&self, text: Seq<char>) -> Seq<char>;

    /// The warnings that the step reports on `text`.
    spec fn warnings_of(&self, text: Seq<char>) -> Seq<Warning>;

    /// The step's name.
    spec fn name_of(&self) -> Seq<char>;

    fn transform(&self, text: &str) -> (res: Result<String, TransformerError>)
        requires
            self.accepts(text@),
        ensures
            res matches Ok(out) && out@ == self.result_of(text@),
    ;

    fn name(&self) -> (n: &'static str)
        ensures
            n@ == self.name_of(),
    ;

    fn transform_with_diagnostics(&self, text: &str) -> (res: Result<
        (String, TransformDiagnostics),
        TransformerError,
    >)
        requires
            self.accepts(text@),
        ensures
            res matches Ok((out, diag)) && out@ == self.result_of(text@) && diag.warnings@
                == self.warnings_of(text@),
    ;
}

} // verus!
