//! The enabled transformers, run one after the other.

use vstd::prelude::*;
use crate::config::Config;
use crate::error::TransformerError;
use crate::text::{decimal, lines_of, push_decimal, split_lines, string_from, views};
use crate::transformer::compress_blank::CompressBlank;
use crate::transformer::dedent::Dedent;
use crate::transformer::join_wrapped::{display_width, str_width, JoinWrapped};
use crate::transformer::strip_ansi::StripAnsi;
use crate::transformer::strip_line_numbers::StripLineNumbers;
use crate::transformer::strip_prompt::StripPrompt;
use crate::transformer::strip_trailing::StripTrailing;
use crate::transformer::{TransformDiagnostics, Transformer, Warning};

verus! {

/// One transformer of the pipeline.
pub enum Stage {
    StripAnsi(StripAnsi),
    StripLineNumbers(StripLineNumbers),
    JoinWrapped(JoinWrapped),
    Dedent(Dedent),
    StripTrailing(StripTrailing),
    CompressBlank(CompressBlank),
    StripPrompt(StripPrompt),
}

impl Transformer for Stage {
    open spec fn accepts(&self, text: Seq<char>) -> bool {
        match self {
            Stage::StripAnsi(t) => t.accepts(text),
            Stage::StripLineNumbers(t) => t.accepts(text),
            Stage::JoinWrapped(t) => t.accepts(text),
            Stage::Dedent(t) => t.accepts(text),
            Stage::StripTrailing(t) => t.accepts(text),
            Stage::CompressBlank(t) => t.accepts(text),
            Stage::StripPrompt(t) => t.accepts(text),
        }
    }

    open spec fn result_of(&self, text: Seq<char>) -> Seq<char> {
        match self {
            Stage::StripAnsi(t) => t.result_of(text),
            Stage::StripLineNumbers(t) => t.result_of(text),
            Stage::JoinWrapped(t) => t.result_of(text),
            Stage::Dedent(t) => t.result_of(text),
            Stage::StripTrailing(t) => t.result_of(text),
            Stage::CompressBlank(t) => t.result_of(text),
            Stage::StripPrompt(t) => t.result_of(text),
        }
    }

    open spec fn warnings_of(&self, text: Seq<char>) -> Seq<Warning> {
        match self {
            Stage::StripAnsi(t) => t.warnings_of(text),
            Stage::StripLineNumbers(t) => t.warnings_of(text),
            Stage::JoinWrapped(t) => t.warnings_of(text),
            Stage::Dedent(t) => t.warnings_of(text),
            Stage::StripTrailing(t) => t.warnings_of(text),
            Stage::CompressBlank(t) => t.warnings_of(text),
            Stage::StripPrompt(t) => t.warnings_of(text),
        }
    }

    open spec fn name_of(&self) -> Seq<char> {
        match self {
            Stage::StripAnsi(t) => t.name_of(),
            Stage::StripLineNumbers(t) => t.name_of(),
            Stage::JoinWrapped(t) => t.name_of(),
            Stage::Dedent(t) => t.name_of(),
            Stage::StripTrailing(t) => t.name_of(),
            Stage::CompressBlank(t) => t.name_of(),
            Stage::StripPrompt(t) => t.name_of(),
        }
    }

    fn name(&self) -> (n: &'static str) {
        match self {
            Stage::StripAnsi(t) => t.name(),
            Stage::StripLineNumbers(t) => t.name(),
            Stage::JoinWrapped(t) => t.name(),
            Stage::Dedent(t) => t.name(),
            Stage::StripTrailing(t) => t.name(),
            Stage::CompressBlank(t) => t.name(),
            Stage::StripPrompt(t) => t.name(),
        }
    }

    fn transform(&self, text: &str) -> (res: Result<String, TransformerError>) {
        match self {
            Stage::StripAnsi(t) => t.transform(text),
            Stage::StripLineNumbers(t) => t.transform(text),
            Stage::JoinWrapped(t) => t.transform(text),
            Stage::Dedent(t) => t.transform(text),
            Stage::StripTrailing(t) => t.transform(text),
            Stage::CompressBlank(t) => t.transform(text),
            Stage::StripPrompt(t) => t.transform(text),
        }
    }

    fn transform_with_diagnostics(&self, text: &str) -> (res: Result<
        (String, TransformDiagnostics),
        TransformerError,
    >) {
        match self {
            Stage::StripAnsi(t) => t.transform_with_diagnostics(text),
            Stage::StripLineNumbers(t) => t.transform_with_diagnostics(text),
            Stage::JoinWrapped(t) => t.transform_with_diagnostics(text),
            Stage::Dedent(t) => t.transform_with_diagnostics(text),
            Stage::StripTrailing(t) => t.transform_with_diagnostics(text),
            Stage::CompressBlank(t) => t.transform_with_diagnostics(text),
            Stage::StripPrompt(t) => t.transform_with_diagnostics(text),
        }
    }
}

/// The text after the stages, applied in order.
pub open spec fn run_stages(stages: Seq<Stage>, text: Seq<char>) -> Seq<char>
    decreases stages.len(),
{
    if stages.len() == 0 {
        text
    } else {
        stages.last().result_of(run_stages(stages.drop_last(), text))
    }
}

/// Each stage accepts the text that reaches it.
pub open spec fn stages_accept(stages: Seq<Stage>, text: Seq<char>) -> bool
    decreases stages.len(),
{
    stages.len() == 0 || (stages_accept(stages.drop_last(), text) && stages.last().accepts(
        run_stages(stages.drop_last(), text),
    ))
}

/// The stage runs on every text: only joining has a limit, on its wrap width.
pub open spec fn stage_fits(stage: Stage) -> bool {
    match stage {
        Stage::JoinWrapped(t) => t.wrap_width * 70 <= usize::MAX,
        _ => true,
    }
}

/// Every stage runs on every text.
pub open spec fn all_fit(stages: Seq<Stage>) -> bool {
    forall|k: int| 0 <= k < stages.len() ==> stage_fits(#[trigger] stages[k])
}

/// Where every stage fits, every text is accepted all the way through.
pub proof fn lemma_fit_accepts(stages: Seq<Stage>, text: Seq<char>)
    requires
        all_fit(stages),
    ensures
        stages_accept(stages, text),
    decreases stages.len(),
{
    if stages.len() > 0 {
        let d = stages.drop_last();
        assert forall|k: int| 0 <= k < d.len() implies stage_fits(#[trigger] d[k]) by {
            assert(d[k] == stages[k]);
        }
        lemma_fit_accepts(d, text);
        assert(stage_fits(stages[stages.len() - 1]));
    }
}

/// The warnings of the stages, in order.
pub open spec fn stage_warnings(stages: Seq<Stage>, text: Seq<char>) -> Seq<Warning>
    decreases stages.len(),
{
    if stages.len() == 0 {
        Seq::empty()
    } else {
        stage_warnings(stages.drop_last(), text) + stages.last().warnings_of(
            run_stages(stages.drop_last(), text),
        )
    }
}

/// `s` right-aligned in a field of three characters, as `{:3}` writes it.
pub open spec fn pad3(s: Seq<char>) -> Seq<char> {
    if s.len() >= 3 {
        s
    } else {
        Seq::new((3 - s.len()) as nat, |k: int| ' ') + s
    }
}

/// The trace line of a line `w` columns wide.
pub open spec fn trace_line(w: nat, l: Seq<char>) -> Seq<char> {
    "  w="@ + pad3(decimal(w)) + " | "@ + l
}

/// The trace line of one line of text: its display width and the line.
pub open spec fn width_line(l: Seq<char>) -> Seq<char> {
    trace_line(display_width(l), l)
}

/// The trace lines of every line of the text.
pub open spec fn width_lines(text: Seq<char>) -> Seq<Seq<char>> {
    lines_of(text).map_values(|l: Seq<char>| width_line(l))
}

/// The trace of the stages: the input with its line count and lines, then
/// per stage its name and whether it changed the text, with the changed
/// text's lines.
pub open spec fn stage_trace(stages: Seq<Stage>, text: Seq<char>) -> Seq<Seq<char>>
    decreases stages.len(),
{
    if stages.len() == 0 {
        seq!["[input] "@ + decimal(lines_of(text).len()) + " lines"@] + width_lines(text)
    } else {
        let prev = run_stages(stages.drop_last(), text);
        let cur = stages.last().result_of(prev);
        let name = stages.last().name_of();
        stage_trace(stages.drop_last(), text) + if cur != prev {
            seq!["["@ + name + "] changed"@] + width_lines(cur)
        } else {
            seq!["["@ + name + "] no change"@]
        }
    }
}

/// The trace opens with the input's line count, whatever the stages, and
/// holds at least one line per stage after it.
pub proof fn lemma_trace_opens_with_input(stages: Seq<Stage>, text: Seq<char>)
    ensures
        stage_trace(stages, text).len() >= 1 + stages.len(),
        stage_trace(stages, text)[0] == "[input] "@ + decimal(lines_of(text).len()) + " lines"@,
    decreases stages.len(),
{
    if stages.len() > 0 {
        lemma_trace_opens_with_input(stages.drop_last(), text);
    }
}

/// The stage where it is enabled, and nothing where it is not.
pub open spec fn enabled(on: bool, stage: Stage) -> Seq<Stage> {
    if on {
        seq![stage]
    } else {
        Seq::empty()
    }
}

/// The stages that a configuration enables, in their fixed order.
pub open spec fn configured_stages(config: Config, wrap_width: usize) -> Seq<Stage> {
    let tc = config.transformers;
    enabled(tc.strip_ansi, Stage::StripAnsi(StripAnsi))
        + enabled(tc.strip_line_numbers, Stage::StripLineNumbers(StripLineNumbers))
        + enabled(tc.join_wrapped, Stage::JoinWrapped(JoinWrapped { wrap_width }))
        + enabled(tc.dedent, Stage::Dedent(Dedent))
        + enabled(tc.strip_trailing, Stage::StripTrailing(StripTrailing))
        + enabled(tc.compress_blank, Stage::CompressBlank(CompressBlank))
        + enabled(tc.strip_prompt, Stage::StripPrompt(StripPrompt))
}

/// With every transformer disabled, processing gives back the input.
pub proof fn lemma_all_disabled_is_identity(config: Config, wrap_width: usize, text: Seq<char>)
    requires
        !config.transformers.strip_ansi,
        !config.transformers.strip_line_numbers,
        !config.transformers.join_wrapped,
        !config.transformers.dedent,
        !config.transformers.strip_trailing,
        !config.transformers.compress_blank,
        !config.transformers.strip_prompt,
    ensures
        configured_stages(config, wrap_width).len() == 0,
        run_stages(configured_stages(config, wrap_width), text) == text,
        stage_warnings(configured_stages(config, wrap_width), text).len() == 0,
{
    assert(configured_stages(config, wrap_width) =~= Seq::<Stage>::empty());
}

/// Running stages one after the other is running them all: the pipeline
/// over `a + b` is `b` over what `a` gives.
pub proof fn lemma_run_stages_concat(a: Seq<Stage>, b: Seq<Stage>, text: Seq<char>)
    ensures
        run_stages(a + b, text) == run_stages(b, run_stages(a, text)),
    decreases b.len(),
{
    if b.len() == 0 {
        assert(a + b =~= a);
    } else {
        assert((a + b).drop_last() =~= a + b.drop_last());
        lemma_run_stages_concat(a, b.drop_last(), text);
    }
}

/// The cleaned text, the trace of what each stage did, and their warnings.
pub struct ProcessResult {
    pub text: String,
    pub trace: Vec<String>,
    pub warnings: Vec<Warning>,
}

/// The enabled transformers in order.
pub struct Processor {
    transformers: Vec<Stage>,
}

impl Processor {
    /// The stages, in the order they run.
    pub closed spec fn stages(&self) -> Seq<Stage> {
        self.transformers@
    }

    /// The processor of the transformers that the configuration enables.
    pub fn from_config(config: &Config, wrap_width: usize) -> (p: Self)
        ensures
            p.stages() == configured_stages(*config, wrap_width),
    {
        let tc = &config.transformers;
        let ghost c = *config;
        let mut transformers: Vec<Stage> = Vec::new();
        if tc.strip_ansi {
            transformers.push(Stage::StripAnsi(StripAnsi));
        }
        let ghost s1 = enabled(c.transformers.strip_ansi, Stage::StripAnsi(StripAnsi));
        assert(transformers@ =~= s1);
        if tc.strip_line_numbers {
            transformers.push(Stage::StripLineNumbers(StripLineNumbers));
        }
        let ghost s2 = s1 + enabled(c.transformers.strip_line_numbers, Stage::StripLineNumbers(StripLineNumbers));
        assert(transformers@ =~= s2);
        if tc.join_wrapped {
            transformers.push(Stage::JoinWrapped(JoinWrapped { wrap_width }));
        }
        let ghost s3 = s2 + enabled(c.transformers.join_wrapped, Stage::JoinWrapped(JoinWrapped { wrap_width }));
        assert(transformers@ =~= s3);
        if tc.dedent {
            transformers.push(Stage::Dedent(Dedent));
        }
        let ghost s4 = s3 + enabled(c.transformers.dedent, Stage::Dedent(Dedent));
        assert(transformers@ =~= s4);
        if tc.strip_trailing {
            transformers.push(Stage::StripTrailing(StripTrailing));
        }
        let ghost s5 = s4 + enabled(c.transformers.strip_trailing, Stage::StripTrailing(StripTrailing));
        assert(transformers@ =~= s5);
        if tc.compress_blank {
            transformers.push(Stage::CompressBlank(CompressBlank));
        }
        let ghost s6 = s5 + enabled(c.transformers.compress_blank, Stage::CompressBlank(CompressBlank));
        assert(transformers@ =~= s6);
        if tc.strip_prompt {
            transformers.push(Stage::StripPrompt(StripPrompt));
        }
        let ghost s7 = s6 + enabled(c.transformers.strip_prompt, Stage::StripPrompt(StripPrompt));
        assert(transformers@ =~= s7);
        Self { transformers }
    }

    /// Whether every stage runs on every text: false only where joining is
    /// enabled with a wrap width whose 70-fold does not fit in a `usize`.
    pub fn fits(&self) -> (b: bool)
        ensures
            b == all_fit(self.stages()),
    {
        let n = self.transformers.len();
        let mut i: usize = 0;
        while i < n
            invariant
                n == self.stages().len(),
                i <= n,
                forall|k: int| 0 <= k < i ==> stage_fits(#[trigger] self.stages()[k]),
            decreases n - i,
        {
            if let Stage::JoinWrapped(t) = &self.transformers[i] {
                if t.wrap_width > usize::MAX / 70 {
                    return false;
                }
            }
            i = i + 1;
        }
        true
    }

    /// The text after every stage, where every stage runs on every text;
    /// `None` where one does not.
    pub fn try_process(&self, text: &str) -> (res: Option<Result<String, TransformerError>>)
        ensures
            res is None <==> !all_fit(self.stages()),
            res matches Some(r) ==> (r matches Ok(out) && out@ == run_stages(self.stages(), text@)),
    {
        if !self.fits() {
            return None;
        }
        proof {
            lemma_fit_accepts(self.stages(), text@);
        }
        Some(self.process(text))
    }

    /// The text after every stage with the trace and the warnings, where
    /// every stage runs on every text; `None` where one does not.
    pub fn try_process_with_trace(&self, text: &str) -> (res: Option<Result<ProcessResult, TransformerError>>)
        ensures
            res is None <==> !all_fit(self.stages()),
            res matches Some(r) ==> (r matches Ok(p) && p.text@ == run_stages(self.stages(), text@)
                && p.warnings@ == stage_warnings(self.stages(), text@) && p.trace@.map_values(
                |s: String| s@,
            ) == stage_trace(self.stages(), text@)),
    {
        if !self.fits() {
            return None;
        }
        proof {
            lemma_fit_accepts(self.stages(), text@);
        }
        Some(self.process_with_trace(text))
    }

    /// The text after every stage, in order.
    pub fn process(&self, text: &str) -> (res: Result<String, TransformerError>)
        requires
            stages_accept(self.stages(), text@),
        ensures
            res matches Ok(out) && out@ == run_stages(self.stages(), text@),
    {
        let mut current = String::from_str(text);
        let n = self.transformers.len();
        let mut i: usize = 0;
        while i < n
            invariant
                n == self.stages().len(),
                i <= n,
                stages_accept(self.stages(), text@),
                current@ == run_stages(self.stages().take(i as int), text@),
            decreases n - i,
        {
            proof {
                let t = self.stages().take(i + 1);
                assert(t.drop_last() =~= self.stages().take(i as int));
                lemma_accept_prefix(self.stages(), text@, i + 1);
            }
            match self.transformers[i].transform(current.as_str()) {
                Ok(next) => {
                    current = next;
                },
                Err(e) => {
                    return Err(e);
                },
            }
            i = i + 1;
        }
        proof {
            assert(self.stages().take(n as int) =~= self.stages());
        }
        Ok(current)
    }

    /// The text after every stage, with the trace of what each did and their
    /// warnings.
    pub fn process_with_trace(&self, text: &str) -> (res: Result<ProcessResult, TransformerError>)
        requires
            stages_accept(self.stages(), text@),
        ensures
            res matches Ok(r) && r.text@ == run_stages(self.stages(), text@) && r.warnings@
                == stage_warnings(self.stages(), text@) && r.trace@.map_values(|s: String| s@)
                == stage_trace(self.stages(), text@),
    {
        let mut trace: Vec<String> = Vec::new();
        let mut all_warnings: Vec<Warning> = Vec::new();
        let mut current = String::from_str(text);
        let lines = split_lines(text);
        let mut head = String::new();
        head.append("[input] ");
        push_decimal(&mut head, lines.len());
        head.append(" lines");
        trace.push(head);
        push_width_lines(&mut trace, current.as_str());
        proof {
            assert(trace@.map_values(|s: String| s@) =~= stage_trace(self.stages().take(0), text@));
        }
        let n = self.transformers.len();
        let mut i: usize = 0;
        while i < n
            invariant
                n == self.stages().len(),
                i <= n,
                stages_accept(self.stages(), text@),
                current@ == run_stages(self.stages().take(i as int), text@),
                all_warnings@ == stage_warnings(self.stages().take(i as int), text@),
                trace@.map_values(|s: String| s@) == stage_trace(self.stages().take(i as int), text@),
            decreases n - i,
        {
            let ghost upto = self.stages().take(i + 1);
            proof {
                assert(upto.drop_last() =~= self.stages().take(i as int));
                assert(upto.last() == self.stages()[i as int]);
                lemma_accept_prefix(self.stages(), text@, i + 1);
            }
            let prev = current.clone();
            let t = &self.transformers[i];
            match t.transform_with_diagnostics(current.as_str()) {
                Ok((result, diag)) => {
                    current = result;
                    extend_warnings(&mut all_warnings, &diag.warnings);
                },
                Err(e) => {
                    return Err(e);
                },
            }
            let ghost before = trace@.map_values(|s: String| s@);
            let mut label = String::new();
            label.append("[");
            label.append(t.name());
            if !(current == prev) {
                label.append("] changed");
                trace.push(label);
                push_width_lines(&mut trace, current.as_str());
            } else {
                label.append("] no change");
                trace.push(label);
            }
            proof {
                assert(trace@.map_values(|s: String| s@) =~= stage_trace(upto, text@));
            }
            i = i + 1;
        }
        proof {
            assert(self.stages().take(n as int) =~= self.stages());
        }
        Ok(ProcessResult { text: current, trace, warnings: all_warnings })
    }
}

/// The stages up to `k` accept what reaches them where all of them do.
proof fn lemma_accept_prefix(stages: Seq<Stage>, text: Seq<char>, k: int)
    requires
        stages_accept(stages, text),
        0 <= k <= stages.len(),
    ensures
        stages_accept(stages.take(k), text),
    decreases stages.len() - k,
{
    if k < stages.len() {
        lemma_accept_prefix(stages, text, k + 1);
        let t = stages.take(k + 1);
        assert(t.drop_last() =~= stages.take(k));
    } else {
        assert(stages.take(k) =~= stages);
    }
}

/// Appends `n` right-aligned in three characters.
fn push_padded(s: &mut String, n: usize)
    ensures
        final(s)@ == old(s)@ + pad3(decimal(n as nat)),
{
    let mut digits = String::new();
    push_decimal(&mut digits, n);
    let len = digits.as_str().unicode_len();
    let mut k: usize = len;
    while k < 3
        invariant
            len == digits@.len(),
            len <= k,
            len < 3 ==> k <= 3,
            len >= 3 ==> k == len,
            s@ == old(s)@ + Seq::new((k - len) as nat, |j: int| ' '),
        decreases 3 - k,
    {
        let ghost before = s@;
        s.push(' ');
        proof {
            assert(s@ =~= old(s)@ + Seq::new((k + 1 - len) as nat, |j: int| ' '));
        }
        k = k + 1;
    }
    let ghost spaces = s@;
    s.append(digits.as_str());
    proof {
        if len >= 3 {
            assert(k == len);
            assert(spaces =~= old(s)@);
            assert(s@ =~= old(s)@ + pad3(decimal(n as nat)));
        } else {
            assert(s@ =~= old(s)@ + pad3(decimal(n as nat)));
        }
    }
}

/// The trace line of `line`, given that it is `width` columns wide: the
/// width right-aligned in three columns, a bar, and the line.
pub fn format_trace_line(width: usize, line: &str) -> (s: String)
    ensures
        s@ == trace_line(width as nat, line@),
{
    let mut entry = String::new();
    entry.append("  w=");
    push_padded(&mut entry, width);
    entry.append(" | ");
    entry.append(line);
    entry
}

/// Appends the trace line of every line of `text`.
fn push_width_lines(trace: &mut Vec<String>, text: &str)
    ensures
        final(trace)@.map_values(|s: String| s@) == old(trace)@.map_values(|s: String| s@) + width_lines(
            text@,
        ),
{
    let lines = split_lines(text);
    let ghost ls = lines_of(text@);
    let n = lines.len();
    let mut i: usize = 0;
    while i < n
        invariant
            n == lines@.len(),
            views(lines@) == ls,
            i <= n,
            trace@.map_values(|s: String| s@) == old(trace)@.map_values(|s: String| s@)
                + ls.take(i as int).map_values(|l: Seq<char>| width_line(l)),
        decreases n - i,
    {
        proof {
            assert(views(lines@)[i as int] == lines@[i as int]@);
        }
        let line = string_from(&lines[i]);
        let w = str_width(line.as_str());
        let entry = format_trace_line(w, line.as_str());
        let ghost before = trace@.map_values(|s: String| s@);
        trace.push(entry);
        proof {
            assert(entry@ == width_line(ls[i as int]));
            assert(trace@.map_values(|s: String| s@) =~= before.push(entry@));
            assert(ls.take(i + 1).map_values(|l: Seq<char>| width_line(l)) =~= ls.take(i as int).map_values(
                |l: Seq<char>| width_line(l),
            ).push(width_line(ls[i as int])));
        }
        i = i + 1;
    }
    proof {
        assert(ls.take(n as int) =~= ls);
    }
}

/// Appends the warnings `w` to `v`.
fn extend_warnings(v: &mut Vec<Warning>, w: &Vec<Warning>)
    ensures
        final(v)@ == old(v)@ + w@,
{
    let n = w.len();
    let mut i: usize = 0;
    while i < n
        invariant
            n == w@.len(),
            i <= n,
            v@ == old(v)@ + w@.take(i as int),
        decreases n - i,
    {
        v.push(w[i]);
        proof {
            assert(w@.take(i + 1) =~= w@.take(i as int).push(w@[i as int]));
        }
        i = i + 1;
    }
    proof {
        assert(w@.take(n as int) =~= w@);
    }
}

} // verus!
