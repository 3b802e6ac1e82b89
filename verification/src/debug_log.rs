//! The entries of the debug log, their sequence numbers, and flagging the
//! last one.

use vstd::prelude::*;
use crate::text::str_eq;
use crate::transformer::Warning;

verus! {

/// One line of the debug log.
#[derive(Debug)]
pub struct LogEntry {
    pub id: u32,
    pub timestamp: String,
    pub version: String,
    pub entry_type: String,
    pub width: usize,
    pub width_source: String,
    pub is_ssh: bool,
    pub output_targets: Vec<String>,
    pub input: Option<String>,
    pub trace: Vec<String>,
    pub warnings: Vec<Warning>,
    pub error: Option<String>,
    pub flagged: bool,
    pub flagged_comment: Option<String>,
}

/// The character sequences of an optional string.
pub open spec fn opt_view(s: Option<String>) -> Option<Seq<char>> {
    match s {
        Some(s) => Some(s@),
        None => None,
    }
}

/// The largest of the ids, and 0 where there are none.
pub open spec fn max_id(ids: Seq<u32>) -> nat
    decreases ids.len(),
{
    if ids.len() == 0 {
        0
    } else {
        let m = max_id(ids.drop_last());
        if ids.last() as nat > m { ids.last() as nat } else { m }
    }
}

/// The id after the largest of the ids already in the log (1 for an empty log).
pub fn next_id_after(ids: &Vec<u32>) -> (id: u32)
    requires
        forall|k: int| 0 <= k < ids@.len() ==> #[trigger] ids@[k] < u32::MAX,
    ensures
        id == max_id(ids@) + 1,
{
    let mut last_id: u32 = 0;
    let n = ids.len();
    let mut i: usize = 0;
    while i < n
        invariant
            n == ids@.len(),
            i <= n,
            forall|k: int| 0 <= k < ids@.len() ==> #[trigger] ids@[k] < u32::MAX,
            last_id as nat == max_id(ids@.take(i as int)),
            last_id < u32::MAX,
        decreases n - i,
    {
        proof {
            let t = ids@.take(i + 1);
            assert(t.drop_last() =~= ids@.take(i as int));
        }
        if ids[i] > last_id {
            last_id = ids[i];
        }
        i = i + 1;
    }
    proof {
        assert(ids@.take(n as int) =~= ids@);
    }
    last_id + 1
}

/// The next id is larger than every id already in the log.
pub proof fn lemma_next_id_is_new(ids: Seq<u32>)
    ensures
        forall|k: int| 0 <= k < ids.len() ==> (#[trigger] ids[k]) < max_id(ids) + 1,
    decreases ids.len(),
{
    if ids.len() > 0 {
        lemma_next_id_is_new(ids.drop_last());
        assert forall|k: int| 0 <= k < ids.len() implies (#[trigger] ids[k]) < max_id(ids) + 1 by {
            if k < ids.len() - 1 {
                assert(ids.drop_last()[k] == ids[k]);
            }
        }
    }
}

/// Logging entries one after another numbers them in sequence: once the id
/// after the largest is logged, the next id is one more again.
pub proof fn lemma_ids_sequential(ids: Seq<u32>)
    requires
        max_id(ids) + 1 <= u32::MAX,
    ensures
        max_id(ids.push((max_id(ids) + 1) as u32)) + 1 == max_id(ids) + 2,
{
    assert(ids.push((max_id(ids) + 1) as u32).drop_last() =~= ids);
}

/// Whether the debug log is kept: the override `on` or `off` decides where it
/// is set to one of them; else the flag file does, kept where it exists.
pub open spec fn debug_on(override_value: Option<Seq<char>>, flag_exists: bool) -> bool {
    match override_value {
        Some(v) => if v == "on"@ {
            true
        } else if v == "off"@ {
            false
        } else {
            flag_exists
        },
        None => flag_exists,
    }
}

/// Whether the debug log is kept, given the override's value (if it is set)
/// and whether the flag file exists.
pub fn debug_enabled(override_value: Option<&str>, flag_exists: bool) -> (b: bool)
    ensures
        b == debug_on(
            match override_value {
                Some(v) => Some(v@),
                None => None,
            },
            flag_exists,
        ),
{
    match override_value {
        Some(v) => if str_eq(v, "on") {
            true
        } else if str_eq(v, "off") {
            false
        } else {
            flag_exists
        },
        None => flag_exists,
    }
}

/// An entry with only its id, time and version set: a trace entry with no
/// content, not flagged.
fn base_entry(version: &str, id: u32, timestamp: String) -> (e: LogEntry)
    ensures
        e.id == id,
        e.timestamp@ == timestamp@,
        e.version@ == version@,
        e.entry_type@ == "trace"@,
        e.width == 0,
        e.width_source@ == Seq::<char>::empty(),
        !e.is_ssh,
        e.output_targets@.len() == 0,
        e.input is None,
        e.trace@.len() == 0,
        e.warnings@.len() == 0,
        e.error is None,
        !e.flagged,
        e.flagged_comment is None,
{
    LogEntry {
        id,
        timestamp,
        version: String::from_str(version),
        entry_type: String::from_str("trace"),
        width: 0,
        width_source: String::new(),
        is_ssh: false,
        output_targets: Vec::new(),
        input: None,
        trace: Vec::new(),
        warnings: Vec::new(),
        error: None,
        flagged: false,
        flagged_comment: None,
    }
}

/// The entry of a run that went through: the input, the trace and the warnings.
pub fn build_trace_entry(
    version: &str,
    width: usize,
    width_source: String,
    is_ssh: bool,
    output_targets: Vec<String>,
    input: &str,
    trace: Vec<String>,
    warnings: Vec<Warning>,
    id: u32,
    timestamp: String,
) -> (e: LogEntry)
    ensures
        e.id == id,
        e.timestamp@ == timestamp@,
        e.version@ == version@,
        e.entry_type@ == "trace"@,
        e.width == width,
        e.width_source@ == width_source@,
        e.is_ssh == is_ssh,
        e.output_targets@ == output_targets@,
        opt_view(e.input) == Some(input@),
        e.trace@ == trace@,
        e.warnings@ == warnings@,
        e.error is None,
        !e.flagged,
        e.flagged_comment is None,
{
    let mut entry = base_entry(version, id, timestamp);
    entry.entry_type = String::from_str("trace");
    entry.width = width;
    entry.width_source = width_source;
    entry.is_ssh = is_ssh;
    entry.output_targets = output_targets;
    entry.input = Some(String::from_str(input));
    entry.trace = trace;
    entry.warnings = warnings;
    entry
}

/// The entry of a run that failed, with its message.
pub fn build_error_entry(
    version: &str,
    width: usize,
    width_source: String,
    is_ssh: bool,
    error_msg: &str,
    id: u32,
    timestamp: String,
) -> (e: LogEntry)
    ensures
        e.id == id,
        e.timestamp@ == timestamp@,
        e.version@ == version@,
        e.entry_type@ == "error"@,
        e.width == width,
        e.width_source@ == width_source@,
        e.is_ssh == is_ssh,
        e.output_targets@.len() == 0,
        e.input is None,
        e.trace@.len() == 0,
        e.warnings@.len() == 0,
        opt_view(e.error) == Some(error_msg@),
        !e.flagged,
        e.flagged_comment is None,
{
    let mut entry = base_entry(version, id, timestamp);
    entry.entry_type = String::from_str("error");
    entry.width = width;
    entry.width_source = width_source;
    entry.is_ssh = is_ssh;
    entry.error = Some(String::from_str(error_msg));
    entry
}

/// The comment kept with a flag: none where it is missing or empty.
pub open spec fn kept_comment(comment: Option<Seq<char>>) -> Option<Seq<char>> {
    match comment {
        Some(c) => if c.len() > 0 { Some(c) } else { None },
        None => None,
    }
}

/// Marks the entry as flagged, with the comment where one is given and not empty.
pub fn flag_entry(entry: &mut LogEntry, comment: Option<&str>)
    ensures
        final(entry).flagged,
        opt_view(final(entry).flagged_comment) == kept_comment(
            match comment {
                Some(c) => Some(c@),
                None => None,
            },
        ),
        final(entry).id == old(entry).id,
        final(entry).timestamp == old(entry).timestamp,
        final(entry).version == old(entry).version,
        final(entry).entry_type == old(entry).entry_type,
        final(entry).width == old(entry).width,
        final(entry).width_source == old(entry).width_source,
        final(entry).is_ssh == old(entry).is_ssh,
        final(entry).output_targets == old(entry).output_targets,
        final(entry).input == old(entry).input,
        final(entry).trace == old(entry).trace,
        final(entry).warnings == old(entry).warnings,
        final(entry).error == old(entry).error,
{
    entry.flagged = true;
    entry.flagged_comment = match comment {
        Some(c) => if c.is_empty() {
            None
        } else {
            Some(String::from_str(c))
        },
        None => None,
    };
}

/// The index of the last line that holds a valid entry.
pub open spec fn last_valid(valid: Seq<bool>) -> Option<int>
    decreases valid.len(),
{
    if valid.len() == 0 {
        None
    } else if valid.last() {
        Some(valid.len() - 1)
    } else {
        last_valid(valid.drop_last())
    }
}

/// The last index at which `valid` holds, given which lines hold a valid entry.
pub fn last_valid_index(valid: &Vec<bool>) -> (idx: Option<usize>)
    ensures
        (match idx {
            Some(i) => Some(i as int),
            None => None,
        }) == last_valid(valid@),
{
    let mut i = valid.len();
    proof {
        assert(valid@.take(i as int) =~= valid@);
    }
    while i > 0
        invariant
            i <= valid@.len(),
            last_valid(valid@) == last_valid(valid@.take(i as int)),
        decreases i,
    {
        proof {
            let t = valid@.take(i as int);
            assert(t.drop_last() =~= valid@.take(i - 1));
        }
        if valid[i - 1] {
            return Some(i - 1);
        }
        i = i - 1;
    }
    None
}

/// The last valid entry is valid, and no line after it is.
pub proof fn lemma_last_valid(valid: Seq<bool>)
    ensures
        last_valid(valid) matches Some(i) ==> 0 <= i < valid.len() && valid[i] && forall|j: int|
            i < j < valid.len() ==> !#[trigger] valid[j],
        last_valid(valid) is None ==> forall|j: int| 0 <= j < valid.len() ==> !#[trigger] valid[j],
    decreases valid.len(),
{
    if valid.len() > 0 && !valid.last() {
        let d = valid.drop_last();
        lemma_last_valid(d);
        assert forall|j: int| 0 <= j < valid.len() - 1 implies #[trigger] d[j] == valid[j] by {}
        if let Some(i) = last_valid(valid) {
            assert(d[i] == valid[i]);
            assert forall|j: int| i < j < valid.len() implies !#[trigger] valid[j] by {
                if j < valid.len() - 1 {
                    assert(d[j] == valid[j]);
                }
            }
        } else {
            assert forall|j: int| 0 <= j < valid.len() implies !#[trigger] valid[j] by {
                if j < valid.len() - 1 {
                    assert(d[j] == valid[j]);
                }
            }
        }
    }
}

/// The log's lines with line `idx` replaced, each followed by a line feed.
pub open spec fn rewritten_log(lines: Seq<Seq<char>>, idx: int, updated: Seq<char>) -> Seq<char>
    decreases lines.len(),
{
    if lines.len() == 0 {
        Seq::empty()
    } else {
        let k = lines.len() - 1;
        rewritten_log(lines.drop_last(), idx, updated) + (if k == idx { updated } else { lines.last() })
            + seq!['\n']
    }
}

/// The content of the log with line `idx` replaced by `updated`.
pub fn rewrite_log(lines: &Vec<String>, idx: usize, updated: &str) -> (out: String)
    ensures
        out@ == rewritten_log(lines@.map_values(|s: String| s@), idx as int, updated@),
{
    let ghost ls = lines@.map_values(|s: String| s@);
    let mut output = String::new();
    let n = lines.len();
    let mut i: usize = 0;
    while i < n
        invariant
            n == lines@.len(),
            ls == lines@.map_values(|s: String| s@),
            i <= n,
            output@ == rewritten_log(ls.take(i as int), idx as int, updated@),
        decreases n - i,
    {
        proof {
            let t = ls.take(i + 1);
            assert(t.drop_last() =~= ls.take(i as int));
            assert(t.last() == lines@[i as int]@);
        }
        if i == idx {
            output.append(updated);
        } else {
            output.append(lines[i].as_str());
        }
        output.push('\n');
        i = i + 1;
    }
    proof {
        assert(ls.take(n as int) =~= ls);
    }
    output
}

} // verus!
