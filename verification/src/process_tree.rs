//! Whether an ancestor of a process is a remote-access daemon (sshd,
//! mosh-server): the walk up the process tree, one parent at a time, and the
//! reading of what the system reports of a process.

use vstd::prelude::*;
use crate::input::{parse_usize, parse_usize_chars, parse_width};
use crate::text::{
    chars_eq, chars_of, is_whitespace, is_ws, lines_of, skip_chars, split_lines, string_from, trim,
    trim_chars, views,
};

verus! {

/// `needle` occurs in `s` at index `i`.
pub open spec fn occurs_at(s: Seq<char>, needle: Seq<char>, i: int) -> bool {
    0 <= i && i + needle.len() <= s.len() && s.subrange(i, i + needle.len()) == needle
}

/// `needle` occurs somewhere in `s`.
pub open spec fn contains_seq(s: Seq<char>, needle: Seq<char>) -> bool {
    exists|i: int| occurs_at(s, needle, i)
}

/// The name of a remote-access daemon: `sshd`, `sshd-…`, or a name holding
/// `mosh-server`.
pub open spec fn remote_name(name: Seq<char>) -> bool {
    ||| name == "sshd"@
    ||| "sshd-"@.is_prefix_of(name)
    ||| contains_seq(name, "mosh-server"@)
}

/// Whether `v` holds `needle` starting at index `i`.
fn occurs_at_exec(v: &Vec<char>, needle: &Vec<char>, i: usize) -> (b: bool)
    requires
        i <= v@.len(),
    ensures
        b == occurs_at(v@, needle@, i as int),
{
    let m = needle.len();
    let vl = v.len();
    if vl - i < m {
        return false;
    }
    let mut k: usize = 0;
    while k < m
        invariant
            m == needle@.len(),
            vl == v@.len(),
            i + m <= vl,
            k <= m,
            forall|j: int| 0 <= j < k ==> v@[i + j] == needle@[j],
        decreases m - k,
    {
        if v[i + k] != needle[k] {
            proof {
                assert(v@.subrange(i as int, i + m)[k as int] != needle@[k as int]);
            }
            return false;
        }
        k = k + 1;
    }
    proof {
        assert(v@.subrange(i as int, i + m) =~= needle@);
    }
    true
}

/// Whether `needle` occurs in `v`.
pub(crate) fn contains_exec(v: &Vec<char>, needle: &Vec<char>) -> (b: bool)
    ensures
        b == contains_seq(v@, needle@),
{
    let n = v.len();
    let mut i: usize = 0;
    while i < n
        invariant
            n == v@.len(),
            i <= n,
            forall|j: int| 0 <= j < i ==> !occurs_at(v@, needle@, j),
        decreases n - i,
    {
        if occurs_at_exec(v, needle, i) {
            return true;
        }
        i = i + 1;
    }
    let last = occurs_at_exec(v, needle, n);
    proof {
        if !last {
            assert forall|j: int| !occurs_at(v@, needle@, j) by {
                if 0 <= j && j < n {
                } else if j == n {
                } else {
                }
            }
        }
    }
    last
}

/// Whether `name` is the name of an SSH or mosh daemon.
pub fn is_remote_process(name: &str) -> (b: bool)
    ensures
        b == remote_name(name@),
{
    let v = chars_of(name);
    let sshd = chars_of("sshd");
    let sshd_dash = chars_of("sshd-");
    let mosh = chars_of("mosh-server");
    let exact = chars_eq(&v, &sshd);
    let prefix = v.len() >= sshd_dash.len() && occurs_at_exec(&v, &sshd_dash, 0);
    proof {
        if v@.len() >= sshd_dash@.len() {
            assert(occurs_at(v@, sshd_dash@, 0) == sshd_dash@.is_prefix_of(v@));
        }
    }
    exact || prefix || contains_exec(&v, &mosh)
}

/// `str::parse::<u32>`: a number as `parse_usize` reads it, where it fits in
/// 32 bits.
pub open spec fn parse_u32(s: Seq<char>) -> Option<u32> {
    match parse_usize(s) {
        Some(v) => if v <= u32::MAX {
            Some(v as u32)
        } else {
            None
        },
        None => None,
    }
}

/// A process id written as text, surrounding white space ignored.
pub fn parse_pid(s: &str) -> (p: Option<u32>)
    ensures
        p == parse_u32(trim(s@)),
{
    match parse_width(s) {
        Some(v) => if v <= 0xffff_ffff {
            Some(v as u32)
        } else {
            None
        },
        None => None,
    }
}

/// The characters `t` parsed as a `u32`.
fn parse_u32_chars(t: &Vec<char>) -> (p: Option<u32>)
    ensures
        p == parse_u32(t@),
{
    match parse_usize_chars(t) {
        Some(v) => if v <= 0xffff_ffff {
            Some(v as u32)
        } else {
            None
        },
        None => None,
    }
}

/// Whether `v` starts with `prefix`.
fn starts_with_chars(v: &Vec<char>, prefix: &Vec<char>) -> (b: bool)
    ensures
        b == prefix@.is_prefix_of(v@),
{
    if v.len() < prefix.len() {
        return false;
    }
    let b = occurs_at_exec(v, prefix, 0);
    proof {
        assert(occurs_at(v@, prefix@, 0) == prefix@.is_prefix_of(v@));
    }
    b
}

/// One line of `/proc/<pid>/status` read into the name and parent found so
/// far: a `Name:` line gives the name, a `PPid:` line the parent (or none,
/// where its value is not a number), each value trimmed.
pub open spec fn status_step(st: (Option<Seq<char>>, Option<u32>), l: Seq<char>) -> (
    Option<Seq<char>>,
    Option<u32>,
) {
    if "Name:\t"@.is_prefix_of(l) {
        (Some(trim(l.skip(6))), st.1)
    } else if "PPid:\t"@.is_prefix_of(l) {
        (st.0, parse_u32(trim(l.skip(6))))
    } else {
        st
    }
}

/// The name and parent read from the lines, reading stopping once both are
/// known.
pub open spec fn status_scan(ls: Seq<Seq<char>>) -> (Option<Seq<char>>, Option<u32>)
    decreases ls.len(),
{
    if ls.len() == 0 {
        (None, None)
    } else {
        let st = status_scan(ls.drop_last());
        if st.0 is Some && st.1 is Some {
            st
        } else {
            status_step(st, ls.last())
        }
    }
}

/// The name and parent that the text of `/proc/<pid>/status` gives, where it
/// gives both.
pub open spec fn proc_status_info(status: Seq<char>) -> Option<(Seq<char>, u32)> {
    match status_scan(lines_of(status)) {
        (Some(n), Some(p)) => Some((n, p)),
        _ => None,
    }
}

/// Once both are known, later lines change nothing.
proof fn lemma_scan_settled(ls: Seq<Seq<char>>, k: int)
    requires
        0 <= k <= ls.len(),
        status_scan(ls.take(k)).0 is Some,
        status_scan(ls.take(k)).1 is Some,
    ensures
        status_scan(ls) == status_scan(ls.take(k)),
    decreases ls.len() - k,
{
    if k < ls.len() {
        let t = ls.take(k + 1);
        assert(t.drop_last() =~= ls.take(k));
        lemma_scan_settled(ls, k + 1);
    } else {
        assert(ls.take(k) =~= ls);
    }
}

/// The name and parent of a process from the text of its
/// `/proc/<pid>/status`.
pub fn parse_proc_status(status: &str) -> (r: Option<(String, u32)>)
    ensures
        match r {
            Some((n, p)) => proc_status_info(status@) == Some((n@, p)),
            None => proc_status_info(status@) is None,
        },
{
    let lines = split_lines(status);
    let ghost ls = lines_of(status@);
    let name_key = chars_of("Name:\t");
    let ppid_key = chars_of("PPid:\t");
    proof {
        reveal_strlit("Name:\t");
        reveal_strlit("PPid:\t");
    }
    let mut name: Option<Vec<char>> = None;
    let mut ppid: Option<u32> = None;
    let n = lines.len();
    let mut i: usize = 0;
    while i < n && !(name.is_some() && ppid.is_some())
        invariant
            n == lines@.len(),
            views(lines@) == ls,
            name_key@ == "Name:\t"@,
            ppid_key@ == "PPid:\t"@,
            name_key@.len() == 6,
            ppid_key@.len() == 6,
            i <= n,
            (match name {
                Some(v) => Some(v@),
                None => None,
            }, ppid) == status_scan(ls.take(i as int)),
        decreases n - i,
    {
        proof {
            assert(views(lines@)[i as int] == lines@[i as int]@);
            let t = ls.take(i + 1);
            assert(t.drop_last() =~= ls.take(i as int));
            assert(t.last() == ls[i as int]);
        }
        let line = &lines[i];
        if starts_with_chars(line, &name_key) {
            let rest = skip_chars(line, 6);
            name = Some(trim_chars(&rest));
        } else if starts_with_chars(line, &ppid_key) {
            let rest = skip_chars(line, 6);
            let value = trim_chars(&rest);
            ppid = parse_u32_chars(&value);
        }
        i = i + 1;
    }
    proof {
        if name is Some && ppid is Some {
            lemma_scan_settled(ls, i as int);
        } else {
            assert(ls.take(n as int) =~= ls);
        }
    }
    match (name, ppid) {
        (Some(v), Some(p)) => Some((string_from(&v), p)),
        _ => None,
    }
}

/// Reading `s` from the left, as `str::split_whitespace` does: the words
/// already ended by white space, and the word being read.
pub open spec fn word_state(s: Seq<char>) -> (Seq<Seq<char>>, Seq<char>)
    decreases s.len(),
{
    if s.len() == 0 {
        (Seq::empty(), Seq::empty())
    } else {
        let (done, cur) = word_state(s.drop_last());
        if is_ws(s.last()) {
            if cur.len() > 0 {
                (done.push(cur), Seq::empty())
            } else {
                (done, cur)
            }
        } else {
            (done, cur.push(s.last()))
        }
    }
}

/// The words of `s`: the runs of characters that are not white space.
pub open spec fn words(s: Seq<char>) -> Seq<Seq<char>> {
    let (done, cur) = word_state(s);
    if cur.len() > 0 {
        done.push(cur)
    } else {
        done
    }
}

/// The name and parent that a line of `ps -o comm=,ppid=` gives: the first
/// word, and the second read as a number.
pub open spec fn ps_info(out: Seq<char>) -> Option<(Seq<char>, u32)> {
    let w = words(out);
    if w.len() >= 2 {
        match parse_u32(w[1]) {
            Some(p) => Some((w[0], p)),
            None => None,
        }
    } else {
        None
    }
}

/// The words of `s`.
fn split_words(s: &str) -> (ws: Vec<Vec<char>>)
    ensures
        views(ws@) == words(s@),
{
    let chars = chars_of(s);
    let mut done: Vec<Vec<char>> = Vec::new();
    let mut cur: Vec<char> = Vec::new();
    let n = chars.len();
    let mut i: usize = 0;
    while i < n
        invariant
            n == chars@.len(),
            chars@ == s@,
            i <= n,
            (views(done@), cur@) == word_state(s@.take(i as int)),
        decreases n - i,
    {
        let c = chars[i];
        proof {
            assert(s@.take(i + 1).drop_last() =~= s@.take(i as int));
        }
        if is_whitespace(c) {
            if cur.len() > 0 {
                let ghost old_done = views(done@);
                let word = cur;
                done.push(word);
                cur = Vec::new();
                proof {
                    assert(views(done@) =~= old_done.push(word@));
                }
            }
        } else {
            cur.push(c);
        }
        i = i + 1;
    }
    proof {
        assert(s@.take(n as int) =~= s@);
    }
    if cur.len() > 0 {
        let ghost old_done = views(done@);
        let word = cur;
        done.push(word);
        proof {
            assert(views(done@) =~= old_done.push(word@));
        }
    }
    done
}

/// The name and parent of a process from the output of
/// `ps -o comm=,ppid=`.
pub fn parse_ps_line(out: &str) -> (r: Option<(String, u32)>)
    ensures
        match r {
            Some((n, p)) => ps_info(out@) == Some((n@, p)),
            None => ps_info(out@) is None,
        },
{
    let w = split_words(out);
    if w.len() < 2 {
        return None;
    }
    proof {
        assert(views(w@)[0] == w@[0]@);
        assert(views(w@)[1] == w@[1]@);
    }
    match parse_u32_chars(&w[1]) {
        Some(p) => Some((string_from(&w[0]), p)),
        None => None,
    }
}

/// A walk up the process tree: the process to look at next, whether a
/// remote-access daemon was met, and whether the walk is over.
#[derive(Debug, Clone, Copy, PartialEq, Eq)]
pub struct AncestorWalk {
    pub pid: u32,
    pub found: bool,
    pub done: bool,
}

impl AncestorWalk {
    /// A walk from `start_pid`; it is over at once for PID 1 and below.
    pub fn new(start_pid: u32) -> (w: Self)
        ensures
            w.pid == start_pid,
            !w.found,
            w.done == (start_pid <= 1),
    {
        AncestorWalk { pid: start_pid, found: false, done: start_pid <= 1 }
    }

    /// The process whose name and parent are needed next, while the walk goes on.
    pub fn pending(&self) -> (p: Option<u32>)
        ensures
            p == (if self.done { None } else { Some(self.pid) }),
    {
        if self.done {
            None
        } else {
            Some(self.pid)
        }
    }

    /// Whether a remote-access daemon was met.
    pub fn found(&self) -> (b: bool)
        ensures
            b == self.found,
    {
        self.found
    }

    /// One step, given the name and parent of the pending process (`None`
    /// where it could not be read): a daemon's name ends the walk with a
    /// find; a missing process, a parent of 0 or the process itself ends it
    /// without; else the walk moves to the parent, and is over once that is
    /// PID 1 or below.
    pub fn advance(&mut self, info: Option<(String, u32)>)
        requires
            !old(self).done,
        ensures
            match info {
                None => final(self).done && final(self).found == old(self).found && final(self).pid == old(self).pid,
                Some((name, ppid)) => if remote_name(name@) {
                    final(self).done && final(self).found && final(self).pid == old(self).pid
                } else if ppid == 0 || ppid == old(self).pid {
                    final(self).done && final(self).found == old(self).found && final(self).pid == old(self).pid
                } else {
                    final(self).pid == ppid && final(self).found == old(self).found && final(self).done == (ppid <= 1)
                },
            },
    {
        match info {
            None => {
                self.done = true;
            },
            Some((name, ppid)) => {
                if is_remote_process(name.as_str()) {
                    self.found = true;
                    self.done = true;
                } else if ppid == 0 || ppid == self.pid {
                    self.done = true;
                } else {
                    self.pid = ppid;
                    self.done = ppid <= 1;
                }
            },
        }
    }

    /// One step, given the name and the parent of the pending process read
    /// apart (each `None` where it could not be read): a daemon's name ends
    /// the walk with a find; else the walk moves to a parent other than the
    /// process itself, and is over once that is PID 1 or below, or where
    /// there is no such parent.
    pub fn advance_parts(&mut self, name: Option<String>, ppid: Option<u32>)
        requires
            !old(self).done,
        ensures
            if name matches Some(n) && remote_name(n@) {
                final(self).done && final(self).found && final(self).pid == old(self).pid
            } else if ppid matches Some(p) && p != old(self).pid {
                final(self).pid == ppid->0 && final(self).found == old(self).found && final(self).done == (ppid->0
                    <= 1)
            } else {
                final(self).done && final(self).found == old(self).found && final(self).pid == old(self).pid
            },
    {
        if let Some(n) = name {
            if is_remote_process(n.as_str()) {
                self.found = true;
                self.done = true;
                return;
            }
        }
        match ppid {
            Some(p) => {
                if p != self.pid {
                    self.pid = p;
                    self.done = p <= 1;
                } else {
                    self.done = true;
                }
            },
            None => {
                self.done = true;
            },
        }
    }
}

} // verus!
