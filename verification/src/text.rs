//! Characters, lines and strings: the model that every transformer is stated over.

use vstd::prelude::*;

verus! {

/// Unicode `White_Space`, the property that `char::is_whitespace` and the
/// `trim` family test.
pub open spec fn is_ws(c: char) -> bool {
    ||| c == ' '
    ||| ('\t' <= c && c <= '\r')
    ||| c == '\u{85}'
    ||| c == '\u{a0}'
    ||| c == '\u{1680}'
    ||| ('\u{2000}' <= c && c <= '\u{200a}')
    ||| c == '\u{2028}'
    ||| c == '\u{2029}'
    ||| c == '\u{202f}'
    ||| c == '\u{205f}'
    ||| c == '\u{3000}'
}

/// Whether `c` is Unicode white space.
pub fn is_whitespace(c: char) -> (b: bool)
    ensures
        b == is_ws(c),
{
    c == ' ' || ('\t' <= c && c <= '\r') || c == '\u{85}' || c == '\u{a0}' || c == '\u{1680}'
        || ('\u{2000}' <= c && c <= '\u{200a}') || c == '\u{2028}' || c == '\u{2029}'
        || c == '\u{202f}' || c == '\u{205f}' || c == '\u{3000}'
}

pub assume_specification[ String::push ](s: &mut String, ch: char)
    ensures
        final(s)@ == old(s)@.push(ch),
;

/// The characters of `s`, in order.
pub fn chars_of(s: &str) -> (v: Vec<char>)
    ensures
        v@ == s@,
{
    let mut v: Vec<char> = Vec::new();
    for c in it: s.chars()
        invariant
            v@ == it.seq().take(it.index() as int),
            it.seq() == s@,
    {
        v.push(c);
    }
    v
}


/// A line with one trailing carriage return removed.
pub open spec fn strip_cr(l: Seq<char>) -> Seq<char> {
    if l.len() > 0 && l.last() == '\r' {
        l.drop_last()
    } else {
        l
    }
}

/// Reading `s` from the left: the lines already ended by a `'\n'` (carriage
/// return removed), and the characters read since the last `'\n'`.
pub open spec fn split_state(s: Seq<char>) -> (Seq<Seq<char>>, Seq<char>)
    decreases s.len(),
{
    if s.len() == 0 {
        (Seq::empty(), Seq::empty())
    } else {
        let (done, cur) = split_state(s.drop_last());
        if s.last() == '\n' {
            (done.push(strip_cr(cur)), Seq::empty())
        } else {
            (done, cur.push(s.last()))
        }
    }
}

/// The lines of `s` as `str::lines` gives them: split at `'\n'`, a `'\r'`
/// before the `'\n'` dropped, and no empty line after a final `'\n'`.
pub open spec fn lines_of(s: Seq<char>) -> Seq<Seq<char>> {
    let (done, cur) = split_state(s);
    if cur.len() == 0 {
        done
    } else {
        done.push(cur)
    }
}

/// The sequence holds no line feed.
pub open spec fn no_newline(l: Seq<char>) -> bool {
    forall|i: int| 0 <= i < l.len() ==> l[i] != '\n'
}

/// Reading a piece without line feeds only extends the current line.
pub proof fn lemma_split_append_line(s: Seq<char>, l: Seq<char>)
    requires
        no_newline(l),
    ensures
        split_state(s + l) == (split_state(s).0, split_state(s).1 + l),
    decreases l.len(),
{
    if l.len() == 0 {
        assert(s + l =~= s);
        assert(split_state(s).1 + l =~= split_state(s).1);
    } else {
        let d = l.drop_last();
        assert(no_newline(d)) by {
            assert forall|i: int| 0 <= i < d.len() implies d[i] != '\n' by {
                assert(d[i] == l[i]);
            }
        }
        lemma_split_append_line(s, d);
        assert((s + l).drop_last() =~= s + d);
        assert((s + l).last() == l.last());
        assert((split_state(s).1 + d).push(l.last()) =~= split_state(s).1 + l);
    }
}

/// Reading a text leaves no line feed in its lines, nor in the line being read.
pub proof fn lemma_split_no_newline(s: Seq<char>)
    ensures
        forall|k: int| 0 <= k < split_state(s).0.len() ==> no_newline(#[trigger] split_state(s).0[k]),
        no_newline(split_state(s).1),
    decreases s.len(),
{
    if s.len() > 0 {
        lemma_split_no_newline(s.drop_last());
        let (done, cur) = split_state(s.drop_last());
        if s.last() == '\n' {
            let c = strip_cr(cur);
            assert(no_newline(c)) by {
                assert forall|i: int| 0 <= i < c.len() implies c[i] != '\n' by {
                    assert(c[i] == cur[i]);
                }
            }
            assert forall|k: int| 0 <= k < done.push(c).len() implies no_newline(#[trigger] done.push(c)[k]) by {
                if k < done.len() {
                    assert(done.push(c)[k] == done[k]);
                }
            }
        } else {
            let c = cur.push(s.last());
            assert(no_newline(c)) by {
                assert forall|i: int| 0 <= i < c.len() implies c[i] != '\n' by {
                    if i < cur.len() {
                        assert(c[i] == cur[i]);
                    }
                }
            }
        }
    }
}

/// No line of a text holds a line feed.
pub proof fn lemma_lines_no_newline(s: Seq<char>)
    ensures
        forall|k: int| 0 <= k < lines_of(s).len() ==> no_newline(#[trigger] lines_of(s)[k]),
{
    lemma_split_no_newline(s);
    let (done, cur) = split_state(s);
    if cur.len() > 0 {
        assert forall|k: int| 0 <= k < done.push(cur).len() implies no_newline(#[trigger] done.push(cur)[k]) by {
            if k < done.len() {
                assert(done.push(cur)[k] == done[k]);
            }
        }
    }
}

/// Reading lines joined back: each line that a line feed ends loses one
/// carriage return at its end; the last, where no line feed follows it, is
/// read on.
pub proof fn lemma_split_joined(ls: Seq<Seq<char>>)
    requires
        ls.len() >= 1,
        forall|k: int| 0 <= k < ls.len() ==> no_newline(#[trigger] ls[k]),
    ensures
        split_state(join_lines(ls).push('\n')) == (ls.map_values(|l: Seq<char>| strip_cr(l)), Seq::<char>::empty()),
        split_state(join_lines(ls)) == (ls.drop_last().map_values(|l: Seq<char>| strip_cr(l)), ls.last()),
    decreases ls.len(),
{
    let e = Seq::<char>::empty();
    if ls.len() == 1 {
        assert(no_newline(ls[0]));
        lemma_split_append_line(e, ls[0]);
        assert(e + ls[0] =~= ls[0]);
        assert(e + ls[0] =~= ls[0]);
        assert(split_state(e) == (Seq::<Seq<char>>::empty(), e));
        assert(join_lines(ls) == ls[0]);
        assert(join_lines(ls).push('\n').drop_last() =~= join_lines(ls));
        assert(ls.map_values(|l: Seq<char>| strip_cr(l)) =~= seq![strip_cr(ls[0])]);
        assert(ls.drop_last().map_values(|l: Seq<char>| strip_cr(l)) =~= Seq::<Seq<char>>::empty());
        assert(Seq::<Seq<char>>::empty().push(strip_cr(ls[0])) =~= seq![strip_cr(ls[0])]);
    } else {
        let d = ls.drop_last();
        assert forall|k: int| 0 <= k < d.len() implies no_newline(#[trigger] d[k]) by {
            assert(d[k] == ls[k]);
        }
        lemma_split_joined(d);
        let head = join_lines(d).push('\n');
        assert(no_newline(ls.last()));
        lemma_split_append_line(head, ls.last());
        assert(join_lines(ls) =~= head + ls.last());
        assert(e + ls.last() =~= ls.last());
        assert(join_lines(ls).push('\n').drop_last() =~= join_lines(ls));
        assert(d.map_values(|l: Seq<char>| strip_cr(l)).push(strip_cr(ls.last())) =~= ls.map_values(
            |l: Seq<char>| strip_cr(l),
        ));
    }
}

/// Lines joined end as their last line ends, where that one is not empty.
pub proof fn lemma_join_lines_last(ls: Seq<Seq<char>>)
    requires
        ls.len() > 0,
        ls.last().len() > 0,
    ensures
        join_lines(ls).len() > 0,
        join_lines(ls).last() == ls.last().last(),
{
    if ls.len() > 1 {
        let head = join_lines(ls.drop_last()) + seq!['\n'];
        assert(join_lines(ls) == head + ls.last());
        assert((head + ls.last()).last() == ls.last().last());
    }
}

/// A text that does not end with a line feed ends with its last line, which
/// is not empty.
pub proof fn lemma_last_line_not_empty(s: Seq<char>)
    requires
        s.len() > 0,
        !ends_with_newline(s),
    ensures
        lines_of(s).len() > 0,
        lines_of(s).last().len() > 0,
        lines_of(s).last().last() == s.last(),
{
    let (done, cur) = split_state(s.drop_last());
    assert(split_state(s) == (done, cur.push(s.last())));
}

/// The characters of `s` that are not white space, in order.
pub open spec fn visible(s: Seq<char>) -> Seq<char>
    decreases s.len(),
{
    if s.len() == 0 {
        s
    } else if is_ws(s.last()) {
        visible(s.drop_last())
    } else {
        visible(s.drop_last()).push(s.last())
    }
}

/// The characters that are not white space in each line, line after line.
pub open spec fn visible_lines(ls: Seq<Seq<char>>) -> Seq<char>
    decreases ls.len(),
{
    if ls.len() == 0 {
        Seq::empty()
    } else {
        visible(ls[0]) + visible_lines(ls.drop_first())
    }
}

/// What is visible in two pieces put together is what is visible in each.
pub proof fn lemma_visible_add(a: Seq<char>, b: Seq<char>)
    ensures
        visible(a + b) == visible(a) + visible(b),
    decreases b.len(),
{
    if b.len() == 0 {
        assert(a + b =~= a);
        assert(visible(a) + visible(b) =~= visible(a));
    } else {
        lemma_visible_add(a, b.drop_last());
        assert((a + b).drop_last() =~= a + b.drop_last());
        assert((a + b).last() == b.last());
        if !is_ws(b.last()) {
            assert((visible(a) + visible(b.drop_last())).push(b.last()) =~= visible(a) + visible(
                b.drop_last(),
            ).push(b.last()));
        }
    }
}

/// Nothing is visible in white space.
pub proof fn lemma_visible_all_ws(s: Seq<char>)
    requires
        forall|i: int| 0 <= i < s.len() ==> is_ws(#[trigger] s[i]),
    ensures
        visible(s) == Seq::<char>::empty(),
    decreases s.len(),
{
    if s.len() > 0 {
        let d = s.drop_last();
        assert forall|i: int| 0 <= i < d.len() implies is_ws(#[trigger] d[i]) by {
            assert(d[i] == s[i]);
        }
        lemma_visible_all_ws(d);
    }
}

/// Removing leading white space hides nothing.
pub proof fn lemma_visible_trim_start(l: Seq<char>)
    ensures
        visible(trim_start(l)) == visible(l),
{
    lemma_ws_run_bounds(l, 0);
    let k = leading_ws(l) as int;
    let head = l.take(k);
    assert forall|i: int| 0 <= i < head.len() implies is_ws(#[trigger] head[i]) by {
        assert(head[i] == l[i]);
    }
    lemma_visible_all_ws(head);
    assert(head + l.skip(k) =~= l);
    lemma_visible_add(head, l.skip(k));
    assert(Seq::<char>::empty() + visible(l.skip(k)) =~= visible(l.skip(k)));
}

/// Removing leading characters that are white space hides nothing.
pub proof fn lemma_visible_skip_ws(l: Seq<char>, m: int)
    requires
        0 <= m <= l.len(),
        forall|i: int| 0 <= i < m ==> is_ws(#[trigger] l[i]),
    ensures
        visible(l.skip(m)) == visible(l),
{
    let head = l.take(m);
    assert forall|i: int| 0 <= i < head.len() implies is_ws(#[trigger] head[i]) by {
        assert(head[i] == l[i]);
    }
    lemma_visible_all_ws(head);
    assert(head + l.skip(m) =~= l);
    lemma_visible_add(head, l.skip(m));
    assert(Seq::<char>::empty() + visible(l.skip(m)) =~= visible(l.skip(m)));
}

/// Runs of lines that show the same in each line show the same.
pub proof fn lemma_visible_lines_pointwise(a: Seq<Seq<char>>, b: Seq<Seq<char>>)
    requires
        a.len() == b.len(),
        forall|k: int| 0 <= k < a.len() ==> visible(#[trigger] a[k]) == visible(b[k]),
    ensures
        visible_lines(a) == visible_lines(b),
    decreases a.len(),
{
    if a.len() > 0 {
        let a1 = a.drop_first();
        let b1 = b.drop_first();
        assert forall|k: int| 0 <= k < a1.len() implies visible(#[trigger] a1[k]) == visible(b1[k]) by {
            assert(a1[k] == a[k + 1]);
            assert(b1[k] == b[k + 1]);
        }
        lemma_visible_lines_pointwise(a1, b1);
        assert(visible(a[0]) == visible(b[0]));
    }
}

/// Adding a line at the end adds what is visible in it.
pub proof fn lemma_visible_lines_push(ls: Seq<Seq<char>>, x: Seq<char>)
    ensures
        visible_lines(ls.push(x)) == visible_lines(ls) + visible(x),
    decreases ls.len(),
{
    if ls.len() == 0 {
        assert(ls.push(x).drop_first() =~= Seq::<Seq<char>>::empty());
        assert(ls.push(x)[0] == x);
        assert(visible_lines(ls.push(x).drop_first()) == Seq::<char>::empty());
        assert(visible_lines(ls) == Seq::<char>::empty());
        assert(visible(x) + Seq::<char>::empty() =~= visible(x));
        assert(Seq::<char>::empty() + visible(x) =~= visible(x));
    } else {
        assert(ls.push(x).drop_first() =~= ls.drop_first().push(x));
        assert(ls.push(x)[0] == ls[0]);
        lemma_visible_lines_push(ls.drop_first(), x);
        assert(visible_lines(ls.push(x)) == visible(ls[0]) + visible_lines(ls.drop_first().push(x)));
        assert(visible(ls[0]) + (visible_lines(ls.drop_first()) + visible(x)) =~= (visible(ls[0])
            + visible_lines(ls.drop_first())) + visible(x));
    }
}

/// What is visible in two runs of lines put together is what is visible in each.
pub proof fn lemma_visible_lines_add(a: Seq<Seq<char>>, b: Seq<Seq<char>>)
    ensures
        visible_lines(a + b) == visible_lines(a) + visible_lines(b),
    decreases a.len(),
{
    if a.len() == 0 {
        assert(a + b =~= b);
        assert(Seq::<char>::empty() + visible_lines(b) =~= visible_lines(b));
    } else {
        assert((a + b).drop_first() =~= a.drop_first() + b);
        assert((a + b)[0] == a[0]);
        lemma_visible_lines_add(a.drop_first(), b);
        assert(visible(a[0]) + (visible_lines(a.drop_first()) + visible_lines(b)) =~= (visible(a[0])
            + visible_lines(a.drop_first())) + visible_lines(b));
    }
}

/// Joining lines, with or without a final line feed, hides nothing and adds
/// nothing visible.
pub proof fn lemma_visible_rejoin(ls: Seq<Seq<char>>, original: Seq<char>)
    ensures
        visible(join_lines(ls)) == visible_lines(ls),
        visible(rejoin(ls, original)) == visible_lines(ls),
    decreases ls.len(),
{
    let nl = seq!['\n'];
    assert(visible(nl) == Seq::<char>::empty()) by {
        lemma_visible_all_ws(nl);
    }
    if ls.len() == 0 {
    } else if ls.len() == 1 {
        assert(ls.drop_first() =~= Seq::<Seq<char>>::empty());
        assert(visible_lines(ls.drop_first()) == Seq::<char>::empty());
        assert(visible(ls[0]) + Seq::<char>::empty() =~= visible(ls[0]));
        assert(join_lines(ls) == ls[0]);
    } else {
        let d = ls.drop_last();
        lemma_visible_rejoin(d, original);
        assert(join_lines(ls) == join_lines(d) + nl + ls.last());
        lemma_visible_add(join_lines(d), nl);
        lemma_visible_add(join_lines(d) + nl, ls.last());
        lemma_visible_lines_push(d, ls.last());
        assert(d.push(ls.last()) =~= ls);
        assert(visible_lines(d) + Seq::<char>::empty() =~= visible_lines(d));
        assert(visible(join_lines(ls)) == visible_lines(ls));
    }
    lemma_visible_add(join_lines(ls), nl);
    assert(join_lines(ls).push('\n') =~= join_lines(ls) + nl);
    assert(visible(join_lines(ls)) + Seq::<char>::empty() =~= visible(join_lines(ls)));
}

/// What is visible in a text is what is visible in the lines read so far and
/// in the line being read.
proof fn lemma_visible_split(s: Seq<char>)
    ensures
        visible(s) == visible_lines(split_state(s).0) + visible(split_state(s).1),
    decreases s.len(),
{
    if s.len() == 0 {
        assert(Seq::<char>::empty() + Seq::<char>::empty() =~= Seq::<char>::empty());
    } else {
        lemma_visible_split(s.drop_last());
        let (done, cur) = split_state(s.drop_last());
        let c = s.last();
        if c == '\n' {
            let sc = strip_cr(cur);
            assert(visible(sc) == visible(cur)) by {
                if cur.len() > 0 && cur.last() == '\r' {
                }
            }
            lemma_visible_lines_push(done, sc);
            assert(visible_lines(done) + visible(sc) + Seq::<char>::empty() =~= visible_lines(done)
                + visible(sc));
        } else {
            let c2 = cur.push(c);
            assert(c2.drop_last() =~= cur);
            if !is_ws(c) {
                assert((visible_lines(done) + visible(cur)).push(c) =~= visible_lines(done) + visible(
                    cur,
                ).push(c));
            }
        }
    }
}

/// What is visible in a text is what is visible in its lines.
pub proof fn lemma_visible_lines_of(s: Seq<char>)
    ensures
        visible(s) == visible_lines(lines_of(s)),
{
    lemma_visible_split(s);
    let (done, cur) = split_state(s);
    if cur.len() > 0 {
        lemma_visible_lines_push(done, cur);
    } else {
        assert(visible_lines(done) + visible(cur) =~= visible_lines(done));
    }
}

/// The lines joined with `'\n'` between them.
pub open spec fn join_lines(ls: Seq<Seq<char>>) -> Seq<char>
    decreases ls.len(),
{
    if ls.len() == 0 {
        Seq::empty()
    } else if ls.len() == 1 {
        ls[0]
    } else {
        join_lines(ls.drop_last()) + seq!['\n'] + ls.last()
    }
}

/// Whether the text ends with a line feed.
pub open spec fn ends_with_newline(s: Seq<char>) -> bool {
    s.len() > 0 && s.last() == '\n'
}

/// The lines joined, and a final `'\n'` added where `original` ended with one.
pub open spec fn rejoin(ls: Seq<Seq<char>>, original: Seq<char>) -> Seq<char> {
    if ends_with_newline(original) {
        join_lines(ls).push('\n')
    } else {
        join_lines(ls)
    }
}

/// The character sequences that a vector of character vectors holds.
pub open spec fn views(ls: Seq<Vec<char>>) -> Seq<Seq<char>> {
    ls.map_values(|l: Vec<char>| l@)
}

/// The lines of `s`.
pub fn split_lines(s: &str) -> (ls: Vec<Vec<char>>)
    ensures
        views(ls@) == lines_of(s@),
{
    let chars = chars_of(s);
    let mut done: Vec<Vec<char>> = Vec::new();
    let mut cur: Vec<char> = Vec::new();
    let n = chars.len();
    let mut i: usize = 0;
    while i < n
        invariant
            n == chars@.len(),
            chars@ == s@,
            i <= n,
            (views(done@), cur@) == split_state(s@.take(i as int)),
        decreases n - i,
    {
        let c = chars[i];
        proof {
            assert(s@.take(i + 1).drop_last() =~= s@.take(i as int));
        }
        if c == '\n' {
            let ghost old_done = views(done@);
            if cur.len() > 0 && cur[cur.len() - 1] == '\r' {
                cur.pop();
            }
            let line = cur;
            done.push(line);
            cur = Vec::new();
            proof {
                assert(views(done@) =~= old_done.push(line@));
            }
        } else {
            cur.push(c);
        }
        i = i + 1;
    }
    proof {
        assert(s@.take(n as int) =~= s@);
    }
    if cur.len() > 0 {
        let ghost old_done = views(done@);
        let line = cur;
        done.push(line);
        proof {
            assert(views(done@) =~= old_done.push(line@));
        }
    }
    done
}

/// The characters `v` as a string.
pub fn string_from(v: &Vec<char>) -> (s: String)
    ensures
        s@ == v@,
{
    let mut s = String::new();
    let n = v.len();
    let mut i: usize = 0;
    while i < n
        invariant
            n == v@.len(),
            i <= n,
            s@ == v@.take(i as int),
        decreases n - i,
    {
        s.push(v[i]);
        proof {
            assert(v@.take(i + 1) =~= v@.take(i as int).push(v@[i as int]));
        }
        i = i + 1;
    }
    proof {
        assert(v@.take(n as int) =~= v@);
    }
    s
}

/// Appends `w` to `v`.
pub fn extend_chars(v: &mut Vec<char>, w: &Vec<char>)
    ensures
        final(v)@ == old(v)@ + w@,
{
    let n = w.len();
    let mut i: usize = 0;
    while i < n
        invariant
            n == w@.len(),
            i <= n,
            v@ == old(v)@ + w@.take(i as int),
        decreases n - i,
    {
        v.push(w[i]);
        proof {
            assert(w@.take(i + 1) =~= w@.take(i as int).push(w@[i as int]));
        }
        i = i + 1;
    }
    proof {
        assert(w@.take(n as int) =~= w@);
    }
}

/// The lines joined with `'\n'` between them.
pub fn join_chars(ls: &Vec<Vec<char>>) -> (out: Vec<char>)
    ensures
        out@ == join_lines(views(ls@)),
{
    let mut out: Vec<char> = Vec::new();
    let n = ls.len();
    let mut i: usize = 0;
    while i < n
        invariant
            n == ls@.len(),
            i <= n,
            out@ == join_lines(views(ls@).take(i as int)),
        decreases n - i,
    {
        if i > 0 {
            out.push('\n');
        }
        extend_chars(&mut out, &ls[i]);
        proof {
            let t = views(ls@).take(i + 1);
            assert(t.drop_last() =~= views(ls@).take(i as int));
            assert(t.last() == ls[i as int]@);
            if i == 0 {
                assert(out@ =~= t[0]);
            } else {
                assert(out@ =~= join_lines(t.drop_last()) + seq!['\n'] + t.last());
            }
        }
        i = i + 1;
    }
    proof {
        assert(views(ls@).take(n as int) =~= views(ls@));
    }
    out
}

/// Whether the characters end with a line feed.
pub fn ends_with_newline_chars(v: &Vec<char>) -> (b: bool)
    ensures
        b == ends_with_newline(v@),
{
    v.len() > 0 && v[v.len() - 1] == '\n'
}

/// The lines joined with `'\n'`, and a final `'\n'` where `original` ended with one.
pub fn rejoin_lines(ls: &Vec<Vec<char>>, original: &Vec<char>) -> (s: String)
    ensures
        s@ == rejoin(views(ls@), original@),
{
    let mut out = join_chars(ls);
    if ends_with_newline_chars(original) {
        out.push('\n');
    }
    string_from(&out)
}
/// The number of white-space characters in the run that starts at index `i`.
pub open spec fn ws_run_from(l: Seq<char>, i: int) -> nat
    decreases l.len() - i,
{
    if i < 0 || i >= l.len() || !is_ws(l[i]) {
        0
    } else {
        1 + ws_run_from(l, i + 1)
    }
}

/// The number of leading white-space characters.
pub open spec fn leading_ws(l: Seq<char>) -> nat {
    ws_run_from(l, 0)
}

/// The number of trailing white-space characters.
pub open spec fn trailing_ws(l: Seq<char>) -> nat
    decreases l.len(),
{
    if l.len() == 0 || !is_ws(l.last()) {
        0
    } else {
        1 + trailing_ws(l.drop_last())
    }
}

/// `str::trim_start`: the leading white space removed.
pub open spec fn trim_start(l: Seq<char>) -> Seq<char> {
    l.skip(leading_ws(l) as int)
}

/// `str::trim_end`: the trailing white space removed.
pub open spec fn trim_end(l: Seq<char>) -> Seq<char> {
    l.take(l.len() - trailing_ws(l))
}

/// `str::trim`: white space removed at both ends.
pub open spec fn trim(l: Seq<char>) -> Seq<char> {
    trim_start(trim_end(l))
}

/// A line that holds nothing but white space (`trim` leaves it empty).
pub open spec fn is_blank(l: Seq<char>) -> bool {
    forall|i: int| 0 <= i < l.len() ==> is_ws(#[trigger] l[i])
}

/// The run from `i` ends at the first character at or after `i` that is not white space.
pub proof fn lemma_ws_run(l: Seq<char>, i: int, k: int)
    requires
        0 <= i <= k <= l.len(),
        forall|j: int| i <= j < k ==> is_ws(#[trigger] l[j]),
        k == l.len() || !is_ws(l[k]),
    ensures
        ws_run_from(l, i) == k - i,
    decreases k - i,
{
    if i < k {
        lemma_ws_run(l, i + 1, k);
    }
}

/// The run of white space from `i` is white space, and stays inside the sequence.
pub proof fn lemma_ws_run_bounds(l: Seq<char>, i: int)
    requires
        0 <= i <= l.len(),
    ensures
        i + ws_run_from(l, i) <= l.len(),
        forall|j: int| i <= j < i + ws_run_from(l, i) ==> is_ws(#[trigger] l[j]),
        i + ws_run_from(l, i) == l.len() || !is_ws(l[i + ws_run_from(l, i)]),
    decreases l.len() - i,
{
    if i < l.len() && is_ws(l[i]) {
        lemma_ws_run_bounds(l, i + 1);
    }
}

/// A line is blank exactly when its leading white space covers it.
pub proof fn lemma_blank_iff_leading(l: Seq<char>)
    ensures
        is_blank(l) <==> leading_ws(l) == l.len(),
{
    lemma_ws_run_bounds(l, 0);
    if is_blank(l) {
        lemma_ws_run(l, 0, l.len() as int);
    }
}

/// The trailing white space stays inside the sequence and is white space.
pub proof fn lemma_trailing_ws_bounds(l: Seq<char>)
    ensures
        trailing_ws(l) <= l.len(),
        forall|j: int| l.len() - trailing_ws(l) <= j < l.len() ==> is_ws(#[trigger] l[j]),
        trailing_ws(l) < l.len() ==> !is_ws(l[l.len() - trailing_ws(l) - 1]),
    decreases l.len(),
{
    if l.len() > 0 && is_ws(l.last()) {
        lemma_trailing_ws_bounds(l.drop_last());
        assert forall|j: int| l.len() - trailing_ws(l) <= j < l.len() implies is_ws(#[trigger] l[j]) by {
            if j < l.len() - 1 {
                assert(l.drop_last()[j] == l[j]);
            }
        }
        if trailing_ws(l) < l.len() {
            assert(l.drop_last()[l.len() - trailing_ws(l) - 1] == l[l.len() - trailing_ws(l) - 1]);
        }
    }
}

/// The number of leading white-space characters of `l`.
pub fn leading_ws_count(l: &Vec<char>) -> (n: usize)
    ensures
        n == leading_ws(l@),
        n <= l@.len(),
{
    let len = l.len();
    let mut i: usize = 0;
    while i < len && is_whitespace(l[i])
        invariant
            len == l@.len(),
            i <= len,
            forall|j: int| 0 <= j < i ==> is_ws(#[trigger] l@[j]),
        decreases len - i,
    {
        i = i + 1;
    }
    proof {
        lemma_ws_run(l@, 0, i as int);
    }
    i
}

/// Whether `l` holds nothing but white space.
pub fn is_blank_line(l: &Vec<char>) -> (b: bool)
    ensures
        b == is_blank(l@),
{
    let n = leading_ws_count(l);
    proof {
        lemma_blank_iff_leading(l@);
    }
    n == l.len()
}

/// `l` from index `start` on.
pub fn skip_chars(l: &Vec<char>, start: usize) -> (r: Vec<char>)
    requires
        start <= l@.len(),
    ensures
        r@ == l@.skip(start as int),
{
    let mut r: Vec<char> = Vec::new();
    let len = l.len();
    let mut i: usize = start;
    while i < len
        invariant
            len == l@.len(),
            start <= i <= len,
            r@ == l@.subrange(start as int, i as int),
        decreases len - i,
    {
        r.push(l[i]);
        proof {
            assert(l@.subrange(start as int, i + 1) =~= l@.subrange(start as int, i as int).push(l@[i as int]));
        }
        i = i + 1;
    }
    proof {
        assert(l@.subrange(start as int, len as int) =~= l@.skip(start as int));
    }
    r
}

/// `l` with its leading white space removed.
pub fn trim_start_chars(l: &Vec<char>) -> (r: Vec<char>)
    ensures
        r@ == trim_start(l@),
{
    let n = leading_ws_count(l);
    skip_chars(l, n)
}

/// `l` with its trailing white space removed.
pub fn trim_end_chars(l: &Vec<char>) -> (r: Vec<char>)
    ensures
        r@ == trim_end(l@),
{
    let mut r = l.clone();
    let ghost orig = l@;
    while r.len() > 0 && is_whitespace(r[r.len() - 1])
        invariant
            r@.len() <= orig.len(),
            r@ == orig.take(r@.len() as int),
            trailing_ws(orig) == (orig.len() - r@.len()) + trailing_ws(r@),
        decreases r@.len(),
    {
        let ghost before = r@;
        r.pop();
        proof {
            assert(r@ =~= before.drop_last());
            assert(r@ =~= orig.take(r@.len() as int));
        }
    }
    proof {
        assert(trailing_ws(r@) == 0);
    }
    r
}


/// The decimal digit `d`.
pub open spec fn digit_char(d: nat) -> char {
    if d == 0 { '0' } else if d == 1 { '1' } else if d == 2 { '2' } else if d == 3 { '3' }
    else if d == 4 { '4' } else if d == 5 { '5' } else if d == 6 { '6' } else if d == 7 { '7' }
    else if d == 8 { '8' } else { '9' }
}

/// `n` written in decimal, without leading zeros.
pub open spec fn decimal(n: nat) -> Seq<char>
    decreases n,
{
    if n < 10 {
        seq![digit_char(n)]
    } else {
        decimal(n / 10).push(digit_char(n % 10))
    }
}

/// The decimal digit `d` as a character.
pub fn digit(d: usize) -> (c: char)
    requires
        d < 10,
    ensures
        c == digit_char(d as nat),
{
    if d == 0 { '0' } else if d == 1 { '1' } else if d == 2 { '2' } else if d == 3 { '3' }
    else if d == 4 { '4' } else if d == 5 { '5' } else if d == 6 { '6' } else if d == 7 { '7' }
    else if d == 8 { '8' } else { '9' }
}

/// Appends `n` in decimal to `s`.
pub fn push_decimal(s: &mut String, n: usize)
    ensures
        final(s)@ == old(s)@ + decimal(n as nat),
    decreases n,
{
    if n >= 10 {
        push_decimal(s, n / 10);
    }
    s.push(digit(n % 10));
    proof {
        if n < 10 {
            assert(s@ =~= old(s)@ + decimal(n as nat));
        } else {
            assert(s@ =~= old(s)@ + decimal(n as nat));
        }
    }
}

/// `l` with white space removed at both ends.
pub fn trim_chars(l: &Vec<char>) -> (r: Vec<char>)
    ensures
        r@ == trim(l@),
{
    let e = trim_end_chars(l);
    trim_start_chars(&e)
}

/// Whether two strings hold the same characters.
pub fn str_eq(a: &str, b: &str) -> (eq: bool)
    ensures
        eq == (a@ == b@),
{
    let x = chars_of(a);
    let y = chars_of(b);
    chars_eq(&x, &y)
}

/// Whether two character vectors hold the same characters.
pub fn chars_eq(x: &Vec<char>, y: &Vec<char>) -> (eq: bool)
    ensures
        eq == (x@ == y@),
{
    if x.len() != y.len() {
        return false;
    }
    let n = x.len();
    let mut i: usize = 0;
    while i < n
        invariant
            n == x@.len(),
            n == y@.len(),
            i <= n,
            forall|j: int| 0 <= j < i ==> x@[j] == y@[j],
        decreases n - i,
    {
        if x[i] != y[i] {
            return false;
        }
        i = i + 1;
    }
    proof {
        assert(x@ =~= y@);
    }
    true
}

} // verus!
