//! The recent-files history: the file format (one path per line), the
//! update made when a file is opened, and the names shown in the menu.

use vstd::prelude::*;
use crate::text::{push_char, push_str};

verus! {

/// How many files the history remembers.
pub const MAX_HISTORY: usize = 15;

/// `line` without one trailing carriage return, if it has one.
pub open spec fn strip_cr(line: Seq<char>) -> Seq<char> {
    if line.len() > 0 && line.last() == '\r' {
        line.drop_last()
    } else {
        line
    }
}

/// The list holding `line`, or the empty list when `line` is empty.
pub open spec fn nonempty_line(line: Seq<char>) -> Seq<Seq<char>> {
    if line.len() == 0 {
        Seq::empty()
    } else {
        seq![line]
    }
}

/// The lines of `rest`, given that `cur` has been read since the last
/// line feed: lines end at `\n` or `\r\n` (the last one may also end at
/// the end of the text), and empty lines are skipped.
pub open spec fn lines_from(rest: Seq<char>, cur: Seq<char>) -> Seq<Seq<char>>
    decreases rest.len(),
{
    if rest.len() == 0 {
        nonempty_line(cur)
    } else if rest[0] == '\n' {
        nonempty_line(strip_cr(cur)) + lines_from(rest.drop_first(), Seq::empty())
    } else {
        lines_from(rest.drop_first(), cur.push(rest[0]))
    }
}

/// The paths that a history file holds: its non-empty lines, in order.
pub open spec fn history_lines(content: Seq<char>) -> Seq<Seq<char>> {
    lines_from(content, Seq::empty())
}

/// The lines joined with line feeds between them.
pub open spec fn joined_lines(lines: Seq<Seq<char>>) -> Seq<char>
    decreases lines.len(),
{
    if lines.len() == 0 {
        Seq::empty()
    } else if lines.len() == 1 {
        lines[0]
    } else {
        joined_lines(lines.drop_last()) + seq!['\n'] + lines.last()
    }
}

/// `lines` without the entries equal to `path`, in their order.
pub open spec fn without(lines: Seq<Seq<char>>, path: Seq<char>) -> Seq<Seq<char>>
    decreases lines.len(),
{
    if lines.len() == 0 {
        lines
    } else if lines.last() == path {
        without(lines.drop_last(), path)
    } else {
        without(lines.drop_last(), path).push(lines.last())
    }
}

/// The history after `path` was opened: `path` first, then the other
/// entries in their order, at most `MAX_HISTORY` in all.
pub open spec fn recorded(history: Seq<Seq<char>>, path: Seq<char>) -> Seq<Seq<char>> {
    let full = seq![path] + without(history, path);
    if full.len() > MAX_HISTORY {
        full.take(MAX_HISTORY as int)
    } else {
        full
    }
}

/// The views of a list of strings.
pub open spec fn views(v: Seq<String>) -> Seq<Seq<char>> {
    v.map_values(|s: String| s@)
}

/// Reads the entries of a history file.
pub fn parse_history(content: &str) -> (history: Vec<String>)
    ensures
        views(history@) == history_lines(content@),
{
    let n = content.unicode_len();
    let mut out: Vec<String> = Vec::new();
    let mut cur = String::new();
    let mut i: usize = 0;
    assert(content@.subrange(0, n as int) =~= content@);
    while i < n
        invariant
            n == content@.len(),
            i <= n,
            views(out@) + lines_from(content@.subrange(i as int, n as int), cur@)
                == history_lines(content@),
        decreases n - i,
    {
        let c = content.get_char(i);
        let ghost rest = content@.subrange(i as int, n as int);
        assert(rest.drop_first() =~= content@.subrange(i + 1, n as int));
        assert(rest[0] == c);
        if c == '\n' {
            let ghost line = strip_cr(cur@);
            let k = cur.unicode_len();
            let line_str: &str = cur.as_str();
            let stripped: &str = if k > 0 && line_str.get_char(k - 1) == '\r' {
                line_str.substring_char(0, k - 1)
            } else {
                line_str
            };
            assert(stripped@ =~= line);
            let ghost before = views(out@);
            if stripped.unicode_len() > 0 {
                out.push(stripped.to_owned());
                assert(views(out@) =~= before + nonempty_line(line));
            } else {
                assert(views(out@) =~= before + nonempty_line(line));
            }
            cur = String::new();
            assert(cur@ =~= Seq::<char>::empty());
        } else {
            push_char(&mut cur, c);
        }
        i = i + 1;
    }
    let ghost before = views(out@);
    let ghost last = cur@;
    assert(content@.subrange(n as int, n as int) =~= Seq::<char>::empty());
    if cur.unicode_len() > 0 {
        out.push(cur);
    }
    assert(views(out@) =~= before + nonempty_line(last));
    out
}

/// Writes the entries of a history file: the paths joined by line feeds.
pub fn serialize_history(history: &Vec<String>) -> (content: String)
    ensures
        content@ == joined_lines(views(history@)),
{
    let mut s = String::new();
    let n = history.len();
    let mut i: usize = 0;
    while i < n
        invariant
            n == history@.len(),
            i <= n,
            s@ == joined_lines(views(history@).take(i as int)),
        decreases n - i,
    {
        let ghost prefix = views(history@).take(i + 1);
        assert(prefix.drop_last() =~= views(history@).take(i as int));
        if i > 0 {
            push_char(&mut s, '\n');
        }
        push_str(&mut s, history[i].as_str());
        proof {
            if i == 0 {
                assert(s@ =~= prefix[0]);
            } else {
                assert(s@ =~= joined_lines(prefix.drop_last()) + seq!['\n'] + prefix.last());
            }
        }
        i = i + 1;
    }
    assert(views(history@).take(n as int) =~= views(history@));
    s
}

/// The history after `path` was opened: `path` moves to the front (or is
/// added there), and only the `MAX_HISTORY` most recent entries stay.
pub fn record_history(history: &Vec<String>, path: &str) -> (updated: Vec<String>)
    ensures
        views(updated@) == recorded(views(history@), path@),
{
    let p: String = path.to_owned();
    let n = history.len();
    let mut rest: Vec<String> = Vec::new();
    let mut i: usize = 0;
    while i < n
        invariant
            n == history@.len(),
            i <= n,
            p@ == path@,
            views(rest@) == without(views(history@).take(i as int), path@),
        decreases n - i,
    {
        let ghost prefix = views(history@).take(i + 1);
        assert(prefix.drop_last() =~= views(history@).take(i as int));
        assert(prefix.last() == history@[i as int]@);
        let ghost before = views(rest@);
        if !(history[i] == p) {
            rest.push(history[i].clone());
            assert(views(rest@) =~= before.push(history@[i as int]@));
        }
        i = i + 1;
    }
    assert(views(history@).take(n as int) =~= views(history@));
    let mut updated: Vec<String> = Vec::new();
    updated.push(p);
    let m = rest.len();
    let mut j: usize = 0;
    while j < m
        invariant
            m == rest@.len(),
            j <= m,
            views(updated@) == seq![path@] + views(rest@).take(j as int),
        decreases m - j,
    {
        let ghost before = views(updated@);
        updated.push(rest[j].clone());
        assert(views(rest@).take(j + 1) =~= views(rest@).take(j as int).push(rest@[j as int]@));
        assert(views(updated@) =~= before.push(rest@[j as int]@));
        j = j + 1;
    }
    assert(views(rest@).take(m as int) =~= views(rest@));
    updated.truncate(MAX_HISTORY);
    assert(views(updated@) =~= recorded(views(history@), path@));
    updated
}

/// The list holding a path component, or nothing for an empty component
/// (repeated or trailing `/`) and for `.`, which paths ignore.
pub open spec fn component(part: Seq<char>) -> Seq<Seq<char>> {
    if part.len() == 0 || part == seq!['.'] {
        Seq::empty()
    } else {
        seq![part]
    }
}

/// The components of `rest` after `cur` was read since the last `/`.
pub open spec fn components_from(rest: Seq<char>, cur: Seq<char>) -> Seq<Seq<char>>
    decreases rest.len(),
{
    if rest.len() == 0 {
        component(cur)
    } else if rest[0] == '/' {
        component(cur) + components_from(rest.drop_first(), Seq::empty())
    } else {
        components_from(rest.drop_first(), cur.push(rest[0]))
    }
}

/// The file name of a Unix path, as `std::path::Path::file_name` defines
/// it: the last component, unless there is none or it is `..`.
pub open spec fn path_file_name(path: Seq<char>) -> Option<Seq<char>> {
    let parts = components_from(path, Seq::empty());
    if parts.len() == 0 || parts.last() == seq!['.', '.'] {
        None
    } else {
        Some(parts.last())
    }
}

fn is_dot(part: &String) -> (b: bool)
    ensures
        b == (part@ == seq!['.']),
{
    if part.unicode_len() == 1 && part.as_str().get_char(0) == '.' {
        assert(part@ =~= seq!['.']);
        true
    } else {
        false
    }
}

fn is_dot_dot(part: &String) -> (b: bool)
    ensures
        b == (part@ == seq!['.', '.']),
{
    if part.unicode_len() == 2 && part.as_str().get_char(0) == '.' && part.as_str().get_char(1) == '.' {
        assert(part@ =~= seq!['.', '.']);
        true
    } else {
        false
    }
}

/// The file name of a path.
pub fn file_name(path: &str) -> (name: Option<String>)
    ensures
        name matches Some(n) ==> path_file_name(path@) == Some(n@),
        name is None ==> path_file_name(path@) is None,
{
    let n = path.unicode_len();
    let mut parts: Vec<String> = Vec::new();
    let mut cur = String::new();
    let mut i: usize = 0;
    assert(path@.subrange(0, n as int) =~= path@);
    while i < n
        invariant
            n == path@.len(),
            i <= n,
            views(parts@) + components_from(path@.subrange(i as int, n as int), cur@)
                == components_from(path@, Seq::empty()),
        decreases n - i,
    {
        let c = path.get_char(i);
        let ghost rest = path@.subrange(i as int, n as int);
        assert(rest.drop_first() =~= path@.subrange(i + 1, n as int));
        assert(rest[0] == c);
        if c == '/' {
            let ghost before = views(parts@);
            let ghost part = cur@;
            let mut done = String::new();
            std::mem::swap(&mut done, &mut cur);
            if done.unicode_len() > 0 && !is_dot(&done) {
                parts.push(done);
            }
            assert(views(parts@) =~= before + component(part));
            assert(cur@ =~= Seq::<char>::empty());
        } else {
            push_char(&mut cur, c);
        }
        i = i + 1;
    }
    let ghost before = views(parts@);
    let ghost last = cur@;
    assert(path@.subrange(n as int, n as int) =~= Seq::<char>::empty());
    if cur.unicode_len() > 0 && !is_dot(&cur) {
        parts.push(cur);
    }
    assert(views(parts@) =~= before + component(last));
    match parts.pop() {
        Some(l) => {
            if is_dot_dot(&l) {
                None
            } else {
                Some(l)
            }
        },
        None => None,
    }
}

/// The name shown for a recent file: the file name of its path, or the
/// empty text when the path has none.
pub fn recent_file_name(path: &str) -> (name: String)
    ensures
        name@ == (match path_file_name(path@) {
            Some(n) => n,
            None => Seq::<char>::empty(),
        }),
{
    match file_name(path) {
        Some(n) => n,
        None => String::new(),
    }
}

/// No entry occurs twice.
pub open spec fn no_duplicates(lines: Seq<Seq<char>>) -> bool {
    forall|i: int, j: int| 0 <= i < j < lines.len() ==> lines[i] != lines[j]
}

/// A path that the history file can hold as one line: not empty, without
/// a line feed, and not ending in a carriage return.
pub open spec fn storable_path(line: Seq<char>) -> bool {
    &&& line.len() > 0
    &&& !line.contains('\n')
    &&& line.last() != '\r'
}

proof fn lemma_without_members(lines: Seq<Seq<char>>, path: Seq<char>)
    ensures
        without(lines, path).len() <= lines.len(),
        forall|i: int|
            0 <= i < without(lines, path).len() ==> #[trigger] without(lines, path)[i] != path
                && lines.contains(without(lines, path)[i]),
    decreases lines.len(),
{
    if lines.len() > 0 {
        lemma_without_members(lines.drop_last(), path);
        let w = without(lines, path);
        let w0 = without(lines.drop_last(), path);
        assert forall|i: int| 0 <= i < w.len() implies #[trigger] w[i] != path && lines.contains(w[i]) by {
            if i < w0.len() {
                let k = choose|k: int| 0 <= k < lines.drop_last().len() && lines.drop_last()[k] == w0[i];
                assert(lines[k] == w[i]);
            } else {
                assert(lines[lines.len() - 1] == w[i]);
            }
        }
    }
}

proof fn lemma_without_no_duplicates(lines: Seq<Seq<char>>, path: Seq<char>)
    requires
        no_duplicates(lines),
    ensures
        no_duplicates(without(lines, path)),
    decreases lines.len(),
{
    if lines.len() > 0 {
        let init = lines.drop_last();
        assert(no_duplicates(init)) by {
            assert forall|i: int, j: int| 0 <= i < j < init.len() implies init[i] != init[j] by {
                assert(init[i] == lines[i] && init[j] == lines[j]);
            }
        }
        lemma_without_no_duplicates(init, path);
        lemma_without_members(init, path);
        let w0 = without(init, path);
        if lines.last() != path {
            let w = w0.push(lines.last());
            assert forall|i: int, j: int| 0 <= i < j < w.len() implies w[i] != w[j] by {
                if j == w.len() - 1 {
                    assert(w0[i] != path && init.contains(w0[i]));
                    let k = choose|k: int| 0 <= k < init.len() && init[k] == w0[i];
                    assert(lines[k] != lines[lines.len() - 1]);
                }
            }
        }
    }
}

/// Opening a file puts it first in the history, keeps it there once only,
/// keeps no more than `MAX_HISTORY` entries, adds nothing but the opened
/// path, and keeps a history without duplicates free of them.
pub proof fn lemma_recorded_history(history: Seq<Seq<char>>, path: Seq<char>)
    ensures
        recorded(history, path).len() >= 1,
        recorded(history, path).len() <= MAX_HISTORY,
        recorded(history, path)[0] == path,
        forall|i: int|
            1 <= i < recorded(history, path).len() ==> #[trigger] recorded(history, path)[i]
                != path && history.contains(recorded(history, path)[i]),
        recorded(history, path).drop_first() =~= without(history, path).take(
            recorded(history, path).len() - 1,
        ),
        no_duplicates(history) ==> no_duplicates(recorded(history, path)),
{
    lemma_without_members(history, path);
    let w = without(history, path);
    let r = recorded(history, path);
    assert forall|i: int| 1 <= i < r.len() implies #[trigger] r[i] != path && history.contains(r[i]) by {
        assert(r[i] == w[i - 1]);
    }
    if no_duplicates(history) {
        lemma_without_no_duplicates(history, path);
        assert forall|i: int, j: int| 0 <= i < j < r.len() implies r[i] != r[j] by {
            assert(r[j] == w[j - 1]);
            if i > 0 {
                assert(r[i] == w[i - 1]);
            }
        }
    }
}

proof fn lemma_lines_without_feed(a: Seq<char>, cur: Seq<char>)
    requires
        !a.contains('\n'),
    ensures
        lines_from(a, cur) == nonempty_line(cur + a),
        lines_from(a + seq!['\n'], cur) == nonempty_line(strip_cr(cur + a)),
    decreases a.len(),
{
    if a.len() == 0 {
        assert(cur + a =~= cur);
        assert(a + seq!['\n'] =~= seq!['\n']);
        assert(seq!['\n'].drop_first() =~= Seq::<char>::empty());
        assert(lines_from(Seq::<char>::empty(), Seq::<char>::empty()) =~= Seq::<Seq<char>>::empty());
        assert(lines_from(seq!['\n'], cur) == nonempty_line(strip_cr(cur)) + lines_from(
            Seq::<char>::empty(),
            Seq::<char>::empty(),
        ));
        assert(nonempty_line(strip_cr(cur)) + Seq::<Seq<char>>::empty()
            =~= nonempty_line(strip_cr(cur)));
    } else {
        assert(!a.drop_first().contains('\n')) by {
            if a.drop_first().contains('\n') {
                let k = choose|k: int| 0 <= k < a.drop_first().len() && a.drop_first()[k] == '\n';
                assert(a[k + 1] == '\n');
            }
        }
        assert(a[0] != '\n');
        lemma_lines_without_feed(a.drop_first(), cur.push(a[0]));
        assert(cur.push(a[0]) + a.drop_first() =~= cur + a);
        assert((a + seq!['\n']).drop_first() =~= a.drop_first() + seq!['\n']);
        assert((a + seq!['\n'])[0] == a[0]);
    }
}

proof fn lemma_lines_split(s: Seq<char>, t: Seq<char>, cur: Seq<char>)
    ensures
        lines_from(s + seq!['\n'] + t, cur) == lines_from(s + seq!['\n'], cur) + lines_from(
            t,
            Seq::empty(),
        ),
    decreases s.len(),
{
    if s.len() == 0 {
        assert(s + seq!['\n'] + t =~= seq!['\n'] + t);
        assert((seq!['\n'] + t).drop_first() =~= t);
        assert((seq!['\n'] + t)[0] == '\n');
        assert(s + seq!['\n'] =~= seq!['\n']);
        assert(seq!['\n'].drop_first() =~= Seq::<char>::empty());
        assert(lines_from(Seq::<char>::empty(), Seq::<char>::empty()) =~= Seq::<Seq<char>>::empty());
        assert(lines_from(seq!['\n'], cur) == nonempty_line(strip_cr(cur)) + lines_from(
            Seq::<char>::empty(),
            Seq::<char>::empty(),
        ));
        assert(nonempty_line(strip_cr(cur)) + Seq::<Seq<char>>::empty()
            =~= nonempty_line(strip_cr(cur)));
        assert(lines_from(seq!['\n'] + t, cur) == nonempty_line(strip_cr(cur)) + lines_from(
            t,
            Seq::<char>::empty(),
        ));
    } else {
        let rest = s.drop_first();
        assert((s + seq!['\n'] + t).drop_first() =~= rest + seq!['\n'] + t);
        assert((s + seq!['\n']).drop_first() =~= rest + seq!['\n']);
        assert((s + seq!['\n'] + t)[0] == s[0]);
        assert((s + seq!['\n'])[0] == s[0]);
        if s[0] == '\n' {
            lemma_lines_split(rest, t, Seq::empty());
            let x = nonempty_line(strip_cr(cur));
            assert(x + (lines_from(rest + seq!['\n'], Seq::empty()) + lines_from(t, Seq::empty()))
                =~= (x + lines_from(rest + seq!['\n'], Seq::empty())) + lines_from(t, Seq::empty()));
        } else {
            lemma_lines_split(rest, t, cur.push(s[0]));
        }
    }
}

proof fn lemma_closed_round_trip(lines: Seq<Seq<char>>)
    requires
        lines.len() >= 1,
        forall|i: int| 0 <= i < lines.len() ==> storable_path(#[trigger] lines[i]),
    ensures
        lines_from(joined_lines(lines) + seq!['\n'], Seq::empty()) == lines,
    decreases lines.len(),
{
    let last = lines.last();
    assert(storable_path(lines[lines.len() - 1]));
    lemma_lines_without_feed(last, Seq::empty());
    assert(Seq::<char>::empty() + last =~= last);
    if lines.len() == 1 {
        assert(seq![last] =~= lines);
    } else {
        let init = lines.drop_last();
        assert forall|i: int| 0 <= i < init.len() implies storable_path(#[trigger] init[i]) by {
            assert(init[i] == lines[i]);
        }
        lemma_closed_round_trip(init);
        let j = joined_lines(init);
        assert(joined_lines(lines) + seq!['\n'] =~= j + seq!['\n'] + (last + seq!['\n']));
        lemma_lines_split(j, last + seq!['\n'], Seq::empty());
        assert(init + seq![last] =~= lines);
    }
}

/// A list of paths that the history file can hold: no entry is empty or
/// holds a line feed, and only the last entry may end in a carriage return
/// (a lone carriage return at the very end of the file stays part of the
/// last line).
pub open spec fn loadable_history(lines: Seq<Seq<char>>) -> bool {
    &&& forall|i: int| 0 <= i < lines.len() ==> #[trigger] lines[i].len() > 0
    &&& forall|i: int| 0 <= i < lines.len() ==> !(#[trigger] lines[i]).contains('\n')
    &&& forall|i: int| 0 <= i < lines.len() - 1 ==> (#[trigger] lines[i]).last() != '\r'
}

/// Writing a history and reading it back gives the same entries, for
/// entries that the file format can hold.
pub proof fn lemma_history_round_trip(lines: Seq<Seq<char>>)
    requires
        loadable_history(lines),
    ensures
        history_lines(joined_lines(lines)) == lines,
{
    if lines.len() == 0 {
        assert(joined_lines(lines) =~= Seq::<char>::empty());
        assert(lines =~= Seq::<Seq<char>>::empty());
    } else {
        let last = lines.last();
        assert(lines[lines.len() - 1].len() > 0 && !lines[lines.len() - 1].contains('\n'));
        lemma_lines_without_feed(last, Seq::empty());
        assert(Seq::<char>::empty() + last =~= last);
        if lines.len() == 1 {
            assert(seq![last] =~= lines);
        } else {
            let init = lines.drop_last();
            assert forall|i: int| 0 <= i < init.len() implies storable_path(#[trigger] init[i]) by {
                assert(init[i] == lines[i]);
                assert(lines[i].len() > 0 && !lines[i].contains('\n') && lines[i].last() != '\r');
            }
            lemma_closed_round_trip(init);
            let j = joined_lines(init);
            lemma_lines_split(j, last, Seq::empty());
            assert(init + seq![last] =~= lines);
        }
    }
}

proof fn lemma_without_storable(lines: Seq<Seq<char>>, path: Seq<char>)
    requires
        forall|i: int| 0 <= i < lines.len() ==> storable_path(#[trigger] lines[i]),
    ensures
        forall|i: int|
            0 <= i < without(lines, path).len() ==> storable_path(#[trigger] without(lines, path)[i]),
{
    lemma_without_members(lines, path);
    let w = without(lines, path);
    assert forall|i: int| 0 <= i < w.len() implies storable_path(#[trigger] w[i]) by {
        assert(lines.contains(w[i]));
        let k = choose|k: int| 0 <= k < lines.len() && lines[k] == w[i];
        assert(storable_path(lines[k]));
    }
}

proof fn lemma_recorded_loadable(history: Seq<Seq<char>>, path: Seq<char>)
    requires
        storable_path(path),
        loadable_history(history),
    ensures
        loadable_history(recorded(history, path)),
{
    let w = without(history, path);
    if history.len() > 0 {
        let init = history.drop_last();
        let last = history.last();
        assert forall|i: int| 0 <= i < init.len() implies storable_path(#[trigger] init[i]) by {
            assert(init[i] == history[i]);
            assert(history[i].len() > 0 && !history[i].contains('\n') && history[i].last() != '\r');
        }
        lemma_without_storable(init, path);
        let w0 = without(init, path);
        assert(history[history.len() - 1] == last);
        assert(last.len() > 0 && !last.contains('\n'));
        assert(loadable_history(w)) by {
            if last == path {
                assert(w == w0);
            } else {
                assert(w == w0.push(last));
                assert forall|i: int| 0 <= i < w.len() implies #[trigger] w[i].len() > 0 && !w[i].contains('\n') by {
                    if i < w0.len() {
                        assert(storable_path(w0[i]));
                    }
                }
                assert forall|i: int| 0 <= i < w.len() - 1 implies (#[trigger] w[i]).last() != '\r' by {
                    assert(storable_path(w0[i]));
                }
            }
            if last == path {
                assert forall|i: int| 0 <= i < w.len() implies #[trigger] w[i].len() > 0 && !w[i].contains('\n') && w[i].last() != '\r' by {
                    assert(storable_path(w0[i]));
                }
            }
        }
    } else {
        assert(w =~= history);
    }
    let full = seq![path] + w;
    assert(loadable_history(full)) by {
        assert forall|i: int| 0 <= i < full.len() implies #[trigger] full[i].len() > 0 && !full[i].contains('\n') by {
            if i > 0 {
                assert(full[i] == w[i - 1]);
            }
        }
        assert forall|i: int| 0 <= i < full.len() - 1 implies (#[trigger] full[i]).last() != '\r' by {
            if i > 0 {
                assert(full[i] == w[i - 1]);
            }
        }
    }
    let r = recorded(history, path);
    assert forall|i: int| 0 <= i < r.len() implies #[trigger] r[i] == full[i] by {}
}

/// Opening a file and writing the history out, then reading the file
/// back, gives the updated history, when the paths are ones the file
/// format can hold.
pub proof fn lemma_saved_history_reads_back(history: Seq<Seq<char>>, path: Seq<char>)
    requires
        storable_path(path),
        loadable_history(history),
    ensures
        history_lines(joined_lines(recorded(history, path))) == recorded(history, path),
{
    lemma_recorded_loadable(history, path);
    lemma_history_round_trip(recorded(history, path));
}

proof fn lemma_without_absent(lines: Seq<Seq<char>>, path: Seq<char>)
    requires
        forall|i: int| 0 <= i < lines.len() ==> #[trigger] lines[i] != path,
    ensures
        without(lines, path) == lines,
    decreases lines.len(),
{
    if lines.len() > 0 {
        let init = lines.drop_last();
        assert forall|i: int| 0 <= i < init.len() implies #[trigger] init[i] != path by {
            assert(init[i] == lines[i]);
        }
        lemma_without_absent(init, path);
        assert(lines.last() == lines[lines.len() - 1]);
        assert(init.push(lines.last()) =~= lines);
    } else {
        assert(lines =~= Seq::<Seq<char>>::empty());
    }
}

proof fn lemma_without_front(rest: Seq<Seq<char>>, path: Seq<char>)
    ensures
        without(seq![path] + rest, path) == without(rest, path),
    decreases rest.len(),
{
    let full = seq![path] + rest;
    if rest.len() == 0 {
        assert(full.drop_last() =~= Seq::<Seq<char>>::empty());
        assert(full.last() == path);
        assert(without(Seq::<Seq<char>>::empty(), path) == Seq::<Seq<char>>::empty());
        assert(without(full, path) == without(full.drop_last(), path));
    } else {
        assert(full.drop_last() =~= seq![path] + rest.drop_last());
        assert(full.last() == rest.last());
        lemma_without_front(rest.drop_last(), path);
        if rest.last() == path {
            assert(without(full, path) == without(full.drop_last(), path));
        } else {
            assert(without(full, path) == without(full.drop_last(), path).push(rest.last()));
        }
    }
}

/// Opening the same file a second time leaves the history as opening it
/// once does, and writing it out and reading it back gives that history.
pub proof fn lemma_record_history_idempotent(history: Seq<Seq<char>>, path: Seq<char>)
    ensures
        recorded(recorded(history, path), path) == recorded(history, path),
        storable_path(path) && loadable_history(history) ==> history_lines(
            joined_lines(recorded(recorded(history, path), path)),
        ) == recorded(history, path),
{
    lemma_recorded_history(history, path);
    let r = recorded(history, path);
    let tail = r.drop_first();
    assert(r =~= seq![path] + tail);
    assert forall|i: int| 0 <= i < tail.len() implies #[trigger] tail[i] != path by {
        assert(tail[i] == r[i + 1]);
    }
    lemma_without_front(tail, path);
    lemma_without_absent(tail, path);
    assert(recorded(r, path) =~= r);
    if storable_path(path) && loadable_history(history) {
        lemma_saved_history_reads_back(history, path);
    }
}

/// Saving a file to the history twice leaves the history file reading back
/// as saving it once does: load, record and write, then load, record and
/// write again, gives what the first write gave.
pub proof fn lemma_save_twice_same_as_once(loaded: Seq<Seq<char>>, path: Seq<char>)
    requires
        storable_path(path),
        loadable_history(loaded),
    ensures
        ({
            let once = history_lines(joined_lines(recorded(loaded, path)));
            let twice = history_lines(joined_lines(recorded(once, path)));
            twice == once
        }),
{
    lemma_saved_history_reads_back(loaded, path);
    lemma_record_history_idempotent(loaded, path);
}

proof fn lemma_without_removes_one(lines: Seq<Seq<char>>, path: Seq<char>, k: int)
    requires
        no_duplicates(lines),
        0 <= k < lines.len(),
        lines[k] == path,
    ensures
        without(lines, path) == lines.remove(k),
    decreases lines.len(),
{
    let init = lines.drop_last();
    assert(no_duplicates(init)) by {
        assert forall|i: int, j: int| 0 <= i < j < init.len() implies init[i] != init[j] by {
            assert(init[i] == lines[i] && init[j] == lines[j]);
        }
    }
    if k == lines.len() - 1 {
        assert forall|i: int| 0 <= i < init.len() implies #[trigger] init[i] != path by {
            assert(init[i] == lines[i]);
            assert(lines[i] != lines[k]);
        }
        lemma_without_absent(init, path);
        assert(lines.last() == path);
        assert(lines.remove(k) =~= init);
    } else {
        assert(lines.last() == lines[lines.len() - 1]);
        assert(lines[k] != lines[lines.len() - 1]);
        lemma_without_removes_one(init, path, k);
        assert(init.remove(k).push(lines.last()) =~= lines.remove(k));
    }
}

/// What opening a file does to the history, in terms of the history
/// alone: a path not yet in it is put in front of all entries; a path in
/// it (once) is moved from where it stands to the front; either way only
/// the first `MAX_HISTORY` entries of that list stay, so no entry is lost
/// while there is room for it.
pub proof fn lemma_recorded_keeps_all_it_can(history: Seq<Seq<char>>, path: Seq<char>)
    ensures
        !history.contains(path) ==> recorded(history, path) == (seq![path] + history).take(
            if history.len() + 1 <= MAX_HISTORY { (history.len() + 1) as int } else { MAX_HISTORY as int },
        ),
        !history.contains(path) ==> recorded(history, path).len() == (if history.len() + 1
            <= MAX_HISTORY {
            history.len() + 1
        } else {
            MAX_HISTORY as nat
        }),
        forall|k: int|
            0 <= k < history.len() && history[k] == path && no_duplicates(history) ==> recorded(
                history,
                path,
            ) == (seq![path] + history.remove(k)).take(
                if history.len() <= MAX_HISTORY { history.len() as int } else { MAX_HISTORY as int },
            ) && recorded(history, path).len() == (if history.len() <= MAX_HISTORY {
                history.len()
            } else {
                MAX_HISTORY as nat
            }),
{
    if !history.contains(path) {
        assert forall|i: int| 0 <= i < history.len() implies #[trigger] history[i] != path by {
            if history[i] == path {
                assert(history.contains(path));
            }
        }
        lemma_without_absent(history, path);
        let full = seq![path] + history;
        if full.len() <= MAX_HISTORY {
            assert(full.take(full.len() as int) =~= full);
        }
    }
    assert forall|k: int|
        0 <= k < history.len() && history[k] == path && no_duplicates(history) implies recorded(
            history,
            path,
        ) == (seq![path] + history.remove(k)).take(
            if history.len() <= MAX_HISTORY { history.len() as int } else { MAX_HISTORY as int },
        ) && recorded(history, path).len() == (if history.len() <= MAX_HISTORY {
            history.len()
        } else {
            MAX_HISTORY as nat
        }) by {
        lemma_without_removes_one(history, path, k);
        let full = seq![path] + history.remove(k);
        if full.len() <= MAX_HISTORY {
            assert(full.take(full.len() as int) =~= full);
        }
    }
}

} // verus!
