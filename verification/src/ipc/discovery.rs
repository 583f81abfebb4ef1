//! Hub discovery: socket path resolution and the PID file format.
//!
//! The hub writes a PID file containing the socket path and its process ID.
//! Instruments read this file to discover the hub. The runtime directory is
//! `$XDG_RUNTIME_DIR/kazoo/` when that variable is set, otherwise
//! `/tmp/kazoo/`; the caller reads the environment and passes the
//! variable's value in.
use vstd::prelude::*;

use crate::text::{
    chars_of, decimal_digits, digits_value, is_digit, lemma_decimal_digits_numeral,
    parse_u32, parse_u32_spec, push_decimal, string_from_chars, string_push,
};

verus! {

/// Default socket filename.
pub open spec fn socket_name() -> Seq<char> {
    seq!['h', 'u', 'b', '.', 's', 'o', 'c', 'k']
}

/// PID filename.
pub open spec fn pid_name() -> Seq<char> {
    seq!['h', 'u', 'b', '.', 'p', 'i', 'd']
}

/// Subdirectory under the runtime directory.
pub open spec fn kazoo_dir() -> Seq<char> {
    seq!['k', 'a', 'z', 'o', 'o']
}

/// Runtime directory used when `XDG_RUNTIME_DIR` is not set.
pub open spec fn fallback_base() -> Seq<char> {
    seq!['/', 't', 'm', 'p']
}

/// `base` joined with the relative component `part`, as `Path::join` does
/// on Unix: a `'/'` goes between them unless `base` is empty or already
/// ends with one.
pub open spec fn path_join(base: Seq<char>, part: Seq<char>) -> Seq<char> {
    if base.len() == 0 {
        part
    } else if base.last() == '/' {
        base + part
    } else {
        base + seq!['/'] + part
    }
}

/// The runtime directory for the given value of `XDG_RUNTIME_DIR`.
pub open spec fn runtime_dir_spec(xdg: Option<Seq<char>>) -> Seq<char> {
    let base = match xdg {
        Some(dir) => dir,
        None => fallback_base(),
    };
    path_join(base, kazoo_dir())
}

/// The view of an optional string slice.
pub open spec fn opt_view(xdg: Option<&str>) -> Option<Seq<char>> {
    match xdg {
        Some(s) => Some(s@),
        None => None,
    }
}

/// Appends `part` to `path` following [`path_join`].
fn push_component(path: &mut String, part: &[char])
    ensures
        final(path)@ == path_join(old(path)@, part@),
{
    let cs = chars_of(path.as_str());
    if cs.len() > 0 && cs[cs.len() - 1] != '/' {
        string_push(path, '/');
    }
    let ghost before = path@;
    let mut i: usize = 0;
    while i < part.len()
        invariant
            i <= part@.len(),
            path@ == before + part@.take(i as int),
        decreases part@.len() - i,
    {
        string_push(path, part[i]);
        i = i + 1;
        assert(path@ =~= before + part@.take(i as int));
    }
    assert(part@.take(i as int) =~= part@);
    assert(path@ =~= path_join(old(path)@, part@));
}

/// The runtime directory for kazoo state files, given the value of
/// `XDG_RUNTIME_DIR` (`None` when it is not set).
pub fn runtime_dir(xdg: Option<&str>) -> (dir: String)
    ensures
        dir@ == runtime_dir_spec(opt_view(xdg)),
{
    let mut dir = match xdg {
        Some(x) => string_from_chars(chars_of(x).as_slice()),
        None => string_from_chars(['/', 't', 'm', 'p'].as_slice()),
    };
    push_component(&mut dir, ['k', 'a', 'z', 'o', 'o'].as_slice());
    dir
}

/// The default socket path of the hub, given the value of
/// `XDG_RUNTIME_DIR`.
pub fn default_socket_path(xdg: Option<&str>) -> (path: String)
    ensures
        path@ == path_join(runtime_dir_spec(opt_view(xdg)), socket_name()),
{
    let mut path = runtime_dir(xdg);
    push_component(&mut path, ['h', 'u', 'b', '.', 's', 'o', 'c', 'k'].as_slice());
    path
}

/// The PID file path, given the value of `XDG_RUNTIME_DIR`.
pub fn pid_file_path(xdg: Option<&str>) -> (path: String)
    ensures
        path@ == path_join(runtime_dir_spec(opt_view(xdg)), pid_name()),
{
    let mut path = runtime_dir(xdg);
    push_component(&mut path, ['h', 'u', 'b', '.', 'p', 'i', 'd'].as_slice());
    path
}

/// The runtime directory never ends with a separator, so joining a name to
/// it always inserts exactly one `'/'`.
pub proof fn lemma_paths_end_with_name(xdg: Option<Seq<char>>)
    ensures
        path_join(runtime_dir_spec(xdg), socket_name()) == runtime_dir_spec(xdg) + seq!['/']
            + socket_name(),
        path_join(runtime_dir_spec(xdg), pid_name()) == runtime_dir_spec(xdg) + seq!['/']
            + pid_name(),
{
    let base = match xdg {
        Some(dir) => dir,
        None => fallback_base(),
    };
    let dir = runtime_dir_spec(xdg);
    assert(dir.len() > 0 && dir.last() == 'o') by {
        if base.len() == 0 {
        } else if base.last() == '/' {
            assert((base + kazoo_dir()).last() == 'o');
        } else {
            assert((base + seq!['/'] + kazoo_dir()).last() == 'o');
        }
    }
}

// ---------------------------------------------------------------------------
// PID file contents
// ---------------------------------------------------------------------------

/// PID file contents: the socket path on the first line, the process ID in
/// decimal on the second.
pub open spec fn pid_file_text(socket_path: Seq<char>, pid: u32) -> Seq<char> {
    socket_path + seq!['\n'] + decimal_digits(pid as nat) + seq!['\n']
}

/// The contents the hub writes to its PID file.
pub fn pid_file_contents(socket_path: &str, pid: u32) -> (text: String)
    ensures
        text@ == pid_file_text(socket_path@, pid),
{
    let mut text = string_from_chars(chars_of(socket_path).as_slice());
    string_push(&mut text, '\n');
    push_decimal(&mut text, pid as u64);
    string_push(&mut text, '\n');
    text
}

/// Index of the first `'\n'` in `s` at or after `from`, or `s.len()`.
pub open spec fn newline_from(s: Seq<char>, from: int) -> int
    decreases s.len() - from,
{
    if from >= s.len() {
        s.len() as int
    } else if s[from] == '\n' {
        from
    } else {
        newline_from(s, from + 1)
    }
}

/// `newline_from` finds the first newline at or after `from`.
pub proof fn lemma_newline_from(s: Seq<char>, from: int)
    requires
        0 <= from <= s.len(),
    ensures
        from <= newline_from(s, from) <= s.len(),
        newline_from(s, from) < s.len() ==> s[newline_from(s, from)] == '\n',
        forall|i: int| from <= i < newline_from(s, from) ==> s[i] != '\n',
    decreases s.len() - from,
{
    if from < s.len() && s[from] != '\n' {
        lemma_newline_from(s, from + 1);
    }
}

/// The next line of `s` as `str::lines` yields it, with the rest of the
/// text after its line ending: a line ends at `'\n'`, and a `'\r'` just
/// before that `'\n'` is dropped. An empty text has no next line.
pub open spec fn next_line(s: Seq<char>) -> Option<(Seq<char>, Seq<char>)> {
    if s.len() == 0 {
        None
    } else {
        let e = newline_from(s, 0);
        if e < s.len() {
            let line = s.take(e);
            let line = if line.len() > 0 && line.last() == '\r' {
                line.drop_last()
            } else {
                line
            };
            Some((line, s.skip(e + 1)))
        } else {
            Some((s, Seq::empty()))
        }
    }
}

/// What a PID file says: the first line as the socket path and the second
/// line as the process ID, or `None` when a line is missing or the second
/// is not a `u32`.
pub open spec fn parse_pid_file_spec(s: Seq<char>) -> Option<(Seq<char>, u32)> {
    match next_line(s) {
        None => None,
        Some((first, rest)) => match next_line(rest) {
            None => None,
            Some((second, _)) => match parse_u32_spec(second) {
                Some(pid) => Some((first, pid)),
                None => None,
            },
        },
    }
}

/// Reads the next line of `cs[from..]`; returns the line's characters and
/// the index just past its line ending.
fn read_line(cs: &[char], from: usize) -> (r: Option<(Vec<char>, usize)>)
    requires
        from <= cs@.len(),
    ensures
        match next_line(cs@.skip(from as int)) {
            None => r is None,
            Some((line, rest)) => r matches Some((l, next)) && l@ == line && from <= next
                <= cs@.len() && cs@.skip(next as int) == rest,
        },
{
    let ghost s = cs@.skip(from as int);
    if from == cs.len() {
        return None;
    }
    proof {
        lemma_newline_from(s, 0);
    }
    let mut e: usize = from;
    while e < cs.len() && cs[e] != '\n'
        invariant
            from <= e <= cs@.len(),
            s == cs@.skip(from as int),
            e - from <= newline_from(s, 0),
            forall|i: int| 0 <= i < newline_from(s, 0) ==> s[i] != '\n',
            newline_from(s, 0) <= s.len(),
            newline_from(s, 0) < s.len() ==> s[newline_from(s, 0)] == '\n',
        decreases cs@.len() - e,
    {
        assert(s[e - from] == cs@[e as int]);
        e = e + 1;
    }
    if e < cs.len() {
        assert(s[e - from] == cs@[e as int]);
    }
    assert(e - from == newline_from(s, 0));
    let mut end: usize = e;
    if e < cs.len() && e > from && cs[e - 1] == '\r' {
        end = e - 1;
    }
    let mut line: Vec<char> = Vec::new();
    let mut i: usize = from;
    while i < end
        invariant
            from <= i <= end <= e <= cs@.len(),
            line@ == cs@.subrange(from as int, i as int),
        decreases end - i,
    {
        line.push(cs[i]);
        i = i + 1;
        assert(line@ =~= cs@.subrange(from as int, i as int));
    }
    let next: usize = if e < cs.len() { e + 1 } else { e };
    proof {
        let t = s.take(e - from);
        assert(t =~= cs@.subrange(from as int, e as int));
        if e < cs.len() {
            assert(cs@.skip(next as int) =~= s.skip(e - from + 1));
            if t.len() > 0 && t.last() == '\r' {
                assert(t.drop_last() =~= line@);
            } else {
                assert(t =~= line@);
            }
        } else {
            assert(s =~= line@);
            assert(cs@.skip(next as int) =~= Seq::<char>::empty());
        }
    }
    Some((line, next))
}

/// Parses PID file contents into `(socket_path, pid)`; `None` when the file
/// is malformed.
pub fn parse_pid_file(contents: &str) -> (r: Option<(String, u32)>)
    ensures
        match parse_pid_file_spec(contents@) {
            None => r is None,
            Some((path, pid)) => r matches Some((p, n)) && p@ == path && n == pid,
        },
{
    let cs = chars_of(contents);
    assert(cs@.skip(0) =~= cs@);
    match read_line(cs.as_slice(), 0) {
        None => None,
        Some((first, next)) => match read_line(cs.as_slice(), next) {
            None => None,
            Some((second, _)) => match parse_u32(second.as_slice()) {
                Some(pid) => Some((string_from_chars(first.as_slice()), pid)),
                None => None,
            },
        },
    }
}

/// Reading back a PID file gives the socket path and process ID it was
/// written with, as long as the path holds no line ending of its own.
pub proof fn lemma_pid_file_roundtrip(socket_path: Seq<char>, pid: u32)
    requires
        forall|i: int| 0 <= i < socket_path.len() ==> socket_path[i] != '\n',
        socket_path.len() > 0 ==> socket_path.last() != '\r',
    ensures
        parse_pid_file_spec(pid_file_text(socket_path, pid)) == Some((socket_path, pid)),
{
    let s = pid_file_text(socket_path, pid);
    let d = decimal_digits(pid as nat);
    let n = socket_path.len() as int;
    lemma_decimal_digits_numeral(pid as nat);
    lemma_newline_from(s, 0);
    assert(s[n] == '\n');
    assert forall|i: int| 0 <= i < n implies s[i] != '\n' by {
        assert(s[i] == socket_path[i]);
    }
    assert(newline_from(s, 0) == n);
    assert(s.take(n) =~= socket_path);
    let rest = s.skip(n + 1);
    assert(rest =~= d + seq!['\n']);
    let m = d.len() as int;
    lemma_newline_from(rest, 0);
    assert(rest[m] == '\n');
    assert forall|i: int| 0 <= i < m implies rest[i] != '\n' by {
        assert(rest[i] == d[i]);
        assert(is_digit(d[i]));
    }
    assert(newline_from(rest, 0) == m);
    assert(rest.take(m) =~= d);
    assert(d.last() != '\r') by {
        assert(is_digit(d[m - 1]));
    }
    assert(d[0] != '+') by {
        assert(is_digit(d[0]));
    }
    assert(digits_value(d) == pid);
}

} // verus!
