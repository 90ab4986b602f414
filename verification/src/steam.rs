//! Steam library folders: reading `libraryfolders.vdf`.

use vstd::prelude::*;
use crate::android_geode::{push_unique, push_unique_spec};
use crate::order::strs;
use crate::paths::{join_path, join_spec};
use crate::text::opt_view;
use crate::paths::lemma_strs_push;
use crate::text::{
    chars_of, copy_range, has_prefix, is_ws, is_ws_exec, lemma_ws_prefix_char, split_chars,
    split_on, starts_with_str, string_from_chars, trim, trim_chars, trim_start, trim_start_char,
    trim_start_char_exec, ws_prefix_len,
};

verus! {

/// The text of a VDF value with its escapes resolved: `\\`, `\n`, `\t`, `\r`
/// and `\"` stand for one character; another escaped character keeps its
/// backslash; a final lone backslash stays.
pub open spec fn unescape_spec(s: Seq<char>) -> Seq<char>
    decreases s.len(),
{
    if s.len() == 0 {
        s
    } else if s[0] == '\\' {
        if s.len() == 1 {
            seq!['\\']
        } else {
            let c = s[1];
            let head = if c == '\\' {
                seq!['\\']
            } else if c == 'n' {
                seq!['\n']
            } else if c == 't' {
                seq!['\t']
            } else if c == 'r' {
                seq!['\r']
            } else if c == '"' {
                seq!['"']
            } else {
                seq!['\\', c]
            };
            head + unescape_spec(s.subrange(2, s.len() as int))
        }
    } else {
        seq![s[0]] + unescape_spec(s.drop_first())
    }
}

/// Resolves the escapes of a VDF value.
pub fn unescape_vdf_path(value: &str) -> (out: String)
    ensures
        out@ == unescape_spec(value@),
{
    let v = chars_of(value);
    let mut out: Vec<char> = Vec::new();
    let mut i: usize = 0;
    proof {
        assert(v@.subrange(0, v@.len() as int) =~= v@);
    }
    while i < v.len()
        invariant
            i <= v.len(),
            v@ == value@,
            out@ + unescape_spec(v@.subrange(i as int, v@.len() as int)) == unescape_spec(value@),
        decreases v.len() - i,
    {
        let ghost rest = v@.subrange(i as int, v@.len() as int);
        let ch = v[i];
        if ch == '\\' {
            if i + 1 < v.len() {
                let c = v[i + 1];
                proof {
                    assert(rest.subrange(2, rest.len() as int) =~= v@.subrange(i + 2, v@.len() as int));
                }
                let ghost before = out@;
                if c == '\\' {
                    out.push('\\');
                } else if c == 'n' {
                    out.push('\n');
                } else if c == 't' {
                    out.push('\t');
                } else if c == 'r' {
                    out.push('\r');
                } else if c == '"' {
                    out.push('"');
                } else {
                    out.push('\\');
                    out.push(c);
                }
                proof {
                    let head = if c == '\\' {
                        seq!['\\']
                    } else if c == 'n' {
                        seq!['\n']
                    } else if c == 't' {
                        seq!['\t']
                    } else if c == 'r' {
                        seq!['\r']
                    } else if c == '"' {
                        seq!['"']
                    } else {
                        seq!['\\', c]
                    };
                    assert(out@ =~= before + head);
                    assert(unescape_spec(rest) == head + unescape_spec(v@.subrange(i + 2, v@.len() as int)));
                    assert(before + unescape_spec(rest) =~= out@ + unescape_spec(v@.subrange(i + 2, v@.len() as int)));
                }
                i = i + 2;
            } else {
                let ghost before = out@;
                out.push('\\');
                proof {
                    assert(rest =~= seq!['\\']);
                    assert(v@.subrange(i + 1, v@.len() as int) =~= Seq::<char>::empty());
                    assert(before + unescape_spec(rest) =~= out@ + unescape_spec(v@.subrange(i + 1, v@.len() as int)));
                }
                i = i + 1;
            }
        } else {
            let ghost before = out@;
            out.push(ch);
            proof {
                assert(rest.drop_first() =~= v@.subrange(i + 1, v@.len() as int));
                assert(before + unescape_spec(rest) =~= out@ + unescape_spec(v@.subrange(i + 1, v@.len() as int)));
            }
            i = i + 1;
        }
    }
    proof {
        assert(v@.subrange(v@.len() as int, v@.len() as int) =~= Seq::<char>::empty());
        assert(out@ + Seq::<char>::empty() =~= out@);
    }
    string_from_chars(out.as_slice())
}

/// The characters of a quoted value after its opening quote, up to the
/// closing quote; a backslash keeps the character after it (so `\"` does not
/// close), and a final lone backslash stays.
pub open spec fn raw_quoted_spec(q: Seq<char>) -> Seq<char>
    decreases q.len(),
{
    if q.len() == 0 {
        q
    } else if q[0] == '\\' {
        if q.len() == 1 {
            seq!['\\']
        } else {
            seq!['\\', q[1]] + raw_quoted_spec(q.subrange(2, q.len() as int))
        }
    } else if q[0] == '"' {
        Seq::empty()
    } else {
        seq![q[0]] + raw_quoted_spec(q.drop_first())
    }
}

/// The raw text of a quoted value.
pub fn raw_quoted(q: &[char]) -> (out: Vec<char>)
    ensures
        out@ == raw_quoted_spec(q@),
{
    let mut out: Vec<char> = Vec::new();
    let mut i: usize = 0;
    proof {
        assert(q@.subrange(0, q@.len() as int) =~= q@);
    }
    while i < q.len()
        invariant
            i <= q.len(),
            out@ + raw_quoted_spec(q@.subrange(i as int, q@.len() as int)) == raw_quoted_spec(q@),
        decreases q.len() - i,
    {
        let ghost rest = q@.subrange(i as int, q@.len() as int);
        let ghost before = out@;
        let ch = q[i];
        if ch == '\\' {
            if i + 1 < q.len() {
                out.push('\\');
                out.push(q[i + 1]);
                proof {
                    assert(rest.subrange(2, rest.len() as int) =~= q@.subrange(i + 2, q@.len() as int));
                    assert(before + raw_quoted_spec(rest) =~= out@ + raw_quoted_spec(q@.subrange(i + 2, q@.len() as int)));
                }
                i = i + 2;
            } else {
                out.push('\\');
                proof {
                    assert(rest =~= seq!['\\']);
                    assert(q@.subrange(i + 1, q@.len() as int) =~= Seq::<char>::empty());
                    assert(before + raw_quoted_spec(rest) =~= out@ + raw_quoted_spec(q@.subrange(i + 1, q@.len() as int)));
                }
                i = i + 1;
            }
        } else if ch == '"' {
            proof {
                assert(raw_quoted_spec(rest) =~= Seq::<char>::empty());
                assert(out@ + Seq::<char>::empty() =~= out@);
            }
            return out;
        } else {
            out.push(ch);
            proof {
                assert(rest.drop_first() =~= q@.subrange(i + 1, q@.len() as int));
                assert(before + raw_quoted_spec(rest) =~= out@ + raw_quoted_spec(q@.subrange(i + 1, q@.len() as int)));
            }
            i = i + 1;
        }
    }
    proof {
        assert(q@.subrange(q@.len() as int, q@.len() as int) =~= Seq::<char>::empty());
        assert(out@ + Seq::<char>::empty() =~= out@);
    }
    out
}

/// `str::trim_end_matches` with one character.
pub open spec fn trim_end_char(s: Seq<char>, c: char) -> Seq<char>
    decreases s.len(),
{
    if s.len() > 0 && s.last() == c {
        trim_end_char(s.drop_last(), c)
    } else {
        s
    }
}

/// `str::trim_end_matches` with one character.
pub fn trim_end_char_exec(s: &[char], c: char) -> (out: Vec<char>)
    ensures
        out@ == trim_end_char(s@, c),
{
    let mut n: usize = s.len();
    proof {
        assert(s@.subrange(0, s@.len() as int) =~= s@);
    }
    while n > 0 && s[n - 1] == c
        invariant
            n <= s.len(),
            trim_end_char(s@, c) == trim_end_char(s@.subrange(0, n as int), c),
        decreases n,
    {
        proof {
            assert(s@.subrange(0, n as int).drop_last() =~= s@.subrange(0, n - 1));
        }
        n = n - 1;
    }
    copy_range(s, 0, n)
}

/// `str::trim_start`.
pub fn trim_start_chars(s: &[char]) -> (out: Vec<char>)
    ensures
        out@ == trim_start(s@),
{
    let mut start: usize = 0;
    while start < s.len() && is_ws_exec(s[start])
        invariant
            start <= s.len(),
            forall|j: int| 0 <= j < start ==> is_ws(#[trigger] s@[j]),
        decreases s.len() - start,
    {
        start = start + 1;
    }
    proof {
        lemma_ws_prefix_char(s@, start as nat);
    }
    copy_range(s, start, s.len())
}

/// `str::lines`: the pieces between `\n`, each without one trailing `\r`,
/// without a final empty piece.
pub open spec fn lines_spec(s: Seq<char>) -> Seq<Seq<char>> {
    let pieces = split_on(s, '\n');
    let kept = if pieces.last().len() == 0 {
        pieces.drop_last()
    } else {
        pieces
    };
    kept.map_values(|l: Seq<char>| strip_cr(l))
}

/// A line without one trailing `\r`.
pub open spec fn strip_cr(l: Seq<char>) -> Seq<char> {
    if l.len() > 0 && l.last() == '\r' {
        l.drop_last()
    } else {
        l
    }
}

/// The value of a `"path"` (or `"Path"`) line, when the line is one.
pub open spec fn library_line_value(line: Seq<char>) -> Option<Seq<char>> {
    let t = trim(line);
    if t.len() == 0 || has_prefix(t, "//"@) {
        None
    } else if !(has_prefix(t, "\"path\""@) || has_prefix(t, "\"Path\""@)) {
        None
    } else {
        let rest = trim_start(t.subrange(6, t.len() as int));
        let value = if rest.len() > 0 && rest[0] == '"' {
            unescape_spec(raw_quoted_spec(rest.drop_first()))
        } else {
            trim_start_char(trim_end_char(rest, '"'), '"')
        };
        let cleaned = trim(value);
        if cleaned.len() == 0 {
            None
        } else {
            Some(cleaned)
        }
    }
}

/// The library folders a list of lines names, in order.
pub open spec fn library_paths_of(lines: Seq<Seq<char>>) -> Seq<Seq<char>>
    decreases lines.len(),
{
    if lines.len() == 0 {
        Seq::empty()
    } else {
        let prev = library_paths_of(lines.drop_last());
        match library_line_value(lines.last()) {
            Some(v) => prev.push(v),
            None => prev,
        }
    }
}

/// The value of one line of `libraryfolders.vdf`, when it names a library.
pub fn library_line(line: &[char]) -> (r: Option<String>)
    ensures
        match r {
            Some(s) => library_line_value(line@) == Some(s@),
            None => library_line_value(line@) is None,
        },
{
    let t = trim_chars(line);
    if t.len() == 0 || starts_with_str(t.as_slice(), "//") {
        return None;
    }
    if !(starts_with_str(t.as_slice(), "\"path\"") || starts_with_str(t.as_slice(), "\"Path\"")) {
        return None;
    }
    proof {
        reveal_strlit("\"path\"");
        reveal_strlit("\"Path\"");
    }
    let after = copy_range(t.as_slice(), 6, t.len());
    let rest = trim_start_chars(after.as_slice());
    let value: Vec<char> = if rest.len() > 0 && rest[0] == '"' {
        let q = copy_range(rest.as_slice(), 1, rest.len());
        proof {
            assert(q@ =~= rest@.drop_first());
        }
        let raw = raw_quoted(q.as_slice());
        let raw_s = string_from_chars(raw.as_slice());
        let un = unescape_vdf_path(raw_s.as_str());
        chars_of(un.as_str())
    } else {
        let a = trim_end_char_exec(rest.as_slice(), '"');
        trim_start_char_exec(a.as_slice(), '"')
    };
    let cleaned = trim_chars(value.as_slice());
    if cleaned.len() == 0 {
        return None;
    }
    Some(string_from_chars(cleaned.as_slice()))
}

/// The lines of a text (`str::lines`).
pub fn text_lines(s: &str) -> (out: Vec<Vec<char>>)
    ensures
        out@.len() == lines_spec(s@).len(),
        forall|k: int| 0 <= k < out@.len() ==> #[trigger] out@[k]@ == lines_spec(s@)[k],
{
    let v = chars_of(s);
    let mut pieces = split_chars(v.as_slice(), '\n');
    let ghost sp = split_on(s@, '\n');
    proof {
        assert(v@ == s@);
        lemma_split_nonempty(s@, '\n');
    }
    let n = pieces.len();
    let last_empty = n > 0 && pieces[n - 1].len() == 0;
    if last_empty {
        let _ = pieces.pop();
    }
    let ghost kept = if sp.last().len() == 0 { sp.drop_last() } else { sp };
    proof {
        assert(pieces@.len() == kept.len());
        assert forall|k: int| 0 <= k < pieces@.len() implies #[trigger] pieces@[k]@ == kept[k] by {
            assert(pieces@[k]@ == sp[k]);
        }
    }
    let mut out: Vec<Vec<char>> = Vec::new();
    let mut i: usize = 0;
    while i < pieces.len()
        invariant
            i <= pieces.len(),
            pieces@.len() == kept.len(),
            forall|k: int| 0 <= k < pieces@.len() ==> #[trigger] pieces@[k]@ == kept[k],
            out@.len() == i,
            forall|k: int| 0 <= k < i ==> #[trigger] out@[k]@ == strip_cr(kept[k]),
        decreases pieces.len() - i,
    {
        let p = &pieces[i];
        let m = p.len();
        if m > 0 && p[m - 1] == '\r' {
            let c = copy_range(p.as_slice(), 0, m - 1);
            proof {
                assert(c@ =~= kept[i as int].drop_last());
            }
            out.push(c);
        } else {
            let c = copy_range(p.as_slice(), 0, m);
            proof {
                assert(c@ =~= kept[i as int]);
            }
            out.push(c);
        }
        i = i + 1;
    }
    out
}

proof fn lemma_split_nonempty(s: Seq<char>, c: char)
    ensures
        split_on(s, c).len() > 0,
    decreases s.len(),
{
}

/// The library folders named by the `"path"` lines of `libraryfolders.vdf`,
/// in order.
pub fn parse_steam_library_paths(vdf_text: &str) -> (out: Vec<String>)
    ensures
        strs(out@) == library_paths_of(lines_spec(vdf_text@)),
{
    let lines = text_lines(vdf_text);
    let ghost ls = lines_spec(vdf_text@);
    let mut out: Vec<String> = Vec::new();
    let mut i: usize = 0;
    proof {
        assert(ls.subrange(0, 0) =~= Seq::<Seq<char>>::empty());
        assert(strs(out@) =~= Seq::<Seq<char>>::empty());
    }
    while i < lines.len()
        invariant
            i <= lines.len(),
            lines@.len() == ls.len(),
            forall|k: int| 0 <= k < lines@.len() ==> #[trigger] lines@[k]@ == ls[k],
            strs(out@) == library_paths_of(ls.subrange(0, i as int)),
        decreases lines.len() - i,
    {
        proof {
            assert(ls.subrange(0, i as int + 1).drop_last() =~= ls.subrange(0, i as int));
            assert(ls.subrange(0, i as int + 1).last() == lines@[i as int]@);
        }
        match library_line(lines[i].as_slice()) {
            Some(v) => {
                proof {
                    lemma_strs_push(out@, v);
                }
                out.push(v);
            },
            None => {},
        }
        i = i + 1;
    }
    proof {
        assert(ls.subrange(0, ls.len() as int) =~= ls);
    }
    out
}

/// What the search for Steam installs reads from the machine: whether it is
/// Windows, the values of the program-files variables that are set (in the
/// order `ProgramFiles(x86)`, `ProgramFiles`, `PROGRAMFILES(X86)`,
/// `PROGRAMFILES`), which of the drives D to G are fixed drives, the home
/// folder, and the install paths the registry gives.
pub struct SteamRootInputs {
    pub windows: bool,
    pub program_files: Vec<String>,
    pub fixed_drives: Vec<char>,
    pub home: Option<String>,
    pub registry_installs: Vec<String>,
}

/// `roots` with each path of `list` added in turn by [`push_unique_spec`].
pub open spec fn push_all_unique(roots: Seq<Seq<char>>, list: Seq<Seq<char>>) -> Seq<Seq<char>>
    decreases list.len(),
{
    if list.len() == 0 {
        roots
    } else {
        push_unique_spec(push_all_unique(roots, list.drop_last()), list.last())
    }
}

/// `Steam` under each program-files folder whose value is not blank.
pub open spec fn program_files_roots(pf: Seq<Seq<char>>) -> Seq<Seq<char>>
    decreases pf.len(),
{
    if pf.len() == 0 {
        seq![]
    } else {
        let prev = program_files_roots(pf.drop_last());
        if trim(pf.last()).len() > 0 {
            prev.push(join_spec(pf.last(), "Steam"@))
        } else {
            prev
        }
    }
}

/// The Steam folders looked for on drive `l`.
pub open spec fn drive_roots(l: char) -> Seq<Seq<char>> {
    seq![
        seq![l] + ":/Steam"@,
        seq![l] + ":/SteamLibrary"@,
        seq![l] + ":/Program Files (x86)/Steam"@,
        seq![l] + ":/Program Files/Steam"@,
    ]
}

/// The Steam folders of the fixed drives among D, E, F and G, in that order.
pub open spec fn fixed_drive_roots(fixed: Seq<char>) -> Seq<Seq<char>> {
    (if fixed.contains('D') { drive_roots('D') } else { seq![] }) + (if fixed.contains('E') {
        drive_roots('E')
    } else {
        seq![]
    }) + (if fixed.contains('F') { drive_roots('F') } else { seq![] }) + (if fixed.contains('G') {
        drive_roots('G')
    } else {
        seq![]
    })
}

/// The Steam folders under the home folder `h`: the Windows one, then the
/// macOS and Linux layouts.
pub open spec fn home_roots(h: Seq<char>, windows: bool) -> Seq<Seq<char>> {
    (if windows {
        seq![join_spec(join_spec(join_spec(h, "AppData"@), "Local"@), "Steam"@)]
    } else {
        seq![]
    }) + seq![
        join_spec(join_spec(join_spec(h, "Library"@), "Application Support"@), "Steam"@),
        join_spec(join_spec(h, ".steam"@), "steam"@),
        join_spec(join_spec(h, ".steam"@), "root"@),
        join_spec(join_spec(join_spec(h, ".local"@), "share"@), "Steam"@),
        join_spec(
            join_spec(join_spec(join_spec(join_spec(h, ".var"@), "app"@), "com.valvesoftware.Steam"@), "data"@),
            "Steam"@,
        ),
    ]
}

/// Every Steam folder looked for, in order, repeats included.
pub open spec fn steam_root_candidates(
    windows: bool,
    program_files: Seq<Seq<char>>,
    fixed_drives: Seq<char>,
    home: Option<Seq<char>>,
    registry: Seq<Seq<char>>,
) -> Seq<Seq<char>> {
    (if windows {
        program_files_roots(program_files) + seq!["C:/Program Files (x86)/Steam"@, "C:/Program Files/Steam"@]
            + fixed_drive_roots(fixed_drives)
    } else {
        seq![]
    }) + (match home {
        Some(h) => home_roots(h, windows),
        None => seq![],
    }) + registry
}

/// Adding paths one by one keeps a list free of empty paths and repeats.
pub proof fn law_added_roots_are_distinct_and_non_empty(roots: Seq<Seq<char>>, list: Seq<Seq<char>>)
    requires
        roots.no_duplicates(),
        forall|i: int| 0 <= i < roots.len() ==> (#[trigger] roots[i]).len() > 0,
    ensures
        push_all_unique(roots, list).no_duplicates(),
        forall|i: int| 0 <= i < push_all_unique(roots, list).len() ==> (#[trigger] push_all_unique(roots, list)[i]).len() > 0,
        forall|p: Seq<char>| #[trigger] roots.contains(p) ==> push_all_unique(roots, list).contains(p),
    decreases list.len(),
{
    if list.len() > 0 {
        law_added_roots_are_distinct_and_non_empty(roots, list.drop_last());
        let prev = push_all_unique(roots, list.drop_last());
        let p = list.last();
        if !(p.len() == 0 || prev.contains(p)) {
            let next = prev.push(p);
            assert forall|i: int, j: int| 0 <= i < j < next.len() implies next[i] != next[j] by {
                if j == next.len() - 1 {
                    assert(prev[i] == next[i]);
                }
            }
            assert forall|q: Seq<char>| #[trigger] roots.contains(q) implies next.contains(q) by {
                assert(prev.contains(q));
                let k = prev.index_of(q);
                assert(next[k] == q);
            }
        }
    }
}

/// Adding two lists in turn is adding their concatenation.
pub proof fn lemma_push_all_concat(roots: Seq<Seq<char>>, a: Seq<Seq<char>>, b: Seq<Seq<char>>)
    ensures
        push_all_unique(roots, a + b) == push_all_unique(push_all_unique(roots, a), b),
    decreases b.len(),
{
    if b.len() > 0 {
        lemma_push_all_concat(roots, a, b.drop_last());
        assert((a + b).drop_last() =~= a + b.drop_last());
        assert((a + b).last() == b.last());
    } else {
        assert(a + b =~= a);
    }
}

fn add_root(roots: &mut Vec<String>, path: String)
    ensures
        strs(final(roots)@) == push_all_unique(strs(old(roots)@), seq![path@]),
{
    let ghost p = path@;
    let ghost before = strs(roots@);
    push_unique(roots, path);
    proof {
        let l = seq![p];
        assert(l.drop_last() =~= Seq::<Seq<char>>::empty());
        assert(l.last() == p);
        assert(push_all_unique(before, l.drop_last()) == before);
    }
}

proof fn lemma_step(roots: Seq<Seq<char>>, done: Seq<Seq<char>>, p: Seq<char>)
    ensures
        push_all_unique(push_all_unique(roots, done), seq![p]) == push_all_unique(roots, done.push(p)),
{
    lemma_push_all_concat(roots, done, seq![p]);
    assert(done + seq![p] =~= done.push(p));
}

/// Adds each path of `list` to `roots` in turn, skipping empty and repeated
/// paths.
pub fn add_library_roots(roots: &mut Vec<String>, list: &Vec<String>)
    ensures
        strs(final(roots)@) == push_all_unique(strs(old(roots)@), strs(list@)),
{
    let ghost start = strs(roots@);
    let mut i: usize = 0;
    proof {
        assert(strs(list@).subrange(0, 0) =~= Seq::<Seq<char>>::empty());
    }
    while i < list.len()
        invariant
            i <= list@.len(),
            strs(roots@) == push_all_unique(start, strs(list@).subrange(0, i as int)),
        decreases list@.len() - i,
    {
        proof {
            assert(strs(list@).subrange(0, i + 1).drop_last() =~= strs(list@).subrange(0, i as int));
        }
        push_unique(roots, list[i].clone());
        i = i + 1;
    }
    proof {
        assert(strs(list@).subrange(0, list@.len() as int) =~= strs(list@));
    }
}

fn drive_path(l: char, rest: &str) -> (r: String)
    ensures
        r@ == seq![l] + rest@,
{
    let mut v: Vec<char> = Vec::new();
    v.push(l);
    let tail = chars_of(rest);
    let mut i: usize = 0;
    while i < tail.len()
        invariant
            i <= tail@.len(),
            tail@ == rest@,
            v@ == seq![l] + rest@.subrange(0, i as int),
        decreases tail@.len() - i,
    {
        v.push(tail[i]);
        proof {
            assert(rest@.subrange(0, i + 1) =~= rest@.subrange(0, i as int).push(rest@[i as int]));
        }
        i = i + 1;
    }
    proof {
        assert(rest@.subrange(0, rest@.len() as int) =~= rest@);
    }
    string_from_chars(v.as_slice())
}

fn has_char(v: &Vec<char>, c: char) -> (r: bool)
    ensures
        r == v@.contains(c),
{
    let mut i: usize = 0;
    while i < v.len()
        invariant
            i <= v@.len(),
            forall|k: int| 0 <= k < i ==> v@[k] != c,
        decreases v@.len() - i,
    {
        if v[i] == c {
            return true;
        }
        i = i + 1;
    }
    false
}

fn add_program_files_roots(roots: &mut Vec<String>, program_files: &Vec<String>)
    ensures
        strs(final(roots)@) == push_all_unique(strs(old(roots)@), program_files_roots(strs(program_files@))),
{
    let ghost start = strs(roots@);
    let ghost pf = strs(program_files@);
    let ghost mut done: Seq<Seq<char>> = seq![];
    proof {
        reveal_strlit("Steam");
        assert(pf.subrange(0, 0) =~= Seq::<Seq<char>>::empty());
    }
    let mut i: usize = 0;
    while i < program_files.len()
        invariant
            pf == strs(program_files@),
            i <= pf.len(),
            done == program_files_roots(pf.subrange(0, i as int)),
            strs(roots@) == push_all_unique(start, done),
        decreases pf.len() - i,
    {
        proof {
            assert(pf.subrange(0, i + 1).drop_last() =~= pf.subrange(0, i as int));
        }
        let t = crate::text::trim_str(program_files[i].as_str());
        if t.len() > 0 {
            let p = join_path(program_files[i].as_str(), "Steam");
            add_root(roots, p);
            proof {
                lemma_step(start, done, join_spec(pf[i as int], "Steam"@));
                done = done.push(join_spec(pf[i as int], "Steam"@));
            }
        }
        i = i + 1;
    }
    proof {
        assert(pf.subrange(0, pf.len() as int) =~= pf);
    }
}

fn add_drive_roots(roots: &mut Vec<String>, l: char)
    ensures
        strs(final(roots)@) == push_all_unique(strs(old(roots)@), drive_roots(l)),
{
    let ghost start = strs(roots@);
    add_root(roots, drive_path(l, ":/Steam"));
    proof {
        assert(seq![seq![l] + ":/Steam"@] =~= Seq::<Seq<char>>::empty().push(seq![l] + ":/Steam"@));
    }
    let ghost d1 = seq![seq![l] + ":/Steam"@];
    add_root(roots, drive_path(l, ":/SteamLibrary"));
    proof {
        lemma_step(start, d1, seq![l] + ":/SteamLibrary"@);
    }
    let ghost d2 = d1.push(seq![l] + ":/SteamLibrary"@);
    add_root(roots, drive_path(l, ":/Program Files (x86)/Steam"));
    proof {
        lemma_step(start, d2, seq![l] + ":/Program Files (x86)/Steam"@);
    }
    let ghost d3 = d2.push(seq![l] + ":/Program Files (x86)/Steam"@);
    add_root(roots, drive_path(l, ":/Program Files/Steam"));
    proof {
        lemma_step(start, d3, seq![l] + ":/Program Files/Steam"@);
        assert(d3.push(seq![l] + ":/Program Files/Steam"@) =~= drive_roots(l));
    }
}

fn add_fixed_drive_roots(roots: &mut Vec<String>, fixed: &Vec<char>)
    ensures
        strs(final(roots)@) == push_all_unique(strs(old(roots)@), fixed_drive_roots(fixed@)),
{
    let ghost start = strs(roots@);
    let ghost d = if fixed@.contains('D') { drive_roots('D') } else { seq![] };
    let ghost e = if fixed@.contains('E') { drive_roots('E') } else { seq![] };
    let ghost f = if fixed@.contains('F') { drive_roots('F') } else { seq![] };
    let ghost g = if fixed@.contains('G') { drive_roots('G') } else { seq![] };
    if has_char(fixed, 'D') {
        add_drive_roots(roots, 'D');
    }
    proof {
        if !fixed@.contains('D') {
            assert(push_all_unique(start, d) == start);
        }
    }
    if has_char(fixed, 'E') {
        add_drive_roots(roots, 'E');
    }
    proof {
        if !fixed@.contains('E') {
            assert(push_all_unique(push_all_unique(start, d), e) == push_all_unique(start, d));
        }
        lemma_push_all_concat(start, d, e);
    }
    if has_char(fixed, 'F') {
        add_drive_roots(roots, 'F');
    }
    proof {
        if !fixed@.contains('F') {
            assert(push_all_unique(push_all_unique(start, d + e), f) == push_all_unique(start, d + e));
        }
        lemma_push_all_concat(start, d + e, f);
    }
    if has_char(fixed, 'G') {
        add_drive_roots(roots, 'G');
    }
    proof {
        if !fixed@.contains('G') {
            assert(push_all_unique(push_all_unique(start, d + e + f), g) == push_all_unique(start, d + e + f));
        }
        lemma_push_all_concat(start, d + e + f, g);
    }
}

fn add_windows_roots(roots: &mut Vec<String>, program_files: &Vec<String>, fixed: &Vec<char>)
    ensures
        strs(final(roots)@) == push_all_unique(
            strs(old(roots)@),
            program_files_roots(strs(program_files@)) + seq!["C:/Program Files (x86)/Steam"@, "C:/Program Files/Steam"@]
                + fixed_drive_roots(fixed@),
        ),
{
    let ghost start = strs(roots@);
    let ghost a = program_files_roots(strs(program_files@));
    add_program_files_roots(roots, program_files);
    add_root(roots, "C:/Program Files (x86)/Steam".to_string());
    proof {
        lemma_step(start, a, "C:/Program Files (x86)/Steam"@);
    }
    add_root(roots, "C:/Program Files/Steam".to_string());
    proof {
        lemma_step(start, a.push("C:/Program Files (x86)/Steam"@), "C:/Program Files/Steam"@);
        assert(a.push("C:/Program Files (x86)/Steam"@).push("C:/Program Files/Steam"@) =~= a + seq![
            "C:/Program Files (x86)/Steam"@,
            "C:/Program Files/Steam"@,
        ]);
    }
    let ghost b = a + seq!["C:/Program Files (x86)/Steam"@, "C:/Program Files/Steam"@];
    add_fixed_drive_roots(roots, fixed);
    proof {
        lemma_push_all_concat(start, b, fixed_drive_roots(fixed@));
    }
}

fn add_home_roots(roots: &mut Vec<String>, h: &str, windows: bool)
    ensures
        strs(final(roots)@) == push_all_unique(strs(old(roots)@), home_roots(h@, windows)),
{
    let ghost start = strs(roots@);
    let ghost mut done: Seq<Seq<char>> = seq![];
    proof {
        assert(push_all_unique(start, done) == start);
    }
    if windows {
        let p = join_path(join_path(join_path(h, "AppData").as_str(), "Local").as_str(), "Steam");
        add_root(roots, p);
        proof {
            lemma_step(start, done, join_spec(join_spec(join_spec(h@, "AppData"@), "Local"@), "Steam"@));
            done = done.push(join_spec(join_spec(join_spec(h@, "AppData"@), "Local"@), "Steam"@));
        }
    }
    let p1 = join_path(join_path(join_path(h, "Library").as_str(), "Application Support").as_str(), "Steam");
    add_root(roots, p1);
    proof {
        lemma_step(start, done, join_spec(join_spec(join_spec(h@, "Library"@), "Application Support"@), "Steam"@));
        done = done.push(join_spec(join_spec(join_spec(h@, "Library"@), "Application Support"@), "Steam"@));
    }
    let p2 = join_path(join_path(h, ".steam").as_str(), "steam");
    add_root(roots, p2);
    proof {
        lemma_step(start, done, join_spec(join_spec(h@, ".steam"@), "steam"@));
        done = done.push(join_spec(join_spec(h@, ".steam"@), "steam"@));
    }
    let p3 = join_path(join_path(h, ".steam").as_str(), "root");
    add_root(roots, p3);
    proof {
        lemma_step(start, done, join_spec(join_spec(h@, ".steam"@), "root"@));
        done = done.push(join_spec(join_spec(h@, ".steam"@), "root"@));
    }
    let p4 = join_path(join_path(join_path(h, ".local").as_str(), "share").as_str(), "Steam");
    add_root(roots, p4);
    proof {
        lemma_step(start, done, join_spec(join_spec(join_spec(h@, ".local"@), "share"@), "Steam"@));
        done = done.push(join_spec(join_spec(join_spec(h@, ".local"@), "share"@), "Steam"@));
    }
    let v1 = join_path(join_path(h, ".var").as_str(), "app");
    let v2 = join_path(join_path(v1.as_str(), "com.valvesoftware.Steam").as_str(), "data");
    let p5 = join_path(v2.as_str(), "Steam");
    add_root(roots, p5);
    proof {
        let last = join_spec(
            join_spec(join_spec(join_spec(join_spec(h@, ".var"@), "app"@), "com.valvesoftware.Steam"@), "data"@),
            "Steam"@,
        );
        lemma_step(start, done, last);
        done = done.push(last);
        assert(done =~= home_roots(h@, windows));
    }
}

/// The Steam folders to look in, each once and in the order searched (see
/// [`steam_root_candidates`]).
pub fn candidate_steam_roots(inputs: &SteamRootInputs) -> (r: Vec<String>)
    ensures
        strs(r@) == push_all_unique(
            seq![],
            steam_root_candidates(
                inputs.windows,
                strs(inputs.program_files@),
                inputs.fixed_drives@,
                opt_view(inputs.home),
                strs(inputs.registry_installs@),
            ),
        ),
{
    let mut roots: Vec<String> = Vec::new();
    let ghost w = if inputs.windows {
        program_files_roots(strs(inputs.program_files@)) + seq!["C:/Program Files (x86)/Steam"@, "C:/Program Files/Steam"@]
            + fixed_drive_roots(inputs.fixed_drives@)
    } else {
        seq![]
    };
    let ghost hm = match opt_view(inputs.home) {
        Some(h) => home_roots(h, inputs.windows),
        None => seq![],
    };
    proof {
        assert(strs(roots@) =~= Seq::<Seq<char>>::empty());
    }
    if inputs.windows {
        add_windows_roots(&mut roots, &inputs.program_files, &inputs.fixed_drives);
    }
    match &inputs.home {
        Some(h) => {
            add_home_roots(&mut roots, h.as_str(), inputs.windows);
        },
        None => {},
    }
    proof {
        lemma_push_all_concat(seq![], w, hm);
    }
    add_library_roots(&mut roots, &inputs.registry_installs);
    proof {
        lemma_push_all_concat(seq![], w + hm, strs(inputs.registry_installs@));
    }
    roots
}

/// The two `libraryfolders.vdf` files under each Steam folder.
pub open spec fn roots_vdf(roots: Seq<Seq<char>>) -> Seq<Seq<char>>
    decreases roots.len(),
{
    if roots.len() == 0 {
        seq![]
    } else {
        roots_vdf(roots.drop_last()) + seq![
            join_spec(join_spec(roots.last(), "steamapps"@), "libraryfolders.vdf"@),
            join_spec(join_spec(roots.last(), "config"@), "libraryfolders.vdf"@),
        ]
    }
}

/// The four `libraryfolders.vdf` files under the home folder.
pub open spec fn home_vdf(home: Option<Seq<char>>) -> Seq<Seq<char>> {
    match home {
        Some(h) => seq![
            join_spec(join_spec(join_spec(join_spec(join_spec(h, "AppData"@), "Local"@), "Steam"@), "steamapps"@), "libraryfolders.vdf"@),
            join_spec(join_spec(join_spec(join_spec(h, ".steam"@), "steam"@), "steamapps"@), "libraryfolders.vdf"@),
            join_spec(join_spec(join_spec(join_spec(join_spec(h, ".local"@), "share"@), "Steam"@), "steamapps"@), "libraryfolders.vdf"@),
            join_spec(join_spec(join_spec(join_spec(join_spec(h, "Library"@), "Application Support"@), "Steam"@), "steamapps"@), "libraryfolders.vdf"@),
        ],
        None => seq![],
    }
}

/// The `libraryfolders.vdf` files to read for more Steam libraries: two
/// under each Steam folder, then four under the home folder.
pub fn steam_vdf_paths(roots: &Vec<String>, home: &Option<String>) -> (r: Vec<String>)
    ensures
        strs(r@) == roots_vdf(strs(roots@)) + home_vdf(opt_view(*home)),
{
    let ghost rs = strs(roots@);
    let mut out: Vec<String> = Vec::new();
    let mut i: usize = 0;
    proof {
        assert(rs.subrange(0, 0) =~= Seq::<Seq<char>>::empty());
        assert(strs(out@) =~= Seq::<Seq<char>>::empty());
    }
    while i < roots.len()
        invariant
            rs == strs(roots@),
            i <= rs.len(),
            strs(out@) == roots_vdf(rs.subrange(0, i as int)),
        decreases rs.len() - i,
    {
        let ghost before = strs(out@);
        let r = roots[i].as_str();
        let a = join_path(join_path(r, "steamapps").as_str(), "libraryfolders.vdf");
        let b = join_path(join_path(r, "config").as_str(), "libraryfolders.vdf");
        out.push(a);
        out.push(b);
        proof {
            assert(rs.subrange(0, i + 1).drop_last() =~= rs.subrange(0, i as int));
            assert(rs.subrange(0, i + 1).last() == rs[i as int]);
            assert(strs(out@) =~= before + seq![
                join_spec(join_spec(rs[i as int], "steamapps"@), "libraryfolders.vdf"@),
                join_spec(join_spec(rs[i as int], "config"@), "libraryfolders.vdf"@),
            ]);
        }
        i = i + 1;
    }
    proof {
        assert(rs.subrange(0, rs.len() as int) =~= rs);
    }
    let ghost mid = strs(out@);
    match home {
        Some(h) => {
            let h = h.as_str();
            let p1 = join_path(join_path(join_path(join_path(join_path(h, "AppData").as_str(), "Local").as_str(), "Steam").as_str(), "steamapps").as_str(), "libraryfolders.vdf");
            let p2 = join_path(join_path(join_path(join_path(h, ".steam").as_str(), "steam").as_str(), "steamapps").as_str(), "libraryfolders.vdf");
            let p3 = join_path(join_path(join_path(join_path(join_path(h, ".local").as_str(), "share").as_str(), "Steam").as_str(), "steamapps").as_str(), "libraryfolders.vdf");
            let p4 = join_path(join_path(join_path(join_path(join_path(h, "Library").as_str(), "Application Support").as_str(), "Steam").as_str(), "steamapps").as_str(), "libraryfolders.vdf");
            out.push(p1);
            out.push(p2);
            out.push(p3);
            out.push(p4);
            proof {
                assert(strs(out@) =~= mid + home_vdf(opt_view(*home)));
            }
        },
        None => {
            proof {
                assert(strs(out@) =~= mid + home_vdf(opt_view(*home)));
            }
        },
    }
    out
}

} // verus!
