//! Environment profiles and the `KEY=value` files that hold their variables.

use vstd::prelude::*;
use crate::text::{same_text, starts_with, strip_both, trim, trim_char, trimmed};
use vstd::string::StrSliceExecFns;

verus! {

/// A named environment profile.
#[derive(Clone, Copy, Debug, PartialEq, Eq, Structural)]
pub enum Environment {
    Dev,
    Staging,
    Prod,
}

/// Short name of each profile.
pub open spec fn env_name(e: Environment) -> Seq<char> {
    match e {
        Environment::Dev => "dev"@,
        Environment::Staging => "staging"@,
        Environment::Prod => "prod"@,
    }
}

/// File that holds each profile's variables.
pub open spec fn env_file(e: Environment) -> Seq<char> {
    match e {
        Environment::Dev => ".env.dev"@,
        Environment::Staging => ".env.staging"@,
        Environment::Prod => ".env.prod"@,
    }
}

impl Environment {
    /// Short name of the profile.
    pub fn as_str(self) -> (r: &'static str)
        ensures
            r@ == env_name(self),
    {
        match self {
            Environment::Dev => "dev",
            Environment::Staging => "staging",
            Environment::Prod => "prod",
        }
    }

    /// Name of the file, in a project root, that holds the profile's
    /// variables.
    pub fn env_file_name(self) -> (r: &'static str)
        ensures
            r@ == env_file(self),
    {
        match self {
            Environment::Dev => ".env.dev",
            Environment::Staging => ".env.staging",
            Environment::Prod => ".env.prod",
        }
    }
}

/// Fallback file, read when the profile's own file gives no variable.
pub const FALLBACK_ENV_FILE: &'static str = ".env";

/// Why variables could not be read or written.
pub enum EnvError {
    /// The system's message.
    Io(String),
}

/// The profile that a lower-case name selects: `staging`, `prod`, and
/// `dev` for anything else.
pub open spec fn env_for_name(l: Seq<char>) -> Environment {
    if l == "staging"@ {
        Environment::Staging
    } else if l == "prod"@ {
        Environment::Prod
    } else {
        Environment::Dev
    }
}

/// The profile that a lower-case name selects.
pub fn environment_from_lowercase(l: &str) -> (r: Environment)
    ensures
        r == env_for_name(l@),
{
    if same_text(l, "staging") {
        Environment::Staging
    } else if same_text(l, "prod") {
        Environment::Prod
    } else {
        Environment::Dev
    }
}

/// What `str::to_lowercase` gives for `s`.
pub uninterp spec fn lowercased(s: Seq<char>) -> Seq<char>;

/// Relies on `str::to_lowercase`: the result depends on the characters of
/// `s` alone.
#[verifier::external_body]
fn to_lowercase(s: &str) -> (r: String)
    ensures
        r@ == lowercased(s@),
{
    s.to_lowercase()
}

/// The profile that a name selects, in any letter case.
pub fn env_from_str(s: &str) -> (r: Environment)
    ensures
        r == env_for_name(lowercased(s@)),
{
    let l = to_lowercase(s);
    environment_from_lowercase(l.as_str())
}

/// Index of the first `c` in `s`, if any.
pub open spec fn first_index(s: Seq<char>, c: char, from: int) -> Option<int>
    decreases s.len() - from,
{
    if from < 0 || from >= s.len() {
        None
    } else if s[from] == c {
        Some(from)
    } else {
        first_index(s, c, from + 1)
    }
}

/// A value with surrounding double quotes, then single quotes, removed.
pub open spec fn unquoted(v: Seq<char>) -> Seq<char> {
    strip_both(strip_both(v, '"'), '\'')
}

/// The `(key, value)` that a line holds: split at its first `=`, the key
/// trimmed, the value trimmed and unquoted. `None` without an `=`.
pub open spec fn line_entry(s: Seq<char>) -> Option<(Seq<char>, Seq<char>)> {
    match first_index(s, '=', 0) {
        Some(e) => Some(
            (trimmed(s.subrange(0, e)), unquoted(trimmed(s.subrange(e + 1, s.len() as int)))),
        ),
        None => None,
    }
}

/// Removes the double quotes, then the single quotes, around a value.
pub fn unquote(value: &str) -> (r: &str)
    ensures
        r@ == unquoted(value@),
{
    let v = trim_char(value, '"');
    trim_char(v, '\'')
}

/// Splits a `KEY=value` line at its first `=`.
pub fn parse_env_line(line: &str) -> (r: Option<(String, String)>)
    ensures
        r is None <==> line_entry(line@) is None,
        r matches Some(p) ==> line_entry(line@) == Some((p.0@, p.1@)),
{
    let n = line.unicode_len();
    let mut i: usize = 0;
    while i < n && line.get_char(i) != '='
        invariant
            n == line@.len(),
            i <= n,
            first_index(line@, '=', 0) == first_index(line@, '=', i as int),
        decreases n - i,
    {
        i = i + 1;
    }
    if i == n {
        return None;
    }
    let k = trim(line.substring_char(0, i));
    let v = trim(line.substring_char(i + 1, n));
    let v = unquote(v);
    Some((String::from_str(k), String::from_str(v)))
}

/// Whether a line of an env file holds nothing: blank once trimmed, or a
/// comment.
pub open spec fn is_skipped_line(t: Seq<char>) -> bool {
    t.len() == 0 || t[0] == '#'
}

/// Position of the first entry whose key is `k`.
pub open spec fn key_index(es: Seq<(Seq<char>, Seq<char>)>, k: Seq<char>, from: int) -> Option<int>
    decreases es.len() - from,
{
    if from < 0 || from >= es.len() {
        None
    } else if es[from].0 == k {
        Some(from)
    } else {
        key_index(es, k, from + 1)
    }
}

/// Entries after setting `k` to `v`: the entry for `k` takes the new value
/// where there is one, and a new entry is added at the end otherwise.
pub open spec fn upsert(es: Seq<(Seq<char>, Seq<char>)>, k: Seq<char>, v: Seq<char>) -> Seq<(Seq<char>, Seq<char>)> {
    match key_index(es, k, 0) {
        Some(i) => es.update(i, (k, v)),
        None => es.push((k, v)),
    }
}

/// The variables that the lines of an env file define, each key once, in
/// the order of first definition, with the last value given.
pub open spec fn env_entries(lines: Seq<Seq<char>>) -> Seq<(Seq<char>, Seq<char>)>
    decreases lines.len(),
{
    if lines.len() == 0 {
        Seq::empty()
    } else {
        let before = env_entries(lines.drop_last());
        let t = trimmed(lines.last());
        if is_skipped_line(t) {
            before
        } else {
            match line_entry(t) {
                Some(e) => upsert(before, e.0, e.1),
                None => before,
            }
        }
    }
}

/// The views of `(key, value)` pairs.
pub open spec fn pair_views(v: Seq<(String, String)>) -> Seq<(Seq<char>, Seq<char>)> {
    v.map_values(|p: (String, String)| (p.0@, p.1@))
}

fn upsert_exec(es: &mut Vec<(String, String)>, k: String, v: String)
    ensures
        pair_views(final(es)@) == upsert(pair_views(old(es)@), k@, v@),
{
    let ghost views = pair_views(es@);
    let mut i: usize = 0;
    let mut found = false;
    while i < es.len() && !found
        invariant
            i <= es@.len(),
            es@ == old(es)@,
            views == pair_views(es@),
            found ==> i < es@.len() && key_index(views, k@, 0) == Some(i as int),
            !found ==> key_index(views, k@, 0) == key_index(views, k@, i as int),
        decreases es@.len() - i + (if found { 0int } else { 1int }),
    {
        if same_text(es[i].0.as_str(), k.as_str()) {
            assert(views[i as int].0 == k@);
            found = true;
        } else {
            i = i + 1;
        }
    }
    if found {
        es.set(i, (k, v));
        assert(pair_views(es@) =~= views.update(i as int, (k@, v@)));
    } else {
        es.push((k, v));
        assert(pair_views(es@) =~= views.push((k@, v@)));
    }
}

/// The variables that the lines of an env file define: blank lines, lines
/// starting with `#` once trimmed, and lines without `=` are skipped; a key
/// given twice keeps its last value.
pub fn parse_env_lines(lines: &Vec<String>) -> (r: Vec<(String, String)>)
    ensures
        pair_views(r@) == env_entries(crate::scripts::texts(lines@)),
{
    let ghost ls = crate::scripts::texts(lines@);
    let mut out: Vec<(String, String)> = Vec::new();
    let mut i: usize = 0;
    assert(pair_views(out@) =~= Seq::<(Seq<char>, Seq<char>)>::empty());
    while i < lines.len()
        invariant
            i <= lines@.len(),
            ls == crate::scripts::texts(lines@),
            pair_views(out@) == env_entries(ls.subrange(0, i as int)),
        decreases lines@.len() - i,
    {
        let t = trim(lines[i].as_str());
        proof {
            assert(ls.subrange(0, i + 1).drop_last() =~= ls.subrange(0, i as int));
            assert(ls.subrange(0, i + 1).last() == lines@[i as int]@);
            assert(t@ == trimmed(ls.subrange(0, i + 1).last()));
            reveal_strlit("#");
        }
        let skip = t.is_empty() || starts_with(t, "#");
        proof {
            if t@.len() > 0 {
                assert(t@[0] == t@.subrange(0, 1)[0]);
                if t@[0] == '#' {
                    assert(t@.subrange(0, 1) =~= "#"@);
                }
            }
            assert(skip == is_skipped_line(t@));
        }
        if !skip {
            match parse_env_line(t) {
                Some((k, v)) => upsert_exec(&mut out, k, v),
                None => {},
            }
        }
        i = i + 1;
    }
    assert(ls.subrange(0, lines@.len() as int) =~= ls);
    out
}

/// The variables to use, from the lines of the profile's file and of the
/// fallback file (each when it exists): the profile's, unless they define
/// nothing, in which case the fallback's.
pub fn env_from_files(primary: Option<&Vec<String>>, fallback: Option<&Vec<String>>) -> (r: Vec<(String, String)>)
    ensures
        pair_views(r@) == ({
            let first = match primary {
                Some(p) => env_entries(crate::scripts::texts(p@)),
                None => Seq::empty(),
            };
            match fallback {
                Some(f) => if first.len() == 0 {
                    env_entries(crate::scripts::texts(f@))
                } else {
                    first
                },
                None => first,
            }
        }),
{
    let vars = match primary {
        Some(p) => parse_env_lines(p),
        None => {
            let v: Vec<(String, String)> = Vec::new();
            assert(pair_views(v@) =~= Seq::<(Seq<char>, Seq<char>)>::empty());
            v
        },
    };
    if vars.len() == 0 {
        match fallback {
            Some(f) => {
                return parse_env_lines(f);
            },
            None => {},
        }
    }
    vars
}


/// `lines` joined with a line feed between each two.
pub open spec fn joined_lines(lines: Seq<Seq<char>>) -> Seq<char>
    decreases lines.len(),
{
    if lines.len() == 0 {
        Seq::empty()
    } else if lines.len() == 1 {
        lines[0]
    } else {
        joined_lines(lines.drop_last()) + "\n"@ + lines.last()
    }
}

/// The line `key=value` for each pair.
pub open spec fn assignment_lines(vars: Seq<(Seq<char>, Seq<char>)>) -> Seq<Seq<char>> {
    vars.map_values(|p: (Seq<char>, Seq<char>)| p.0 + "="@ + p.1)
}

/// The text of an env file for `vars`: one `key=value` line per pair, the
/// lines in `String` order, joined by line feeds.
pub fn render_env(vars: &Vec<(String, String)>) -> (r: String)
    ensures
        exists|ls: Seq<Seq<char>>|
            {
                &&& ls.to_multiset() == assignment_lines(pair_views(vars@)).to_multiset()
                &&& crate::scripts::is_sorted_texts(ls)
                &&& r@ == joined_lines(ls)
            },
{
    let ghost target = assignment_lines(pair_views(vars@));
    let mut lines: Vec<String> = Vec::new();
    let mut i: usize = 0;
    while i < vars.len()
        invariant
            i <= vars@.len(),
            target == assignment_lines(pair_views(vars@)),
            crate::scripts::texts(lines@) == target.subrange(0, i as int),
        decreases vars@.len() - i,
    {
        let line = crate::text::join3(vars[i].0.as_str(), "=", vars[i].1.as_str());
        proof {
            assert(pair_views(vars@)[i as int] == (vars@[i as int].0@, vars@[i as int].1@));
            assert(target[i as int] == line@);
        }
        let ghost prev = crate::scripts::texts(lines@);
        let ghost lv = line@;
        lines.push(line);
        assert(crate::scripts::texts(lines@) =~= prev.push(lv));
        assert(target.subrange(0, i as int).push(target[i as int]) =~= target.subrange(0, i + 1));
        i = i + 1;
    }
    assert(target.subrange(0, vars@.len() as int) =~= target);
    crate::scripts::sort_texts(&mut lines);
    let ghost ls = crate::scripts::texts(lines@);
    let mut out = String::new();
    let mut k: usize = 0;
    while k < lines.len()
        invariant
            k <= lines@.len(),
            ls == crate::scripts::texts(lines@),
            out@ == joined_lines(ls.subrange(0, k as int)),
        decreases lines@.len() - k,
    {
        proof {
            assert(ls.subrange(0, k + 1).drop_last() =~= ls.subrange(0, k as int));
            assert(ls.subrange(0, k + 1).last() == lines@[k as int]@);
            if k == 0 {
                assert(ls.subrange(0, 1)[0] == lines@[0]@);
            }
        }
        if k > 0 {
            out.append("\n");
        }
        out.append(lines[k].as_str());
        k = k + 1;
    }
    assert(ls.subrange(0, lines@.len() as int) =~= ls);
    out
}


/// A line without the carriage return that ends it, if any.
pub open spec fn without_cr(l: Seq<char>) -> Seq<char> {
    if l.len() > 0 && l.last() == '\r' {
        l.drop_last()
    } else {
        l
    }
}

/// The lines of a text: split at each line feed, a carriage return just
/// before it dropped; a final line feed ends the last line rather than
/// starting an empty one.
pub open spec fn lines_of(s: Seq<char>) -> Seq<Seq<char>>
    decreases s.len(),
{
    if s.len() == 0 {
        Seq::empty()
    } else {
        match first_index(s, '\n', 0) {
            Some(i) => {
                if 0 <= i < s.len() {
                    seq![without_cr(s.subrange(0, i))] + lines_of(s.subrange(i + 1, s.len() as int))
                } else {
                    Seq::empty()
                }
            },
            None => seq![s],
        }
    }
}

proof fn lemma_first_index_skip(s: Seq<char>, c: char, a: int, i: int)
    requires
        0 <= a <= i <= s.len(),
        forall|k: int| a <= k < i ==> s[k] != c,
    ensures
        first_index(s, c, a) == first_index(s, c, i),
    decreases i - a,
{
    if a < i {
        lemma_first_index_skip(s, c, a + 1, i);
    }
}

proof fn lemma_first_index_shift(s: Seq<char>, c: char, a: int, i: int)
    requires
        0 <= a <= i <= s.len(),
        forall|k: int| a <= k < i ==> s[k] != c,
    ensures
        first_index(s.subrange(a, s.len() as int), c, 0) == (match first_index(s, c, i) {
            Some(j) => Some(j - a),
            None => None,
        }),
{
    lemma_first_index_skip(s, c, a, i);
    lemma_first_index_general(s, c, a, 0);
}

proof fn lemma_first_index_general(s: Seq<char>, c: char, a: int, from: int)
    requires
        0 <= a <= s.len(),
        0 <= from,
    ensures
        first_index(s.subrange(a, s.len() as int), c, from) == (match first_index(s, c, a + from) {
            Some(j) => Some(j - a),
            None => None,
        }),
    decreases s.len() - a - from,
{
    if a + from < s.len() && s[a + from] != c {
        lemma_first_index_general(s, c, a, from + 1);
    }
}

/// Splits a text into its lines.
pub fn split_lines(content: &str) -> (r: Vec<String>)
    ensures
        crate::scripts::texts(r@) == lines_of(content@),
{
    let n = content.unicode_len();
    let ghost s = content@;
    let mut out: Vec<String> = Vec::new();
    let mut start: usize = 0;
    let mut i: usize = 0;
    assert(s.subrange(0, n as int) =~= s);
    assert(crate::scripts::texts(out@) =~= Seq::<Seq<char>>::empty());
    while i < n
        invariant
            n == s.len(),
            s == content@,
            start <= i <= n,
            forall|k: int| start <= k < i ==> s[k] != '\n',
            crate::scripts::texts(out@) + lines_of(s.subrange(start as int, n as int)) == lines_of(s),
        decreases n - i,
    {
        if content.get_char(i) == '\n' {
            let ghost rest = s.subrange(start as int, n as int);
            proof {
                lemma_first_index_shift(s, '\n', start as int, i as int);
                assert(first_index(s, '\n', i as int) == Some(i as int));
                assert(rest.subrange(0, i - start) =~= s.subrange(start as int, i as int));
                assert(rest.subrange(i - start + 1, rest.len() as int) =~= s.subrange(i + 1, n as int));
            }
            let line = content.substring_char(start, i);
            let m = line.unicode_len();
            let kept = if m > 0 && line.get_char(m - 1) == '\r' {
                line.substring_char(0, m - 1)
            } else {
                line
            };
            proof {
                if m > 0 && line@[m - 1] == '\r' {
                    assert(line@.drop_last() =~= line@.subrange(0, m - 1));
                }
            }
            let ghost prev = crate::scripts::texts(out@);
            out.push(String::from_str(kept));
            assert(crate::scripts::texts(out@) =~= prev.push(without_cr(s.subrange(start as int, i as int))));
            assert(prev.push(without_cr(s.subrange(start as int, i as int))) + lines_of(s.subrange(i + 1, n as int))
                =~= prev + (seq![without_cr(s.subrange(start as int, i as int))] + lines_of(s.subrange(i + 1, n as int))));
            start = i + 1;
        }
        i = i + 1;
    }
    if start < n {
        proof {
            lemma_first_index_shift(s, '\n', start as int, n as int);
        }
        let ghost prev = crate::scripts::texts(out@);
        out.push(String::from_str(content.substring_char(start, n)));
        assert(crate::scripts::texts(out@) =~= prev + seq![s.subrange(start as int, n as int)]);
    } else {
        assert(crate::scripts::texts(out@) =~= crate::scripts::texts(out@) + lines_of(s.subrange(start as int, n as int)));
    }
    out
}

} // verus!
