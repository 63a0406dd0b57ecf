//! Values that the version-control views show, and the rules that turn
//! repository data into them.

use vstd::prelude::*;
use vstd::string::StrSliceExecFns;
use vstd::string::StringExecFns;
use crate::env::first_index;
use crate::scripts::{add_unique, texts};
use crate::text::{decimal, decimal_text, join2, same_text};
use chrono::TimeZone;

verus! {

/// Branch and working-tree changes of a repository.
pub struct GitStatus {
    pub branch: String,
    pub is_clean: bool,
    pub modified: Vec<String>,
    pub untracked: Vec<String>,
}

/// One commit of the history.
pub struct CommitInfo {
    pub id_short: String,
    pub message: String,
    pub author: String,
    pub date: String,
}

/// A file changed by a commit, and how.
pub struct CommitFileChange {
    pub path: String,
    pub status: String,
}

/// One path of a status listing, with what was seen of it.
pub struct StatusEntry {
    pub path: String,
    /// New or modified in the index or in the working tree.
    pub changed: bool,
    /// New in the working tree and nothing else.
    pub only_untracked: bool,
}

/// The paths, each once in order of first appearance, of the entries for
/// which `pick` holds.
pub open spec fn unique_paths(es: Seq<StatusEntry>, pick: spec_fn(StatusEntry) -> bool) -> Seq<Seq<char>>
    decreases es.len(),
{
    if es.len() == 0 {
        Seq::empty()
    } else {
        let before = unique_paths(es.drop_last(), pick);
        if pick(es.last()) {
            add_unique(before, es.last().path@)
        } else {
            before
        }
    }
}

fn push_unique(names: &mut Vec<String>, name: &String)
    ensures
        texts(final(names)@) == add_unique(texts(old(names)@), name@),
{
    let ghost views = texts(names@);
    let mut i: usize = 0;
    let mut found = false;
    while i < names.len() && !found
        invariant
            i <= names@.len(),
            names@ == old(names)@,
            views == texts(names@),
            found ==> views.contains(name@),
            !found ==> forall|k: int| 0 <= k < i ==> views[k] != name@,
        decreases names@.len() - i + (if found { 0int } else { 1int }),
    {
        if same_text(names[i].as_str(), name.as_str()) {
            assert(views[i as int] == name@);
            found = true;
        } else {
            i = i + 1;
        }
    }
    if !found {
        names.push(name.clone());
        assert(texts(names@) =~= views.push(name@));
    }
}

/// Summarises a status listing: the paths changed, the paths only untracked
/// (each once, in order), and whether the tree is clean (neither list has a
/// path).
pub fn summarize_status(branch: String, entries: &Vec<StatusEntry>) -> (r: GitStatus)
    ensures
        r.branch@ == branch@,
        texts(r.modified@) == unique_paths(entries@, |e: StatusEntry| e.changed),
        texts(r.untracked@) == unique_paths(entries@, |e: StatusEntry| e.only_untracked),
        r.is_clean == (r.modified@.len() == 0 && r.untracked@.len() == 0),
{
    let ghost pm = |e: StatusEntry| e.changed;
    let ghost pu = |e: StatusEntry| e.only_untracked;
    let mut modified: Vec<String> = Vec::new();
    let mut untracked: Vec<String> = Vec::new();
    let mut i: usize = 0;
    assert(texts(modified@) =~= Seq::<Seq<char>>::empty());
    assert(texts(untracked@) =~= Seq::<Seq<char>>::empty());
    while i < entries.len()
        invariant
            i <= entries@.len(),
            pm == (|e: StatusEntry| e.changed),
            pu == (|e: StatusEntry| e.only_untracked),
            texts(modified@) == unique_paths(entries@.subrange(0, i as int), pm),
            texts(untracked@) == unique_paths(entries@.subrange(0, i as int), pu),
        decreases entries@.len() - i,
    {
        let e = &entries[i];
        proof {
            assert(entries@.subrange(0, i + 1).drop_last() =~= entries@.subrange(0, i as int));
            assert(entries@.subrange(0, i + 1).last() == *e);
        }
        if e.changed {
            push_unique(&mut modified, &e.path);
        }
        if e.only_untracked {
            push_unique(&mut untracked, &e.path);
        }
        i = i + 1;
    }
    assert(entries@.subrange(0, entries@.len() as int) =~= entries@);
    let is_clean = modified.len() == 0 && untracked.len() == 0;
    GitStatus { branch, is_clean, modified, untracked }
}

/// The first seven characters of a commit id, or all of it when shorter.
pub open spec fn short_id_of(id: Seq<char>) -> Seq<char> {
    if id.len() <= 7 {
        id
    } else {
        id.subrange(0, 7)
    }
}

/// The short form of a commit id.
pub fn short_commit_id(id: &str) -> (r: String)
    ensures
        r@ == short_id_of(id@),
{
    let n = id.unicode_len();
    if n <= 7 {
        assert(id@.subrange(0, n as int) =~= id@);
        String::from_str(id)
    } else {
        String::from_str(id.substring_char(0, 7))
    }
}

/// The first line of `s`: up to its first line feed, without a carriage
/// return just before it; all of `s` when it has no line feed.
pub open spec fn first_line_of(s: Seq<char>) -> Seq<char> {
    match first_index(s, '\n', 0) {
        Some(i) => if i > 0 && s[i - 1] == '\r' {
            s.subrange(0, i - 1)
        } else {
            s.subrange(0, i)
        },
        None => s,
    }
}

/// The first line of a text.
pub fn first_line(s: &str) -> (r: String)
    ensures
        r@ == first_line_of(s@),
{
    let n = s.unicode_len();
    let mut i: usize = 0;
    while i < n && s.get_char(i) != '\n'
        invariant
            n == s@.len(),
            i <= n,
            first_index(s@, '\n', 0) == first_index(s@, '\n', i as int),
        decreases n - i,
    {
        i = i + 1;
    }
    if i == n {
        return String::from_str(s);
    }
    if i > 0 && s.get_char(i - 1) == '\r' {
        String::from_str(s.substring_char(0, i - 1))
    } else {
        String::from_str(s.substring_char(0, i))
    }
}

/// The name of a remote-tracking branch without its remote: the second
/// `/`-separated field of `origin/name`, when there is one and it is not
/// empty.
pub open spec fn remote_short_of(full: Seq<char>) -> Option<Seq<char>> {
    match first_index(full, '/', 0) {
        Some(i) => {
            let rest = full.subrange(i + 1, full.len() as int);
            let field = match first_index(rest, '/', 0) {
                Some(j) => rest.subrange(0, j),
                None => rest,
            };
            if field.len() > 0 {
                Some(field)
            } else {
                None
            }
        },
        None => None,
    }
}

fn find_char(s: &str, n: usize, c: char) -> (r: usize)
    requires
        n == s@.len(),
    ensures
        r <= n,
        r == n <==> first_index(s@, c, 0) is None,
        r < n ==> first_index(s@, c, 0) == Some(r as int),
{
    let mut i: usize = 0;
    while i < n && s.get_char(i) != c
        invariant
            n == s@.len(),
            i <= n,
            first_index(s@, c, 0) == first_index(s@, c, i as int),
        decreases n - i,
    {
        i = i + 1;
    }
    i
}

/// The short name of remote-tracking branch `full`.
pub fn remote_branch_short_name(full: &str) -> (r: Option<String>)
    ensures
        r is Some <==> remote_short_of(full@) is Some,
        r matches Some(x) ==> remote_short_of(full@) == Some(x@),
{
    let n = full.unicode_len();
    let i = find_char(full, n, '/');
    if i == n {
        return None;
    }
    let rest = full.substring_char(i + 1, n);
    let m = rest.unicode_len();
    let j = find_char(rest, m, '/');
    if j == m {
        assert(rest@.subrange(0, m as int) =~= rest@);
    }
    let field = rest.substring_char(0, j);
    if field.unicode_len() > 0 {
        Some(String::from_str(field))
    } else {
        None
    }
}

/// How a commit changed a file.
#[derive(Clone, Copy, Debug, PartialEq, Eq, Structural)]
pub enum ChangeKind {
    Added,
    Deleted,
    Modified,
    Renamed,
    Copied,
    Other,
}

/// The word shown for each kind of change.
pub open spec fn change_word(k: ChangeKind) -> Seq<char> {
    match k {
        ChangeKind::Added => "added"@,
        ChangeKind::Deleted => "deleted"@,
        ChangeKind::Modified => "modified"@,
        ChangeKind::Renamed => "renamed"@,
        ChangeKind::Copied => "copied"@,
        ChangeKind::Other => "changed"@,
    }
}

impl ChangeKind {
    /// The word shown for the change.
    pub fn as_str(self) -> (r: &'static str)
        ensures
            r@ == change_word(self),
    {
        match self {
            ChangeKind::Added => "added",
            ChangeKind::Deleted => "deleted",
            ChangeKind::Modified => "modified",
            ChangeKind::Renamed => "renamed",
            ChangeKind::Copied => "copied",
            ChangeKind::Other => "changed",
        }
    }
}

/// Reference name of local branch `name`.
pub fn local_branch_ref(name: &str) -> (r: String)
    ensures
        r@ == "refs/heads/"@ + name@,
{
    join2("refs/heads/", name)
}

/// What `chrono` writes, as `%Y-%m-%d %H:%M` in UTC, for the instant `secs`
/// seconds after the Unix epoch; `None` when that instant is out of its
/// range.
pub uninterp spec fn utc_minute_text(secs: int) -> Option<Seq<char>>;

/// Relies on `chrono::Utc.timestamp_opt(secs, 0)`, which gives a single
/// date-time or none when out of range, and on `DateTime::format` with
/// `%Y-%m-%d %H:%M`; the text depends on `secs` alone.
#[verifier::external_body]
fn utc_minutes(secs: i64) -> (r: Option<String>)
    ensures
        r is Some <==> utc_minute_text(secs as int) is Some,
        r matches Some(t) ==> utc_minute_text(secs as int) == Some(t@),
{
    match chrono::Utc.timestamp_opt(secs, 0).single() {
        Some(dt) => Some(dt.format("%Y-%m-%d %H:%M").to_string()),
        None => None,
    }
}

/// Decimal form of `n`, with a leading `-` when negative.
pub open spec fn signed_decimal(n: int) -> Seq<char> {
    if n < 0 {
        seq!['-'] + decimal((-n) as nat)
    } else {
        decimal(n as nat)
    }
}

/// Decimal form of `n`.
pub fn signed_decimal_text(n: i64) -> (r: String)
    ensures
        r@ == signed_decimal(n as int),
{
    if n < 0 {
        let m: u64 = ((-(n + 1)) as u64) + 1;
        let d = decimal_text(m);
        let r = join2("-", d.as_str());
        proof {
            reveal_strlit("-");
            assert("-"@ =~= seq!['-']);
        }
        r
    } else {
        decimal_text(n as u64)
    }
}

/// The date shown for a commit made `secs` seconds after the Unix epoch:
/// its UTC date and minute, or the number itself when out of range.
pub fn format_timestamp(secs: i64) -> (r: String)
    ensures
        utc_minute_text(secs as int) matches Some(t) ==> r@ == t,
        utc_minute_text(secs as int) is None ==> r@ == signed_decimal(secs as int),
{
    match utc_minutes(secs) {
        Some(t) => t,
        None => signed_decimal_text(secs),
    }
}


/// The branch to preselect in a list of branches: the current one when the
/// list has it, else the first; none for an empty list.
pub fn preferred_branch(branches: &Vec<String>, current: &str) -> (r: Option<usize>)
    ensures
        texts(branches@).contains(current@) ==> (r matches Some(i) && i < branches@.len()
            && branches@[i as int]@ == current@),
        !texts(branches@).contains(current@) && branches@.len() > 0 ==> r == Some(0usize),
        branches@.len() == 0 ==> r is None,
{
    let mut i: usize = 0;
    while i < branches.len()
        invariant
            i <= branches@.len(),
            forall|k: int| 0 <= k < i ==> branches@[k]@ != current@,
        decreases branches@.len() - i,
    {
        if same_text(branches[i].as_str(), current) {
            assert(texts(branches@)[i as int] == current@);
            return Some(i);
        }
        i = i + 1;
    }
    assert(!texts(branches@).contains(current@)) by {
        if texts(branches@).contains(current@) {
            let k = choose|k: int| 0 <= k < texts(branches@).len() && texts(branches@)[k] == current@;
            assert(branches@[k]@ == current@);
        }
    }
    if branches.len() > 0 {
        Some(0)
    } else {
        None
    }
}

} // verus!
