//! Projects, their declared scripts, and the command line that runs a
//! script through the project's package manager.

use vstd::prelude::*;
use crate::text::same_text;
use vstd::utf8::encode_utf8;

verus! {

/// A project found on disk: its name, directory, and the scripts its
/// `package.json` declares as `(name, command)` pairs, in file order.
pub struct Project {
    pub name: String,
    pub path: String,
    pub scripts: Vec<(String, String)>,
}

/// The names of the scripts that `p` declares, in order.
pub open spec fn script_names(p: &Project) -> Seq<Seq<char>> {
    p.scripts@.map_values(|e: (String, String)| e.0@)
}

/// Whether `p` declares a script called `script`.
pub open spec fn declares(p: &Project, script: Seq<char>) -> bool {
    script_names(p).contains(script)
}

/// Whether the project declares a script called `script`.
pub fn declares_script(project: &Project, script: &str) -> (r: bool)
    ensures
        r == declares(project, script@),
{
    let mut i: usize = 0;
    while i < project.scripts.len()
        invariant
            i <= project.scripts@.len(),
            forall|k: int| 0 <= k < i ==> project.scripts@[k].0@ != script@,
        decreases project.scripts@.len() - i,
    {
        if same_text(project.scripts[i].0.as_str(), script) {
            assert(script_names(project)[i as int] == script@);
            return true;
        }
        i = i + 1;
    }
    assert(!script_names(project).contains(script@)) by {
        if script_names(project).contains(script@) {
            let k = choose|k: int| 0 <= k < script_names(project).len() && script_names(project)[k] == script@;
            assert(project.scripts@[k].0@ == script@);
        }
    }
    false
}

/// The package manager that runs a project's scripts.
#[derive(Clone, Copy, Debug, PartialEq, Eq, Structural)]
pub enum PackageManager {
    Npm,
    Yarn,
    Pnpm,
}

/// How a script runs over several projects: all at once, or one after the
/// other, each waited for.
#[derive(Clone, Copy, Debug, PartialEq, Eq, Structural)]
pub enum ScriptRunMode {
    Parallel,
    Sequence,
}

/// Lock file whose presence selects pnpm.
pub const PNPM_LOCK_FILE: &'static str = "pnpm-lock.yaml";

/// Lock file whose presence selects yarn.
pub const YARN_LOCK_FILE: &'static str = "yarn.lock";

/// The package manager for a project directory, from which lock files it
/// holds: pnpm's lock wins over yarn's, and npm is the default.
pub open spec fn package_manager_for(has_pnpm_lock: bool, has_yarn_lock: bool) -> PackageManager {
    if has_pnpm_lock {
        PackageManager::Pnpm
    } else if has_yarn_lock {
        PackageManager::Yarn
    } else {
        PackageManager::Npm
    }
}

/// Chooses the package manager from the lock files present in the project
/// directory (`PNPM_LOCK_FILE`, `YARN_LOCK_FILE`).
pub fn detect_package_manager(has_pnpm_lock: bool, has_yarn_lock: bool) -> (r: PackageManager)
    ensures
        r == package_manager_for(has_pnpm_lock, has_yarn_lock),
{
    if has_pnpm_lock {
        PackageManager::Pnpm
    } else if has_yarn_lock {
        PackageManager::Yarn
    } else {
        PackageManager::Npm
    }
}

/// Program and arguments that run `script` with `pm`.
pub open spec fn command_args(pm: PackageManager, script: Seq<char>) -> Seq<Seq<char>> {
    match pm {
        PackageManager::Npm => seq!["npm"@, "run"@, script],
        PackageManager::Yarn => seq!["yarn"@, script],
        PackageManager::Pnpm => seq!["pnpm"@, script],
    }
}

/// The same command as one line, as a shell would read it.
pub open spec fn command_line(pm: PackageManager, script: Seq<char>) -> Seq<char> {
    match pm {
        PackageManager::Npm => "npm run "@ + script,
        PackageManager::Yarn => "yarn "@ + script,
        PackageManager::Pnpm => "pnpm "@ + script,
    }
}

/// The views of a vector of strings.
pub open spec fn texts(v: Seq<String>) -> Seq<Seq<char>> {
    v.map_values(|x: String| x@)
}

/// The command that runs `script_name` with `package_manager`: as one shell
/// line, and as program followed by arguments.
pub fn shell_cmd_and_args(package_manager: PackageManager, script_name: &str) -> (r: (String, Vec<String>))
    ensures
        r.0@ == command_line(package_manager, script_name@),
        texts(r.1@) == command_args(package_manager, script_name@),
{
    let mut args: Vec<String> = Vec::new();
    let line = match package_manager {
        PackageManager::Npm => {
            args.push(String::from_str("npm"));
            args.push(String::from_str("run"));
            crate::text::join2("npm run ", script_name)
        },
        PackageManager::Yarn => {
            args.push(String::from_str("yarn"));
            crate::text::join2("yarn ", script_name)
        },
        PackageManager::Pnpm => {
            args.push(String::from_str("pnpm"));
            crate::text::join2("pnpm ", script_name)
        },
    };
    args.push(String::from_str(script_name));
    assert(texts(args@) =~= command_args(package_manager, script_name@));
    (line, args)
}

/// Why a script could not be run.
pub enum ScriptError {
    /// The process could not be started; the system's message.
    Io(String),
    /// The script ran and failed.
    Failed(String),
    /// The project does not declare the script.
    NotDeclared(String),
    /// No project stands at the given position.
    UnknownProject,
    /// A placeholder session has no project and script chosen yet.
    NoTarget,
    /// No session stands at the given position.
    NoSession,
    /// The session's process is still running.
    Busy,
}

impl ScriptError {
    /// A human-readable account of the error.
    pub fn message(&self) -> (r: String)
        ensures
            r@ == error_text(*self),
    {
        match self {
            ScriptError::Io(m) => crate::text::join2("IO error: ", m.as_str()),
            ScriptError::Failed(m) => crate::text::join2("Script failed: ", m.as_str()),
            ScriptError::NotDeclared(s) => crate::text::join3("the project has no script \"", s.as_str(), "\""),
            ScriptError::UnknownProject => String::from_str("project not found"),
            ScriptError::NoTarget => String::from_str("choose a project and a script first"),
            ScriptError::NoSession => String::from_str("no such session"),
            ScriptError::Busy => String::from_str("the session is still running"),
        }
    }
}

/// The text of each error.
pub open spec fn error_text(e: ScriptError) -> Seq<char> {
    match e {
        ScriptError::Io(m) => "IO error: "@ + m@,
        ScriptError::Failed(m) => "Script failed: "@ + m@,
        ScriptError::NotDeclared(s) => "the project has no script \""@ + s@ + "\""@,
        ScriptError::UnknownProject => "project not found"@,
        ScriptError::NoTarget => "choose a project and a script first"@,
        ScriptError::NoSession => "no such session"@,
        ScriptError::Busy => "the session is still running"@,
    }
}

/// Positions, in order, of the projects that declare `script`: the projects
/// that a run over all of them starts.
pub fn projects_with_script(projects: &Vec<Project>, script: &str) -> (r: Vec<usize>)
    ensures
        r@ == Seq::new(projects@.len(), |i: int| i as usize).filter(|i: usize| declares(&projects@[i as int], script@)),
{
    let ghost all = Seq::new(projects@.len(), |i: int| i as usize);
    let ghost pred = |i: usize| declares(&projects@[i as int], script@);
    let mut out: Vec<usize> = Vec::new();
    let mut i: usize = 0;
    while i < projects.len()
        invariant
            i <= projects@.len(),
            all == Seq::new(projects@.len(), |i: int| i as usize),
            pred == (|i: usize| declares(&projects@[i as int], script@)),
            out@ == all.subrange(0, i as int).filter(pred),
        decreases projects@.len() - i,
    {
        let d = declares_script(&projects[i], script);
        proof {
            let sub = all.subrange(0, i as int);
            assert(all.subrange(0, i + 1) =~= sub.push(i));
            sub.lemma_filter_push(i, pred);
        }
        if d {
            out.push(i);
        }
        i = i + 1;
    }
    assert(all.subrange(0, projects@.len() as int) =~= all);
    out
}


/// Whether every project declares `script`.
pub open spec fn declared_by_all(projects: Seq<Project>, script: Seq<char>) -> bool {
    forall|k: int| 0 <= k < projects.len() ==> declares(&#[trigger] projects[k], script)
}

/// `names` with `name` added at the end unless it is already there.
pub open spec fn add_unique(names: Seq<Seq<char>>, name: Seq<char>) -> Seq<Seq<char>> {
    if names.contains(name) {
        names
    } else {
        names.push(name)
    }
}

/// The names among `names` that every project declares, each once, in
/// order of first appearance.
pub open spec fn common_from(names: Seq<Seq<char>>, projects: Seq<Project>) -> Seq<Seq<char>>
    decreases names.len(),
{
    if names.len() == 0 {
        Seq::empty()
    } else {
        let before = common_from(names.drop_last(), projects);
        if declared_by_all(projects, names.last()) {
            add_unique(before, names.last())
        } else {
            before
        }
    }
}

/// Byte-wise lexicographic order.
pub open spec fn bytes_le(a: Seq<u8>, b: Seq<u8>) -> bool
    decreases a.len(),
{
    if a.len() == 0 {
        true
    } else if b.len() == 0 {
        false
    } else if a[0] != b[0] {
        a[0] < b[0]
    } else {
        bytes_le(a.drop_first(), b.drop_first())
    }
}

/// The order of `String`: lexicographic on the UTF-8 bytes.
pub open spec fn text_le(a: Seq<char>, b: Seq<char>) -> bool {
    bytes_le(encode_utf8(a), encode_utf8(b))
}

/// Whether `v` is in `String` order.
pub open spec fn is_sorted_texts(v: Seq<Seq<char>>) -> bool {
    forall|i: int, j: int| 0 <= i < j < v.len() ==> text_le(#[trigger] v[i], #[trigger] v[j])
}

/// Relies on `slice::sort` for `String`: the same strings, rearranged into
/// `String`'s order, which compares the UTF-8 bytes lexicographically.
#[verifier::external_body]
pub(crate) fn sort_texts(v: &mut Vec<String>)
    ensures
        texts(final(v)@).to_multiset() == texts(old(v)@).to_multiset(),
        is_sorted_texts(texts(final(v)@)),
{
    v.sort();
}

fn declared_by_every(projects: &Vec<Project>, script: &str) -> (r: bool)
    ensures
        r == declared_by_all(projects@, script@),
{
    let mut i: usize = 0;
    while i < projects.len()
        invariant
            i <= projects@.len(),
            forall|k: int| 0 <= k < i ==> declares(&#[trigger] projects@[k], script@),
        decreases projects@.len() - i,
    {
        if !declares_script(&projects[i], script) {
            return false;
        }
        i = i + 1;
    }
    true
}

/// The script names that every project declares, each once, in `String`
/// order; none when there is no project.
pub fn common_script_names(projects: &Vec<Project>) -> (r: Vec<String>)
    ensures
        projects@.len() == 0 ==> r@.len() == 0,
        projects@.len() > 0 ==> texts(r@).to_multiset() == common_from(script_names(&projects@[0]), projects@).to_multiset(),
        is_sorted_texts(texts(r@)),
{
    let mut out: Vec<String> = Vec::new();
    if projects.len() == 0 {
        return out;
    }
    let first = &projects[0];
    let ghost names = script_names(first);
    let mut i: usize = 0;
    assert(texts(out@) =~= Seq::<Seq<char>>::empty());
    while i < first.scripts.len()
        invariant
            i <= first.scripts@.len(),
            names == script_names(first),
            texts(out@) == common_from(names.subrange(0, i as int), projects@),
        decreases first.scripts@.len() - i,
    {
        let name = &first.scripts[i].0;
        proof {
            assert(names.subrange(0, i + 1).drop_last() =~= names.subrange(0, i as int));
            assert(names.subrange(0, i + 1).last() == name@);
        }
        if declared_by_every(projects, name.as_str()) {
            let ghost views = texts(out@);
            let mut k: usize = 0;
            let mut seen = false;
            while k < out.len() && !seen
                invariant
                    k <= out@.len(),
                    views == texts(out@),
                    seen ==> views.contains(name@),
                    !seen ==> forall|x: int| 0 <= x < k ==> views[x] != name@,
                decreases out@.len() - k + (if seen { 0int } else { 1int }),
            {
                if same_text(out[k].as_str(), name.as_str()) {
                    assert(views[k as int] == name@);
                    seen = true;
                } else {
                    k = k + 1;
                }
            }
            if !seen {
                out.push(name.clone());
                assert(texts(out@) =~= views.push(name@));
            }
        }
        i = i + 1;
    }
    assert(names.subrange(0, first.scripts@.len() as int) =~= names);
    sort_texts(&mut out);
    out
}


/// The chosen positions, in the order given, that stand for a project
/// declaring `script`; positions past the end are left out.
pub fn runnable_selection(projects: &Vec<Project>, selected: &Vec<usize>, script: &str) -> (r: Vec<usize>)
    ensures
        r@ == selected@.filter(|i: usize| i < projects@.len() && declares(&projects@[i as int], script@)),
{
    let ghost pred = |i: usize| i < projects@.len() && declares(&projects@[i as int], script@);
    let mut out: Vec<usize> = Vec::new();
    let mut k: usize = 0;
    while k < selected.len()
        invariant
            k <= selected@.len(),
            pred == (|i: usize| i < projects@.len() && declares(&projects@[i as int], script@)),
            out@ == selected@.subrange(0, k as int).filter(pred),
        decreases selected@.len() - k,
    {
        let i = selected[k];
        proof {
            let sub = selected@.subrange(0, k as int);
            assert(selected@.subrange(0, k + 1) =~= sub.push(i));
            sub.lemma_filter_push(i, pred);
        }
        if i < projects.len() && declares_script(&projects[i], script) {
            out.push(i);
        }
        k = k + 1;
    }
    assert(selected@.subrange(0, selected@.len() as int) =~= selected@);
    out
}

} // verus!
