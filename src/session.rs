//! The registry of terminal sessions: their lines and their lifecycle.
//!
//! A session is a placeholder, running, or terminated (finished, stopped,
//! or failed to start). The registry decides every transition; the caller
//! owns the processes and reports what they did (lines read, exit seen),
//! and is told which process to kill.

use vstd::prelude::*;
use crate::scripts::{Project, PackageManager, ScriptError, declares, declares_script, command_line, shell_cmd_and_args, texts};
use crate::text::{join2, join3};

verus! {

/// Where a session stands in its lifecycle.
#[derive(Clone, Copy, Debug, PartialEq, Eq, Structural)]
pub enum SessionState {
    /// No process yet: waiting for a project and script to be chosen.
    Placeholder,
    /// A process is running and its output is being collected.
    Running,
    /// The process exited by itself.
    Finished,
    /// The process was killed.
    Stopped,
    /// The process could not be started.
    Failed,
}

/// Whether a session with this state has ended.
pub open spec fn is_terminated(s: SessionState) -> bool {
    s is Finished || s is Stopped || s is Failed
}

/// The project (by position) and script that a session runs.
pub struct ScriptTarget {
    pub project: usize,
    pub script: String,
}

/// One terminal session.
pub struct TerminalSession {
    pub name: String,
    pub lines: Vec<String>,
    pub state: SessionState,
    pub target: Option<ScriptTarget>,
}

/// What a session holds, as values.
pub struct SessionModel {
    pub name: Seq<char>,
    pub lines: Seq<Seq<char>>,
    pub state: SessionState,
    pub target: Option<(usize, Seq<char>)>,
}

impl View for TerminalSession {
    type V = SessionModel;

    open spec fn view(&self) -> SessionModel {
        SessionModel {
            name: self.name@,
            lines: texts(self.lines@),
            state: self.state,
            target: match self.target {
                Some(t) => Some((t.project, t.script@)),
                None => None,
            },
        }
    }
}

/// Line appended when a process exits by itself.
pub const FINISHED_MARKER: &'static str = "[process finished]";

/// Line appended when a process is killed.
pub const STOPPED_MARKER: &'static str = "[process stopped]";

/// Name of a new placeholder session.
pub const PLACEHOLDER_NAME: &'static str = "New terminal";

/// Display name of a session running `script` of a project.
pub open spec fn session_name(project_name: Seq<char>, script: Seq<char>) -> Seq<char> {
    project_name + " » "@ + script
}

/// First line of a running session: the project and the command.
pub open spec fn header_line(project_name: Seq<char>, pm: PackageManager, script: Seq<char>) -> Seq<char> {
    "> "@ + project_name + " » "@ + command_line(pm, script)
}

/// The line that reports a launch failure.
pub open spec fn error_line(message: Seq<char>) -> Seq<char> {
    "[error] "@ + message
}

/// The session that a launch of `script` of project `p` (at position `pi`)
/// yields: running with the header line, or failed with the error line.
pub open spec fn launched_session(p: &Project, pi: usize, script: Seq<char>, pm: PackageManager, launched: Result<(), String>) -> SessionModel {
    SessionModel {
        name: session_name(p.name@, script),
        lines: match launched {
            Ok(_) => seq![header_line(p.name@, pm, script)],
            Err(m) => seq![error_line(m@)],
        },
        state: match launched {
            Ok(_) => SessionState::Running,
            Err(_) => SessionState::Failed,
        },
        target: Some((pi, script)),
    }
}

/// The lines that a session's process delivers, its exit, or a request to
/// stop it.
pub enum SessionEvent {
    Output(Seq<Seq<char>>),
    Exited,
    Stop,
}

/// The sessions after `ev` reaches session `i`. Only a running session
/// changes: output is appended, an exit finishes it and a stop stops it,
/// each of those two with its marker line.
pub open spec fn apply_event(ms: Seq<SessionModel>, i: int, ev: SessionEvent) -> Seq<SessionModel> {
    if 0 <= i < ms.len() && ms[i].state is Running {
        let m = ms[i];
        match ev {
            SessionEvent::Output(lines) => ms.update(i, SessionModel { lines: m.lines + lines, ..m }),
            SessionEvent::Exited => ms.update(
                i,
                SessionModel { lines: m.lines.push(FINISHED_MARKER@), state: SessionState::Finished, ..m },
            ),
            SessionEvent::Stop => ms.update(
                i,
                SessionModel { lines: m.lines.push(STOPPED_MARKER@), state: SessionState::Stopped, ..m },
            ),
        }
    } else {
        ms
    }
}

/// The selection after closing session `i`, when `remaining` sessions are
/// left: cleared when none is left, kept within range, and moved down by one
/// when it was past `i`.
pub open spec fn selection_after_close(sel: Option<usize>, i: int, remaining: int) -> Option<usize> {
    match sel {
        None => None,
        Some(k) => if remaining == 0 {
            None
        } else if k >= remaining {
            Some((remaining - 1) as usize)
        } else if k > i {
            Some((k - 1) as usize)
        } else {
            Some(k)
        },
    }
}

/// A session's target must be set once it has left the placeholder state.
pub open spec fn session_ok(m: SessionModel) -> bool {
    !(m.state is Placeholder) ==> m.target is Some
}

/// Position of the project that a session targets.
pub open spec fn target_project(m: SessionModel) -> usize {
    match m.target {
        Some(t) => t.0,
        None => 0,
    }
}

/// Script that a session targets.
pub open spec fn target_script(m: SessionModel) -> Seq<char> {
    match m.target {
        Some(t) => t.1,
        None => Seq::empty(),
    }
}

/// Whether session `index` can be run again: it exists, is not running, and
/// its target names a project that declares its script.
pub open spec fn can_rerun(ms: Seq<SessionModel>, index: int, projects: Seq<Project>) -> bool {
    &&& 0 <= index < ms.len()
    &&& !(ms[index].state is Running)
    &&& ms[index].target matches Some(t)
    &&& t.0 < projects.len()
    &&& declares(&projects[t.0 as int], t.1)
}

/// The ordered sessions and the selected one, if any.
pub struct SessionRegistry {
    sessions: Vec<TerminalSession>,
    selected: Option<usize>,
}

impl SessionRegistry {
    /// The sessions, in order.
    pub closed spec fn models(&self) -> Seq<SessionModel> {
        self.sessions@.map_values(|t: TerminalSession| t@)
    }

    /// The selected session.
    pub closed spec fn selection(&self) -> Option<usize> {
        self.selected
    }

    /// The selection lies within the sessions (and is none exactly when there
    /// are none), and every session that left the placeholder state has a
    /// target.
    pub open spec fn wf(&self) -> bool {
        &&& match self.selection() {
            Some(k) => k < self.models().len(),
            None => self.models().len() == 0,
        }
        &&& forall|i: int| 0 <= i < self.models().len() ==> session_ok(#[trigger] self.models()[i])
    }

    /// An empty registry.
    pub fn new() -> (r: SessionRegistry)
        ensures
            r.wf(),
            r.models().len() == 0,
            r.selection() is None,
    {
        let r = SessionRegistry { sessions: Vec::new(), selected: None };
        assert(r.models() =~= Seq::<SessionModel>::empty());
        r
    }

    /// Number of sessions.
    pub fn len(&self) -> (r: usize)
        ensures
            r == self.models().len(),
    {
        self.sessions.len()
    }

    /// The selected session, if any.
    pub fn selected(&self) -> (r: Option<usize>)
        ensures
            r == self.selection(),
    {
        self.selected
    }

    /// The session at `index`.
    pub fn session(&self, index: usize) -> (r: &TerminalSession)
        requires
            index < self.models().len(),
        ensures
            r@ == self.models()[index as int],
    {
        &self.sessions[index]
    }

    /// Selects session `index`.
    pub fn select(&mut self, index: usize)
        requires
            old(self).wf(),
            index < old(self).models().len(),
        ensures
            final(self).wf(),
            final(self).models() == old(self).models(),
            final(self).selection() == Some(index),
    {
        self.selected = Some(index);
    }

    proof fn lemma_models_push(&self, t: TerminalSession, after: Seq<TerminalSession>)
        requires
            after == self.sessions@.push(t),
        ensures
            after.map_values(|t: TerminalSession| t@) == self.models().push(t@),
    {
        assert(after.map_values(|t: TerminalSession| t@) =~= self.models().push(t@));
    }

    fn push_session(&mut self, t: TerminalSession) -> (r: usize)
        requires
            old(self).wf(),
            session_ok(t@),
        ensures
            final(self).wf(),
            r == old(self).models().len(),
            final(self).models() == old(self).models().push(t@),
            final(self).selection() == Some(r),
    {
        proof {
            self.lemma_models_push(t, self.sessions@.push(t));
        }
        self.sessions.push(t);
        let r = self.sessions.len() - 1;
        self.selected = Some(r);
        r
    }

    fn replace_session(&mut self, index: usize, t: TerminalSession)
        requires
            old(self).wf(),
            index < old(self).models().len(),
            session_ok(t@),
        ensures
            final(self).wf(),
            final(self).models() == old(self).models().update(index as int, t@),
            final(self).selection() == old(self).selection(),
    {
        self.sessions.set(index, t);
        assert(self.models() =~= old(self).models().update(index as int, t@));
    }

    /// Starts `script` of project `project_index`. The project must declare
    /// the script; otherwise nothing changes and the error says why.
    /// `launched` is what the attempt to start the process gave: on success
    /// a running session with a header line is added, on failure a failed
    /// session whose only line is the error. The new session is selected.
    pub fn start(
        &mut self,
        projects: &Vec<Project>,
        project_index: usize,
        script: &str,
        pm: PackageManager,
        launched: Result<(), String>,
    ) -> (r: Result<usize, ScriptError>)
        requires
            old(self).wf(),
        ensures
            final(self).wf(),
            project_index >= projects@.len() ==> r matches Err(ScriptError::UnknownProject),
            project_index < projects@.len() && !declares(&projects@[project_index as int], script@)
                ==> (r matches Err(ScriptError::NotDeclared(s)) && s@ == script@),
            r is Err ==> final(self).models() == old(self).models() && final(self).selection() == old(self).selection(),
            r is Ok <==> project_index < projects@.len() && declares(&projects@[project_index as int], script@),
            r matches Ok(k) ==> {
                &&& k == old(self).models().len()
                &&& final(self).models() == old(self).models().push(
                    launched_session(&projects@[project_index as int], project_index, script@, pm, launched),
                )
                &&& final(self).selection() == Some(k)
            },
    {
        if project_index >= projects.len() {
            return Err(ScriptError::UnknownProject);
        }
        let project = &projects[project_index];
        if !declares_script(project, script) {
            return Err(ScriptError::NotDeclared(String::from_str(script)));
        }
        let t = new_session(project, project_index, script, pm, launched);
        Ok(self.push_session(t))
    }

    /// Checks that session `index` can be run again, and gives the position
    /// of the project to launch when it can.
    pub fn rerun_target(&self, index: usize, projects: &Vec<Project>) -> (r: Result<usize, ScriptError>)
        requires
            self.wf(),
        ensures
            r is Ok <==> can_rerun(self.models(), index as int, projects@),
            r matches Ok(p) ==> (self.models()[index as int].target is Some && target_project(self.models()[index as int]) == p),
            index >= self.models().len() ==> r matches Err(ScriptError::NoSession),
            index < self.models().len() && self.models()[index as int].state is Running
                ==> r matches Err(ScriptError::Busy),
            index < self.models().len() && !(self.models()[index as int].state is Running)
                && self.models()[index as int].target is None ==> r matches Err(ScriptError::NoTarget),
            index < self.models().len() && !(self.models()[index as int].state is Running)
                && self.models()[index as int].target is Some
                && target_project(self.models()[index as int]) >= projects@.len()
                ==> r matches Err(ScriptError::UnknownProject),
            index < self.models().len() && !(self.models()[index as int].state is Running)
                && self.models()[index as int].target is Some
                && target_project(self.models()[index as int]) < projects@.len()
                && !declares(&projects@[target_project(self.models()[index as int]) as int], target_script(self.models()[index as int]))
                ==> (r matches Err(ScriptError::NotDeclared(s)) && s@ == target_script(self.models()[index as int])),
    {
        if index >= self.sessions.len() {
            return Err(ScriptError::NoSession);
        }
        let s = &self.sessions[index];
        assert(s@ == self.models()[index as int]);
        if s.state == SessionState::Running {
            return Err(ScriptError::Busy);
        }
        match &s.target {
            None => Err(ScriptError::NoTarget),
            Some(t) => {
                if t.project >= projects.len() {
                    Err(ScriptError::UnknownProject)
                } else if !declares_script(&projects[t.project], t.script.as_str()) {
                    Err(ScriptError::NotDeclared(t.script.clone()))
                } else {
                    Ok(t.project)
                }
            },
        }
    }

    /// Runs session `index` again with its stored target, in place. Nothing
    /// changes unless `rerun_target` accepts it; then the session becomes
    /// what `launched` gave, as with `start`.
    pub fn rerun(
        &mut self,
        index: usize,
        projects: &Vec<Project>,
        pm: PackageManager,
        launched: Result<(), String>,
    ) -> (r: Result<(), ScriptError>)
        requires
            old(self).wf(),
        ensures
            final(self).wf(),
            r is Ok <==> can_rerun(old(self).models(), index as int, projects@),
            r is Err ==> final(self).models() == old(self).models() && final(self).selection() == old(self).selection(),
            r is Ok ==> final(self).models() == old(self).models().update(
                index as int,
                launched_session(
                    &projects@[target_project(old(self).models()[index as int]) as int],
                    target_project(old(self).models()[index as int]),
                    target_script(old(self).models()[index as int]),
                    pm,
                    launched,
                ),
            ),
            final(self).selection() == old(self).selection(),
    {
        let p = match self.rerun_target(index, projects) {
            Ok(p) => p,
            Err(e) => return Err(e),
        };
        let script = match &self.sessions[index].target {
            Some(t) => t.script.clone(),
            None => return Err(ScriptError::NoTarget),
        };
        let t = new_session(&projects[p], p, script.as_str(), pm, launched);
        self.replace_session(index, t);
        Ok(())
    }

    /// Adds a placeholder session, with no process and no target, and
    /// selects it.
    pub fn add_placeholder(&mut self) -> (r: usize)
        requires
            old(self).wf(),
        ensures
            final(self).wf(),
            r == old(self).models().len(),
            final(self).models() == old(self).models().push(
                SessionModel { name: PLACEHOLDER_NAME@, lines: Seq::empty(), state: SessionState::Placeholder, target: None },
            ),
            final(self).selection() == Some(r),
    {
        let t = TerminalSession {
            name: String::from_str(PLACEHOLDER_NAME),
            lines: Vec::new(),
            state: SessionState::Placeholder,
            target: None,
        };
        assert(texts(t.lines@) =~= Seq::<Seq<char>>::empty());
        self.push_session(t)
    }

    /// Chooses the project and script of placeholder `index`. Returns
    /// whether it was a placeholder; any other session is left unchanged.
    pub fn set_placeholder_target(&mut self, index: usize, project: usize, script: &str) -> (r: bool)
        requires
            old(self).wf(),
        ensures
            final(self).wf(),
            r == (index < old(self).models().len() && old(self).models()[index as int].state is Placeholder),
            r ==> final(self).models() == old(self).models().update(
                index as int,
                SessionModel { target: Some((project, script@)), ..old(self).models()[index as int] },
            ),
            !r ==> final(self).models() == old(self).models(),
            final(self).selection() == old(self).selection(),
    {
        if index >= self.sessions.len() || self.sessions[index].state != SessionState::Placeholder {
            return false;
        }
        let mut t = self.sessions.remove(index);
        assert(t@ == old(self).models()[index as int]);
        t.target = Some(ScriptTarget { project, script: String::from_str(script) });
        self.sessions.insert(index, t);
        assert(self.models() =~= old(self).models().update(
            index as int,
            SessionModel { target: Some((project, script@)), ..old(self).models()[index as int] },
        ));
        true
    }

    /// Takes `lines` read from the process of session `index` since the last
    /// call. Only a running session takes them.
    pub fn receive(&mut self, index: usize, lines: Vec<String>)
        requires
            old(self).wf(),
        ensures
            final(self).wf(),
            final(self).models() == apply_event(old(self).models(), index as int, SessionEvent::Output(texts(lines@))),
            final(self).selection() == old(self).selection(),
    {
        if index >= self.sessions.len() || self.sessions[index].state != SessionState::Running {
            return;
        }
        let mut t = self.sessions.remove(index);
        let ghost before = t@;
        assert(before == old(self).models()[index as int]);
        let ghost old_lines = t.lines@;
        let mut lines = lines;
        let ghost new_lines = lines@;
        t.lines.append(&mut lines);
        assert(texts(t.lines@) =~= texts(old_lines) + texts(new_lines));
        self.sessions.insert(index, t);
        assert(self.models() =~= old(self).models().update(index as int, SessionModel { lines: before.lines + texts(new_lines), ..before }));
    }

    fn end_session(&mut self, index: usize, marker: &str, state: SessionState)
        requires
            old(self).wf(),
            index < old(self).models().len(),
            old(self).models()[index as int].state is Running,
            is_terminated(state),
        ensures
            final(self).wf(),
            final(self).models() == old(self).models().update(
                index as int,
                SessionModel {
                    lines: old(self).models()[index as int].lines.push(marker@),
                    state,
                    ..old(self).models()[index as int]
                },
            ),
            final(self).selection() == old(self).selection(),
    {
        let mut t = self.sessions.remove(index);
        let ghost before = t@;
        assert(before == old(self).models()[index as int]);
        let ghost old_lines = t.lines@;
        t.lines.push(String::from_str(marker));
        assert(texts(t.lines@) =~= texts(old_lines).push(marker@));
        t.state = state;
        self.sessions.insert(index, t);
        assert(self.models() =~= old(self).models().update(
            index as int,
            SessionModel { lines: before.lines.push(marker@), state, ..before },
        ));
    }

    /// Records that the process of session `index` has exited: a running
    /// session gets the finished marker and becomes finished.
    pub fn mark_exited(&mut self, index: usize)
        requires
            old(self).wf(),
        ensures
            final(self).wf(),
            final(self).models() == apply_event(old(self).models(), index as int, SessionEvent::Exited),
            final(self).selection() == old(self).selection(),
    {
        if index < self.sessions.len() && self.sessions[index].state == SessionState::Running {
            self.end_session(index, FINISHED_MARKER, SessionState::Finished);
        }
    }

    /// One tick's update of session `index`: the lines read since the last
    /// tick, then whether its process has exited.
    pub fn drain_session(&mut self, index: usize, lines: Vec<String>, exited: bool)
        requires
            old(self).wf(),
        ensures
            final(self).wf(),
            final(self).models() == ({
                let m = apply_event(old(self).models(), index as int, SessionEvent::Output(texts(lines@)));
                if exited {
                    apply_event(m, index as int, SessionEvent::Exited)
                } else {
                    m
                }
            }),
            final(self).selection() == old(self).selection(),
    {
        self.receive(index, lines);
        if exited {
            self.mark_exited(index);
        }
    }

    /// Stops session `index`. A running session gets the stopped marker and
    /// becomes stopped, and the result says that its process must be killed;
    /// any other session is left as it is.
    pub fn stop(&mut self, index: usize) -> (kill: bool)
        requires
            old(self).wf(),
        ensures
            final(self).wf(),
            kill == (index < old(self).models().len() && old(self).models()[index as int].state is Running),
            final(self).models() == apply_event(old(self).models(), index as int, SessionEvent::Stop),
            final(self).selection() == old(self).selection(),
    {
        if index < self.sessions.len() && self.sessions[index].state == SessionState::Running {
            self.end_session(index, STOPPED_MARKER, SessionState::Stopped);
            true
        } else {
            false
        }
    }

    /// Stops every session; gives, in order, the positions of those that were
    /// running, whose processes must be killed.
    pub fn stop_all(&mut self) -> (kill: Vec<usize>)
        requires
            old(self).wf(),
        ensures
            final(self).wf(),
            final(self).models().len() == old(self).models().len(),
            forall|i: int| 0 <= i < old(self).models().len() ==> #[trigger] final(self).models()[i]
                == apply_event(old(self).models(), i, SessionEvent::Stop)[i],
            kill@ == Seq::new(old(self).models().len(), |i: int| i as usize).filter(
                |i: usize| old(self).models()[i as int].state is Running,
            ),
            final(self).selection() == old(self).selection(),
    {
        let ghost all = Seq::new(old(self).models().len(), |i: int| i as usize);
        let ghost pred = |i: usize| old(self).models()[i as int].state is Running;
        let mut kill: Vec<usize> = Vec::new();
        let mut i: usize = 0;
        while i < self.sessions.len()
            invariant
                self.wf(),
                i <= self.models().len(),
                self.models().len() == old(self).models().len(),
                self.selection() == old(self).selection(),
                all == Seq::new(old(self).models().len(), |i: int| i as usize),
                pred == (|i: usize| old(self).models()[i as int].state is Running),
                forall|k: int| 0 <= k < i ==> #[trigger] self.models()[k]
                    == apply_event(old(self).models(), k, SessionEvent::Stop)[k],
                forall|k: int| i <= k < self.models().len() ==> #[trigger] self.models()[k]
                    == old(self).models()[k],
                kill@ == all.subrange(0, i as int).filter(pred),
            decreases self.models().len() - i,
        {
            let ghost before = self.models();
            let k = self.stop(i);
            proof {
                let sub = all.subrange(0, i as int);
                assert(all.subrange(0, i + 1) =~= sub.push(i));
                sub.lemma_filter_push(i, pred);
                assert forall|x: int| 0 <= x < self.models().len() && x != i implies #[trigger] self.models()[x] == before[x] by {}
            }
            if k {
                kill.push(i);
            }
            i = i + 1;
        }
        assert(all.subrange(0, old(self).models().len() as int) =~= all);
        kill
    }

    /// Closes session `index`: it is removed and the others keep their order.
    /// The result says whether it was running, so that its process must be
    /// killed. The selection stays within the remaining sessions, or is
    /// cleared when none is left. A position past the end changes nothing.
    pub fn close(&mut self, index: usize) -> (kill: bool)
        requires
            old(self).wf(),
        ensures
            final(self).wf(),
            index >= old(self).models().len() ==> !kill && final(self).models() == old(self).models()
                && final(self).selection() == old(self).selection(),
            index < old(self).models().len() ==> {
                &&& kill == old(self).models()[index as int].state is Running
                &&& final(self).models() == old(self).models().remove(index as int)
                &&& final(self).selection() == selection_after_close(
                    old(self).selection(),
                    index as int,
                    old(self).models().len() - 1,
                )
            },
    {
        if index >= self.sessions.len() {
            return false;
        }
        let ghost before = self.sessions@;
        let t = self.sessions.remove(index);
        assert(self.models() =~= old(self).models().remove(index as int));
        let remaining = self.sessions.len();
        self.selected = match self.selected {
            None => None,
            Some(k) => if remaining == 0 {
                None
            } else if k >= remaining {
                Some(remaining - 1)
            } else if k > index {
                Some(k - 1)
            } else {
                Some(k)
            },
        };
        assert forall|i: int| 0 <= i < self.models().len() implies session_ok(#[trigger] self.models()[i]) by {
            if i < index {
                assert(self.models()[i] == old(self).models()[i]);
            } else {
                assert(self.models()[i] == old(self).models()[i + 1]);
            }
        }
        t.state == SessionState::Running
    }
}

/// A launch that failed gives a terminated session whose only line is a
/// non-empty error line, and no later output, exit or stop changes it.
pub proof fn lemma_failed_launch_stays(
    p: &Project,
    pi: usize,
    script: Seq<char>,
    pm: PackageManager,
    message: String,
    ms: Seq<SessionModel>,
    i: int,
    ev: SessionEvent,
)
    requires
        0 <= i < ms.len(),
        ms[i] == launched_session(p, pi, script, pm, Err(message)),
    ensures
        is_terminated(ms[i].state),
        ms[i].lines.len() == 1,
        ms[i].lines[0].len() > 0,
        apply_event(ms, i, ev) == ms,
{
    reveal_strlit("[error] ");
}

/// Stopping a session twice in a row is the same as stopping it once: the
/// second stop changes nothing.
pub proof fn lemma_stop_twice(ms: Seq<SessionModel>, i: int)
    ensures
        apply_event(apply_event(ms, i, SessionEvent::Stop), i, SessionEvent::Stop) == apply_event(
            ms,
            i,
            SessionEvent::Stop,
        ),
        0 <= i < ms.len() ==> !(apply_event(ms, i, SessionEvent::Stop)[i].state is Running),
{
}

/// Closing session `i` keeps the other sessions in their order, and leaves
/// the selection within the remaining sessions, or cleared when none is left.
pub proof fn lemma_close_keeps_order(ms: Seq<SessionModel>, sel: Option<usize>, i: int)
    requires
        0 <= i < ms.len(),
        sel matches Some(k) ==> k < ms.len(),
    ensures
        ms.remove(i).len() == ms.len() - 1,
        forall|k: int| 0 <= k < i ==> #[trigger] ms.remove(i)[k] == ms[k],
        forall|k: int| i <= k < ms.len() - 1 ==> #[trigger] ms.remove(i)[k] == ms[k + 1],
        selection_after_close(sel, i, ms.len() - 1) matches Some(k) ==> k < ms.len() - 1,
        ms.len() == 1 ==> selection_after_close(sel, i, ms.len() - 1) is None,
        sel is Some && ms.len() > 1 ==> selection_after_close(sel, i, ms.len() - 1) is Some,
{
}

/// While a session runs, events only add lines after those it has; the
/// event that ends it (exit or stop) adds exactly its marker line; and once
/// ended, no event changes it, so the marker is added only once.
pub proof fn lemma_lines_grow_then_marker_once(ms: Seq<SessionModel>, i: int, ev: SessionEvent)
    requires
        0 <= i < ms.len(),
    ensures
        ms[i].state is Running ==> {
            let after = apply_event(ms, i, ev)[i].lines;
            &&& ms[i].lines.len() <= after.len()
            &&& after.subrange(0, ms[i].lines.len() as int) == ms[i].lines
        },
        ms[i].state is Running && is_terminated(apply_event(ms, i, ev)[i].state) ==> apply_event(
            ms,
            i,
            ev,
        )[i].lines == ms[i].lines.push(
            if ev is Exited {
                FINISHED_MARKER@
            } else {
                STOPPED_MARKER@
            },
        ),
        is_terminated(ms[i].state) ==> apply_event(ms, i, ev) == ms,
{
    if ms[i].state is Running {
        let after = apply_event(ms, i, ev)[i].lines;
        match ev {
            SessionEvent::Output(lines) => {
                assert(after.subrange(0, ms[i].lines.len() as int) =~= ms[i].lines);
            },
            _ => {
                assert(after.subrange(0, ms[i].lines.len() as int) =~= ms[i].lines);
            },
        }
    }
}

/// The session that `start` and `rerun` build.
fn new_session(
    project: &Project,
    project_index: usize,
    script: &str,
    pm: PackageManager,
    launched: Result<(), String>,
) -> (t: TerminalSession)
    ensures
        t@ == launched_session(project, project_index, script@, pm, launched),
        session_ok(t@),
{
    let name = join3(project.name.as_str(), " » ", script);
    let mut lines: Vec<String> = Vec::new();
    let state = match launched {
        Ok(_) => {
            let (cmd, _) = shell_cmd_and_args(pm, script);
            let head = join3("> ", project.name.as_str(), " » ");
            lines.push(join2(head.as_str(), cmd.as_str()));
            SessionState::Running
        },
        Err(m) => {
            lines.push(join2("[error] ", m.as_str()));
            SessionState::Failed
        },
    };
    let t = TerminalSession {
        name,
        lines,
        state,
        target: Some(ScriptTarget { project: project_index, script: String::from_str(script) }),
    };
    assert(t@.lines =~= launched_session(project, project_index, script@, pm, launched).lines);
    t
}

} // verus!
