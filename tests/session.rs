use microtermi::scripts::{PackageManager, Project, ScriptError};
use microtermi::session::{SessionRegistry, SessionState, FINISHED_MARKER, PLACEHOLDER_NAME, STOPPED_MARKER};

fn project(name: &str, scripts: &[&str]) -> Project {
    Project {
        name: name.to_string(),
        path: format!("/work/{}", name),
        scripts: scripts.iter().map(|s| (s.to_string(), format!("run {}", s))).collect(),
    }
}

fn projects() -> Vec<Project> {
    vec![project("web", &["dev", "build"]), project("api", &["dev", "test"])]
}

fn lines(r: &SessionRegistry, i: usize) -> Vec<String> {
    r.session(i).lines.clone()
}

#[test]
fn start_undeclared_script_creates_nothing() {
    let ps = projects();
    let mut r = SessionRegistry::new();
    let res = r.start(&ps, 0, "test", PackageManager::Npm, Ok(()));
    match res {
        Err(ScriptError::NotDeclared(s)) => assert_eq!(s, "test"),
        _ => panic!("expected a validation error"),
    }
    assert_eq!(r.len(), 0);
    assert_eq!(r.selected(), None);
}

#[test]
fn start_unknown_project_creates_nothing() {
    let ps = projects();
    let mut r = SessionRegistry::new();
    assert!(matches!(r.start(&ps, 5, "dev", PackageManager::Npm, Ok(())), Err(ScriptError::UnknownProject)));
    assert_eq!(r.len(), 0);
}

#[test]
fn start_running_session_has_header() {
    let ps = projects();
    let mut r = SessionRegistry::new();
    let k = r.start(&ps, 1, "dev", PackageManager::Yarn, Ok(())).ok().unwrap();
    assert_eq!(k, 0);
    assert_eq!(r.selected(), Some(0));
    let s = r.session(0);
    assert_eq!(s.state, SessionState::Running);
    assert_eq!(s.name, "api » dev");
    assert_eq!(s.lines, vec!["> api » yarn dev".to_string()]);
}

#[test]
fn failed_launch_is_terminated_and_stays() {
    let ps = projects();
    let mut r = SessionRegistry::new();
    let msg = "No such file or directory (os error 2)".to_string();
    let k = r.start(&ps, 0, "dev", PackageManager::Npm, Err(msg)).ok().unwrap();
    assert_eq!(r.session(k).state, SessionState::Failed);
    let before = lines(&r, k);
    assert_eq!(before, vec!["[error] No such file or directory (os error 2)".to_string()]);
    assert!(!before[0].is_empty());
    r.drain_session(k, vec!["late".to_string()], true);
    assert_eq!(lines(&r, k), before);
    assert_eq!(r.session(k).state, SessionState::Failed);
    assert!(!r.stop(k));
    assert_eq!(lines(&r, k), before);
}

#[test]
fn stop_twice_is_a_no_op() {
    let ps = projects();
    let mut r = SessionRegistry::new();
    r.start(&ps, 0, "dev", PackageManager::Npm, Ok(())).ok().unwrap();
    assert!(r.stop(0));
    let after_first = lines(&r, 0);
    assert_eq!(r.session(0).state, SessionState::Stopped);
    assert_eq!(after_first.last().unwrap(), STOPPED_MARKER);
    assert!(!r.stop(0));
    assert_eq!(lines(&r, 0), after_first);
    assert_eq!(r.session(0).state, SessionState::Stopped);
}

#[test]
fn close_keeps_order_and_clamps_selection() {
    let ps = projects();
    let mut r = SessionRegistry::new();
    r.start(&ps, 0, "dev", PackageManager::Npm, Ok(())).ok().unwrap();
    r.start(&ps, 1, "dev", PackageManager::Npm, Err("boom".to_string())).ok().unwrap();
    r.add_placeholder();
    assert_eq!(r.selected(), Some(2));
    assert!(r.close(0));
    assert_eq!(r.len(), 2);
    assert_eq!(r.session(0).name, "api » dev");
    assert_eq!(r.session(1).name, PLACEHOLDER_NAME);
    assert_eq!(r.selected(), Some(1));
    assert!(!r.close(1));
    assert_eq!(r.selected(), Some(0));
    assert!(!r.close(0));
    assert_eq!(r.len(), 0);
    assert_eq!(r.selected(), None);
}

#[test]
fn close_before_selection_moves_it_down() {
    let ps = projects();
    let mut r = SessionRegistry::new();
    r.start(&ps, 0, "dev", PackageManager::Npm, Ok(())).ok().unwrap();
    r.start(&ps, 0, "build", PackageManager::Npm, Ok(())).ok().unwrap();
    r.start(&ps, 1, "test", PackageManager::Npm, Ok(())).ok().unwrap();
    r.select(1);
    assert!(r.close(0));
    assert_eq!(r.selected(), Some(0));
    assert_eq!(r.session(0).name, "web » build");
    assert!(!r.close(7));
    assert_eq!(r.len(), 2);
}

#[test]
fn lines_grow_then_marker_once() {
    let ps = projects();
    let mut r = SessionRegistry::new();
    r.start(&ps, 0, "dev", PackageManager::Pnpm, Ok(())).ok().unwrap();
    r.drain_session(0, vec!["one".to_string(), "[stderr] two".to_string()], false);
    assert_eq!(
        lines(&r, 0),
        vec!["> web » pnpm dev".to_string(), "one".to_string(), "[stderr] two".to_string()]
    );
    r.drain_session(0, vec!["three".to_string()], true);
    assert_eq!(r.session(0).state, SessionState::Finished);
    let done = lines(&r, 0);
    assert_eq!(done.len(), 5);
    assert_eq!(done[3], "three");
    assert_eq!(done[4], FINISHED_MARKER);
    r.mark_exited(0);
    r.receive(0, vec!["more".to_string()]);
    assert!(!r.stop(0));
    assert_eq!(lines(&r, 0), done);
}

#[test]
fn stop_all_reports_running_sessions() {
    let ps = projects();
    let mut r = SessionRegistry::new();
    r.start(&ps, 0, "dev", PackageManager::Npm, Ok(())).ok().unwrap();
    r.start(&ps, 1, "dev", PackageManager::Npm, Err("x".to_string())).ok().unwrap();
    r.start(&ps, 1, "test", PackageManager::Npm, Ok(())).ok().unwrap();
    assert_eq!(r.stop_all(), vec![0, 2]);
    assert_eq!(r.session(0).state, SessionState::Stopped);
    assert_eq!(r.session(1).state, SessionState::Failed);
    assert_eq!(r.session(2).state, SessionState::Stopped);
    assert_eq!(r.stop_all(), Vec::<usize>::new());
}

#[test]
fn placeholder_then_run() {
    let ps = projects();
    let mut r = SessionRegistry::new();
    let k = r.add_placeholder();
    assert_eq!(r.session(k).state, SessionState::Placeholder);
    assert!(r.session(k).lines.is_empty());
    assert!(matches!(r.rerun_target(k, &ps), Err(ScriptError::NoTarget)));
    assert!(matches!(r.rerun(k, &ps, PackageManager::Npm, Ok(())), Err(ScriptError::NoTarget)));
    assert!(r.set_placeholder_target(k, 1, "test"));
    assert_eq!(r.rerun_target(k, &ps).ok(), Some(1));
    assert!(r.rerun(k, &ps, PackageManager::Npm, Ok(())).is_ok());
    assert_eq!(r.session(k).state, SessionState::Running);
    assert_eq!(r.session(k).name, "api » test");
    assert_eq!(r.session(k).lines, vec!["> api » npm run test".to_string()]);
    assert!(!r.set_placeholder_target(k, 0, "dev"));
    assert!(matches!(r.rerun_target(k, &ps), Err(ScriptError::Busy)));
}

#[test]
fn placeholder_with_undeclared_script_is_refused() {
    let ps = projects();
    let mut r = SessionRegistry::new();
    let k = r.add_placeholder();
    assert!(r.set_placeholder_target(k, 0, "test"));
    match r.rerun(k, &ps, PackageManager::Npm, Ok(())) {
        Err(ScriptError::NotDeclared(s)) => assert_eq!(s, "test"),
        _ => panic!("expected a validation error"),
    }
    assert_eq!(r.session(k).state, SessionState::Placeholder);
    assert!(r.set_placeholder_target(k, 9, "dev"));
    assert!(matches!(r.rerun_target(k, &ps), Err(ScriptError::UnknownProject)));
    assert!(matches!(r.rerun_target(4, &ps), Err(ScriptError::NoSession)));
}

#[test]
fn rerun_after_stop_starts_again_in_place() {
    let ps = projects();
    let mut r = SessionRegistry::new();
    r.start(&ps, 0, "build", PackageManager::Npm, Ok(())).ok().unwrap();
    r.add_placeholder();
    r.stop(0);
    assert!(r.rerun(0, &ps, PackageManager::Npm, Err("denied".to_string())).is_ok());
    assert_eq!(r.session(0).state, SessionState::Failed);
    assert_eq!(r.session(0).lines, vec!["[error] denied".to_string()]);
    assert!(r.rerun(0, &ps, PackageManager::Npm, Ok(())).is_ok());
    assert_eq!(r.session(0).state, SessionState::Running);
    assert_eq!(r.len(), 2);
    assert_eq!(r.selected(), Some(1));
}
