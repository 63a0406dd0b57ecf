use microtermi::scripts::{
    common_script_names, declares_script, detect_package_manager, projects_with_script,
    shell_cmd_and_args, PackageManager, Project, ScriptError,
};

fn project(name: &str, scripts: &[&str]) -> Project {
    Project {
        name: name.to_string(),
        path: format!("/work/{}", name),
        scripts: scripts.iter().map(|s| (s.to_string(), format!("run {}", s))).collect(),
    }
}

#[test]
fn package_manager_priority() {
    assert_eq!(detect_package_manager(true, true), PackageManager::Pnpm);
    assert_eq!(detect_package_manager(true, false), PackageManager::Pnpm);
    assert_eq!(detect_package_manager(false, true), PackageManager::Yarn);
    assert_eq!(detect_package_manager(false, false), PackageManager::Npm);
}

#[test]
fn command_lines() {
    let (line, args) = shell_cmd_and_args(PackageManager::Npm, "dev");
    assert_eq!(line, "npm run dev");
    assert_eq!(args, vec!["npm", "run", "dev"]);
    let (line, args) = shell_cmd_and_args(PackageManager::Yarn, "build");
    assert_eq!(line, "yarn build");
    assert_eq!(args, vec!["yarn", "build"]);
    let (line, args) = shell_cmd_and_args(PackageManager::Pnpm, "test");
    assert_eq!(line, "pnpm test");
    assert_eq!(args, vec!["pnpm", "test"]);
}

#[test]
fn declared_scripts() {
    let p = project("web", &["dev", "build"]);
    assert!(declares_script(&p, "dev"));
    assert!(!declares_script(&p, "de"));
    assert!(!declares_script(&project("empty", &[]), "dev"));
}

#[test]
fn projects_declaring_a_script() {
    let ps = vec![project("a", &["dev"]), project("b", &["test"]), project("c", &["test", "dev"])];
    assert_eq!(projects_with_script(&ps, "dev"), vec![0, 2]);
    assert_eq!(projects_with_script(&ps, "lint"), Vec::<usize>::new());
}

#[test]
fn common_names_sorted() {
    let ps = vec![
        project("a", &["test", "dev", "build", "dev"]),
        project("b", &["dev", "lint", "test"]),
        project("c", &["test", "dev"]),
    ];
    assert_eq!(common_script_names(&ps), vec!["dev".to_string(), "test".to_string()]);
    assert!(common_script_names(&Vec::new()).is_empty());
    let one = vec![project("a", &["zeta", "Alpha", "beta"])];
    assert_eq!(common_script_names(&one), vec!["Alpha", "beta", "zeta"]);
}

#[test]
fn error_messages() {
    assert_eq!(ScriptError::Io("denied".to_string()).message(), "IO error: denied");
    assert_eq!(ScriptError::Failed("exit 1".to_string()).message(), "Script failed: exit 1");
    assert_eq!(ScriptError::NotDeclared("dev".to_string()).message(), "the project has no script \"dev\"");
    assert_eq!(ScriptError::UnknownProject.message(), "project not found");
}

#[test]
fn selection_that_can_run() {
    let ps = vec![project("a", &["dev"]), project("b", &["test"]), project("c", &["dev"])];
    assert_eq!(microtermi::scripts::runnable_selection(&ps, &vec![2, 1, 9, 0], "dev"), vec![2, 0]);
    assert!(microtermi::scripts::runnable_selection(&ps, &vec![], "dev").is_empty());
}
