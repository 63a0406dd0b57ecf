use microtermi::env::{
    env_from_files, env_from_str, environment_from_lowercase, parse_env_line, parse_env_lines, split_lines, unquote,
    Environment,
};

fn owned(v: &[&str]) -> Vec<String> {
    v.iter().map(|s| s.to_string()).collect()
}

fn pairs(v: &[(&str, &str)]) -> Vec<(String, String)> {
    v.iter().map(|(k, x)| (k.to_string(), x.to_string())).collect()
}

#[test]
fn profile_names() {
    assert_eq!(Environment::Dev.as_str(), "dev");
    assert_eq!(Environment::Staging.as_str(), "staging");
    assert_eq!(Environment::Prod.as_str(), "prod");
    assert_eq!(Environment::Dev.env_file_name(), ".env.dev");
    assert_eq!(Environment::Staging.env_file_name(), ".env.staging");
    assert_eq!(Environment::Prod.env_file_name(), ".env.prod");
}

#[test]
fn profile_from_name() {
    assert_eq!(environment_from_lowercase("staging"), Environment::Staging);
    assert_eq!(environment_from_lowercase("prod"), Environment::Prod);
    assert_eq!(environment_from_lowercase("PROD"), Environment::Dev);
    assert_eq!(env_from_str("STAGING"), Environment::Staging);
    assert_eq!(env_from_str("Prod"), Environment::Prod);
    assert_eq!(env_from_str("anything"), Environment::Dev);
}

#[test]
fn env_line_split() {
    assert_eq!(parse_env_line("KEY=value"), Some(("KEY".to_string(), "value".to_string())));
    assert_eq!(parse_env_line(" A = \"x=y\" "), Some(("A".to_string(), "x=y".to_string())));
    assert_eq!(parse_env_line("B='single'"), Some(("B".to_string(), "single".to_string())));
    assert_eq!(parse_env_line("C="), Some(("C".to_string(), String::new())));
    assert_eq!(parse_env_line("no equals"), None);
}

#[test]
fn unquoting() {
    assert_eq!(unquote("\"a\""), "a");
    assert_eq!(unquote("\"'b'\""), "b");
    assert_eq!(unquote("'\"c\"'"), "\"c\"");
    assert_eq!(unquote("\"\"\""), "");
    assert_eq!(unquote("plain"), "plain");
}

#[test]
fn env_file_lines() {
    let lines = owned(&["# comment", "", "  PORT=3000", "HOST=localhost", "junk", "PORT = 4000 ", "   #X=1"]);
    assert_eq!(parse_env_lines(&lines), pairs(&[("PORT", "4000"), ("HOST", "localhost")]));
}

#[test]
fn fallback_only_when_profile_defines_nothing() {
    let primary = owned(&["A=1"]);
    let empty = owned(&["# nothing"]);
    let fallback = owned(&["B=2"]);
    assert_eq!(env_from_files(Some(&primary), Some(&fallback)), pairs(&[("A", "1")]));
    assert_eq!(env_from_files(Some(&empty), Some(&fallback)), pairs(&[("B", "2")]));
    assert_eq!(env_from_files(None, Some(&fallback)), pairs(&[("B", "2")]));
    assert_eq!(env_from_files(None, None), Vec::<(String, String)>::new());
    assert_eq!(env_from_files(Some(&empty), None), Vec::<(String, String)>::new());
}

#[test]
fn env_file_text_is_sorted() {
    let vars = pairs(&[("PORT", "3000"), ("API", "http://x"), ("DEBUG", "1")]);
    assert_eq!(microtermi::env::render_env(&vars), "API=http://x\nDEBUG=1\nPORT=3000");
    assert_eq!(microtermi::env::render_env(&Vec::new()), "");
    assert_eq!(microtermi::env::render_env(&pairs(&[("K", "v")])), "K=v");
}

#[test]
fn text_split_into_lines() {
    assert_eq!(split_lines("A=1\nB=2\n"), owned(&["A=1", "B=2"]));
    assert_eq!(split_lines("A=1\r\n\r\nB=2"), owned(&["A=1", "", "B=2"]));
    assert_eq!(split_lines("x\r"), owned(&["x\r"]));
    assert_eq!(split_lines("\n"), owned(&[""]));
    assert!(split_lines("").is_empty());
    let parsed = parse_env_lines(&split_lines("# c\r\nKEY=\"v\"\r\n"));
    assert_eq!(parsed, pairs(&[("KEY", "v")]));
}
