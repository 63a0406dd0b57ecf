use microtermi::git::{
    first_line, format_timestamp, local_branch_ref, remote_branch_short_name, short_commit_id,
    signed_decimal_text, summarize_status, ChangeKind, StatusEntry,
};

fn entry(path: &str, changed: bool, only_untracked: bool) -> StatusEntry {
    StatusEntry { path: path.to_string(), changed, only_untracked }
}

#[test]
fn status_summary() {
    let es = vec![
        entry("a.rs", true, false),
        entry("new.txt", true, true),
        entry("a.rs", true, false),
        entry("b.rs", false, false),
    ];
    let st = summarize_status("main".to_string(), &es);
    assert_eq!(st.branch, "main");
    assert_eq!(st.modified, vec!["a.rs".to_string(), "new.txt".to_string()]);
    assert_eq!(st.untracked, vec!["new.txt".to_string()]);
    assert!(!st.is_clean);
    let clean = summarize_status("dev".to_string(), &vec![entry("c", false, false)]);
    assert!(clean.is_clean);
    assert!(clean.modified.is_empty());
}

#[test]
fn commit_ids_and_messages() {
    assert_eq!(short_commit_id("0123456789abcdef"), "0123456");
    assert_eq!(short_commit_id("abc"), "abc");
    assert_eq!(first_line("Fix bug\r\n\nDetails"), "Fix bug");
    assert_eq!(first_line("One line"), "One line");
    assert_eq!(first_line("a\nb"), "a");
}

#[test]
fn remote_branch_names() {
    assert_eq!(remote_branch_short_name("origin/main"), Some("main".to_string()));
    assert_eq!(remote_branch_short_name("origin/feature/x"), Some("feature".to_string()));
    assert_eq!(remote_branch_short_name("origin/"), None);
    assert_eq!(remote_branch_short_name("HEAD"), None);
}

#[test]
fn timestamps() {
    assert_eq!(format_timestamp(0), "1970-01-01 00:00");
    assert_eq!(format_timestamp(1431648000), "2015-05-15 00:00");
    assert_eq!(format_timestamp(i64::MAX), "9223372036854775807");
    assert_eq!(format_timestamp(i64::MIN), "-9223372036854775808");
    assert_eq!(signed_decimal_text(-42), "-42");
    assert_eq!(signed_decimal_text(7), "7");
}

#[test]
fn change_words_and_refs() {
    assert_eq!(ChangeKind::Added.as_str(), "added");
    assert_eq!(ChangeKind::Other.as_str(), "changed");
    assert_eq!(local_branch_ref("main"), "refs/heads/main");
}

#[test]
fn branch_to_preselect() {
    let bs = vec!["develop".to_string(), "main".to_string()];
    assert_eq!(microtermi::git::preferred_branch(&bs, "main"), Some(1));
    assert_eq!(microtermi::git::preferred_branch(&bs, "HEAD"), Some(0));
    assert_eq!(microtermi::git::preferred_branch(&Vec::new(), "main"), None);
}
