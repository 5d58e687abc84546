use ev3differ::names::{has_project_extension, name_for_archive};
use ev3differ::session::{plan_session, snapshot_from_head, SessionStep};

fn chars(s: &str) -> Vec<char> {
    s.chars().collect()
}

fn text(v: &Vec<char>) -> String {
    v.iter().collect()
}

#[test]
fn default_plan_runs_the_tool_then_resolves() {
    let plan = plan_session(false, false);
    assert_eq!(
        plan,
        vec![
            SessionStep::PrepareWorkspace,
            SessionStep::ExtractArchive,
            SessionStep::RunExternalTool,
            SessionStep::ResolveTemplates,
            SessionStep::RepackArchive,
            SessionStep::HideVcsDirectory,
        ]
    );
}

#[test]
fn stamp_plan_replaces_the_tool() {
    let plan = plan_session(false, true);
    assert_eq!(
        plan,
        vec![
            SessionStep::PrepareWorkspace,
            SessionStep::ExtractArchive,
            SessionStep::StampTemplates,
            SessionStep::ResolveTemplates,
            SessionStep::RepackArchive,
            SessionStep::HideVcsDirectory,
        ]
    );
}

#[test]
fn init_plan_skips_extraction_and_editing() {
    let plan = plan_session(true, false);
    assert_eq!(
        plan,
        vec![
            SessionStep::CloneRepository,
            SessionStep::RepackArchive,
            SessionStep::HideVcsDirectory,
        ]
    );
}

#[test]
fn snapshot_abbreviates_the_commit_id() {
    let snap = snapshot_from_head(
        0,
        chars("main"),
        chars("message"),
        &chars("0123456789abcdef0123456789abcdef01234567"),
    )
    .unwrap();
    assert_eq!(text(&snap.hash), "0123456");
    assert_eq!(text(&snap.name), "main");
    assert_eq!(text(&snap.msg), "message");
}

#[test]
fn snapshot_rejects_short_commit_id() {
    assert!(snapshot_from_head(0, chars("main"), chars("m"), &chars("abc")).is_none());
}

#[test]
fn snapshot_accepts_any_plausible_commit_time() {
    let id = chars("0123456789abcdef0123456789abcdef01234567");
    assert!(snapshot_from_head(8_000_000_000_000, chars("m"), chars("m"), &id).is_some());
    assert!(snapshot_from_head(-8_000_000_000_000, chars("m"), chars("m"), &id).is_some());
    assert!(snapshot_from_head(i64::MAX, chars("m"), chars("m"), &id).is_none());
}

#[test]
fn archive_name_replaces_extension() {
    assert_eq!(text(&name_for_archive(&chars("myproject"))), "myproject.ev3");
    assert_eq!(text(&name_for_archive(&chars("my.project"))), "my.ev3");
    assert_eq!(text(&name_for_archive(&chars(".git"))), ".git.ev3");
}

#[test]
fn project_extension_filter() {
    assert!(has_project_extension(&chars("Program.ev3p")));
    assert!(has_project_extension(&chars("a.b.ev3p")));
    assert!(!has_project_extension(&chars("Program.ev3")));
    assert!(!has_project_extension(&chars(".ev3p")));
    assert!(!has_project_extension(&chars("ev3p")));
}
