use ev3differ::template::{
    resolve_project_files, resolve_template, stamp_project_files, stamp_template_requests,
    CommitSnapshot, ProjectFile, TemplateError,
};

fn chars(s: &str) -> Vec<char> {
    s.chars().collect()
}

fn text(v: &Vec<char>) -> String {
    v.iter().collect()
}

fn snapshot() -> CommitSnapshot {
    CommitSnapshot {
        time: chars("Mon 01/01/2024 12:00"),
        name: chars("main"),
        msg: chars("initial commit"),
        hash: chars("abcdef1"),
    }
}

#[test]
fn stamp_appends_marker() {
    let input = chars(r#"<ConfigurableMethodTerminal ConfiguredValue="{EV3DIFFER hash}">"#);
    let (out, changed) = stamp_template_requests(&input);
    assert!(changed);
    assert_eq!(
        text(&out),
        r#"<ConfigurableMethodTerminal ConfiguredValue="{EV3DIFFER hash}"> <!-- EV3DIFFER track hash -->"#
    );
}

#[test]
fn stamp_then_resolve_scenario() {
    let input = chars(r#"<ConfigurableMethodTerminal ConfiguredValue="{EV3DIFFER hash}">"#);
    let (stamped, changed) = stamp_template_requests(&input);
    assert!(changed);
    let mut snap = snapshot();
    snap.hash = chars("abcdef1");
    let (resolved, changed2) = resolve_template(&stamped, &snap).unwrap();
    assert!(changed2);
    assert_eq!(
        text(&resolved),
        r#"<ConfigurableMethodTerminal ConfiguredValue="abcdef1"> <!-- EV3DIFFER track hash -->"#
    );
}

#[test]
fn marker_round_trip_time() {
    let input = chars(r#"<ConfigurableMethodTerminal ConfiguredValue="{EV3DIFFER time}">"#);
    let (stamped, _) = stamp_template_requests(&input);
    let snap = snapshot();
    let (resolved, _) = resolve_template(&stamped, &snap).unwrap();
    assert_eq!(
        text(&resolved),
        r#"<ConfigurableMethodTerminal ConfiguredValue="Mon 01/01/2024 12:00"> <!-- EV3DIFFER track time -->"#
    );
}

#[test]
fn resolve_refreshes_existing_value() {
    let input = chars(
        r#"before <ConfigurableMethodTerminal ConfiguredValue="stale"> <!-- EV3DIFFER track name --> after"#,
    );
    let (out, changed) = resolve_template(&input, &snapshot()).unwrap();
    assert!(changed);
    assert_eq!(
        text(&out),
        r#"before <ConfigurableMethodTerminal ConfiguredValue="main"> <!-- EV3DIFFER track name --> after"#
    );
}

#[test]
fn resolve_all_four_kinds() {
    let mut input_text = String::new();
    input_text.push_str(r#"<ConfigurableMethodTerminal ConfiguredValue="a"> <!-- EV3DIFFER track time -->"#);
    input_text.push('\n');
    input_text.push_str(r#"<ConfigurableMethodTerminal ConfiguredValue="b"> <!-- EV3DIFFER track name -->"#);
    input_text.push('\n');
    input_text.push_str(r#"<ConfigurableMethodTerminal ConfiguredValue="c"> <!-- EV3DIFFER track msg -->"#);
    input_text.push('\n');
    input_text.push_str(r#"<ConfigurableMethodTerminal ConfiguredValue="d"> <!-- EV3DIFFER track hash -->"#);
    let input = chars(&input_text);
    let (out, changed) = resolve_template(&input, &snapshot()).unwrap();
    assert!(changed);
    let mut expected = String::new();
    expected.push_str(r#"<ConfigurableMethodTerminal ConfiguredValue="Mon 01/01/2024 12:00"> <!-- EV3DIFFER track time -->"#);
    expected.push('\n');
    expected.push_str(r#"<ConfigurableMethodTerminal ConfiguredValue="main"> <!-- EV3DIFFER track name -->"#);
    expected.push('\n');
    expected.push_str(r#"<ConfigurableMethodTerminal ConfiguredValue="initial commit"> <!-- EV3DIFFER track msg -->"#);
    expected.push('\n');
    expected.push_str(r#"<ConfigurableMethodTerminal ConfiguredValue="abcdef1"> <!-- EV3DIFFER track hash -->"#);
    assert_eq!(text(&out), expected);
}

#[test]
fn resolve_is_idempotent() {
    let input = chars(
        r#"x <ConfigurableMethodTerminal   ConfiguredValue="old">  <!--  EV3DIFFER track hash  --> y"#,
    );
    let snap = snapshot();
    let (once, changed1) = resolve_template(&input, &snap).unwrap();
    assert!(changed1);
    let (twice, changed2) = resolve_template(&once, &snap).unwrap();
    assert_eq!(text(&once), text(&twice));
    assert!(!changed2);
}

#[test]
fn resolve_unknown_kind_fails() {
    let input =
        chars(r#"<ConfigurableMethodTerminal ConfiguredValue="v"> <!-- EV3DIFFER track bogus -->"#);
    let r = resolve_template(&input, &snapshot());
    assert!(matches!(r, Err(TemplateError::UnknownTrackedKind)));
}

#[test]
fn resolve_leaves_plain_text_untouched() {
    let input = chars("no tags here at all");
    let (out, changed) = resolve_template(&input, &snapshot()).unwrap();
    assert!(!changed);
    assert_eq!(text(&out), "no tags here at all");
}

#[test]
fn stamp_leaves_resolved_tags_alone() {
    let input =
        chars(r#"<ConfigurableMethodTerminal ConfiguredValue="v"> <!-- EV3DIFFER track msg -->"#);
    let (out, changed) = stamp_template_requests(&input);
    assert!(!changed);
    assert_eq!(text(&out), text(&input));
}

#[test]
fn batch_passes_filter_by_extension() {
    let files = vec![
        ProjectFile {
            name: chars("Program.ev3p"),
            text: chars(r#"<ConfigurableMethodTerminal ConfiguredValue="{EV3DIFFER msg}">"#),
        },
        ProjectFile {
            name: chars("readme.txt"),
            text: chars(r#"<ConfigurableMethodTerminal ConfiguredValue="{EV3DIFFER msg}">"#),
        },
    ];
    let stamped = stamp_project_files(&files);
    assert!(stamped[0].changed);
    assert!(!stamped[1].changed);
    assert_eq!(
        text(&stamped[0].text),
        r#"<ConfigurableMethodTerminal ConfiguredValue="{EV3DIFFER msg}"> <!-- EV3DIFFER track msg -->"#
    );
    assert_eq!(text(&stamped[1].text), text(&files[1].text));

    let next = vec![
        ProjectFile { name: chars("Program.ev3p"), text: stamped[0].text.clone() },
        ProjectFile { name: chars("readme.txt"), text: stamped[1].text.clone() },
    ];
    let resolved = resolve_project_files(&next, &snapshot()).unwrap();
    assert!(resolved[0].changed);
    assert!(!resolved[1].changed);
    assert_eq!(
        text(&resolved[0].text),
        r#"<ConfigurableMethodTerminal ConfiguredValue="initial commit"> <!-- EV3DIFFER track msg -->"#
    );
}

#[test]
fn batch_resolve_fails_on_corrupt_marker() {
    let files = vec![ProjectFile {
        name: chars("bad.ev3p"),
        text: chars(r#"<ConfigurableMethodTerminal ConfiguredValue="v"> <!-- EV3DIFFER track zz -->"#),
    }];
    assert!(resolve_project_files(&files, &snapshot()).is_err());
}
