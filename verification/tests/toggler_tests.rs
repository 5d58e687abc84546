use ev3differ::toggler::{finalize_after_editing, prepare_for_editing, TopEntry};

fn chars(s: &str) -> Vec<char> {
    s.chars().collect()
}

fn text(v: &Vec<char>) -> String {
    v.iter().collect()
}

fn entry(name: &str, is_dir: bool) -> TopEntry {
    TopEntry { name: chars(name), is_dir }
}

fn names(v: &Vec<TopEntry>) -> Vec<String> {
    v.iter().map(|e| text(&e.name)).collect()
}

#[test]
fn prepare_renames_dormant_and_clears_the_rest() {
    let listing = vec![
        entry(".ev3git", true),
        entry("stale.txt", false),
        entry("old_dir", true),
        entry("leftover.ev3p", false),
    ];
    let out = prepare_for_editing(&listing).unwrap();
    assert_eq!(names(&out), vec![".git".to_string()]);
    assert!(out[0].is_dir);
}

#[test]
fn prepare_keeps_an_already_active_directory() {
    let listing = vec![entry(".git", true), entry("junk", false)];
    let out = prepare_for_editing(&listing).unwrap();
    assert_eq!(names(&out), vec![".git".to_string()]);
}

#[test]
fn prepare_twice_equals_prepare_once() {
    let listing = vec![entry(".ev3git", true), entry("x", false), entry("d", true)];
    let once = prepare_for_editing(&listing).unwrap();
    let twice = prepare_for_editing(&once).unwrap();
    assert_eq!(names(&once), names(&twice));
}

#[test]
fn prepare_fails_when_both_names_exist() {
    let listing = vec![entry(".ev3git", true), entry(".git", true)];
    assert!(prepare_for_editing(&listing).is_err());
}

#[test]
fn finalize_hides_active_directory() {
    let listing = vec![entry(".git", true), entry("project.ev3p", false)];
    let out = finalize_after_editing(&listing).unwrap();
    assert_eq!(names(&out), vec![".ev3git".to_string(), "project.ev3p".to_string()]);
    assert!(out[0].is_dir);
}

#[test]
fn finalize_leaves_listing_without_active_directory_alone() {
    let listing = vec![entry("a.txt", false), entry(".ev3git", true)];
    let out = finalize_after_editing(&listing).unwrap();
    assert_eq!(names(&out), vec!["a.txt".to_string(), ".ev3git".to_string()]);
}

#[test]
fn finalize_fails_on_name_collision() {
    let listing = vec![entry(".git", true), entry(".ev3git", true)];
    assert!(finalize_after_editing(&listing).is_err());
}

#[test]
fn session_never_leaves_both_names() {
    let listing = vec![entry(".ev3git", true), entry("junk", false)];
    let prepared = prepare_for_editing(&listing).unwrap();
    let mut after_extract = prepared;
    after_extract.push(entry("restored.ev3p", false));
    let done = finalize_after_editing(&after_extract).unwrap();
    let ns = names(&done);
    let active = ns.iter().filter(|n| n.as_str() == ".git").count();
    let dormant = ns.iter().filter(|n| n.as_str() == ".ev3git").count();
    assert_eq!(active, 0);
    assert_eq!(dormant, 1);
}

#[test]
fn file_named_like_active_directory_is_removed() {
    let listing = vec![entry(".git", false), entry(".ev3git", true)];
    let out = prepare_for_editing(&listing).unwrap();
    assert_eq!(names(&out), vec![".git".to_string()]);
    assert!(out[0].is_dir);
}
