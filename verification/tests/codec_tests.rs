use ev3differ::codec::{archive_tree, extract_archive, Entry};

fn chars(s: &str) -> Vec<char> {
    s.chars().collect()
}

fn text(v: &Vec<char>) -> String {
    v.iter().collect()
}

fn file(path: &str, data: &[u8]) -> Entry {
    Entry { path: chars(path), is_dir: false, data: data.to_vec(), mode: None }
}

fn dir(path: &str) -> Entry {
    Entry { path: chars(path), is_dir: true, data: Vec::new(), mode: None }
}

#[test]
fn round_trip_reproduces_tree() {
    let tree = vec![
        dir("src"),
        file("src/main.ev3p", b"<xml/>"),
        dir("src/empty"),
        file("empty.bin", b""),
        file("data/blob.bin", &[0u8, 1, 2, 255, 128]),
    ];
    let bytes = archive_tree(&tree).unwrap();
    let out = extract_archive(&bytes).unwrap();
    assert_eq!(out.len(), tree.len());
    for (a, b) in out.iter().zip(tree.iter()) {
        assert_eq!(text(&a.path), text(&b.path));
        assert_eq!(a.is_dir, b.is_dir);
        assert_eq!(a.data, b.data);
    }
}

#[test]
fn extraction_skips_vcs_directory() {
    let tree = vec![
        dir(".git"),
        file(".git/config", b"[core]"),
        file(".gitignore", b"target"),
        file("kept.txt", b"k"),
    ];
    let bytes = archive_tree(&tree).unwrap();
    let out = extract_archive(&bytes).unwrap();
    let names: Vec<String> = out.iter().map(text_of_path).collect();
    assert_eq!(names, vec![".gitignore".to_string(), "kept.txt".to_string()]);
}

fn text_of_path(e: &Entry) -> String {
    e.path.iter().collect()
}

#[test]
fn extraction_skips_traversal_attempts() {
    let tree = vec![
        file("../escape.txt", b"evil"),
        file("a/../../escape2.txt", b"evil"),
        file("/absolute.txt", b"evil"),
        file("safe.txt", b"ok"),
        file("a..b/inner..txt", b"dots are fine when not a segment"),
    ];
    let bytes = archive_tree(&tree).unwrap();
    let out = extract_archive(&bytes).unwrap();
    let names: Vec<String> = out.iter().map(text_of_path).collect();
    assert_eq!(names, vec!["safe.txt".to_string(), "a..b/inner..txt".to_string()]);
}

#[test]
fn extraction_skips_backslash_and_drive_paths() {
    let tree = vec![
        file("..\\up.txt", b"evil"),
        file("sub\\..\\..\\up2.txt", b"evil"),
        file("C:/drive.txt", b"evil"),
        file("plain.txt", b"ok"),
    ];
    let bytes = archive_tree(&tree).unwrap();
    let out = extract_archive(&bytes).unwrap();
    let names: Vec<String> = out.iter().map(text_of_path).collect();
    assert_eq!(names, vec!["plain.txt".to_string()]);
}

#[test]
fn round_trip_carries_permission_modes() {
    let tree = vec![
        dir("bin"),
        Entry {
            path: chars("bin/run.sh"),
            is_dir: false,
            data: b"#!/bin/sh\n".to_vec(),
            mode: Some(0o755),
        },
        file("plain.txt", b"x"),
    ];
    let bytes = archive_tree(&tree).unwrap();
    let out = extract_archive(&bytes).unwrap();
    assert_eq!(out[0].mode, Some(0o40755));
    assert_eq!(out[1].mode, Some(0o100755));
    assert_eq!(out[2].mode, Some(0o100644));
}

#[test]
fn malformed_bytes_are_rejected() {
    let bytes = vec![1u8, 2, 3, 4, 5];
    assert!(extract_archive(&bytes).is_err());
}

#[test]
fn empty_tree_round_trips() {
    let tree: Vec<Entry> = Vec::new();
    let bytes = archive_tree(&tree).unwrap();
    let out = extract_archive(&bytes).unwrap();
    assert!(out.is_empty());
}
