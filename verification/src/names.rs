//! Reserved directory names and file-name utilities: the two names the
//! version-control metadata directory alternates between, the archive name
//! derived from the working directory's name, and the project-file extension
//! filter that selects which files the templating engine visits.

use vstd::prelude::*;

verus! {

/// `.git`: the name under which the VCS metadata directory is visible to the
/// external tool during an editing session.
pub open spec fn active_vcs_name() -> Seq<char> {
    seq!['.', 'g', 'i', 't']
}

/// `.ev3git`: the name the VCS metadata directory carries while at rest, so
/// that it stays out of the way between sessions.
pub open spec fn dormant_vcs_name() -> Seq<char> {
    seq!['.', 'e', 'v', '3', 'g', 'i', 't']
}

/// Builds the active VCS directory name as a character vector.
pub fn active_vcs_name_chars() -> (r: Vec<char>)
    ensures
        r@ == active_vcs_name(),
{
    let mut v: Vec<char> = Vec::new();
    v.push('.');
    v.push('g');
    v.push('i');
    v.push('t');
    assert(v@ =~= active_vcs_name());
    v
}

/// Builds the dormant VCS directory name as a character vector.
pub fn dormant_vcs_name_chars() -> (r: Vec<char>)
    ensures
        r@ == dormant_vcs_name(),
{
    let mut v: Vec<char> = Vec::new();
    v.push('.');
    v.push('e');
    v.push('v');
    v.push('3');
    v.push('g');
    v.push('i');
    v.push('t');
    assert(v@ =~= dormant_vcs_name());
    v
}

/// Character-vector equality.
pub fn chars_eq(a: &Vec<char>, b: &Vec<char>) -> (r: bool)
    ensures
        r <==> a@ == b@,
{
    if a.len() != b.len() {
        assert(a@ != b@);
        return false;
    }
    let mut i: usize = 0;
    while i < a.len()
        invariant
            0 <= i <= a@.len(),
            a@.len() == b@.len(),
            forall|j: int| 0 <= j < i ==> a@[j] == b@[j],
        decreases a@.len() - i,
    {
        if a[i] != b[i] {
            assert(a@ != b@);
            return false;
        }
        i += 1;
    }
    assert(a@ =~= b@);
    true
}

/// Where the extension starts in a file name: the index of the last `.` that
/// does not stand first, or the name's length when there is none. A leading
/// dot marks a hidden file, not an extension.
pub open spec fn stem_end_from(s: Seq<char>, i: int) -> int
    decreases i,
{
    if i <= 0 {
        s.len() as int
    } else if s[i] == '.' {
        i
    } else {
        stem_end_from(s, i - 1)
    }
}

/// The index at which a name's extension dot stands, or its length.
pub open spec fn stem_end(s: Seq<char>) -> int {
    if s.len() == 0 {
        0
    } else {
        stem_end_from(s, s.len() - 1)
    }
}

proof fn lemma_stem_end_from_bounds(s: Seq<char>, i: int)
    requires
        0 <= i < s.len(),
    ensures
        stem_end_from(s, i) == s.len() || (1 <= stem_end_from(s, i) <= i && s[stem_end_from(s, i)] == '.'),
    decreases i,
{
    if i > 0 && s[i] != '.' {
        lemma_stem_end_from_bounds(s, i - 1);
    }
}

/// The extension suffix `.ev3` that names this project type's archive.
pub open spec fn archive_suffix() -> Seq<char> {
    seq!['.', 'e', 'v', '3']
}

/// What `name_for_archive` returns: the name up to its extension dot (or the
/// whole name when it has no extension), followed by `.ev3`.
pub open spec fn spec_name_for_archive(s: Seq<char>) -> Seq<char> {
    s.subrange(0, if stem_end(s) < 0 { 0 } else { stem_end(s) }) + archive_suffix()
}

/// Derives the archive file's name from the working directory's name by
/// replacing the directory name's extension (if any) with `.ev3`.
pub fn name_for_archive(name: &Vec<char>) -> (r: Vec<char>)
    ensures
        r@ == spec_name_for_archive(name@),
{
    let d = find_stem_end(name);
    let mut r: Vec<char> = Vec::new();
    let mut i: usize = 0;
    while i < d
        invariant
            0 <= i <= d <= name@.len(),
            r@ == name@.subrange(0, i as int),
        decreases d - i,
    {
        r.push(name[i]);
        assert(r@ =~= name@.subrange(0, i + 1));
        i += 1;
    }
    r.push('.');
    r.push('e');
    r.push('v');
    r.push('3');
    proof {
        if name@.len() > 0 {
            lemma_stem_end_from_bounds(name@, name@.len() - 1);
        }
        assert(r@ =~= spec_name_for_archive(name@));
    }
    r
}

/// Finds `stem_end` of a name.
fn find_stem_end(name: &Vec<char>) -> (r: usize)
    ensures
        r == stem_end(name@),
        r <= name@.len(),
{
    proof {
        if name@.len() > 0 {
            lemma_stem_end_from_bounds(name@, name@.len() - 1);
        }
    }
    if name.len() == 0 {
        return 0;
    }
    let mut i: usize = name.len() - 1;
    while i > 0
        invariant
            0 <= i < name@.len(),
            stem_end_from(name@, name@.len() - 1) == stem_end_from(name@, i as int),
        decreases i,
    {
        if name[i] == '.' {
            return i;
        }
        i -= 1;
    }
    name.len()
}

/// The extension `ev3p` carried by the project files that the templating
/// engine rewrites.
pub open spec fn project_extension() -> Seq<char> {
    seq!['e', 'v', '3', 'p']
}

/// Whether a file name ends in the project extension `.ev3p`, with the dot
/// not standing first (a bare `.ev3p` is a hidden file without an extension).
pub open spec fn spec_has_project_extension(s: Seq<char>) -> bool {
    stem_end(s) + 5 == s.len() && s.subrange(stem_end(s) + 1, s.len() as int) == project_extension()
}

/// Tests whether a file name carries the project extension `.ev3p`; only such
/// files are visited by the templating engine.
pub fn has_project_extension(name: &Vec<char>) -> (r: bool)
    ensures
        r <==> spec_has_project_extension(name@),
{
    let d = find_stem_end(name);
    if name.len() < 5 || d != name.len() - 5 {
        return false;
    }
    let r = name[d + 1] == 'e' && name[d + 2] == 'v' && name[d + 3] == '3' && name[d + 4] == 'p';
    proof {
        if r {
            assert(name@.subrange(stem_end(name@) + 1, name@.len() as int) =~= project_extension());
        } else {
            assert(name@.subrange(stem_end(name@) + 1, name@.len() as int) != project_extension());
        }
    }
    r
}

} // verus!
