//! Workspace state toggling: before a session every top-level entry other
//! than the VCS metadata directory is removed and a dormant VCS directory is
//! renamed to its active name; after a session the active directory is
//! renamed back to its dormant name. The functions here work on a listing of
//! the top-level entries and return the listing that must result; the caller
//! performs the renames and removals on disk, treating any failure as fatal.

use vstd::prelude::*;

use crate::names::active_vcs_name;
use crate::names::active_vcs_name_chars;
use crate::names::chars_eq;
use crate::names::dormant_vcs_name;
use crate::names::dormant_vcs_name_chars;

verus! {

/// One top-level entry of the working directory.
pub struct TopEntry {
    pub name: Vec<char>,
    pub is_dir: bool,
}

/// The mathematical model of a top-level entry.
pub struct TopEntryModel {
    pub name: Seq<char>,
    pub is_dir: bool,
}

impl View for TopEntry {
    type V = TopEntryModel;

    open spec fn view(&self) -> TopEntryModel {
        TopEntryModel { name: self.name@, is_dir: self.is_dir }
    }
}

/// A toggling step fails when a rename's target name is already taken; a
/// partially toggled working directory would corrupt the next session.
#[derive(Debug)]
pub enum ToggleError {
    NameCollision,
}

/// A listing is well formed when its entry names are distinct, as the names
/// in one directory are.
pub open spec fn wf_listing(s: Seq<TopEntryModel>) -> bool {
    forall|i: int, j: int| 0 <= i < j < s.len() ==> s[i].name != s[j].name
}

/// Whether a listing holds a directory of the given name.
pub open spec fn has_dir_named(s: Seq<TopEntryModel>, name: Seq<char>) -> bool {
    exists|i: int| 0 <= i < s.len() && s[i].is_dir && s[i].name == name
}

/// Whether a listing holds any entry of the given name.
pub open spec fn has_entry_named(s: Seq<TopEntryModel>, name: Seq<char>) -> bool {
    exists|i: int| 0 <= i < s.len() && s[i].name == name
}

/// The top-level listing after preparation: a dormant VCS directory is
/// renamed to the active name, an active VCS directory is kept, and every
/// other entry is removed.
pub open spec fn spec_prepare(s: Seq<TopEntryModel>) -> Seq<TopEntryModel>
    decreases s.len(),
{
    if s.len() == 0 {
        Seq::empty()
    } else {
        let e = s.first();
        let rest = spec_prepare(s.drop_first());
        if e.is_dir && e.name == dormant_vcs_name() {
            seq![TopEntryModel { name: active_vcs_name(), is_dir: true }] + rest
        } else if e.is_dir && e.name == active_vcs_name() {
            seq![e] + rest
        } else {
            rest
        }
    }
}

/// Preparation succeeds unless both the dormant and the active directory
/// exist, in which case the rename's target is taken.
pub open spec fn spec_prepare_ok(s: Seq<TopEntryModel>) -> bool {
    !(has_dir_named(s, dormant_vcs_name()) && has_dir_named(s, active_vcs_name()))
}

/// The top-level listing after finalization: an active VCS directory is
/// renamed to the dormant name; everything else stays.
pub open spec fn spec_finalize(s: Seq<TopEntryModel>) -> Seq<TopEntryModel>
    decreases s.len(),
{
    if s.len() == 0 {
        Seq::empty()
    } else {
        let e = s.first();
        let rest = spec_finalize(s.drop_first());
        if e.is_dir && e.name == active_vcs_name() {
            seq![TopEntryModel { name: dormant_vcs_name(), is_dir: true }] + rest
        } else {
            seq![e] + rest
        }
    }
}

/// Finalization succeeds unless an active directory must be renamed while the
/// dormant name is already taken.
pub open spec fn spec_finalize_ok(s: Seq<TopEntryModel>) -> bool {
    !(has_dir_named(s, active_vcs_name()) && has_entry_named(s, dormant_vcs_name()))
}

/// The view of a listing.
pub open spec fn listing_view(v: Seq<TopEntry>) -> Seq<TopEntryModel> {
    v.map_values(|e: TopEntry| e@)
}

/// Computes the top-level listing that `PrepareForEditing` must leave behind:
/// only the VCS metadata directory survives, under its active name, so that a
/// following extraction starts from a baseline determined by the archive
/// alone. Fails when both VCS directory names are present, since renaming the
/// dormant directory would collide.
pub fn prepare_for_editing(entries: &Vec<TopEntry>) -> (r: Result<Vec<TopEntry>, ToggleError>)
    ensures
        r matches Ok(out) ==> listing_view(out@) == spec_prepare(listing_view(entries@)),
        r is Ok <==> spec_prepare_ok(listing_view(entries@)),
{
    let active = active_vcs_name_chars();
    let dormant = dormant_vcs_name_chars();
    let ghost s = listing_view(entries@);

    let mut has_active = false;
    let mut has_dormant = false;
    let mut i: usize = 0;
    while i < entries.len()
        invariant
            0 <= i <= entries@.len(),
            s == listing_view(entries@),
            s.len() == entries@.len(),
            active@ == active_vcs_name(),
            dormant@ == dormant_vcs_name(),
            has_active <==> exists|j: int| 0 <= j < i && s[j].is_dir && s[j].name == active_vcs_name(),
            has_dormant <==> exists|j: int| 0 <= j < i && s[j].is_dir && s[j].name == dormant_vcs_name(),
        decreases entries@.len() - i,
    {
        assert(s[i as int] == entries@[i as int]@);
        if entries[i].is_dir && chars_eq(&entries[i].name, &active) {
            has_active = true;
        }
        if entries[i].is_dir && chars_eq(&entries[i].name, &dormant) {
            has_dormant = true;
        }
        i += 1;
    }
    assert(has_active <==> has_dir_named(s, active_vcs_name()));
    assert(has_dormant <==> has_dir_named(s, dormant_vcs_name()));
    if has_active && has_dormant {
        return Err(ToggleError::NameCollision);
    }

    let mut out: Vec<TopEntry> = Vec::new();
    proof {
        assert(s.skip(0) =~= s);
        assert(listing_view(out@) + spec_prepare(s) =~= spec_prepare(s));
    }
    let mut i: usize = 0;
    while i < entries.len()
        invariant
            0 <= i <= entries@.len(),
            s == listing_view(entries@),
            s.len() == entries@.len(),
            active@ == active_vcs_name(),
            dormant@ == dormant_vcs_name(),
            spec_prepare(s) == listing_view(out@) + spec_prepare(s.skip(i as int)),
        decreases entries@.len() - i,
    {
        proof {
            assert(s.skip(i as int).first() == s[i as int]);
            assert(s.skip(i as int).drop_first() =~= s.skip(i as int + 1));
            assert(s[i as int] == entries@[i as int]@);
        }
        let e = &entries[i];
        if e.is_dir && chars_eq(&e.name, &dormant) {
            out.push(TopEntry { name: active_vcs_name_chars(), is_dir: true });
            proof {
                assert(listing_view(out@) =~= listing_view(out@.drop_last())
                    + seq![TopEntryModel { name: active_vcs_name(), is_dir: true }]);
                assert(spec_prepare(s) =~= listing_view(out@) + spec_prepare(s.skip(i as int + 1)));
            }
        } else if e.is_dir && chars_eq(&e.name, &active) {
            let mut name_copy: Vec<char> = Vec::new();
            let mut k: usize = 0;
            while k < e.name.len()
                invariant
                    0 <= k <= e.name@.len(),
                    name_copy@ == e.name@.subrange(0, k as int),
                decreases e.name@.len() - k,
            {
                name_copy.push(e.name[k]);
                assert(name_copy@ =~= e.name@.subrange(0, k + 1));
                k += 1;
            }
            assert(name_copy@ =~= e.name@);
            out.push(TopEntry { name: name_copy, is_dir: true });
            proof {
                assert(listing_view(out@) =~= listing_view(out@.drop_last()) + seq![s[i as int]]);
                assert(spec_prepare(s) =~= listing_view(out@) + spec_prepare(s.skip(i as int + 1)));
            }
        }
        i += 1;
    }
    proof {
        assert(s.skip(i as int) =~= Seq::<TopEntryModel>::empty());
        assert(spec_prepare(s) =~= listing_view(out@));
    }
    Ok(out)
}

/// Computes the top-level listing that `FinalizeAfterEditing` must leave
/// behind: the active VCS directory takes its dormant name; all other entries
/// stay untouched. Fails when the dormant name is already taken.
pub fn finalize_after_editing(entries: &Vec<TopEntry>) -> (r: Result<Vec<TopEntry>, ToggleError>)
    ensures
        r matches Ok(out) ==> listing_view(out@) == spec_finalize(listing_view(entries@)),
        r is Ok <==> spec_finalize_ok(listing_view(entries@)),
{
    let active = active_vcs_name_chars();
    let dormant = dormant_vcs_name_chars();
    let ghost s = listing_view(entries@);

    let mut has_active = false;
    let mut has_dormant = false;
    let mut i: usize = 0;
    while i < entries.len()
        invariant
            0 <= i <= entries@.len(),
            s == listing_view(entries@),
            s.len() == entries@.len(),
            active@ == active_vcs_name(),
            dormant@ == dormant_vcs_name(),
            has_active <==> exists|j: int| 0 <= j < i && s[j].is_dir && s[j].name == active_vcs_name(),
            has_dormant <==> exists|j: int| 0 <= j < i && s[j].name == dormant_vcs_name(),
        decreases entries@.len() - i,
    {
        assert(s[i as int] == entries@[i as int]@);
        if entries[i].is_dir && chars_eq(&entries[i].name, &active) {
            has_active = true;
        }
        if chars_eq(&entries[i].name, &dormant) {
            has_dormant = true;
        }
        i += 1;
    }
    assert(has_active <==> has_dir_named(s, active_vcs_name()));
    assert(has_dormant <==> has_entry_named(s, dormant_vcs_name()));
    if has_active && has_dormant {
        return Err(ToggleError::NameCollision);
    }

    let mut out: Vec<TopEntry> = Vec::new();
    proof {
        assert(s.skip(0) =~= s);
        assert(listing_view(out@) + spec_finalize(s) =~= spec_finalize(s));
    }
    let mut i: usize = 0;
    while i < entries.len()
        invariant
            0 <= i <= entries@.len(),
            s == listing_view(entries@),
            s.len() == entries@.len(),
            active@ == active_vcs_name(),
            dormant@ == dormant_vcs_name(),
            spec_finalize(s) == listing_view(out@) + spec_finalize(s.skip(i as int)),
        decreases entries@.len() - i,
    {
        proof {
            assert(s.skip(i as int).first() == s[i as int]);
            assert(s.skip(i as int).drop_first() =~= s.skip(i as int + 1));
            assert(s[i as int] == entries@[i as int]@);
        }
        let e = &entries[i];
        if e.is_dir && chars_eq(&e.name, &active) {
            out.push(TopEntry { name: dormant_vcs_name_chars(), is_dir: true });
            proof {
                assert(listing_view(out@) =~= listing_view(out@.drop_last())
                    + seq![TopEntryModel { name: dormant_vcs_name(), is_dir: true }]);
                assert(spec_finalize(s) =~= listing_view(out@) + spec_finalize(s.skip(i as int + 1)));
            }
        } else {
            let mut name_copy: Vec<char> = Vec::new();
            let mut k: usize = 0;
            while k < e.name.len()
                invariant
                    0 <= k <= e.name@.len(),
                    name_copy@ == e.name@.subrange(0, k as int),
                decreases e.name@.len() - k,
            {
                name_copy.push(e.name[k]);
                assert(name_copy@ =~= e.name@.subrange(0, k + 1));
                k += 1;
            }
            assert(name_copy@ =~= e.name@);
            out.push(TopEntry { name: name_copy, is_dir: e.is_dir });
            proof {
                assert(listing_view(out@) =~= listing_view(out@.drop_last()) + seq![s[i as int]]);
                assert(spec_finalize(s) =~= listing_view(out@) + spec_finalize(s.skip(i as int + 1)));
            }
        }
        i += 1;
    }
    proof {
        assert(s.skip(i as int) =~= Seq::<TopEntryModel>::empty());
        assert(spec_finalize(s) =~= listing_view(out@));
    }
    Ok(out)
}

/// Every entry that preparation leaves behind is the active VCS directory.
pub proof fn lemma_prepare_entries(s: Seq<TopEntryModel>)
    ensures
        forall|i: int| 0 <= i < spec_prepare(s).len()
            ==> spec_prepare(s)[i] == (TopEntryModel { name: active_vcs_name(), is_dir: true }),
    decreases s.len(),
{
    if s.len() > 0 {
        lemma_prepare_entries(s.drop_first());
        let e = s.first();
        let rest = spec_prepare(s.drop_first());
        let a = TopEntryModel { name: active_vcs_name(), is_dir: true };
        if e.is_dir && e.name == dormant_vcs_name() {
            assert forall|i: int| 0 <= i < spec_prepare(s).len() implies spec_prepare(s)[i]
                == a by {
                if i > 0 {
                    assert(spec_prepare(s)[i] == rest[i - 1]);
                }
            }
        } else if e.is_dir && e.name == active_vcs_name() {
            assert forall|i: int| 0 <= i < spec_prepare(s).len() implies spec_prepare(s)[i]
                == a by {
                if i > 0 {
                    assert(spec_prepare(s)[i] == rest[i - 1]);
                }
            }
        }
    }
}

/// Preparing an already prepared listing changes nothing: the top-level set
/// after two calls of `PrepareForEditing` equals the set after one.
pub proof fn lemma_prepare_idempotent(s: Seq<TopEntryModel>)
    ensures
        spec_prepare_ok(spec_prepare(s)),
        spec_prepare(spec_prepare(s)) == spec_prepare(s),
{
    lemma_prepare_entries(s);
    let p = spec_prepare(s);
    assert forall|i: int| 0 <= i < p.len() implies !(p[i].is_dir && p[i].name
        == dormant_vcs_name()) by {
        assert(p[i] == (TopEntryModel { name: active_vcs_name(), is_dir: true }));
        assert(active_vcs_name().len() != dormant_vcs_name().len());
    }
    assert(!has_dir_named(p, dormant_vcs_name()));
    lemma_prepare_fixed(p);
}

/// A listing whose every entry is the active VCS directory is a fixed point
/// of preparation.
proof fn lemma_prepare_fixed(s: Seq<TopEntryModel>)
    requires
        forall|i: int| 0 <= i < s.len()
            ==> s[i] == (TopEntryModel { name: active_vcs_name(), is_dir: true }),
    ensures
        spec_prepare(s) == s,
    decreases s.len(),
{
    if s.len() == 0 {
        assert(spec_prepare(s) =~= s);
    } else {
        assert(s.first() == (TopEntryModel { name: active_vcs_name(), is_dir: true }));
        assert(active_vcs_name().len() != dormant_vcs_name().len());
        lemma_prepare_fixed(s.drop_first());
        assert(spec_prepare(s) =~= s);
    }
}

/// Finalization keeps the listing's length and renames pointwise.
proof fn lemma_finalize_pointwise(s: Seq<TopEntryModel>)
    ensures
        spec_finalize(s).len() == s.len(),
        forall|i: int| 0 <= i < s.len() ==> spec_finalize(s)[i] == (
            if s[i].is_dir && s[i].name == active_vcs_name() {
                TopEntryModel { name: dormant_vcs_name(), is_dir: true }
            } else {
                s[i]
            }),
    decreases s.len(),
{
    if s.len() > 0 {
        lemma_finalize_pointwise(s.drop_first());
    }
}

/// Exclusive naming: when finalization succeeds on a well-formed listing, the
/// resulting top level holds no directory under the active name and at most
/// one entry under the dormant name — never both forms of the VCS directory.
pub proof fn lemma_session_exclusive_naming(s: Seq<TopEntryModel>)
    requires
        wf_listing(s),
        spec_finalize_ok(s),
    ensures
        !has_dir_named(spec_finalize(s), active_vcs_name()),
        forall|i: int, j: int|
            0 <= i < j < spec_finalize(s).len() ==> !(spec_finalize(s)[i].name
                == dormant_vcs_name() && spec_finalize(s)[j].name == dormant_vcs_name()),
{
    lemma_finalize_pointwise(s);
    let t = spec_finalize(s);
    assert(active_vcs_name().len() != dormant_vcs_name().len());
    assert forall|i: int| 0 <= i < t.len() implies !(t[i].is_dir && t[i].name
        == active_vcs_name()) by {
        if t[i].is_dir && t[i].name == active_vcs_name() {
            assert(s[i].is_dir && s[i].name == active_vcs_name());
            assert(has_dir_named(s, active_vcs_name()));
            assert(t[i].name == dormant_vcs_name());
        }
    }
    assert forall|i: int, j: int| 0 <= i < j < t.len() implies !(t[i].name == dormant_vcs_name()
        && t[j].name == dormant_vcs_name()) by {
        if t[i].name == dormant_vcs_name() && t[j].name == dormant_vcs_name() {
            if s[i].name == dormant_vcs_name() {
                assert(has_entry_named(s, dormant_vcs_name()));
                if s[j].name == dormant_vcs_name() {
                    assert(s[i].name == s[j].name);
                } else {
                    assert(s[j].is_dir && s[j].name == active_vcs_name());
                    assert(has_dir_named(s, active_vcs_name()));
                }
            } else {
                assert(s[i].is_dir && s[i].name == active_vcs_name());
                assert(has_dir_named(s, active_vcs_name()));
                if s[j].name == dormant_vcs_name() {
                    assert(has_entry_named(s, dormant_vcs_name()));
                } else {
                    assert(s[j].is_dir && s[j].name == active_vcs_name());
                    assert(s[i].name == s[j].name);
                }
            }
        }
    }
}

} // verus!
