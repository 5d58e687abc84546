//! The session orchestrator's decisions. A session either initializes a
//! working directory by cloning a repository, or runs the full cycle:
//! restore the workspace, extract the archive, run the external edit step (a
//! VCS command pass-through or the bulk stamping pass), resolve templates
//! from the head commit, repack, and hide the VCS directory again. The steps
//! are decided here; performing them — processes, repositories, files — is
//! the caller's.

use vstd::prelude::*;

use crate::template::CommitSnapshot;

verus! {

/// One step of a session, in the order the orchestrator runs them.
#[derive(Clone, Copy, Debug, PartialEq, Eq, Structural)]
pub enum SessionStep {
    CloneRepository,
    PrepareWorkspace,
    ExtractArchive,
    RunExternalTool,
    StampTemplates,
    ResolveTemplates,
    RepackArchive,
    HideVcsDirectory,
}

/// The steps of an initialization session: clone, then repack the fresh tree
/// and hide the VCS directory; no extraction and no edit step.
pub open spec fn init_plan() -> Seq<SessionStep> {
    seq![
        SessionStep::CloneRepository,
        SessionStep::RepackArchive,
        SessionStep::HideVcsDirectory,
    ]
}

/// The steps of a bulk-stamping session: the stamping pass stands in for the
/// external tool, and resolution still follows it.
pub open spec fn stamp_plan() -> Seq<SessionStep> {
    seq![
        SessionStep::PrepareWorkspace,
        SessionStep::ExtractArchive,
        SessionStep::StampTemplates,
        SessionStep::ResolveTemplates,
        SessionStep::RepackArchive,
        SessionStep::HideVcsDirectory,
    ]
}

/// The steps of a default session: the external VCS command runs between
/// extraction and resolution. Its exit status is not inspected: the session
/// proceeds to repack whatever state the tool left behind.
pub open spec fn default_plan() -> Seq<SessionStep> {
    seq![
        SessionStep::PrepareWorkspace,
        SessionStep::ExtractArchive,
        SessionStep::RunExternalTool,
        SessionStep::ResolveTemplates,
        SessionStep::RepackArchive,
        SessionStep::HideVcsDirectory,
    ]
}

/// Decides the steps of a session from its mode: initialization wins over
/// bulk stamping, which stands in for the external tool.
pub fn plan_session(init: bool, bulk_stamp: bool) -> (r: Vec<SessionStep>)
    ensures
        init ==> r@ == init_plan(),
        !init && bulk_stamp ==> r@ == stamp_plan(),
        !init && !bulk_stamp ==> r@ == default_plan(),
{
    let mut r: Vec<SessionStep> = Vec::new();
    if init {
        r.push(SessionStep::CloneRepository);
        r.push(SessionStep::RepackArchive);
        r.push(SessionStep::HideVcsDirectory);
        assert(r@ =~= init_plan());
    } else {
        r.push(SessionStep::PrepareWorkspace);
        r.push(SessionStep::ExtractArchive);
        if bulk_stamp {
            r.push(SessionStep::StampTemplates);
        } else {
            r.push(SessionStep::RunExternalTool);
        }
        r.push(SessionStep::ResolveTemplates);
        r.push(SessionStep::RepackArchive);
        r.push(SessionStep::HideVcsDirectory);
        if bulk_stamp {
            assert(r@ =~= stamp_plan());
        } else {
            assert(r@ =~= default_plan());
        }
    }
    r
}

/// Relies on `chrono::DateTime::from_timestamp`, `with_timezone` towards
/// `chrono::Local`, and `format("%a %d/%m/%Y %H:%M")`: formats a commit time
/// as a local date and time. Which text comes back depends on the machine's
/// time zone, so the text itself is unnamed; what holds of every outcome is
/// that this format emits only weekday letters, digits and `/ : space -`
/// separators, never a quote, a newline or a `<`. `None` comes back only when
/// the seconds lie outside chrono's representable dates; the range promised
/// here, about ±253000 years around the epoch, lies well inside it (chrono's
/// exact boundary constants are not written in its source, so only this
/// comfortable inner range is stated).
#[verifier::external_body]
fn format_local_timestamp(secs: i64) -> (r: Option<Vec<char>>)
    ensures
        -8_000_000_000_000 <= secs <= 8_000_000_000_000 ==> r is Some,
        r matches Some(t) ==> forall|j: int|
            0 <= j < t@.len() ==> crate::template::is_value_char(t@[j]),
{
    match chrono::DateTime::from_timestamp(secs, 0) {
        Some(dt) => {
            let text = dt.with_timezone(&chrono::Local).format("%a %d/%m/%Y %H:%M").to_string();
            Some(text.chars().collect())
        },
        None => None,
    }
}

/// Builds the commit snapshot for one session from the head commit's raw
/// values: the commit time in seconds, the head reference's short name, the
/// commit message, and the full hexadecimal commit id, of which the first 7
/// characters become the abbreviated id. Returns `None` when the id is too
/// short or the time cannot be represented; every commit time a repository
/// can hold lies far inside the range on which success is promised. The
/// formatted time can always stand inside a quoted attribute.
pub fn snapshot_from_head(
    secs: i64,
    name: Vec<char>,
    msg: Vec<char>,
    commit_id: &Vec<char>,
) -> (r: Option<CommitSnapshot>)
    ensures
        commit_id@.len() < 7 ==> r is None,
        commit_id@.len() >= 7 && -8_000_000_000_000 <= secs <= 8_000_000_000_000 ==> r is Some,
        r matches Some(s) ==> s@.name == name@ && s@.msg == msg@ && s@.hash
            == commit_id@.subrange(0, 7) && crate::template_laws::clean_value(s@.time),
{
    if commit_id.len() < 7 {
        return None;
    }
    let time = match format_local_timestamp(secs) {
        Some(t) => t,
        None => {
            return None;
        },
    };
    let mut hash: Vec<char> = Vec::new();
    let mut i: usize = 0;
    while i < 7
        invariant
            0 <= i <= 7 <= commit_id@.len(),
            hash@ == commit_id@.subrange(0, i as int),
        decreases 7 - i,
    {
        hash.push(commit_id[i]);
        assert(hash@ =~= commit_id@.subrange(0, i + 1));
        i += 1;
    }
    Some(CommitSnapshot { time, name, msg, hash })
}

} // verus!
