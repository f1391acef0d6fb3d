use vstd::prelude::*;

use crate::archive::{EntryKind, ScannedEntry};
use crate::error::{error_detail, ArcaError};
use crate::mimeapps::chars_equal;
use crate::text::{chars_of, concat_str};
use crate::time::UnixTime;

verus! {

broadcast use vstd::string::group_string_axioms;

// ---------------------------------------------------------------------------
// The archive file between two passes
// ---------------------------------------------------------------------------

/// The pass after which an archive's digest is taken again.
#[derive(Debug, Clone, Copy, PartialEq, Eq, Structural)]
pub enum ArchiveStage {
    Listing,
    Testing,
    Extraction,
    Saving,
}

/// The message reporting an archive that changed during a pass.
pub open spec fn changed_archive_text(stage: ArchiveStage, archive: Seq<char>) -> Seq<char> {
    match stage {
        ArchiveStage::Listing => "archive changed while listing: "@ + archive,
        ArchiveStage::Testing => "archive changed between validation and testing"@,
        ArchiveStage::Extraction => "archive changed between validation and extraction"@,
        ArchiveStage::Saving => "archive changed before saving: "@ + archive,
    }
}

/// The archive must hash the same after a pass as before it: an archive
/// that changed in between is an `Integrity` error, and nothing read from it
/// is trusted.
pub fn check_archive_unchanged(before: &[u8; 32], after: &[u8; 32], stage: ArchiveStage, archive: &str) -> (r: Result<
    (),
    ArcaError,
>)
    ensures
        r is Ok <==> before@ == after@,
        r matches Err(e) ==> e is Integrity && error_detail(e) == changed_archive_text(stage, archive@),
{
    let mut same = true;
    let mut i: usize = 0;
    while i < 32
        invariant
            before@.len() == 32,
            after@.len() == 32,
            i <= 32,
            same <==> forall|j: int| 0 <= j < i ==> before@[j] == after@[j],
        decreases 32 - i,
    {
        if before[i] != after[i] {
            same = false;
        }
        i = i + 1;
    }
    if same {
        assert(before@ =~= after@);
        return Ok(());
    }
    let message = match stage {
        ArchiveStage::Listing => concat_str("archive changed while listing: ", archive),
        ArchiveStage::Testing => "archive changed between validation and testing".to_owned(),
        ArchiveStage::Extraction => "archive changed between validation and extraction".to_owned(),
        ArchiveStage::Saving => concat_str("archive changed before saving: ", archive),
    };
    Err(ArcaError::Integrity(message))
}

// ---------------------------------------------------------------------------
// The order of the passes
// ---------------------------------------------------------------------------

/// Where a two-pass read of an archive stands: the digest is taken, a first
/// pass validates the archive and makes its manifest, a second pass tests or
/// stages the entries against it, and the digest is taken again.
#[derive(Debug, Clone, Copy)]
pub enum TwoPassState {
    /// Nothing read yet.
    Start,
    /// The digest before reading is taken; the first pass runs.
    FirstPass { before: [u8; 32] },
    /// The first pass succeeded; the second pass runs.
    SecondPass { before: [u8; 32] },
    /// Both passes succeeded; the digest after them is taken.
    Verifying { before: [u8; 32] },
    /// The archive hashed the same after both passes: what the second pass
    /// produced may be published.
    Publishable,
}

/// What the caller reports after doing what a step asked.
#[derive(Debug, Clone, Copy)]
pub enum TwoPassEvent {
    /// The archive's digest, just taken.
    Digest([u8; 32]),
    /// The pass that was asked for succeeded.
    PassDone,
}

/// What a step asks the caller to do next.
#[derive(Debug, Clone, Copy, PartialEq, Eq, Structural)]
pub enum TwoPassAction {
    TakeDigest,
    RunFirstPass,
    RunSecondPass,
    Publish,
}

/// The events a state waits for: a digest at the start and after the second
/// pass, the end of a pass while one runs.
pub open spec fn two_pass_awaits(state: TwoPassState, event: TwoPassEvent) -> bool {
    match state {
        TwoPassState::Start => event is Digest,
        TwoPassState::FirstPass { .. } => event is PassDone,
        TwoPassState::SecondPass { .. } => event is PassDone,
        TwoPassState::Verifying { .. } => event is Digest,
        TwoPassState::Publishable => false,
    }
}

/// The next state and action after an awaited event; `None` where the
/// digest after the passes differs from the one before.
pub open spec fn spec_two_pass_step(state: TwoPassState, event: TwoPassEvent) -> Option<(TwoPassState, TwoPassAction)> {
    match (state, event) {
        (TwoPassState::Start, TwoPassEvent::Digest(d)) => Some(
            (TwoPassState::FirstPass { before: d }, TwoPassAction::RunFirstPass),
        ),
        (TwoPassState::FirstPass { before }, _) => Some(
            (TwoPassState::SecondPass { before }, TwoPassAction::RunSecondPass),
        ),
        (TwoPassState::SecondPass { before }, _) => Some(
            (TwoPassState::Verifying { before }, TwoPassAction::TakeDigest),
        ),
        (TwoPassState::Verifying { before }, TwoPassEvent::Digest(after)) => if before@ == after@ {
            Some((TwoPassState::Publishable, TwoPassAction::Publish))
        } else {
            None
        },
        _ => None,
    }
}

/// A two-pass read begins by taking the archive's digest.
pub fn two_pass_start() -> (r: (TwoPassState, TwoPassAction))
    ensures
        r.0 is Start,
        r.1 == TwoPassAction::TakeDigest,
{
    (TwoPassState::Start, TwoPassAction::TakeDigest)
}

/// What a state asks for while it waits.
pub open spec fn awaited_action(state: TwoPassState) -> TwoPassAction {
    match state {
        TwoPassState::Start => TwoPassAction::TakeDigest,
        TwoPassState::FirstPass { .. } => TwoPassAction::RunFirstPass,
        TwoPassState::SecondPass { .. } => TwoPassAction::RunSecondPass,
        TwoPassState::Verifying { .. } => TwoPassAction::TakeDigest,
        TwoPassState::Publishable => TwoPassAction::Publish,
    }
}

/// One step of a two-pass read: from the state and the event to the next
/// state and what to do next. An event the state does not wait for changes
/// nothing and the state asks again; a digest after the passes that differs
/// from the one before is an `Integrity` error for the stage.
pub fn two_pass_step(state: TwoPassState, event: TwoPassEvent, stage: ArchiveStage, archive: &str) -> (r: Result<
    (TwoPassState, TwoPassAction),
    ArcaError,
>)
    ensures
        two_pass_awaits(state, event) ==> match spec_two_pass_step(state, event) {
            Some(next) => r == Ok::<(TwoPassState, TwoPassAction), ArcaError>(next),
            None => r matches Err(e) && e is Integrity && error_detail(e) == changed_archive_text(stage, archive@),
        },
        !two_pass_awaits(state, event) ==> r == Ok::<(TwoPassState, TwoPassAction), ArcaError>(
            (state, awaited_action(state)),
        ),
{
    match state {
        TwoPassState::Start => match event {
            TwoPassEvent::Digest(d) => Ok((TwoPassState::FirstPass { before: d }, TwoPassAction::RunFirstPass)),
            TwoPassEvent::PassDone => Ok((state, TwoPassAction::TakeDigest)),
        },
        TwoPassState::FirstPass { before } => match event {
            TwoPassEvent::PassDone => Ok((TwoPassState::SecondPass { before }, TwoPassAction::RunSecondPass)),
            TwoPassEvent::Digest(_) => Ok((state, TwoPassAction::RunFirstPass)),
        },
        TwoPassState::SecondPass { before } => match event {
            TwoPassEvent::PassDone => Ok((TwoPassState::Verifying { before }, TwoPassAction::TakeDigest)),
            TwoPassEvent::Digest(_) => Ok((state, TwoPassAction::RunSecondPass)),
        },
        TwoPassState::Verifying { before } => match event {
            TwoPassEvent::Digest(after) => {
                check_archive_unchanged(&before, &after, stage, archive)?;
                Ok((TwoPassState::Publishable, TwoPassAction::Publish))
            },
            TwoPassEvent::PassDone => Ok((state, TwoPassAction::TakeDigest)),
        },
        TwoPassState::Publishable => Ok((state, TwoPassAction::Publish)),
    }
}

/// The state reached from the start after the awaited events, in order;
/// `None` once an event is not awaited or the digests disagree.
pub open spec fn two_pass_run(events: Seq<TwoPassEvent>) -> Option<TwoPassState>
    decreases events.len(),
{
    if events.len() == 0 {
        Some(TwoPassState::Start)
    } else {
        match two_pass_run(events.drop_last()) {
            Some(state) => if two_pass_awaits(state, events.last()) {
                match spec_two_pass_step(state, events.last()) {
                    Some(next) => Some(next.0),
                    None => None,
                }
            } else {
                None
            },
            None => None,
        }
    }
}

/// A two-pass read reaches the point where its result may be published only
/// after exactly this order: a digest, the first pass, the second pass and a
/// second digest equal to the first.
pub proof fn law_publish_after_both_passes(events: Seq<TwoPassEvent>)
    requires
        two_pass_run(events) == Some(TwoPassState::Publishable),
    ensures
        events.len() == 4,
        events[0] is Digest,
        events[1] is PassDone,
        events[2] is PassDone,
        events[3] is Digest,
        events[0]->Digest_0@ == events[3]->Digest_0@,
{
    let e3 = events.drop_last();
    let e2 = e3.drop_last();
    let e1 = e2.drop_last();
    let e0 = e1.drop_last();
    assert(events.len() >= 1);
    match two_pass_run(e3) {
        Some(s3) => {
            assert(s3 is Verifying);
            assert(e3.len() >= 1);
            match two_pass_run(e2) {
                Some(s2) => {
                    assert(s2 is SecondPass);
                    assert(e2.len() >= 1);
                    match two_pass_run(e1) {
                        Some(s1) => {
                            assert(s1 is FirstPass);
                            assert(e1.len() >= 1);
                            match two_pass_run(e0) {
                                Some(s0) => {
                                    assert(s0 is Start);
                                    if e0.len() > 0 {
                                        match two_pass_run(e0.drop_last()) {
                                            Some(s) => {
                                                assert(!(spec_two_pass_step(s, e0.last()) matches Some(n) && n.0 is Start));
                                            },
                                            None => {},
                                        }
                                    }
                                    assert(e0.len() == 0);
                                    assert(events[0] == e1.last());
                                    assert(events[1] == e2.last());
                                    assert(events[2] == e3.last());
                                },
                                None => {},
                            }
                        },
                        None => {},
                    }
                },
                None => {},
            }
        },
        None => {},
    }
}

// ---------------------------------------------------------------------------
// The tar manifest between two passes
// ---------------------------------------------------------------------------

/// What identifies an entry between the passes over a tar archive: its path,
/// kind, link target, mode and modification time (not its size, which the
/// payload copy checks on its own).
pub open spec fn manifest_key(e: ScannedEntry) -> (Seq<char>, EntryKind, Option<Seq<char>>, Option<u32>, Option<UnixTime>) {
    (
        e.path@,
        e.kind,
        match e.link_target {
            Some(t) => Some(t@),
            None => None,
        },
        e.mode,
        e.modified,
    )
}

/// The keys of a manifest, in order.
pub open spec fn manifest_keys(m: Seq<ScannedEntry>) -> Seq<(Seq<char>, EntryKind, Option<Seq<char>>, Option<u32>, Option<UnixTime>)> {
    m.map_values(|e: ScannedEntry| manifest_key(e))
}

fn text_equal(a: &String, b: &String) -> (r: bool)
    ensures
        r == (a@ == b@),
{
    let x = chars_of(a.as_str());
    let y = chars_of(b.as_str());
    chars_equal(&x, &y)
}

fn same_key(a: &ScannedEntry, b: &ScannedEntry) -> (r: bool)
    ensures
        r == (manifest_key(*a) == manifest_key(*b)),
{
    if !text_equal(&a.path, &b.path) || a.kind != b.kind || a.mode != b.mode || a.modified != b.modified {
        return false;
    }
    match (&a.link_target, &b.link_target) {
        (Some(x), Some(y)) => text_equal(x, y),
        (None, None) => true,
        _ => false,
    }
}

/// The second pass over a tar archive must meet the entries of the first,
/// in the same order; anything else is an `Integrity` error.
pub fn check_tar_manifest(expected: &Vec<ScannedEntry>, seen: &Vec<ScannedEntry>, extracting: bool) -> (r: Result<
    (),
    ArcaError,
>)
    ensures
        r is Ok <==> manifest_keys(expected@) == manifest_keys(seen@),
        r matches Err(e) ==> e is Integrity && error_detail(e) == (if extracting {
            "tar entry manifest changed between validation and extraction"@
        } else {
            "tar entry manifest changed between validation and testing"@
        }),
{
    let mut same = expected.len() == seen.len();
    assert(manifest_keys(expected@).len() == expected@.len() && manifest_keys(seen@).len() == seen@.len());
    let mut i: usize = 0;
    while same && i < expected.len()
        invariant
            same ==> expected@.len() == seen@.len(),
            i <= expected@.len(),
            same ==> forall|j: int| 0 <= j < i ==> manifest_key(expected@[j]) == manifest_key(seen@[j]),
            !same ==> manifest_keys(expected@) != manifest_keys(seen@),
        decreases expected.len() - i + (if same { 1int } else { 0int }),
    {
        if same_key(&expected[i], &seen[i]) {
            i = i + 1;
        } else {
            assert(manifest_keys(expected@)[i as int] != manifest_keys(seen@)[i as int]);
            same = false;
        }
    }
    if same {
        assert(manifest_keys(expected@) =~= manifest_keys(seen@));
        return Ok(());
    }
    if extracting {
        Err(ArcaError::Integrity("tar entry manifest changed between validation and extraction".to_owned()))
    } else {
        Err(ArcaError::Integrity("tar entry manifest changed between validation and testing".to_owned()))
    }
}

/// Testing an entry read exactly its recorded size (`Integrity` otherwise).
pub fn check_tested_size(copied: u64, expected: u64, archive: &str, tar_entry: bool) -> (r: Result<(), ArcaError>)
    ensures
        r is Ok <==> copied == expected,
        r matches Err(e) ==> e is Integrity && error_detail(e) == (if tar_entry {
            "tar entry size changed while testing "@
        } else {
            "archive entry size changed while testing "@
        }) + archive@,
{
    if copied == expected {
        return Ok(());
    }
    if tar_entry {
        Err(ArcaError::Integrity(concat_str("tar entry size changed while testing ", archive)))
    } else {
        Err(ArcaError::Integrity(concat_str("archive entry size changed while testing ", archive)))
    }
}

} // verus!
