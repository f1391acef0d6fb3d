use vstd::prelude::*;
use vstd::hash_set::StringHashSet;
use std::path::PathBuf;

use crate::archive::{
    admissible, all_requested_found, keyed, lemma_admissible_step, selected_upto, child_of_vec, entry_kind_label, is_child_path, normalize_selection_path,
    normalized_selection, spec_entry_kind_label, ArchiveSelection, EntryKind, PathGuard,
    ScannedEntry,
};
use crate::error::{error_detail, ArcaError};
use crate::plan::ArchiveEntry;
use crate::digest::{hex_digest, hex_text};
use crate::integrity::{changed_archive_text, ArchiveStage};
use crate::policy::{archive_path_refusal, collision_key, spec_collision_key, valid_archive_path, validate_archive_path};
use crate::text::{
    chars_of, concat_str, join_seqs, join_strings, str_eq, sorted_listing, sorted_strings, string_of, string_views, trim_end_char,
    trim_end_vec,
};

verus! {

broadcast use vstd::string::group_string_axioms;

/// An entry the user already added in the editor but has not saved.
#[derive(Debug, Clone)]
pub struct DirectEditPendingEntry {
    pub archive_path: String,
    pub entry_type: String,
}

/// An input that a direct edit would add to the archive.
#[derive(Debug, Clone)]
pub struct DirectEditPlannedEntry {
    pub archive_path: String,
    pub source_path: PathBuf,
    pub entry_type: String,
}

/// The inputs of a direct edit, split into plain additions and replacements of
/// entries already in the archive.
#[derive(Debug, Clone)]
pub struct DirectEditAddPlan {
    pub additions: Vec<DirectEditPlannedEntry>,
    pub replacements: Vec<DirectEditPlannedEntry>,
}

// ---------------------------------------------------------------------------
// Conflicts between archive paths
// ---------------------------------------------------------------------------

/// Two entries conflict when their keys are equal, or one lies below the other
/// while the upper one is not a directory.
pub open spec fn keys_conflict(pk: Seq<char>, pkind: EntryKind, ek: Seq<char>, ekind: EntryKind) -> bool {
    pk == ek || (is_child_path(pk, ek) && ekind != EntryKind::Directory) || (is_child_path(ek, pk)
        && pkind != EntryKind::Directory)
}

/// Two archive paths conflict, judged by their collision keys.
pub open spec fn paths_conflict(planned: Seq<char>, pkind: EntryKind, existing: Seq<char>, ekind: EntryKind) -> bool {
    keys_conflict(spec_collision_key(planned), pkind, spec_collision_key(existing), ekind)
}

/// Whether a planned entry conflicts with an existing one; `Security` when
/// either path breaks the archive path policy.
pub fn direct_edit_paths_conflict(
    planned_path: &str,
    planned_kind: EntryKind,
    existing_path: &str,
    existing_kind: EntryKind,
) -> (r: Result<bool, ArcaError>)
    ensures
        r is Ok <==> valid_archive_path(planned_path@) && valid_archive_path(existing_path@),
        r matches Ok(b) ==> b == paths_conflict(planned_path@, planned_kind, existing_path@, existing_kind),
        r matches Err(e) ==> e is Security,
{
    let planned_key = collision_key(planned_path)?;
    let existing_key = collision_key(existing_path)?;
    let pk = chars_of(planned_key.as_str());
    let ek = chars_of(existing_key.as_str());
    Ok(same_chars(&pk, &ek) || (child_of_vec(&pk, &ek)
        && existing_kind != EntryKind::Directory) || (child_of_vec(&ek, &pk) && planned_kind
        != EntryKind::Directory))
}

fn same_chars(a: &Vec<char>, b: &Vec<char>) -> (r: bool)
    ensures
        r == (a@ == b@),
{
    if a.len() != b.len() {
        return false;
    }
    let mut i: usize = 0;
    while i < a.len()
        invariant
            a.len() == b.len(),
            i <= a.len(),
            forall|j: int| 0 <= j < i ==> a@[j] == b@[j],
        decreases a.len() - i,
    {
        if a[i] != b[i] {
            assert(a@[i as int] != b@[i as int]);
            return false;
        }
        i = i + 1;
    }
    assert(a@ =~= b@);
    true
}

/// Manifest entry `i` stays in the archive: it is not being deleted.
pub open spec fn is_live(m: Seq<ScannedEntry>, deleted: Set<Seq<char>>, i: int) -> bool {
    !deleted.contains(m[i].path@)
}

/// Every entry that stays in the archive has a valid path.
pub open spec fn live_paths_valid(m: Seq<ScannedEntry>, deleted: Set<Seq<char>>) -> bool {
    forall|i: int| 0 <= i < m.len() && is_live(m, deleted, i) ==> valid_archive_path(#[trigger] m[i].path@)
}

/// A planned entry conflicts with an entry that stays in the archive.
pub open spec fn conflicts_with_manifest(
    path: Seq<char>,
    kind: EntryKind,
    m: Seq<ScannedEntry>,
    deleted: Set<Seq<char>>,
) -> bool {
    exists|i: int| 0 <= i < m.len() && is_live(m, deleted, i) && paths_conflict(path, kind, #[trigger] m[i].path@, m[i].kind)
}

/// Whether a planned entry conflicts with an entry that stays in the archive.
/// Owed whenever the planned path and the staying paths are valid.
pub fn direct_edit_entry_conflicts_with_manifest(
    path: &str,
    kind: EntryKind,
    manifest: &Vec<ScannedEntry>,
    deleted: &StringHashSet,
) -> (r: Result<bool, ArcaError>)
    ensures
        r matches Ok(b) ==> b == conflicts_with_manifest(path@, kind, manifest@, deleted@),
        valid_archive_path(path@) && live_paths_valid(manifest@, deleted@) ==> r is Ok,
        r matches Err(e) ==> e is Security,
{
    let mut i: usize = 0;
    while i < manifest.len()
        invariant
            i <= manifest.len(),
            forall|j: int| 0 <= j < i && is_live(manifest@, deleted@, j) ==> !paths_conflict(path@, kind, #[trigger] manifest@[j].path@, manifest@[j].kind),
        decreases manifest.len() - i,
    {
        let existing = &manifest[i];
        if !deleted.contains(existing.path.as_str()) {
            if direct_edit_paths_conflict(path, kind, existing.path.as_str(), existing.kind)? {
                return Ok(true);
            }
        }
        i = i + 1;
    }
    Ok(false)
}


// ---------------------------------------------------------------------------
// Planning additions
// ---------------------------------------------------------------------------

pub open spec fn planned_view(p: DirectEditPlannedEntry) -> (Seq<char>, PathBuf, Seq<char>) {
    (p.archive_path@, p.source_path, p.entry_type@)
}

/// What a planned input is shown as: its archive path, its source and its kind's label.
pub open spec fn entry_plan_view(e: ArchiveEntry) -> (Seq<char>, PathBuf, Seq<char>) {
    (e.archive_path@, e.source, spec_entry_kind_label(e.kind)@)
}

pub open spec fn is_replacement(e: ArchiveEntry, m: Seq<ScannedEntry>, deleted: Set<Seq<char>>) -> bool {
    conflicts_with_manifest(e.archive_path@, e.kind, m, deleted)
}

/// The planned inputs among the first `n` that add new entries, in order.
pub open spec fn additions_upto(
    planned: Seq<ArchiveEntry>,
    m: Seq<ScannedEntry>,
    deleted: Set<Seq<char>>,
    n: int,
) -> Seq<(Seq<char>, PathBuf, Seq<char>)>
    decreases n,
{
    if n <= 0 {
        Seq::empty()
    } else if is_replacement(planned[n - 1], m, deleted) {
        additions_upto(planned, m, deleted, n - 1)
    } else {
        additions_upto(planned, m, deleted, n - 1).push(entry_plan_view(planned[n - 1]))
    }
}

/// The planned inputs among the first `n` that replace existing entries, in order.
pub open spec fn replacements_upto(
    planned: Seq<ArchiveEntry>,
    m: Seq<ScannedEntry>,
    deleted: Set<Seq<char>>,
    n: int,
) -> Seq<(Seq<char>, PathBuf, Seq<char>)>
    decreases n,
{
    if n <= 0 {
        Seq::empty()
    } else if is_replacement(planned[n - 1], m, deleted) {
        replacements_upto(planned, m, deleted, n - 1).push(entry_plan_view(planned[n - 1]))
    } else {
        replacements_upto(planned, m, deleted, n - 1)
    }
}

pub open spec fn planned_paths_valid(planned: Seq<ArchiveEntry>) -> bool {
    forall|k: int| 0 <= k < planned.len() ==> valid_archive_path(#[trigger] planned[k].archive_path@)
}

/// How a planned input is shown to the editor.
pub fn direct_edit_planned_entry(entry: &ArchiveEntry) -> (r: DirectEditPlannedEntry)
    ensures
        planned_view(r) == entry_plan_view(*entry),
{
    DirectEditPlannedEntry {
        archive_path: entry.archive_path.clone(),
        source_path: entry.source.clone(),
        entry_type: entry_kind_label(entry.kind).to_owned(),
    }
}

/// Splits planned inputs into additions and replacements of entries that stay
/// in the archive. Owed whenever all paths involved are valid.
pub fn plan_direct_edit_entries(
    manifest: &Vec<ScannedEntry>,
    deleted: &StringHashSet,
    planned: &Vec<ArchiveEntry>,
) -> (r: Result<DirectEditAddPlan, ArcaError>)
    ensures
        r matches Ok(plan) ==> plan.additions@.map_values(|p: DirectEditPlannedEntry| planned_view(p))
            == additions_upto(planned@, manifest@, deleted@, planned@.len() as int)
            && plan.replacements@.map_values(|p: DirectEditPlannedEntry| planned_view(p))
            == replacements_upto(planned@, manifest@, deleted@, planned@.len() as int),
        planned_paths_valid(planned@) && live_paths_valid(manifest@, deleted@) ==> r is Ok,
        r matches Err(e) ==> e is Security,
{
    let mut additions: Vec<DirectEditPlannedEntry> = Vec::new();
    let mut replacements: Vec<DirectEditPlannedEntry> = Vec::new();
    let mut k: usize = 0;
    while k < planned.len()
        invariant
            k <= planned.len(),
            additions@.map_values(|p: DirectEditPlannedEntry| planned_view(p)) == additions_upto(planned@, manifest@, deleted@, k as int),
            replacements@.map_values(|p: DirectEditPlannedEntry| planned_view(p)) == replacements_upto(planned@, manifest@, deleted@, k as int),
            planned_paths_valid(planned@) && live_paths_valid(manifest@, deleted@) ==> planned_paths_valid(planned@),
        decreases planned.len() - k,
    {
        let entry = &planned[k];
        proof {
            if planned_paths_valid(planned@) {
                assert(valid_archive_path(planned@[k as int].archive_path@));
            }
        }
        let conflict = direct_edit_entry_conflicts_with_manifest(
            entry.archive_path.as_str(),
            entry.kind,
            manifest,
            deleted,
        )?;
        let item = direct_edit_planned_entry(entry);
        if conflict {
            let ghost before = replacements@;
            replacements.push(item);
            assert(replacements@.map_values(|p: DirectEditPlannedEntry| planned_view(p)) =~= before.map_values(|p: DirectEditPlannedEntry| planned_view(p)).push(planned_view(item)));
        } else {
            let ghost before = additions@;
            additions.push(item);
            assert(additions@.map_values(|p: DirectEditPlannedEntry| planned_view(p)) =~= before.map_values(|p: DirectEditPlannedEntry| planned_view(p)).push(planned_view(item)));
        }
        k = k + 1;
    }
    Ok(DirectEditAddPlan { additions, replacements })
}

// ---------------------------------------------------------------------------
// Pending additions
// ---------------------------------------------------------------------------

/// Some planned input conflicts with some pending addition.
pub open spec fn conflicts_with_pending(planned: Seq<ArchiveEntry>, pending: Seq<(String, EntryKind)>) -> bool {
    exists|k: int, j: int| 0 <= k < planned.len() && 0 <= j < pending.len() && paths_conflict(
        #[trigger] planned[k].archive_path@,
        planned[k].kind,
        #[trigger] pending[j].0@,
        pending[j].1,
    )
}

pub open spec fn pending_paths_valid(pending: Seq<(String, EntryKind)>) -> bool {
    forall|j: int| 0 <= j < pending.len() ==> valid_archive_path(#[trigger] pending[j].0@)
}

/// Refuses planned inputs that conflict with additions already pending
/// (`Usage`); `Security` for invalid paths.
pub fn validate_direct_edit_pending_add_conflicts(
    pending: &Vec<(String, EntryKind)>,
    planned: &Vec<ArchiveEntry>,
) -> (r: Result<(), ArcaError>)
    ensures
        r is Ok ==> !conflicts_with_pending(planned@, pending@),
        planned_paths_valid(planned@) && pending_paths_valid(pending@) ==> (r is Ok <==> !conflicts_with_pending(planned@, pending@)),
        r matches Err(e) ==> e is Usage || e is Security,
        planned_paths_valid(planned@) && pending_paths_valid(pending@) ==> (r matches Err(e) ==> e is Usage && exists|b: int|
            0 <= b < pending@.len() && error_detail(e) == "archive entry already has pending changes: "@
            + #[trigger] pending@[b].0@),
{
    let mut k: usize = 0;
    while k < planned.len()
        invariant
            k <= planned.len(),
            forall|a: int, b: int| 0 <= a < k && 0 <= b < pending@.len() ==> !paths_conflict(#[trigger] planned@[a].archive_path@, planned@[a].kind, #[trigger] pending@[b].0@, pending@[b].1),
        decreases planned.len() - k,
    {
        let entry = &planned[k];
        let mut j: usize = 0;
        while j < pending.len()
            invariant
                k < planned.len(),
                entry == planned@[k as int],
                j <= pending.len(),
                forall|a: int, b: int| 0 <= a < k && 0 <= b < pending@.len() ==> !paths_conflict(#[trigger] planned@[a].archive_path@, planned@[a].kind, #[trigger] pending@[b].0@, pending@[b].1),
                forall|b: int| 0 <= b < j ==> !paths_conflict(planned@[k as int].archive_path@, planned@[k as int].kind, #[trigger] pending@[b].0@, pending@[b].1),
            decreases pending.len() - j,
        {
            let pend = &pending[j];
            proof {
                if planned_paths_valid(planned@) && pending_paths_valid(pending@) {
                    assert(valid_archive_path(planned@[k as int].archive_path@));
                    assert(valid_archive_path(pending@[j as int].0@));
                }
            }
            let res = direct_edit_paths_conflict(entry.archive_path.as_str(), entry.kind, pend.0.as_str(), pend.1);
            match res {
                Ok(true) => {
                    assert(conflicts_with_pending(planned@, pending@)) by {
                        assert(paths_conflict(planned@[k as int].archive_path@, planned@[k as int].kind, pending@[j as int].0@, pending@[j as int].1));
                    }
                    return Err(ArcaError::Usage(concat_str("archive entry already has pending changes: ", pend.0.as_str())));
                },
                Ok(false) => {},
                Err(e) => {
                    return Err(e);
                },
            }
            j = j + 1;
        }
        k = k + 1;
    }
    Ok(())
}

/// An entry type label the editor may send.
pub open spec fn known_entry_type(t: Seq<char>) -> bool {
    t == "directory"@ || t == "file"@ || t == "symlink"@
}

/// The pending additions as (path without trailing slashes, kind); `Security`
/// for a path that breaks the policy, `Usage` for an unknown entry type.
pub fn normalize_direct_edit_pending_entries(entries: &Vec<DirectEditPendingEntry>) -> (r: Result<Vec<(String, EntryKind)>, ArcaError>)
    ensures
        r is Ok <==> forall|i: int| 0 <= i < entries@.len() ==> valid_archive_path(#[trigger] entries@[i].archive_path@)
            && known_entry_type(entries@[i].entry_type@),
        r matches Ok(v) ==> v@.len() == entries@.len() && forall|i: int| 0 <= i < entries@.len() ==> (#[trigger] v@[i]).0@ == trim_end_char(entries@[i].archive_path@, '/')
            && spec_entry_kind_label(v@[i].1)@ == entries@[i].entry_type@,
        r matches Err(e) ==> e is Usage || e is Security,
{
    let mut out: Vec<(String, EntryKind)> = Vec::new();
    let mut i: usize = 0;
    while i < entries.len()
        invariant
            i <= entries.len(),
            out@.len() == i,
            forall|k: int| 0 <= k < i ==> valid_archive_path(#[trigger] entries@[k].archive_path@),
            forall|k: int| 0 <= k < i ==> known_entry_type(#[trigger] entries@[k].entry_type@),
            forall|k: int| 0 <= k < i ==> (#[trigger] out@[k]).0@ == trim_end_char(entries@[k].archive_path@, '/')
                && spec_entry_kind_label(out@[k].1)@ == entries@[k].entry_type@,
        decreases entries.len() - i,
    {
        let entry = &entries[i];
        crate::policy::validate_archive_path(entry.archive_path.as_str())?;
        let kind = crate::archive::direct_edit_pending_entry_kind(entry.entry_type.as_str())?;
        assert(valid_archive_path(entries@[i as int].archive_path@));
        assert(known_entry_type(entries@[i as int].entry_type@));
        let chars = chars_of(entry.archive_path.as_str());
        let trimmed = string_of(&trim_end_vec(&chars, '/'));
        out.push((trimmed, kind));
        i = i + 1;
    }
    Ok(out)
}

/// The normalized paths of a list of selected entries, as a set.
pub fn normalize_archive_path_set(entries: &Vec<String>) -> (r: Result<StringHashSet, ArcaError>)
    ensures
        r is Ok <==> forall|i: int| 0 <= i < entries@.len() ==> normalized_selection(#[trigger] entries@[i]@).len() > 0 && valid_archive_path(entries@[i]@),
        r matches Ok(s) ==> forall|p: Seq<char>| s@.contains(p) <==> exists|i: int| 0 <= i < entries@.len() && p == normalized_selection(#[trigger] entries@[i]@),
        r matches Err(e) ==> e is Usage || e is Security,
{
    let mut out = StringHashSet::new();
    let mut i: usize = 0;
    while i < entries.len()
        invariant
            i <= entries.len(),
            forall|k: int| 0 <= k < i ==> normalized_selection(#[trigger] entries@[k]@).len() > 0 && valid_archive_path(entries@[k]@),
            forall|p: Seq<char>| out@.contains(p) <==> exists|k: int| 0 <= k < i && p == normalized_selection(#[trigger] entries@[k]@),
        decreases entries.len() - i,
    {
        let normalized = normalize_selection_path(entries[i].as_str())?;
        out.insert(normalized);
        assert forall|p: Seq<char>| out@.contains(p) <==> exists|k: int| 0 <= k < i + 1 && p == normalized_selection(#[trigger] entries@[k]@) by {
            if exists|k: int| 0 <= k < i + 1 && p == normalized_selection(#[trigger] entries@[k]@) {
                let k = choose|k: int| 0 <= k < i + 1 && p == normalized_selection(#[trigger] entries@[k]@);
                if k < i {
                    assert(exists|k2: int| 0 <= k2 < i && p == normalized_selection(#[trigger] entries@[k2]@));
                }
            }
            if out@.contains(p) && p != normalized_selection(entries@[i as int]@) {
                let k = choose|k: int| 0 <= k < i && p == normalized_selection(#[trigger] entries@[k]@);
            }
        }
        i = i + 1;
    }
    Ok(out)
}


// ---------------------------------------------------------------------------
// Deleting, replacing and the final archive
// ---------------------------------------------------------------------------

/// The requested set of a list of selected entries.
pub open spec fn requested_set(entries: Seq<String>) -> Set<Seq<char>> {
    Set::new(|p: Seq<char>| exists|i: int| 0 <= i < entries.len() && p == normalized_selection(#[trigger] entries[i]@))
}

pub open spec fn entries_normalize(entries: Seq<String>) -> bool {
    forall|i: int| 0 <= i < entries.len() ==> normalized_selection(#[trigger] entries[i]@).len() > 0 && valid_archive_path(entries[i]@)
}

/// The paths of the manifest entries a selection picks.
pub open spec fn picked_paths(m: Seq<ScannedEntry>, req: Set<Seq<char>>) -> Set<Seq<char>> {
    Set::new(|p: Seq<char>| exists|k: int| 0 <= k < selected_upto(m, req, m.len() as int).len() && p == m[#[trigger] selected_upto(m, req, m.len() as int)[k] as int].path@)
}

/// The manifest paths that a list of selected entries picks (nothing for an
/// empty list); the selection's errors otherwise.
pub fn selected_manifest_paths(manifest: &Vec<ScannedEntry>, entries: &Vec<String>) -> (r: Result<StringHashSet, ArcaError>)
    ensures
        entries@.len() == 0 ==> (r matches Ok(s) && s@ == Set::<Seq<char>>::empty()),
        entries@.len() > 0 ==> (r is Ok <==> entries_normalize(entries@) && all_requested_found(manifest@, requested_set(entries@))
            && selected_upto(manifest@, requested_set(entries@), manifest@.len() as int).len() > 0),
        entries@.len() > 0 ==> (r matches Ok(s) ==> s@ == picked_paths(manifest@, requested_set(entries@))),
        r matches Err(e) ==> e is Usage || e is Security,
{
    let mut out = StringHashSet::new();
    if entries.len() == 0 {
        return Ok(out);
    }
    let selection = ArchiveSelection::new(entries)?;
    assert(selection@ =~= requested_set(entries@));
    let picked = selection.select_manifest(manifest)?;
    let ghost sel = selected_upto(manifest@, requested_set(entries@), manifest@.len() as int);
    proof {
        assert(manifest@.len() == manifest.len());
        lemma_selected_in_range(manifest@, requested_set(entries@), manifest@.len() as int);
    }
    let mut k: usize = 0;
    while k < picked.len()
        invariant
            picked@ == sel,
            k <= picked.len(),
            forall|j: int| 0 <= j < sel.len() ==> sel[j] < manifest@.len(),
            forall|p: Seq<char>| out@.contains(p) <==> exists|j: int| 0 <= j < k && p == manifest@[#[trigger] sel[j] as int].path@,
        decreases picked.len() - k,
    {
        let index = picked[k];
        out.insert(manifest[index].path.clone());
        assert forall|p: Seq<char>| out@.contains(p) <==> exists|j: int| 0 <= j < k + 1 && p == manifest@[#[trigger] sel[j] as int].path@ by {
            if exists|j: int| 0 <= j < k + 1 && p == manifest@[#[trigger] sel[j] as int].path@ {
                let j = choose|j: int| 0 <= j < k + 1 && p == manifest@[#[trigger] sel[j] as int].path@;
                if j < k {
                    assert(exists|j2: int| 0 <= j2 < k && p == manifest@[#[trigger] sel[j2] as int].path@);
                }
            }
            if out@.contains(p) && p != manifest@[sel[k as int] as int].path@ {
                let j = choose|j: int| 0 <= j < k && p == manifest@[#[trigger] sel[j] as int].path@;
            }
        }
        k = k + 1;
    }
    assert(out@ =~= picked_paths(manifest@, requested_set(entries@)));
    Ok(out)
}

proof fn lemma_selected_in_range(m: Seq<ScannedEntry>, req: Set<Seq<char>>, n: int)
    requires
        0 <= n <= m.len(),
        m.len() <= usize::MAX,
    ensures
        forall|j: int| 0 <= j < selected_upto(m, req, n).len() ==> selected_upto(m, req, n)[j] < n,
    decreases n,
{
    if n > 0 {
        lemma_selected_in_range(m, req, n - 1);
        let prev = selected_upto(m, req, n - 1);
        assert(((n - 1) as usize) as int == n - 1);
        if crate::archive::is_selected(m, req, n - 1) {
            assert forall|j: int| 0 <= j < selected_upto(m, req, n).len() implies selected_upto(m, req, n)[j] < n by {
                if j < prev.len() {
                    assert(selected_upto(m, req, n)[j] == prev[j]);
                }
            }
        }
    }
}

/// The paths of staying entries that some included input conflicts with.
pub open spec fn replaced_set(m: Seq<ScannedEntry>, deleted: Set<Seq<char>>, included: Seq<ArchiveEntry>) -> Set<Seq<char>> {
    Set::new(|p: Seq<char>| exists|i: int| 0 <= i < m.len() && is_live(m, deleted, i) && #[trigger] m[i].path@ == p
        && exists|k: int| 0 <= k < included.len() && paths_conflict(#[trigger] included[k].archive_path@, included[k].kind, m[i].path@, m[i].kind))
}

/// The paths of the staying entries that the included inputs replace. Owed
/// whenever all paths involved are valid.
pub fn direct_edit_replaced_paths(
    manifest: &Vec<ScannedEntry>,
    deleted: &StringHashSet,
    included: &Vec<ArchiveEntry>,
) -> (r: Result<StringHashSet, ArcaError>)
    ensures
        r matches Ok(s) ==> s@ == replaced_set(manifest@, deleted@, included@),
        planned_paths_valid(included@) && live_paths_valid(manifest@, deleted@) ==> r is Ok,
        r matches Err(e) ==> e is Security,
{
    let mut replaced = StringHashSet::new();
    let mut k: usize = 0;
    while k < included.len()
        invariant
            k <= included.len(),
            forall|p: Seq<char>| replaced@.contains(p) <==> exists|i: int| 0 <= i < manifest@.len() && is_live(manifest@, deleted@, i) && #[trigger] manifest@[i].path@ == p
                && exists|a: int| 0 <= a < k && paths_conflict(#[trigger] included@[a].archive_path@, included@[a].kind, manifest@[i].path@, manifest@[i].kind),
        decreases included.len() - k,
    {
        let entry = &included[k];
        let mut i: usize = 0;
        while i < manifest.len()
            invariant
                k < included.len(),
                entry == included@[k as int],
                i <= manifest.len(),
                forall|p: Seq<char>| replaced@.contains(p) <==> exists|x: int| 0 <= x < manifest@.len() && is_live(manifest@, deleted@, x) && #[trigger] manifest@[x].path@ == p
                    && (exists|a: int| 0 <= a < k && paths_conflict(#[trigger] included@[a].archive_path@, included@[a].kind, manifest@[x].path@, manifest@[x].kind)
                        || (x < i && paths_conflict(included@[k as int].archive_path@, included@[k as int].kind, manifest@[x].path@, manifest@[x].kind))),
            decreases manifest.len() - i,
        {
            let existing = &manifest[i];
            if !deleted.contains(existing.path.as_str()) {
                proof {
                    if planned_paths_valid(included@) && live_paths_valid(manifest@, deleted@) {
                        assert(valid_archive_path(included@[k as int].archive_path@));
                        assert(valid_archive_path(manifest@[i as int].path@));
                    }
                }
                if direct_edit_paths_conflict(entry.archive_path.as_str(), entry.kind, existing.path.as_str(), existing.kind)? {
                    replaced.insert(existing.path.clone());
                }
            }
            assert forall|p: Seq<char>| replaced@.contains(p) <==> exists|x: int| 0 <= x < manifest@.len() && is_live(manifest@, deleted@, x) && #[trigger] manifest@[x].path@ == p
                && (exists|a: int| 0 <= a < k && paths_conflict(#[trigger] included@[a].archive_path@, included@[a].kind, manifest@[x].path@, manifest@[x].kind)
                    || (x < i + 1 && paths_conflict(included@[k as int].archive_path@, included@[k as int].kind, manifest@[x].path@, manifest@[x].kind))) by {
                if replaced@.contains(p) && p == manifest@[i as int].path@ && !deleted@.contains(p)
                    && paths_conflict(included@[k as int].archive_path@, included@[k as int].kind, manifest@[i as int].path@, manifest@[i as int].kind) {
                    assert(is_live(manifest@, deleted@, i as int));
                }
            }
            i = i + 1;
        }
        assert forall|p: Seq<char>| replaced@.contains(p) <==> exists|x: int| 0 <= x < manifest@.len() && is_live(manifest@, deleted@, x) && #[trigger] manifest@[x].path@ == p
            && exists|a: int| 0 <= a < k + 1 && paths_conflict(#[trigger] included@[a].archive_path@, included@[a].kind, manifest@[x].path@, manifest@[x].kind) by {
            if replaced@.contains(p) {
                let x = choose|x: int| 0 <= x < manifest@.len() && is_live(manifest@, deleted@, x) && #[trigger] manifest@[x].path@ == p
                    && (exists|a: int| 0 <= a < k && paths_conflict(#[trigger] included@[a].archive_path@, included@[a].kind, manifest@[x].path@, manifest@[x].kind)
                        || (x < manifest@.len() && paths_conflict(included@[k as int].archive_path@, included@[k as int].kind, manifest@[x].path@, manifest@[x].kind)));
                if !(exists|a: int| 0 <= a < k && paths_conflict(#[trigger] included@[a].archive_path@, included@[a].kind, manifest@[x].path@, manifest@[x].kind)) {
                    assert(paths_conflict(included@[k as int].archive_path@, included@[k as int].kind, manifest@[x].path@, manifest@[x].kind));
                }
            }
            if exists|x: int| 0 <= x < manifest@.len() && is_live(manifest@, deleted@, x) && #[trigger] manifest@[x].path@ == p
                && exists|a: int| 0 <= a < k + 1 && paths_conflict(#[trigger] included@[a].archive_path@, included@[a].kind, manifest@[x].path@, manifest@[x].kind) {
                let x = choose|x: int| 0 <= x < manifest@.len() && is_live(manifest@, deleted@, x) && #[trigger] manifest@[x].path@ == p
                    && exists|a: int| 0 <= a < k + 1 && paths_conflict(#[trigger] included@[a].archive_path@, included@[a].kind, manifest@[x].path@, manifest@[x].kind);
                let a = choose|a: int| 0 <= a < k + 1 && paths_conflict(#[trigger] included@[a].archive_path@, included@[a].kind, manifest@[x].path@, manifest@[x].kind);
                if a < k {
                    assert(exists|a2: int| 0 <= a2 < k && paths_conflict(#[trigger] included@[a2].archive_path@, included@[a2].kind, manifest@[x].path@, manifest@[x].kind));
                }
            }
        }
        k = k + 1;
    }
    assert(replaced@ =~= replaced_set(manifest@, deleted@, included@));
    Ok(replaced)
}

/// Refuses included inputs that would replace a staying entry without the
/// replacement being confirmed (`Usage`); `Security` for invalid paths.
pub fn validate_direct_edit_replacements(
    manifest: &Vec<ScannedEntry>,
    deleted: &StringHashSet,
    included: &Vec<ArchiveEntry>,
    confirmed: &StringHashSet,
) -> (r: Result<(), ArcaError>)
    ensures
        r is Ok ==> forall|k: int| 0 <= k < included@.len() && is_replacement(#[trigger] included@[k], manifest@, deleted@) ==> confirmed@.contains(included@[k].archive_path@),
        planned_paths_valid(included@) && live_paths_valid(manifest@, deleted@) ==> (r is Ok <==> forall|k: int| 0 <= k < included@.len() && is_replacement(#[trigger] included@[k], manifest@, deleted@) ==> confirmed@.contains(included@[k].archive_path@)),
        r matches Err(e) ==> e is Usage || e is Security,
        r matches Err(e) ==> (e is Usage ==> exists|k: int| 0 <= k < included@.len() && error_detail(e)
            == "replacement was not confirmed for archive entry: "@ + #[trigger] included@[k].archive_path@),
{
    let mut k: usize = 0;
    while k < included.len()
        invariant
            k <= included.len(),
            forall|a: int| 0 <= a < k && is_replacement(#[trigger] included@[a], manifest@, deleted@) ==> confirmed@.contains(included@[a].archive_path@),
        decreases included.len() - k,
    {
        let entry = &included[k];
        proof {
            if planned_paths_valid(included@) {
                assert(valid_archive_path(included@[k as int].archive_path@));
            }
        }
        if direct_edit_entry_conflicts_with_manifest(entry.archive_path.as_str(), entry.kind, manifest, deleted)?
            && !confirmed.contains(entry.archive_path.as_str()) {
            return Err(ArcaError::Usage(concat_str("replacement was not confirmed for archive entry: ", entry.archive_path.as_str())));
        }
        k = k + 1;
    }
    Ok(())
}

/// The entries that stay in the archive after deleting and replacing, as
/// (path, kind), in manifest order.
pub open spec fn remaining_upto(m: Seq<ScannedEntry>, deleted: Set<Seq<char>>, replaced: Set<Seq<char>>, n: int) -> Seq<(Seq<char>, EntryKind)>
    decreases n,
{
    if n <= 0 {
        Seq::empty()
    } else if deleted.contains(m[n - 1].path@) || replaced.contains(m[n - 1].path@) {
        remaining_upto(m, deleted, replaced, n - 1)
    } else {
        remaining_upto(m, deleted, replaced, n - 1).push((m[n - 1].path@, m[n - 1].kind))
    }
}

/// The included inputs as (path, kind).
pub open spec fn included_upto(included: Seq<ArchiveEntry>, n: int) -> Seq<(Seq<char>, EntryKind)>
    decreases n,
{
    if n <= 0 {
        Seq::empty()
    } else {
        included_upto(included, n - 1).push((included[n - 1].archive_path@, included[n - 1].kind))
    }
}

/// The entries of the saved archive: the staying entries, then the included inputs.
pub open spec fn final_entries(m: Seq<ScannedEntry>, deleted: Set<Seq<char>>, replaced: Set<Seq<char>>, included: Seq<ArchiveEntry>) -> Seq<(Seq<char>, EntryKind)> {
    remaining_upto(m, deleted, replaced, m.len() as int) + included_upto(included, included.len() as int)
}

/// Refuses a saved archive whose entries, taken in order, would collide or
/// break the directory structure (`Security`).
pub fn validate_direct_edit_final_paths(
    manifest: &Vec<ScannedEntry>,
    deleted: &StringHashSet,
    replaced: &StringHashSet,
    included: &Vec<ArchiveEntry>,
) -> (r: Result<(), ArcaError>)
    ensures
        r is Ok <==> admissible(final_entries(manifest@, deleted@, replaced@, included@)),
        r matches Err(e) ==> e is Security,
{
    let mut guard = PathGuard::new();
    let mut i: usize = 0;
    while i < manifest.len()
        invariant
            i <= manifest.len(),
            guard.wf(),
            guard@ == keyed(remaining_upto(manifest@, deleted@, replaced@, i as int)),
            admissible(remaining_upto(manifest@, deleted@, replaced@, i as int)),
        decreases manifest.len() - i,
    {
        let entry = &manifest[i];
        if !deleted.contains(entry.path.as_str()) && !replaced.contains(entry.path.as_str()) {
            proof {
                lemma_admissible_step(remaining_upto(manifest@, deleted@, replaced@, i as int), entry.path@, entry.kind);
            }
            let res = guard.accept(entry.path.as_str(), entry.kind);
            if res.is_err() {
                proof {
                    lemma_admissible_prefix(final_entries(manifest@, deleted@, replaced@, included@), remaining_upto(manifest@, deleted@, replaced@, i + 1), manifest@, deleted@, replaced@, included@, i + 1);
                }
                return res;
            }
        }
        i = i + 1;
    }
    let ghost base = remaining_upto(manifest@, deleted@, replaced@, manifest@.len() as int);
    let mut k: usize = 0;
    while k < included.len()
        invariant
            k <= included.len(),
            guard.wf(),
            base == remaining_upto(manifest@, deleted@, replaced@, manifest@.len() as int),
            guard@ == keyed(base + included_upto(included@, k as int)),
            admissible(base + included_upto(included@, k as int)),
        decreases included.len() - k,
    {
        let entry = &included[k];
        proof {
            assert(base + included_upto(included@, k + 1) == (base + included_upto(included@, k as int)).push((entry.archive_path@, entry.kind)));
            lemma_admissible_step(base + included_upto(included@, k as int), entry.archive_path@, entry.kind);
        }
        let res = guard.accept(entry.archive_path.as_str(), entry.kind);
        if res.is_err() {
            proof {
                let fin = final_entries(manifest@, deleted@, replaced@, included@);
                let all = included_upto(included@, included@.len() as int);
                lemma_included_prefix(included@, k + 1);
                lemma_included_len(included@, included@.len() as int);
                assert(fin == base + all);
                assert(fin.take(base.len() + k + 1) =~= base + all.take(k + 1));
                if admissible(fin) {
                    lemma_admissible_prefix_plain(fin, base.len() + k + 1);
                }
            }
            return res;
        }
        k = k + 1;
    }
    assert(final_entries(manifest@, deleted@, replaced@, included@) == base + included_upto(included@, included@.len() as int));
    Ok(())
}

proof fn lemma_admissible_prefix_plain(s: Seq<(Seq<char>, EntryKind)>, n: int)
    requires
        0 <= n <= s.len(),
        admissible(s),
    ensures
        admissible(s.take(n)),
    decreases s.len() - n,
{
    if n < s.len() {
        assert(s.drop_last().take(n) == s.take(n));
        lemma_admissible_prefix_plain(s.drop_last(), n);
    } else {
        assert(s.take(n) == s);
    }
}

proof fn lemma_remaining_prefix(m: Seq<ScannedEntry>, deleted: Set<Seq<char>>, replaced: Set<Seq<char>>, a: int, b: int)
    requires
        0 <= a <= b <= m.len(),
    ensures
        remaining_upto(m, deleted, replaced, b).take(remaining_upto(m, deleted, replaced, a).len() as int) == remaining_upto(m, deleted, replaced, a),
        remaining_upto(m, deleted, replaced, a).len() <= remaining_upto(m, deleted, replaced, b).len(),
    decreases b - a,
{
    if a < b {
        lemma_remaining_prefix(m, deleted, replaced, a, b - 1);
        let x = remaining_upto(m, deleted, replaced, b - 1);
        let y = remaining_upto(m, deleted, replaced, b);
        let n = remaining_upto(m, deleted, replaced, a).len() as int;
        if y != x {
            assert(y.take(n) == x.take(n));
        }
    } else {
        assert(remaining_upto(m, deleted, replaced, a).take(remaining_upto(m, deleted, replaced, a).len() as int) == remaining_upto(m, deleted, replaced, a));
    }
}

proof fn lemma_included_prefix(included: Seq<ArchiveEntry>, n: int)
    requires
        0 <= n <= included.len(),
    ensures
        included_upto(included, included.len() as int).take(n) == included_upto(included, n),
        included_upto(included, n).len() == n,
    decreases included.len() - n,
{
    lemma_included_len(included, n);
    lemma_included_len(included, included.len() as int);
    if n < included.len() {
        lemma_included_prefix(included, n + 1);
        assert(included_upto(included, n + 1).take(n) == included_upto(included, n));
    } else {
        assert(included_upto(included, n).take(n) == included_upto(included, n));
    }
}

proof fn lemma_included_len(included: Seq<ArchiveEntry>, n: int)
    requires
        0 <= n,
    ensures
        included_upto(included, n).len() == n,
    decreases n,
{
    if n > 0 {
        lemma_included_len(included, n - 1);
    }
}

proof fn lemma_admissible_prefix(
    fin: Seq<(Seq<char>, EntryKind)>,
    part: Seq<(Seq<char>, EntryKind)>,
    m: Seq<ScannedEntry>,
    deleted: Set<Seq<char>>,
    replaced: Set<Seq<char>>,
    included: Seq<ArchiveEntry>,
    n: int,
)
    requires
        0 <= n <= m.len(),
        fin == final_entries(m, deleted, replaced, included),
        part == remaining_upto(m, deleted, replaced, n),
        !admissible(part),
    ensures
        !admissible(fin),
{
    lemma_remaining_prefix(m, deleted, replaced, n, m.len() as int);
    let full = remaining_upto(m, deleted, replaced, m.len() as int);
    assert(fin.take(part.len() as int) == part);
    if admissible(fin) {
        lemma_admissible_prefix_plain(fin, part.len() as int);
    }
}

// ---------------------------------------------------------------------------
// Saving a direct edit
// ---------------------------------------------------------------------------

/// The first `n` planned inputs whose archive paths were asked to be added,
/// in their planned order.
pub open spec fn added_upto(planned: Seq<ArchiveEntry>, add: Set<Seq<char>>, n: int) -> Seq<ArchiveEntry>
    decreases n,
{
    if n <= 0 {
        Seq::<ArchiveEntry>::empty()
    } else if add.contains(planned[n - 1].archive_path@) {
        added_upto(planned, add, n - 1).push(planned[n - 1])
    } else {
        added_upto(planned, add, n - 1)
    }
}

/// The planned inputs whose archive paths were asked to be added.
pub open spec fn added_entries(planned: Seq<ArchiveEntry>, add: Set<Seq<char>>) -> Seq<ArchiveEntry> {
    added_upto(planned, add, planned.len() as int)
}

/// Every archive path asked to be added is the path of a planned input.
pub open spec fn adds_all_planned(planned: Seq<ArchiveEntry>, add: Set<Seq<char>>) -> bool {
    forall|p: Seq<char>| add.contains(p) ==> exists|i: int| 0 <= i < planned.len() && #[trigger] planned[i].archive_path@ == p
}

/// The normalized paths among the first `a` requested additions that are not
/// among the planned paths.
pub open spec fn unplanned_upto(add_entries: Seq<String>, planned: Set<Seq<char>>, a: int) -> Set<Seq<char>> {
    Set::new(|p: Seq<char>| (exists|b: int| 0 <= b < a && p == normalized_selection(#[trigger] add_entries[b]@)) && !planned.contains(p))
}

/// The requested additions that no planned input provides.
pub open spec fn unplanned_adds(planned: Seq<ArchiveEntry>, add: Set<Seq<char>>) -> Set<Seq<char>> {
    Set::new(|p: Seq<char>| add.contains(p) && !exists|i: int| 0 <= i < planned.len() && #[trigger] planned[i].archive_path@ == p)
}

/// The manifest paths a save deletes: none when no entry is selected.
pub open spec fn deleted_set(m: Seq<ScannedEntry>, delete_entries: Seq<String>) -> Set<Seq<char>> {
    if delete_entries.len() == 0 {
        Set::<Seq<char>>::empty()
    } else {
        picked_paths(m, requested_set(delete_entries))
    }
}

/// The selection of entries to delete is empty, or valid and picks something.
pub open spec fn deletion_ok(m: Seq<ScannedEntry>, delete_entries: Seq<String>) -> bool {
    delete_entries.len() == 0 || (entries_normalize(delete_entries) && all_requested_found(m, requested_set(delete_entries))
        && selected_upto(m, requested_set(delete_entries), m.len() as int).len() > 0)
}

/// Every included input that replaces a staying entry was confirmed.
pub open spec fn replacements_confirmed(
    m: Seq<ScannedEntry>,
    deleted: Set<Seq<char>>,
    included: Seq<ArchiveEntry>,
    confirmed: Set<Seq<char>>,
) -> bool {
    forall|k: int| 0 <= k < included.len() && is_replacement(#[trigger] included[k], m, deleted) ==> confirmed.contains(included[k].archive_path@)
}

/// Every manifest entry has a valid archive path.
pub open spec fn manifest_paths_valid(m: Seq<ScannedEntry>) -> bool {
    forall|i: int| 0 <= i < m.len() ==> valid_archive_path(#[trigger] m[i].path@)
}

/// Everything a save checks before it rewrites the archive: the selections
/// are valid, every requested addition was planned, every replacement was
/// confirmed and the resulting archive has no colliding paths.
pub open spec fn save_accepted(
    m: Seq<ScannedEntry>,
    delete_entries: Seq<String>,
    add_entries: Seq<String>,
    replace_entries: Seq<String>,
    planned: Seq<ArchiveEntry>,
) -> bool {
    let deleted = deleted_set(m, delete_entries);
    let included = added_entries(planned, requested_set(add_entries));
    &&& deletion_ok(m, delete_entries)
    &&& entries_normalize(add_entries)
    &&& entries_normalize(replace_entries)
    &&& adds_all_planned(planned, requested_set(add_entries))
    &&& replacements_confirmed(m, deleted, included, requested_set(replace_entries))
    &&& admissible(final_entries(m, deleted, replaced_set(m, deleted, included), included))
}

/// The changes a direct edit save writes: the entries it drops, the staying
/// entries it overwrites and the inputs it adds, in order.
pub struct DirectEditChanges {
    pub deleted: StringHashSet,
    pub replaced: StringHashSet,
    pub included: Vec<ArchiveEntry>,
}

/// Decides what a direct edit save changes in a scanned plain ZIP archive.
/// The first failing check gives its error: the delete selection, the add and
/// replace selections (`Usage` or `Security`), a requested addition that was
/// not planned (`Usage`), an unconfirmed replacement (`Usage`) and colliding
/// final paths (`Security`).
pub fn direct_edit_save_changes(
    manifest: &Vec<ScannedEntry>,
    delete_entries: &Vec<String>,
    add_entries: &Vec<String>,
    replace_entries: &Vec<String>,
    planned: &Vec<ArchiveEntry>,
) -> (r: Result<DirectEditChanges, ArcaError>)
    ensures
        r matches Ok(c) ==> {
            &&& c.deleted@ == deleted_set(manifest@, delete_entries@)
            &&& c.included@ == added_entries(planned@, requested_set(add_entries@))
            &&& c.replaced@ == replaced_set(manifest@, c.deleted@, c.included@)
            &&& save_accepted(manifest@, delete_entries@, add_entries@, replace_entries@, planned@)
        },
        manifest_paths_valid(manifest@) && planned_paths_valid(planned@) ==> (r is Ok <==> save_accepted(
            manifest@,
            delete_entries@,
            add_entries@,
            replace_entries@,
            planned@,
        )),
        deletion_ok(manifest@, delete_entries@) && entries_normalize(add_entries@) && entries_normalize(replace_entries@)
            && !adds_all_planned(planned@, requested_set(add_entries@)) ==> (r matches Err(e) && e is Usage && exists|
            s: Seq<Seq<char>>,
        |
            #![trigger sorted_listing(s, unplanned_adds(planned@, requested_set(add_entries@)))]
            sorted_listing(s, unplanned_adds(planned@, requested_set(add_entries@))) && error_detail(e)
                == "planned add entry not found: "@ + join_seqs(s, ", "@)),
        r matches Err(e) ==> e is Usage || e is Security,
{
    let deleted = selected_manifest_paths(manifest, delete_entries)?;
    assert(deleted@ == deleted_set(manifest@, delete_entries@));
    let add = normalize_archive_path_set(add_entries)?;
    assert(add@ =~= requested_set(add_entries@));
    let confirmed = normalize_archive_path_set(replace_entries)?;
    assert(confirmed@ =~= requested_set(replace_entries@));

    let mut included: Vec<ArchiveEntry> = Vec::new();
    let mut planned_paths = StringHashSet::new();
    let mut i: usize = 0;
    while i < planned.len()
        invariant
            i <= planned.len(),
            included@ == added_upto(planned@, add@, i as int),
            forall|p: Seq<char>| planned_paths@.contains(p) <==> exists|j: int| 0 <= j < i && #[trigger] planned@[j].archive_path@ == p,
        decreases planned.len() - i,
    {
        let entry = &planned[i];
        if add.contains(entry.archive_path.as_str()) {
            included.push(entry.clone());
        }
        planned_paths.insert(entry.archive_path.clone());
        assert forall|p: Seq<char>| planned_paths@.contains(p) <==> exists|j: int| 0 <= j < i + 1 && #[trigger] planned@[j].archive_path@ == p by {
            if exists|j: int| 0 <= j < i + 1 && #[trigger] planned@[j].archive_path@ == p {
                let j = choose|j: int| 0 <= j < i + 1 && #[trigger] planned@[j].archive_path@ == p;
                if j < i {
                    assert(exists|j2: int| 0 <= j2 < i && #[trigger] planned@[j2].archive_path@ == p);
                }
            }
        }
        i = i + 1;
    }

    let mut missing: Vec<String> = Vec::new();
    let mut reported = StringHashSet::new();
    let mut a: usize = 0;
    while a < add_entries.len()
        invariant
            a <= add_entries.len(),
            add@ == requested_set(add_entries@),
            entries_normalize(add_entries@),
            forall|p: Seq<char>| planned_paths@.contains(p) <==> exists|j: int| 0 <= j < planned@.len() && #[trigger] planned@[j].archive_path@ == p,
            reported@ == unplanned_upto(add_entries@, planned_paths@, a as int),
            forall|p: Seq<char>| #[trigger] reported@.contains(p) <==> string_views(missing@).contains(p),
            forall|i: int, j: int| 0 <= i < j < missing@.len() ==> #[trigger] missing@[i]@ != #[trigger] missing@[j]@,
        decreases add_entries.len() - a,
    {
        let normalized = normalize_selection_path(add_entries[a].as_str())?;
        let ghost before = missing@;
        let ghost seen = reported@;
        let ghost n = normalized@;
        if !planned_paths.contains(normalized.as_str()) && !reported.contains(normalized.as_str()) {
            reported.insert(normalized.clone());
            missing.push(normalized);
            proof {
                assert(string_views(missing@) =~= string_views(before).push(n));
                assert forall|i: int, j: int| 0 <= i < j < missing@.len() implies #[trigger] missing@[i]@ != #[trigger] missing@[j]@ by {
                    if j == before.len() {
                        assert(string_views(before)[i] == before[i]@);
                        assert(string_views(before).contains(before[i]@));
                    }
                }
            }
        }
        proof {
            let next = unplanned_upto(add_entries@, planned_paths@, a + 1);
            assert(n == normalized_selection(add_entries@[a as int]@));
            if planned_paths@.contains(n) {
                assert(next =~= seen);
            } else {
                assert(next.contains(n));
                assert(next =~= seen.insert(n));
            }
            assert forall|p: Seq<char>| #[trigger] reported@.contains(p) <==> string_views(missing@).contains(p) by {
                if missing@.len() > before.len() {
                    assert(string_views(missing@) =~= string_views(before).push(n));
                    if p == n {
                        assert(string_views(missing@)[before.len() as int] == n);
                    } else {
                        if string_views(missing@).contains(p) {
                            let k = choose|k: int| 0 <= k < string_views(missing@).len() && string_views(missing@)[k] == p;
                            assert(string_views(before)[k] == p);
                        }
                        if seen.contains(p) {
                            let k = choose|k: int| 0 <= k < string_views(before).len() && string_views(before)[k] == p;
                            assert(string_views(missing@)[k] == p);
                        }
                    }
                }
            }
        }
        a = a + 1;
    }
    if missing.len() > 0 {
        proof {
            assert(string_views(missing@)[0] == missing@[0]@);
            assert(reported@.contains(missing@[0]@));
            let b = choose|b: int| 0 <= b < add_entries@.len() && missing@[0]@ == normalized_selection(#[trigger] add_entries@[b]@);
            assert(add@.contains(missing@[0]@));
        }
        let sorted = sorted_strings(&missing);
        let message = concat_str("planned add entry not found: ", join_strings(&sorted, ", ").as_str());
        proof {
            let listed = string_views(sorted@);
            let unplanned = unplanned_adds(planned@, requested_set(add_entries@));
            assert forall|p: Seq<char>| listed.contains(p) <==> unplanned.contains(p) by {
                assert(reported@.contains(p) <==> string_views(missing@).contains(p));
                if unplanned.contains(p) {
                    assert(!planned_paths@.contains(p));
                    assert(unplanned_upto(add_entries@, planned_paths@, add_entries@.len() as int).contains(p));
                }
                if reported@.contains(p) {
                    assert(add@.contains(p));
                }
            }
            assert(sorted_listing(listed, unplanned));
        }
        return Err(ArcaError::Usage(message));
    }
    assert(adds_all_planned(planned@, add@)) by {
        assert forall|p: Seq<char>| add@.contains(p) implies exists|i: int| 0 <= i < planned@.len() && #[trigger] planned@[i].archive_path@ == p by {
            if !planned_paths@.contains(p) {
                assert(unplanned_upto(add_entries@, planned_paths@, add_entries@.len() as int).contains(p));
                assert(reported@.contains(p));
                let k = choose|k: int| 0 <= k < string_views(missing@).len() && string_views(missing@)[k] == p;
            }
        }
    }

    proof {
        lemma_added_valid(planned@, add@, planned@.len() as int);
    }
    validate_direct_edit_replacements(manifest, &deleted, &included, &confirmed)?;
    let replaced = direct_edit_replaced_paths(manifest, &deleted, &included)?;
    validate_direct_edit_final_paths(manifest, &deleted, &replaced, &included)?;
    Ok(DirectEditChanges { deleted, replaced, included })
}

proof fn lemma_added_valid(planned: Seq<ArchiveEntry>, add: Set<Seq<char>>, n: int)
    requires
        0 <= n <= planned.len(),
    ensures
        planned_paths_valid(planned) ==> planned_paths_valid(added_upto(planned, add, n)),
    decreases n,
{
    if n > 0 {
        lemma_added_valid(planned, add, n - 1);
        let prev = added_upto(planned, add, n - 1);
        if planned_paths_valid(planned) && add.contains(planned[n - 1].archive_path@) {
            assert forall|k: int| 0 <= k < added_upto(planned, add, n).len() implies valid_archive_path(#[trigger] added_upto(planned, add, n)[k].archive_path@) by {
                if k < prev.len() {
                    assert(added_upto(planned, add, n)[k] == prev[k]);
                }
            }
        }
    }
}

// ---------------------------------------------------------------------------
// Planning additions
// ---------------------------------------------------------------------------

/// The entry kind an entry type label names (`symlink` for any other label).
pub open spec fn label_kind(t: Seq<char>) -> EntryKind {
    if t == "directory"@ {
        EntryKind::Directory
    } else if t == "file"@ {
        EntryKind::File
    } else {
        EntryKind::Symlink
    }
}

/// Every pending addition has a valid path and a known entry type.
pub open spec fn pending_entries_ok(pending: Seq<DirectEditPendingEntry>) -> bool {
    forall|j: int| 0 <= j < pending.len() ==> valid_archive_path(#[trigger] pending[j].archive_path@)
        && known_entry_type(pending[j].entry_type@)
}

/// Every pending addition stays valid without its trailing slashes.
pub open spec fn pending_trimmed_valid(pending: Seq<DirectEditPendingEntry>) -> bool {
    forall|j: int| 0 <= j < pending.len() ==> valid_archive_path(trim_end_char(#[trigger] pending[j].archive_path@, '/'))
}

/// Some planned input conflicts with some pending addition.
pub open spec fn conflicts_with_pending_entries(planned: Seq<ArchiveEntry>, pending: Seq<DirectEditPendingEntry>) -> bool {
    exists|k: int, j: int| 0 <= k < planned.len() && 0 <= j < pending.len() && paths_conflict(
        #[trigger] planned[k].archive_path@,
        planned[k].kind,
        trim_end_char(#[trigger] pending[j].archive_path@, '/'),
        label_kind(pending[j].entry_type@),
    )
}

/// Plans adding inputs to a scanned plain ZIP archive in the editor: the
/// pending deletions are selected, the pending additions normalized, the
/// inputs checked against the pending additions (`Usage` on a conflict), and
/// each input sorted into a plain addition or a replacement of a staying entry.
pub fn plan_direct_edit_add_scanned(
    manifest: &Vec<ScannedEntry>,
    pending_delete_entries: &Vec<String>,
    pending_add_entries: &Vec<DirectEditPendingEntry>,
    planned: &Vec<ArchiveEntry>,
) -> (r: Result<DirectEditAddPlan, ArcaError>)
    ensures
        r matches Ok(plan) ==> {
            let deleted = deleted_set(manifest@, pending_delete_entries@);
            &&& deletion_ok(manifest@, pending_delete_entries@)
            &&& pending_entries_ok(pending_add_entries@)
            &&& !conflicts_with_pending_entries(planned@, pending_add_entries@)
            &&& plan.additions@.map_values(|p: DirectEditPlannedEntry| planned_view(p))
                == additions_upto(planned@, manifest@, deleted, planned@.len() as int)
            &&& plan.replacements@.map_values(|p: DirectEditPlannedEntry| planned_view(p))
                == replacements_upto(planned@, manifest@, deleted, planned@.len() as int)
        },
        manifest_paths_valid(manifest@) && planned_paths_valid(planned@) && pending_trimmed_valid(pending_add_entries@)
            ==> (r is Ok <==> deletion_ok(manifest@, pending_delete_entries@) && pending_entries_ok(pending_add_entries@)
                && !conflicts_with_pending_entries(planned@, pending_add_entries@)),
        r matches Err(e) ==> e is Usage || e is Security,
{
    let deleted = selected_manifest_paths(manifest, pending_delete_entries)?;
    let pending = normalize_direct_edit_pending_entries(pending_add_entries)?;
    proof {
        reveal_strlit("directory");
        reveal_strlit("file");
        reveal_strlit("symlink");
        assert forall|j: int| 0 <= j < pending@.len() implies (#[trigger] pending@[j]).1 == label_kind(pending_add_entries@[j].entry_type@) by {
            assert(spec_entry_kind_label(pending@[j].1)@ == pending_add_entries@[j].entry_type@);
            assert("directory"@.len() == 9 && "file"@.len() == 4 && "symlink"@.len() == 7);
        }
        assert(conflicts_with_pending(planned@, pending@) == conflicts_with_pending_entries(planned@, pending_add_entries@)) by {
            if conflicts_with_pending(planned@, pending@) {
                let (k, j) = choose|k: int, j: int| 0 <= k < planned@.len() && 0 <= j < pending@.len() && paths_conflict(
                    #[trigger] planned@[k].archive_path@,
                    planned@[k].kind,
                    #[trigger] pending@[j].0@,
                    pending@[j].1,
                );
                assert(paths_conflict(planned@[k].archive_path@, planned@[k].kind, trim_end_char(pending_add_entries@[j].archive_path@, '/'), label_kind(pending_add_entries@[j].entry_type@)));
            }
            if conflicts_with_pending_entries(planned@, pending_add_entries@) {
                let (k, j) = choose|k: int, j: int| 0 <= k < planned@.len() && 0 <= j < pending_add_entries@.len() && paths_conflict(
                    #[trigger] planned@[k].archive_path@,
                    planned@[k].kind,
                    trim_end_char(#[trigger] pending_add_entries@[j].archive_path@, '/'),
                    label_kind(pending_add_entries@[j].entry_type@),
                );
                assert(paths_conflict(planned@[k].archive_path@, planned@[k].kind, pending@[j].0@, pending@[j].1));
            }
        }
        if pending_trimmed_valid(pending_add_entries@) {
            assert forall|j: int| 0 <= j < pending@.len() implies valid_archive_path(#[trigger] pending@[j].0@) by {
                assert(valid_archive_path(trim_end_char(pending_add_entries@[j].archive_path@, '/')));
            }
        }
    }
    validate_direct_edit_pending_add_conflicts(&pending, planned)?;
    plan_direct_edit_entries(manifest, &deleted, planned)
}

/// Direct editing rewrites a ZIP archive only when none of its entries is
/// encrypted (`Unsupported` otherwise); `encrypted` tells, entry by entry,
/// whether it is.
pub fn reject_encrypted_zip(encrypted: &Vec<bool>) -> (r: Result<(), ArcaError>)
    ensures
        r is Ok <==> forall|i: int| 0 <= i < encrypted@.len() ==> !encrypted@[i],
        r matches Err(e) ==> e is Unsupported && error_detail(e)
            == "Direct Editing is disabled for encrypted ZIP archives"@,
{
    let mut i: usize = 0;
    while i < encrypted.len()
        invariant
            i <= encrypted@.len(),
            forall|j: int| 0 <= j < i ==> !encrypted@[j],
        decreases encrypted.len() - i,
    {
        if encrypted[i] {
            return Err(ArcaError::Unsupported("Direct Editing is disabled for encrypted ZIP archives".to_owned()));
        }
        i = i + 1;
    }
    Ok(())
}

// ---------------------------------------------------------------------------
// Saving
// ---------------------------------------------------------------------------

/// A save goes ahead only on the archive the editor inspected: its digest,
/// in hexadecimal, must be the one the editor holds. Gives that hexadecimal
/// digest; anything else is an `Integrity` error.
pub fn check_expected_digest(expected: &str, digest: [u8; 32], archive: &str) -> (r: Result<String, ArcaError>)
    ensures
        r is Ok <==> expected@ == hex_text(digest@),
        r matches Ok(hex) ==> hex@ == hex_text(digest@),
        r matches Err(e) ==> e is Integrity && error_detail(e) == changed_archive_text(ArchiveStage::Saving, archive@),
{
    let hex = hex_digest(digest);
    if str_eq(expected, hex.as_str()) {
        Ok(hex)
    } else {
        Err(ArcaError::Integrity(concat_str("archive changed before saving: ", archive)))
    }
}

/// Whether an entry of the archive being saved is copied into the new one:
/// its name without trailing `/` must be a valid archive path, and entries
/// that are deleted or replaced are left out.
pub fn rewrite_keeps(raw_name: &str, deleted: &StringHashSet, replaced: &StringHashSet) -> (r: Result<bool, ArcaError>)
    ensures
        ({
            let name = trim_end_char(raw_name@, '/');
            &&& name.len() == 0 ==> (r matches Err(e) && e is Security && error_detail(e)
                == "cannot rewrite ZIP archive with an empty entry name"@)
            &&& name.len() > 0 ==> (r is Ok <==> valid_archive_path(name))
            &&& name.len() > 0 && !valid_archive_path(name) ==> (r matches Err(e) && e is Security && error_detail(e)
                == archive_path_refusal(name))
            &&& r matches Ok(keep) ==> (keep <==> !deleted@.contains(name) && !replaced@.contains(name))
        }),
{
    let chars = chars_of(raw_name);
    let trimmed = trim_end_vec(&chars, '/');
    if trimmed.len() == 0 {
        return Err(ArcaError::Security("cannot rewrite ZIP archive with an empty entry name".to_owned()));
    }
    let name = string_of(&trimmed);
    validate_archive_path(name.as_str())?;
    Ok(!deleted.contains(name.as_str()) && !replaced.contains(name.as_str()))
}

} // verus!
