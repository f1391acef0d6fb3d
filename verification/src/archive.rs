use vstd::prelude::*;
use vstd::hash_set::StringHashSet;

use crate::error::{error_detail, ArcaError};
use crate::policy::{archive_path_refusal, collision_key, spec_collision_key, valid_archive_path, CollisionSet};
use crate::text::{
    chars_of, concat_str, join_seqs, join_strings, lemma_text_lt_irreflexive, sorted_strings, string_of, string_views,
    strictly_sorted, trim_end_char, trim_end_vec,
};
use crate::time::UnixTime;

verus! {

broadcast use vstd::string::group_string_axioms;

#[derive(Debug, Clone, Copy, PartialEq, Eq, Structural)]
pub enum EntryKind {
    File,
    Directory,
    Symlink,
}

pub open spec fn spec_entry_kind_label(kind: EntryKind) -> &'static str {
    match kind {
        EntryKind::Directory => "directory",
        EntryKind::File => "file",
        EntryKind::Symlink => "symlink",
    }
}

/// The label an entry kind is listed with.
pub fn entry_kind_label(kind: EntryKind) -> (r: &'static str)
    ensures
        r == spec_entry_kind_label(kind),
{
    match kind {
        EntryKind::Directory => "directory",
        EntryKind::File => "file",
        EntryKind::Symlink => "symlink",
    }
}

/// The entry kind named by a label, or `Usage` for any other text.
pub fn direct_edit_pending_entry_kind(entry_type: &str) -> (r: Result<EntryKind, ArcaError>)
    ensures
        r is Ok <==> (entry_type@ == "directory"@ || entry_type@ == "file"@ || entry_type@
            == "symlink"@),
        r matches Ok(k) ==> spec_entry_kind_label(k)@ == entry_type@,
        r matches Err(e) ==> e is Usage && error_detail(e) == "unsupported pending direct edit entry type: "@
            + entry_type@,
{
    let t = chars_of(entry_type);
    let labels = [EntryKind::Directory, EntryKind::File, EntryKind::Symlink];
    let mut i: usize = 0;
    while i < 3
        invariant
            t@ == entry_type@,
            labels@ == seq![EntryKind::Directory, EntryKind::File, EntryKind::Symlink],
            i <= 3,
            forall|k: int| 0 <= k < i ==> spec_entry_kind_label(#[trigger] labels@[k])@ != entry_type@,
        decreases 3 - i,
    {
        let kind = labels[i];
        let label = chars_of(entry_kind_label(kind));
        if exact_eq(&t, &label) {
            return Ok(kind);
        }
        i = i + 1;
    }
    assert(spec_entry_kind_label(labels@[0]) == "directory");
    assert(spec_entry_kind_label(labels@[1]) == "file");
    assert(spec_entry_kind_label(labels@[2]) == "symlink");
    Err(ArcaError::Usage(concat_str("unsupported pending direct edit entry type: ", entry_type)))
}

fn exact_eq(a: &Vec<char>, b: &Vec<char>) -> (r: bool)
    ensures
        r == (a@ == b@),
{
    if a.len() != b.len() {
        return false;
    }
    let mut i: usize = 0;
    while i < a.len()
        invariant
            a.len() == b.len(),
            i <= a.len(),
            forall|j: int| 0 <= j < i ==> a@[j] == b@[j],
        decreases a.len() - i,
    {
        if a[i] != b[i] {
            assert(a@[i as int] != b@[i as int]);
            return false;
        }
        i = i + 1;
    }
    assert(a@ =~= b@);
    true
}

/// `path` lies strictly below `parent`: it starts with `parent` followed by a slash.
pub open spec fn is_child_path(path: Seq<char>, parent: Seq<char>) -> bool {
    path.len() > parent.len() && path.take(parent.len() as int) == parent && path[parent.len() as int]
        == '/'
}

pub fn child_of_vec(path: &Vec<char>, parent: &Vec<char>) -> (r: bool)
    ensures
        r == is_child_path(path@, parent@),
{
    if path.len() <= parent.len() {
        return false;
    }
    let mut i: usize = 0;
    while i < parent.len()
        invariant
            path.len() > parent.len(),
            i <= parent.len(),
            forall|j: int| 0 <= j < i ==> path@[j] == parent@[j],
        decreases parent.len() - i,
    {
        if path[i] != parent[i] {
            assert(path@.take(parent.len() as int)[i as int] != parent@[i as int]);
            return false;
        }
        i = i + 1;
    }
    assert(path@.take(parent.len() as int) =~= parent@);
    path[parent.len()] == '/'
}

/// Whether `path` lies strictly below `parent` in the archive tree.
pub fn path_is_child_of(path: &str, parent: &str) -> (r: bool)
    ensures
        r == is_child_path(path@, parent@),
{
    let p = chars_of(path);
    let q = chars_of(parent);
    child_of_vec(&p, &q)
}

// ---------------------------------------------------------------------------
// The directory structure of an archive
// ---------------------------------------------------------------------------

/// No recorded entry lies below a recorded entry that is not a directory.
pub open spec fn hierarchy_consistent(entries: Seq<(Seq<char>, EntryKind)>) -> bool {
    forall|i: int, j: int|
        0 <= i < entries.len() && 0 <= j < entries.len() && is_child_path(
            #[trigger] entries[i].0,
            #[trigger] entries[j].0,
        ) ==> entries[j].1 == EntryKind::Directory
}

/// `key` with kind `kind` can join `entries` without a non-directory parent.
pub open spec fn fits_hierarchy(entries: Seq<(Seq<char>, EntryKind)>, key: Seq<char>, kind: EntryKind) -> bool {
    forall|i: int|
        0 <= i < entries.len() ==> !(is_child_path(key, #[trigger] entries[i].0) && entries[i].1
            != EntryKind::Directory) && !(is_child_path(entries[i].0, key) && kind
            != EntryKind::Directory)
}

/// The collision keys and kinds of the entries of an archive, checked so that
/// only directories have entries below them.
pub struct ArchiveHierarchy {
    entries: Vec<(String, EntryKind)>,
}

impl View for ArchiveHierarchy {
    type V = Seq<(Seq<char>, EntryKind)>;

    closed spec fn view(&self) -> Seq<(Seq<char>, EntryKind)> {
        self.entries@.map_values(|e: (String, EntryKind)| (e.0@, e.1))
    }
}

impl ArchiveHierarchy {
    pub closed spec fn wf(&self) -> bool {
        hierarchy_consistent(self@)
    }

    /// An empty hierarchy.
    pub fn new() -> (r: ArchiveHierarchy)
        ensures
            r@ == Seq::<(Seq<char>, EntryKind)>::empty(),
            r.wf(),
    {
        ArchiveHierarchy { entries: Vec::new() }
    }

    /// Records an entry. Fails (`Security`) when the path is not a valid archive
    /// path, when a recorded non-directory entry is its parent, or when it is not
    /// a directory but a recorded entry lies below it; nothing changes then.
    pub fn insert(&mut self, path: &str, kind: EntryKind) -> (r: Result<(), ArcaError>)
        requires
            old(self).wf(),
        ensures
            final(self).wf(),
            r is Ok <==> valid_archive_path(path@) && fits_hierarchy(
                old(self)@,
                spec_collision_key(path@),
                kind,
            ),
            r is Ok ==> final(self)@ == old(self)@.push((spec_collision_key(path@), kind)),
            r is Err ==> final(self)@ == old(self)@,
            r matches Err(e) ==> e is Security,
            valid_archive_path(path@) ==> (r matches Err(e) ==> error_detail(e)
                == "archive path has non-directory parent: "@ + path@ || error_detail(e)
                == "archive path is parent of existing entry but is not a directory: "@ + path@),
            !valid_archive_path(path@) ==> (r matches Err(e) && error_detail(e) == archive_path_refusal(path@)),
    {
        let key = collision_key(path)?;
        let key_chars = chars_of(key.as_str());
        let mut i: usize = 0;
        while i < self.entries.len()
            invariant
                self@ == old(self)@,
                hierarchy_consistent(old(self)@),
                key_chars@ == key@,
                key@ == spec_collision_key(path@),
                valid_archive_path(path@),
                i <= self.entries.len(),
                forall|j: int|
                    0 <= j < i ==> !(is_child_path(key@, #[trigger] self@[j].0) && self@[j].1
                        != EntryKind::Directory) && !(is_child_path(self@[j].0, key@) && kind
                        != EntryKind::Directory),
            decreases self.entries.len() - i,
        {
            let existing = chars_of(self.entries[i].0.as_str());
            let existing_kind = self.entries[i].1;
            assert(self@[i as int] == (self.entries@[i as int].0@, existing_kind));
            assert(existing@ == self@[i as int].0);
            if child_of_vec(&key_chars, &existing) && existing_kind != EntryKind::Directory {
                assert(!fits_hierarchy(old(self)@, key@, kind)) by {
                    assert(is_child_path(key@, old(self)@[i as int].0));
                }
                return Err(ArcaError::Security(concat_str("archive path has non-directory parent: ", path)));
            }
            if child_of_vec(&existing, &key_chars) && kind != EntryKind::Directory {
                assert(!fits_hierarchy(old(self)@, key@, kind)) by {
                    assert(is_child_path(old(self)@[i as int].0, key@));
                }
                return Err(
                    ArcaError::Security(
                        concat_str("archive path is parent of existing entry but is not a directory: ", path),
                    ),
                );
            }
            i = i + 1;
        }
        let ghost before = self@;
        self.entries.push((key, kind));
        assert(self@ =~= before.push((spec_collision_key(path@), kind)));
        assert(hierarchy_consistent(self@)) by {
            let n = before.len();
            assert forall|a: int, b: int|
                0 <= a < self@.len() && 0 <= b < self@.len() && is_child_path(
                    #[trigger] self@[a].0,
                    #[trigger] self@[b].0,
                ) implies self@[b].1 == EntryKind::Directory by {
                if a < n && b < n {
                    assert(before[a] == self@[a] && before[b] == self@[b]);
                }
            }
        }
        Ok(())
    }
}

// ---------------------------------------------------------------------------
// Scanned archive entries and selections
// ---------------------------------------------------------------------------

/// One archive entry as the scan of an archive accepted it.
#[derive(Debug, Clone, PartialEq, Eq)]
pub struct ScannedEntry {
    pub path: String,
    pub kind: EntryKind,
    pub link_target: Option<String>,
    pub size: u64,
    pub mode: Option<u32>,
    pub modified: Option<UnixTime>,
}

/// A selection path without its trailing slashes.
pub open spec fn normalized_selection(path: Seq<char>) -> Seq<char> {
    trim_end_char(path, '/')
}

/// A selected entry path without its trailing slashes; `Usage` when nothing is
/// left, `Security` when the path breaks the archive path policy.
pub fn normalize_selection_path(path: &str) -> (r: Result<String, ArcaError>)
    ensures
        r is Ok <==> normalized_selection(path@).len() > 0 && valid_archive_path(path@),
        r matches Ok(p) ==> p@ == normalized_selection(path@),
        r matches Err(e) ==> (normalized_selection(path@).len() == 0 ==> e is Usage && error_detail(e)
            == "selected archive entry path must not be empty"@) && (normalized_selection(path@).len() > 0
            ==> e is Security && error_detail(e) == archive_path_refusal(path@)),
{
    let chars = chars_of(path);
    let trimmed = trim_end_vec(&chars, '/');
    if trimmed.len() == 0 {
        return Err(ArcaError::Usage("selected archive entry path must not be empty".to_owned()));
    }
    crate::policy::validate_archive_path(path)?;
    Ok(string_of(&trimmed))
}


/// A requested path names a directory entry of the manifest.
pub open spec fn is_selected_directory(m: Seq<ScannedEntry>, req: Set<Seq<char>>, p: Seq<char>) -> bool {
    exists|j: int| 0 <= j < m.len() && #[trigger] m[j].path@ == p && m[j].kind == EntryKind::Directory
        && req.contains(p)
}

/// Entry `i` is selected: it is requested, or it lies below a requested directory.
pub open spec fn is_selected(m: Seq<ScannedEntry>, req: Set<Seq<char>>, i: int) -> bool {
    req.contains(m[i].path@) || exists|j: int| 0 <= j < m.len() && m[j].kind == EntryKind::Directory
        && req.contains(#[trigger] m[j].path@) && is_child_path(m[i].path@, m[j].path@)
}

/// The indices of the selected entries among the first `n`, in manifest order.
pub open spec fn selected_upto(m: Seq<ScannedEntry>, req: Set<Seq<char>>, n: int) -> Seq<usize>
    decreases n,
{
    if n <= 0 {
        Seq::<usize>::empty()
    } else if is_selected(m, req, n - 1) {
        selected_upto(m, req, n - 1).push((n - 1) as usize)
    } else {
        selected_upto(m, req, n - 1)
    }
}

/// The requested paths, in their order, that name no entry of the manifest.
pub open spec fn missing_paths(req: Seq<Seq<char>>, m: Seq<ScannedEntry>) -> Seq<Seq<char>>
    decreases req.len(),
{
    if req.len() == 0 {
        Seq::<Seq<char>>::empty()
    } else if exists|i: int| 0 <= i < m.len() && #[trigger] m[i].path@ == req.last() {
        missing_paths(req.drop_last(), m)
    } else {
        missing_paths(req.drop_last(), m).push(req.last())
    }
}

/// No requested path is missing exactly when each names an entry.
pub proof fn lemma_missing_paths(req: Seq<Seq<char>>, m: Seq<ScannedEntry>)
    ensures
        missing_paths(req, m).len() == 0 <==> forall|k: int| #![trigger req[k]] 0 <= k < req.len() ==> exists|i: int| 0 <= i < m.len()
            && #[trigger] m[i].path@ == req[k],
    decreases req.len(),
{
    if req.len() > 0 {
        let prev = req.drop_last();
        lemma_missing_paths(prev, m);
        if missing_paths(req, m).len() == 0 {
            assert forall|k: int| #![trigger req[k]] 0 <= k < req.len() implies exists|i: int| 0 <= i < m.len() && #[trigger] m[i].path@
                == req[k] by {
                if k < req.len() - 1 {
                    assert(prev[k] == req[k]);
                }
            }
        } else if forall|k: int| #![trigger req[k]] 0 <= k < req.len() ==> exists|i: int| 0 <= i < m.len() && #[trigger] m[i].path@
            == req[k] {
            assert forall|k: int| #![trigger prev[k]] 0 <= k < prev.len() implies exists|i: int| 0 <= i < m.len() && #[trigger] m[i].path@
                == prev[k] by {
                assert(prev[k] == req[k]);
            }
            assert(exists|i: int| 0 <= i < m.len() && #[trigger] m[i].path@ == req[req.len() - 1]);
        }
    }
}

/// Every requested path names an entry of the manifest.
pub open spec fn all_requested_found(m: Seq<ScannedEntry>, req: Set<Seq<char>>) -> bool {
    forall|r: Seq<char>| req.contains(r) ==> exists|i: int| 0 <= i < m.len() && #[trigger] m[i].path@ == r
}

/// The entries a user picked from an archive listing, by normalized path.
pub struct ArchiveSelection {
    requested: Vec<String>,
    lookup: StringHashSet,
}

impl View for ArchiveSelection {
    type V = Set<Seq<char>>;

    closed spec fn view(&self) -> Set<Seq<char>> {
        self.lookup@
    }
}

impl ArchiveSelection {
    pub closed spec fn wf(&self) -> bool {
        &&& strictly_sorted(string_views(self.requested@))
        &&& forall|r: Seq<char>| self.lookup@.contains(r) <==> exists|k: int| 0 <= k < self.requested@.len() && #[trigger] self.requested@[k]@ == r
        &&& forall|a: int, b: int| 0 <= a < b < self.requested@.len() ==> #[trigger] self.requested@[a]@ != #[trigger] self.requested@[b]@
    }

    /// The selection of the given entry paths, each normalized. `Usage` when
    /// nothing is selected or a path is empty after normalization, `Security`
    /// when a path breaks the archive path policy.
    pub fn new(entries: &Vec<String>) -> (r: Result<ArchiveSelection, ArcaError>)
        ensures
            r is Ok <==> entries@.len() > 0 && forall|i: int| 0 <= i < entries@.len() ==> normalized_selection(#[trigger] entries@[i]@).len() > 0 && valid_archive_path(entries@[i]@),
            r matches Ok(s) ==> s.wf() && forall|p: Seq<char>| s@.contains(p) <==> exists|i: int| 0 <= i < entries@.len() && p == normalized_selection(#[trigger] entries@[i]@),
            r matches Ok(s) ==> strictly_sorted(s.requested_view()) && forall|p: Seq<char>| #[trigger] s@.contains(p)
                <==> s.requested_view().contains(p),
            r matches Err(e) ==> e is Usage || e is Security,
            entries@.len() == 0 ==> (r matches Err(e) && e is Usage && error_detail(e)
                == "at least one archive entry must be selected"@),
    {
        if entries.len() == 0 {
            return Err(ArcaError::Usage("at least one archive entry must be selected".to_owned()));
        }
        let mut requested: Vec<String> = Vec::new();
        let mut lookup = StringHashSet::new();
        let mut i: usize = 0;
        while i < entries.len()
            invariant
                i <= entries.len(),
                forall|k: int| 0 <= k < i ==> normalized_selection(#[trigger] entries@[k]@).len() > 0 && valid_archive_path(entries@[k]@),
                forall|p: Seq<char>| lookup@.contains(p) <==> exists|k: int| 0 <= k < requested@.len() && #[trigger] requested@[k]@ == p,
                forall|a: int, b: int| 0 <= a < b < requested@.len() ==> #[trigger] requested@[a]@ != #[trigger] requested@[b]@,
                forall|p: Seq<char>| lookup@.contains(p) <==> exists|k: int| 0 <= k < i && p == normalized_selection(#[trigger] entries@[k]@),
            decreases entries.len() - i,
        {
            let normalized = normalize_selection_path(entries[i].as_str())?;
            if !lookup.contains(normalized.as_str()) {
                lookup.insert(normalized.clone());
                let ghost before = requested@;
                requested.push(normalized);
                assert forall|p: Seq<char>| lookup@.contains(p) implies exists|k: int| 0 <= k < requested@.len() && #[trigger] requested@[k]@ == p by {
                    if p != requested@.last()@ {
                        let k = choose|k: int| 0 <= k < before.len() && #[trigger] before[k]@ == p;
                        assert(requested@[k] == before[k]);
                    } else {
                        assert(requested@[requested@.len() - 1]@ == p);
                    }
                }
                assert forall|p: Seq<char>| (exists|k: int| 0 <= k < requested@.len() && #[trigger] requested@[k]@ == p) implies lookup@.contains(p) by {
                    let k = choose|k: int| 0 <= k < requested@.len() && #[trigger] requested@[k]@ == p;
                    if k < before.len() {
                        assert(before[k] == requested@[k]);
                    }
                }
                assert forall|a: int, b: int| 0 <= a < b < requested@.len() implies #[trigger] requested@[a]@ != #[trigger] requested@[b]@ by {
                    assert(requested@[a] == before[a] || a == before.len());
                    if b == before.len() {
                        assert(requested@[a] == before[a]);
                    } else {
                        assert(requested@[b] == before[b]);
                        assert(requested@[a] == before[a]);
                    }
                }
            }
            assert forall|p: Seq<char>| lookup@.contains(p) <==> exists|k: int| 0 <= k < i + 1 && p == normalized_selection(#[trigger] entries@[k]@) by {
                if lookup@.contains(p) && p != normalized@ {
                    let k = choose|k: int| 0 <= k < i && p == normalized_selection(#[trigger] entries@[k]@);
                }
                if exists|k: int| 0 <= k < i + 1 && p == normalized_selection(#[trigger] entries@[k]@) {
                    let k = choose|k: int| 0 <= k < i + 1 && p == normalized_selection(#[trigger] entries@[k]@);
                    if k < i {
                        assert(exists|k2: int| 0 <= k2 < i && p == normalized_selection(#[trigger] entries@[k2]@));
                    }
                }
            }
            i = i + 1;
        }
        let sorted = sorted_strings(&requested);
        proof {
            assert forall|a: int, b: int| 0 <= a < b < sorted@.len() implies #[trigger] sorted@[a]@
                != #[trigger] sorted@[b]@ by {
                assert(string_views(sorted@)[a] == sorted@[a]@ && string_views(sorted@)[b] == sorted@[b]@);
                if sorted@[a]@ == sorted@[b]@ {
                    lemma_text_lt_irreflexive(sorted@[a]@);
                }
            }
            assert forall|p: Seq<char>| lookup@.contains(p) <==> exists|k: int| 0 <= k < sorted@.len() && #[trigger] sorted@[k]@ == p by {
                if lookup@.contains(p) {
                    let k = choose|k: int| 0 <= k < requested@.len() && #[trigger] requested@[k]@ == p;
                    assert(string_views(requested@)[k] == p);
                    assert(string_views(requested@).contains(p));
                    assert(string_views(sorted@).contains(p));
                    let k2 = choose|k2: int| 0 <= k2 < sorted@.len() && string_views(sorted@)[k2] == p;
                    assert(sorted@[k2]@ == p);
                }
                if exists|k: int| 0 <= k < sorted@.len() && #[trigger] sorted@[k]@ == p {
                    let k = choose|k: int| 0 <= k < sorted@.len() && #[trigger] sorted@[k]@ == p;
                    assert(string_views(sorted@)[k] == p);
                    assert(string_views(sorted@).contains(p));
                    assert(string_views(requested@).contains(p));
                    let k2 = choose|k2: int| 0 <= k2 < requested@.len() && string_views(requested@)[k2] == p;
                    assert(requested@[k2]@ == p);
                }
            }
            assert forall|p: Seq<char>| #[trigger] lookup@.contains(p) <==> string_views(sorted@).contains(p) by {
                if string_views(sorted@).contains(p) {
                    let k = choose|k: int| 0 <= k < sorted@.len() && string_views(sorted@)[k] == p;
                    assert(sorted@[k]@ == p);
                }
                if lookup@.contains(p) {
                    let k = choose|k: int| 0 <= k < sorted@.len() && #[trigger] sorted@[k]@ == p;
                    assert(string_views(sorted@)[k] == p);
                }
            }
        }
        Ok(ArchiveSelection { requested: sorted, lookup })
    }

    /// The selected paths in ascending order of `String`, each once.
    pub closed spec fn requested_view(&self) -> Seq<Seq<char>> {
        string_views(self.requested@)
    }

    /// The indices of the manifest entries that the selection picks, in manifest
    /// order: each requested entry, and everything below a requested directory.
    /// `Usage` when a requested path names no entry or nothing is picked.
    pub fn select_manifest(&self, manifest: &Vec<ScannedEntry>) -> (r: Result<Vec<usize>, ArcaError>)
        requires
            self.wf(),
        ensures
            r is Ok <==> all_requested_found(manifest@, self@) && selected_upto(manifest@, self@, manifest@.len() as int).len() > 0,
            r matches Ok(idx) ==> idx@ == selected_upto(manifest@, self@, manifest@.len() as int),
            r matches Err(e) ==> e is Usage,
            r matches Err(e) ==> (all_requested_found(manifest@, self@) ==> error_detail(e)
                == "selected archive entries did not match extractable content"@) && (!all_requested_found(manifest@, self@)
                ==> error_detail(e) == "selected archive entry not found: "@ + join_seqs(
                missing_paths(self.requested_view(), manifest@),
                ", "@,
            )),
    {
        let mut found = StringHashSet::new();
        let mut dirs: Vec<Vec<char>> = Vec::new();
        let mut i: usize = 0;
        while i < manifest.len()
            invariant
                i <= manifest.len(),
                forall|p: Seq<char>| found@.contains(p) <==> self@.contains(p) && exists|j: int| 0 <= j < i && #[trigger] manifest@[j].path@ == p,
                forall|k: int| 0 <= k < dirs@.len() ==> is_selected_directory(manifest@, self@, #[trigger] dirs@[k]@),
                forall|j: int| 0 <= j < i && manifest@[j].kind == EntryKind::Directory && self@.contains(#[trigger] manifest@[j].path@) ==> exists|k: int| 0 <= k < dirs@.len() && #[trigger] dirs@[k]@ == manifest@[j].path@,
            decreases manifest.len() - i,
        {
            let entry = &manifest[i];
            if self.lookup.contains(entry.path.as_str()) {
                found.insert(entry.path.clone());
                if entry.kind == EntryKind::Directory {
                    let ghost before = dirs@;
                    dirs.push(chars_of(entry.path.as_str()));
                    assert forall|k: int| 0 <= k < dirs@.len() implies is_selected_directory(manifest@, self@, #[trigger] dirs@[k]@) by {
                        if k < before.len() {
                            assert(dirs@[k] == before[k]);
                        } else {
                            assert(manifest@[i as int].path@ == dirs@[k]@);
                        }
                    }
                    assert forall|j: int| 0 <= j < i + 1 && manifest@[j].kind == EntryKind::Directory && self@.contains(#[trigger] manifest@[j].path@) implies exists|k: int| 0 <= k < dirs@.len() && #[trigger] dirs@[k]@ == manifest@[j].path@ by {
                        if j < i {
                            let k = choose|k: int| 0 <= k < before.len() && #[trigger] before[k]@ == manifest@[j].path@;
                            assert(dirs@[k] == before[k]);
                        } else {
                            assert(dirs@[before.len() as int]@ == manifest@[j].path@);
                        }
                    }
                }
            }
            i = i + 1;
        }
        let mut missing: Vec<String> = Vec::new();
        let ghost req = self.requested_view();
        let mut k: usize = 0;
        while k < self.requested.len()
            invariant
                self.wf(),
                req == self.requested_view(),
                k <= self.requested.len(),
                forall|p: Seq<char>| found@.contains(p) <==> self@.contains(p) && exists|j: int| 0 <= j < manifest@.len() && #[trigger] manifest@[j].path@ == p,
                string_views(missing@) == missing_paths(req.take(k as int), manifest@),
            decreases self.requested.len() - k,
        {
            assert(req.take(k + 1).drop_last() =~= req.take(k as int));
            assert(req.take(k + 1).last() == self.requested@[k as int]@);
            assert(self@.contains(self.requested@[k as int]@));
            if !found.contains(self.requested[k].as_str()) {
                let ghost before = missing@;
                missing.push(self.requested[k].clone());
                assert(string_views(missing@) =~= string_views(before).push(self.requested@[k as int]@));
            }
            k = k + 1;
        }
        assert(req.take(req.len() as int) =~= req);
        if missing.len() > 0 {
            proof {
                lemma_missing_paths(req, manifest@);
                let k = choose|k: int| #![trigger req[k]] 0 <= k < req.len() && !(exists|i: int| 0 <= i < manifest@.len() && #[trigger] manifest@[i].path@ == req[k]);
                assert(self@.contains(self.requested@[k]@));
                assert(self.requested@[k]@ == req[k]);
            }
            let listed = join_strings(&missing, ", ");
            return Err(ArcaError::Usage(concat_str("selected archive entry not found: ", listed.as_str())));
        }
        assert(all_requested_found(manifest@, self@)) by {
            lemma_missing_paths(req, manifest@);
            assert forall|r: Seq<char>| self@.contains(r) implies exists|i: int| 0 <= i < manifest@.len() && #[trigger] manifest@[i].path@ == r by {
                let m = choose|m: int| 0 <= m < self.requested@.len() && #[trigger] self.requested@[m]@ == r;
                assert(req[m] == r);
            }
        }
        let mut selected: Vec<usize> = Vec::new();
        let mut i: usize = 0;
        while i < manifest.len()
            invariant
                i <= manifest.len(),
                forall|k: int| 0 <= k < dirs@.len() ==> is_selected_directory(manifest@, self@, #[trigger] dirs@[k]@),
                forall|j: int| 0 <= j < manifest@.len() && manifest@[j].kind == EntryKind::Directory && self@.contains(#[trigger] manifest@[j].path@) ==> exists|k: int| 0 <= k < dirs@.len() && #[trigger] dirs@[k]@ == manifest@[j].path@,
                selected@ == selected_upto(manifest@, self@, i as int),
            decreases manifest.len() - i,
        {
            let path = chars_of(manifest[i].path.as_str());
            let mut pick = self.lookup.contains(manifest[i].path.as_str());
            let mut d: usize = 0;
            while d < dirs.len() && !pick
                invariant
                    d <= dirs.len(),
                    path@ == manifest@[i as int].path@,
                    pick ==> is_selected(manifest@, self@, i as int),
                    !pick ==> !self@.contains(manifest@[i as int].path@),
                    !pick ==> forall|m: int| 0 <= m < d ==> !is_child_path(path@, #[trigger] dirs@[m]@),
                    forall|k: int| 0 <= k < dirs@.len() ==> is_selected_directory(manifest@, self@, #[trigger] dirs@[k]@),
                decreases dirs.len() - d,
            {
                if child_of_vec(&path, &dirs[d]) {
                    proof {
                        assert(is_selected_directory(manifest@, self@, dirs@[d as int]@));
                        let j = choose|j: int| 0 <= j < manifest@.len() && #[trigger] manifest@[j].path@ == dirs@[d as int]@ && manifest@[j].kind == EntryKind::Directory && self@.contains(dirs@[d as int]@);
                        assert(is_child_path(manifest@[i as int].path@, manifest@[j].path@));
                    }
                    pick = true;
                }
                d = d + 1;
            }
            assert(pick == is_selected(manifest@, self@, i as int)) by {
                if !pick && is_selected(manifest@, self@, i as int) {
                    let j = choose|j: int| 0 <= j < manifest@.len() && manifest@[j].kind == EntryKind::Directory && self@.contains(#[trigger] manifest@[j].path@) && is_child_path(manifest@[i as int].path@, manifest@[j].path@);
                    let k = choose|k: int| 0 <= k < dirs@.len() && #[trigger] dirs@[k]@ == manifest@[j].path@;
                    assert(!is_child_path(path@, dirs@[k]@));
                }
            }
            if pick {
                selected.push(i);
            }
            i = i + 1;
        }
        if selected.len() == 0 {
            return Err(ArcaError::Usage("selected archive entries did not match extractable content".to_owned()));
        }
        Ok(selected)
    }

    /// Checks that a single-stream archive's selection is exactly its one
    /// virtual entry; `Usage` otherwise.
    pub fn require_single_stream_match(&self, virtual_path: &str) -> (r: Result<(), ArcaError>)
        requires
            self.wf(),
        ensures
            r is Ok <==> self@ == Set::<Seq<char>>::empty().insert(virtual_path@),
            r matches Err(e) ==> e is Usage && error_detail(e) == "selected archive entry not found: "@ + join_seqs(
                self.requested_view(),
                ", "@,
            ),
    {
        if self.requested.len() == 1 && self.lookup.contains(virtual_path) {
            assert(self@ =~= Set::<Seq<char>>::empty().insert(virtual_path@)) by {
                assert forall|p: Seq<char>| self@.contains(p) implies p == virtual_path@ by {
                    let k = choose|k: int| 0 <= k < self.requested@.len() && #[trigger] self.requested@[k]@ == p;
                    let k2 = choose|k: int| 0 <= k < self.requested@.len() && #[trigger] self.requested@[k]@ == virtual_path@;
                }
            }
            return Ok(());
        }
        proof {
            if self@ == Set::<Seq<char>>::empty().insert(virtual_path@) {
                assert(self@.contains(virtual_path@));
                if self.requested@.len() != 1 {
                    if self.requested@.len() == 0 {
                        let k = choose|k: int| 0 <= k < self.requested@.len() && #[trigger] self.requested@[k]@ == virtual_path@;
                    } else {
                        assert(self@.contains(self.requested@[0]@));
                        assert(self@.contains(self.requested@[1]@));
                        assert(self.requested@[0]@ != self.requested@[1]@);
                    }
                } else {
                    let k = choose|k: int| 0 <= k < self.requested@.len() && #[trigger] self.requested@[k]@ == virtual_path@;
                }
            }
        }
        let listed = join_strings(&self.requested, ", ");
        Err(ArcaError::Usage(concat_str("selected archive entry not found: ", listed.as_str())))
    }
}


// ---------------------------------------------------------------------------
// Admitting a sequence of archive paths
// ---------------------------------------------------------------------------

/// The collision keys and kinds of a sequence of archive paths.
pub open spec fn keyed(s: Seq<(Seq<char>, EntryKind)>) -> Seq<(Seq<char>, EntryKind)> {
    s.map_values(|e: (Seq<char>, EntryKind)| (spec_collision_key(e.0), e.1))
}

pub open spec fn key_set(s: Seq<(Seq<char>, EntryKind)>) -> Set<Seq<char>> {
    Set::new(|k: Seq<char>| exists|i: int| 0 <= i < s.len() && #[trigger] s[i].0 == k)
}

/// A sequence of archive paths can be accepted one after another: each is a
/// valid archive path, its collision key is new, and it fits the directory
/// structure of the paths before it.
pub open spec fn admissible(s: Seq<(Seq<char>, EntryKind)>) -> bool
    decreases s.len(),
{
    if s.len() == 0 {
        true
    } else {
        let prev = s.drop_last();
        let last = s.last();
        &&& admissible(prev)
        &&& valid_archive_path(last.0)
        &&& !key_set(keyed(prev)).contains(spec_collision_key(last.0))
        &&& fits_hierarchy(keyed(prev), spec_collision_key(last.0), last.1)
    }
}

/// Guards the paths of one archive: no two share a collision key and only
/// directories have entries below them.
pub struct PathGuard {
    collisions: CollisionSet,
    hierarchy: ArchiveHierarchy,
}

impl View for PathGuard {
    type V = Seq<(Seq<char>, EntryKind)>;

    closed spec fn view(&self) -> Seq<(Seq<char>, EntryKind)> {
        self.hierarchy@
    }
}

impl PathGuard {
    pub closed spec fn wf(&self) -> bool {
        &&& self.hierarchy.wf()
        &&& self.collisions@ == key_set(self.hierarchy@)
    }

    /// A guard that has accepted nothing.
    pub fn new() -> (r: PathGuard)
        ensures
            r.wf(),
            r@ == Seq::<(Seq<char>, EntryKind)>::empty(),
    {
        let r = PathGuard { collisions: CollisionSet::new(), hierarchy: ArchiveHierarchy::new() };
        assert(key_set(r.hierarchy@) =~= Set::<Seq<char>>::empty());
        r
    }

    /// Accepts one more path (`Security` when it is invalid, collides with an
    /// accepted path, or breaks the directory structure; nothing changes then).
    pub fn accept(&mut self, path: &str, kind: EntryKind) -> (r: Result<(), ArcaError>)
        requires
            old(self).wf(),
        ensures
            final(self).wf(),
            r is Ok <==> valid_archive_path(path@) && !key_set(old(self)@).contains(
                spec_collision_key(path@),
            ) && fits_hierarchy(old(self)@, spec_collision_key(path@), kind),
            r is Ok ==> final(self)@ == old(self)@.push((spec_collision_key(path@), kind)),
            r is Err ==> final(self)@ == old(self)@,
            r matches Err(e) ==> e is Security,
            valid_archive_path(path@) && key_set(old(self)@).contains(spec_collision_key(path@)) ==> (r matches Err(e)
                && error_detail(e) == "archive path collision for "@ + path@),
            !valid_archive_path(path@) ==> (r matches Err(e) && error_detail(e) == archive_path_refusal(path@)),
    {
        let key = collision_key(path)?;
        if self.collisions.contains_key(key.as_str()) {
            return Err(ArcaError::Security(concat_str("archive path collision for ", path)));
        }
        let ghost before = self.hierarchy@;
        self.hierarchy.insert(path, kind)?;
        self.collisions.insert_key(key);
        assert(self.collisions@ =~= key_set(self.hierarchy@)) by {
            assert forall|k: Seq<char>| key_set(self.hierarchy@).contains(k) implies self.collisions@.contains(k) by {
                let i = choose|i: int| 0 <= i < self.hierarchy@.len() && #[trigger] self.hierarchy@[i].0 == k;
                if i < before.len() {
                    assert(before[i] == self.hierarchy@[i]);
                    assert(key_set(before).contains(k));
                }
            }
            assert forall|k: Seq<char>| self.collisions@.contains(k) implies key_set(self.hierarchy@).contains(k) by {
                if k != spec_collision_key(path@) {
                    assert(key_set(before).contains(k));
                    let i = choose|i: int| 0 <= i < before.len() && #[trigger] before[i].0 == k;
                    assert(self.hierarchy@[i] == before[i]);
                } else {
                    assert(self.hierarchy@[before.len() as int].0 == k);
                }
            }
        }
        Ok(())
    }
}

/// Accepting the paths of `s` one after another from an empty guard succeeds
/// exactly when `s` is admissible, and leaves their keys.
pub proof fn lemma_admissible_step(s: Seq<(Seq<char>, EntryKind)>, p: Seq<char>, kind: EntryKind)
    ensures
        admissible(s.push((p, kind))) == (admissible(s) && valid_archive_path(p) && !key_set(keyed(s)).contains(spec_collision_key(p)) && fits_hierarchy(keyed(s), spec_collision_key(p), kind)),
        keyed(s.push((p, kind))) == keyed(s).push((spec_collision_key(p), kind)),
{
    assert(s.push((p, kind)).drop_last() == s);
    assert(keyed(s.push((p, kind))) =~= keyed(s).push((spec_collision_key(p), kind)));
}

/// Reading an archive applies the policy that creating one applies: a path
/// that joins an admissible manifest passes `valid_archive_path` and has a
/// collision key new to the paths before it, as the planner requires of each
/// input it admits.
pub proof fn law_same_path_policy(s: Seq<(Seq<char>, EntryKind)>, p: Seq<char>, kind: EntryKind)
    ensures
        admissible(s.push((p, kind))) ==> valid_archive_path(p) && !key_set(keyed(s)).contains(spec_collision_key(p)),
{
    lemma_admissible_step(s, p, kind);
}

/// What an accepted manifest guarantees as a whole: every path is valid, no
/// two paths share a collision key (so no two differ only by case or Unicode
/// normalization), and only directories have entries below them (so no
/// `link` beside `link/file`).
pub proof fn law_admissible_manifest(s: Seq<(Seq<char>, EntryKind)>)
    requires
        admissible(s),
    ensures
        forall|i: int| 0 <= i < s.len() ==> valid_archive_path(#[trigger] s[i].0),
        forall|i: int, j: int|
            0 <= i < j < s.len() ==> spec_collision_key(#[trigger] s[i].0) != spec_collision_key(#[trigger] s[j].0),
        hierarchy_consistent(keyed(s)),
    decreases s.len(),
{
    if s.len() > 0 {
        let prev = s.drop_last();
        let n = prev.len() as int;
        law_admissible_manifest(prev);
        lemma_admissible_step(prev, s.last().0, s.last().1);
        assert(s == prev.push(s.last()));
        assert forall|i: int| 0 <= i < s.len() implies valid_archive_path(#[trigger] s[i].0) by {
            if i < n {
                assert(s[i] == prev[i]);
            }
        }
        assert forall|i: int, j: int|
            0 <= i < j < s.len() implies spec_collision_key(#[trigger] s[i].0) != spec_collision_key(#[trigger] s[j].0) by {
            assert(s[i] == prev[i]);
            if j < n {
                assert(s[j] == prev[j]);
            } else {
                assert(keyed(prev)[i].0 == spec_collision_key(prev[i].0));
                assert(key_set(keyed(prev)).contains(spec_collision_key(prev[i].0)));
            }
        }
        let k = keyed(s);
        assert forall|i: int, j: int|
            0 <= i < k.len() && 0 <= j < k.len() && is_child_path(#[trigger] k[i].0, #[trigger] k[j].0) implies k[j].1
                == EntryKind::Directory by {
            assert(k == keyed(prev).push((spec_collision_key(s.last().0), s.last().1)));
            if i < n && j < n {
                assert(k[i] == keyed(prev)[i] && k[j] == keyed(prev)[j]);
            } else if i < n {
                assert(k[i] == keyed(prev)[i]);
            } else if j < n {
                assert(k[j] == keyed(prev)[j]);
            } else {
                assert(!is_child_path(k[i].0, k[i].0));
            }
        }
    }
}

} // verus!
