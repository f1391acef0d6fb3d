use vstd::prelude::*;
use vstd::utf8::encode_utf8;

use crate::archive::{admissible, keyed, lemma_admissible_step, EntryKind, PathGuard, ScannedEntry};
use crate::error::{error_detail, ArcaError};
use crate::limits::{check_scanned_entry_limits, entry_limits_ok, ratio_ok, ResourceLimits};
use crate::policy::{valid_archive_path, valid_symlink_target, validate_archive_path, validate_symlink_target};
use crate::text::{chars_of, concat_str, string_of, trim_end_char, trim_end_vec};
use crate::time::UnixTime;

verus! {

broadcast use vstd::string::group_string_axioms;

// ---------------------------------------------------------------------------
// Scanned manifests
// ---------------------------------------------------------------------------

/// The paths and kinds of scanned entries, in order.
pub open spec fn path_kinds(m: Seq<ScannedEntry>) -> Seq<(Seq<char>, EntryKind)> {
    m.map_values(|e: ScannedEntry| (e.path@, e.kind))
}

/// The sum of the sizes of scanned entries.
pub open spec fn total_size(m: Seq<ScannedEntry>) -> int
    decreases m.len(),
{
    if m.len() == 0 {
        0
    } else {
        total_size(m.drop_last()) + m.last().size
    }
}

/// Permission bits of a Unix mode.
pub open spec fn permission_bits(mode: Option<u32>) -> Option<u32> {
    match mode {
        Some(m) => Some(m & 0x1ff),
        None => None,
    }
}

fn mask_mode(mode: Option<u32>) -> (r: Option<u32>)
    ensures
        r == permission_bits(mode),
{
    match mode {
        Some(m) => Some(m & 0x1ff),
        None => None,
    }
}

/// The scan of an archive's entries in archive order: every accepted path is
/// valid, distinct by collision key and consistent with the directories
/// before it, and the sizes stay within the limits.
pub struct ManifestScan {
    limits: ResourceLimits,
    guard: PathGuard,
    entries: Vec<ScannedEntry>,
    total: u64,
}

impl ManifestScan {
    /// The entries accepted so far.
    pub closed spec fn entries_view(&self) -> Seq<ScannedEntry> {
        self.entries@
    }

    /// The limits the scan applies.
    pub closed spec fn limits_view(&self) -> ResourceLimits {
        self.limits
    }

    pub closed spec fn wf(&self) -> bool {
        &&& self.guard.wf()
        &&& self.guard@ == keyed(path_kinds(self.entries@))
        &&& admissible(path_kinds(self.entries@))
        &&& self.total == total_size(self.entries@)
    }

    /// A scan that accepted nothing yet.
    pub fn new(limits: ResourceLimits) -> (r: ManifestScan)
        ensures
            r.wf(),
            r.entries_view() == Seq::<ScannedEntry>::empty(),
            r.limits_view() == limits,
    {
        let r = ManifestScan { limits, guard: PathGuard::new(), entries: Vec::new(), total: 0 };
        assert(keyed(path_kinds(r.entries@)) =~= Seq::<(Seq<char>, EntryKind)>::empty());
        r
    }

    /// Accepts one more entry after the path, collision, directory, size and
    /// total checks; `Security` when one fails.
    fn push_checked(self, entry: ScannedEntry, compressed_size: Option<u64>) -> (r: Result<ManifestScan, ArcaError>)
        requires
            self.wf(),
        ensures
            r is Ok <==> admissible(path_kinds(self.entries_view()).push((entry.path@, entry.kind)))
                && entry_limits_ok(self.limits_view(), entry.kind, entry.size)
                && (compressed_size matches Some(c) ==> ratio_ok(entry.size, c, self.limits_view().max_compression_ratio))
                && total_size(self.entries_view()) + entry.size <= self.limits_view().max_total_unpacked_bytes,
            r matches Ok(next) ==> next.wf() && next.limits_view() == self.limits_view()
                && next.entries_view() == self.entries_view().push(entry),
            r matches Err(e) ==> e is Security,
    {
        let mut this = self;
        let ghost pk = path_kinds(this.entries@);
        proof {
            lemma_admissible_step(pk, entry.path@, entry.kind);
        }
        this.guard.accept(entry.path.as_str(), entry.kind)?;
        check_scanned_entry_limits(entry.path.as_str(), entry.kind, entry.size, this.limits)?;
        if let Some(compressed) = compressed_size {
            this.limits.check_compression_ratio(entry.path.as_str(), entry.size, compressed)?;
        }
        let total = this.limits.add_total(this.total, entry.path.as_str(), entry.size)?;
        let ghost before = this.entries@;
        this.entries.push(entry);
        this.total = total;
        proof {
            assert(path_kinds(this.entries@) =~= pk.push((entry.path@, entry.kind)));
            assert(this.entries@.drop_last() == before);
        }
        Ok(this)
    }

    /// Accepts the next entry of a ZIP archive, given what its central
    /// directory records: the raw name (trailing slashes dropped; an empty name
    /// is skipped), whether it is a directory, its Unix mode, its sizes and its
    /// modification time. `Security` when a check fails.
    pub fn add_zip_entry(
        self,
        raw_name: &str,
        is_dir: bool,
        unix_mode: Option<u32>,
        size: u64,
        compressed_size: u64,
        modified: Option<UnixTime>,
    ) -> (r: Result<ManifestScan, ArcaError>)
        requires
            self.wf(),
        ensures
            ({
                let name = trim_end_char(raw_name@, '/');
                let kind = zip_entry_kind(is_dir, unix_mode);
                &&& name.len() == 0 ==> r == Ok::<ManifestScan, ArcaError>(self)
                &&& name.len() > 0 ==> (r is Ok <==> admissible(path_kinds(self.entries_view()).push((name, kind)))
                    && entry_limits_ok(self.limits_view(), kind, size)
                    && (kind != EntryKind::Directory ==> ratio_ok(size, compressed_size, self.limits_view().max_compression_ratio))
                    && total_size(self.entries_view()) + size <= self.limits_view().max_total_unpacked_bytes)
                &&& name.len() > 0 ==> (r matches Ok(next) ==> {
                    let last = next.entries_view().last();
                    &&& next.entries_view().len() == self.entries_view().len() + 1
                    &&& next.entries_view().drop_last() == self.entries_view()
                    &&& last.path@ == name
                    &&& last.kind == kind
                    &&& last.link_target is None
                    &&& last.size == size
                    &&& last.mode == permission_bits(unix_mode)
                    &&& last.modified == modified
                })
            }),
            r matches Ok(next) ==> next.wf() && next.limits_view() == self.limits_view(),
            r matches Err(e) ==> e is Security,
    {
        let chars = chars_of(raw_name);
        let trimmed = trim_end_vec(&chars, '/');
        if trimmed.len() == 0 {
            return Ok(self);
        }
        let name = string_of(&trimmed);
        let kind = zip_kind(is_dir, unix_mode);
        let entry = ScannedEntry {
            path: name,
            kind,
            link_target: None,
            size,
            mode: mask_mode(unix_mode),
            modified,
        };
        let compressed = if kind == EntryKind::Directory {
            None
        } else {
            Some(compressed_size)
        };
        let ghost old_entries = self.entries_view();
        let next = self.push_checked(entry, compressed)?;
        proof {
            assert(next.entries_view().drop_last() == old_entries);
        }
        Ok(next)
    }

    /// Accepts the next entry of a tar archive, as `scan_tar_entry` read it;
    /// `Security` when a check fails or the archive holds more entries than
    /// the limit.
    pub fn add_tar_entry(self, entry: ScannedEntry) -> (r: Result<ManifestScan, ArcaError>)
        requires
            self.wf(),
        ensures
            r is Ok <==> admissible(path_kinds(self.entries_view()).push((entry.path@, entry.kind)))
                && entry_limits_ok(self.limits_view(), entry.kind, entry.size)
                && total_size(self.entries_view()) + entry.size <= self.limits_view().max_total_unpacked_bytes
                && self.entries_view().len() + 1 <= self.limits_view().max_entries,
            r matches Ok(next) ==> next.wf() && next.limits_view() == self.limits_view()
                && next.entries_view() == self.entries_view().push(entry),
            r matches Err(e) ==> e is Security,
    {
        let limits = self.limits;
        let next = self.push_checked(entry, None)?;
        limits.check_entry_count(next.entries.len())?;
        Ok(next)
    }

    /// Ends the scan of a ZIP archive: the total unpacked size must respect the
    /// compression ratio limit against the archive's size (`Security`).
    pub fn finish_zip(self, archive: &str, archive_size: u64) -> (r: Result<Vec<ScannedEntry>, ArcaError>)
        requires
            self.wf(),
        ensures
            r is Ok <==> ratio_ok(total_size(self.entries_view()) as u64, archive_size, self.limits_view().max_compression_ratio),
            r matches Ok(entries) ==> entries@ == self.entries_view(),
            r matches Err(e) ==> e is Security,
    {
        self.limits.check_compression_ratio(archive, self.total, archive_size)?;
        Ok(self.entries)
    }

    /// The entries accepted so far.
    pub fn into_entries(self) -> (r: Vec<ScannedEntry>)
        ensures
            r@ == self.entries_view(),
    {
        self.entries
    }
}

/// Every scan keeps its manifest admissible: the accepted paths, taken in
/// order, could be accepted one after another.
pub proof fn law_scan_admissible(scan: &ManifestScan)
    requires
        scan.wf(),
    ensures
        admissible(path_kinds(scan.entries_view())),
{
}

// ---------------------------------------------------------------------------
// Entry kinds
// ---------------------------------------------------------------------------

/// The kind of a ZIP entry: a directory, a symlink when its Unix file type is
/// a link, a file otherwise.
pub open spec fn zip_entry_kind(is_dir: bool, unix_mode: Option<u32>) -> EntryKind {
    if is_dir {
        EntryKind::Directory
    } else if unix_mode matches Some(m) && m & 0xf000 == 0xa000 {
        EntryKind::Symlink
    } else {
        EntryKind::File
    }
}

/// The kind of a ZIP entry from its directory flag and Unix mode.
pub fn zip_kind(is_dir: bool, unix_mode: Option<u32>) -> (r: EntryKind)
    ensures
        r == zip_entry_kind(is_dir, unix_mode),
{
    if is_dir {
        return EntryKind::Directory;
    }
    match unix_mode {
        Some(m) => {
            if m & 0xf000 == 0xa000 {
                EntryKind::Symlink
            } else {
                EntryKind::File
            }
        },
        None => EntryKind::File,
    }
}

/// The type a tar header gives an entry.
#[derive(Clone, Copy, Debug, PartialEq, Eq, Structural)]
pub enum TarEntryType {
    Directory,
    File,
    Symlink,
    HardLink,
    Other,
}

/// A name read from an archive header: UTF-8 text, or bytes that are not,
/// shown lossily.
#[derive(Clone, Debug)]
pub enum HeaderText {
    Text(String),
    NotUtf8(String),
}

/// The modification time a tar header records, if it fits.
pub open spec fn tar_modified(mtime: Option<u64>) -> Option<UnixTime> {
    match mtime {
        Some(s) => if s <= i64::MAX {
            Some(UnixTime { seconds: s as i64, nanos: 0 })
        } else {
            None
        },
        None => None,
    }
}

/// The length in bytes of a text in UTF-8, as `str::len` gives it.
pub open spec fn utf8_len(s: Seq<char>) -> usize {
    encode_utf8(s).len() as usize
}

/// The outcome of reading a tar entry with a valid path `name`.
pub open spec fn tar_entry_ok(
    limits: ResourceLimits,
    entry_type: TarEntryType,
    header_size: u64,
    link_name: Result<Option<HeaderText>, ArcaError>,
) -> bool {
    match entry_type {
        TarEntryType::Directory => true,
        TarEntryType::File => entry_limits_ok(limits, EntryKind::File, header_size),
        TarEntryType::Symlink => match link_name {
            Ok(Some(HeaderText::Text(t))) => valid_symlink_target(t@) && entry_limits_ok(
                limits,
                EntryKind::Symlink,
                utf8_len(t@) as u64,
            ),
            _ => false,
        },
        _ => false,
    }
}

/// Reads one tar entry from what its header gives: the path, the entry type,
/// the recorded size, the link name, the mode and the modification time.
/// The path must be UTF-8 (`NonUtf8Path`) and valid without trailing slashes
/// (`Security`); a header size that could not be read fails next; hard links
/// and special entries are refused (`Security`); a symlink needs a valid UTF-8
/// target within the limits, and its size is the target's length in bytes; a
/// directory has size zero.
pub fn scan_tar_entry(
    path: &HeaderText,
    entry_type: TarEntryType,
    header_size: Result<u64, ArcaError>,
    link_name: Result<Option<HeaderText>, ArcaError>,
    mode: Option<u32>,
    mtime: Option<u64>,
    limits: ResourceLimits,
) -> (r: Result<ScannedEntry, ArcaError>)
    ensures
        path matches HeaderText::NotUtf8(shown) ==> (r matches Err(e) && e is NonUtf8Path && error_detail(e)
            == shown@),
        path matches HeaderText::Text(p) ==> {
            let name = trim_end_char(p@, '/');
            &&& !valid_archive_path(name) ==> (r matches Err(e) && e is Security)
            &&& valid_archive_path(name) && header_size is Ok && entry_type == TarEntryType::HardLink ==> (r matches Err(e)
                && e is Security && error_detail(e) == "tar hardlink entries are not supported: "@ + name)
            &&& valid_archive_path(name) && header_size is Ok && entry_type == TarEntryType::Other ==> (r matches Err(e)
                && e is Security && error_detail(e) == "tar special entry is not supported: "@ + name)
            &&& header_size matches Err(e) ==> (valid_archive_path(name) ==> r == Err::<ScannedEntry, ArcaError>(e))
            &&& header_size matches Ok(hs) ==> (valid_archive_path(name) ==> (r is Ok <==> tar_entry_ok(limits, entry_type, hs, link_name)))
            &&& header_size matches Ok(hs) ==> (r matches Ok(entry) ==> {
                &&& entry.path@ == name
                &&& entry.mode == permission_bits(mode)
                &&& entry.modified == tar_modified(mtime)
                &&& entry_type == TarEntryType::Directory ==> entry.kind == EntryKind::Directory && entry.size == 0 && entry.link_target is None
                &&& entry_type == TarEntryType::File ==> entry.kind == EntryKind::File && entry.size == hs && entry.link_target is None
                &&& entry_type == TarEntryType::Symlink ==> entry.kind == EntryKind::Symlink && (link_name matches Ok(Some(HeaderText::Text(t)))
                    && entry.link_target == Some(t) && entry.size == utf8_len(t@))
            })
        },
        r is Ok ==> path is Text && header_size is Ok,
{
    let text = match path {
        HeaderText::Text(p) => p,
        HeaderText::NotUtf8(shown) => {
            return Err(ArcaError::NonUtf8Path(shown.clone()));
        },
    };
    let chars = chars_of(text.as_str());
    let name = string_of(&trim_end_vec(&chars, '/'));
    validate_archive_path(name.as_str())?;
    let header_size = match header_size {
        Ok(size) => size,
        Err(e) => {
            return Err(e);
        },
    };
    let kind = match entry_type {
        TarEntryType::Directory => EntryKind::Directory,
        TarEntryType::File => EntryKind::File,
        TarEntryType::Symlink => EntryKind::Symlink,
        TarEntryType::HardLink => {
            return Err(ArcaError::Security(concat_str("tar hardlink entries are not supported: ", name.as_str())));
        },
        TarEntryType::Other => {
            return Err(ArcaError::Security(concat_str("tar special entry is not supported: ", name.as_str())));
        },
    };
    let mut link_target: Option<String> = None;
    let mut size = header_size;
    if kind == EntryKind::Symlink {
        let target = match link_name {
            Ok(Some(HeaderText::Text(t))) => t,
            Ok(Some(HeaderText::NotUtf8(shown))) => {
                return Err(ArcaError::NonUtf8Path(shown));
            },
            Ok(None) => {
                return Err(ArcaError::Security("missing symlink target".to_owned()));
            },
            Err(e) => {
                return Err(e);
            },
        };
        validate_symlink_target(target.as_str())?;
        let target_text = target.as_str();
        let bytes = target_text.len() as u64;
        assert(target_text@ == target@);
        limits.check_symlink_target_size(name.as_str(), bytes)?;
        size = bytes;
        link_target = Some(target);
    } else if kind == EntryKind::Directory {
        size = 0;
    }
    check_scanned_entry_limits(name.as_str(), kind, size, limits)?;
    let modified = match mtime {
        Some(seconds) => if seconds <= i64::MAX as u64 {
            Some(UnixTime { seconds: seconds as i64, nanos: 0 })
        } else {
            None
        },
        None => None,
    };
    Ok(ScannedEntry { path: name, kind, link_target, size, mode: mask_mode(mode), modified })
}

/// The error for a tar archive that could not be read: a read interrupted by
/// cancellation is `Canceled`, anything else is `Integrity`.
pub fn tar_archive_error(interrupted: bool, detail: &str) -> (r: ArcaError)
    ensures
        interrupted ==> r is Canceled && error_detail(r) == "operation was canceled"@,
        !interrupted ==> (r matches ArcaError::Integrity(m) && m@ == "failed to read tar archive: "@ + detail@),
{
    if interrupted {
        return ArcaError::Canceled("operation was canceled".to_owned());
    }
    ArcaError::Integrity(concat_str("failed to read tar archive: ", detail))
}

} // verus!
