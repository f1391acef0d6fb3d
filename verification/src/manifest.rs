use vstd::prelude::*;
use std::path::PathBuf;

use crate::archive::{entry_kind_label, spec_entry_kind_label, EntryKind, ScannedEntry};
use crate::digest::{hex_digest, hex_text};
use crate::error::{error_detail, ArcaError};
use crate::integrity::{changed_archive_text, check_archive_unchanged, ArchiveStage};
use crate::format::{format_kind_label, spec_format_kind_label, ArchiveFormat, FormatKind};
use crate::limits::{over_limit_text, ResourceLimits};
use crate::policy::{symlink_target_refusal, valid_symlink_target, validate_symlink_target};
use crate::scan::utf8_len;
use crate::text::{concat_decimal, concat_str, decimal_text};

verus! {

broadcast use vstd::string::group_string_axioms;

/// One entry of an archive listing.
#[derive(Debug, Clone)]
pub struct ListEntry {
    pub path: String,
    pub entry_type: String,
    pub uncompressed_size: u64,
    pub compressed_size: Option<u64>,
    pub encrypted: bool,
}

/// Whether the editor may change an archive in place, and why not.
#[derive(Debug, Clone)]
pub struct DirectEditStatus {
    pub allowed: bool,
    pub reason: Option<String>,
}

/// What an inspection of an archive found.
#[derive(Debug, Clone)]
pub struct ArchiveManifest {
    pub archive_path: PathBuf,
    pub archive_name: String,
    pub format_kind: String,
    pub format_suffix: String,
    pub digest_sha256: String,
    pub entries: Vec<ListEntry>,
    pub entry_count: usize,
    pub total_uncompressed_size: u64,
    pub total_compressed_size: Option<u64>,
    pub encrypted_entry_count: usize,
    pub direct_edit: DirectEditStatus,
}

/// The listing entry of a ZIP entry: its raw name as recorded, its kind's
/// label, its sizes and whether it is encrypted.
pub fn zip_list_entry(raw_name: String, kind: EntryKind, size: u64, compressed_size: u64, encrypted: bool) -> (r: ListEntry)
    ensures
        r.path == raw_name,
        r.entry_type@ == spec_entry_kind_label(kind)@,
        r.uncompressed_size == size,
        r.compressed_size == Some(compressed_size),
        r.encrypted == encrypted,
{
    ListEntry {
        path: raw_name,
        entry_type: entry_kind_label(kind).to_owned(),
        uncompressed_size: size,
        compressed_size: Some(compressed_size),
        encrypted,
    }
}

/// The listing entry of a scanned tar entry: not encrypted, no packed size.
pub fn tar_list_entry(entry: &ScannedEntry) -> (r: ListEntry)
    ensures
        r.path@ == entry.path@,
        r.entry_type@ == spec_entry_kind_label(entry.kind)@,
        r.uncompressed_size == entry.size,
        r.compressed_size is None,
        !r.encrypted,
{
    ListEntry {
        path: entry.path.clone(),
        entry_type: entry_kind_label(entry.kind).to_owned(),
        uncompressed_size: entry.size,
        compressed_size: None,
        encrypted: false,
    }
}

/// The listing of a single-stream archive: one file entry.
pub fn single_stream_list_entry(name: String, uncompressed_size: u64, archive_size: u64) -> (r: ListEntry)
    ensures
        r.path == name,
        r.entry_type@ == "file"@,
        r.uncompressed_size == uncompressed_size,
        r.compressed_size == Some(archive_size),
        !r.encrypted,
{
    ListEntry {
        path: name,
        entry_type: "file".to_owned(),
        uncompressed_size,
        compressed_size: Some(archive_size),
        encrypted: false,
    }
}

/// Checks a symlink target read from a ZIP entry while listing: at most the
/// target size limit in bytes, then the symlink policy (`Security` for both).
pub fn check_listed_symlink_target(archive: &str, target: &str, limits: ResourceLimits) -> (r: Result<(), ArcaError>)
    ensures
        r is Ok <==> (utf8_len(target@) as u64) <= limits.max_symlink_target_bytes && valid_symlink_target(target@),
        r matches Err(e) ==> e is Security && error_detail(e) == (if (utf8_len(target@) as u64)
            > limits.max_symlink_target_bytes {
            over_limit_text(
                "symlink target size limit exceeded in "@ + archive@,
                decimal_text((utf8_len(target@) as u64) as nat),
                limits.max_symlink_target_bytes,
            )
        } else {
            symlink_target_refusal(target@)
        }),
{
    let len = target.len() as u64;
    if len > limits.max_symlink_target_bytes {
        let message = concat_str("symlink target size limit exceeded in ", archive);
        let message = concat_str(message.as_str(), ": ");
        let message = concat_decimal(message.as_str(), len);
        let message = concat_str(message.as_str(), " > ");
        let message = concat_decimal(message.as_str(), limits.max_symlink_target_bytes);
        assert(message@ == over_limit_text(
            "symlink target size limit exceeded in "@ + archive@,
            decimal_text(len as nat),
            limits.max_symlink_target_bytes,
        ));
        return Err(ArcaError::Security(message));
    }
    validate_symlink_target(target)
}

/// Whether the editor may change an archive in place: only plain ZIP
/// archives without encrypted entries.
pub fn direct_edit_status(format: ArchiveFormat, encrypted_entry_count: usize) -> (r: DirectEditStatus)
    ensures
        r.allowed <==> format.kind == FormatKind::Zip && encrypted_entry_count == 0,
        r.allowed <==> r.reason is None,
        format.kind != FormatKind::Zip ==> (r.reason matches Some(m) && m@
            == "Direct Editing is planned only for Plain ZIP archives"@),
        format.kind == FormatKind::Zip && encrypted_entry_count > 0 ==> (r.reason matches Some(m) && m@
            == "Encrypted ZIP archives are read-only in the GUI"@),
{
    match format.kind {
        FormatKind::Zip => {},
        _ => {
            return DirectEditStatus {
                allowed: false,
                reason: Some("Direct Editing is planned only for Plain ZIP archives".to_owned()),
            };
        },
    }
    if encrypted_entry_count > 0 {
        return DirectEditStatus {
            allowed: false,
            reason: Some("Encrypted ZIP archives are read-only in the GUI".to_owned()),
        };
    }
    DirectEditStatus { allowed: true, reason: None }
}

// ---------------------------------------------------------------------------
// Totals of a listing
// ---------------------------------------------------------------------------

/// The sum of the unpacked sizes of the first `n` entries.
pub open spec fn uncompressed_sum(s: Seq<ListEntry>, n: int) -> int
    decreases n,
{
    if n <= 0 {
        0
    } else {
        uncompressed_sum(s, n - 1) + s[n - 1].uncompressed_size
    }
}

/// Over the first `n` entries: whether an entry without a packed size was
/// met, and the sum of the packed sizes before it.
pub open spec fn compressed_state(s: Seq<ListEntry>, n: int) -> (bool, int)
    decreases n,
{
    if n <= 0 {
        (false, 0)
    } else {
        let prev = compressed_state(s, n - 1);
        if prev.0 {
            prev
        } else {
            match s[n - 1].compressed_size {
                Some(c) => (false, prev.1 + c),
                None => (true, prev.1),
            }
        }
    }
}

/// The number of encrypted entries among the first `n`.
pub open spec fn encrypted_count(s: Seq<ListEntry>, n: int) -> int
    decreases n,
{
    if n <= 0 {
        0
    } else {
        encrypted_count(s, n - 1) + if s[n - 1].encrypted {
            1int
        } else {
            0int
        }
    }
}

/// The totals of a listing: the unpacked size, the packed size when every
/// entry has one, and the number of encrypted entries.
#[derive(Debug, Clone, Copy, PartialEq, Eq, Structural)]
pub struct ListingTotals {
    pub uncompressed: u64,
    pub compressed: Option<u64>,
    pub encrypted: usize,
}

/// The totals of a listing; `Security` when the unpacked sum, or the packed
/// sum before the first entry without a packed size, passes `u64::MAX`.
pub fn listing_totals(entries: &Vec<ListEntry>) -> (r: Result<ListingTotals, ArcaError>)
    ensures
        r is Ok <==> uncompressed_sum(entries@, entries@.len() as int) <= u64::MAX && compressed_state(
            entries@,
            entries@.len() as int,
        ).1 <= u64::MAX,
        r matches Ok(t) ==> {
            let cs = compressed_state(entries@, entries@.len() as int);
            &&& t.uncompressed == uncompressed_sum(entries@, entries@.len() as int)
            &&& t.compressed == (if cs.0 { None } else { Some(cs.1 as u64) })
            &&& t.encrypted == encrypted_count(entries@, entries@.len() as int)
        },
        r matches Err(e) ==> e is Security && exists|k: int| 0 <= k < entries@.len() && (error_detail(e)
            == "archive unpacked size overflow at "@ + #[trigger] entries@[k].path@ || error_detail(e)
            == "archive compressed size overflow at "@ + entries@[k].path@),
{
    let mut total: u64 = 0;
    let mut i: usize = 0;
    while i < entries.len()
        invariant
            i <= entries.len(),
            total == uncompressed_sum(entries@, i as int),
            forall|k: int| 0 <= k <= i ==> uncompressed_sum(entries@, k) <= total,
        decreases entries.len() - i,
    {
        let entry = &entries[i];
        total = match total.checked_add(entry.uncompressed_size) {
            Some(t) => t,
            None => {
                proof {
                    lemma_uncompressed_monotone(entries@, i + 1, entries@.len() as int);
                }
                return Err(ArcaError::Security(concat_str("archive unpacked size overflow at ", entry.path.as_str())));
            },
        };
        i = i + 1;
    }
    let mut compressed: Option<u64> = Some(0);
    let mut stopped = false;
    let mut sum: u64 = 0;
    let mut j: usize = 0;
    while j < entries.len() && !stopped
        invariant
            j <= entries.len(),
            (stopped, sum as int) == compressed_state(entries@, j as int),
            stopped ==> compressed_state(entries@, entries@.len() as int) == compressed_state(entries@, j as int),
            compressed == (if stopped { None } else { Some(sum) }),
        decreases entries.len() - j,
    {
        let entry = &entries[j];
        match entry.compressed_size {
            None => {
                stopped = true;
                compressed = None;
                proof {
                    lemma_compressed_stops(entries@, j + 1, entries@.len() as int);
                }
            },
            Some(size) => {
                sum = match sum.checked_add(size) {
                    Some(s) => s,
                    None => {
                        proof {
                            lemma_compressed_monotone(entries@, j + 1, entries@.len() as int);
                        }
                        return Err(
                            ArcaError::Security(concat_str("archive compressed size overflow at ", entry.path.as_str())),
                        );
                    },
                };
                compressed = Some(sum);
            },
        }
        j = j + 1;
    }
    let mut encrypted: usize = 0;
    let mut k: usize = 0;
    while k < entries.len()
        invariant
            k <= entries.len(),
            encrypted == encrypted_count(entries@, k as int),
            encrypted <= k,
        decreases entries.len() - k,
    {
        if entries[k].encrypted {
            encrypted = encrypted + 1;
        }
        k = k + 1;
    }
    Ok(ListingTotals { uncompressed: total, compressed, encrypted })
}

proof fn lemma_uncompressed_monotone(s: Seq<ListEntry>, a: int, b: int)
    requires
        0 <= a <= b <= s.len(),
    ensures
        uncompressed_sum(s, a) <= uncompressed_sum(s, b),
    decreases b - a,
{
    if a < b {
        lemma_uncompressed_monotone(s, a, b - 1);
    }
}

proof fn lemma_compressed_monotone(s: Seq<ListEntry>, a: int, b: int)
    requires
        0 <= a <= b <= s.len(),
    ensures
        compressed_state(s, a).1 <= compressed_state(s, b).1,
    decreases b - a,
{
    if a < b {
        lemma_compressed_monotone(s, a, b - 1);
    }
}

proof fn lemma_compressed_stops(s: Seq<ListEntry>, a: int, b: int)
    requires
        0 <= a <= b <= s.len(),
        compressed_state(s, a).0,
    ensures
        compressed_state(s, b) == compressed_state(s, a),
    decreases b - a,
{
    if a < b {
        lemma_compressed_stops(s, a, b - 1);
    }
}

/// Assembles the manifest of an inspected archive from its listing: the
/// totals of `listing_totals`, the format's label and suffix, and the direct
/// edit status.
pub fn assemble_manifest(
    archive_path: PathBuf,
    archive_name: String,
    format: ArchiveFormat,
    digest_sha256: String,
    entries: Vec<ListEntry>,
) -> (r: Result<ArchiveManifest, ArcaError>)
    ensures
        r is Ok <==> uncompressed_sum(entries@, entries@.len() as int) <= u64::MAX && compressed_state(
            entries@,
            entries@.len() as int,
        ).1 <= u64::MAX,
        r matches Ok(m) ==> {
            let cs = compressed_state(entries@, entries@.len() as int);
            &&& m.archive_path == archive_path
            &&& m.archive_name == archive_name
            &&& m.format_kind@ == spec_format_kind_label(format.kind)@
            &&& m.format_suffix@ == format.suffix@
            &&& m.digest_sha256 == digest_sha256
            &&& m.entries@ == entries@
            &&& m.entry_count == entries@.len()
            &&& m.total_uncompressed_size == uncompressed_sum(entries@, entries@.len() as int)
            &&& m.total_compressed_size == (if cs.0 { None } else { Some(cs.1 as u64) })
            &&& m.encrypted_entry_count == encrypted_count(entries@, entries@.len() as int)
            &&& m.direct_edit.allowed <==> format.kind == FormatKind::Zip && m.encrypted_entry_count == 0
        },
        r matches Err(e) ==> e is Security,
{
    let totals = listing_totals(&entries)?;
    let entry_count = entries.len();
    Ok(ArchiveManifest {
        archive_path,
        archive_name,
        format_kind: format_kind_label(format.kind).to_owned(),
        format_suffix: format.suffix.to_owned(),
        digest_sha256,
        entries,
        entry_count,
        total_uncompressed_size: totals.uncompressed,
        total_compressed_size: totals.compressed,
        encrypted_entry_count: totals.encrypted,
        direct_edit: direct_edit_status(format, totals.encrypted),
    })
}

/// The manifest of an inspected archive from the digests of the file taken
/// before and after it was listed, and the listing: an archive whose bytes
/// changed in between is refused, else the manifest carries the listing, its
/// totals and the first digest in hexadecimal.
pub fn inspect_summary(
    archive_path: PathBuf,
    archive_name: String,
    format: ArchiveFormat,
    digest_before: [u8; 32],
    digest_after: [u8; 32],
    entries: Vec<ListEntry>,
    archive_text: &str,
) -> (r: Result<ArchiveManifest, ArcaError>)
    ensures
        digest_before@ != digest_after@ ==> (r matches Err(e) && e is Integrity && error_detail(e)
            == changed_archive_text(ArchiveStage::Listing, archive_text@)),
        r is Ok <==> digest_before@ == digest_after@ && uncompressed_sum(entries@, entries@.len() as int)
            <= u64::MAX && compressed_state(entries@, entries@.len() as int).1 <= u64::MAX,
        r matches Ok(m) ==> {
            let cs = compressed_state(entries@, entries@.len() as int);
            &&& m.archive_path == archive_path
            &&& m.archive_name == archive_name
            &&& m.format_kind@ == spec_format_kind_label(format.kind)@
            &&& m.format_suffix@ == format.suffix@
            &&& m.digest_sha256@ == hex_text(digest_before@)
            &&& m.digest_sha256@.len() == 64
            &&& m.entries@ == entries@
            &&& m.entry_count == entries@.len()
            &&& m.total_uncompressed_size == uncompressed_sum(entries@, entries@.len() as int)
            &&& m.total_compressed_size == (if cs.0 { None } else { Some(cs.1 as u64) })
            &&& m.encrypted_entry_count == encrypted_count(entries@, entries@.len() as int)
            &&& m.direct_edit.allowed <==> format.kind == FormatKind::Zip && m.encrypted_entry_count == 0
        },
        r matches Err(e) ==> e is Integrity || e is Security,
{
    check_archive_unchanged(&digest_before, &digest_after, ArchiveStage::Listing, archive_text)?;
    let digest = hex_digest(digest_before);
    assemble_manifest(archive_path, archive_name, format, digest, entries)
}

} // verus!
