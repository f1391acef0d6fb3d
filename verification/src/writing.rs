use vstd::prelude::*;
use zip::DateTime;

use crate::archive::EntryKind;
use crate::error::{error_detail, ArcaError};
use crate::plan::ArchiveEntry;
use crate::scan::{permission_bits, tar_modified};
use crate::text::push_char;
use crate::time::{civil_from_days, civil_of_days, days_from_civil, days_of_civil, lemma_div_bounds, lemma_neg_floor_div, UnixTime};

verus! {

broadcast use vstd::string::group_string_axioms;

// ---------------------------------------------------------------------------
// Modes and compression levels
// ---------------------------------------------------------------------------

/// The permission bits an entry gets when its source recorded none.
pub open spec fn spec_default_mode(kind: EntryKind) -> u32 {
    match kind {
        EntryKind::File => 0o644,
        EntryKind::Directory => 0o755,
        EntryKind::Symlink => 0o777,
    }
}

/// The permission bits an entry gets when its source recorded none.
pub fn default_mode(kind: EntryKind) -> (r: u32)
    ensures
        r == spec_default_mode(kind),
{
    match kind {
        EntryKind::File => 0o644,
        EntryKind::Directory => 0o755,
        EntryKind::Symlink => 0o777,
    }
}

/// The permission bits written for an entry: those of its source, or the
/// default of its kind.
pub fn entry_mode(entry: &ArchiveEntry) -> (r: u32)
    ensures
        r == (match entry.snapshot.mode {
            Some(m) => m,
            None => spec_default_mode(entry.kind),
        }),
{
    match entry.snapshot.mode {
        Some(m) => m,
        None => default_mode(entry.kind),
    }
}

/// The compression level used for gzip, bzip2 and xz streams: the requested
/// one (6 when none), at most 9.
pub fn compression_level(level: Option<u8>) -> (r: u32)
    ensures
        r == (match level {
            Some(l) => if l > 9 { 9 } else { l as u32 },
            None => 6,
        }),
        r <= 9,
{
    let l: u8 = match level {
        Some(l) => l,
        None => 6,
    };
    if l > 9 {
        9
    } else {
        l as u32
    }
}

// ---------------------------------------------------------------------------
// ZIP timestamps
// ---------------------------------------------------------------------------

#[verifier::external_type_specification]
#[verifier::external_body]
pub struct ExZipDateTime(DateTime);

/// The date and time fields of a ZIP timestamp.
#[derive(Debug, Clone, Copy, PartialEq, Eq, Structural)]
pub struct ZipTimeParts {
    pub year: u16,
    pub month: u8,
    pub day: u8,
    pub hour: u8,
    pub minute: u8,
    pub second: u8,
}

/// The fields of the UTC time of `time` in whole seconds, when its year lies
/// in 1980..=2107, the range a ZIP timestamp can hold.
pub open spec fn spec_zip_parts(time: UnixTime) -> Option<ZipTimeParts> {
    let days = time.seconds / 86_400;
    let sod = time.seconds % 86_400;
    let (y, m, d) = civil_of_days(days);
    if 1980 <= y <= 2107 {
        Some(ZipTimeParts {
            year: y as u16,
            month: m as u8,
            day: d as u8,
            hour: (sod / 3_600) as u8,
            minute: ((sod % 3_600) / 60) as u8,
            second: (sod % 60) as u8,
        })
    } else {
        None
    }
}

/// The fields of the ZIP timestamp of a time, if its year fits.
pub fn zip_parts_from_unix_time(time: UnixTime) -> (r: Option<ZipTimeParts>)
    ensures
        r == spec_zip_parts(time),
{
    let days = floor_div_i64(time.seconds, 86_400);
    let sod: i64 = ((time.seconds as i128) - (days as i128) * 86_400) as i64;
    proof {
        assert(0 <= sod < 86_400);
        assert(sod == time.seconds % 86_400) by (nonlinear_arith)
            requires
                days == time.seconds / 86_400,
                sod == time.seconds - days * 86_400,
        ;
    }
    let (year, month, day) = match civil_from_days(days) {
        Some(t) => t,
        None => {
            proof {
                assert(days >= -106_751_991_167_301 && days <= 106_751_991_167_300);
            }
            return None;
        },
    };
    if year < 1980 || year > 2107 {
        return None;
    }
    Some(
        ZipTimeParts {
            year: year as u16,
            month: month as u8,
            day: day as u8,
            hour: (sod / 3_600) as u8,
            minute: ((sod % 3_600) / 60) as u8,
            second: (sod % 60) as u8,
        },
    )
}

/// Floor division of any `i64` by a positive divisor (`i64::div_euclid`).
fn floor_div_i64(n: i64, d: i64) -> (q: i64)
    requires
        0 < d <= 1_000_000,
    ensures
        q == n / d,
        q * d <= n < q * d + d,
{
    if n >= 0 {
        proof {
            lemma_div_bounds(n as int, d as int);
        }
        n / d
    } else {
        let m: i128 = -(n as i128) + (d as i128 - 1);
        let p: i128 = m / (d as i128);
        proof {
            lemma_neg_floor_div(n as int, d as int, m as int);
            lemma_div_bounds(n as int, d as int);
            assert(n as int / d as int <= 0);
            assert(n as int / d as int >= n) by (nonlinear_arith)
                requires
                    (n as int / d as int) * d <= n,
                    n < 0,
                    d >= 1,
            ;
        }
        (-p) as i64
    }
}

/// The month lengths that `DateTime::from_date_and_time` of the zip crate
/// checks a day against.
pub open spec fn zip_month_days(year: u16, month: u8) -> u8 {
    if month == 2 {
        if (year % 4 == 0 && year % 100 != 0) || year % 400 == 0 {
            29
        } else {
            28
        }
    } else if month == 4 || month == 6 || month == 9 || month == 11 {
        30
    } else {
        31
    }
}

/// Fields that `DateTime::from_date_and_time` of the zip crate accepts.
pub open spec fn zip_parts_accepted(p: ZipTimeParts) -> bool {
    &&& 1980 <= p.year <= 2107
    &&& 1 <= p.month <= 12
    &&& 1 <= p.day <= zip_month_days(p.year, p.month)
    &&& p.hour <= 23
    &&& p.minute <= 59
    &&& p.second <= 60
}

/// The fields a ZIP timestamp holds, as the getters of the zip crate read
/// them from its two packed words (`year`, `month`, `day`, `hour`, `minute`,
/// `second`).
pub uninterp spec fn zip_time_fields(time: DateTime) -> ZipTimeParts;

/// Whether a ZIP timestamp can be written to an archive, as
/// `DateTime::is_valid` of the zip crate tells.
pub uninterp spec fn zip_time_valid(time: DateTime) -> bool;

/// The fields a timestamp made from `p` holds: the zip crate clamps the
/// second to 58 and stores it in units of two seconds.
pub open spec fn zip_stored_parts(p: ZipTimeParts) -> ZipTimeParts {
    ZipTimeParts { second: ((if p.second > 58 { 58 } else { p.second }) / 2 * 2) as u8, ..p }
}

/// `DateTime::from_date_and_time` of the zip crate: a timestamp exactly when
/// the fields are in range and the day exists in its month; it holds the
/// fields given, the second clamped to 58 and rounded down to even, and it
/// is valid.
#[verifier::external_body]
fn zip_datetime_from_parts(p: ZipTimeParts) -> (r: Option<DateTime>)
    ensures
        r is Some <==> zip_parts_accepted(p),
        r matches Some(t) ==> zip_time_fields(t) == zip_stored_parts(p) && zip_time_valid(t),
{
    DateTime::from_date_and_time(p.year, p.month, p.day, p.hour, p.minute, p.second).ok()
}

/// The ZIP timestamp of a time, when its year fits and the zip crate accepts
/// its fields; it holds those fields, the second stored in units of two.
pub fn zip_datetime_from_unix_time(time: UnixTime) -> (r: Option<DateTime>)
    ensures
        r is Some <==> (spec_zip_parts(time) matches Some(p) && zip_parts_accepted(p)),
        r matches Some(t) ==> (spec_zip_parts(time) matches Some(p) && zip_time_fields(t) == zip_stored_parts(p))
            && zip_time_valid(t),
{
    match zip_parts_from_unix_time(time) {
        Some(parts) => zip_datetime_from_parts(parts),
        None => None,
    }
}

/// `DateTime::is_valid` of the zip crate: whether the timestamp can be
/// written to an archive, which is whether `from_date_and_time` accepts the
/// fields its getters read.
#[verifier::external_body]
fn zip_datetime_is_valid(time: &DateTime) -> (r: bool)
    ensures
        r == zip_time_valid(*time),
        r == zip_parts_accepted(zip_time_fields(*time)),
{
    time.is_valid()
}

/// The fields of a ZIP timestamp, read with the getters of the zip crate
/// (`year`, `month`, `day`, `hour`, `minute`, `second`); each getter reads a
/// bit field, which bounds it as stated.
#[verifier::external_body]
fn zip_datetime_parts(time: &DateTime) -> (r: ZipTimeParts)
    ensures
        r == zip_time_fields(*time),
        1980 <= r.year <= 2107,
        r.month <= 15,
        r.day <= 31,
        r.hour <= 31,
        r.minute <= 63,
        r.second <= 62,
{
    ZipTimeParts {
        year: time.year(),
        month: time.month(),
        day: time.day(),
        hour: time.hour(),
        minute: time.minute(),
        second: time.second(),
    }
}

/// The time a valid ZIP timestamp stands for, read as UTC.
pub open spec fn spec_unix_time_of_parts(p: ZipTimeParts) -> Option<UnixTime> {
    if 1 <= p.month <= 12 && 1 <= p.day <= 31 {
        let days = days_of_civil(p.year as int, p.month as int, p.day as int);
        Some(
            UnixTime {
                seconds: (days * 86_400 + p.hour * 3_600 + p.minute * 60 + p.second) as i64,
                nanos: 0,
            },
        )
    } else {
        None
    }
}

/// The time of the fields of a ZIP timestamp; `None` for a month or day out
/// of range.
pub fn unix_time_from_zip_parts(p: ZipTimeParts) -> (r: Option<UnixTime>)
    requires
        1980 <= p.year <= 2107,
    ensures
        r == spec_unix_time_of_parts(p),
{
    let days = match days_from_civil(p.year as i32, p.month as u32, p.day as u32) {
        Some(d) => d,
        None => {
            return None;
        },
    };
    proof {
        lemma_days_of_civil_bounds(p.year as int, p.month as int, p.day as int);
    }
    let seconds = days * 86_400 + (p.hour as i64) * 3_600 + (p.minute as i64) * 60 + (p.second as i64);
    Some(UnixTime { seconds, nanos: 0 })
}

proof fn lemma_days_of_civil_bounds(year: int, month: int, day: int)
    requires
        1980 <= year <= 2107,
        1 <= month <= 12,
        1 <= day <= 31,
    ensures
        0 <= days_of_civil(year, month, day) <= 60_000,
{
    let y = if month <= 2 { year - 1 } else { year };
    assert(y / 400 == 4 || y / 400 == 5);
    let mp = if month > 2 { month - 3 } else { month + 9 };
    assert(0 <= mp <= 11);
}

/// The time a ZIP timestamp stands for: `None` when the zip crate finds it
/// invalid, otherwise the time of the fields its getters read.
pub fn zip_datetime_to_unix_time(time: &DateTime) -> (r: Option<UnixTime>)
    ensures
        r == (if zip_time_valid(*time) {
            spec_unix_time_of_parts(zip_time_fields(*time))
        } else {
            None
        }),
{
    if !zip_datetime_is_valid(time) {
        return None;
    }
    unix_time_from_zip_parts(zip_datetime_parts(time))
}

// ---------------------------------------------------------------------------
// What is written for each entry
// ---------------------------------------------------------------------------

/// How a ZIP entry is written: whether it needs the large-file format, its
/// permission bits, and its timestamp if it has one that fits.
pub struct ZipEntrySettings {
    pub large_file: bool,
    pub unix_permissions: u32,
    pub modified: Option<DateTime>,
}

/// The settings a planned entry is written to a ZIP archive with.
pub fn zip_entry_settings(entry: &ArchiveEntry) -> (r: ZipEntrySettings)
    ensures
        r.large_file <==> entry.kind == EntryKind::File && entry.size >= u32::MAX,
        r.unix_permissions == (match entry.snapshot.mode {
            Some(m) => m,
            None => spec_default_mode(entry.kind),
        }),
        r.modified is Some <==> (entry.snapshot.modified matches Some(t) && (spec_zip_parts(t) matches Some(p)
            && zip_parts_accepted(p))),
{
    let modified = match entry.snapshot.modified {
        Some(t) => zip_datetime_from_unix_time(t),
        None => None,
    };
    ZipEntrySettings {
        large_file: entry.kind == EntryKind::File && entry.size >= u32::MAX as u64,
        unix_permissions: entry_mode(entry),
        modified,
    }
}

/// The whole seconds a tar header records of a time not before the epoch.
pub open spec fn recorded_tar_mtime(modified: Option<UnixTime>) -> Option<u64> {
    match modified {
        Some(t) => if t.seconds >= 0 {
            Some(t.seconds as u64)
        } else {
            None
        },
        None => None,
    }
}

/// The modification time written to a tar header: the source's, in whole
/// seconds, when it is not before the epoch.
pub fn tar_mtime(entry: &ArchiveEntry) -> (r: Option<u64>)
    ensures
        r == recorded_tar_mtime(entry.snapshot.modified),
{
    match entry.snapshot.modified {
        Some(t) => if t.seconds >= 0 {
            Some(t.seconds as u64)
        } else {
            None
        },
        None => None,
    }
}

/// The name a directory entry is written under in a ZIP archive: its path
/// with a trailing slash.
pub fn zip_directory_name(archive_path: &str) -> (r: String)
    ensures
        r@ == archive_path@.push('/'),
{
    let mut name = archive_path.to_owned();
    push_char(&mut name, '/');
    name
}

/// The target a symlink entry is written with; `Security` when the plan has
/// none.
pub fn required_symlink_target(entry: &ArchiveEntry) -> (r: Result<&String, ArcaError>)
    ensures
        r is Ok <==> entry.symlink_target is Some,
        r matches Ok(t) ==> entry.symlink_target == Some(*t),
        r matches Err(e) ==> e is Security && error_detail(e) == "missing symlink target"@,
{
    match &entry.symlink_target {
        Some(target) => Ok(target),
        None => Err(ArcaError::Security("missing symlink target".to_owned())),
    }
}

// ---------------------------------------------------------------------------
// Splitting work between workers
// ---------------------------------------------------------------------------

/// How many work items each worker takes: the items divided by the workers,
/// rounded up.
pub fn worker_chunk_size(items: usize, workers: usize) -> (r: usize)
    requires
        workers >= 1,
    ensures
        r * workers >= items,
        items > 0 ==> r >= 1 && (r - 1) * workers < items,
        items == 0 ==> r == 0,
{
    let q = items / workers;
    proof {
        if items % workers != 0 {
            assert(workers >= 2);
            assert(q <= items / 2) by (nonlinear_arith)
                requires
                    workers >= 2,
                    q == items / workers,
            ;
        }
    }
    let r = if items % workers == 0 {
        q
    } else {
        q + 1
    };
    proof {
        assert(q * workers + items % workers == items) by (nonlinear_arith)
            requires
                workers >= 1,
                q == items / workers,
        ;
        assert(0 <= items % workers < workers) by (nonlinear_arith)
            requires
                workers >= 1,
        ;
        assert(r * workers >= items) by (nonlinear_arith)
            requires
                q * workers + items % workers == items,
                0 <= items % workers < workers,
                r == (if items % workers == 0 { q as int } else { q + 1 }),
        ;
        if items > 0 {
            assert(r >= 1 && (r - 1) * workers < items) by (nonlinear_arith)
                requires
                    items > 0,
                    workers >= 1,
                    q * workers + items % workers == items,
                    0 <= items % workers < workers,
                    r == (if items % workers == 0 { q as int } else { q + 1 }),
            ;
        }
    }
    r
}

/// The sum of the sizes of the planned files, saturating at `u64::MAX`.
pub open spec fn file_bytes_upto(entries: Seq<ArchiveEntry>, n: int) -> int
    decreases n,
{
    if n <= 0 {
        0
    } else {
        let prev = file_bytes_upto(entries, n - 1);
        let add = if entries[n - 1].kind == EntryKind::File { entries[n - 1].size as int } else { 0 };
        if prev + add > u64::MAX {
            u64::MAX as int
        } else {
            prev + add
        }
    }
}

/// The total size of the planned files that workers compress, saturating.
pub fn total_file_bytes(entries: &Vec<ArchiveEntry>) -> (r: u64)
    ensures
        r == file_bytes_upto(entries@, entries@.len() as int),
{
    let mut total: u64 = 0;
    let mut i: usize = 0;
    while i < entries.len()
        invariant
            i <= entries.len(),
            total == file_bytes_upto(entries@, i as int),
        decreases entries.len() - i,
    {
        if entries[i].kind == EntryKind::File {
            total = total.saturating_add(entries[i].size);
        }
        i = i + 1;
    }
    total
}

/// The date and time fields of a ZIP timestamp, taken from a time whose
/// year fits, turn back into the same whole second.
pub proof fn law_zip_parts_round_trip(time: UnixTime)
    requires
        spec_zip_parts(time) is Some,
    ensures
        spec_unix_time_of_parts(spec_zip_parts(time)->Some_0) == Some(UnixTime { seconds: time.seconds, nanos: 0 }),
{
    let days = time.seconds / 86_400;
    let sod = time.seconds % 86_400;
    let p = spec_zip_parts(time)->Some_0;
    crate::time::law_days_civil_roundtrip(days);
    crate::time::lemma_civil_ranges(days);
    assert(0 <= sod < 86_400);
    assert(time.seconds == days * 86_400 + sod);
    let h = sod / 3_600;
    let mi = (sod % 3_600) / 60;
    let se = sod % 60;
    assert(sod == h * 3_600 + mi * 60 + se) by {
        assert(sod % 3_600 == mi * 60 + (sod % 3_600) % 60);
        assert((sod % 3_600) % 60 == sod % 60);
    }
    assert(p.hour == h && p.minute == mi && p.second == se);
}

/// The time a tar header records for an entry reads back as that time in
/// whole seconds, for every time not before the epoch.
pub proof fn law_tar_time_round_trip(modified: Option<UnixTime>)
    ensures
        match modified {
            Some(t) => t.seconds >= 0 ==> tar_modified(recorded_tar_mtime(modified)) == Some(
                UnixTime { seconds: t.seconds, nanos: 0 },
            ),
            None => true,
        },
{
}

/// The permission bits written for an entry read back unchanged: the mode
/// an entry is written with, when it has no bits above the permission bits,
/// is what the scan of the archive records (as the defaults always are).
pub proof fn law_mode_round_trip(mode: u32, kind: EntryKind)
    ensures
        mode <= 0o777 ==> permission_bits(Some(mode)) == Some(mode),
        permission_bits(Some(spec_default_mode(kind))) == Some(spec_default_mode(kind)),
{
    assert(mode <= 0o777 ==> mode & 0x1ff == mode) by (bit_vector);
    assert(0o644u32 & 0x1ff == 0o644u32) by (bit_vector);
    assert(0o755u32 & 0x1ff == 0o755u32) by (bit_vector);
    assert(0o777u32 & 0x1ff == 0o777u32) by (bit_vector);
}

/// The fields of a ZIP timestamp that the zip crate accepts, with a second
/// below 60, turn into a time whose fields are those again.
pub proof fn law_zip_time_round_trip(p: ZipTimeParts)
    requires
        zip_parts_accepted(p),
        p.second <= 59,
    ensures
        spec_unix_time_of_parts(p) matches Some(t) && spec_zip_parts(t) == Some(p),
{
    let year = p.year as int;
    let month = p.month as int;
    let day = p.day as int;
    assert(zip_month_days(p.year, p.month) == crate::time::civil_days_in_month(year, month));
    crate::time::law_civil_days_roundtrip(year, month, day);
    lemma_days_of_civil_bounds(year, month, day);
    let days = days_of_civil(year, month, day);
    let sod = p.hour * 3_600 + p.minute * 60 + p.second;
    assert(0 <= sod < 86_400);
    let seconds = days * 86_400 + sod;
    assert(0 <= seconds <= i64::MAX);
    let t = spec_unix_time_of_parts(p)->0;
    assert(t.seconds == seconds);
    vstd::arithmetic::div_mod::lemma_fundamental_div_mod_converse(seconds, 86_400, days, sod);
    vstd::arithmetic::div_mod::lemma_fundamental_div_mod_converse(sod, 3_600, p.hour as int, p.minute * 60 + p.second);
    vstd::arithmetic::div_mod::lemma_fundamental_div_mod_converse(p.minute * 60 + p.second, 60, p.minute as int, p.second as int);
    vstd::arithmetic::div_mod::lemma_fundamental_div_mod_converse(sod, 60, p.hour * 60 + p.minute, p.second as int);
}

} // verus!
