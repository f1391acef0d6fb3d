use vstd::prelude::*;

use crate::archive::EntryKind;
use crate::error::{error_detail, ArcaError};
use crate::text::{chars_of, concat_decimal, concat_str, decimal_string, decimal_text};

verus! {

broadcast use vstd::string::group_string_axioms;

pub const DEFAULT_MAX_ARCHIVE_ENTRIES: usize = 200000;
pub const DEFAULT_MAX_ENTRY_UNPACKED_BYTES: u64 = 17179869184;
pub const DEFAULT_MAX_TOTAL_UNPACKED_BYTES: u64 = 68719476736;
pub const DEFAULT_MAX_COMPRESSION_RATIO: u64 = 10000;
pub const DEFAULT_MAX_SYMLINK_TARGET_BYTES: u64 = 16384;

/// Zip-bomb guardrails applied before archive payloads are trusted.
#[derive(Debug, Clone, Copy, PartialEq, Eq, Structural)]
pub struct ResourceLimits {
    pub max_entries: usize,
    pub max_entry_unpacked_bytes: u64,
    pub max_total_unpacked_bytes: u64,
    pub max_compression_ratio: u64,
    pub max_symlink_target_bytes: u64,
}

/// `compressed * ratio`, saturated at `u64::MAX`.
pub open spec fn saturating_product(compressed: u64, ratio: u64) -> int {
    if compressed * ratio > u64::MAX {
        u64::MAX as int
    } else {
        compressed * ratio
    }
}

/// The compression ratio of an entry is acceptable: empty payloads always are;
/// otherwise the packed size is non-zero and the unpacked size is at most
/// `ratio` times the packed size (the product saturating at `u64::MAX`).
pub open spec fn ratio_ok(uncompressed: u64, compressed: u64, ratio: u64) -> bool {
    uncompressed == 0 || (compressed != 0 && uncompressed <= saturating_product(compressed, ratio))
}

fn security_at(what: &str, path: &str) -> (r: ArcaError)
    ensures
        r is Security && error_detail(r) == what@ + path@,
{
    ArcaError::Security(concat_str(what, path))
}

/// The text of a refusal for a value above its limit: what was exceeded,
/// then `": "`, the value, `" > "` and the limit in decimal.
pub open spec fn over_limit_text(what: Seq<char>, value: Seq<char>, limit: u64) -> Seq<char> {
    what + ": "@ + value + " > "@ + decimal_text(limit as nat)
}

fn over_limit(what: String, value: String, limit: u64) -> (r: ArcaError)
    ensures
        r is Security && error_detail(r) == over_limit_text(what@, value@, limit),
{
    let head = concat_str(what.as_str(), ": ");
    let head = concat_str(head.as_str(), value.as_str());
    let head = concat_str(head.as_str(), " > ");
    ArcaError::Security(concat_decimal(head.as_str(), limit))
}

impl ResourceLimits {
    /// The documented default limits.
    pub fn defaults() -> (r: ResourceLimits)
        ensures
            r.max_entries == DEFAULT_MAX_ARCHIVE_ENTRIES,
            r.max_entry_unpacked_bytes == DEFAULT_MAX_ENTRY_UNPACKED_BYTES,
            r.max_total_unpacked_bytes == DEFAULT_MAX_TOTAL_UNPACKED_BYTES,
            r.max_compression_ratio == DEFAULT_MAX_COMPRESSION_RATIO,
            r.max_symlink_target_bytes == DEFAULT_MAX_SYMLINK_TARGET_BYTES,
    {
        ResourceLimits {
            max_entries: DEFAULT_MAX_ARCHIVE_ENTRIES,
            max_entry_unpacked_bytes: DEFAULT_MAX_ENTRY_UNPACKED_BYTES,
            max_total_unpacked_bytes: DEFAULT_MAX_TOTAL_UNPACKED_BYTES,
            max_compression_ratio: DEFAULT_MAX_COMPRESSION_RATIO,
            max_symlink_target_bytes: DEFAULT_MAX_SYMLINK_TARGET_BYTES,
        }
    }

    /// Refuses more entries than the limit.
    pub fn check_entry_count(self, entries: usize) -> (r: Result<(), ArcaError>)
        ensures
            r is Ok <==> entries <= self.max_entries,
            r matches Err(e) ==> e is Security && error_detail(e) == over_limit_text(
                "archive entry count limit exceeded"@,
                decimal_text(entries as nat),
                self.max_entries as u64,
            ),
    {
        if entries > self.max_entries {
            return Err(
                over_limit(
                    "archive entry count limit exceeded".to_owned(),
                    decimal_string(entries as u64),
                    self.max_entries as u64,
                ),
            );
        }
        Ok(())
    }

    /// Refuses an entry larger than the per-entry limit.
    pub fn check_entry_size(self, path: &str, size: u64) -> (r: Result<(), ArcaError>)
        ensures
            r is Ok <==> size <= self.max_entry_unpacked_bytes,
            r matches Err(e) ==> e is Security && error_detail(e) == over_limit_text(
                "archive entry size limit exceeded for "@ + path@,
                decimal_text(size as nat),
                self.max_entry_unpacked_bytes,
            ),
    {
        if size > self.max_entry_unpacked_bytes {
            return Err(
                over_limit(
                    concat_str("archive entry size limit exceeded for ", path),
                    decimal_string(size),
                    self.max_entry_unpacked_bytes,
                ),
            );
        }
        Ok(())
    }

    /// Adds an entry's size to the running total, refusing overflow and totals
    /// above the limit.
    pub fn add_total(self, current: u64, path: &str, size: u64) -> (r: Result<u64, ArcaError>)
        ensures
            r is Ok <==> current + size <= u64::MAX && current + size
                <= self.max_total_unpacked_bytes,
            r matches Ok(total) ==> total == current + size,
            r matches Err(e) ==> e is Security && error_detail(e) == (if current + size > u64::MAX {
                "archive unpacked size overflow at "@ + path@
            } else {
                over_limit_text(
                    "archive unpacked size limit exceeded at "@ + path@,
                    decimal_text((current + size) as nat),
                    self.max_total_unpacked_bytes,
                )
            }),
    {
        let total = match current.checked_add(size) {
            Some(total) => total,
            None => {
                return Err(security_at("archive unpacked size overflow at ", path));
            },
        };
        if total > self.max_total_unpacked_bytes {
            return Err(
                over_limit(
                    concat_str("archive unpacked size limit exceeded at ", path),
                    decimal_string(total),
                    self.max_total_unpacked_bytes,
                ),
            );
        }
        Ok(total)
    }

    /// Refuses payloads that unpack to more than `max_compression_ratio` times
    /// their packed size, and non-empty payloads with an empty packed size.
    pub fn check_compression_ratio(self, path: &str, uncompressed: u64, compressed: u64) -> (r: Result<(), ArcaError>)
        ensures
            r is Ok <==> ratio_ok(uncompressed, compressed, self.max_compression_ratio),
            r matches Err(e) ==> e is Security && error_detail(e) == over_limit_text(
                "archive compression ratio limit exceeded for "@ + path@,
                decimal_text(uncompressed as nat) + "/"@ + decimal_text(compressed as nat),
                self.max_compression_ratio,
            ),
    {
        if uncompressed == 0 {
            return Ok(());
        }
        let product = match compressed.checked_mul(self.max_compression_ratio) {
            Some(p) => p,
            None => u64::MAX,
        };
        if compressed == 0 || uncompressed > product {
            let ratio = concat_str(decimal_string(uncompressed).as_str(), "/");
            let ratio = concat_str(ratio.as_str(), decimal_string(compressed).as_str());
            return Err(
                over_limit(
                    concat_str("archive compression ratio limit exceeded for ", path),
                    ratio,
                    self.max_compression_ratio,
                ),
            );
        }
        Ok(())
    }

    /// Refuses symlink targets longer than the limit.
    pub fn check_symlink_target_size(self, path: &str, size: u64) -> (r: Result<(), ArcaError>)
        ensures
            r is Ok <==> size <= self.max_symlink_target_bytes,
            r matches Err(e) ==> e is Security && error_detail(e) == over_limit_text(
                "symlink target size limit exceeded for "@ + path@,
                decimal_text(size as nat),
                self.max_symlink_target_bytes,
            ),
    {
        if size > self.max_symlink_target_bytes {
            return Err(
                over_limit(
                    concat_str("symlink target size limit exceeded for ", path),
                    decimal_string(size),
                    self.max_symlink_target_bytes,
                ),
            );
        }
        Ok(())
    }
}

/// The per-entry limits an archive entry of this kind and size meets:
/// directories always, symlinks when their target and size fit, files when
/// their size fits.
pub open spec fn entry_limits_ok(limits: ResourceLimits, kind: EntryKind, size: u64) -> bool {
    kind == EntryKind::Directory || ((kind == EntryKind::Symlink ==> size <= limits.max_symlink_target_bytes) && size
        <= limits.max_entry_unpacked_bytes)
}

/// Which per-entry limit applies depends on the kind: a directory passes
/// whatever its size; a regular file passes exactly when it is at most the
/// per-entry limit, which is all that bounds it; a symlink also needs its
/// target within the symlink target limit.
pub proof fn law_entry_limits_by_kind(limits: ResourceLimits, size: u64)
    ensures
        entry_limits_ok(limits, EntryKind::Directory, size),
        entry_limits_ok(limits, EntryKind::File, size) <==> size <= limits.max_entry_unpacked_bytes,
        entry_limits_ok(limits, EntryKind::Symlink, size) <==> size <= limits.max_symlink_target_bytes && size
            <= limits.max_entry_unpacked_bytes,
{
}

/// Applies the per-entry limits to a scanned entry (`Security` when one is
/// exceeded).
pub fn check_scanned_entry_limits(path: &str, kind: EntryKind, size: u64, limits: ResourceLimits) -> (r: Result<(), ArcaError>)
    ensures
        r is Ok <==> entry_limits_ok(limits, kind, size),
        kind == EntryKind::File ==> (r is Ok <==> size <= limits.max_entry_unpacked_bytes),
        kind == EntryKind::Directory ==> r is Ok,
        r matches Err(e) ==> e is Security && error_detail(e) == (if kind == EntryKind::Symlink && size
            > limits.max_symlink_target_bytes {
            over_limit_text(
                "symlink target size limit exceeded for "@ + path@,
                decimal_text(size as nat),
                limits.max_symlink_target_bytes,
            )
        } else {
            over_limit_text(
                "archive entry size limit exceeded for "@ + path@,
                decimal_text(size as nat),
                limits.max_entry_unpacked_bytes,
            )
        }),
{
    if kind == EntryKind::Directory {
        return Ok(());
    }
    if kind == EntryKind::Symlink {
        limits.check_symlink_target_size(path, size)?;
    }
    limits.check_entry_size(path, size)
}

// ---------------------------------------------------------------------------
// Limits from environment settings
// ---------------------------------------------------------------------------

/// The state of one environment variable.
#[derive(Debug, Clone, PartialEq, Eq)]
pub enum EnvSetting {
    NotPresent,
    NotUnicode,
    Value(String),
}

pub open spec fn is_digit(c: char) -> bool {
    '0' <= c && c <= '9'
}

pub open spec fn digit_value(c: char) -> int {
    (c as u32) - ('0' as u32)
}

/// The number written by a sequence of decimal digits.
pub open spec fn digits_value(s: Seq<char>) -> int
    decreases s.len(),
{
    if s.len() == 0 {
        0
    } else {
        digits_value(s.drop_last()) * 10 + digit_value(s.last())
    }
}

/// The digits after an optional leading `+`.
pub open spec fn unsigned_digits(s: Seq<char>) -> Seq<char> {
    if s.len() > 0 && s[0] == '+' {
        s.drop_first()
    } else {
        s
    }
}

/// What `str::parse::<u64>` accepts: an optional `+`, then one or more
/// decimal digits whose value fits in `u64`.
pub open spec fn spec_parse_u64(s: Seq<char>) -> Option<u64> {
    let d = unsigned_digits(s);
    if d.len() > 0 && (forall|i: int| 0 <= i < d.len() ==> is_digit(#[trigger] d[i]))
        && digits_value(d) <= u64::MAX {
        Some(digits_value(d) as u64)
    } else {
        None
    }
}

proof fn lemma_digits_value_monotone(s: Seq<char>)
    requires
        forall|i: int| 0 <= i < s.len() ==> is_digit(#[trigger] s[i]),
    ensures
        digits_value(s) >= 0,
    decreases s.len(),
{
    if s.len() > 0 {
        lemma_digits_value_monotone(s.drop_last());
    }
}

proof fn lemma_digits_value_grows(s: Seq<char>, k: int)
    requires
        0 <= k <= s.len(),
        forall|i: int| 0 <= i < s.len() ==> is_digit(#[trigger] s[i]),
    ensures
        digits_value(s.take(k)) <= digits_value(s),
    decreases s.len() - k,
{
    if k < s.len() {
        lemma_digits_value_grows(s, k + 1);
        assert(s.take(k + 1).drop_last() == s.take(k));
        lemma_digits_value_monotone(s.take(k));
    } else {
        assert(s.take(k) == s);
    }
}

fn usage_value(name: &str) -> (r: ArcaError)
    ensures
        r is Usage && error_detail(r) == name@ + " must be a positive integer"@,
{
    ArcaError::Usage(concat_str(name, " must be a positive integer"))
}

/// Reads a `u64` as `str::parse` does: an optional `+`, then decimal digits
/// whose value fits.
pub fn parse_u64(value: &str) -> (r: Option<u64>)
    ensures
        r == spec_parse_u64(value@),
{
    let chars = chars_of(value);
    let start: usize = if chars.len() > 0 && chars[0] == '+' {
        1
    } else {
        0
    };
    let ghost d = unsigned_digits(value@);
    assert(d == chars@.skip(start as int));
    if start >= chars.len() {
        return None;
    }
    let mut acc: u64 = 0;
    let mut i: usize = start;
    while i < chars.len()
        invariant
            chars@ == value@,
            d == chars@.skip(start as int),
            d == unsigned_digits(value@),
            start <= i <= chars.len(),
            forall|k: int| 0 <= k < i - start ==> is_digit(#[trigger] d[k]),
            acc == digits_value(d.take(i - start)),
        decreases chars.len() - i,
    {
        let c = chars[i];
        assert(d[i - start] == c);
        if c < '0' || c > '9' {
            assert(!is_digit(d[i - start]));
            return None;
        }
        let digit = (c as u32 - '0' as u32) as u64;
        assert(d.take(i + 1 - start).drop_last() == d.take(i - start));
        let next = match acc.checked_mul(10) {
            Some(t) => t.checked_add(digit),
            None => None,
        };
        match next {
            Some(v) => {
                acc = v;
            },
            None => {
                proof {
                    assert(digits_value(d.take(i + 1 - start)) == acc * 10 + digit);
                    assert(acc * 10 + digit > u64::MAX);
                    assert forall|k: int| 0 <= k < i + 1 - start implies is_digit(#[trigger] d[k]) by {
                    }
                    if forall|k: int| 0 <= k < d.len() ==> is_digit(#[trigger] d[k]) {
                        lemma_digits_value_grows(d, i + 1 - start);
                    }
                }
                return None;
            },
        }
        i = i + 1;
    }
    assert(d.take(chars.len() - start) == d);
    Some(acc)
}

/// Parses a limit: a `u64` as `str::parse` reads it, and not zero.
pub fn parse_positive_u64(name: &str, value: &str) -> (r: Result<u64, ArcaError>)
    ensures
        r is Ok <==> (spec_parse_u64(value@) matches Some(v) && v > 0),
        r matches Ok(v) ==> spec_parse_u64(value@) == Some(v),
        r matches Err(e) ==> e is Usage && error_detail(e) == name@ + " must be a positive integer"@,
{
    match parse_u64(value) {
        Some(v) => if v == 0 {
            Err(usage_value(name))
        } else {
            Ok(v)
        },
        None => Err(usage_value(name)),
    }
}

/// A `u64` limit from its environment setting: the default when unset.
pub fn limit_u64(name: &str, setting: &EnvSetting, default: u64) -> (r: Result<u64, ArcaError>)
    ensures
        match setting {
            EnvSetting::NotPresent => r == Ok::<u64, ArcaError>(default),
            EnvSetting::NotUnicode => r matches Err(e) && e is Usage && error_detail(e) == name@
                + " must be valid UTF-8"@,
            EnvSetting::Value(v) => (r is Ok <==> (spec_parse_u64(v@) matches Some(n) && n > 0))
                && (r matches Ok(n) ==> spec_parse_u64(v@) == Some(n)) && (r matches Err(e) ==> error_detail(e)
                == name@ + " must be a positive integer"@),
        },
        r matches Err(e) ==> e is Usage,
{
    match setting {
        EnvSetting::NotPresent => Ok(default),
        EnvSetting::NotUnicode => Err(ArcaError::Usage(concat_str(name, " must be valid UTF-8"))),
        EnvSetting::Value(v) => parse_positive_u64(name, v.as_str()),
    }
}

/// A `usize` limit from its environment setting: the default when unset, and
/// `Usage` when the value does not fit this platform's `usize`.
pub fn limit_usize(name: &str, setting: &EnvSetting, default: usize) -> (r: Result<usize, ArcaError>)
    ensures
        match setting {
            EnvSetting::NotPresent => r == Ok::<usize, ArcaError>(default),
            EnvSetting::NotUnicode => r matches Err(e) && e is Usage && error_detail(e) == name@
                + " must be valid UTF-8"@,
            EnvSetting::Value(v) => (r is Ok <==> (spec_parse_u64(v@) matches Some(n) && n > 0
                && n <= usize::MAX)) && (r matches Ok(n) ==> spec_parse_u64(v@) == Some(
                n as u64,
            )) && (r matches Err(e) ==> error_detail(e) == name@ + (if spec_parse_u64(v@) matches Some(n) && n > 0 {
                " is too large for this platform"@
            } else {
                " must be a positive integer"@
            })),
        },
        r matches Err(e) ==> e is Usage,
{
    match setting {
        EnvSetting::NotPresent => Ok(default),
        EnvSetting::NotUnicode => Err(ArcaError::Usage(concat_str(name, " must be valid UTF-8"))),
        EnvSetting::Value(v) => {
            let parsed = parse_positive_u64(name, v.as_str())?;
            if parsed > usize::MAX as u64 {
                return Err(
                    ArcaError::Usage(concat_str(name, " is too large for this platform")),
                );
            }
            Ok(parsed as usize)
        },
    }
}

/// A setting a limit accepts: unset, or a `u64` above zero (as `str::parse`
/// reads it) that is at most `max`.
pub open spec fn setting_ok(setting: EnvSetting, max: u64) -> bool {
    match setting {
        EnvSetting::NotPresent => true,
        EnvSetting::NotUnicode => false,
        EnvSetting::Value(v) => spec_parse_u64(v@) matches Some(n) && n > 0 && n <= max,
    }
}

/// The limit an accepted setting gives: its value, or the default when unset.
pub open spec fn setting_value(setting: EnvSetting, default: u64) -> u64 {
    match setting {
        EnvSetting::Value(v) => spec_parse_u64(v@)->0,
        _ => default,
    }
}

/// The message refusing a setting of the variable `name`.
pub open spec fn setting_refusal(name: Seq<char>, setting: EnvSetting) -> Seq<char> {
    match setting {
        EnvSetting::Value(v) => if spec_parse_u64(v@) matches Some(n) && n > 0 {
            name + " is too large for this platform"@
        } else {
            name + " must be a positive integer"@
        },
        _ => name + " must be valid UTF-8"@,
    }
}

impl ResourceLimits {
    /// The limits given by the settings of `ARCA_MAX_ENTRIES`,
    /// `ARCA_MAX_ENTRY_UNPACKED_BYTES`, `ARCA_MAX_UNPACKED_BYTES`,
    /// `ARCA_MAX_COMPRESSION_RATIO` and `ARCA_MAX_SYMLINK_TARGET_BYTES`,
    /// each falling back to its default when unset.
    pub fn from_settings(
        entries: &EnvSetting,
        entry_bytes: &EnvSetting,
        total_bytes: &EnvSetting,
        ratio: &EnvSetting,
        symlink_bytes: &EnvSetting,
    ) -> (r: Result<ResourceLimits, ArcaError>)
        ensures
            r is Ok <==> setting_ok(*entries, usize::MAX as u64) && setting_ok(*entry_bytes, u64::MAX) && setting_ok(
                *total_bytes,
                u64::MAX,
            ) && setting_ok(*ratio, u64::MAX) && setting_ok(*symlink_bytes, u64::MAX),
            r matches Ok(l) ==> {
                &&& l.max_entries as u64 == setting_value(*entries, DEFAULT_MAX_ARCHIVE_ENTRIES as u64)
                &&& l.max_entry_unpacked_bytes == setting_value(*entry_bytes, DEFAULT_MAX_ENTRY_UNPACKED_BYTES)
                &&& l.max_total_unpacked_bytes == setting_value(*total_bytes, DEFAULT_MAX_TOTAL_UNPACKED_BYTES)
                &&& l.max_compression_ratio == setting_value(*ratio, DEFAULT_MAX_COMPRESSION_RATIO)
                &&& l.max_symlink_target_bytes == setting_value(*symlink_bytes, DEFAULT_MAX_SYMLINK_TARGET_BYTES)
            },
            r matches Err(e) ==> error_detail(e) == (if !setting_ok(*entries, usize::MAX as u64) {
                setting_refusal("ARCA_MAX_ENTRIES"@, *entries)
            } else if !setting_ok(*entry_bytes, u64::MAX) {
                setting_refusal("ARCA_MAX_ENTRY_UNPACKED_BYTES"@, *entry_bytes)
            } else if !setting_ok(*total_bytes, u64::MAX) {
                setting_refusal("ARCA_MAX_UNPACKED_BYTES"@, *total_bytes)
            } else if !setting_ok(*ratio, u64::MAX) {
                setting_refusal("ARCA_MAX_COMPRESSION_RATIO"@, *ratio)
            } else {
                setting_refusal("ARCA_MAX_SYMLINK_TARGET_BYTES"@, *symlink_bytes)
            }),
            r matches Err(e) ==> e is Usage,
    {
        Ok(ResourceLimits {
            max_entries: limit_usize("ARCA_MAX_ENTRIES", entries, DEFAULT_MAX_ARCHIVE_ENTRIES)?,
            max_entry_unpacked_bytes: limit_u64(
                "ARCA_MAX_ENTRY_UNPACKED_BYTES",
                entry_bytes,
                DEFAULT_MAX_ENTRY_UNPACKED_BYTES,
            )?,
            max_total_unpacked_bytes: limit_u64(
                "ARCA_MAX_UNPACKED_BYTES",
                total_bytes,
                DEFAULT_MAX_TOTAL_UNPACKED_BYTES,
            )?,
            max_compression_ratio: limit_u64(
                "ARCA_MAX_COMPRESSION_RATIO",
                ratio,
                DEFAULT_MAX_COMPRESSION_RATIO,
            )?,
            max_symlink_target_bytes: limit_u64(
                "ARCA_MAX_SYMLINK_TARGET_BYTES",
                symlink_bytes,
                DEFAULT_MAX_SYMLINK_TARGET_BYTES,
            )?,
        })
    }
}

} // verus!
