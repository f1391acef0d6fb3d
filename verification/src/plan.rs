use vstd::prelude::*;
use std::path::PathBuf;
use globset::{GlobSet, GlobSetBuilder};

use crate::archive::EntryKind;
use crate::error::{error_detail, ArcaError};
use crate::policy::{spec_collision_key, valid_archive_path, valid_symlink_target, CollisionSet};
use crate::text::{concat_str, join_with, push_char, str_eq, string_views};
use crate::time::UnixTime;

verus! {

broadcast use vstd::string::group_string_axioms;

/// A file-system path, carried through the library without being inspected.
#[verifier::external_type_specification]
#[verifier::external_body]
pub struct ExPathBuf(PathBuf);

/// `<PathBuf as Clone>::clone` from std: the clone is an equal path.
pub assume_specification[ <PathBuf as Clone>::clone ](p: &PathBuf) -> (r: PathBuf)
    ensures
        r == *p,
;

/// What was observed of an input file when it was planned, to notice later
/// changes. `dev`, `ino` and `changed` are zero where the platform has none.
#[derive(Debug, Clone, Copy, PartialEq, Eq, Structural)]
pub struct SourceSnapshot {
    pub kind: EntryKind,
    pub len: u64,
    pub modified: Option<UnixTime>,
    pub mode: Option<u32>,
    pub dev: u64,
    pub ino: u64,
    pub changed: UnixTime,
}

/// One input planned to become an archive entry.
#[derive(Debug, PartialEq, Eq)]
pub struct ArchiveEntry {
    pub source: PathBuf,
    pub archive_path: String,
    pub kind: EntryKind,
    pub symlink_target: Option<String>,
    pub size: u64,
    pub snapshot: SourceSnapshot,
}

impl Clone for ArchiveEntry {
    fn clone(&self) -> (r: Self)
        ensures
            r == *self,
    {
        let symlink_target = match &self.symlink_target {
            Some(target) => Some(target.clone()),
            None => None,
        };
        ArchiveEntry {
            source: self.source.clone(),
            archive_path: self.archive_path.clone(),
            kind: self.kind,
            symlink_target,
            size: self.size,
            snapshot: self.snapshot,
        }
    }
}

/// One component of a file-system path, as far as archive paths care.
#[derive(Debug, Clone, PartialEq, Eq)]
pub enum PathPart {
    /// A normal component; `None` when it is not valid UTF-8.
    Normal(Option<String>),
    /// `.`
    CurDir,
    /// A root, a prefix or `..`.
    Other,
}

pub open spec fn normal_parts(parts: Seq<PathPart>) -> Seq<Seq<char>>
    decreases parts.len(),
{
    if parts.len() == 0 {
        Seq::<Seq<char>>::empty()
    } else {
        let prev = normal_parts(parts.drop_last());
        match parts.last() {
            PathPart::Normal(Some(s)) => prev.push(s@),
            _ => prev,
        }
    }
}

pub open spec fn parts_all_supported(parts: Seq<PathPart>) -> bool {
    forall|i: int| 0 <= i < parts.len() ==> !(#[trigger] parts[i] is Other)
}

pub open spec fn parts_all_utf8(parts: Seq<PathPart>) -> bool {
    forall|i: int| 0 <= i < parts.len() ==> (#[trigger] parts[i] matches PathPart::Normal(n) ==> n is Some)
}

/// The archive path of a relative file-system path: its normal components
/// joined with `/`, `.` components dropped. A non-UTF-8 component gives
/// `NonUtf8Path`, and a root, prefix or `..` gives `Security`, whichever comes
/// first; a path with no normal component gives `Security`.
pub fn path_to_archive_string(parts: &Vec<PathPart>) -> (r: Result<String, ArcaError>)
    ensures
        r is Ok <==> parts_all_supported(parts@) && parts_all_utf8(parts@) && normal_parts(parts@).len() > 0,
        r matches Ok(s) ==> s@ == join_with(normal_parts(parts@), '/'),
        r matches Err(e) ==> (e is NonUtf8Path && error_detail(e) == "path component"@ && !parts_all_utf8(parts@))
            || (e is Security && error_detail(e) == "unsupported path component"@ && !parts_all_supported(parts@))
            || (e is Security && error_detail(e) == "empty archive path"@ && parts_all_supported(parts@)
            && parts_all_utf8(parts@)),
{
    let mut out = String::new();
    let mut count: usize = 0;
    let mut i: usize = 0;
    while i < parts.len()
        invariant
            i <= parts.len(),
            parts_all_supported(parts@.take(i as int)),
            parts_all_utf8(parts@.take(i as int)),
            count == normal_parts(parts@.take(i as int)).len(),
            count <= i,
            out@ == join_with(normal_parts(parts@.take(i as int)), '/'),
        decreases parts.len() - i,
    {
        assert(parts@.take(i + 1).drop_last() == parts@.take(i as int));
        match &parts[i] {
            PathPart::Normal(Some(s)) => {
                let ghost prev = normal_parts(parts@.take(i as int));
                if count > 0 {
                    push_char(&mut out, '/');
                }
                out.append(s.as_str());
                count = count + 1;
                proof {
                    let now = normal_parts(parts@.take(i + 1));
                    assert(now == prev.push(s@));
                    assert(now.drop_last() == prev);
                    if prev.len() == 0 {
                        assert(now.len() == 1);
                    }
                }
            },
            PathPart::Normal(None) => {
                assert(!parts_all_utf8(parts@)) by {
                    assert(parts@[i as int] matches PathPart::Normal(n) && n is None);
                }
                return Err(ArcaError::NonUtf8Path("path component".to_owned()));
            },
            PathPart::CurDir => {},
            PathPart::Other => {
                assert(!parts_all_supported(parts@)) by {
                    assert(parts@[i as int] is Other);
                }
                return Err(ArcaError::Security("unsupported path component".to_owned()));
            },
        }
        assert(parts_all_supported(parts@.take(i + 1))) by {
            assert forall|k: int| 0 <= k < i + 1 implies !(#[trigger] parts@.take(i + 1)[k] is Other) by {
                if k < i {
                    assert(parts@.take(i + 1)[k] == parts@.take(i as int)[k]);
                }
            }
        }
        assert(parts_all_utf8(parts@.take(i + 1))) by {
            assert forall|k: int| 0 <= k < i + 1 implies (#[trigger] parts@.take(i + 1)[k] matches PathPart::Normal(n) ==> n is Some) by {
                if k < i {
                    assert(parts@.take(i + 1)[k] == parts@.take(i as int)[k]);
                }
            }
        }
        i = i + 1;
    }
    assert(parts@.take(parts.len() as int) == parts@);
    if count == 0 {
        return Err(ArcaError::Security("empty archive path".to_owned()));
    }
    Ok(out)
}

/// The planning decision for one candidate entry: excluded paths are skipped
/// (`Ok(false)`); otherwise the path must pass the archive path policy and not
/// collide with an earlier entry, and is then recorded (`Ok(true)`).
pub fn accept_planned_path(archive_path: &str, excluded: bool, collisions: &mut CollisionSet) -> (r: Result<bool, ArcaError>)
    ensures
        excluded ==> r == Ok::<bool, ArcaError>(false) && final(collisions)@ == old(collisions)@,
        !excluded ==> (r is Ok <==> valid_archive_path(archive_path@) && !old(collisions)@.contains(
            spec_collision_key(archive_path@),
        )),
        !excluded && r is Ok ==> r == Ok::<bool, ArcaError>(true) && final(collisions)@ == old(
            collisions,
        )@.insert(spec_collision_key(archive_path@)),
        r is Err ==> final(collisions)@ == old(collisions)@,
        r matches Err(e) ==> e is Security,
{
    if excluded {
        return Ok(false);
    }
    crate::policy::validate_archive_path(archive_path)?;
    collisions.insert_archive_path(archive_path)?;
    Ok(true)
}

// ---------------------------------------------------------------------------
// Exclude patterns
// ---------------------------------------------------------------------------

/// A compiled set of glob patterns, from the `globset` crate.
#[verifier::external_type_specification]
#[verifier::external_body]
pub struct ExGlobSet(GlobSet);

/// A set of glob patterns being collected, from the `globset` crate.
#[verifier::external_type_specification]
#[verifier::external_body]
pub struct ExGlobSetBuilder(GlobSetBuilder);

/// A pattern or set that `globset` refused.
#[verifier::external_type_specification]
#[verifier::external_body]
pub struct ExGlobError(globset::Error);

/// The pattern texts added to a glob set builder, in order.
pub uninterp spec fn glob_builder_patterns(builder: GlobSetBuilder) -> Seq<Seq<char>>;

/// Whether `globset::Glob::new` accepts a pattern.
pub uninterp spec fn glob_pattern_valid(pattern: Seq<char>) -> bool;

/// Whether `GlobSetBuilder::build` succeeds on these patterns.
pub uninterp spec fn glob_set_builds(patterns: Seq<Seq<char>>) -> bool;

/// Whether `GlobSet::is_match` holds for a set of these patterns and a path.
pub uninterp spec fn glob_set_matches(patterns: Seq<Seq<char>>, path: Seq<char>) -> bool;

/// `GlobSetBuilder::new`: a builder holding no pattern.
#[verifier::external_body]
fn new_glob_builder() -> (r: GlobSetBuilder)
    ensures
        glob_builder_patterns(r) == Seq::<Seq<char>>::empty(),
{
    GlobSetBuilder::new()
}

/// `Glob::new` on a pattern, then `GlobSetBuilder::add`: the pattern is added
/// where `Glob::new` accepts it, and the builder is left as it was otherwise.
#[verifier::external_body]
fn add_glob(builder: &mut GlobSetBuilder, pattern: &str) -> (r: Result<(), globset::Error>)
    ensures
        r is Ok <==> glob_pattern_valid(pattern@),
        r is Ok ==> glob_builder_patterns(*final(builder)) == glob_builder_patterns(*old(builder)).push(pattern@),
        r is Err ==> glob_builder_patterns(*final(builder)) == glob_builder_patterns(*old(builder)),
{
    let glob = globset::Glob::new(pattern)?;
    builder.add(glob);
    Ok(())
}

/// A compiled set of exclude patterns, kept with the pattern texts it was
/// built from: a `GlobSet` does not keep them, so only `build_glob_set`
/// makes a value of this type, from a builder and its patterns.
pub struct ExcludePatterns {
    set: GlobSet,
    patterns: Ghost<Seq<Seq<char>>>,
}

impl ExcludePatterns {
    /// The pattern texts the set was built from, in order.
    pub closed spec fn patterns_view(&self) -> Seq<Seq<char>> {
        self.patterns@
    }
}

/// `GlobSetBuilder::build`: a set of the builder's patterns, where it builds,
/// kept with those patterns.
#[verifier::external_body]
fn build_glob_set(builder: &GlobSetBuilder) -> (r: Result<ExcludePatterns, globset::Error>)
    ensures
        r is Ok <==> glob_set_builds(glob_builder_patterns(*builder)),
        r matches Ok(set) ==> set.patterns_view() == glob_builder_patterns(*builder),
{
    match builder.build() {
        Ok(set) => Ok(ExcludePatterns { set, patterns: Ghost(glob_builder_patterns(*builder)) }),
        Err(error) => Err(error),
    }
}

/// `GlobSet::is_match` on a path; a set without patterns matches nothing.
#[verifier::external_body]
fn glob_set_is_match(excludes: &ExcludePatterns, path: &str) -> (r: bool)
    ensures
        r == glob_set_matches(excludes.patterns_view(), path@),
        excludes.patterns_view().len() == 0 ==> !r,
{
    excludes.set.is_match(path)
}

/// The message of a `globset` error (its `Display`); nothing is stated of it.
#[verifier::external_body]
fn glob_error_text(error: &globset::Error) -> (r: String) {
    error.to_string()
}

/// Every pattern is accepted by `Glob::new`.
pub open spec fn all_globs_valid(patterns: Seq<Seq<char>>) -> bool {
    forall|i: int| 0 <= i < patterns.len() ==> glob_pattern_valid(#[trigger] patterns[i])
}

/// Compiles the exclude patterns into one set. The first pattern that
/// `globset` refuses, or a set it cannot build, gives `Glob`.
pub fn build_globset(excludes: &Vec<String>) -> (r: Result<ExcludePatterns, ArcaError>)
    ensures
        r is Ok <==> all_globs_valid(string_views(excludes@)) && glob_set_builds(string_views(excludes@)),
        r matches Ok(set) ==> set.patterns_view() == string_views(excludes@),
        r matches Err(e) ==> e is Glob,
{
    let ghost pv = string_views(excludes@);
    let mut builder = new_glob_builder();
    let mut i: usize = 0;
    while i < excludes.len()
        invariant
            i <= excludes@.len(),
            pv == string_views(excludes@),
            glob_builder_patterns(builder) == pv.take(i as int),
            all_globs_valid(pv.take(i as int)),
        decreases excludes.len() - i,
    {
        let added = add_glob(&mut builder, excludes[i].as_str());
        assert(excludes@[i as int]@ == pv[i as int]);
        match added {
            Ok(()) => {},
            Err(error) => {
                assert(!all_globs_valid(pv)) by {
                    assert(!glob_pattern_valid(pv[i as int]));
                }
                return Err(ArcaError::Glob(glob_error_text(&error)));
            },
        }
        assert(pv.take(i + 1) =~= pv.take(i as int).push(pv[i as int]));
        assert(all_globs_valid(pv.take(i + 1))) by {
            assert forall|k: int| 0 <= k < i + 1 implies glob_pattern_valid(#[trigger] pv.take(i + 1)[k]) by {
                if k < i {
                    assert(pv.take(i + 1)[k] == pv.take(i as int)[k]);
                }
            }
        }
        i = i + 1;
    }
    assert(pv.take(excludes@.len() as int) =~= pv);
    match build_glob_set(&builder) {
        Ok(set) => Ok(set),
        Err(error) => Err(ArcaError::Glob(glob_error_text(&error))),
    }
}

/// The first planning step for one walked path: an excluded path is skipped
/// (`Ok(false)`); any other must pass the archive path policy and not collide
/// with an earlier entry, and is then recorded (`Ok(true)`).
pub fn push_entry_admits(archive_path: &str, excludes: &ExcludePatterns, collisions: &mut CollisionSet) -> (r: Result<bool, ArcaError>)
    ensures
        ({
            let excluded = glob_set_matches(excludes.patterns_view(), archive_path@);
            &&& excluded ==> r == Ok::<bool, ArcaError>(false) && final(collisions)@ == old(collisions)@
            &&& !excluded ==> (r is Ok <==> valid_archive_path(archive_path@) && !old(collisions)@.contains(
                spec_collision_key(archive_path@),
            ))
            &&& !excluded && r is Ok ==> r == Ok::<bool, ArcaError>(true) && final(collisions)@ == old(
                collisions,
            )@.insert(spec_collision_key(archive_path@))
        }),
        r is Err ==> final(collisions)@ == old(collisions)@,
        r matches Err(e) ==> e is Security,
{
    let excluded = glob_set_is_match(excludes, archive_path);
    accept_planned_path(archive_path, excluded, collisions)
}

// ---------------------------------------------------------------------------
// Kinds of input files
// ---------------------------------------------------------------------------

/// What the file system reports of an input's type.
#[derive(Debug, Clone, Copy, PartialEq, Eq)]
pub struct FileTypeFlags {
    pub is_symlink: bool,
    pub is_dir: bool,
    pub is_file: bool,
    /// A block or character device, a FIFO or a socket.
    pub is_special: bool,
}

/// The entry kind of an input, or none for a type the archives cannot hold.
pub open spec fn spec_input_kind(flags: FileTypeFlags) -> Option<EntryKind> {
    if flags.is_special {
        None
    } else if flags.is_symlink {
        Some(EntryKind::Symlink)
    } else if flags.is_dir {
        Some(EntryKind::Directory)
    } else if flags.is_file {
        Some(EntryKind::File)
    } else {
        None
    }
}

/// The entry kind of an input: devices, FIFOs and sockets are refused, then
/// a symbolic link, a directory or a regular file is taken as such, and
/// anything else is refused; refusals are `Security` errors naming `source`.
pub fn metadata_kind(source: &str, flags: FileTypeFlags) -> (r: Result<EntryKind, ArcaError>)
    ensures
        match spec_input_kind(flags) {
            Some(kind) => r == Ok::<EntryKind, ArcaError>(kind),
            None => r matches Err(e) && e is Security && error_detail(e) == (if flags.is_special {
                "special file entries are not supported: "@
            } else {
                "unsupported input file type: "@
            }) + source@,
        },
{
    if flags.is_special {
        return Err(ArcaError::Security(concat_str("special file entries are not supported: ", source)));
    }
    if flags.is_symlink {
        Ok(EntryKind::Symlink)
    } else if flags.is_dir {
        Ok(EntryKind::Directory)
    } else if flags.is_file {
        Ok(EntryKind::File)
    } else {
        Err(ArcaError::Security(concat_str("unsupported input file type: ", source)))
    }
}

/// The entry planned for an admitted input of a known kind. A symbolic link
/// carries its target, which must convert to an archive path and pass the
/// symlink target policy; only a regular file has a size.
pub fn planned_entry(
    source: PathBuf,
    archive_path: String,
    kind: EntryKind,
    link_target: Option<Vec<PathPart>>,
    len: u64,
    snapshot: SourceSnapshot,
) -> (r: Result<ArchiveEntry, ArcaError>)
    requires
        kind == EntryKind::Symlink <==> link_target is Some,
    ensures
        match link_target {
            Some(parts) => {
                let ok = parts_all_supported(parts@) && parts_all_utf8(parts@) && normal_parts(parts@).len() > 0
                    && valid_symlink_target(join_with(normal_parts(parts@), '/'));
                &&& r is Ok <==> ok
                &&& r matches Ok(e) ==> e.symlink_target matches Some(t) && t@ == join_with(normal_parts(parts@), '/')
                    && e.size == 0
            },
            None => r is Ok && r->Ok_0.symlink_target is None && r->Ok_0.size == (if kind == EntryKind::File {
                len
            } else {
                0
            }),
        },
        r matches Ok(e) ==> e.source == source && e.archive_path == archive_path && e.kind == kind && e.snapshot
            == snapshot,
        r matches Err(e) ==> e is Security || e is NonUtf8Path,
{
    let (symlink_target, size) = match link_target {
        Some(parts) => {
            let target = path_to_archive_string(&parts)?;
            crate::policy::validate_symlink_target(target.as_str())?;
            (Some(target), 0)
        },
        None => {
            let size: u64 = match kind {
                EntryKind::File => len,
                _ => 0,
            };
            (None, size)
        },
    };
    Ok(ArchiveEntry { source, archive_path, kind, symlink_target, size, snapshot })
}

/// A compression plan needs at least one input.
pub fn validate_plan_inputs(inputs: &Vec<PathBuf>) -> (r: Result<(), ArcaError>)
    ensures
        r is Ok <==> inputs@.len() > 0,
        r matches Err(e) ==> e is Usage && error_detail(e) == "compress requires at least one input"@,
{
    if inputs.len() == 0 {
        return Err(ArcaError::Usage("compress requires at least one input".to_owned()));
    }
    Ok(())
}

// ---------------------------------------------------------------------------
// The output against the inputs
// ---------------------------------------------------------------------------

/// Whether the components of `path` begin with all those of `prefix`.
pub open spec fn components_start_with(path: Seq<Seq<u8>>, prefix: Seq<Seq<u8>>) -> bool {
    prefix.len() <= path.len() && path.take(prefix.len() as int) == prefix
}

fn bytes_equal(a: &Vec<u8>, b: &Vec<u8>) -> (r: bool)
    ensures
        r == (a@ == b@),
{
    if a.len() != b.len() {
        return false;
    }
    let mut i: usize = 0;
    while i < a.len()
        invariant
            a@.len() == b@.len(),
            i <= a@.len(),
            forall|j: int| 0 <= j < i ==> a@[j] == b@[j],
        decreases a.len() - i,
    {
        if a[i] != b[i] {
            return false;
        }
        i = i + 1;
    }
    assert(a@ =~= b@);
    true
}

fn components_prefix(path: &Vec<Vec<u8>>, prefix: &Vec<Vec<u8>>) -> (r: bool)
    ensures
        r == components_start_with(path.deep_view(), prefix.deep_view()),
{
    if prefix.len() > path.len() {
        return false;
    }
    let mut i: usize = 0;
    while i < prefix.len()
        invariant
            prefix@.len() <= path@.len(),
            i <= prefix@.len(),
            forall|j: int| 0 <= j < i ==> path.deep_view()[j] == prefix.deep_view()[j],
        decreases prefix.len() - i,
    {
        assert(path.deep_view()[i as int] == path@[i as int]@);
        assert(prefix.deep_view()[i as int] == prefix@[i as int]@);
        if !bytes_equal(&path[i], &prefix[i]) {
            assert(path.deep_view().take(prefix@.len() as int)[i as int] == path.deep_view()[i as int]);
            return false;
        }
        i = i + 1;
    }
    assert(path.deep_view().take(prefix@.len() as int) =~= prefix.deep_view());
    true
}

/// The output archive, by the components of its absolute path, must not lie
/// inside an input directory nor be an input file (by the components of the
/// input's canonical path); a violation is a `Usage` error.
pub fn check_output_against_input(
    output: &Vec<Vec<u8>>,
    input: &Vec<Vec<u8>>,
    input_is_dir: bool,
    output_display: &str,
) -> (r: Result<(), ArcaError>)
    ensures
        r is Ok <==> (if input_is_dir {
            !components_start_with(output.deep_view(), input.deep_view())
        } else {
            output.deep_view() != input.deep_view()
        }),
        r matches Err(e) ==> e is Usage && error_detail(e) == (if input_is_dir {
            "output archive cannot be inside input tree: "@
        } else {
            "output archive cannot equal input file: "@
        }) + output_display@,
{
    if input_is_dir {
        if components_prefix(output, input) {
            return Err(ArcaError::Usage(concat_str("output archive cannot be inside input tree: ", output_display)));
        }
    } else {
        let same = output.len() == input.len() && components_prefix(output, input);
        proof {
            if output@.len() == input@.len() {
                assert(output.deep_view().take(input@.len() as int) =~= output.deep_view());
            }
        }
        if same {
            return Err(ArcaError::Usage(concat_str("output archive cannot equal input file: ", output_display)));
        }
    }
    Ok(())
}

// ---------------------------------------------------------------------------
// Inputs changing under the operation
// ---------------------------------------------------------------------------

/// An input must look as it did when it was planned: any difference in what
/// was observed of it is an `Integrity` error naming it (as an open file, or
/// as a path).
pub fn check_source_snapshot(
    expected: &SourceSnapshot,
    current: &SourceSnapshot,
    source: &str,
    open_file: bool,
) -> (r: Result<(), ArcaError>)
    ensures
        r is Ok <==> *expected == *current,
        r matches Err(e) ==> e is Integrity && error_detail(e) == (if open_file {
            "input file changed during compression: "@
        } else {
            "input changed during compression: "@
        }) + source@,
{
    if *expected == *current {
        return Ok(());
    }
    if open_file {
        Err(ArcaError::Integrity(concat_str("input file changed during compression: ", source)))
    } else {
        Err(ArcaError::Integrity(concat_str("input changed during compression: ", source)))
    }
}

// ---------------------------------------------------------------------------
// The plan taken again after writing
// ---------------------------------------------------------------------------

/// `PathBuf == PathBuf` from std. Paths compare by their components, so a
/// path compares equal to itself; which different values also compare equal
/// (paths that differ only in repeated separators, for one) is not stated.
#[verifier::external_body]
fn same_path(a: &PathBuf, b: &PathBuf) -> (r: bool)
    ensures
        a == b ==> r,
{
    a == b
}

/// The text of an optional string.
pub open spec fn optional_text(o: Option<String>) -> Option<Seq<char>> {
    match o {
        Some(s) => Some(s@),
        None => None,
    }
}

/// Two planned entries agree on everything but the spelling of their
/// source paths.
pub open spec fn entries_agree(x: ArchiveEntry, y: ArchiveEntry) -> bool {
    &&& x.archive_path@ == y.archive_path@
    &&& x.kind == y.kind
    &&& optional_text(x.symlink_target) == optional_text(y.symlink_target)
    &&& x.size == y.size
    &&& x.snapshot == y.snapshot
}

/// Two plans agree entry by entry, in order.
pub open spec fn plans_agree(a: Seq<ArchiveEntry>, b: Seq<ArchiveEntry>) -> bool {
    &&& a.len() == b.len()
    &&& forall|i: int| 0 <= i < a.len() ==> entries_agree(#[trigger] a[i], b[i])
}

fn same_entry(x: &ArchiveEntry, y: &ArchiveEntry) -> (r: bool)
    ensures
        *x == *y ==> r,
        r ==> entries_agree(*x, *y),
{
    let targets = match (&x.symlink_target, &y.symlink_target) {
        (Some(a), Some(b)) => str_eq(a.as_str(), b.as_str()),
        (None, None) => true,
        _ => false,
    };
    targets && str_eq(x.archive_path.as_str(), y.archive_path.as_str()) && x.kind == y.kind && x.size == y.size
        && x.snapshot == y.snapshot && same_path(&x.source, &y.source)
}

/// The inputs planned again after writing must give the plan that was
/// written: an equal plan passes; a plan that differs anywhere but in how a
/// source path is spelled is an `Integrity` error.
pub fn check_plan_unchanged(expected: &Vec<ArchiveEntry>, current: &Vec<ArchiveEntry>) -> (r: Result<(), ArcaError>)
    ensures
        expected@ == current@ ==> r is Ok,
        r is Ok ==> plans_agree(expected@, current@),
        r matches Err(e) ==> e is Integrity && error_detail(e) == "input tree changed during compression"@,
{
    let mut same = expected.len() == current.len();
    let mut i: usize = 0;
    while same && i < expected.len()
        invariant
            same ==> expected@.len() == current@.len(),
            expected@ == current@ ==> same,
            i <= expected@.len(),
            same ==> forall|k: int| 0 <= k < i ==> entries_agree(#[trigger] expected@[k], current@[k]),
        decreases expected.len() - i,
    {
        same = same_entry(&expected[i], &current[i]);
        i = i + 1;
    }
    if same {
        Ok(())
    } else {
        Err(ArcaError::Integrity("input tree changed during compression".to_owned()))
    }
}

} // verus!
