use vstd::prelude::*;

use crate::archive::EntryKind;
use crate::error::{error_detail, ArcaError};
use crate::text::concat_str;

verus! {

broadcast use vstd::string::group_string_axioms;

/// What already stands where an output would be published.
#[derive(Debug, Clone, Copy, PartialEq, Eq, Structural)]
pub enum ExistingTarget {
    Missing,
    Symlink,
    Directory,
    File,
    Other,
}

/// The start of the message refusing to publish a file over what stands at
/// its target; the target's path follows it.
pub open spec fn file_target_refusal(existing: ExistingTarget) -> Seq<char> {
    match existing {
        ExistingTarget::Symlink => "refusing to overwrite existing symlink: "@,
        ExistingTarget::File => "output file already exists: "@,
        _ => "refusing to overwrite existing non-file: "@,
    }
}

/// May a file be published at a target: not over a symlink or a non-file
/// (`Security`), and over a file only with `overwrite` (`Usage`).
pub fn check_file_target(existing: ExistingTarget, overwrite: bool, target: &str) -> (r: Result<(), ArcaError>)
    ensures
        r is Ok <==> existing == ExistingTarget::Missing || (existing == ExistingTarget::File && overwrite),
        r matches Err(e) ==> (existing == ExistingTarget::File ==> e is Usage) && (existing
            != ExistingTarget::File ==> e is Security),
        r matches Err(e) ==> error_detail(e) == file_target_refusal(existing) + target@,
{
    match existing {
        ExistingTarget::Missing => Ok(()),
        ExistingTarget::Symlink => Err(ArcaError::Security(concat_str("refusing to overwrite existing symlink: ", target))),
        ExistingTarget::File => if overwrite {
            Ok(())
        } else {
            Err(ArcaError::Usage(concat_str("output file already exists: ", target)))
        },
        _ => Err(ArcaError::Security(concat_str("refusing to overwrite existing non-file: ", target))),
    }
}

/// May an extracted file be written at a target before it is staged: not
/// over a symlink (`Security`), and over anything else only with `overwrite`
/// (`Usage`).
pub fn check_entry_file_target(existing: ExistingTarget, overwrite: bool, target: &str) -> (r: Result<(), ArcaError>)
    ensures
        r is Ok <==> existing == ExistingTarget::Missing || (existing != ExistingTarget::Symlink && overwrite),
        r matches Err(e) ==> (existing == ExistingTarget::Symlink ==> e is Security) && (existing
            != ExistingTarget::Symlink ==> e is Usage),
        r matches Err(e) ==> error_detail(e) == (if existing == ExistingTarget::Symlink {
            "refusing to overwrite existing symlink: "@
        } else {
            "output file already exists: "@
        }) + target@,
{
    match existing {
        ExistingTarget::Missing => Ok(()),
        ExistingTarget::Symlink => Err(ArcaError::Security(concat_str("refusing to overwrite existing symlink: ", target))),
        _ => if overwrite {
            Ok(())
        } else {
            Err(ArcaError::Usage(concat_str("output file already exists: ", target)))
        },
    }
}

/// May a directory be published at a target: only where nothing or a real
/// directory stands (`Security` otherwise).
pub fn check_directory_target(existing: ExistingTarget, target: &str) -> (r: Result<(), ArcaError>)
    ensures
        r is Ok <==> existing == ExistingTarget::Missing || existing == ExistingTarget::Directory,
        r matches Err(e) ==> e is Security && error_detail(e) == "refusing to overwrite existing non-directory: "@
            + target@,
{
    match existing {
        ExistingTarget::Missing | ExistingTarget::Directory => Ok(()),
        _ => Err(ArcaError::Security(concat_str("refusing to overwrite existing non-directory: ", target))),
    }
}

/// May a path be published through: only a missing path or a real
/// directory (`Security` otherwise).
pub fn check_directory_component(existing: ExistingTarget, path: &str) -> (r: Result<(), ArcaError>)
    ensures
        r is Ok <==> existing == ExistingTarget::Missing || existing == ExistingTarget::Directory,
        r matches Err(e) ==> e is Security && error_detail(e)
            == "refusing to publish through existing non-directory: "@ + path@,
{
    match existing {
        ExistingTarget::Missing | ExistingTarget::Directory => Ok(()),
        _ => Err(ArcaError::Security(concat_str("refusing to publish through existing non-directory: ", path))),
    }
}

/// May a symlink be published at a target: only where nothing stands
/// (`Security` otherwise).
pub fn check_symlink_target(existing: ExistingTarget, overwrite: bool, target: &str) -> (r: Result<(), ArcaError>)
    ensures
        r is Ok <==> existing == ExistingTarget::Missing,
        r matches Err(e) ==> e is Security && error_detail(e) == (if existing != ExistingTarget::Symlink && overwrite {
            "refusing to replace existing non-symlink with symlink: "@
        } else {
            "refusing to overwrite existing destination with symlink: "@
        }) + target@,
{
    match existing {
        ExistingTarget::Missing => Ok(()),
        ExistingTarget::Symlink => Err(
            ArcaError::Security(concat_str("refusing to overwrite existing destination with symlink: ", target)),
        ),
        _ => if !overwrite {
            Err(ArcaError::Security(concat_str("refusing to overwrite existing destination with symlink: ", target)))
        } else {
            Err(ArcaError::Security(concat_str("refusing to replace existing non-symlink with symlink: ", target)))
        },
    }
}

/// The start of the message refusing to extract into what stands at a
/// destination; the destination's path follows it.
pub open spec fn destination_refusal(existing: ExistingTarget, overwrite: bool) -> Seq<char> {
    match existing {
        ExistingTarget::Symlink => "refusing to extract through existing destination symlink: "@,
        ExistingTarget::Directory => "output destination already exists: "@,
        _ => if overwrite {
            "refusing to replace existing non-directory destination: "@
        } else {
            "output destination already exists: "@
        },
    }
}

/// May an archive be extracted into a destination: not through a symlink or
/// over a non-directory (`Security` when `overwrite` asks to replace it,
/// `Usage` otherwise), and into an existing directory only with `overwrite`.
pub fn check_container_destination(existing: ExistingTarget, overwrite: bool, destination: &str) -> (r: Result<(), ArcaError>)
    ensures
        r is Ok <==> existing == ExistingTarget::Missing || (existing == ExistingTarget::Directory && overwrite),
        existing == ExistingTarget::Symlink ==> (r matches Err(e) && e is Security),
        existing != ExistingTarget::Symlink && existing != ExistingTarget::Directory && existing
            != ExistingTarget::Missing ==> (r matches Err(e) && (overwrite ==> e is Security) && (!overwrite
            ==> e is Usage)),
        existing == ExistingTarget::Directory && !overwrite ==> (r matches Err(e) && e is Usage),
        r matches Err(e) ==> error_detail(e) == destination_refusal(existing, overwrite) + destination@,
{
    match existing {
        ExistingTarget::Missing => Ok(()),
        ExistingTarget::Symlink => Err(
            ArcaError::Security(concat_str("refusing to extract through existing destination symlink: ", destination)),
        ),
        ExistingTarget::Directory => if overwrite {
            Ok(())
        } else {
            Err(ArcaError::Usage(concat_str("output destination already exists: ", destination)))
        },
        _ => if overwrite {
            Err(ArcaError::Security(concat_str("refusing to replace existing non-directory destination: ", destination)))
        } else {
            Err(ArcaError::Usage(concat_str("output destination already exists: ", destination)))
        },
    }
}

/// How a staged file reaches its target.
#[derive(Debug, Clone, Copy, PartialEq, Eq, Structural)]
pub enum FilePublish {
    /// Nothing stands there: move the staged file into place.
    Rename,
    /// A file stands there and may be overwritten: copy over it.
    Replace,
}

/// How to publish a staged file over what stands at its target; the errors
/// of `check_file_target`.
pub fn staged_file_publish(existing: ExistingTarget, overwrite: bool, target: &str) -> (r: Result<FilePublish, ArcaError>)
    ensures
        r == Ok::<FilePublish, ArcaError>(FilePublish::Rename) <==> existing == ExistingTarget::Missing,
        r == Ok::<FilePublish, ArcaError>(FilePublish::Replace) <==> existing == ExistingTarget::File && overwrite,
        r matches Err(e) ==> (existing == ExistingTarget::File ==> e is Usage) && (existing
            != ExistingTarget::File ==> e is Security),
        r matches Err(e) ==> error_detail(e) == file_target_refusal(existing) + target@,
{
    check_file_target(existing, overwrite, target)?;
    match existing {
        ExistingTarget::Missing => Ok(FilePublish::Rename),
        _ => Ok(FilePublish::Replace),
    }
}

/// The kind of a staged item, from its file type; `Security` for anything
/// that is neither a file, a directory nor a symlink.
pub fn staged_entry_kind(existing: ExistingTarget, target: &str) -> (r: Result<EntryKind, ArcaError>)
    ensures
        existing == ExistingTarget::Symlink ==> r == Ok::<EntryKind, ArcaError>(EntryKind::Symlink),
        existing == ExistingTarget::Directory ==> r == Ok::<EntryKind, ArcaError>(EntryKind::Directory),
        existing == ExistingTarget::File ==> r == Ok::<EntryKind, ArcaError>(EntryKind::File),
        existing == ExistingTarget::Missing || existing == ExistingTarget::Other ==> (r matches Err(e) && e is Security
            && error_detail(e) == "staging contains unsupported file type: "@ + target@),
{
    match existing {
        ExistingTarget::Symlink => Ok(EntryKind::Symlink),
        ExistingTarget::Directory => Ok(EntryKind::Directory),
        ExistingTarget::File => Ok(EntryKind::File),
        _ => Err(ArcaError::Security(concat_str("staging contains unsupported file type: ", target))),
    }
}

/// The copy of an entry's payload wrote exactly its recorded size
/// (`Integrity` otherwise).
pub fn check_copied_size(copied: u64, expected: u64, archive_path: &str) -> (r: Result<(), ArcaError>)
    ensures
        r is Ok <==> copied == expected,
        r matches Err(e) ==> e is Integrity && error_detail(e) == "archive entry size changed while extracting "@
            + archive_path@,
{
    if copied != expected {
        return Err(ArcaError::Integrity(concat_str("archive entry size changed while extracting ", archive_path)));
    }
    Ok(())
}

// ---------------------------------------------------------------------------
// Order of directory metadata
// ---------------------------------------------------------------------------

/// The indices in `order` are those of `0..n`, each once.
pub open spec fn is_permutation(order: Seq<usize>, n: nat) -> bool {
    &&& order.len() == n
    &&& forall|i: int| 0 <= i < order.len() ==> #[trigger] order[i] < n
    &&& forall|i: int, j: int| 0 <= i < j < order.len() ==> order[i] != order[j]
}

/// Deeper paths come first, and paths of equal depth keep their order.
pub open spec fn deepest_first(order: Seq<usize>, depths: Seq<usize>) -> bool {
    forall|i: int, j: int|
        0 <= i < j < order.len() ==> depths[order[i] as int] > depths[order[j] as int] || (depths[order[i] as int]
            == depths[order[j] as int] && order[i] < order[j])
}

/// The order in which directory metadata is applied: deepest directories
/// first, so that setting a parent's times comes after its children were
/// written; directories of equal depth keep their walk order (a stable sort
/// by depth, descending).
pub fn deepest_first_order(depths: &Vec<usize>) -> (r: Vec<usize>)
    ensures
        is_permutation(r@, depths@.len()),
        deepest_first(r@, depths@),
{
    let mut order: Vec<usize> = Vec::new();
    let mut k: usize = 0;
    while k < depths.len()
        invariant
            k <= depths.len(),
            is_permutation(order@, k as nat),
            deepest_first(order@, depths@),
            forall|i: int| 0 <= i < order@.len() ==> #[trigger] order@[i] < depths@.len(),
        decreases depths.len() - k,
    {
        let d = depths[k];
        let mut pos: usize = order.len();
        while pos > 0 && depths[order[pos - 1]] < d
            invariant
                pos <= order@.len(),
                k < depths@.len(),
                d == depths@[k as int],
                is_permutation(order@, k as nat),
                deepest_first(order@, depths@),
                forall|i: int| 0 <= i < order@.len() ==> #[trigger] order@[i] < depths@.len(),
                forall|i: int| pos <= i < order@.len() ==> depths@[#[trigger] order@[i] as int] < d,
            decreases pos,
        {
            pos = pos - 1;
        }
        let ghost before = order@;
        proof {
            assert forall|i: int| 0 <= i < pos implies depths@[#[trigger] before[i] as int] >= d by {
                if pos > 0 {
                    assert(depths@[before[pos - 1] as int] >= d);
                    if i < pos - 1 {
                        assert(depths@[before[i] as int] >= depths@[before[pos - 1] as int]);
                    }
                }
            }
        }
        order.insert(pos, k);
        proof {
            let after = order@;
            assert(after == before.subrange(0, pos as int).push(k) + before.subrange(pos as int, before.len() as int));
            assert forall|i: int| 0 <= i < after.len() implies #[trigger] after[i] < k + 1 by {
                if i < pos {
                    assert(after[i] == before[i]);
                } else if i > pos {
                    assert(after[i] == before[i - 1]);
                }
            }
            assert forall|i: int, j: int| 0 <= i < j < after.len() implies after[i] != after[j] by {
                if i < pos && j < pos {
                    assert(after[i] == before[i] && after[j] == before[j]);
                } else if i < pos && j == pos {
                    assert(after[i] == before[i]);
                } else if i < pos && j > pos {
                    assert(after[i] == before[i] && after[j] == before[j - 1]);
                } else if i == pos {
                    assert(after[j] == before[j - 1]);
                } else {
                    assert(after[i] == before[i - 1] && after[j] == before[j - 1]);
                }
            }
            assert forall|i: int, j: int| 0 <= i < j < after.len() implies depths@[after[i] as int] > depths@[after[j]
                as int] || (depths@[after[i] as int] == depths@[after[j] as int] && after[i] < after[j]) by {
                if i < pos && j < pos {
                    assert(after[i] == before[i] && after[j] == before[j]);
                } else if i < pos && j == pos {
                    assert(after[i] == before[i]);
                    assert(depths@[before[i] as int] >= d);
                } else if i < pos && j > pos {
                    assert(after[i] == before[i] && after[j] == before[j - 1]);
                } else if i == pos {
                    assert(after[j] == before[j - 1]);
                    assert(depths@[before[j - 1] as int] < d);
                } else {
                    assert(after[i] == before[i - 1] && after[j] == before[j - 1]);
                }
            }
        }
        k = k + 1;
    }
    order
}

/// A single-file extraction may not write over its own archive: the output,
/// by the components of its resolved path, must differ from the archive's
/// (`Usage` otherwise, whatever `overwrite` says).
pub fn check_extract_output(archive: &Vec<Vec<u8>>, output: &Vec<Vec<u8>>, output_display: &str) -> (r: Result<
    (),
    ArcaError,
>)
    ensures
        r is Ok <==> archive.deep_view() != output.deep_view(),
        r matches Err(e) ==> e is Usage && error_detail(e) == "extraction output cannot equal archive: "@
            + output_display@,
{
    let mut same = archive.len() == output.len();
    assert(archive.deep_view().len() == archive@.len() && output.deep_view().len() == output@.len());
    let mut i: usize = 0;
    while same && i < archive.len()
        invariant
            same ==> archive@.len() == output@.len(),
            i <= archive@.len(),
            same ==> forall|j: int| 0 <= j < i ==> archive.deep_view()[j] == output.deep_view()[j],
            !same ==> archive.deep_view() != output.deep_view(),
        decreases archive.len() - i + (if same { 1int } else { 0int }),
    {
        let a = &archive[i];
        let b = &output[i];
        assert(archive.deep_view()[i as int] == a@);
        assert(output.deep_view()[i as int] == b@);
        let mut equal = a.len() == b.len();
        let mut k: usize = 0;
        while equal && k < a.len()
            invariant
                equal ==> a@.len() == b@.len(),
                k <= a@.len(),
                equal ==> forall|m: int| 0 <= m < k ==> a@[m] == b@[m],
                !equal ==> a@ != b@,
            decreases a.len() - k + (if equal { 1int } else { 0int }),
        {
            if a[k] != b[k] {
                equal = false;
            } else {
                k = k + 1;
            }
        }
        if equal {
            assert(a@ =~= b@);
            i = i + 1;
        } else {
            same = false;
        }
    }
    if same {
        assert(archive.deep_view() =~= output.deep_view());
        return Err(ArcaError::Usage(concat_str("extraction output cannot equal archive: ", output_display)));
    }
    Ok(())
}

} // verus!
