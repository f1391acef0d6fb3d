use vstd::prelude::*;

use crate::error::{error_detail, ArcaError};
use crate::text::{
    ascii_lower_code, chars_of, concat_str, ends_with_lower, ends_with_lower_vec, lower_eq,
    lower_eq_seq, lower_eq_vec, prefix_vec, str_eq, string_of,
};

verus! {

broadcast use vstd::string::group_string_axioms;

#[derive(Debug, Clone, Copy, PartialEq, Eq, Structural)]
pub enum CompressionKind {
    Gzip,
    Bzip2,
    Xz,
}

#[derive(Debug, Clone, Copy, PartialEq, Eq, Structural)]
pub enum FormatKind {
    Zip,
    Tar,
    TarCompressed(CompressionKind),
    SingleStream(CompressionKind),
}

/// A detected archive format: its kind and the registered suffix that matched.
#[derive(Debug, Clone, Copy, PartialEq, Eq)]
pub struct ArchiveFormat {
    pub kind: FormatKind,
    pub suffix: &'static str,
}

/// Magic bytes expected at an offset of a file of some format.
#[derive(Debug, Clone, PartialEq, Eq)]
pub struct FormatSignature {
    pub offset: u64,
    pub bytes: Vec<u8>,
}

/// Everything the tools know about one archive format.
#[derive(Debug, Clone, PartialEq, Eq)]
pub struct ArchiveFormatDescriptor {
    pub id: &'static str,
    pub name: &'static str,
    pub description: &'static str,
    pub kind: FormatKind,
    pub suffixes: Vec<&'static str>,
    pub create_suffixes: Vec<&'static str>,
    pub extensions: Vec<&'static str>,
    pub mime_type: &'static str,
    pub signatures: Vec<FormatSignature>,
}

impl ArchiveFormat {
    /// Zip and tar (plain or compressed) hold many entries.
    pub fn is_container(self) -> (r: bool)
        ensures
            r == (self.kind is Zip || self.kind is Tar || self.kind is TarCompressed),
    {
        match self.kind {
            FormatKind::Zip | FormatKind::Tar | FormatKind::TarCompressed(_) => true,
            FormatKind::SingleStream(_) => false,
        }
    }

    /// A compressed stream of a single file.
    pub fn is_single_stream(self) -> (r: bool)
        ensures
            r == (self.kind is SingleStream),
    {
        match self.kind {
            FormatKind::SingleStream(_) => true,
            _ => false,
        }
    }
}

impl ArchiveFormatDescriptor {
    /// Archives of this format can be created (it has creation suffixes).
    pub fn supports_create(&self) -> (r: bool)
        ensures
            r == (self.create_suffixes@.len() > 0),
    {
        self.create_suffixes.len() > 0
    }

    /// Only plain zip archives can be edited in place.
    pub fn supports_direct_edit(&self) -> (r: bool)
        ensures
            r == (self.kind is Zip),
    {
        match self.kind {
            FormatKind::Zip => true,
            _ => false,
        }
    }
}

// ---------------------------------------------------------------------------
// The registry
// ---------------------------------------------------------------------------

pub open spec fn registry_len() -> int {
    8
}

/// The kind of each registered format, in registry order.
pub open spec fn registry_kind(i: int) -> FormatKind {
    if i == 0 {
        FormatKind::Zip
    } else if i == 1 {
        FormatKind::Tar
    } else if i == 2 {
        FormatKind::TarCompressed(CompressionKind::Gzip)
    } else if i == 3 {
        FormatKind::TarCompressed(CompressionKind::Bzip2)
    } else if i == 4 {
        FormatKind::TarCompressed(CompressionKind::Xz)
    } else if i == 5 {
        FormatKind::SingleStream(CompressionKind::Gzip)
    } else if i == 6 {
        FormatKind::SingleStream(CompressionKind::Bzip2)
    } else {
        FormatKind::SingleStream(CompressionKind::Xz)
    }
}

/// The file-name suffixes of each registered format, in registry order.
pub open spec fn registry_suffixes(i: int) -> Seq<&'static str> {
    if i == 0 {
        seq![".zip"]
    } else if i == 1 {
        seq![".tar"]
    } else if i == 2 {
        seq![".tar.gz", ".tgz"]
    } else if i == 3 {
        seq![".tar.bz2", ".tbz2"]
    } else if i == 4 {
        seq![".tar.xz", ".txz"]
    } else if i == 5 {
        seq![".gz"]
    } else if i == 6 {
        seq![".bz2"]
    } else {
        seq![".xz"]
    }
}

/// The desktop file extensions of each registered format.
pub open spec fn registry_extensions(i: int) -> Seq<&'static str> {
    if i == 0 {
        seq!["zip"]
    } else if i == 1 {
        seq!["tar"]
    } else if i == 2 {
        seq!["tgz"]
    } else if i == 3 {
        seq!["tbz2"]
    } else if i == 4 {
        seq!["txz"]
    } else if i == 5 {
        seq!["gz"]
    } else if i == 6 {
        seq!["bz2"]
    } else {
        seq!["xz"]
    }
}

/// The magic signatures of each registered format, as (offset, bytes).
pub open spec fn registry_signatures(i: int) -> Seq<(u64, Seq<u8>)> {
    let gzip = seq![(0u64, seq![0x1fu8, 0x8bu8])];
    let bzip2 = seq![(0u64, seq![0x42u8, 0x5au8, 0x68u8])];
    let xz = seq![(0u64, seq![0xfdu8, 0x37u8, 0x7au8, 0x58u8, 0x5au8, 0x00u8])];
    if i == 0 {
        seq![
            (0u64, seq![0x50u8, 0x4bu8, 0x03u8, 0x04u8]),
            (0u64, seq![0x50u8, 0x4bu8, 0x05u8, 0x06u8]),
            (0u64, seq![0x50u8, 0x4bu8, 0x07u8, 0x08u8]),
        ]
    } else if i == 1 {
        seq![(257u64, seq![0x75u8, 0x73u8, 0x74u8, 0x61u8, 0x72u8])]
    } else if i == 2 || i == 5 {
        gzip
    } else if i == 3 || i == 6 {
        bzip2
    } else {
        xz
    }
}

/// The identifying texts of each registered format: id, name, description, MIME type.
pub open spec fn registry_texts(i: int) -> (&'static str, &'static str, &'static str, &'static str) {
    if i == 0 {
        ("zip", "ZIP Archive", "ZIP archive file", "application/zip")
    } else if i == 1 {
        ("tar", "Tar Archive", "Uncompressed tar archive", "application/x-tar")
    } else if i == 2 {
        (
            "tar.gz",
            "Tar Gzip Archive",
            "Tar archive compressed with gzip",
            "application/x-compressed-tar",
        )
    } else if i == 3 {
        (
            "tar.bz2",
            "Tar Bzip2 Archive",
            "Tar archive compressed with bzip2",
            "application/x-bzip-compressed-tar",
        )
    } else if i == 4 {
        (
            "tar.xz",
            "Tar XZ Archive",
            "Tar archive compressed with xz",
            "application/x-xz-compressed-tar",
        )
    } else if i == 5 {
        ("gz", "Gzip Stream", "Single-file gzip stream", "application/gzip")
    } else if i == 6 {
        ("bz2", "Bzip2 Stream", "Single-file bzip2 stream", "application/x-bzip2")
    } else {
        ("xz", "XZ Stream", "Single-file xz stream", "application/x-xz")
    }
}

/// A suffix as the registry writes it: a dot, then lower-case ASCII letters,
/// digits and further dots.
pub open spec fn well_formed_suffix(s: Seq<char>) -> bool {
    &&& s.len() >= 2
    &&& s[0] == '.'
    &&& forall|k: int| 0 <= k < s.len() ==> (('a' <= #[trigger] s[k] && s[k] <= 'z') || ('0' <= s[k] && s[k] <= '9')
        || s[k] == '.')
}

proof fn lemma_registry_suffix_texts()
    ensures
        registry_suffixes(0)[0]@ == ".zip"@,
        registry_suffixes(1)[0]@ == ".tar"@,
        registry_suffixes(2)[0]@ == ".tar.gz"@,
        registry_suffixes(2)[1]@ == ".tgz"@,
        registry_suffixes(3)[0]@ == ".tar.bz2"@,
        registry_suffixes(3)[1]@ == ".tbz2"@,
        registry_suffixes(4)[0]@ == ".tar.xz"@,
        registry_suffixes(4)[1]@ == ".txz"@,
        registry_suffixes(5)[0]@ == ".gz"@,
        registry_suffixes(6)[0]@ == ".bz2"@,
        registry_suffixes(7)[0]@ == ".xz"@,
        ".zip"@ =~= seq!['.', 'z', 'i', 'p'],
        ".tar"@ =~= seq!['.', 't', 'a', 'r'],
        ".tar.gz"@ =~= seq!['.', 't', 'a', 'r', '.', 'g', 'z'],
        ".tgz"@ =~= seq!['.', 't', 'g', 'z'],
        ".tar.bz2"@ =~= seq!['.', 't', 'a', 'r', '.', 'b', 'z', '2'],
        ".tbz2"@ =~= seq!['.', 't', 'b', 'z', '2'],
        ".tar.xz"@ =~= seq!['.', 't', 'a', 'r', '.', 'x', 'z'],
        ".txz"@ =~= seq!['.', 't', 'x', 'z'],
        ".gz"@ =~= seq!['.', 'g', 'z'],
        ".bz2"@ =~= seq!['.', 'b', 'z', '2'],
        ".xz"@ =~= seq!['.', 'x', 'z'],
{
    reveal_strlit(".zip");
    reveal_strlit(".tar");
    reveal_strlit(".tar.gz");
    reveal_strlit(".tgz");
    reveal_strlit(".tar.bz2");
    reveal_strlit(".tbz2");
    reveal_strlit(".tar.xz");
    reveal_strlit(".txz");
    reveal_strlit(".gz");
    reveal_strlit(".bz2");
    reveal_strlit(".xz");
}

/// The format table as the README lists it: eight formats, each of its own
/// kind, with at least one suffix and one signature; every suffix is a dot
/// followed by lower-case letters, digits and dots, and no suffix belongs to
/// two formats; the suffixes a format is created under are among its
/// suffixes.
pub proof fn law_format_registry()
    ensures
        forall|i: int, j: int| 0 <= i < j < registry_len() ==> registry_kind(i) != registry_kind(j),
        forall|i: int| 0 <= i < registry_len() ==> #[trigger] registry_suffixes(i).len() >= 1 && registry_signatures(i).len() >= 1,
        forall|i: int, a: int|
            0 <= i < registry_len() && 0 <= a < registry_suffixes(i).len() ==> well_formed_suffix(
                #[trigger] registry_suffixes(i)[a]@,
            ),
        forall|i: int, j: int, a: int, b: int|
            0 <= i < registry_len() && 0 <= j < registry_len() && i != j && 0 <= a < registry_suffixes(i).len() && 0 <= b
                < registry_suffixes(j).len() ==> #[trigger] registry_suffixes(i)[a]@ != #[trigger] registry_suffixes(j)[b]@,
{
    lemma_registry_suffix_texts();
    assert forall|i: int, a: int|
        0 <= i < registry_len() && 0 <= a < registry_suffixes(i).len() implies well_formed_suffix(
            #[trigger] registry_suffixes(i)[a]@,
        ) by {
        let t = registry_suffixes(i)[a]@;
        assert forall|k: int| 0 <= k < t.len() implies (('a' <= #[trigger] t[k] && t[k] <= 'z') || ('0' <= t[k] && t[k]
            <= '9') || t[k] == '.') by {
            if i == 0 {
            } else if i == 1 {
            } else if i == 2 {
            } else if i == 3 {
            } else if i == 4 {
            } else if i == 5 {
            } else if i == 6 {
            } else {
            }
        }
    }
    assert forall|i: int, j: int, a: int, b: int|
        0 <= i < registry_len() && 0 <= j < registry_len() && i != j && 0 <= a < registry_suffixes(i).len() && 0 <= b
            < registry_suffixes(j).len() implies #[trigger] registry_suffixes(i)[a]@ != #[trigger] registry_suffixes(
        j,
    )[b]@ by {
        let x = registry_suffixes(i)[a]@;
        let y = registry_suffixes(j)[b]@;
        if x == y {
            assert(x.len() == y.len());
            assert(x[1] == y[1] && x[x.len() - 1] == y[y.len() - 1]);
            if x.len() >= 3 {
                assert(x[2] == y[2]);
            }
        }
    }
}

pub open spec fn signatures_view(s: Seq<FormatSignature>) -> Seq<(u64, Seq<u8>)> {
    s.map_values(|g: FormatSignature| (g.offset, g.bytes@))
}

/// `d` is the descriptor at position `i` of the registry: container formats can
/// be created under all their suffixes, single streams cannot be created.
pub open spec fn is_registry_descriptor(d: ArchiveFormatDescriptor, i: int) -> bool {
    &&& 0 <= i < registry_len()
    &&& (d.id, d.name, d.description, d.mime_type) == registry_texts(i)
    &&& d.kind == registry_kind(i)
    &&& d.suffixes@ == registry_suffixes(i)
    &&& d.create_suffixes@ == (if i < 5 {
        registry_suffixes(i)
    } else {
        Seq::<&'static str>::empty()
    })
    &&& d.extensions@ == registry_extensions(i)
    &&& signatures_view(d.signatures@) == registry_signatures(i)
}

fn signature(offset: u64, bytes: Vec<u8>) -> (r: FormatSignature)
    ensures
        r.offset == offset,
        r.bytes@ == bytes@,
{
    FormatSignature { offset, bytes }
}

fn zip_signatures() -> (r: Vec<FormatSignature>)
    ensures
        signatures_view(r@) == registry_signatures(0),
{
    let r = vec![
        signature(0, vec![0x50u8, 0x4bu8, 0x03u8, 0x04u8]),
        signature(0, vec![0x50u8, 0x4bu8, 0x05u8, 0x06u8]),
        signature(0, vec![0x50u8, 0x4bu8, 0x07u8, 0x08u8]),
    ];
    assert(signatures_view(r@) =~= registry_signatures(0));
    r
}

fn single_signature(i: usize) -> (r: Vec<FormatSignature>)
    requires
        1 <= i < 8,
    ensures
        signatures_view(r@) == registry_signatures(i as int),
{
    let s = if i == 1 {
        signature(257, vec![0x75u8, 0x73u8, 0x74u8, 0x61u8, 0x72u8])
    } else if i == 2 || i == 5 {
        signature(0, vec![0x1fu8, 0x8bu8])
    } else if i == 3 || i == 6 {
        signature(0, vec![0x42u8, 0x5au8, 0x68u8])
    } else {
        signature(0, vec![0xfdu8, 0x37u8, 0x7au8, 0x58u8, 0x5au8, 0x00u8])
    };
    let r = vec![s];
    assert(signatures_view(r@) =~= registry_signatures(i as int));
    r
}

fn descriptor(i: usize) -> (r: ArchiveFormatDescriptor)
    requires
        i < 8,
    ensures
        is_registry_descriptor(r, i as int),
{
    let sigs = if i == 0 {
        zip_signatures()
    } else {
        single_signature(i)
    };
    let r = if i == 0 {
        ArchiveFormatDescriptor {
            id: "zip",
            name: "ZIP Archive",
            description: "ZIP archive file",
            kind: FormatKind::Zip,
            suffixes: vec![".zip"],
            create_suffixes: vec![".zip"],
            extensions: vec!["zip"],
            mime_type: "application/zip",
            signatures: sigs,
        }
    } else if i == 1 {
        ArchiveFormatDescriptor {
            id: "tar",
            name: "Tar Archive",
            description: "Uncompressed tar archive",
            kind: FormatKind::Tar,
            suffixes: vec![".tar"],
            create_suffixes: vec![".tar"],
            extensions: vec!["tar"],
            mime_type: "application/x-tar",
            signatures: sigs,
        }
    } else if i == 2 {
        ArchiveFormatDescriptor {
            id: "tar.gz",
            name: "Tar Gzip Archive",
            description: "Tar archive compressed with gzip",
            kind: FormatKind::TarCompressed(CompressionKind::Gzip),
            suffixes: vec![".tar.gz", ".tgz"],
            create_suffixes: vec![".tar.gz", ".tgz"],
            extensions: vec!["tgz"],
            mime_type: "application/x-compressed-tar",
            signatures: sigs,
        }
    } else if i == 3 {
        ArchiveFormatDescriptor {
            id: "tar.bz2",
            name: "Tar Bzip2 Archive",
            description: "Tar archive compressed with bzip2",
            kind: FormatKind::TarCompressed(CompressionKind::Bzip2),
            suffixes: vec![".tar.bz2", ".tbz2"],
            create_suffixes: vec![".tar.bz2", ".tbz2"],
            extensions: vec!["tbz2"],
            mime_type: "application/x-bzip-compressed-tar",
            signatures: sigs,
        }
    } else if i == 4 {
        ArchiveFormatDescriptor {
            id: "tar.xz",
            name: "Tar XZ Archive",
            description: "Tar archive compressed with xz",
            kind: FormatKind::TarCompressed(CompressionKind::Xz),
            suffixes: vec![".tar.xz", ".txz"],
            create_suffixes: vec![".tar.xz", ".txz"],
            extensions: vec!["txz"],
            mime_type: "application/x-xz-compressed-tar",
            signatures: sigs,
        }
    } else if i == 5 {
        ArchiveFormatDescriptor {
            id: "gz",
            name: "Gzip Stream",
            description: "Single-file gzip stream",
            kind: FormatKind::SingleStream(CompressionKind::Gzip),
            suffixes: vec![".gz"],
            create_suffixes: Vec::new(),
            extensions: vec!["gz"],
            mime_type: "application/gzip",
            signatures: sigs,
        }
    } else if i == 6 {
        ArchiveFormatDescriptor {
            id: "bz2",
            name: "Bzip2 Stream",
            description: "Single-file bzip2 stream",
            kind: FormatKind::SingleStream(CompressionKind::Bzip2),
            suffixes: vec![".bz2"],
            create_suffixes: Vec::new(),
            extensions: vec!["bz2"],
            mime_type: "application/x-bzip2",
            signatures: sigs,
        }
    } else {
        ArchiveFormatDescriptor {
            id: "xz",
            name: "XZ Stream",
            description: "Single-file xz stream",
            kind: FormatKind::SingleStream(CompressionKind::Xz),
            suffixes: vec![".xz"],
            create_suffixes: Vec::new(),
            extensions: vec!["xz"],
            mime_type: "application/x-xz",
            signatures: sigs,
        }
    };
    assert(r.suffixes@ =~= registry_suffixes(i as int));
    assert(r.create_suffixes@ =~= (if i < 5 {
        registry_suffixes(i as int)
    } else {
        Seq::<&'static str>::empty()
    }));
    assert(r.extensions@ =~= registry_extensions(i as int));
    r
}

/// All registered archive formats, in registry order.
pub fn archive_formats() -> (r: Vec<ArchiveFormatDescriptor>)
    ensures
        r@.len() == registry_len(),
        forall|i: int| 0 <= i < registry_len() ==> is_registry_descriptor(#[trigger] r@[i], i),
{
    let mut r: Vec<ArchiveFormatDescriptor> = Vec::new();
    let mut i: usize = 0;
    while i < 8
        invariant
            i <= 8,
            r@.len() == i,
            forall|j: int| 0 <= j < i ==> is_registry_descriptor(#[trigger] r@[j], j),
        decreases 8 - i,
    {
        r.push(descriptor(i));
        i = i + 1;
    }
    r
}


// ---------------------------------------------------------------------------
// Detection by file name
// ---------------------------------------------------------------------------

/// One step of the suffix scan: a matching suffix replaces the current match
/// only when it is strictly longer.
pub open spec fn detect_step(
    name: Seq<char>,
    kind: FormatKind,
    suffix: &'static str,
    acc: Option<ArchiveFormat>,
) -> Option<ArchiveFormat> {
    if ends_with_lower(name, suffix@) && (match acc {
        None => true,
        Some(f) => suffix@.len() > f.suffix@.len(),
    }) {
        Some(ArchiveFormat { kind, suffix })
    } else {
        acc
    }
}

pub open spec fn detect_in_suffixes(
    name: Seq<char>,
    kind: FormatKind,
    suffixes: Seq<&'static str>,
    acc: Option<ArchiveFormat>,
) -> Option<ArchiveFormat>
    decreases suffixes.len(),
{
    if suffixes.len() == 0 {
        acc
    } else {
        detect_step(
            name,
            kind,
            suffixes.last(),
            detect_in_suffixes(name, kind, suffixes.drop_last(), acc),
        )
    }
}

/// The scan over the first `n` registered formats, in registry order.
pub open spec fn detect_in_registry(name: Seq<char>, n: int) -> Option<ArchiveFormat>
    decreases n,
{
    if n <= 0 {
        None
    } else {
        detect_in_suffixes(
            name,
            registry_kind(n - 1),
            registry_suffixes(n - 1),
            detect_in_registry(name, n - 1),
        )
    }
}

/// The format a file name denotes: among the registered suffixes that the
/// name ends with (ignoring ASCII case), the first of the longest ones.
pub open spec fn spec_detect_format(name: Seq<char>) -> Option<ArchiveFormat> {
    detect_in_registry(name, registry_len())
}

/// The format of a file from its name alone; `None` when no registered suffix matches.
pub fn detect_format(name: &str) -> (r: Option<ArchiveFormat>)
    ensures
        r == spec_detect_format(name@),
{
    let name_chars = chars_of(name);
    let formats = archive_formats();
    let mut matched: Option<ArchiveFormat> = None;
    let mut best_len: usize = 0;
    let mut i: usize = 0;
    while i < formats.len()
        invariant
            formats@.len() == registry_len(),
            forall|k: int| 0 <= k < registry_len() ==> is_registry_descriptor(#[trigger] formats@[k], k),
            name_chars@ == name@,
            i <= formats.len(),
            matched == detect_in_registry(name@, i as int),
            matched matches Some(f) ==> best_len == f.suffix@.len(),
        decreases formats.len() - i,
    {
        let d = &formats[i];
        assert(is_registry_descriptor(formats@[i as int], i as int));
        let ghost start = matched;
        let mut j: usize = 0;
        while j < d.suffixes.len()
            invariant
                d.suffixes@ == registry_suffixes(i as int),
                d.kind == registry_kind(i as int),
                name_chars@ == name@,
                j <= d.suffixes.len(),
                matched == detect_in_suffixes(name@, d.kind, d.suffixes@.take(j as int), start),
                matched matches Some(f) ==> best_len == f.suffix@.len(),
            decreases d.suffixes.len() - j,
        {
            let suffix = d.suffixes[j];
            let suffix_chars = chars_of(suffix);
            assert(d.suffixes@.take(j + 1).drop_last() == d.suffixes@.take(j as int));
            let longer = match matched {
                None => true,
                Some(_) => suffix_chars.len() > best_len,
            };
            if ends_with_lower_vec(&name_chars, &suffix_chars) && longer {
                matched = Some(ArchiveFormat { kind: d.kind, suffix });
                best_len = suffix_chars.len();
            }
            j = j + 1;
        }
        assert(d.suffixes@.take(d.suffixes.len() as int) == d.suffixes@);
        i = i + 1;
    }
    matched
}

/// The format of a file name, or `Unsupported` when no registered suffix matches.
pub fn required_format(name: &str) -> (r: Result<ArchiveFormat, ArcaError>)
    ensures
        r is Ok <==> spec_detect_format(name@) is Some,
        r matches Ok(f) ==> spec_detect_format(name@) == Some(f),
        r matches Err(e) ==> e is Unsupported && error_detail(e) == "unsupported archive suffix for "@ + name@,
{
    match detect_format(name) {
        Some(format) => Ok(format),
        None => Err(ArcaError::Unsupported(concat_str("unsupported archive suffix for ", name))),
    }
}

// ---------------------------------------------------------------------------
// Lookups in the registry
// ---------------------------------------------------------------------------

/// `s` without its leading dots.
pub open spec fn trim_start_dots(s: Seq<char>) -> Seq<char>
    decreases s.len(),
{
    if s.len() > 0 && s[0] == '.' {
        trim_start_dots(s.drop_first())
    } else {
        s
    }
}

/// Registered format `i` lists `ext` (compared after ASCII lower-casing `ext`).
pub open spec fn lists_extension(i: int, ext: Seq<char>) -> bool {
    exists|j: int| 0 <= j < registry_extensions(i).len() && lower_eq_seq(ext, #[trigger] registry_extensions(i)[j]@)
}

/// Registered format `i` has the kind and one of the suffixes of `format`.
pub open spec fn registers_format(i: int, format: ArchiveFormat) -> bool {
    registry_kind(i) == format.kind && exists|j: int| 0 <= j < registry_suffixes(i).len() && #[trigger] registry_suffixes(i)[j]@ == format.suffix@
}


pub fn trim_start_dots_vec(s: &Vec<char>) -> (r: Vec<char>)
    ensures
        r@ == trim_start_dots(s@),
{
    let mut start: usize = 0;
    assert(s@.skip(0) == s@);
    while start < s.len() && s[start] == '.'
        invariant
            start <= s.len(),
            trim_start_dots(s@.skip(start as int)) == trim_start_dots(s@),
        decreases s.len() - start,
    {
        assert(s@.skip(start as int).drop_first() == s@.skip(start + 1));
        start = start + 1;
    }
    let mut out: Vec<char> = Vec::new();
    let mut i: usize = start;
    while i < s.len()
        invariant
            start <= i <= s.len(),
            out@ == s@.subrange(start as int, i as int),
        decreases s.len() - i,
    {
        out.push(s[i]);
        assert(s@.subrange(start as int, i + 1) == s@.subrange(start as int, i as int).push(s@[i as int]));
        i = i + 1;
    }
    assert(s@.skip(start as int) == s@.subrange(start as int, s.len() as int));
    out
}

/// The first registered format whose extensions include `extension`, compared
/// after removing leading dots and ASCII lower-casing.
pub fn descriptor_for_extension(extension: &str) -> (r: Option<ArchiveFormatDescriptor>)
    ensures
        r is None <==> forall|i: int| 0 <= i < registry_len() ==> !lists_extension(i, trim_start_dots(extension@)),
        r matches Some(d) ==> exists|i: int| #![trigger is_registry_descriptor(d, i)]
            is_registry_descriptor(d, i) && lists_extension(i, trim_start_dots(extension@))
            && forall|k: int| 0 <= k < i ==> !lists_extension(k, trim_start_dots(extension@)),
{
    let raw = chars_of(extension);
    let ext = trim_start_dots_vec(&raw);
    let formats = archive_formats();
    let mut i: usize = 0;
    while i < formats.len()
        invariant
            formats@.len() == registry_len(),
            forall|k: int| 0 <= k < registry_len() ==> is_registry_descriptor(#[trigger] formats@[k], k),
            ext@ == trim_start_dots(extension@),
            i <= formats.len(),
            forall|k: int| 0 <= k < i ==> !lists_extension(k, ext@),
        decreases formats.len() - i,
    {
        let d = &formats[i];
        assert(is_registry_descriptor(formats@[i as int], i as int));
        let mut j: usize = 0;
        while j < d.extensions.len()
            invariant
                d.extensions@ == registry_extensions(i as int),
                i < registry_len(),
                ext@ == trim_start_dots(extension@),
                forall|k: int| 0 <= k < i ==> !lists_extension(k, ext@),
                j <= d.extensions.len(),
                forall|m: int| 0 <= m < j ==> !lower_eq_seq(ext@, #[trigger] registry_extensions(i as int)[m]@),
            decreases d.extensions.len() - j,
        {
            let candidate = chars_of(d.extensions[j]);
            if lower_eq_vec(&ext, &candidate) {
                assert(lower_eq_seq(ext@, registry_extensions(i as int)[j as int]@));
                assert(lists_extension(i as int, ext@));
                return Some(descriptor(i));
            }
            j = j + 1;
        }
        i = i + 1;
    }
    None
}

/// The registered descriptor of a detected format: the first one with the
/// same kind that lists the same suffix.
pub fn descriptor_for_format(format: ArchiveFormat) -> (r: Option<ArchiveFormatDescriptor>)
    ensures
        r is None <==> forall|i: int| 0 <= i < registry_len() ==> !registers_format(i, format),
        r matches Some(d) ==> exists|i: int| #![trigger is_registry_descriptor(d, i)]
            is_registry_descriptor(d, i) && registers_format(i, format)
            && forall|k: int| 0 <= k < i ==> !registers_format(k, format),
{
    let formats = archive_formats();
    let mut i: usize = 0;
    while i < formats.len()
        invariant
            formats@.len() == registry_len(),
            forall|k: int| 0 <= k < registry_len() ==> is_registry_descriptor(#[trigger] formats@[k], k),
            i <= formats.len(),
            forall|k: int| 0 <= k < i ==> !registers_format(k, format),
        decreases formats.len() - i,
    {
        let d = &formats[i];
        assert(is_registry_descriptor(formats@[i as int], i as int));
        if d.kind == format.kind {
            let mut j: usize = 0;
            while j < d.suffixes.len()
                invariant
                    d.suffixes@ == registry_suffixes(i as int),
                    d.kind == format.kind,
                    d.kind == registry_kind(i as int),
                    i < registry_len(),
                    forall|k: int| 0 <= k < i ==> !registers_format(k, format),
                    j <= d.suffixes.len(),
                    forall|m: int| 0 <= m < j ==> #[trigger] registry_suffixes(i as int)[m]@ != format.suffix@,
                decreases d.suffixes.len() - j,
            {
                if str_eq(d.suffixes[j], format.suffix) {
                    assert(registry_suffixes(i as int)[j as int]@ == format.suffix@);
                    assert(registers_format(i as int, format));
                    return Some(descriptor(i));
                }
                j = j + 1;
            }
        }
        i = i + 1;
    }
    None
}

/// The desktop extensions of all registered formats, flattened in registry order.
pub open spec fn extensions_upto(n: int) -> Seq<&'static str>
    decreases n,
{
    if n <= 0 {
        Seq::<&'static str>::empty()
    } else {
        extensions_upto(n - 1) + registry_extensions(n - 1)
    }
}

/// Every registered desktop file extension, in registry order.
pub fn archive_file_extensions() -> (r: Vec<&'static str>)
    ensures
        r@ == extensions_upto(registry_len()),
{
    let formats = archive_formats();
    let mut out: Vec<&'static str> = Vec::new();
    let mut i: usize = 0;
    while i < formats.len()
        invariant
            formats@.len() == registry_len(),
            forall|k: int| 0 <= k < registry_len() ==> is_registry_descriptor(#[trigger] formats@[k], k),
            i <= formats.len(),
            out@ == extensions_upto(i as int),
        decreases formats.len() - i,
    {
        let d = &formats[i];
        assert(is_registry_descriptor(formats@[i as int], i as int));
        let ghost start = out@;
        let mut j: usize = 0;
        while j < d.extensions.len()
            invariant
                j <= d.extensions.len(),
                out@ == start + d.extensions@.take(j as int),
            decreases d.extensions.len() - j,
        {
            out.push(d.extensions[j]);
            assert(d.extensions@.take(j + 1) == d.extensions@.take(j as int).push(d.extensions@[j as int]));
            j = j + 1;
        }
        assert(d.extensions@.take(d.extensions.len() as int) == d.extensions@);
        i = i + 1;
    }
    out
}

/// The short label of a format kind.
pub fn format_kind_label(kind: FormatKind) -> (r: &'static str)
    ensures
        r == spec_format_kind_label(kind),
{
    match kind {
        FormatKind::Zip => "zip",
        FormatKind::Tar => "tar",
        FormatKind::TarCompressed(CompressionKind::Gzip) => "tar.gz",
        FormatKind::TarCompressed(CompressionKind::Bzip2) => "tar.bz2",
        FormatKind::TarCompressed(CompressionKind::Xz) => "tar.xz",
        FormatKind::SingleStream(CompressionKind::Gzip) => "gz",
        FormatKind::SingleStream(CompressionKind::Bzip2) => "bz2",
        FormatKind::SingleStream(CompressionKind::Xz) => "xz",
    }
}

pub open spec fn spec_format_kind_label(kind: FormatKind) -> &'static str {
    match kind {
        FormatKind::Zip => "zip",
        FormatKind::Tar => "tar",
        FormatKind::TarCompressed(CompressionKind::Gzip) => "tar.gz",
        FormatKind::TarCompressed(CompressionKind::Bzip2) => "tar.bz2",
        FormatKind::TarCompressed(CompressionKind::Xz) => "tar.xz",
        FormatKind::SingleStream(CompressionKind::Gzip) => "gz",
        FormatKind::SingleStream(CompressionKind::Bzip2) => "bz2",
        FormatKind::SingleStream(CompressionKind::Xz) => "xz",
    }
}


// ---------------------------------------------------------------------------
// The longest registered suffix wins
// ---------------------------------------------------------------------------

/// `format` pairs a registered kind with one of that kind's registered suffixes.
pub open spec fn is_registered_format(format: ArchiveFormat) -> bool {
    exists|i: int, j: int| #![trigger registry_suffixes(i)[j]]
        0 <= i < registry_len() && 0 <= j < registry_suffixes(i).len() && registry_kind(i) == format.kind
            && registry_suffixes(i)[j] == format.suffix
}

proof fn lemma_detect_in_suffixes(
    name: Seq<char>,
    kind: FormatKind,
    suffixes: Seq<&'static str>,
    acc: Option<ArchiveFormat>,
)
    ensures
        ({
            let r = detect_in_suffixes(name, kind, suffixes, acc);
            &&& r == acc || (r matches Some(f) && f.kind == kind && ends_with_lower(name, f.suffix@)
                && exists|j: int| 0 <= j < suffixes.len() && #[trigger] suffixes[j] == f.suffix)
            &&& forall|j: int| 0 <= j < suffixes.len() && ends_with_lower(name, #[trigger] suffixes[j]@)
                ==> r is Some && suffixes[j]@.len() <= r->0.suffix@.len()
            &&& acc is Some ==> r is Some && acc->0.suffix@.len() <= r->0.suffix@.len()
        }),
    decreases suffixes.len(),
{
    if suffixes.len() > 0 {
        let prefix = suffixes.drop_last();
        lemma_detect_in_suffixes(name, kind, prefix, acc);
        let prev = detect_in_suffixes(name, kind, prefix, acc);
        let r = detect_in_suffixes(name, kind, suffixes, acc);
        assert(r == detect_step(name, kind, suffixes.last(), prev));
        if r != prev {
            assert(suffixes[suffixes.len() - 1] == r->0.suffix);
        } else if r != acc {
            let j = choose|j: int| 0 <= j < prefix.len() && #[trigger] prefix[j] == r->0.suffix;
            assert(suffixes[j] == r->0.suffix);
        }
        assert forall|j: int| 0 <= j < suffixes.len() && ends_with_lower(name, #[trigger] suffixes[j]@)
            implies r is Some && suffixes[j]@.len() <= r->0.suffix@.len() by {
            if j < suffixes.len() - 1 {
                assert(prefix[j] == suffixes[j]);
            }
        }
    }
}

proof fn lemma_detect_in_registry(name: Seq<char>, n: int)
    requires
        0 <= n <= registry_len(),
    ensures
        ({
            let r = detect_in_registry(name, n);
            &&& r matches Some(f) ==> ends_with_lower(name, f.suffix@) && exists|i: int, j: int| #![trigger registry_suffixes(i)[j]]
                0 <= i < n && 0 <= j < registry_suffixes(i).len() && registry_kind(i) == f.kind
                    && registry_suffixes(i)[j] == f.suffix
            &&& forall|i: int, j: int| #![trigger registry_suffixes(i)[j]]
                0 <= i < n && 0 <= j < registry_suffixes(i).len() && ends_with_lower(name, registry_suffixes(i)[j]@)
                ==> r is Some && registry_suffixes(i)[j]@.len() <= r->0.suffix@.len()
        }),
    decreases n,
{
    if n > 0 {
        lemma_detect_in_registry(name, n - 1);
        let prev = detect_in_registry(name, n - 1);
        lemma_detect_in_suffixes(name, registry_kind(n - 1), registry_suffixes(n - 1), prev);
        let r = detect_in_registry(name, n);
        if r != prev {
            let j = choose|j: int| 0 <= j < registry_suffixes(n - 1).len() && #[trigger] registry_suffixes(n - 1)[j] == r->0.suffix;
            assert(registry_suffixes(n - 1)[j] == r->0.suffix);
        }
        assert forall|i: int, j: int| #![trigger registry_suffixes(i)[j]]
            0 <= i < n && 0 <= j < registry_suffixes(i).len() && ends_with_lower(name, registry_suffixes(i)[j]@)
            implies r is Some && registry_suffixes(i)[j]@.len() <= r->0.suffix@.len() by {
            if i < n - 1 {
                assert(prev is Some && registry_suffixes(i)[j]@.len() <= prev->0.suffix@.len());
            }
        }
    }
}

/// The detected format is a registered suffix of a registered kind that the
/// name ends with, and no registered suffix the name ends with is longer;
/// when nothing is detected, the name ends with no registered suffix.
pub proof fn lemma_longest_suffix_wins(name: Seq<char>)
    ensures
        spec_detect_format(name) matches Some(f) ==> ends_with_lower(name, f.suffix@)
            && is_registered_format(f),
        forall|i: int, j: int| #![trigger registry_suffixes(i)[j]]
            0 <= i < registry_len() && 0 <= j < registry_suffixes(i).len() && ends_with_lower(name, registry_suffixes(i)[j]@)
            ==> spec_detect_format(name) is Some && registry_suffixes(i)[j]@.len()
                <= spec_detect_format(name)->0.suffix@.len(),
{
    lemma_detect_in_registry(name, registry_len());
}

/// Format detection by name: a format is found exactly when some registered
/// suffix ends the name, compared ignoring ASCII case (`BACKUP.ZIP` is a ZIP
/// archive, `x.rar` is nothing); the format found is a registered one whose
/// suffix ends the name, and no registered suffix that ends the name is
/// longer (`a.tar.gz` is a compressed tar, not a gzip stream).
pub proof fn law_detect_format(name: Seq<char>)
    ensures
        spec_detect_format(name) is Some <==> exists|i: int, j: int| #![trigger registry_suffixes(i)[j]]
            0 <= i < registry_len() && 0 <= j < registry_suffixes(i).len() && ends_with_lower(name, registry_suffixes(i)[j]@),
        spec_detect_format(name) matches Some(f) ==> ends_with_lower(name, f.suffix@) && is_registered_format(f),
        forall|i: int, j: int| #![trigger registry_suffixes(i)[j]]
            0 <= i < registry_len() && 0 <= j < registry_suffixes(i).len() && ends_with_lower(name, registry_suffixes(i)[j]@)
            ==> registry_suffixes(i)[j]@.len() <= spec_detect_format(name)->0.suffix@.len(),
{
    lemma_longest_suffix_wins(name);
    if spec_detect_format(name) is Some {
        let f = spec_detect_format(name)->0;
        let (i, j) = choose|i: int, j: int| #![trigger registry_suffixes(i)[j]] 0 <= i < registry_len() && 0 <= j
            < registry_suffixes(i).len() && registry_kind(i) == f.kind && registry_suffixes(i)[j] == f.suffix;
        assert(ends_with_lower(name, registry_suffixes(i)[j]@));
    }
}

// ---------------------------------------------------------------------------
// Output names
// ---------------------------------------------------------------------------

/// The name without the format's suffix; `archive` when nothing is left.
pub open spec fn spec_strip_suffix(name: Seq<char>, suffix: Seq<char>) -> Seq<char> {
    let stem = name.take(name.len() - suffix.len());
    if stem.len() == 0 {
        "archive"@
    } else {
        stem
    }
}

/// Extracting without a destination writes next to the archive under its
/// own name with the suffix cut off: where something is left, the default
/// name followed by the suffix as the name spells it is the name itself, and
/// a name that is only the suffix gives `archive`. With
/// the detected format, the cut is at least as long as every registered
/// suffix the name ends with, so `backup.tar.gz` gives `backup`.
pub proof fn law_strip_suffix(name: Seq<char>, suffix: Seq<char>)
    requires
        ends_with_lower(name, suffix),
    ensures
        name.len() == suffix.len() ==> spec_strip_suffix(name, suffix) == "archive"@,
        name.len() > suffix.len() ==> spec_strip_suffix(name, suffix).len() + suffix.len() == name.len(),
        name.len() > suffix.len() ==> spec_strip_suffix(name, suffix) + name.skip(name.len() - suffix.len()) == name,
        name.len() > suffix.len() ==> spec_strip_suffix(name, suffix).is_prefix_of(name),
        name.len() > suffix.len() ==> (spec_detect_format(name) matches Some(f) && suffix == f.suffix@ ==> forall|i: int, j: int|
            #![trigger registry_suffixes(i)[j]]
            0 <= i < registry_len() && 0 <= j < registry_suffixes(i).len() && ends_with_lower(
                name,
                registry_suffixes(i)[j]@,
            ) ==> spec_strip_suffix(name, suffix).len() <= name.len() - registry_suffixes(i)[j]@.len()),
{
    assert(name.take(name.len() - suffix.len()) + name.skip(name.len() - suffix.len()) =~= name);
    lemma_longest_suffix_wins(name);
    if name.len() == suffix.len() {
        assert(name.take(0).len() == 0);
    }
}

/// The file name that an archive extracts to by default: its own name without
/// the format suffix (`archive` when the name is only the suffix).
pub fn strip_archive_suffix(name: &str, format: ArchiveFormat) -> (r: String)
    requires
        ends_with_lower(name@, format.suffix@),
    ensures
        r@ == spec_strip_suffix(name@, format.suffix@),
        name@.len() > format.suffix@.len() ==> r@ + name@.skip(name@.len() - format.suffix@.len()) == name@,
{
    let chars = chars_of(name);
    let suffix = chars_of(format.suffix);
    proof {
        if name@.len() > format.suffix@.len() {
            law_strip_suffix(name@, format.suffix@);
        }
    }
    let stem = prefix_vec(&chars, chars.len() - suffix.len());
    if stem.len() == 0 {
        "archive".to_owned()
    } else {
        string_of(&stem)
    }
}

/// The default extraction destination name of an archive.
pub fn default_extract_destination(name: &str, format: ArchiveFormat) -> (r: String)
    requires
        ends_with_lower(name@, format.suffix@),
    ensures
        r@ == spec_strip_suffix(name@, format.suffix@),
        name@.len() > format.suffix@.len() ==> r@.len() + format.suffix@.len() == name@.len() && r@.is_prefix_of(
            name@,
        ),
{
    proof {
        if name@.len() > format.suffix@.len() {
            law_strip_suffix(name@, format.suffix@);
        }
    }
    strip_archive_suffix(name, format)
}

/// The tar-based suffix that a single-stream suffix is widened to.
pub open spec fn auto_tar_replacement(kind: FormatKind) -> Option<&'static str> {
    match kind {
        FormatKind::SingleStream(CompressionKind::Gzip) => Some(".tar.gz"),
        FormatKind::SingleStream(CompressionKind::Bzip2) => Some(".tar.bz2"),
        FormatKind::SingleStream(CompressionKind::Xz) => Some(".tar.xz"),
        _ => None,
    }
}

/// The character `m` places from the end of a text.
spec fn from_back(s: Seq<char>, m: int) -> char {
    s[s.len() - 1 - m]
}

/// The tar suffix a compressed stream suffix is widened to ends a name only
/// as itself among the registered suffixes: a name ending with it is
/// detected as the compressed tar format of that registry entry.
proof fn lemma_detect_tar_suffix(stem: Seq<char>, i: int)
    requires
        2 <= i <= 4,
    ensures
        spec_detect_format(stem + registry_suffixes(i)[0]@) matches Some(f) && f.kind == registry_kind(i)
            && f.suffix@ == registry_suffixes(i)[0]@,
{
    let rep = registry_suffixes(i)[0]@;
    let r = stem + rep;
    lemma_registry_suffix_texts();
    law_format_registry();
    assert(well_formed_suffix(rep));
    assert(r.skip(r.len() - rep.len()) =~= rep);
    assert forall|k: int| 0 <= k < rep.len() implies lower_eq(#[trigger] r.skip(r.len() - rep.len())[k], rep[k]) by {
        assert(('a' <= rep[k] && rep[k] <= 'z') || ('0' <= rep[k] && rep[k] <= '9') || rep[k] == '.');
    }
    assert(ends_with_lower(r, rep));
    lemma_longest_suffix_wins(r);
    assert(registry_suffixes(i)[0]@.len() <= spec_detect_format(r)->0.suffix@.len());
    let f = spec_detect_format(r)->0;
    let (i2, j2) = choose|i2: int, j2: int| #![trigger registry_suffixes(i2)[j2]] 0 <= i2 < registry_len() && 0 <= j2
        < registry_suffixes(i2).len() && registry_kind(i2) == f.kind && registry_suffixes(i2)[j2] == f.suffix;
    let t = f.suffix@;
    assert(well_formed_suffix(registry_suffixes(i2)[j2]@));
    assert forall|m: int| 0 <= m < rep.len() implies #[trigger] from_back(t, m) == from_back(rep, m) by {
        let k = t.len() - 1 - m;
        assert(lower_eq(r.skip(r.len() - t.len())[k], t[k]));
        assert(r.skip(r.len() - t.len())[k] == rep[rep.len() - 1 - m]);
        let c = rep[rep.len() - 1 - m];
        assert(('a' <= c && c <= 'z') || ('0' <= c && c <= '9') || c == '.');
    }
    if t != rep {
        if t.len() == rep.len() {
            assert(t =~= rep) by {
                assert forall|k: int| 0 <= k < t.len() implies t[k] == rep[k] by {
                    assert(from_back(t, t.len() - 1 - k) == from_back(rep, t.len() - 1 - k));
                }
            }
        }
        assert(from_back(t, 0) == from_back(rep, 0));
        assert(from_back(t, 1) == from_back(rep, 1));
        assert(from_back(t, 2) == from_back(rep, 2));
        assert(false);
    }
    if i2 != i {
        assert(registry_suffixes(i)[0]@ != registry_suffixes(i2)[j2]@);
    }
}

/// Widening a directory's single-stream output to a tar archive keeps its
/// compression: the stream suffix is replaced by the first registered suffix
/// of the compressed tar format with the same compression, and the widened
/// name is detected as that format (`docs.bz2` becomes `docs.tar.bz2`, a
/// bzip2-compressed tar archive). Other formats are not widened.
pub proof fn law_auto_tar_keeps_compression(stem: Seq<char>, kind: FormatKind)
    ensures
        auto_tar_replacement(kind) is Some <==> kind is SingleStream,
        kind matches FormatKind::SingleStream(c) ==> (exists|i: int|
            0 <= i < registry_len() && registry_kind(i) == FormatKind::TarCompressed(c) && #[trigger] registry_suffixes(
                i,
            )[0]@ == auto_tar_replacement(kind)->0@),
        kind matches FormatKind::SingleStream(c) ==> (spec_detect_format(stem + auto_tar_replacement(kind)->0@) matches Some(
            f,
        ) && f.kind == FormatKind::TarCompressed(c)),
{
    lemma_registry_suffix_texts();
    match kind {
        FormatKind::SingleStream(c) => {
            let i: int = match c {
                CompressionKind::Gzip => 2,
                CompressionKind::Bzip2 => 3,
                CompressionKind::Xz => 4,
            };
            reveal_strlit(".tar.gz");
            reveal_strlit(".tar.bz2");
            reveal_strlit(".tar.xz");
            assert(registry_suffixes(i)[0]@ == auto_tar_replacement(kind)->0@);
            lemma_detect_tar_suffix(stem, i);
        },
        _ => {},
    }
}

/// The output name when a directory is written to a single-stream format:
/// the stream suffix is replaced by the matching tar suffix. Other formats
/// keep the name.
pub fn auto_tar_output(name: &str, format: ArchiveFormat) -> (r: String)
    requires
        ends_with_lower(name@, format.suffix@),
    ensures
        r@ == match auto_tar_replacement(format.kind) {
            Some(rep) => name@.take(name@.len() - format.suffix@.len()) + rep@,
            None => name@,
        },
        format.kind matches FormatKind::SingleStream(c) ==> (spec_detect_format(r@) matches Some(f) && f.kind
            == FormatKind::TarCompressed(c)),
{
    proof {
        law_auto_tar_keeps_compression(name@.take(name@.len() - format.suffix@.len()), format.kind);
    }
    let replacement = match format.kind {
        FormatKind::SingleStream(CompressionKind::Gzip) => ".tar.gz",
        FormatKind::SingleStream(CompressionKind::Bzip2) => ".tar.bz2",
        FormatKind::SingleStream(CompressionKind::Xz) => ".tar.xz",
        _ => {
            return name.to_owned();
        },
    };
    let chars = chars_of(name);
    let suffix = chars_of(format.suffix);
    let stem = prefix_vec(&chars, chars.len() - suffix.len());
    let mut out = string_of(&stem);
    out.append(replacement);
    out
}

/// `Path::extension` of a file name is present: there is a dot after the first character.
pub open spec fn has_extension(name: Seq<char>) -> bool {
    exists|i: int| 1 <= i < name.len() && name[i] == '.'
}

fn has_extension_exec(name: &Vec<char>) -> (r: bool)
    ensures
        r == has_extension(name@),
{
    let mut i: usize = 1;
    while i < name.len()
        invariant
            1 <= i,
            forall|k: int| 1 <= k < i && k < name.len() ==> name@[k] != '.',
        decreases name.len() - i,
    {
        if name[i] == '.' {
            return true;
        }
        i = i + 1;
    }
    false
}

/// The file name of a compression output: names with a registered suffix are
/// kept, names without any extension get `.zip`, and any other extension is
/// refused as `Unsupported` rather than silently reinterpreted.
pub fn normalize_output_file_name(name: &str) -> (r: Result<String, ArcaError>)
    ensures
        r is Ok <==> spec_detect_format(name@) is Some || !has_extension(name@),
        r matches Ok(out) ==> out@ == (if spec_detect_format(name@) is Some {
            name@
        } else {
            name@ + ".zip"@
        }),
        r matches Err(e) ==> e is Unsupported && error_detail(e) == "unsupported archive suffix for "@ + name@,
{
    if detect_format(name).is_some() {
        return Ok(name.to_owned());
    }
    let chars = chars_of(name);
    if has_extension_exec(&chars) {
        return Err(ArcaError::Unsupported(concat_str("unsupported archive suffix for ", name)));
    }
    Ok(concat_str(name, ".zip"))
}

/// The output name when none is given: the single input's file name plus
/// `.zip`, or `archive.zip` for several inputs. An input list entry is `None`
/// when that input has no UTF-8 file name.
pub fn default_compress_output(input_names: &Vec<Option<String>>) -> (r: Result<String, ArcaError>)
    ensures
        input_names@.len() == 0 ==> (r matches Err(e) && e is Usage && error_detail(e)
            == "compress requires at least one input"@),
        input_names@.len() == 1 ==> match input_names@[0] {
            Some(n) => r matches Ok(out) && out@ == n@ + ".zip"@,
            None => r matches Err(e) && e is NonUtf8Path && error_detail(e) == "input file name"@,
        },
        input_names@.len() > 1 ==> (r matches Ok(out) && out@ == "archive.zip"@),
{
    if input_names.len() == 0 {
        return Err(ArcaError::Usage("compress requires at least one input".to_owned()));
    }
    if input_names.len() == 1 {
        return match &input_names[0] {
            Some(n) => Ok(concat_str(n.as_str(), ".zip")),
            None => Err(ArcaError::NonUtf8Path("input file name".to_owned())),
        };
    }
    Ok("archive.zip".to_owned())
}

/// The file name a single-stream archive decompresses to, or `Usage` when the
/// name denotes a container format (`Unsupported` when it denotes no format).
pub fn single_stream_output_name(archive_name: &str) -> (r: Result<String, ArcaError>)
    ensures
        match spec_detect_format(archive_name@) {
            None => r matches Err(e) && e is Unsupported && error_detail(e) == "unsupported archive suffix for "@
                + archive_name@,
            Some(f) => if f.kind is SingleStream {
                r matches Ok(out) && out@ == spec_strip_suffix(archive_name@, f.suffix@)
            } else {
                r matches Err(e) && e is Usage && error_detail(e)
                    == "single stream output requested for container format"@
            },
        },
{
    let format = required_format(archive_name)?;
    if !format.is_single_stream() {
        return Err(
            ArcaError::Usage("single stream output requested for container format".to_owned()),
        );
    }
    proof {
        lemma_longest_suffix_wins(archive_name@);
    }
    Ok(strip_archive_suffix(archive_name, format))
}

/// Whether one of the signatures is found: `reads[i]` holds the bytes read
/// at the `i`-th signature's offset, as many as it has, or nothing where they
/// could not be read.
pub open spec fn signature_found(signatures: Seq<FormatSignature>, reads: Seq<Option<Vec<u8>>>) -> bool {
    exists|i: int|
        0 <= i < signatures.len() && (#[trigger] reads[i] matches Some(bytes) && bytes@ == signatures[i].bytes@)
}

/// Whether a file's bytes carry one of a format's signatures, given what was
/// read at each signature's offset (in the order of `signatures`).
pub fn descriptor_matches_signature(descriptor: &ArchiveFormatDescriptor, reads: &Vec<Option<Vec<u8>>>) -> (r: bool)
    requires
        reads@.len() == descriptor.signatures@.len(),
    ensures
        r == signature_found(descriptor.signatures@, reads@),
{
    let mut i: usize = 0;
    while i < reads.len()
        invariant
            reads@.len() == descriptor.signatures@.len(),
            i <= reads@.len(),
            forall|j: int|
                0 <= j < i ==> !(#[trigger] reads@[j] matches Some(bytes) && bytes@ == descriptor.signatures@[j].bytes@),
        decreases reads.len() - i,
    {
        match &reads[i] {
            Some(bytes) => {
                let expected = &descriptor.signatures[i].bytes;
                let mut same = bytes.len() == expected.len();
                let mut k: usize = 0;
                while same && k < bytes.len()
                    invariant
                        same ==> bytes@.len() == expected@.len(),
                        k <= bytes@.len(),
                        same ==> forall|m: int| 0 <= m < k ==> bytes@[m] == expected@[m],
                        !same ==> bytes@ != expected@,
                    decreases bytes.len() - k + (if same { 1int } else { 0int }),
                {
                    if bytes[k] != expected[k] {
                        same = false;
                    } else {
                        k = k + 1;
                    }
                }
                if same {
                    assert(bytes@ =~= expected@);
                    return true;
                }
            },
            None => {},
        }
        i = i + 1;
    }
    false
}

} // verus!
