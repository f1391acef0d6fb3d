use vstd::prelude::*;

use crate::digest::{hex_char, hex_text};
use crate::format::{
    archive_file_extensions, descriptor_for_extension, lists_extension, registry_len, trim_start_dots,
    trim_start_dots_vec, ArchiveFormatDescriptor,
};
use crate::operations::CommandError;
use crate::text::{
    chars_of, concat_str, join_strings, push_char, string_of, trim_ws, trim_ws_vec,
};

verus! {

broadcast use vstd::string::group_string_axioms;

// ---------------------------------------------------------------------------
// Format capabilities
// ---------------------------------------------------------------------------

/// A byte signature as the editor receives it.
#[derive(Clone, Debug)]
pub struct GuiFormatSignature {
    pub offset: u64,
    pub bytes_hex: String,
}

/// What the editor can do with one archive format.
#[derive(Clone, Debug)]
pub struct GuiArchiveFormatCapability {
    pub id: &'static str,
    pub name: &'static str,
    pub description: &'static str,
    pub suffixes: Vec<&'static str>,
    pub create_suffixes: Vec<&'static str>,
    pub extensions: Vec<&'static str>,
    pub mime_type: &'static str,
    pub supports_create: bool,
    pub supports_extract: bool,
    pub supports_test: bool,
    pub supports_direct_edit: bool,
    pub signatures: Vec<GuiFormatSignature>,
}

/// Bytes as lowercase hexadecimal, two digits per byte.
pub fn bytes_hex(bytes: &[u8]) -> (r: String)
    ensures
        r@ == hex_text(bytes@),
{
    let mut out = String::new();
    let mut i: usize = 0;
    while i < bytes.len()
        invariant
            i <= bytes@.len(),
            out@ == hex_text(bytes@.take(i as int)),
        decreases bytes.len() - i,
    {
        let b = bytes[i];
        push_char(&mut out, hex_digit_char(b / 16));
        push_char(&mut out, hex_digit_char(b % 16));
        proof {
            assert(bytes@.take(i + 1).drop_last() == bytes@.take(i as int));
            assert(bytes@.take(i + 1).last() == b);
        }
        i = i + 1;
    }
    assert(bytes@.take(bytes@.len() as int) == bytes@);
    out
}

fn hex_digit_char(v: u8) -> (c: char)
    requires
        v < 16,
    ensures
        c == hex_char(v),
{
    if v < 10 {
        ((48u8 + v) as char)
    } else {
        ((97u8 + (v - 10)) as char)
    }
}

/// What the editor shows of a registered format: its texts and suffixes,
/// whether it can be created and edited in place (every format can be
/// extracted and tested), and its signatures in hexadecimal.
pub fn gui_archive_format_capability(descriptor: &ArchiveFormatDescriptor) -> (r: GuiArchiveFormatCapability)
    ensures
        r.id == descriptor.id && r.name == descriptor.name && r.description == descriptor.description,
        r.suffixes@ == descriptor.suffixes@ && r.create_suffixes@ == descriptor.create_suffixes@,
        r.extensions@ == descriptor.extensions@ && r.mime_type == descriptor.mime_type,
        r.supports_create == (descriptor.create_suffixes@.len() > 0),
        r.supports_direct_edit == (descriptor.kind is Zip),
        r.supports_extract && r.supports_test,
        r.signatures@.len() == descriptor.signatures@.len(),
        forall|i: int| 0 <= i < r.signatures@.len() ==> (#[trigger] r.signatures@[i]).offset == descriptor.signatures@[i].offset
            && r.signatures@[i].bytes_hex@ == hex_text(descriptor.signatures@[i].bytes@),
{
    let mut signatures: Vec<GuiFormatSignature> = Vec::new();
    let mut i: usize = 0;
    while i < descriptor.signatures.len()
        invariant
            i <= descriptor.signatures@.len(),
            signatures@.len() == i,
            forall|k: int| 0 <= k < i ==> (#[trigger] signatures@[k]).offset == descriptor.signatures@[k].offset
                && signatures@[k].bytes_hex@ == hex_text(descriptor.signatures@[k].bytes@),
        decreases descriptor.signatures.len() - i,
    {
        let signature = &descriptor.signatures[i];
        signatures.push(GuiFormatSignature { offset: signature.offset, bytes_hex: bytes_hex(signature.bytes.as_slice()) });
        i = i + 1;
    }
    GuiArchiveFormatCapability {
        id: descriptor.id,
        name: descriptor.name,
        description: descriptor.description,
        suffixes: copy_texts(&descriptor.suffixes),
        create_suffixes: copy_texts(&descriptor.create_suffixes),
        extensions: copy_texts(&descriptor.extensions),
        mime_type: descriptor.mime_type,
        supports_create: descriptor.supports_create(),
        supports_extract: true,
        supports_test: true,
        supports_direct_edit: descriptor.supports_direct_edit(),
        signatures,
    }
}

fn copy_texts(texts: &Vec<&'static str>) -> (r: Vec<&'static str>)
    ensures
        r@ == texts@,
{
    let mut out: Vec<&'static str> = Vec::new();
    let mut i: usize = 0;
    while i < texts.len()
        invariant
            i <= texts@.len(),
            out@ == texts@.take(i as int),
        decreases texts.len() - i,
    {
        out.push(texts[i]);
        assert(texts@.take(i + 1) == texts@.take(i as int).push(texts@[i as int]));
        i = i + 1;
    }
    assert(texts@.take(texts@.len() as int) == texts@);
    out
}

// ---------------------------------------------------------------------------
// File extensions
// ---------------------------------------------------------------------------

/// ASCII lower-casing of one character.
pub open spec fn ascii_lower_char(c: char) -> char {
    if 'A' <= c && c <= 'Z' {
        ((c as u8) + 32) as char
    } else {
        c
    }
}

/// ASCII lower-casing of each character (`str::to_ascii_lowercase`).
pub open spec fn ascii_lowercase(s: Seq<char>) -> Seq<char> {
    s.map_values(|c: char| ascii_lower_char(c))
}

fn ascii_lowercase_vec(s: &Vec<char>) -> (r: Vec<char>)
    ensures
        r@ == ascii_lowercase(s@),
{
    let mut out: Vec<char> = Vec::new();
    let mut i: usize = 0;
    while i < s.len()
        invariant
            i <= s@.len(),
            out@ == ascii_lowercase(s@.take(i as int)),
        decreases s.len() - i,
    {
        let c = s[i];
        let lower = if 'A' <= c && c <= 'Z' {
            ((c as u8) + 32) as char
        } else {
            c
        };
        out.push(lower);
        proof {
            assert(s@.take(i + 1) == s@.take(i as int).push(c));
            assert(ascii_lowercase(s@.take(i + 1)) =~= ascii_lowercase(s@.take(i as int)).push(ascii_lower_char(c)));
        }
        i = i + 1;
    }
    assert(s@.take(s@.len() as int) == s@);
    out
}

/// An extension as the file association settings name it: without white
/// space around it or leading dots, in ASCII lower case.
pub open spec fn normalized_extension(extension: Seq<char>) -> Seq<char> {
    ascii_lowercase(trim_start_dots(trim_ws(extension)))
}

/// The extension a file association setting refers to; `usage` when no
/// registered format lists it.
pub fn normalized_file_association_extension(extension: &str) -> (r: Result<String, CommandError>)
    ensures
        r is Ok <==> exists|i: int| 0 <= i < registry_len() && #[trigger] lists_extension(i, trim_start_dots(normalized_extension(extension@))),
        r matches Ok(n) ==> n@ == normalized_extension(extension@),
        r matches Err(e) ==> e.code == "usage" && e.message@ == "unsupported archive file extension: "@ + extension@,
{
    let chars = chars_of(extension);
    let trimmed = trim_ws_vec(&chars);
    let undotted = trim_start_dots_vec(&trimmed);
    let lowered = ascii_lowercase_vec(&undotted);
    let normalized = string_of(&lowered);
    let found = descriptor_for_extension(normalized.as_str());
    proof {
        let key = trim_start_dots(normalized@);
        if found is None {
            assert(forall|i: int| 0 <= i < registry_len() ==> !lists_extension(i, key));
        } else {
            let d = found->0;
            let i = choose|i: int| #![trigger crate::format::is_registry_descriptor(d, i)]
                crate::format::is_registry_descriptor(d, i) && lists_extension(i, key)
                && forall|k: int| 0 <= k < i ==> !lists_extension(k, key);
            assert(0 <= i < registry_len() && lists_extension(i, key));
            assert(normalized@ == normalized_extension(extension@));
            assert(exists|j: int| 0 <= j < registry_len() && #[trigger] lists_extension(j, trim_start_dots(normalized_extension(extension@))));
        }
    }
    match found {
        Some(_) => Ok(normalized),
        None => Err(CommandError::usage(concat_str("unsupported archive file extension: ", extension))),
    }
}

/// The extensions the file association settings cover: those of the
/// registered formats, in registry order.
pub fn file_association_extensions() -> (r: Vec<&'static str>)
    ensures
        r@ == crate::format::extensions_upto(registry_len()),
{
    archive_file_extensions()
}

// ---------------------------------------------------------------------------
// Association status
// ---------------------------------------------------------------------------

/// Whether the editor handles one extension, and through which parts of the
/// system's association settings.
#[derive(Clone, Debug)]
pub struct FileAssociationEntry {
    pub extension: String,
    pub enabled: bool,
    pub default_handler: bool,
    pub registered_handler: bool,
    pub open_with_handler: bool,
    pub open_command: bool,
    pub extract_command: bool,
    pub test_command: bool,
}

/// The association settings of all extensions.
#[derive(Clone, Debug)]
pub struct FileAssociationStatus {
    pub supported: bool,
    pub entries: Vec<FileAssociationEntry>,
    pub message: Option<&'static str>,
}

/// The status of an extension from what the Linux desktop settings show: it
/// is enabled when the editor is the default and an open-with handler, its
/// desktop entry is registered and opens archives; extracting and testing
/// come with the registered entry.
pub fn linux_file_association_entry(
    extension: &str,
    default_handler: bool,
    registered_handler: bool,
    open_with_handler: bool,
    open_command: bool,
) -> (r: FileAssociationEntry)
    ensures
        r.extension@ == extension@,
        r.enabled == (default_handler && registered_handler && open_with_handler && open_command),
        r.default_handler == default_handler && r.registered_handler == registered_handler,
        r.open_with_handler == open_with_handler && r.open_command == open_command,
        r.extract_command == registered_handler && r.test_command == registered_handler,
{
    FileAssociationEntry {
        extension: extension.to_owned(),
        enabled: default_handler && registered_handler && open_with_handler && open_command,
        default_handler,
        registered_handler,
        open_with_handler,
        open_command,
        extract_command: registered_handler,
        test_command: registered_handler,
    }
}

/// The status of an extension from what the Windows registry shows: it is
/// enabled when every part is registered.
pub fn windows_file_association_entry(
    extension: &str,
    default_handler: bool,
    registered_handler: bool,
    open_with_handler: bool,
    open_command: bool,
    extract_command: bool,
    test_command: bool,
) -> (r: FileAssociationEntry)
    ensures
        r.extension@ == extension@,
        r.enabled == (default_handler && registered_handler && open_with_handler && open_command && extract_command
            && test_command),
        r.default_handler == default_handler && r.registered_handler == registered_handler,
        r.open_with_handler == open_with_handler && r.open_command == open_command,
        r.extract_command == extract_command && r.test_command == test_command,
{
    FileAssociationEntry {
        extension: extension.to_owned(),
        enabled: default_handler && registered_handler && open_with_handler && open_command && extract_command
            && test_command,
        default_handler,
        registered_handler,
        open_with_handler,
        open_command,
        extract_command,
        test_command,
    }
}

/// The status where file associations cannot be set: every extension
/// listed, nothing enabled, and the reason.
pub fn unsupported_file_association_status(message: &'static str) -> (r: FileAssociationStatus)
    ensures
        !r.supported,
        r.message == Some(message),
        r.entries@.len() == crate::format::extensions_upto(registry_len()).len(),
        forall|i: int| 0 <= i < r.entries@.len() ==> {
            let e = #[trigger] r.entries@[i];
            &&& e.extension@ == crate::format::extensions_upto(registry_len())[i]@
            &&& !e.enabled && !e.default_handler && !e.registered_handler && !e.open_with_handler
            &&& !e.open_command && !e.extract_command && !e.test_command
        },
{
    let extensions = file_association_extensions();
    let mut entries: Vec<FileAssociationEntry> = Vec::new();
    let mut i: usize = 0;
    while i < extensions.len()
        invariant
            i <= extensions@.len(),
            extensions@ == crate::format::extensions_upto(registry_len()),
            entries@.len() == i,
            forall|k: int| 0 <= k < i ==> {
                let e = #[trigger] entries@[k];
                &&& e.extension@ == extensions@[k]@
                &&& !e.enabled && !e.default_handler && !e.registered_handler && !e.open_with_handler
                &&& !e.open_command && !e.extract_command && !e.test_command
            },
        decreases extensions.len() - i,
    {
        entries.push(
            FileAssociationEntry {
                extension: extensions[i].to_owned(),
                enabled: false,
                default_handler: false,
                registered_handler: false,
                open_with_handler: false,
                open_command: false,
                extract_command: false,
                test_command: false,
            },
        );
        i = i + 1;
    }
    FileAssociationStatus { supported: false, entries, message: Some(message) }
}

// ---------------------------------------------------------------------------
// Linux desktop integration
// ---------------------------------------------------------------------------

/// The desktop file ids the editor has been installed under.
pub open spec fn is_arca_desktop_id_text(id: Seq<char>) -> bool {
    id == "com.crasnec.arca.desktop"@ || id == "arca-gui.desktop"@ || id == "Arca.desktop"@ || id
        == "arca.desktop"@
}

/// Whether a desktop file id is one of the editor's.
pub fn linux_is_arca_desktop_id(desktop_id: &str) -> (r: bool)
    ensures
        r == is_arca_desktop_id_text(desktop_id@),
{
    crate::text::str_eq(desktop_id, "com.crasnec.arca.desktop") || crate::text::str_eq(desktop_id, "arca-gui.desktop")
        || crate::text::str_eq(desktop_id, "Arca.desktop") || crate::text::str_eq(desktop_id, "arca.desktop")
}

/// Extra MIME types some desktops use for an extension.
pub open spec fn spec_mime_aliases(extension: Seq<char>) -> Seq<&'static str> {
    if extension == "zip"@ {
        seq!["application/x-zip-compressed"]
    } else if extension == "gz"@ {
        seq!["application/x-gzip"]
    } else if extension == "bz2"@ {
        seq!["application/x-bzip"]
    } else if extension == "tbz2"@ {
        seq!["application/x-bzip2-compressed-tar"]
    } else if extension == "tgz"@ {
        seq!["application/x-gtar-compressed"]
    } else {
        Seq::<&'static str>::empty()
    }
}

/// Extra MIME types some desktops use for an extension.
pub fn linux_mime_aliases_for_extension(extension: &str) -> (r: Vec<&'static str>)
    ensures
        r@ == spec_mime_aliases(extension@),
{
    if crate::text::str_eq(extension, "zip") {
        vec!["application/x-zip-compressed"]
    } else if crate::text::str_eq(extension, "gz") {
        vec!["application/x-gzip"]
    } else if crate::text::str_eq(extension, "bz2") {
        vec!["application/x-bzip"]
    } else if crate::text::str_eq(extension, "tbz2") {
        vec!["application/x-bzip2-compressed-tar"]
    } else if crate::text::str_eq(extension, "tgz") {
        vec!["application/x-gtar-compressed"]
    } else {
        Vec::new()
    }
}

/// The texts of a list, by view.
pub open spec fn text_views(texts: Seq<&'static str>) -> Seq<Seq<char>> {
    texts.map_values(|t: &'static str| t@)
}

/// Adds a MIME type to a list unless it is already there.
pub fn push_unique_mime_type(mime_types: &mut Vec<&'static str>, mime_type: &'static str)
    ensures
        text_views(old(mime_types)@).contains(mime_type@) ==> final(mime_types)@ == old(mime_types)@,
        !text_views(old(mime_types)@).contains(mime_type@) ==> final(mime_types)@ == old(mime_types)@.push(mime_type),
{
    let mut i: usize = 0;
    while i < mime_types.len()
        invariant
            i <= mime_types@.len(),
            mime_types@ == old(mime_types)@,
            forall|k: int| 0 <= k < i ==> mime_types@[k]@ != mime_type@,
        decreases mime_types.len() - i,
    {
        if crate::text::str_eq(mime_types[i], mime_type) {
            assert(text_views(mime_types@)[i as int] == mime_type@);
            return;
        }
        i = i + 1;
    }
    proof {
        assert(!text_views(mime_types@).contains(mime_type@)) by {
            if text_views(mime_types@).contains(mime_type@) {
                let k = choose|k: int| 0 <= k < text_views(mime_types@).len() && text_views(mime_types@)[k] == mime_type@;
                assert(mime_types@[k]@ == mime_type@);
            }
        }
    }
    mime_types.push(mime_type);
}

/// Quotes a path for the `Exec` key of a desktop entry: backslashes, double
/// quotes, dollar signs and backquotes escaped with a backslash, the whole in
/// double quotes.
pub open spec fn desktop_exec_quoted(path: Seq<char>) -> Seq<char> {
    seq!['"'] + desktop_exec_escaped(path) + seq!['"']
}

/// Each special character of a path escaped with a backslash.
pub open spec fn desktop_exec_escaped(path: Seq<char>) -> Seq<char>
    decreases path.len(),
{
    if path.len() == 0 {
        Seq::<char>::empty()
    } else {
        let c = path.last();
        let head = desktop_exec_escaped(path.drop_last());
        if c == '\\' || c == '"' || c == '$' || c == '`' {
            head.push('\\').push(c)
        } else {
            head.push(c)
        }
    }
}

/// The `Exec` path of the editor's desktop entry.
pub fn linux_desktop_exec_path(path: &str) -> (r: String)
    ensures
        r@ == desktop_exec_quoted(path@),
{
    let chars = chars_of(path);
    let mut out = String::new();
    push_char(&mut out, '"');
    let mut i: usize = 0;
    while i < chars.len()
        invariant
            i <= chars@.len(),
            chars@ == path@,
            out@ == seq!['"'] + desktop_exec_escaped(chars@.take(i as int)),
        decreases chars.len() - i,
    {
        let c = chars[i];
        let ghost before = out@;
        if c == '\\' || c == '"' || c == '$' || c == '`' {
            push_char(&mut out, '\\');
        }
        push_char(&mut out, c);
        proof {
            assert(chars@.take(i + 1).drop_last() == chars@.take(i as int));
            assert(chars@.take(i + 1).last() == c);
        }
        i = i + 1;
    }
    push_char(&mut out, '"');
    assert(chars@.take(chars@.len() as int) == chars@);
    out
}

/// The desktop entry the editor installs, with its `Exec` line and the MIME
/// types it handles.
pub fn linux_desktop_entry_contents(exec_path: &str, mime_types: &Vec<&'static str>) -> (r: String)
    ensures
        r@ == "[Desktop Entry]\nVersion=1.0\nType=Application\nName=Arca\nGenericName=Archive Manager\nComment=Open and manage archive files\nExec="@
            + exec_path@ + " --arca-shell-open %f\nIcon=arca-gui\nTerminal=false\nCategories=Utility;Archiving;\nMimeType="@
            + crate::text::join_seqs(text_views(mime_types@), ";"@) + ";\nNoDisplay=false\nStartupNotify=true\n"@,
{
    let mut owned: Vec<String> = Vec::new();
    let mut i: usize = 0;
    while i < mime_types.len()
        invariant
            i <= mime_types@.len(),
            crate::text::string_views(owned@) == text_views(mime_types@.take(i as int)),
        decreases mime_types.len() - i,
    {
        let ghost before = owned@;
        let text = mime_types[i].to_owned();
        owned.push(text);
        proof {
            assert(mime_types@.take(i + 1) == mime_types@.take(i as int).push(mime_types@[i as int]));
            assert(owned@ == before.push(text));
            assert(crate::text::string_views(owned@) =~= crate::text::string_views(before).push(text@));
            assert(text_views(mime_types@.take(i + 1)) =~= text_views(mime_types@.take(i as int)).push(mime_types@[i as int]@));
        }
        i = i + 1;
    }
    assert(mime_types@.take(mime_types@.len() as int) == mime_types@);
    let joined = join_strings(&owned, ";");
    let head = concat_str(
        "[Desktop Entry]\nVersion=1.0\nType=Application\nName=Arca\nGenericName=Archive Manager\nComment=Open and manage archive files\nExec=",
        exec_path,
    );
    let head = concat_str(
        head.as_str(),
        " --arca-shell-open %f\nIcon=arca-gui\nTerminal=false\nCategories=Utility;Archiving;\nMimeType=",
    );
    let head = concat_str(head.as_str(), joined.as_str());
    concat_str(head.as_str(), ";\nNoDisplay=false\nStartupNotify=true\n")
}

// ---------------------------------------------------------------------------
// Windows registry names
// ---------------------------------------------------------------------------

/// The programmatic id of the editor's association for an extension.
pub fn windows_prog_id(extension: &str) -> (r: String)
    ensures
        r@ == "Arca."@ + extension@,
{
    concat_str("Arca.", extension)
}

/// The registry key of a shell action of an extension.
pub fn windows_shell_action_key(extension: &str, key: &str) -> (r: String)
    ensures
        r@ == "Software\\Classes\\SystemFileAssociations\\."@ + extension@ + "\\shell\\"@ + key@,
{
    let head = concat_str("Software\\Classes\\SystemFileAssociations\\.", extension);
    let head = concat_str(head.as_str(), "\\shell\\");
    concat_str(head.as_str(), key)
}

/// The command line a shell action runs: the quoted executable, the flag and
/// the quoted file.
pub fn windows_command(exe: &str, flag: &str) -> (r: String)
    ensures
        r@ == "\""@ + exe@ + "\" "@ + flag@ + " \"%1\""@,
{
    let head = concat_str("\"", exe);
    let head = concat_str(head.as_str(), "\" ");
    let head = concat_str(head.as_str(), flag);
    concat_str(head.as_str(), " \"%1\"")
}

/// One value the editor writes to the Windows registry: under a key path,
/// a value name (empty for the key's default value) and its text.
#[derive(Debug, Clone)]
pub struct RegistryValue {
    pub key: String,
    pub name: String,
    pub value: String,
}

/// The (key, name, value) texts of a list of registry values.
pub open spec fn registry_value_views(values: Seq<RegistryValue>) -> Seq<(Seq<char>, Seq<char>, Seq<char>)> {
    values.map_values(|v: RegistryValue| (v.key@, v.name@, v.value@))
}

/// The values of one shell action: its label, its icon and its command.
pub open spec fn shell_action_values(
    extension: Seq<char>,
    key: Seq<char>,
    label: Seq<char>,
    flag: Seq<char>,
    exe: Seq<char>,
) -> Seq<(Seq<char>, Seq<char>, Seq<char>)> {
    let action = "Software\\Classes\\SystemFileAssociations\\."@ + extension + "\\shell\\"@ + key;
    seq![
        (action, Seq::<char>::empty(), label),
        (action, "Icon"@, exe + ",0"@),
        (action + "\\command"@, Seq::<char>::empty(), "\""@ + exe + "\" "@ + flag + " \"%1\""@),
    ]
}

/// What registering an extension writes, in order: the extension's default
/// programmatic id and its open-with entry, the id's display name (`Arca`
/// and the format's name), icon and open command, then the open, extract and
/// test shell actions.
pub open spec fn spec_windows_registry_values(
    extension: Seq<char>,
    format_name: Seq<char>,
    exe: Seq<char>,
) -> Seq<(Seq<char>, Seq<char>, Seq<char>)> {
    let prog_id = "Arca."@ + extension;
    let classes = "Software\\Classes\\"@;
    seq![
        (classes + "."@ + extension, Seq::<char>::empty(), prog_id),
        (classes + "."@ + extension + "\\OpenWithProgids"@, prog_id, Seq::<char>::empty()),
        (classes + prog_id, Seq::<char>::empty(), "Arca "@ + format_name),
        (classes + prog_id + "\\DefaultIcon"@, Seq::<char>::empty(), exe + ",0"@),
        (classes + prog_id + "\\shell\\open\\command"@, Seq::<char>::empty(), "\""@ + exe + "\" "@ + "--arca-shell-open"@
            + " \"%1\""@),
    ] + shell_action_values(extension, "ArcaOpen"@, "Open in Arca"@, "--arca-shell-open"@, exe)
        + shell_action_values(extension, "ArcaExtract"@, "Extract with Arca"@, "--arca-shell-extract"@, exe)
        + shell_action_values(extension, "ArcaTest"@, "Test with Arca"@, "--arca-shell-test"@, exe)
}

fn registry_value(key: String, name: &str, value: String) -> (r: RegistryValue)
    ensures
        r.key@ == key@,
        r.name@ == name@,
        r.value@ == value@,
{
    RegistryValue { key, name: name.to_owned(), value }
}

fn push_shell_action(out: &mut Vec<RegistryValue>, extension: &str, key: &str, label: &str, flag: &str, exe: &str)
    ensures
        registry_value_views(final(out)@) == registry_value_views(old(out)@) + shell_action_values(
            extension@,
            key@,
            label@,
            flag@,
            exe@,
        ),
{
    let ghost before = out@;
    proof {
        reveal_strlit("");
    }
    let action = windows_shell_action_key(extension, key);
    let icon = concat_str(exe, ",0");
    let command_key = concat_str(action.as_str(), "\\command");
    out.push(registry_value(action.clone(), "", label.to_owned()));
    out.push(registry_value(action, "Icon", icon));
    out.push(registry_value(command_key, "", windows_command(exe, flag)));
    let ghost sv = shell_action_values(extension@, key@, label@, flag@, exe@);
    let ghost n = before.len() as int;
    assert(""@ =~= Seq::<char>::empty());
    assert(registry_value_views(out@)[n] == sv[0]);
    assert(registry_value_views(out@)[n + 1] == sv[1]);
    assert(registry_value_views(out@)[n + 2] == sv[2]);
    assert(registry_value_views(out@) =~= registry_value_views(before) + shell_action_values(
        extension@,
        key@,
        label@,
        flag@,
        exe@,
    ));
}

/// The registry values that associate `extension` with the editor, whose
/// executable is `exe`, for a format named `format_name`.
pub fn windows_registry_values(extension: &str, format_name: &str, exe: &str) -> (r: Vec<RegistryValue>)
    ensures
        registry_value_views(r@) == spec_windows_registry_values(extension@, format_name@, exe@),
{
    let prog_id = windows_prog_id(extension);
    let ext_key = concat_str("Software\\Classes\\.", extension);
    let open_with = concat_str(ext_key.as_str(), "\\OpenWithProgids");
    let prog_key = concat_str("Software\\Classes\\", prog_id.as_str());
    let icon_key = concat_str(prog_key.as_str(), "\\DefaultIcon");
    let command_key = concat_str(prog_key.as_str(), "\\shell\\open\\command");
    let mut out: Vec<RegistryValue> = Vec::new();
    out.push(registry_value(ext_key, "", prog_id.clone()));
    out.push(registry_value(open_with, prog_id.as_str(), String::new()));
    out.push(registry_value(prog_key, "", concat_str("Arca ", format_name)));
    out.push(registry_value(icon_key, "", concat_str(exe, ",0")));
    out.push(registry_value(command_key, "", windows_command(exe, "--arca-shell-open")));
    let ghost head = registry_value_views(out@);
    proof {
        reveal_strlit("");
        reveal_strlit("Software\\Classes\\.");
        reveal_strlit("Software\\Classes\\");
        reveal_strlit(".");
        assert("Software\\Classes\\."@ =~= "Software\\Classes\\"@ + "."@);
        assert(("Software\\Classes\\"@ + "."@) + extension@ =~= "Software\\Classes\\"@ + ("."@ + extension@));
        let sp = spec_windows_registry_values(extension@, format_name@, exe@);
        assert(""@ =~= Seq::<char>::empty());
        assert(head[0] == sp[0]);
        assert(head[1] == sp[1]);
        assert(head[2] == sp[2]);
        assert(head[3] == sp[3]);
        assert(head[4] == sp[4]);
        assert(head =~= sp.take(5));
    }
    push_shell_action(&mut out, extension, "ArcaOpen", "Open in Arca", "--arca-shell-open", exe);
    push_shell_action(&mut out, extension, "ArcaExtract", "Extract with Arca", "--arca-shell-extract", exe);
    push_shell_action(&mut out, extension, "ArcaTest", "Test with Arca", "--arca-shell-test", exe);
    assert(registry_value_views(out@) =~= spec_windows_registry_values(extension@, format_name@, exe@));
    out
}

} // verus!
