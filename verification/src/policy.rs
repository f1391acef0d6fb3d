use vstd::prelude::*;
use vstd::hash_set::StringHashSet;
use unicode_normalization::UnicodeNormalization;

use crate::error::{error_detail, ArcaError};
use crate::text::{
    chars_of, concat_str, join_with, lemma_split_nonempty, split_chars, split_on, string_of, trim_end_char,
    trim_end_vec,
};

verus! {

broadcast use vstd::string::group_string_axioms;

// ---------------------------------------------------------------------------
// Specification of the archive path policy
// ---------------------------------------------------------------------------

/// `char::is_control`: the Unicode general category Cc.
pub open spec fn is_control_char(c: char) -> bool {
    (c as u32) <= 0x1f || (0x7f <= (c as u32) && (c as u32) <= 0x9f)
}

pub open spec fn is_ascii_alpha(c: char) -> bool {
    ('a' <= c && c <= 'z') || ('A' <= c && c <= 'Z')
}

/// `a` equals the upper-case ASCII letter or digit `upper`, ignoring ASCII case.
pub open spec fn ascii_ci_eq(a: char, upper: char) -> bool {
    a == upper || ('A' <= upper && upper <= 'Z' && (a as u32) == (upper as u32) + 32)
}

/// The part of `s` before the first `c` (all of `s` when there is none).
pub open spec fn take_until(s: Seq<char>, c: char) -> Seq<char>
    decreases s.len(),
{
    if s.len() == 0 {
        s
    } else if s[0] == c {
        Seq::<char>::empty()
    } else {
        seq![s[0]] + take_until(s.drop_first(), c)
    }
}

/// `s` with every trailing space or dot removed.
pub open spec fn trim_end_space_dot(s: Seq<char>) -> Seq<char>
    decreases s.len(),
{
    if s.len() > 0 && (s.last() == ' ' || s.last() == '.') {
        trim_end_space_dot(s.drop_last())
    } else {
        s
    }
}

pub open spec fn ci_eq3(s: Seq<char>, a: char, b: char, c: char) -> bool {
    s.len() >= 3 && ascii_ci_eq(s[0], a) && ascii_ci_eq(s[1], b) && ascii_ci_eq(s[2], c)
}

/// A device name that Windows reserves, compared ignoring ASCII case:
/// CON, PRN, AUX, NUL, COM1..COM9, LPT1..LPT9.
pub open spec fn is_reserved_name(base: Seq<char>) -> bool {
    ||| base.len() == 3 && (ci_eq3(base, 'C', 'O', 'N') || ci_eq3(base, 'P', 'R', 'N')
        || ci_eq3(base, 'A', 'U', 'X') || ci_eq3(base, 'N', 'U', 'L'))
    ||| base.len() == 4 && (ci_eq3(base, 'C', 'O', 'M') || ci_eq3(base, 'L', 'P', 'T'))
        && '1' <= base[3] && base[3] <= '9'
}

/// The name Windows would read as the device name of a component: the part
/// before the first dot, without trailing spaces and dots.
pub open spec fn reserved_base(component: Seq<char>) -> Seq<char> {
    trim_end_space_dot(take_until(component, '.'))
}

/// One path component that is safe on Linux, macOS and Windows.
pub open spec fn valid_component(c: Seq<char>) -> bool {
    &&& c.len() > 0
    &&& c != seq!['.']
    &&& c != seq!['.', '.']
    &&& !c.contains('\\')
    &&& !c.contains(':')
    &&& c.last() != ' '
    &&& c.last() != '.'
    &&& forall|i: int| 0 <= i < c.len() ==> !is_control_char(#[trigger] c[i])
    &&& !is_reserved_name(reserved_base(c))
}

/// A letter followed by a colon, as in `C:`.
pub open spec fn has_drive_prefix(s: Seq<char>) -> bool {
    s.len() >= 2 && is_ascii_alpha(s[0]) && s[1] == ':'
}

/// Starts at a root: `/`, `\` or a drive.
pub open spec fn is_absolute_text(s: Seq<char>) -> bool {
    (s.len() > 0 && (s[0] == '/' || s[0] == '\\')) || has_drive_prefix(s)
}

pub open spec fn all_components_valid(s: Seq<char>) -> bool {
    forall|i: int| 0 <= i < split_on(s, '/').len() ==> valid_component(#[trigger] split_on(s, '/')[i])
}

/// The archive path without its trailing slashes (a directory entry's marker).
pub open spec fn trimmed_archive_path(path: Seq<char>) -> Seq<char> {
    trim_end_char(path, '/')
}

/// An archive entry path that the policy accepts: relative, non-empty, and
/// made of safe components separated by single slashes.
pub open spec fn valid_archive_path(path: Seq<char>) -> bool {
    let p = trimmed_archive_path(path);
    &&& p.len() > 0
    &&& !is_absolute_text(p)
    &&& all_components_valid(p)
}

/// A symlink target that stays inside the tree that holds the link.
pub open spec fn valid_symlink_target(target: Seq<char>) -> bool {
    &&& target.len() > 0
    &&& !is_absolute_text(target)
    &&& all_components_valid(target)
}

/// The message refusing an invalid component: the first of the component
/// rules, in the order they are checked, that it breaks.
pub open spec fn component_refusal(c: Seq<char>) -> Seq<char> {
    if c.len() == 0 || c == seq!['.'] || c == seq!['.', '.'] {
        "invalid archive path component: "@ + debug_text(c)
    } else if c.contains('\\') {
        "backslash is not allowed in archive path component: "@ + c
    } else if c.contains(':') {
        "colon/ADS path component is not allowed: "@ + c
    } else if c.last() == ' ' || c.last() == '.' {
        "trailing space/dot path component is not allowed: "@ + c
    } else if exists|i: int| 0 <= i < c.len() && is_control_char(#[trigger] c[i]) {
        "control character is not allowed in archive path component: "@ + debug_text(c)
    } else {
        "Windows reserved path component is not allowed: "@ + c
    }
}

/// The message refusing the first invalid component among `parts`.
pub open spec fn first_component_refusal(parts: Seq<Seq<char>>) -> Seq<char>
    decreases parts.len(),
{
    if parts.len() == 0 {
        Seq::<char>::empty()
    } else if !valid_component(parts[0]) {
        component_refusal(parts[0])
    } else {
        first_component_refusal(parts.drop_first())
    }
}

/// The message refusing an invalid archive path.
pub open spec fn archive_path_refusal(path: Seq<char>) -> Seq<char> {
    let p = trimmed_archive_path(path);
    if p.len() == 0 {
        "empty archive path"@
    } else if is_absolute_text(p) {
        "absolute archive path is not allowed: "@ + p
    } else {
        first_component_refusal(split_on(p, '/'))
    }
}

/// The message refusing an invalid symlink target.
pub open spec fn symlink_target_refusal(target: Seq<char>) -> Seq<char> {
    if target.len() == 0 {
        "empty symlink target"@
    } else if is_absolute_text(target) {
        "absolute symlink target is not allowed: "@ + target
    } else {
        first_component_refusal(split_on(target, '/'))
    }
}

/// The refusal of the first invalid component is that of the component at
/// `i` when all before it are valid.
proof fn lemma_first_component_refusal(parts: Seq<Seq<char>>, i: int)
    requires
        0 <= i < parts.len(),
        forall|j: int| 0 <= j < i ==> valid_component(#[trigger] parts[j]),
        !valid_component(parts[i]),
    ensures
        first_component_refusal(parts) == component_refusal(parts[i]),
    decreases i,
{
    if i > 0 {
        assert(valid_component(parts[0]));
        let rest = parts.drop_first();
        assert forall|j: int| 0 <= j < i - 1 implies valid_component(#[trigger] rest[j]) by {
            assert(rest[j] == parts[j + 1]);
        }
        assert(rest[i - 1] == parts[i]);
        lemma_first_component_refusal(rest, i - 1);
    }
}

/// A symlink target the policy accepts cannot leave the directory that holds
/// the link: it does not start at a root or a drive, and none of its
/// components is `..` (nor `.` or empty).
pub proof fn law_symlink_target_stays_inside(target: Seq<char>)
    requires
        valid_symlink_target(target),
    ensures
        !is_absolute_text(target),
        forall|i: int| 0 <= i < split_on(target, '/').len() ==> #[trigger] split_on(target, '/')[i] != seq!['.', '.']
            && split_on(target, '/')[i] != seq!['.'] && split_on(target, '/')[i].len() > 0,
{
    assert forall|i: int| 0 <= i < split_on(target, '/').len() implies #[trigger] split_on(target, '/')[i] != seq![
        '.',
        '.',
    ] && split_on(target, '/')[i] != seq!['.'] && split_on(target, '/')[i].len() > 0 by {
        assert(valid_component(split_on(target, '/')[i]));
    }
}

/// Unicode canonical composition (NFC) of a text, as `unicode_normalization` computes it.
pub uninterp spec fn nfc_of(s: Seq<char>) -> Seq<char>;

/// Unicode lower case of a text, as `str::to_lowercase` computes it.
pub uninterp spec fn lowercase_of(s: Seq<char>) -> Seq<char>;

/// The form of one component that collisions are judged by.
pub open spec fn component_key(c: Seq<char>) -> Seq<char> {
    lowercase_of(nfc_of(trim_end_space_dot(c)))
}

/// The collision key of a (valid) archive path: each component normalized to
/// NFC and lower case, joined with slashes.
pub open spec fn spec_collision_key(path: Seq<char>) -> Seq<char> {
    join_with(
        split_on(trimmed_archive_path(path), '/').map_values(|c: Seq<char>| component_key(c)),
        '/',
    )
}

// ---------------------------------------------------------------------------
// Calls into unicode normalization and std case mapping
// ---------------------------------------------------------------------------

/// `UnicodeNormalization::nfc` from the `unicode-normalization` crate, collected
/// into a `String`. The result is named, not described: it is whatever the crate's
/// composition tables give for these characters.
#[verifier::external_body]
fn nfc_string(s: &str) -> (r: String)
    ensures
        r@ == nfc_of(s@),
{
    s.nfc().collect::<String>()
}

/// `str::to_lowercase` from std. The result is named, not described: the Unicode
/// lower-case mapping of the characters.
#[verifier::external_body]
fn lowercase_string(s: &str) -> (r: String)
    ensures
        r@ == lowercase_of(s@),
{
    s.to_lowercase()
}

// ---------------------------------------------------------------------------
// Executable checks
// ---------------------------------------------------------------------------

fn security(message: &str) -> (r: ArcaError)
    ensures
        r is Security && error_detail(r) == message@,
{
    ArcaError::Security(message.to_owned())
}

fn security_at(message: &str, subject: &str) -> (r: ArcaError)
    ensures
        r is Security && error_detail(r) == message@ + subject@,
{
    ArcaError::Security(concat_str(message, subject))
}

/// How `{:?}` of std writes a text: in double quotes, with quotes,
/// backslashes and control characters escaped.
pub uninterp spec fn debug_text(s: Seq<char>) -> Seq<char>;

/// `<str as Debug>::fmt` from std, through `format!("{:?}")`: the text in
/// double quotes with its escapes, a function of the text alone.
#[verifier::external_body]
fn debug_quoted(s: &str) -> (r: String)
    ensures
        r@ == debug_text(s@),
{
    format!("{s:?}")
}

fn contains_char(s: &Vec<char>, c: char) -> (r: bool)
    ensures
        r == s@.contains(c),
{
    let mut i: usize = 0;
    while i < s.len()
        invariant
            i <= s.len(),
            forall|j: int| 0 <= j < i ==> s@[j] != c,
        decreases s.len() - i,
    {
        if s[i] == c {
            return true;
        }
        i = i + 1;
    }
    false
}

fn is_control(c: char) -> (r: bool)
    ensures
        r == is_control_char(c),
{
    let v = c as u32;
    v <= 0x1f || (0x7f <= v && v <= 0x9f)
}

fn ci_eq(a: char, upper: char) -> (r: bool)
    ensures
        r == ascii_ci_eq(a, upper),
{
    a == upper || ('A' <= upper && upper <= 'Z' && (a as u32) == (upper as u32) + 32)
}

fn take_until_vec(s: &Vec<char>, c: char) -> (r: Vec<char>)
    ensures
        r@ == take_until(s@, c),
{
    let mut i: usize = 0;
    while i < s.len() && s[i] != c
        invariant
            i <= s.len(),
            forall|j: int| 0 <= j < i ==> s@[j] != c,
        decreases s.len() - i,
    {
        i = i + 1;
    }
    proof {
        lemma_take_until_prefix(s@, c, i as int);
    }
    let mut out: Vec<char> = Vec::new();
    let mut k: usize = 0;
    while k < i
        invariant
            k <= i <= s.len(),
            out@ == s@.take(k as int),
        decreases i - k,
    {
        out.push(s[k]);
        assert(s@.take(k + 1) == s@.take(k as int).push(s@[k as int]));
        k = k + 1;
    }
    out
}

proof fn lemma_take_until_prefix(s: Seq<char>, c: char, i: int)
    requires
        0 <= i <= s.len(),
        forall|j: int| 0 <= j < i ==> s[j] != c,
        i == s.len() || s[i] == c,
    ensures
        take_until(s, c) == s.take(i),
    decreases s.len(),
{
    if s.len() > 0 && i > 0 {
        lemma_take_until_prefix(s.drop_first(), c, i - 1);
        assert(s.take(i) == seq![s[0]] + s.drop_first().take(i - 1));
    } else if s.len() > 0 {
        assert(s.take(0) == Seq::<char>::empty());
    }
}

fn trim_end_space_dot_vec(s: &Vec<char>) -> (r: Vec<char>)
    ensures
        r@ == trim_end_space_dot(s@),
{
    let mut end: usize = s.len();
    assert(s@.take(end as int) == s@);
    while end > 0 && (s[end - 1] == ' ' || s[end - 1] == '.')
        invariant
            end <= s.len(),
            trim_end_space_dot(s@.take(end as int)) == trim_end_space_dot(s@),
        decreases end,
    {
        assert(s@.take(end as int).drop_last() == s@.take(end - 1));
        end = end - 1;
    }
    let mut out: Vec<char> = Vec::new();
    let mut i: usize = 0;
    while i < end
        invariant
            i <= end <= s.len(),
            out@ == s@.take(i as int),
        decreases end - i,
    {
        out.push(s[i]);
        assert(s@.take(i + 1) == s@.take(i as int).push(s@[i as int]));
        i = i + 1;
    }
    out
}

fn ci_eq3_vec(s: &Vec<char>, a: char, b: char, c: char) -> (r: bool)
    ensures
        r == ci_eq3(s@, a, b, c),
{
    s.len() >= 3 && ci_eq(s[0], a) && ci_eq(s[1], b) && ci_eq(s[2], c)
}

fn is_reserved(base: &Vec<char>) -> (r: bool)
    ensures
        r == is_reserved_name(base@),
{
    if base.len() == 3 {
        ci_eq3_vec(base, 'C', 'O', 'N') || ci_eq3_vec(base, 'P', 'R', 'N') || ci_eq3_vec(
            base,
            'A',
            'U',
            'X',
        ) || ci_eq3_vec(base, 'N', 'U', 'L')
    } else if base.len() == 4 {
        (ci_eq3_vec(base, 'C', 'O', 'M') || ci_eq3_vec(base, 'L', 'P', 'T')) && '1' <= base[3]
            && base[3] <= '9'
    } else {
        false
    }
}

/// Accepts exactly the components that `valid_component` describes.
fn validate_component(component: &Vec<char>) -> (r: Result<(), ArcaError>)
    ensures
        r is Ok <==> valid_component(component@),
        r matches Err(e) ==> e is Security && error_detail(e) == component_refusal(component@),
{
    let n = component.len();
    if n == 0 || (n == 1 && component[0] == '.') || (n == 2 && component[0] == '.'
        && component[1] == '.') {
        proof {
            if n == 1 {
                assert(component@ == seq!['.']);
            }
            if n == 2 {
                assert(component@ == seq!['.', '.']);
            }
        }
        let shown = debug_quoted(string_of(component).as_str());
        return Err(security_at("invalid archive path component: ", shown.as_str()));
    }
    assert(n == 1 ==> component@ != seq!['.']) by {
        if n == 1 && component@ == seq!['.'] {
            assert(component@[0] == '.');
        }
    }
    assert(n == 2 ==> component@ != seq!['.', '.']) by {
        if n == 2 && component@ == seq!['.', '.'] {
            assert(component@[0] == '.' && component@[1] == '.');
        }
    }
    if contains_char(component, '\\') {
        return Err(security_at("backslash is not allowed in archive path component: ", string_of(component).as_str()));
    }
    if contains_char(component, ':') {
        return Err(security_at("colon/ADS path component is not allowed: ", string_of(component).as_str()));
    }
    if component[n - 1] == ' ' || component[n - 1] == '.' {
        return Err(security_at("trailing space/dot path component is not allowed: ", string_of(component).as_str()));
    }
    let mut i: usize = 0;
    while i < n
        invariant
            n == component.len(),
            i <= n,
            forall|j: int| 0 <= j < i ==> !is_control_char(#[trigger] component@[j]),
            !(component@.len() == 0 || component@ == seq!['.'] || component@ == seq!['.', '.']),
            !component@.contains('\\'),
            !component@.contains(':'),
            !(component@.last() == ' ' || component@.last() == '.'),
        decreases n - i,
    {
        if is_control(component[i]) {
            assert(is_control_char(component@[i as int]));
            let shown = debug_quoted(string_of(component).as_str());
            return Err(security_at("control character is not allowed in archive path component: ", shown.as_str()));
        }
        i = i + 1;
    }
    let base = take_until_vec(component, '.');
    let base = trim_end_space_dot_vec(&base);
    if is_reserved(&base) {
        return Err(security_at("Windows reserved path component is not allowed: ", string_of(component).as_str()));
    }
    Ok(())
}

fn has_windows_drive_prefix(s: &Vec<char>) -> (r: bool)
    ensures
        r == has_drive_prefix(s@),
{
    s.len() >= 2 && (('a' <= s[0] && s[0] <= 'z') || ('A' <= s[0] && s[0] <= 'Z')) && s[1] == ':'
}

fn is_absolute(s: &Vec<char>) -> (r: bool)
    ensures
        r == is_absolute_text(s@),
{
    (s.len() > 0 && (s[0] == '/' || s[0] == '\\')) || has_windows_drive_prefix(s)
}

/// Checks every slash-separated component of `s`.
fn validate_components(s: &Vec<char>) -> (r: Result<(), ArcaError>)
    ensures
        r is Ok <==> all_components_valid(s@),
        r matches Err(e) ==> e is Security && error_detail(e) == first_component_refusal(split_on(s@, '/')),
{
    let parts = split_chars(s, '/');
    let mut i: usize = 0;
    while i < parts.len()
        invariant
            i <= parts.len(),
            parts.deep_view() == split_on(s@, '/'),
            forall|j: int| 0 <= j < i ==> valid_component(#[trigger] split_on(s@, '/')[j]),
        decreases parts.len() - i,
    {
        assert(parts@[i as int]@ == parts.deep_view()[i as int]);
        let res = validate_component(&parts[i]);
        if res.is_err() {
            proof {
                lemma_first_component_refusal(split_on(s@, '/'), i as int);
            }
            return res;
        }
        i = i + 1;
    }
    Ok(())
}

/// Accepts an archive entry path only when it is relative, non-empty, and every
/// component is portable: no `.`/`..`, backslash, colon, trailing space or dot,
/// control character or Windows device name. A trailing slash is allowed.
pub fn validate_archive_path(path: &str) -> (r: Result<(), ArcaError>)
    ensures
        r is Ok <==> valid_archive_path(path@),
        r matches Err(e) ==> e is Security && error_detail(e) == archive_path_refusal(path@),
{
    let chars = chars_of(path);
    let p = trim_end_vec(&chars, '/');
    if p.len() == 0 {
        return Err(security("empty archive path"));
    }
    if is_absolute(&p) {
        return Err(security_at("absolute archive path is not allowed: ", string_of(&p).as_str()));
    }
    validate_components(&p)
}

/// Accepts a symlink target only when it is a non-empty relative path whose
/// components are all portable; `..` is never a portable component, so the
/// target cannot leave the directory that holds the link.
pub fn validate_symlink_target(target: &str) -> (r: Result<(), ArcaError>)
    ensures
        r is Ok <==> valid_symlink_target(target@),
        r matches Err(e) ==> e is Security && error_detail(e) == symlink_target_refusal(target@),
{
    let t = chars_of(target);
    if t.len() == 0 {
        return Err(security("empty symlink target"));
    }
    if is_absolute(&t) {
        return Err(security_at("absolute symlink target is not allowed: ", target));
    }
    validate_components(&t)
}

/// The case- and normalization-insensitive key of an archive path, or the
/// policy error when the path is not a valid archive path.
pub fn collision_key(path: &str) -> (r: Result<String, ArcaError>)
    ensures
        r is Ok <==> valid_archive_path(path@),
        r matches Ok(key) ==> key@ == spec_collision_key(path@),
        r matches Err(e) ==> e is Security && error_detail(e) == archive_path_refusal(path@),
{
    validate_archive_path(path)?;
    let chars = chars_of(path);
    let p = trim_end_vec(&chars, '/');
    let parts = split_chars(&p, '/');
    let ghost pieces = split_on(p@, '/');
    let ghost keys = pieces.map_values(|c: Seq<char>| component_key(c));
    let mut key = String::new();
    let mut i: usize = 0;
    while i < parts.len()
        invariant
            i <= parts.len(),
            parts.deep_view() == pieces,
            keys == pieces.map_values(|c: Seq<char>| component_key(c)),
            forall|j: int| 0 <= j < pieces.len() ==> valid_component(#[trigger] pieces[j]),
            key@ == join_with(keys.take(i as int), '/'),
        decreases parts.len() - i,
    {
        assert(parts@[i as int]@ == pieces[i as int]);
        proof {
            lemma_trim_space_dot_noop(pieces[i as int]);
        }
        let text = string_of(&parts[i]);
        let composed = nfc_string(text.as_str());
        let lowered = lowercase_string(composed.as_str());
        assert(lowered@ == keys[i as int]);
        let ghost before = key@;
        if i > 0 {
            push_slash(&mut key);
        }
        key.append(lowered.as_str());
        proof {
            let t = keys.take(i + 1);
            assert(t.drop_last() == keys.take(i as int));
            if i == 0 {
                assert(t.len() == 1);
                assert(key@ == t[0]);
            } else {
                assert(key@ == before.push('/') + t.last());
            }
        }
        i = i + 1;
    }
    assert(keys.take(parts.len() as int) == keys);
    Ok(key)
}

fn push_slash(s: &mut String)
    ensures
        final(s)@ == old(s)@.push('/'),
{
    crate::text::push_char(s, '/');
}

/// A valid component never ends in a space or a dot, so trimming them is a no-op.
proof fn lemma_trim_space_dot_noop(c: Seq<char>)
    requires
        valid_component(c),
    ensures
        trim_end_space_dot(c) == c,
{
}

// ---------------------------------------------------------------------------
// Collision tracking
// ---------------------------------------------------------------------------

/// The set of collision keys of the archive paths accepted so far.
pub struct CollisionSet {
    seen: StringHashSet,
}

impl View for CollisionSet {
    type V = Set<Seq<char>>;

    closed spec fn view(&self) -> Set<Seq<char>> {
        self.seen@
    }
}

impl CollisionSet {
    /// An empty set.
    pub fn new() -> (r: CollisionSet)
        ensures
            r@ == Set::<Seq<char>>::empty(),
    {
        CollisionSet { seen: StringHashSet::new() }
    }

    /// Records `path`; fails when it is not a valid archive path or when a path
    /// with the same collision key was recorded before. On failure nothing changes.
    pub fn insert_archive_path(&mut self, path: &str) -> (r: Result<(), ArcaError>)
        ensures
            r is Ok <==> valid_archive_path(path@) && !old(self)@.contains(
                spec_collision_key(path@),
            ),
            r is Ok ==> final(self)@ == old(self)@.insert(spec_collision_key(path@)),
            r is Err ==> final(self)@ == old(self)@,
            r matches Err(e) ==> e is Security && error_detail(e) == (if valid_archive_path(path@) {
                "archive path collision for "@ + path@
            } else {
                archive_path_refusal(path@)
            }),
    {
        let key = collision_key(path)?;
        if self.seen.contains(key.as_str()) {
            return Err(security_at("archive path collision for ", path));
        }
        self.seen.insert(key);
        Ok(())
    }
}

impl CollisionSet {
    /// Whether a path with this collision key was recorded.
    pub fn contains_key(&self, key: &str) -> (r: bool)
        ensures
            r == self@.contains(key@),
    {
        self.seen.contains(key)
    }

    /// Records a collision key that is not yet present.
    pub fn insert_key(&mut self, key: String)
        ensures
            final(self)@ == old(self)@.insert(key@),
    {
        self.seen.insert(key);
    }
}

impl Default for CollisionSet {
    fn default() -> (r: CollisionSet)
        ensures
            r@ == Set::<Seq<char>>::empty(),
    {
        CollisionSet::new()
    }
}

} // verus!
