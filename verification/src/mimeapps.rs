use vstd::prelude::*;

use crate::associations::{is_arca_desktop_id_text, linux_is_arca_desktop_id};
use crate::text::{
    chars_of, join_seqs, join_strings, str_eq, string_views, is_white_space, split_chars, split_on, string_of, trim_start_index, trim_start_ws, trim_ws,
    trim_ws_vec,
};

verus! {

broadcast use vstd::string::group_string_axioms;

// ---------------------------------------------------------------------------
// Lines
// ---------------------------------------------------------------------------

/// A line without the `\r` of a `\r\n` ending.
pub open spec fn strip_cr(line: Seq<char>) -> Seq<char> {
    if line.len() > 0 && line.last() == '\r' {
        line.drop_last()
    } else {
        line
    }
}

/// The lines of a text as `str::lines` yields them: split at `\n`, a `\r`
/// before a `\n` dropped, and no empty line after a final `\n`.
pub open spec fn lines_of(s: Seq<char>) -> Seq<Seq<char>> {
    let parts = split_on(s, '\n');
    let body = parts.drop_last().map_values(|p: Seq<char>| strip_cr(p));
    if parts.last().len() == 0 {
        body
    } else {
        body.push(parts.last())
    }
}

/// The character sequences of a list of character vectors.
pub open spec fn vec_views(v: Seq<Vec<char>>) -> Seq<Seq<char>> {
    v.map_values(|x: Vec<char>| x@)
}

fn strip_cr_vec(line: Vec<char>) -> (r: Vec<char>)
    ensures
        r@ == strip_cr(line@),
{
    let mut line = line;
    let n = line.len();
    if n > 0 && line[n - 1] == '\r' {
        line.pop();
    }
    line
}

/// The lines of a text, as `str::lines` yields them.
pub fn text_lines(s: &Vec<char>) -> (r: Vec<Vec<char>>)
    ensures
        vec_views(r@) == lines_of(s@),
{
    let parts = split_chars(s, '\n');
    let ghost pv = split_on(s@, '\n');
    assert(vec_views(parts@) =~= pv) by {
        assert forall|i: int| 0 <= i < parts@.len() implies #[trigger] parts.deep_view()[i] == vec_views(parts@)[i] by {
            assert(parts@[i].deep_view() =~= parts@[i]@);
        }
        assert(parts.deep_view() =~= vec_views(parts@));
    }
    let n = parts.len();
    let mut out: Vec<Vec<char>> = Vec::new();
    let mut i: usize = 0;
    while i + 1 < n
        invariant
            n == parts@.len(),
            n >= 1,
            vec_views(parts@) == pv,
            i + 1 <= n,
            vec_views(out@) == pv.drop_last().take(i as int).map_values(|p: Seq<char>| strip_cr(p)),
        decreases n - i,
    {
        let line = strip_cr_vec(parts[i].clone());
        let ghost before = out@;
        out.push(line);
        proof {
            assert(vec_views(out@) =~= vec_views(before).push(line@));
            assert(pv.drop_last().take(i + 1) =~= pv.drop_last().take(i as int).push(pv[i as int]));
            assert(pv[i as int] == parts@[i as int]@);
            assert(pv.drop_last().take(i + 1).map_values(|p: Seq<char>| strip_cr(p)) =~= pv.drop_last().take(
                i as int,
            ).map_values(|p: Seq<char>| strip_cr(p)).push(strip_cr(pv[i as int])));
        }
        i = i + 1;
    }
    proof {
        assert(pv.drop_last().take(i as int) =~= pv.drop_last());
    }
    let last = parts[n - 1].clone();
    assert(last@ == pv.last());
    if last.len() > 0 {
        let ghost before = out@;
        out.push(last);
        assert(vec_views(out@) =~= vec_views(before).push(last@));
    }
    out
}

/// Lines written back as a text: each followed by `\n`, nothing for no lines.
pub open spec fn lines_text(lines: Seq<Seq<char>>) -> Seq<char>
    decreases lines.len(),
{
    if lines.len() == 0 {
        Seq::<char>::empty()
    } else {
        lines_text(lines.drop_last()) + lines.last().push('\n')
    }
}

/// Writes lines back as a text (each joined by `\n`, with a final `\n`).
pub fn lines_to_text(lines: &Vec<Vec<char>>) -> (r: String)
    ensures
        r@ == lines_text(vec_views(lines@)),
{
    let mut out: Vec<char> = Vec::new();
    let mut i: usize = 0;
    while i < lines.len()
        invariant
            i <= lines@.len(),
            out@ == lines_text(vec_views(lines@).take(i as int)),
        decreases lines.len() - i,
    {
        let line = &lines[i];
        let ghost before = out@;
        let mut k: usize = 0;
        while k < line.len()
            invariant
                k <= line@.len(),
                out@ == before + line@.take(k as int),
            decreases line.len() - k,
        {
            out.push(line[k]);
            assert(line@.take(k + 1) == line@.take(k as int).push(line@[k as int]));
            k = k + 1;
        }
        out.push('\n');
        proof {
            assert(line@.take(line@.len() as int) == line@);
            let vv = vec_views(lines@);
            assert(vv.take(i + 1).drop_last() =~= vv.take(i as int));
            assert(vv.take(i + 1).last() == line@);
            assert(out@ =~= before + line@.push('\n'));
        }
        i = i + 1;
    }
    assert(vec_views(lines@).take(lines@.len() as int) =~= vec_views(lines@));
    string_of(&out)
}

// ---------------------------------------------------------------------------
// Section headers and keys
// ---------------------------------------------------------------------------

/// The name of the section a line opens: a trimmed line in square brackets,
/// the name inside trimmed.
pub open spec fn section_header(line: Seq<char>) -> Option<Seq<char>> {
    let t = trim_ws(line);
    if t.len() >= 2 && t[0] == '[' && t.last() == ']' {
        Some(trim_ws(t.subrange(1, t.len() - 1)))
    } else {
        None
    }
}

/// The first index of `c` in `s`, if any.
pub open spec fn first_index(s: Seq<char>, c: char) -> Option<int> {
    if exists|k: int| 0 <= k < s.len() && s[k] == c {
        Some(choose|k: int| 0 <= k < s.len() && s[k] == c && forall|j: int| 0 <= j < k ==> s[j] != c)
    } else {
        None
    }
}

/// The trimmed key and the raw value of a `key=value` line; none for
/// comments, section headers and lines without `=`.
pub open spec fn key_value(line: Seq<char>) -> Option<(Seq<char>, Seq<char>)> {
    let t = trim_start_ws(line);
    if t.len() > 0 && (t[0] == '#' || t[0] == ';' || t[0] == '[') {
        None
    } else {
        match first_index(t, '=') {
            Some(k) => Some((trim_ws(t.take(k)), t.skip(k + 1))),
            None => None,
        }
    }
}

/// The key of a `key=value` line.
pub open spec fn line_key(line: Seq<char>) -> Option<Seq<char>> {
    match key_value(line) {
        Some(kv) => Some(kv.0),
        None => None,
    }
}

fn subvec(s: &Vec<char>, from: usize, to: usize) -> (r: Vec<char>)
    requires
        from <= to <= s@.len(),
    ensures
        r@ == s@.subrange(from as int, to as int),
{
    let mut out: Vec<char> = Vec::new();
    let mut i: usize = from;
    while i < to
        invariant
            from <= i <= to,
            to <= s@.len(),
            out@ == s@.subrange(from as int, i as int),
        decreases to - i,
    {
        out.push(s[i]);
        assert(s@.subrange(from as int, i + 1) == s@.subrange(from as int, i as int).push(s@[i as int]));
        i = i + 1;
    }
    out
}

/// The name of the section a line opens, if it is a header.
pub fn section_of(line: &Vec<char>) -> (r: Option<Vec<char>>)
    ensures
        match section_header(line@) {
            Some(name) => r matches Some(v) && v@ == name,
            None => r is None,
        },
{
    let t = trim_ws_vec(line);
    let n = t.len();
    if n >= 2 && t[0] == '[' && t[n - 1] == ']' {
        let inner = subvec(&t, 1, n - 1);
        Some(trim_ws_vec(&inner))
    } else {
        None
    }
}

/// The trimmed key and raw value of a `key=value` line.
pub fn key_value_of(line: &Vec<char>) -> (r: Option<(Vec<char>, Vec<char>)>)
    ensures
        match key_value(line@) {
            Some(kv) => r matches Some(p) && p.0@ == kv.0 && p.1@ == kv.1,
            None => r is None,
        },
{
    let start = trim_start_index(line);
    let t = subvec(line, start, line.len());
    assert(t@ == trim_start_ws(line@)) by {
        assert(line@.subrange(start as int, line@.len() as int) == line@.skip(start as int));
    }
    if t.len() > 0 && (t[0] == '#' || t[0] == ';' || t[0] == '[') {
        return None;
    }
    let mut k: usize = 0;
    while k < t.len() && t[k] != '='
        invariant
            k <= t@.len(),
            forall|j: int| 0 <= j < k ==> t@[j] != '=',
        decreases t.len() - k,
    {
        k = k + 1;
    }
    if k == t.len() {
        assert(!(exists|j: int| 0 <= j < t@.len() && t@[j] == '='));
        return None;
    }
    proof {
        assert(exists|j: int| 0 <= j < t@.len() && t@[j] == '=') by {
            assert(t@[k as int] == '=');
        }
        let c = choose|j: int| 0 <= j < t@.len() && t@[j] == '=' && forall|m: int| 0 <= m < j ==> t@[m] != '=';
        assert(t@[k as int] == '=');
        if c < k {
            assert(t@[c] != '=');
        } else if c > k {
            assert(t@[k as int] != '=');
        }
        assert(c == k);
    }
    let key_raw = subvec(&t, 0, k);
    let key = trim_ws_vec(&key_raw);
    let value = subvec(&t, k + 1, t.len());
    proof {
        assert(key_raw@ == t@.take(k as int));
        assert(value@ == t@.skip(k + 1));
    }
    Some((key, value))
}

/// Two character vectors hold the same characters.
pub fn chars_equal(a: &Vec<char>, b: &Vec<char>) -> (r: bool)
    ensures
        r == (a@ == b@),
{
    if a.len() != b.len() {
        return false;
    }
    let mut i: usize = 0;
    while i < a.len()
        invariant
            a@.len() == b@.len(),
            i <= a@.len(),
            forall|j: int| 0 <= j < i ==> a@[j] == b@[j],
        decreases a.len() - i,
    {
        if a[i] != b[i] {
            return false;
        }
        i = i + 1;
    }
    assert(a@ =~= b@);
    true
}

// ---------------------------------------------------------------------------
// Reading a value
// ---------------------------------------------------------------------------

/// Reading the first `n` lines: whether the last header named `section`, and
/// the trimmed value of the first `key` line inside it.
pub open spec fn value_state(lines: Seq<Seq<char>>, section: Seq<char>, key: Seq<char>, n: int) -> (bool, Option<Seq<char>>)
    decreases n,
{
    if n <= 0 {
        (false, None)
    } else {
        let prev = value_state(lines, section, key, n - 1);
        if prev.1 is Some {
            prev
        } else {
            let line = lines[n - 1];
            match section_header(line) {
                Some(h) => (h == section, None),
                None => if !prev.0 {
                    prev
                } else {
                    match key_value(line) {
                        Some(kv) => if kv.0 == key {
                            (true, Some(trim_ws(kv.1)))
                        } else {
                            prev
                        },
                        None => prev,
                    }
                },
            }
        }
    }
}

/// The trimmed value of `key` in `section` of a desktop association file.
pub open spec fn spec_mimeapps_value(source: Seq<char>, section: Seq<char>, key: Seq<char>) -> Option<Seq<char>> {
    let lines = lines_of(source);
    value_state(lines, section, key, lines.len() as int).1
}

/// Looks up the value of `key` in `section` of a desktop association file.
pub fn mimeapps_value(source: &str, section: &str, key: &str) -> (r: Option<String>)
    ensures
        match spec_mimeapps_value(source@, section@, key@) {
            Some(v) => r matches Some(s) && s@ == v,
            None => r is None,
        },
{
    let source_chars = chars_of(source);
    let lines = text_lines(&source_chars);
    let ghost section_text = section@;
    let ghost key_text = key@;
    let section_chars = chars_of(section);
    let key_chars = chars_of(key);
    let ghost lv = vec_views(lines@);
    assert(lv == lines_of(source@));
    let mut in_section = false;
    let mut i: usize = 0;
    while i < lines.len()
        invariant
            i <= lines@.len(),
            lv == vec_views(lines@),
            lv == lines_of(source@),
            section_chars@ == section_text,
            key_chars@ == key_text,
            section_text == section@,
            key_text == key@,
            value_state(lv, section_text, key_text, i as int) == (in_section, None::<Seq<char>>),
        decreases lines.len() - i,
    {
        let line = &lines[i];
        assert(lv[i as int] == line@);
        match section_of(line) {
            Some(header) => {
                in_section = chars_equal(&header, &section_chars);
            },
            None => {
                if in_section {
                    match key_value_of(line) {
                        Some(kv) => {
                            if chars_equal(&kv.0, &key_chars) {
                                let value = trim_ws_vec(&kv.1);
                                proof {
                                    lemma_value_state_found(lv, section_text, key_text, i as int + 1);
                                }
                                return Some(string_of(&value));
                            }
                        },
                        None => {},
                    }
                }
            },
        }
        i = i + 1;
    }
    None
}

proof fn lemma_value_state_found(lines: Seq<Seq<char>>, section: Seq<char>, key: Seq<char>, n: int)
    requires
        0 <= n <= lines.len(),
        value_state(lines, section, key, n).1 is Some,
    ensures
        value_state(lines, section, key, lines.len() as int) == value_state(lines, section, key, n),
    decreases lines.len() - n,
{
    if n < lines.len() {
        lemma_value_state_found(lines, section, key, n + 1);
    }
}

// ---------------------------------------------------------------------------
// Finding a key for an update
// ---------------------------------------------------------------------------

/// Where an update of `key` in `section` lands, after reading some lines:
/// still reading (and whether inside the section), the line that holds the
/// key, or the header that ends the section.
pub enum KeyScan {
    Scanning(bool),
    Found(int),
    SectionEnd(int),
}

/// The place of `key` in the first section named `section`, reading the
/// first `n` lines and stopping at the key or at the next header.
pub open spec fn key_scan(lines: Seq<Seq<char>>, section: Seq<char>, key: Seq<char>, n: int) -> KeyScan
    decreases n,
{
    if n <= 0 {
        KeyScan::Scanning(false)
    } else {
        let prev = key_scan(lines, section, key, n - 1);
        match prev {
            KeyScan::Scanning(inside) => {
                let line = lines[n - 1];
                match section_header(line) {
                    Some(h) => if inside {
                        KeyScan::SectionEnd(n - 1)
                    } else {
                        KeyScan::Scanning(h == section)
                    },
                    None => if inside && line_key(line) == Some(key) {
                        KeyScan::Found(n - 1)
                    } else {
                        prev
                    },
                }
            },
            _ => prev,
        }
    }
}

enum KeyPosition {
    Scanning(bool),
    Found(usize),
    SectionEnd(usize),
}

spec fn position_view(p: KeyPosition) -> KeyScan {
    match p {
        KeyPosition::Scanning(b) => KeyScan::Scanning(b),
        KeyPosition::Found(i) => KeyScan::Found(i as int),
        KeyPosition::SectionEnd(i) => KeyScan::SectionEnd(i as int),
    }
}

proof fn lemma_key_scan_stops(lines: Seq<Seq<char>>, section: Seq<char>, key: Seq<char>, n: int)
    requires
        0 <= n <= lines.len(),
        !(key_scan(lines, section, key, n) is Scanning),
    ensures
        key_scan(lines, section, key, lines.len() as int) == key_scan(lines, section, key, n),
    decreases lines.len() - n,
{
    if n < lines.len() {
        lemma_key_scan_stops(lines, section, key, n + 1);
    }
}

fn scan_key(lines: &Vec<Vec<char>>, section: &Vec<char>, key: &Vec<char>) -> (r: KeyPosition)
    ensures
        position_view(r) == key_scan(vec_views(lines@), section@, key@, lines@.len() as int),
        match r {
            KeyPosition::Found(i) => i < lines@.len(),
            KeyPosition::SectionEnd(i) => i < lines@.len(),
            KeyPosition::Scanning(_) => true,
        },
{
    let ghost lv = vec_views(lines@);
    let mut inside = false;
    let mut i: usize = 0;
    while i < lines.len()
        invariant
            i <= lines@.len(),
            lv == vec_views(lines@),
            key_scan(lv, section@, key@, i as int) == KeyScan::Scanning(inside),
        decreases lines.len() - i,
    {
        let line = &lines[i];
        assert(lv[i as int] == line@);
        match section_of(line) {
            Some(header) => {
                if inside {
                    proof {
                        lemma_key_scan_stops(lv, section@, key@, i + 1);
                    }
                    return KeyPosition::SectionEnd(i);
                }
                inside = chars_equal(&header, section);
            },
            None => {
                if inside {
                    match key_value_of(line) {
                        Some(kv) => {
                            if chars_equal(&kv.0, key) {
                                proof {
                                    lemma_key_scan_stops(lv, section@, key@, i + 1);
                                }
                                return KeyPosition::Found(i);
                            }
                        },
                        None => {},
                    }
                }
            },
        }
        i = i + 1;
    }
    KeyPosition::Scanning(inside)
}

fn append_chars(out: &mut Vec<char>, more: &Vec<char>)
    ensures
        final(out)@ == old(out)@ + more@,
{
    let mut k: usize = 0;
    while k < more.len()
        invariant
            k <= more@.len(),
            out@ == old(out)@ + more@.take(k as int),
        decreases more.len() - k,
    {
        out.push(more[k]);
        assert(more@.take(k + 1) == more@.take(k as int).push(more@[k as int]));
        k = k + 1;
    }
    assert(more@.take(more@.len() as int) == more@);
}

/// The line `key=value`.
pub open spec fn key_line(key: Seq<char>, value: Seq<char>) -> Seq<char> {
    key + seq!['='] + value
}

/// The header line `[section]`.
pub open spec fn header_line(section: Seq<char>) -> Seq<char> {
    seq!['['] + section + seq![']']
}

/// The lines after setting `key` to `value` in `section`: the key's line
/// replaced; or a new line at the end of the section; or, where there is no
/// such section, a new section at the end, after a blank line unless the
/// text already ends with one.
pub open spec fn set_value_lines(lines: Seq<Seq<char>>, section: Seq<char>, key: Seq<char>, value: Seq<char>) -> Seq<Seq<char>> {
    let line = key_line(key, value);
    match key_scan(lines, section, key, lines.len() as int) {
        KeyScan::Found(i) => lines.update(i, line),
        KeyScan::SectionEnd(i) => lines.insert(i, line),
        KeyScan::Scanning(inside) => if inside {
            lines.push(line)
        } else {
            let spaced = if lines.len() > 0 && lines.last().len() > 0 {
                lines.push(Seq::<char>::empty())
            } else {
                lines
            };
            spaced.push(header_line(section)).push(line)
        },
    }
}

/// The text after setting `key` to `value` in `section`.
pub open spec fn spec_mimeapps_set_value(source: Seq<char>, section: Seq<char>, key: Seq<char>, value: Seq<char>) -> Seq<char> {
    lines_text(set_value_lines(lines_of(source), section, key, value))
}

/// Sets `key` to `value` in `section` of a desktop association file.
pub fn mimeapps_set_value(source: &str, section: &str, key: &str, value: &str) -> (r: String)
    ensures
        r@ == spec_mimeapps_set_value(source@, section@, key@, value@),
{
    let source_chars = chars_of(source);
    let mut lines = text_lines(&source_chars);
    let section_chars = chars_of(section);
    let key_chars = chars_of(key);
    let mut line = chars_of(key);
    line.push('=');
    append_chars(&mut line, &chars_of(value));
    assert(line@ == key_line(key@, value@));
    let ghost lv = vec_views(lines@);
    let position = scan_key(&lines, &section_chars, &key_chars);
    match position {
        KeyPosition::Found(i) => {
            lines.set(i, line.clone());
            assert(vec_views(lines@) =~= lv.update(i as int, line@));
        },
        KeyPosition::SectionEnd(i) => {
            lines.insert(i, line.clone());
            assert(vec_views(lines@) =~= lv.insert(i as int, line@));
        },
        KeyPosition::Scanning(inside) => {
            if inside {
                lines.push(line.clone());
                assert(vec_views(lines@) =~= lv.push(line@));
            } else {
                let n = lines.len();
                if n > 0 && lines[n - 1].len() > 0 {
                    lines.push(Vec::new());
                    assert(vec_views(lines@) =~= lv.push(Seq::<char>::empty()));
                }
                let ghost spaced = vec_views(lines@);
                let mut header: Vec<char> = Vec::new();
                header.push('[');
                append_chars(&mut header, &section_chars);
                header.push(']');
                assert(header@ == header_line(section@));
                lines.push(header.clone());
                lines.push(line.clone());
                assert(vec_views(lines@) =~= spaced.push(header@).push(line@));
            }
        },
    }
    lines_to_text(&lines)
}

/// The lines after removing `key` from `section`.
pub open spec fn remove_key_lines(lines: Seq<Seq<char>>, section: Seq<char>, key: Seq<char>) -> Seq<Seq<char>> {
    match key_scan(lines, section, key, lines.len() as int) {
        KeyScan::Found(i) => lines.remove(i),
        _ => lines,
    }
}

/// The text after removing `key` from `section`.
pub open spec fn spec_mimeapps_remove_key(source: Seq<char>, section: Seq<char>, key: Seq<char>) -> Seq<char> {
    lines_text(remove_key_lines(lines_of(source), section, key))
}

/// Removes the line of `key` from `section` of a desktop association file.
pub fn mimeapps_remove_key(source: &str, section: &str, key: &str) -> (r: String)
    ensures
        r@ == spec_mimeapps_remove_key(source@, section@, key@),
{
    let source_chars = chars_of(source);
    let mut lines = text_lines(&source_chars);
    let section_chars = chars_of(section);
    let key_chars = chars_of(key);
    let ghost lv = vec_views(lines@);
    match scan_key(&lines, &section_chars, &key_chars) {
        KeyPosition::Found(i) => {
            lines.remove(i);
            assert(vec_views(lines@) =~= lv.remove(i as int));
        },
        _ => {},
    }
    lines_to_text(&lines)
}

// ---------------------------------------------------------------------------
// Desktop file id lists
// ---------------------------------------------------------------------------

/// The trimmed, non-empty pieces of a list of parts.
pub open spec fn trimmed_ids(parts: Seq<Seq<char>>) -> Seq<Seq<char>>
    decreases parts.len(),
{
    if parts.len() == 0 {
        Seq::<Seq<char>>::empty()
    } else {
        let prev = trimmed_ids(parts.drop_last());
        let t = trim_ws(parts.last());
        if t.len() > 0 {
            prev.push(t)
        } else {
            prev
        }
    }
}

/// The desktop file ids of a `;`-separated value, trimmed, empty ones left out.
pub open spec fn desktop_ids_of(value: Seq<char>) -> Seq<Seq<char>> {
    trimmed_ids(split_on(value, ';'))
}

/// Splits a `;`-separated value into its desktop file ids.
pub fn split_desktop_ids(value: &str) -> (r: Vec<String>)
    ensures
        string_views(r@) == desktop_ids_of(value@),
{
    let chars = chars_of(value);
    let parts = split_chars(&chars, ';');
    let ghost pv = split_on(value@, ';');
    let mut out: Vec<String> = Vec::new();
    let mut i: usize = 0;
    while i < parts.len()
        invariant
            i <= parts@.len(),
            parts.deep_view() == pv,
            string_views(out@) == trimmed_ids(pv.take(i as int)),
        decreases parts.len() - i,
    {
        let t = trim_ws_vec(&parts[i]);
        proof {
            assert(parts.deep_view()[i as int] == parts@[i as int]@);
            assert(pv.take(i + 1).drop_last() =~= pv.take(i as int));
            assert(pv.take(i + 1).last() == parts@[i as int]@);
        }
        if t.len() > 0 {
            let ghost before = out@;
            out.push(string_of(&t));
            assert(string_views(out@) =~= string_views(before).push(t@));
        }
        i = i + 1;
    }
    assert(pv.take(parts@.len() as int) =~= pv);
    out
}

/// A list of desktop file ids as a value: each followed by `;`.
pub open spec fn desktop_ids_text(ids: Seq<Seq<char>>) -> Seq<char> {
    let joined = join_seqs(ids, seq![';']);
    if joined.len() > 0 {
        joined.push(';')
    } else {
        joined
    }
}

/// Joins desktop file ids into a value, with a final `;` where it is not empty.
pub fn join_desktop_ids(desktop_ids: &Vec<String>) -> (r: String)
    ensures
        r@ == desktop_ids_text(string_views(desktop_ids@)),
{
    let joined = join_strings(desktop_ids, ";");
    proof {
        reveal_strlit(";");
    }
    assert(";"@ == seq![';']);
    let mut chars = chars_of(joined.as_str());
    if chars.len() > 0 {
        chars.push(';');
    }
    string_of(&chars)
}

/// The ids other than `id`, in their order.
pub open spec fn without_id(ids: Seq<Seq<char>>, id: Seq<char>) -> Seq<Seq<char>>
    decreases ids.len(),
{
    if ids.len() == 0 {
        ids
    } else {
        let prev = without_id(ids.drop_last(), id);
        if ids.last() == id {
            prev
        } else {
            prev.push(ids.last())
        }
    }
}

/// The ids that are not among `removed`, in their order.
pub open spec fn without_ids(ids: Seq<Seq<char>>, removed: Seq<Seq<char>>) -> Seq<Seq<char>>
    decreases ids.len(),
{
    if ids.len() == 0 {
        ids
    } else {
        let prev = without_ids(ids.drop_last(), removed);
        if removed.contains(ids.last()) {
            prev
        } else {
            prev.push(ids.last())
        }
    }
}

/// The character sequences of a list of string slices.
pub open spec fn str_views(ids: Seq<&str>) -> Seq<Seq<char>> {
    ids.map_values(|s: &str| s@)
}

/// The text after putting `desktop_id` first in the list under `key` in
/// `section` (and leaving out its other occurrences).
pub open spec fn spec_mimeapps_prepend_desktop_id(
    source: Seq<char>,
    section: Seq<char>,
    key: Seq<char>,
    desktop_id: Seq<char>,
) -> Seq<char> {
    let current = match spec_mimeapps_value(source, section, key) {
        Some(v) => v,
        None => Seq::<char>::empty(),
    };
    let ids = seq![desktop_id] + without_id(desktop_ids_of(current), desktop_id);
    spec_mimeapps_set_value(source, section, key, desktop_ids_text(ids))
}

/// Puts `desktop_id` first in the list under `key` in `section`.
pub fn mimeapps_prepend_desktop_id(source: &str, section: &str, key: &str, desktop_id: &str) -> (r: String)
    ensures
        r@ == spec_mimeapps_prepend_desktop_id(source@, section@, key@, desktop_id@),
{
    let current = match mimeapps_value(source, section, key) {
        Some(v) => v,
        None => String::new(),
    };
    let current_ids = split_desktop_ids(current.as_str());
    let ghost cv = string_views(current_ids@);
    let mut ids: Vec<String> = Vec::new();
    ids.push(desktop_id.to_string());
    assert(string_views(ids@) =~= seq![desktop_id@]);
    let mut i: usize = 0;
    while i < current_ids.len()
        invariant
            i <= current_ids@.len(),
            cv == string_views(current_ids@),
            string_views(ids@) == seq![desktop_id@] + without_id(cv.take(i as int), desktop_id@),
        decreases current_ids.len() - i,
    {
        proof {
            assert(cv.take(i + 1).drop_last() =~= cv.take(i as int));
            assert(cv.take(i + 1).last() == current_ids@[i as int]@);
        }
        if !str_eq(current_ids[i].as_str(), desktop_id) {
            let ghost before = string_views(ids@);
            ids.push(current_ids[i].clone());
            assert(string_views(ids@) =~= before.push(current_ids@[i as int]@));
        }
        i = i + 1;
    }
    assert(cv.take(current_ids@.len() as int) =~= cv);
    let value = join_desktop_ids(&ids);
    mimeapps_set_value(source, section, key, value.as_str())
}

fn listed(desktop_ids: &[&str], id: &str) -> (r: bool)
    ensures
        r == str_views(desktop_ids@).contains(id@),
{
    let mut j: usize = 0;
    while j < desktop_ids.len()
        invariant
            j <= desktop_ids@.len(),
            forall|m: int| 0 <= m < j ==> desktop_ids@[m]@ != id@,
        decreases desktop_ids.len() - j,
    {
        if str_eq(desktop_ids[j], id) {
            assert(str_views(desktop_ids@)[j as int] == id@);
            return true;
        }
        j = j + 1;
    }
    proof {
        if str_views(desktop_ids@).contains(id@) {
            let m = choose|m: int| 0 <= m < str_views(desktop_ids@).len() && str_views(desktop_ids@)[m] == id@;
            assert(desktop_ids@[m]@ == id@);
        }
    }
    false
}

/// The text after taking `desktop_ids` out of the list under `key` in
/// `section`: the key's line goes where no id is left; the text is returned
/// as it is where the key is not there.
pub open spec fn spec_mimeapps_remove_desktop_ids(
    source: Seq<char>,
    section: Seq<char>,
    key: Seq<char>,
    desktop_ids: Seq<Seq<char>>,
) -> Seq<char> {
    match spec_mimeapps_value(source, section, key) {
        None => source,
        Some(current) => {
            let remaining = without_ids(desktop_ids_of(current), desktop_ids);
            if remaining.len() == 0 {
                spec_mimeapps_remove_key(source, section, key)
            } else {
                spec_mimeapps_set_value(source, section, key, desktop_ids_text(remaining))
            }
        },
    }
}

/// Takes `desktop_ids` out of the list under `key` in `section`.
pub fn mimeapps_remove_desktop_ids(source: &str, section: &str, key: &str, desktop_ids: &[&str]) -> (r: String)
    ensures
        r@ == spec_mimeapps_remove_desktop_ids(source@, section@, key@, str_views(desktop_ids@)),
{
    let current = match mimeapps_value(source, section, key) {
        Some(v) => v,
        None => {
            return source.to_string();
        },
    };
    let current_ids = split_desktop_ids(current.as_str());
    let ghost cv = string_views(current_ids@);
    let ghost removed = str_views(desktop_ids@);
    let mut remaining: Vec<String> = Vec::new();
    let mut i: usize = 0;
    while i < current_ids.len()
        invariant
            i <= current_ids@.len(),
            cv == string_views(current_ids@),
            removed == str_views(desktop_ids@),
            string_views(remaining@) == without_ids(cv.take(i as int), removed),
        decreases current_ids.len() - i,
    {
        proof {
            assert(cv.take(i + 1).drop_last() =~= cv.take(i as int));
            assert(cv.take(i + 1).last() == current_ids@[i as int]@);
        }
        if !listed(desktop_ids, current_ids[i].as_str()) {
            let ghost before = string_views(remaining@);
            remaining.push(current_ids[i].clone());
            assert(string_views(remaining@) =~= before.push(current_ids@[i as int]@));
        }
        i = i + 1;
    }
    assert(cv.take(current_ids@.len() as int) =~= cv);
    if remaining.len() == 0 {
        mimeapps_remove_key(source, section, key)
    } else {
        let value = join_desktop_ids(&remaining);
        mimeapps_set_value(source, section, key, value.as_str())
    }
}

// ---------------------------------------------------------------------------
// The editor's own associations
// ---------------------------------------------------------------------------

/// The desktop file id the editor registers.
pub open spec fn arca_desktop_id() -> Seq<char> {
    "com.crasnec.arca.desktop"@
}

/// Every desktop file id the editor has been installed under.
pub open spec fn arca_desktop_ids() -> Seq<Seq<char>> {
    seq!["com.crasnec.arca.desktop"@, "arca-gui.desktop"@, "Arca.desktop"@, "arca.desktop"@]
}

fn arca_desktop_id_list() -> (r: Vec<&'static str>)
    ensures
        str_views(r@) == arca_desktop_ids(),
{
    let mut ids: Vec<&'static str> = Vec::new();
    ids.push("com.crasnec.arca.desktop");
    ids.push("arca-gui.desktop");
    ids.push("Arca.desktop");
    ids.push("arca.desktop");
    assert(str_views(ids@) =~= arca_desktop_ids());
    ids
}

/// Whether the list of a `Default Applications` value starts with the editor.
pub open spec fn arca_is_default(value: Seq<char>) -> bool {
    let ids = desktop_ids_of(value);
    ids.len() > 0 && is_arca_desktop_id_text(ids[0])
}

/// Whether the list of an `Added Associations` value names the editor.
pub open spec fn arca_is_listed(value: Seq<char>) -> bool {
    exists|i: int| 0 <= i < desktop_ids_of(value).len() && is_arca_desktop_id_text(#[trigger] desktop_ids_of(value)[i])
}

/// Whether the editor comes first in a `Default Applications` value.
pub fn arca_is_default_in(value: &str) -> (r: bool)
    ensures
        r == arca_is_default(value@),
{
    let ids = split_desktop_ids(value);
    proof {
        if ids@.len() > 0 {
            assert(string_views(ids@)[0] == ids@[0]@);
        }
    }
    ids.len() > 0 && linux_is_arca_desktop_id(ids[0].as_str())
}

/// Whether an `Added Associations` value names the editor.
pub fn arca_is_listed_in(value: &str) -> (r: bool)
    ensures
        r == arca_is_listed(value@),
{
    let ids = split_desktop_ids(value);
    let ghost v = string_views(ids@);
    let mut i: usize = 0;
    while i < ids.len()
        invariant
            i <= ids@.len(),
            v == string_views(ids@),
            v == desktop_ids_of(value@),
            forall|j: int| 0 <= j < i ==> !is_arca_desktop_id_text(#[trigger] v[j]),
        decreases ids.len() - i,
    {
        assert(v[i as int] == ids@[i as int]@);
        if linux_is_arca_desktop_id(ids[i].as_str()) {
            return true;
        }
        i = i + 1;
    }
    false
}

/// One step of turning the editor's association for a MIME type on or off.
pub open spec fn association_step(source: Seq<char>, mime_type: Seq<char>, enabled: bool) -> Seq<char> {
    if enabled {
        spec_mimeapps_prepend_desktop_id(
            spec_mimeapps_prepend_desktop_id(source, "Default Applications"@, mime_type, arca_desktop_id()),
            "Added Associations"@,
            mime_type,
            arca_desktop_id(),
        )
    } else {
        spec_mimeapps_remove_desktop_ids(
            spec_mimeapps_remove_desktop_ids(source, "Default Applications"@, mime_type, arca_desktop_ids()),
            "Added Associations"@,
            mime_type,
            arca_desktop_ids(),
        )
    }
}

/// The text after turning the editor's association on or off for the first
/// `n` MIME types, in order.
pub open spec fn association_text(source: Seq<char>, mime_types: Seq<Seq<char>>, enabled: bool, n: int) -> Seq<char>
    decreases n,
{
    if n <= 0 {
        source
    } else {
        association_step(association_text(source, mime_types, enabled, n - 1), mime_types[n - 1], enabled)
    }
}

/// Turns the editor's association for each MIME type on (first default
/// handler, and listed) or off (every id of the editor taken out), in a
/// desktop association file's text.
pub fn mimeapps_with_association(source: &str, mime_types: &Vec<String>, enabled: bool) -> (r: String)
    ensures
        r@ == association_text(source@, string_views(mime_types@), enabled, mime_types@.len() as int),
        enabled && (forall|i: int| 0 <= i < mime_types@.len() ==> plain_key(#[trigger] mime_types@[i]@)) ==> forall|j: int|
            0 <= j < mime_types@.len() ==> editor_first_for(r@, #[trigger] mime_types@[j]@),
        !enabled && (forall|i: int| 0 <= i < mime_types@.len() ==> plain_key(#[trigger] mime_types@[i]@))
            && association_entries_single(source@, string_views(mime_types@)) ==> forall|j: int|
            0 <= j < mime_types@.len() ==> editor_absent_for(r@, #[trigger] mime_types@[j]@),
{
    let ghost mv = string_views(mime_types@);
    let candidates = arca_desktop_id_list();
    let mut next = source.to_string();
    let mut i: usize = 0;
    while i < mime_types.len()
        invariant
            i <= mime_types@.len(),
            mv == string_views(mime_types@),
            str_views(candidates@) == arca_desktop_ids(),
            next@ == association_text(source@, mv, enabled, i as int),
        decreases mime_types.len() - i,
    {
        let mime_type = mime_types[i].as_str();
        assert(mime_type@ == mv[i as int]);
        if enabled {
            let first = mimeapps_prepend_desktop_id(
                next.as_str(),
                "Default Applications",
                mime_type,
                "com.crasnec.arca.desktop",
            );
            next = mimeapps_prepend_desktop_id(
                first.as_str(),
                "Added Associations",
                mime_type,
                "com.crasnec.arca.desktop",
            );
        } else {
            let first = mimeapps_remove_desktop_ids(
                next.as_str(),
                "Default Applications",
                mime_type,
                candidates.as_slice(),
            );
            next = mimeapps_remove_desktop_ids(
                first.as_str(),
                "Added Associations",
                mime_type,
                candidates.as_slice(),
            );
        }
        i = i + 1;
    }
    proof {
        if enabled && (forall|i: int| 0 <= i < mime_types@.len() ==> plain_key(#[trigger] mime_types@[i]@)) {
            assert forall|i: int| 0 <= i < mv.len() implies plain_key(#[trigger] mv[i]) by {
                assert(mv[i] == mime_types@[i]@);
            }
            law_association_on_covers_every_type(source@, mv, mv.len() as int);
            assert forall|j: int| 0 <= j < mime_types@.len() implies editor_first_for(next@, #[trigger] mime_types@[j]@) by {
                assert(mv[j] == mime_types@[j]@);
            }
        }
        if !enabled && (forall|i: int| 0 <= i < mime_types@.len() ==> plain_key(#[trigger] mime_types@[i]@))
            && association_entries_single(source@, mv) {
            assert forall|i: int| 0 <= i < mv.len() implies plain_key(#[trigger] mv[i]) by {
                assert(mv[i] == mime_types@[i]@);
            }
            law_association_off_clears_every_type(source@, mv, mv.len() as int);
            assert forall|j: int| 0 <= j < mime_types@.len() implies editor_absent_for(next@, #[trigger] mime_types@[j]@) by {
                assert(mv[j] == mime_types@[j]@);
            }
        }
    }
    next
}

// ---------------------------------------------------------------------------
// Reading back what was written
// ---------------------------------------------------------------------------

proof fn lemma_split_no_sep(s: Seq<char>, sep: char)
    ensures
        forall|i: int| 0 <= i < split_on(s, sep).len() ==> !(#[trigger] split_on(s, sep)[i]).contains(sep),
    decreases s.len(),
{
    if s.len() > 0 {
        lemma_split_no_sep(s.drop_last(), sep);
        let prev = split_on(s.drop_last(), sep);
        crate::text::lemma_split_nonempty(s.drop_last(), sep);
        if s.last() != sep {
            let cur = split_on(s, sep);
            assert forall|i: int| 0 <= i < cur.len() implies !(#[trigger] cur[i]).contains(sep) by {
                if i == prev.len() - 1 {
                    assert(cur[i] == prev.last().push(s.last()));
                    if cur[i].contains(sep) {
                        let k = choose|k: int| 0 <= k < cur[i].len() && cur[i][k] == sep;
                        if k < prev.last().len() {
                            assert(prev.last()[k] == sep);
                        }
                    }
                } else {
                    assert(cur[i] == prev[i]);
                }
            }
        }
    }
}

/// No line of a text holds a line break.
proof fn lemma_lines_no_break(s: Seq<char>)
    ensures
        forall|i: int| 0 <= i < lines_of(s).len() ==> !(#[trigger] lines_of(s)[i]).contains('\n'),
{
    let parts = split_on(s, '\n');
    lemma_split_no_sep(s, '\n');
    crate::text::lemma_split_nonempty(s, '\n');
    let lines = lines_of(s);
    assert forall|i: int| 0 <= i < lines.len() implies !(#[trigger] lines[i]).contains('\n') by {
        let p = parts[i];
        assert(!p.contains('\n'));
        if i < parts.len() - 1 {
            assert(lines[i] == strip_cr(parts.drop_last()[i]));
            if strip_cr(p).contains('\n') {
                let k = choose|k: int| 0 <= k < strip_cr(p).len() && strip_cr(p)[k] == '\n';
                assert(p[k] == '\n');
            }
        } else {
            assert(lines[i] == p);
        }
    }
}

proof fn lemma_split_append(x: Seq<char>, y: Seq<char>, sep: char)
    requires
        !y.contains(sep),
    ensures
        split_on(x + y, sep) == split_on(x, sep).update(
            split_on(x, sep).len() - 1,
            split_on(x, sep).last() + y,
        ),
    decreases y.len(),
{
    crate::text::lemma_split_nonempty(x, sep);
    if y.len() == 0 {
        assert(x + y == x);
        assert(split_on(x, sep).last() + y == split_on(x, sep).last());
        assert(split_on(x, sep).update(split_on(x, sep).len() - 1, split_on(x, sep).last()) == split_on(x, sep));
    } else {
        let y0 = y.drop_last();
        assert(!y0.contains(sep)) by {
            if y0.contains(sep) {
                let k = choose|k: int| 0 <= k < y0.len() && y0[k] == sep;
                assert(y[k] == sep);
            }
        }
        lemma_split_append(x, y0, sep);
        assert((x + y).drop_last() == x + y0);
        assert((x + y).last() == y.last());
        assert(y.last() != sep) by {
            assert(y[y.len() - 1] == y.last());
        }
        crate::text::lemma_split_nonempty(x + y0, sep);
        let prev = split_on(x + y0, sep);
        assert(prev.last() + Seq::<char>::empty().push(y.last()) == prev.last().push(y.last()));
        assert(split_on(x, sep).last() + y0 + seq![y.last()] == split_on(x, sep).last() + y);
    }
}

/// The lines written back as a text and read again, where no line holds a
/// line break, are the lines with a final `\r` dropped.
proof fn lemma_lines_round_trip(m: Seq<Seq<char>>)
    requires
        forall|i: int| 0 <= i < m.len() ==> !(#[trigger] m[i]).contains('\n'),
    ensures
        split_on(lines_text(m), '\n') == m.push(Seq::<char>::empty()),
        lines_of(lines_text(m)) == m.map_values(|p: Seq<char>| strip_cr(p)),
    decreases m.len(),
{
    if m.len() > 0 {
        let m0 = m.drop_last();
        lemma_lines_round_trip(m0);
        let t0 = lines_text(m0);
        let y = m.last();
        assert(!y.contains('\n')) by {
            assert(m[m.len() - 1] == y);
        }
        lemma_split_append(t0, y, '\n');
        assert(lines_text(m) == (t0 + y).push('\n'));
        assert((t0 + y).push('\n').drop_last() == t0 + y);
        assert(m0.push(Seq::<char>::empty()).update(m0.len() as int, Seq::<char>::empty() + y) =~= m);
        assert(Seq::<char>::empty() + y == y);
    }
    let parts = split_on(lines_text(m), '\n');
    assert(parts.drop_last() =~= m);
    assert(parts.last().len() == 0);
}

proof fn lemma_trim_end_push_ws(s: Seq<char>, c: char)
    requires
        is_white_space(c),
    ensures
        crate::text::trim_end_ws(s.push(c)) == crate::text::trim_end_ws(s),
{
    assert(s.push(c).drop_last() == s);
}

proof fn lemma_trim_start_push(s: Seq<char>, c: char)
    ensures
        trim_start_ws(s.push(c)) == (if trim_start_ws(s).len() == 0 {
            trim_start_ws(seq![c])
        } else {
            trim_start_ws(s).push(c)
        }),
    decreases s.len(),
{
    if s.len() == 0 {
        assert(s.push(c) == seq![c]);
    } else if is_white_space(s[0]) {
        assert(s.push(c).drop_first() == s.drop_first().push(c));
        lemma_trim_start_push(s.drop_first(), c);
    }
}

proof fn lemma_trim_push_ws(s: Seq<char>, c: char)
    requires
        is_white_space(c),
    ensures
        trim_ws(s.push(c)) == trim_ws(s),
{
    lemma_trim_start_push(s, c);
    if trim_start_ws(s).len() == 0 {
        assert(seq![c].drop_first() == Seq::<char>::empty());
        assert(trim_start_ws(seq![c]) == trim_start_ws(Seq::<char>::empty()));
    } else {
        lemma_trim_end_push_ws(trim_start_ws(s), c);
    }
}

proof fn lemma_first_index_unique(s: Seq<char>, c: char, a: int, b: int)
    requires
        0 <= a < s.len() && s[a] == c && forall|j: int| 0 <= j < a ==> s[j] != c,
        0 <= b < s.len() && s[b] == c && forall|j: int| 0 <= j < b ==> s[j] != c,
    ensures
        a == b,
{
    if a < b {
        assert(s[a] != c);
    } else if b < a {
        assert(s[b] != c);
    }
}

proof fn lemma_first_index_push(s: Seq<char>, c: char, d: char)
    requires
        c != d,
    ensures
        first_index(s.push(d), c) == first_index(s, c),
        first_index(s, c) matches Some(k) ==> 0 <= k < s.len() && s[k] == c,
{
    let t = s.push(d);
    if exists|k: int| 0 <= k < s.len() && s[k] == c {
        let k0 = choose|k: int| 0 <= k < s.len() && s[k] == c;
        assert(t[k0] == c);
        let a = choose|k: int| 0 <= k < s.len() && s[k] == c && forall|j: int| 0 <= j < k ==> s[j] != c;
        let b = choose|k: int| 0 <= k < t.len() && t[k] == c && forall|j: int| 0 <= j < k ==> t[j] != c;
        lemma_first_index_least(s, c, k0);
        lemma_first_index_least(t, c, k0);
        assert(b < s.len()) by {
            if b == s.len() {
                assert(t[b] == d);
            }
        }
        assert forall|j: int| 0 <= j < b implies s[j] != c by {
            assert(t[j] == s[j]);
        }
        assert(s[b] == t[b]);
        lemma_first_index_unique(s, c, a, b);
    } else {
        assert(!exists|k: int| 0 <= k < t.len() && t[k] == c) by {
            if exists|k: int| 0 <= k < t.len() && t[k] == c {
                let k = choose|k: int| 0 <= k < t.len() && t[k] == c;
                if k < s.len() {
                    assert(s[k] == c);
                } else {
                    assert(t[k] == d);
                }
            }
        }
    }
}

/// Where `c` occurs in `s`, there is a first occurrence.
proof fn lemma_first_index_least(s: Seq<char>, c: char, k: int)
    requires
        0 <= k < s.len() && s[k] == c,
    ensures
        exists|m: int| 0 <= m < s.len() && s[m] == c && forall|j: int| 0 <= j < m ==> s[j] != c,
    decreases k,
{
    if exists|j: int| 0 <= j < k && s[j] == c {
        let j = choose|j: int| 0 <= j < k && s[j] == c;
        lemma_first_index_least(s, c, j);
    } else {
        assert(forall|j: int| 0 <= j < k ==> s[j] != c);
    }
}

/// Two lines read alike: the same section header, and the same key with the
/// same trimmed value (or neither a key).
pub open spec fn lines_read_alike(a: Seq<char>, b: Seq<char>) -> bool {
    &&& section_header(a) == section_header(b)
    &&& match (key_value(a), key_value(b)) {
        (Some(x), Some(y)) => x.0 == y.0 && trim_ws(x.1) == trim_ws(y.1),
        (None, None) => true,
        _ => false,
    }
}

proof fn lemma_start_all_space_push_cr(m: Seq<char>)
    requires
        trim_start_ws(m).len() == 0,
    ensures
        trim_start_ws(m.push('\r')).len() == 0,
{
    lemma_trim_start_push(m, '\r');
    assert(seq!['\r'][0] == '\r');
    assert(is_white_space('\r'));
    assert(seq!['\r'].drop_first() == Seq::<char>::empty());
    assert(trim_start_ws(seq!['\r']) == trim_start_ws(Seq::<char>::empty()));
}

#[verifier::rlimit(30)]
proof fn lemma_key_value_push_cr(m: Seq<char>)
    requires
        trim_start_ws(m).len() > 0,
    ensures
        match (key_value(m.push('\r')), key_value(m)) {
            (Some(x), Some(y)) => x.0 == y.0 && trim_ws(x.1) == trim_ws(y.1),
            (None, None) => true,
            _ => false,
        },
{
    let tm = trim_start_ws(m);
    let tl = trim_start_ws(m.push('\r'));
    lemma_trim_start_push(m, '\r');
    assert(tl == tm.push('\r'));
    assert(tl[0] == tm[0]);
    lemma_first_index_push(tm, '=', '\r');
    match first_index(tm, '=') {
        Some(k) => {
            assert(tl.take(k) == tm.take(k));
            assert(tl.skip(k + 1) == tm.skip(k + 1).push('\r'));
            lemma_trim_push_ws(tm.skip(k + 1), '\r');
        },
        None => {},
    }
}

proof fn lemma_strip_cr_reads_alike(l: Seq<char>)
    ensures
        lines_read_alike(l, strip_cr(l)),
{
    if l.len() > 0 && l.last() == '\r' {
        let m = l.drop_last();
        assert(l == m.push('\r'));
        lemma_trim_push_ws(m, '\r');
        if trim_start_ws(m).len() == 0 {
            lemma_start_all_space_push_cr(m);
        } else {
            lemma_key_value_push_cr(m);
        }
    }
}

proof fn lemma_value_state_alike(l1: Seq<Seq<char>>, l2: Seq<Seq<char>>, section: Seq<char>, key: Seq<char>, n: int)
    requires
        0 <= n <= l1.len(),
        n <= l2.len(),
        forall|i: int| 0 <= i < n ==> lines_read_alike(#[trigger] l1[i], l2[i]),
    ensures
        value_state(l1, section, key, n) == value_state(l2, section, key, n),
    decreases n,
{
    if n > 0 {
        lemma_value_state_alike(l1, l2, section, key, n - 1);
        assert(lines_read_alike(l1[n - 1], l2[n - 1]));
    }
}

proof fn lemma_value_state_prefix(l1: Seq<Seq<char>>, l2: Seq<Seq<char>>, section: Seq<char>, key: Seq<char>, n: int)
    requires
        0 <= n <= l1.len(),
        n <= l2.len(),
        l1.take(n) == l2.take(n),
    ensures
        value_state(l1, section, key, n) == value_state(l2, section, key, n),
{
    assert forall|i: int| 0 <= i < n implies lines_read_alike(#[trigger] l1[i], l2[i]) by {
        assert(l1[i] == l1.take(n)[i]);
        assert(l2[i] == l2.take(n)[i]);
    }
    lemma_value_state_alike(l1, l2, section, key, n);
}

/// While the update scan is still reading, the value scan has found nothing
/// and agrees on whether it is inside the section.
proof fn lemma_scans_agree(lines: Seq<Seq<char>>, section: Seq<char>, key: Seq<char>, n: int)
    requires
        0 <= n <= lines.len(),
        key_scan(lines, section, key, n) is Scanning,
    ensures
        value_state(lines, section, key, n) == (key_scan(lines, section, key, n)->Scanning_0, None::<Seq<char>>),
    decreases n,
{
    if n > 0 {
        let prev = key_scan(lines, section, key, n - 1);
        if !(prev is Scanning) {
            assert(key_scan(lines, section, key, n) == prev);
        }
        lemma_scans_agree(lines, section, key, n - 1);
    }
}

/// Where the update scan stopped, it was inside the section just before.
proof fn lemma_key_scan_stop(lines: Seq<Seq<char>>, section: Seq<char>, key: Seq<char>, n: int)
    requires
        0 <= n <= lines.len(),
    ensures
        match key_scan(lines, section, key, n) {
            KeyScan::Found(i) => 0 <= i < n && key_scan(lines, section, key, i) == KeyScan::Scanning(true),
            KeyScan::SectionEnd(i) => 0 <= i < n && key_scan(lines, section, key, i) == KeyScan::Scanning(true),
            KeyScan::Scanning(_) => true,
        },
    decreases n,
{
    if n > 0 {
        lemma_key_scan_stop(lines, section, key, n - 1);
    }
}

/// A key that reads as itself: trimmed, without `=` or a line break, and not
/// starting like a comment or a section header.
pub open spec fn plain_key(key: Seq<char>) -> bool {
    &&& trim_ws(key) == key
    &&& !key.contains('=')
    &&& !key.contains('\n')
    &&& (key.len() > 0 ==> key[0] != '#' && key[0] != ';' && key[0] != '[')
}

/// A section name that reads as itself: trimmed, without a line break.
pub open spec fn plain_section(section: Seq<char>) -> bool {
    trim_ws(section) == section && !section.contains('\n')
}

proof fn lemma_trim_lengths(s: Seq<char>)
    ensures
        trim_start_ws(s).len() <= s.len(),
        crate::text::trim_end_ws(s).len() <= s.len(),
        s.len() > 0 && !is_white_space(s[0]) ==> crate::text::trim_end_ws(s).len() >= 1 && crate::text::trim_end_ws(
            s,
        )[0] == s[0],
        s.len() > 0 && !is_white_space(s.last()) ==> crate::text::trim_end_ws(s) == s,
        s.len() > 0 && !is_white_space(s[0]) ==> trim_start_ws(s) == s,
    decreases s.len(),
{
    if s.len() > 0 {
        lemma_trim_lengths(s.drop_first());
        lemma_trim_lengths(s.drop_last());
        if s.len() > 1 {
            assert(s.drop_last()[0] == s[0]);
        }
    }
}

proof fn lemma_plain_key_start(key: Seq<char>)
    requires
        trim_ws(key) == key,
        key.len() > 0,
    ensures
        !is_white_space(key[0]),
{
    if is_white_space(key[0]) {
        lemma_trim_lengths(key.drop_first());
        lemma_trim_lengths(trim_start_ws(key.drop_first()));
        assert(trim_start_ws(key) == trim_start_ws(key.drop_first()));
    }
}

/// The line `key=value` reads as that key with that value.
proof fn lemma_key_line_reads(key: Seq<char>, value: Seq<char>)
    requires
        plain_key(key),
    ensures
        section_header(key_line(key, value)) is None,
        key_value(key_line(key, value)) == Some((key, value)),
{
    let line = key_line(key, value);
    let k = key.len() as int;
    assert(line[k] == '=');
    if key.len() > 0 {
        lemma_plain_key_start(key);
        assert(line[0] == key[0]);
    }
    lemma_trim_lengths(line);
    assert(trim_start_ws(line) == line);
    lemma_trim_lengths(trim_start_ws(line));
    assert forall|j: int| 0 <= j < k implies line[j] != '=' by {
        assert(line[j] == key[j]);
    }
    lemma_first_index_least(line, '=', k);
    let c = choose|m: int| 0 <= m < line.len() && line[m] == '=' && forall|j: int| 0 <= j < m ==> line[j] != '=';
    lemma_first_index_unique(line, '=', c, k);
    assert(line.take(k) == key);
    assert(line.skip(k + 1) == value);
}

/// The line `[section]` opens that section.
proof fn lemma_header_line_reads(section: Seq<char>)
    requires
        trim_ws(section) == section,
    ensures
        section_header(header_line(section)) == Some(section),
{
    let h = header_line(section);
    lemma_trim_lengths(h);
    assert(trim_start_ws(h) == h);
    assert(h.last() == ']');
    assert(crate::text::trim_end_ws(h) == h);
    assert(h.subrange(1, h.len() - 1) == section);
}

#[verifier::spinoff_prover]
#[verifier::rlimit(40)]
proof fn lemma_set_value_lines_read(lines: Seq<Seq<char>>, section: Seq<char>, key: Seq<char>, value: Seq<char>)
    requires
        plain_key(key),
        plain_section(section),
    ensures
        value_state(
            set_value_lines(lines, section, key, value),
            section,
            key,
            set_value_lines(lines, section, key, value).len() as int,
        ).1 == Some(trim_ws(value)),
{
    let line = key_line(key, value);
    let m = set_value_lines(lines, section, key, value);
    lemma_key_line_reads(key, value);
    lemma_key_scan_stop(lines, section, key, lines.len() as int);
    let found = (true, Some(trim_ws(value)));
    match key_scan(lines, section, key, lines.len() as int) {
        KeyScan::Found(i) => {
            lemma_scans_agree(lines, section, key, i);
            assert(m.take(i) == lines.take(i));
            lemma_value_state_prefix(m, lines, section, key, i);
            assert(m[i] == line);
            assert(value_state(m, section, key, i + 1) == found);
            lemma_value_state_found(m, section, key, i + 1);
        },
        KeyScan::SectionEnd(i) => {
            lemma_scans_agree(lines, section, key, i);
            assert(m.take(i) == lines.take(i));
            lemma_value_state_prefix(m, lines, section, key, i);
            assert(m[i] == line);
            assert(value_state(m, section, key, i + 1) == found);
            lemma_value_state_found(m, section, key, i + 1);
        },
        KeyScan::Scanning(inside) => {
            let n = lines.len() as int;
            lemma_scans_agree(lines, section, key, n);
            if inside {
                assert(m.take(n) == lines.take(n));
                assert(lines.take(n) == lines);
                lemma_value_state_prefix(m, lines, section, key, n);
                assert(m[n] == line);
                assert(value_state(m, section, key, n + 1) == found);
            } else {
                let spaced = if lines.len() > 0 && lines.last().len() > 0 {
                    lines.push(Seq::<char>::empty())
                } else {
                    lines
                };
                let sn = spaced.len() as int;
                assert(m == spaced.push(header_line(section)).push(line));
                assert(m.take(n) == lines.take(n));
                assert(lines.take(n) == lines);
                lemma_value_state_prefix(m, lines, section, key, n);
                if sn > n {
                    assert(m[n] == Seq::<char>::empty());
                    lemma_trim_lengths(Seq::<char>::empty());
                    assert(value_state(m, section, key, sn) == (false, None::<Seq<char>>));
                }
                lemma_header_line_reads(section);
                assert(m[sn] == header_line(section));
                assert(value_state(m, section, key, sn + 1) == (true, None::<Seq<char>>));
                assert(m[sn + 1] == line);
                assert(value_state(m, section, key, sn + 2) == found);
            }
        },
    }
}

/// Setting a key and reading it back gives the value written, trimmed, for
/// every text, every section name and key that read as themselves (trimmed,
/// on one line, the key without `=` and not opening a comment or a header),
/// and every value on one line.
pub proof fn law_set_value_then_read(source: Seq<char>, section: Seq<char>, key: Seq<char>, value: Seq<char>)
    requires
        plain_key(key),
        plain_section(section),
        !value.contains('\n'),
    ensures
        spec_mimeapps_value(spec_mimeapps_set_value(source, section, key, value), section, key) == Some(
            trim_ws(value),
        ),
{
    let lines = lines_of(source);
    let m = set_value_lines(lines, section, key, value);
    lemma_lines_no_break(source);
    assert forall|i: int| 0 <= i < m.len() implies !(#[trigger] m[i]).contains('\n') by {
        let line = key_line(key, value);
        if m[i] == line {
            if line.contains('\n') {
                let k = choose|k: int| 0 <= k < line.len() && line[k] == '\n';
                if k < key.len() {
                    assert(key[k] == '\n');
                } else if k > key.len() {
                    assert(value[k - key.len() - 1] == '\n');
                }
            }
        } else if m[i] == header_line(section) {
            let h = header_line(section);
            if h.contains('\n') {
                let k = choose|k: int| 0 <= k < h.len() && h[k] == '\n';
                assert(section[k - 1] == '\n');
            }
        } else if m[i].len() == 0 {
        } else {
            assert(exists|j: int| 0 <= j < lines.len() && m[i] == lines[j]) by {
                lemma_set_value_lines_shape(lines, section, key, value, i);
            }
        }
    }
    lemma_lines_round_trip(m);
    let back = m.map_values(|p: Seq<char>| strip_cr(p));
    assert forall|i: int| 0 <= i < m.len() implies lines_read_alike(#[trigger] m[i], back[i]) by {
        lemma_strip_cr_reads_alike(m[i]);
    }
    lemma_value_state_alike(m, back, section, key, m.len() as int);
    lemma_set_value_lines_read(lines, section, key, value);
}

/// The name of the last section header among the first `n` lines.
pub open spec fn last_header(lines: Seq<Seq<char>>, n: int) -> Option<Seq<char>>
    decreases n,
{
    if n <= 0 {
        None
    } else {
        match section_header(lines[n - 1]) {
            Some(h) => Some(h),
            None => last_header(lines, n - 1),
        }
    }
}

/// Until a value is found, the read is inside the section exactly when the
/// last header names it.
proof fn lemma_value_state_header(lines: Seq<Seq<char>>, section: Seq<char>, key: Seq<char>, n: int)
    requires
        0 <= n <= lines.len(),
    ensures
        value_state(lines, section, key, n).1 is None ==> (value_state(lines, section, key, n).0 <==> last_header(
            lines,
            n,
        ) == Some(section)),
    decreases n,
{
    if n > 0 {
        lemma_value_state_header(lines, section, key, n - 1);
    }
}

/// Where the update scan stands: while reading, inside exactly under a
/// header of the section; a found key line is a key line of that key under
/// such a header; the section's end is under such a header too.
proof fn lemma_key_scan_header(lines: Seq<Seq<char>>, section: Seq<char>, key: Seq<char>, n: int)
    requires
        0 <= n <= lines.len(),
    ensures
        match key_scan(lines, section, key, n) {
            KeyScan::Scanning(b) => b == (last_header(lines, n) == Some(section)),
            KeyScan::Found(i) => 0 <= i < n && last_header(lines, i) == Some(section) && section_header(lines[i]) is None
                && line_key(lines[i]) == Some(key),
            KeyScan::SectionEnd(i) => 0 <= i < n && last_header(lines, i) == Some(section),
        },
    decreases n,
{
    if n > 0 {
        lemma_key_scan_header(lines, section, key, n - 1);
    }
}

/// Replacing a line that is no header by another, where neither is a line
/// of `key` read inside `section`, leaves every read of `key` in `section`.
proof fn lemma_value_state_update(
    lines: Seq<Seq<char>>,
    i: int,
    x: Seq<char>,
    section: Seq<char>,
    key: Seq<char>,
    n: int,
)
    requires
        0 <= i < n <= lines.len(),
        section_header(lines[i]) is None,
        section_header(x) is None,
        last_header(lines, i) == Some(section) ==> line_key(lines[i]) != Some(key) && line_key(x) != Some(key),
    ensures
        value_state(lines.update(i, x), section, key, n) == value_state(lines, section, key, n),
    decreases n,
{
    let m = lines.update(i, x);
    if n == i + 1 {
        assert(m.take(i) =~= lines.take(i));
        lemma_value_state_prefix(m, lines, section, key, i);
        lemma_value_state_header(lines, section, key, i);
    } else {
        lemma_value_state_update(lines, i, x, section, key, n - 1);
        assert(m[n - 1] == lines[n - 1]);
    }
}

/// Inserting a line that is no header, and no line of `key` read inside
/// `section` where it lands, leaves every read of `key` in `section`.
proof fn lemma_value_state_insert(
    lines: Seq<Seq<char>>,
    i: int,
    x: Seq<char>,
    section: Seq<char>,
    key: Seq<char>,
    n: int,
)
    requires
        0 <= i <= n <= lines.len(),
        section_header(x) is None,
        last_header(lines, i) == Some(section) ==> line_key(x) != Some(key),
    ensures
        value_state(lines.insert(i, x), section, key, n + 1) == value_state(lines, section, key, n),
    decreases n,
{
    let m = lines.insert(i, x);
    if n == i {
        assert(m.take(i) =~= lines.take(i));
        lemma_value_state_prefix(m, lines, section, key, i);
        lemma_value_state_header(lines, section, key, i);
        assert(m[i] == x);
    } else {
        lemma_value_state_insert(lines, i, x, section, key, n - 1);
        assert(m[n] == lines[n - 1]);
    }
}

/// What the written text reads as: the value read from the lines of the
/// update, for any section and key.
proof fn lemma_set_value_text_reads(
    source: Seq<char>,
    section: Seq<char>,
    key: Seq<char>,
    value: Seq<char>,
    section2: Seq<char>,
    key2: Seq<char>,
)
    requires
        plain_key(key),
        plain_section(section),
        !value.contains('\n'),
    ensures
        ({
            let m = set_value_lines(lines_of(source), section, key, value);
            spec_mimeapps_value(spec_mimeapps_set_value(source, section, key, value), section2, key2) == value_state(
                m,
                section2,
                key2,
                m.len() as int,
            ).1
        }),
{
    let lines = lines_of(source);
    let m = set_value_lines(lines, section, key, value);
    lemma_lines_no_break(source);
    assert forall|i: int| 0 <= i < m.len() implies !(#[trigger] m[i]).contains('\n') by {
        let line = key_line(key, value);
        if m[i] == line {
            if line.contains('\n') {
                let k = choose|k: int| 0 <= k < line.len() && line[k] == '\n';
                if k < key.len() {
                    assert(key[k] == '\n');
                } else if k > key.len() {
                    assert(value[k - key.len() - 1] == '\n');
                }
            }
        } else if m[i] == header_line(section) {
            let h = header_line(section);
            if h.contains('\n') {
                let k = choose|k: int| 0 <= k < h.len() && h[k] == '\n';
                assert(section[k - 1] == '\n');
            }
        } else if m[i].len() == 0 {
        } else {
            assert(exists|j: int| 0 <= j < lines.len() && m[i] == lines[j]) by {
                lemma_set_value_lines_shape(lines, section, key, value, i);
            }
        }
    }
    lemma_lines_round_trip(m);
    let back = m.map_values(|p: Seq<char>| strip_cr(p));
    assert forall|i: int| 0 <= i < m.len() implies lines_read_alike(#[trigger] m[i], back[i]) by {
        lemma_strip_cr_reads_alike(m[i]);
    }
    lemma_value_state_alike(m, back, section2, key2, m.len() as int);
}

/// Setting a key changes no other read: every other key of every section,
/// and the same key in every other section, reads as before, for every text
/// and every section name, key and value that `law_set_value_then_read`
/// admits.
pub proof fn law_set_value_keeps_other_reads(
    source: Seq<char>,
    section: Seq<char>,
    key: Seq<char>,
    value: Seq<char>,
    section2: Seq<char>,
    key2: Seq<char>,
)
    requires
        plain_key(key),
        plain_section(section),
        !value.contains('\n'),
        section2 != section || key2 != key,
    ensures
        spec_mimeapps_value(spec_mimeapps_set_value(source, section, key, value), section2, key2) == spec_mimeapps_value(
            source,
            section2,
            key2,
        ),
{
    let lines = lines_of(source);
    let n = lines.len() as int;
    let line = key_line(key, value);
    let m = set_value_lines(lines, section, key, value);
    lemma_set_value_text_reads(source, section, key, value, section2, key2);
    lemma_key_line_reads(key, value);
    assert(line_key(line) == Some(key));
    lemma_key_scan_header(lines, section, key, n);
    match key_scan(lines, section, key, n) {
        KeyScan::Found(i) => {
            lemma_value_state_update(lines, i, line, section2, key2, n);
            assert(m == lines.update(i, line));
            assert(value_state(m, section2, key2, m.len() as int) == value_state(lines, section2, key2, n));
        },
        KeyScan::SectionEnd(i) => {
            lemma_value_state_insert(lines, i, line, section2, key2, n);
            assert(m == lines.insert(i, line));
            assert(value_state(m, section2, key2, m.len() as int) == value_state(lines, section2, key2, n));
        },
        KeyScan::Scanning(inside) => {
            if inside {
                assert(lines.push(line) =~= lines.insert(n, line));
                lemma_value_state_insert(lines, n, line, section2, key2, n);
                assert(value_state(m, section2, key2, m.len() as int) == value_state(lines, section2, key2, n));
            } else {
                let spaced = if lines.len() > 0 && lines.last().len() > 0 {
                    lines.push(Seq::<char>::empty())
                } else {
                    lines
                };
                let sn = spaced.len() as int;
                lemma_trim_lengths(Seq::<char>::empty());
                assert(section_header(Seq::<char>::empty()) is None);
                assert(key_value(Seq::<char>::empty()) is None);
                if sn > n {
                    assert(lines.push(Seq::<char>::empty()) =~= lines.insert(n, Seq::<char>::empty()));
                    lemma_value_state_insert(lines, n, Seq::<char>::empty(), section2, key2, n);
                }
                assert(value_state(spaced, section2, key2, sn) == value_state(lines, section2, key2, n));
                assert(m == spaced.push(header_line(section)).push(line));
                assert(m.take(sn) =~= spaced.take(sn));
                assert(spaced.take(sn) =~= spaced);
                lemma_value_state_prefix(m, spaced, section2, key2, sn);
                lemma_header_line_reads(section);
                assert(m[sn] == header_line(section));
                assert(m[sn + 1] == line);
                lemma_value_state_header(lines, section2, key2, n);
                assert(value_state(m, section2, key2, sn + 1).1 == value_state(lines, section2, key2, n).1);
                assert(value_state(m, section2, key2, sn + 2).1 == value_state(lines, section2, key2, n).1);
            }
        },
    }
}

proof fn lemma_key_scan_prefix(l1: Seq<Seq<char>>, l2: Seq<Seq<char>>, section: Seq<char>, key: Seq<char>, n: int)
    requires
        0 <= n <= l1.len(),
        n <= l2.len(),
        l1.take(n) == l2.take(n),
    ensures
        key_scan(l1, section, key, n) == key_scan(l2, section, key, n),
    decreases n,
{
    if n > 0 {
        assert(l1.take(n - 1) =~= l1.take(n).take(n - 1));
        assert(l2.take(n - 1) =~= l2.take(n).take(n - 1));
        lemma_key_scan_prefix(l1, l2, section, key, n - 1);
        assert(l1[n - 1] == l1.take(n)[n - 1]);
        assert(l2[n - 1] == l2.take(n)[n - 1]);
    }
}

/// A line that reading keeps as it is: it does not end with `\r`.
pub open spec fn keeps_line_end(line: Seq<char>) -> bool {
    !(line.len() > 0 && line.last() == '\r')
}

/// The index at which an update writes the key's line.
pub open spec fn written_at(lines: Seq<Seq<char>>, section: Seq<char>, key: Seq<char>) -> int {
    match key_scan(lines, section, key, lines.len() as int) {
        KeyScan::Found(i) => i,
        KeyScan::SectionEnd(i) => i,
        KeyScan::Scanning(inside) => if inside {
            lines.len() as int
        } else if lines.len() > 0 && lines.last().len() > 0 {
            lines.len() + 2int
        } else {
            lines.len() + 1int
        },
    }
}

/// The lines after an update hold no line break and, where the text's lines
/// do not end with `\r`, only the written key line may.
proof fn lemma_set_value_lines_clean(source: Seq<char>, section: Seq<char>, key: Seq<char>, value: Seq<char>)
    requires
        plain_key(key),
        plain_section(section),
        !value.contains('\n'),
        forall|i: int| 0 <= i < lines_of(source).len() ==> keeps_line_end(#[trigger] lines_of(source)[i]),
    ensures
        ({
            let m = set_value_lines(lines_of(source), section, key, value);
            forall|i: int| 0 <= i < m.len() ==> !(#[trigger] m[i]).contains('\n') && (i == written_at(
                lines_of(source),
                section,
                key,
            ) || keeps_line_end(m[i]))
        }),
{
    let lines = lines_of(source);
    let line = key_line(key, value);
    let m = set_value_lines(lines, section, key, value);
    lemma_lines_no_break(source);
    assert(keeps_line_end(header_line(section)));
    assert forall|i: int| 0 <= i < m.len() implies !(#[trigger] m[i]).contains('\n') && (i == written_at(lines, section, key)
        || keeps_line_end(m[i])) by {
        lemma_set_value_lines_shape(lines, section, key, value, i);
        if i == written_at(lines, section, key) && m[i] == line {
            if line.contains('\n') {
                let k = choose|k: int| 0 <= k < line.len() && line[k] == '\n';
                if k < key.len() {
                    assert(key[k] == '\n');
                } else if k > key.len() {
                    assert(value[k - key.len() - 1] == '\n');
                }
            }
        } else if m[i] == header_line(section) {
            let h = header_line(section);
            if h.contains('\n') {
                let k = choose|k: int| 0 <= k < h.len() && h[k] == '\n';
                assert(section[k - 1] == '\n');
            }
        } else if m[i].len() == 0 {
        } else {
            let j = choose|j: int| 0 <= j < lines.len() && m[i] == lines[j];
            assert(keeps_line_end(lines[j]));
        }
    }
}

/// After an update, the update scan of the new lines stops at the line it
/// wrote.
proof fn lemma_set_value_lines_found(lines: Seq<Seq<char>>, section: Seq<char>, key: Seq<char>, value: Seq<char>)
    requires
        plain_key(key),
        plain_section(section),
    ensures
        ({
            let m = set_value_lines(lines, section, key, value);
            let pos = written_at(lines, section, key);
            0 <= pos < m.len() && m[pos] == key_line(key, value) && key_scan(m, section, key, m.len() as int)
                == KeyScan::Found(pos)
        }),
{
    let n = lines.len() as int;
    let line = key_line(key, value);
    let m = set_value_lines(lines, section, key, value);
    lemma_key_line_reads(key, value);
    lemma_key_scan_stop(lines, section, key, n);
    match key_scan(lines, section, key, n) {
        KeyScan::Found(i) => {
            assert(m.take(i) =~= lines.take(i));
            lemma_key_scan_prefix(m, lines, section, key, i);
            assert(m[i] == line);
            assert(key_scan(m, section, key, i + 1) == KeyScan::Found(i));
            lemma_key_scan_stops(m, section, key, i + 1);
        },
        KeyScan::SectionEnd(i) => {
            assert(m.take(i) =~= lines.take(i));
            lemma_key_scan_prefix(m, lines, section, key, i);
            assert(m[i] == line);
            assert(key_scan(m, section, key, i + 1) == KeyScan::Found(i));
            lemma_key_scan_stops(m, section, key, i + 1);
        },
        KeyScan::Scanning(inside) => {
            if inside {
                assert(m.take(n) =~= lines.take(n));
                assert(lines.take(n) =~= lines);
                lemma_key_scan_prefix(m, lines, section, key, n);
                assert(m[n] == line);
                assert(key_scan(m, section, key, n + 1) == KeyScan::Found(n));
                lemma_key_scan_stops(m, section, key, n + 1);
            } else {
                let spaced = if lines.len() > 0 && lines.last().len() > 0 {
                    lines.push(Seq::<char>::empty())
                } else {
                    lines
                };
                let sn = spaced.len() as int;
                assert(m == spaced.push(header_line(section)).push(line));
                assert(m.take(n) =~= lines.take(n));
                assert(lines.take(n) =~= lines);
                lemma_key_scan_prefix(m, lines, section, key, n);
                lemma_trim_lengths(Seq::<char>::empty());
                assert(section_header(Seq::<char>::empty()) is None);
                if sn > n {
                    assert(m[n] == Seq::<char>::empty());
                    assert(key_scan(m, section, key, sn) == KeyScan::Scanning(false));
                }
                lemma_header_line_reads(section);
                assert(m[sn] == header_line(section));
                assert(key_scan(m, section, key, sn + 1) == KeyScan::Scanning(true));
                assert(m[sn + 1] == line);
                assert(key_scan(m, section, key, sn + 2) == KeyScan::Found(sn + 1));
                lemma_key_scan_stops(m, section, key, sn + 2);
            }
        },
    }
}

/// Setting a key to the value it was just set to changes nothing, for every
/// text whose lines, as read, do not end with `\r`, and every section name,
/// key and value that `law_set_value_then_read` admits. (A text whose last
/// line ends with a `\r` and no line break is an input on which it fails: the
/// first write keeps that `\r` before the line break it adds, and the second
/// reads it as part of the line break.)
pub proof fn law_set_value_twice(source: Seq<char>, section: Seq<char>, key: Seq<char>, value: Seq<char>)
    requires
        plain_key(key),
        plain_section(section),
        !value.contains('\n'),
        forall|i: int| 0 <= i < lines_of(source).len() ==> keeps_line_end(#[trigger] lines_of(source)[i]),
    ensures
        spec_mimeapps_set_value(spec_mimeapps_set_value(source, section, key, value), section, key, value)
            == spec_mimeapps_set_value(source, section, key, value),
{
    let lines = lines_of(source);
    let line = key_line(key, value);
    let m = set_value_lines(lines, section, key, value);
    let r = spec_mimeapps_set_value(source, section, key, value);
    lemma_set_value_lines_clean(source, section, key, value);
    lemma_lines_round_trip(m);
    lemma_set_value_lines_found(lines, section, key, value);
    let pos = written_at(lines, section, key);
    let read = key_line(key, strip_cr(value));
    assert(strip_cr(line) == read) by {
        if value.len() > 0 {
            assert(line.last() == value.last());
            if value.last() == '\r' {
                assert(line.drop_last() =~= key_line(key, value.drop_last()));
            }
        } else {
            assert(line.last() == '=');
        }
    }
    let back = m.update(pos, read);
    assert(lines_of(r) =~= back) by {
        assert forall|i: int| 0 <= i < m.len() implies strip_cr(#[trigger] m[i]) == back[i] by {
            if i != pos {
                assert(keeps_line_end(m[i]));
            }
        }
    }
    assert(back.take(pos) =~= m.take(pos));
    lemma_key_scan_prefix(back, m, section, key, pos);
    lemma_key_scan_stop(m, section, key, m.len() as int);
    lemma_key_line_reads(key, strip_cr(value));
    assert(key_scan(back, section, key, pos + 1) == KeyScan::Found(pos));
    lemma_key_scan_stops(back, section, key, pos + 1);
    assert(set_value_lines(back, section, key, value) =~= m);
}

/// Every line after an update is an old line, the new key line, the new
/// header or an empty line.
proof fn lemma_set_value_lines_shape(
    lines: Seq<Seq<char>>,
    section: Seq<char>,
    key: Seq<char>,
    value: Seq<char>,
    i: int,
)
    requires
        0 <= i < set_value_lines(lines, section, key, value).len(),
    ensures
        ({
            let m = set_value_lines(lines, section, key, value);
            ||| i == written_at(lines, section, key) && m[i] == key_line(key, value)
            ||| m[i] == header_line(section)
            ||| m[i].len() == 0
            ||| exists|j: int| 0 <= j < lines.len() && m[i] == lines[j]
        }),
{
    let m = set_value_lines(lines, section, key, value);
    lemma_key_scan_stop(lines, section, key, lines.len() as int);
    match key_scan(lines, section, key, lines.len() as int) {
        KeyScan::Found(k) => {
            if i != k {
                assert(m[i] == lines[i]);
            }
        },
        KeyScan::SectionEnd(k) => {
            if i < k {
                assert(m[i] == lines[i]);
            } else if i > k {
                assert(m[i] == lines[i - 1]);
            }
        },
        KeyScan::Scanning(inside) => {
            if i < lines.len() {
                assert(m[i] == lines[i]);
            }
        },
    }
}

// ---------------------------------------------------------------------------
// Putting a handler first
// ---------------------------------------------------------------------------

/// No element of a sequence of lines holds a line break.
pub open spec fn no_breaks(lines: Seq<Seq<char>>) -> bool {
    forall|i: int| 0 <= i < lines.len() ==> !(#[trigger] lines[i]).contains('\n')
}

proof fn lemma_trim_start_skip(s: Seq<char>)
    ensures
        exists|k: int| 0 <= k <= s.len() && trim_start_ws(s) == s.skip(k),
    decreases s.len(),
{
    if s.len() > 0 && is_white_space(s[0]) {
        lemma_trim_start_skip(s.drop_first());
        let k = choose|k: int| 0 <= k <= s.drop_first().len() && trim_start_ws(s.drop_first()) == s.drop_first().skip(k);
        assert(s.drop_first().skip(k) == s.skip(k + 1));
    } else {
        assert(s.skip(0) == s);
    }
}

proof fn lemma_trim_end_take(s: Seq<char>)
    ensures
        exists|k: int| 0 <= k <= s.len() && crate::text::trim_end_ws(s) == s.take(k),
    decreases s.len(),
{
    if s.len() > 0 && is_white_space(s.last()) {
        lemma_trim_end_take(s.drop_last());
        let k = choose|k: int| 0 <= k <= s.drop_last().len() && crate::text::trim_end_ws(s.drop_last()) == s.drop_last().take(k);
        assert(s.drop_last().take(k) == s.take(k));
    } else {
        assert(s.take(s.len() as int) == s);
    }
}

proof fn lemma_subrange_no_break(s: Seq<char>, t: Seq<char>, a: int, b: int)
    requires
        !s.contains('\n'),
        0 <= a <= b <= s.len(),
        t == s.subrange(a, b),
    ensures
        !t.contains('\n'),
{
    if t.contains('\n') {
        let k = choose|k: int| 0 <= k < t.len() && t[k] == '\n';
        assert(s[a + k] == '\n');
    }
}

/// Trimming keeps a text on one line.
proof fn lemma_trim_no_break(s: Seq<char>)
    requires
        !s.contains('\n'),
    ensures
        !trim_start_ws(s).contains('\n'),
        !trim_ws(s).contains('\n'),
{
    lemma_trim_start_skip(s);
    let k = choose|k: int| 0 <= k <= s.len() && trim_start_ws(s) == s.skip(k);
    lemma_subrange_no_break(s, trim_start_ws(s), k, s.len() as int);
    let t = trim_start_ws(s);
    lemma_trim_end_take(t);
    let j = choose|j: int| 0 <= j <= t.len() && crate::text::trim_end_ws(t) == t.take(j);
    lemma_subrange_no_break(t, trim_ws(s), 0, j);
}

/// The trimmed value of a key line on one line is on one line.
proof fn lemma_key_value_no_break(line: Seq<char>)
    requires
        !line.contains('\n'),
    ensures
        key_value(line) matches Some(kv) ==> !trim_ws(kv.1).contains('\n'),
{
    lemma_trim_no_break(line);
    let t = trim_start_ws(line);
    lemma_first_index_push(t, '=', '\r');
    match first_index(t, '=') {
        Some(k) => {
            lemma_subrange_no_break(t, t.skip(k + 1), k + 1, t.len() as int);
            lemma_trim_no_break(t.skip(k + 1));
        },
        None => {},
    }
}

/// A value read from lines on one line is on one line.
proof fn lemma_value_no_break(lines: Seq<Seq<char>>, section: Seq<char>, key: Seq<char>, n: int)
    requires
        0 <= n <= lines.len(),
        no_breaks(lines),
    ensures
        value_state(lines, section, key, n).1 matches Some(v) ==> !v.contains('\n'),
    decreases n,
{
    if n > 0 {
        lemma_value_no_break(lines, section, key, n - 1);
        assert(!lines[n - 1].contains('\n'));
        lemma_key_value_no_break(lines[n - 1]);
    }
}

proof fn lemma_trimmed_ids_no_break(parts: Seq<Seq<char>>)
    requires
        no_breaks(parts),
    ensures
        no_breaks(trimmed_ids(parts)),
    decreases parts.len(),
{
    if parts.len() > 0 {
        assert(no_breaks(parts.drop_last())) by {
            assert forall|i: int| 0 <= i < parts.drop_last().len() implies !(#[trigger] parts.drop_last()[i]).contains('\n') by {
                assert(parts.drop_last()[i] == parts[i]);
            }
        }
        lemma_trimmed_ids_no_break(parts.drop_last());
        assert(!parts.last().contains('\n')) by {
            assert(parts[parts.len() - 1] == parts.last());
        }
        lemma_trim_no_break(parts.last());
    }
}

proof fn lemma_without_id_no_break(ids: Seq<Seq<char>>, id: Seq<char>)
    requires
        no_breaks(ids),
    ensures
        no_breaks(without_id(ids, id)),
    decreases ids.len(),
{
    if ids.len() > 0 {
        assert(no_breaks(ids.drop_last())) by {
            assert forall|i: int| 0 <= i < ids.drop_last().len() implies !(#[trigger] ids.drop_last()[i]).contains('\n') by {
                assert(ids.drop_last()[i] == ids[i]);
            }
        }
        lemma_without_id_no_break(ids.drop_last(), id);
        assert(!ids.last().contains('\n')) by {
            assert(ids[ids.len() - 1] == ids.last());
        }
    }
}

proof fn lemma_join_no_break(ids: Seq<Seq<char>>)
    requires
        no_breaks(ids),
    ensures
        !join_seqs(ids, seq![';']).contains('\n'),
    decreases ids.len(),
{
    if ids.len() == 1 {
        assert(!ids[0].contains('\n'));
    } else if ids.len() > 1 {
        assert(no_breaks(ids.drop_last())) by {
            assert forall|i: int| 0 <= i < ids.drop_last().len() implies !(#[trigger] ids.drop_last()[i]).contains('\n') by {
                assert(ids.drop_last()[i] == ids[i]);
            }
        }
        lemma_join_no_break(ids.drop_last());
        let head = join_seqs(ids.drop_last(), seq![';']);
        let last = ids.last();
        assert(!last.contains('\n')) by {
            assert(ids[ids.len() - 1] == last);
        }
        let whole = head + seq![';'] + last;
        if whole.contains('\n') {
            let k = choose|k: int| 0 <= k < whole.len() && whole[k] == '\n';
            if k < head.len() {
                assert(head[k] == '\n');
            } else if k > head.len() {
                assert(last[k - head.len() - 1] == '\n');
            }
        }
    }
}

/// Joined ids with a final `;` begin with the first id and a `;`.
proof fn lemma_ids_text_starts(ids: Seq<Seq<char>>)
    requires
        ids.len() >= 1,
    ensures
        exists|rest: Seq<char>| join_seqs(ids, seq![';']).push(';') == ids[0].push(';') + rest,
    decreases ids.len(),
{
    if ids.len() == 1 {
        assert(join_seqs(ids, seq![';']).push(';') == ids[0].push(';') + Seq::<char>::empty());
    } else {
        lemma_ids_text_starts(ids.drop_last());
        let rest0 = choose|rest: Seq<char>| join_seqs(ids.drop_last(), seq![';']).push(';') == ids.drop_last()[0].push(';') + rest;
        let head = join_seqs(ids.drop_last(), seq![';']);
        assert(ids.drop_last()[0] == ids[0]);
        assert(join_seqs(ids, seq![';']) == head + seq![';'] + ids.last());
        assert(head.push(';') == ids[0].push(';') + rest0);
        assert((head + seq![';'] + ids.last()).push(';') =~= head.push(';') + ids.last().push(';'));
        assert(ids[0].push(';') + (rest0 + ids.last().push(';')) =~= (ids[0].push(';') + rest0) + ids.last().push(';'));
        assert(join_seqs(ids, seq![';']).push(';') == ids[0].push(';') + (rest0 + ids.last().push(';')));
    }
}

/// The first piece of a text split at `sep` is what comes before its first
/// `sep`.
proof fn lemma_split_first(a: Seq<char>, rest: Seq<char>, sep: char)
    requires
        !a.contains(sep),
    ensures
        split_on(a.push(sep) + rest, sep).len() >= 2,
        split_on(a.push(sep) + rest, sep)[0] == a,
    decreases rest.len(),
{
    if rest.len() == 0 {
        assert(a.push(sep) + rest == a.push(sep));
        assert(a.push(sep).drop_last() == a);
        lemma_split_append(Seq::<char>::empty(), a, sep);
        assert(Seq::<char>::empty() + a == a);
        assert(split_on(Seq::<char>::empty(), sep) == seq![Seq::<char>::empty()]);
        assert(split_on(a, sep) == seq![a]);
    } else {
        lemma_split_first(a, rest.drop_last(), sep);
        let s = a.push(sep) + rest;
        assert(s.drop_last() == a.push(sep) + rest.drop_last());
        crate::text::lemma_split_nonempty(s.drop_last(), sep);
    }
}

proof fn lemma_trimmed_ids_first(parts: Seq<Seq<char>>)
    requires
        parts.len() >= 1,
        trim_ws(parts[0]).len() > 0,
    ensures
        trimmed_ids(parts).len() >= 1,
        trimmed_ids(parts)[0] == trim_ws(parts[0]),
    decreases parts.len(),
{
    if parts.len() > 1 {
        assert(parts.drop_last()[0] == parts[0]);
        lemma_trimmed_ids_first(parts.drop_last());
    } else {
        assert(parts.drop_last().len() == 0);
        assert(trimmed_ids(parts.drop_last()) == Seq::<Seq<char>>::empty());
        assert(parts.last() == parts[0]);
    }
}

/// A desktop file id that reads as itself in a list: trimmed, not empty, on
/// one line and without `;`.
pub open spec fn plain_desktop_id(id: Seq<char>) -> bool {
    &&& trim_ws(id) == id
    &&& id.len() > 0
    &&& !id.contains('\n')
    &&& !id.contains(';')
}

/// Putting a desktop file id first under a key sets the key to a value that
/// holds no line break.
pub open spec fn written_is_set_value(source: Seq<char>, section: Seq<char>, key: Seq<char>, desktop_id: Seq<char>) -> bool {
    let current = match spec_mimeapps_value(source, section, key) {
        Some(v) => v,
        None => Seq::<char>::empty(),
    };
    let text = desktop_ids_text(seq![desktop_id] + without_id(desktop_ids_of(current), desktop_id));
    &&& !text.contains('\n')
    &&& spec_mimeapps_prepend_desktop_id(source, section, key, desktop_id) == spec_mimeapps_set_value(
        source,
        section,
        key,
        text,
    )
}

/// Putting a desktop file id first under a key changes no other read: every
/// other key of every section, and the same key in every other section,
/// reads as before.
pub proof fn law_prepend_keeps_other_reads(
    source: Seq<char>,
    section: Seq<char>,
    key: Seq<char>,
    desktop_id: Seq<char>,
    section2: Seq<char>,
    key2: Seq<char>,
)
    requires
        plain_key(key),
        plain_section(section),
        plain_desktop_id(desktop_id),
        section2 != section || key2 != key,
    ensures
        spec_mimeapps_value(spec_mimeapps_prepend_desktop_id(source, section, key, desktop_id), section2, key2)
            == spec_mimeapps_value(source, section2, key2),
{
    law_prepend_makes_first(source, section, key, desktop_id);
    let current = match spec_mimeapps_value(source, section, key) {
        Some(v) => v,
        None => Seq::<char>::empty(),
    };
    let text = desktop_ids_text(seq![desktop_id] + without_id(desktop_ids_of(current), desktop_id));
    law_set_value_keeps_other_reads(source, section, key, text, section2, key2);
}

/// After putting a desktop file id first under a key, the list read back
/// under that key starts with that id, for every text, every section name
/// and key that read as themselves, and every id that reads as itself.
pub proof fn law_prepend_makes_first(source: Seq<char>, section: Seq<char>, key: Seq<char>, desktop_id: Seq<char>)
    requires
        plain_key(key),
        plain_section(section),
        plain_desktop_id(desktop_id),
    ensures
        ({
            let written = spec_mimeapps_prepend_desktop_id(source, section, key, desktop_id);
            &&& spec_mimeapps_value(written, section, key) is Some
            &&& desktop_ids_of(spec_mimeapps_value(written, section, key)->0).len() >= 1
            &&& desktop_ids_of(spec_mimeapps_value(written, section, key)->0)[0] == desktop_id
        }),
        written_is_set_value(source, section, key, desktop_id),
{
    let lines = lines_of(source);
    lemma_lines_no_break(source);
    assert(no_breaks(lines));
    lemma_value_no_break(lines, section, key, lines.len() as int);
    let current = match spec_mimeapps_value(source, section, key) {
        Some(v) => v,
        None => Seq::<char>::empty(),
    };
    assert(!current.contains('\n'));
    lemma_split_no_sep(current, '\n');
    let cparts = split_on(current, ';');
    assert(no_breaks(cparts)) by {
        assert forall|i: int| 0 <= i < cparts.len() implies !(#[trigger] cparts[i]).contains('\n') by {
            lemma_split_pieces_within(current, ';', '\n', i);
        }
    }
    lemma_trimmed_ids_no_break(cparts);
    let others = without_id(desktop_ids_of(current), desktop_id);
    lemma_without_id_no_break(desktop_ids_of(current), desktop_id);
    let ids = seq![desktop_id] + others;
    assert(ids[0] == desktop_id);
    assert(no_breaks(ids)) by {
        assert forall|i: int| 0 <= i < ids.len() implies !(#[trigger] ids[i]).contains('\n') by {
            if i > 0 {
                assert(ids[i] == others[i - 1]);
            }
        }
    }
    lemma_join_no_break(ids);
    let joined = join_seqs(ids, seq![';']);
    let text = desktop_ids_text(ids);
    lemma_ids_text_starts(ids);
    let rest = choose|rest: Seq<char>| joined.push(';') == ids[0].push(';') + rest;
    assert(joined.len() > 0) by {
        assert(joined.push(';').len() == desktop_id.len() + 1 + rest.len());
    }
    assert(text == joined.push(';'));
    assert(!text.contains('\n')) by {
        if text.contains('\n') {
            let k = choose|k: int| 0 <= k < text.len() && text[k] == '\n';
            if k < joined.len() {
                assert(joined[k] == '\n');
            }
        }
    }
    law_set_value_then_read(source, section, key, text);
    // The list written reads back as itself, its first id first.
    lemma_plain_key_start(desktop_id);
    assert(text[0] == desktop_id[0]);
    assert(text.last() == ';');
    lemma_trim_lengths(text);
    assert(trim_start_ws(text) == text);
    lemma_trim_lengths(trim_start_ws(text));
    assert(trim_ws(text) == text);
    assert(text == desktop_id.push(';') + rest);
    lemma_split_first(desktop_id, rest, ';');
    lemma_trimmed_ids_first(split_on(text, ';'));
}

/// Each piece of a text split at `sep` lies within the text, so it holds no
/// character the text does not.
proof fn lemma_split_pieces_within(s: Seq<char>, sep: char, c: char, i: int)
    requires
        !s.contains(c),
        0 <= i < split_on(s, sep).len(),
    ensures
        !split_on(s, sep)[i].contains(c),
    decreases s.len(),
{
    if s.len() > 0 {
        let prev = split_on(s.drop_last(), sep);
        crate::text::lemma_split_nonempty(s.drop_last(), sep);
        assert(!s.drop_last().contains(c)) by {
            if s.drop_last().contains(c) {
                let k = choose|k: int| 0 <= k < s.drop_last().len() && s.drop_last()[k] == c;
                assert(s[k] == c);
            }
        }
        let cur = split_on(s, sep);
        if s.last() == sep {
            if i < prev.len() {
                lemma_split_pieces_within(s.drop_last(), sep, c, i);
            }
        } else {
            if i < prev.len() - 1 {
                assert(cur[i] == prev[i]);
                lemma_split_pieces_within(s.drop_last(), sep, c, i);
            } else {
                lemma_split_pieces_within(s.drop_last(), sep, c, prev.len() - 1);
                assert(cur[i] == prev.last().push(s.last()));
                assert(s.last() != c) by {
                    assert(s[s.len() - 1] == s.last());
                }
                if cur[i].contains(c) {
                    let k = choose|k: int| 0 <= k < cur[i].len() && cur[i][k] == c;
                    if k < prev.last().len() {
                        assert(prev.last()[k] == c);
                    }
                }
            }
        }
    }
}

// ---------------------------------------------------------------------------
// Laws of the editor's associations
// ---------------------------------------------------------------------------

/// The section and id names the editor writes read as themselves.
proof fn lemma_association_names()
    ensures
        plain_section("Default Applications"@),
        plain_section("Added Associations"@),
        plain_desktop_id(arca_desktop_id()),
        "Default Applications"@ != "Added Associations"@,
{
    reveal_strlit("Default Applications");
    reveal_strlit("Added Associations");
    reveal_strlit("com.crasnec.arca.desktop");
    let d = "Default Applications"@;
    let a = "Added Associations"@;
    let id = arca_desktop_id();
    lemma_trim_lengths(d);
    lemma_trim_lengths(a);
    lemma_trim_lengths(id);
    assert(d[2] != a[2]);
    assert forall|k: int| 0 <= k < d.len() implies d[k] != '\n' by {}
    assert forall|k: int| 0 <= k < a.len() implies a[k] != '\n' by {}
    assert forall|k: int| 0 <= k < id.len() implies id[k] != '\n' && id[k] != ';' by {}
}

/// `text` makes the editor the first default handler of `mime_type` and the
/// first of its added associations.
pub open spec fn editor_first_for(text: Seq<char>, mime_type: Seq<char>) -> bool {
    &&& spec_mimeapps_value(text, "Default Applications"@, mime_type) matches Some(d) && desktop_ids_of(d).len() >= 1
        && desktop_ids_of(d)[0] == arca_desktop_id()
    &&& spec_mimeapps_value(text, "Added Associations"@, mime_type) matches Some(a) && desktop_ids_of(a).len() >= 1
        && desktop_ids_of(a)[0] == arca_desktop_id()
}

/// Turning the editor's association on for a list of MIME types makes it the
/// first default handler and the first added association of every type in
/// the list, not only the last one, for every text and every list of types
/// that read as keys.
pub proof fn law_association_on_covers_every_type(source: Seq<char>, mime_types: Seq<Seq<char>>, n: int)
    requires
        0 <= n <= mime_types.len(),
        forall|i: int| 0 <= i < mime_types.len() ==> plain_key(#[trigger] mime_types[i]),
    ensures
        forall|j: int| 0 <= j < n ==> editor_first_for(association_text(source, mime_types, true, n), #[trigger] mime_types[j]),
    decreases n,
{
    if n > 0 {
        law_association_on_covers_every_type(source, mime_types, n - 1);
        lemma_association_names();
        let d = "Default Applications"@;
        let a = "Added Associations"@;
        let id = arca_desktop_id();
        let prev = association_text(source, mime_types, true, n - 1);
        let m = mime_types[n - 1];
        let first = spec_mimeapps_prepend_desktop_id(prev, d, m, id);
        let text = association_text(source, mime_types, true, n);
        assert(text == spec_mimeapps_prepend_desktop_id(first, a, m, id));
        law_prepend_makes_first(prev, d, m, id);
        law_prepend_makes_first(first, a, m, id);
        law_prepend_keeps_other_reads(first, a, m, id, d, m);
        assert forall|j: int| 0 <= j < n implies editor_first_for(text, #[trigger] mime_types[j]) by {
            let k = mime_types[j];
            if k != m {
                assert(editor_first_for(prev, mime_types[j]));
                law_prepend_keeps_other_reads(prev, d, m, id, d, k);
                law_prepend_keeps_other_reads(prev, d, m, id, a, k);
                law_prepend_keeps_other_reads(first, a, m, id, d, k);
                law_prepend_keeps_other_reads(first, a, m, id, a, k);
            }
        }
    }
}

/// Turning the association on or off for one list of MIME types and then for
/// another is the same as turning it on or off for the two lists joined:
/// each type's step works on the text the steps before it left.
pub proof fn law_association_lists_compose(source: Seq<char>, first: Seq<Seq<char>>, second: Seq<Seq<char>>, enabled: bool, n: int)
    requires
        0 <= n <= second.len(),
    ensures
        association_text(source, first + second, enabled, first.len() + n) == association_text(
            association_text(source, first, enabled, first.len() as int),
            second,
            enabled,
            n,
        ),
    decreases n,
{
    if n == 0 {
        lemma_association_prefix(source, first, first + second, enabled, first.len() as int);
    } else {
        law_association_lists_compose(source, first, second, enabled, n - 1);
        assert((first + second)[first.len() + n - 1] == second[n - 1]);
    }
}

/// The text after the first `n` steps depends only on the first `n` types.
proof fn lemma_association_prefix(source: Seq<char>, a: Seq<Seq<char>>, b: Seq<Seq<char>>, enabled: bool, n: int)
    requires
        0 <= n <= a.len(),
        n <= b.len(),
        forall|i: int| 0 <= i < n ==> a[i] == b[i],
    ensures
        association_text(source, a, enabled, n) == association_text(source, b, enabled, n),
    decreases n,
{
    if n > 0 {
        lemma_association_prefix(source, a, b, enabled, n - 1);
    }
}

// ---------------------------------------------------------------------------
// Lists of desktop file ids written and read back
// ---------------------------------------------------------------------------

/// Ids as reading a value gives them: non-empty, trimmed, without `;` or a
/// line break.
pub open spec fn clean_ids(xs: Seq<Seq<char>>) -> bool {
    forall|i: int| 0 <= i < xs.len() ==> {
        &&& (#[trigger] xs[i]).len() > 0
        &&& trim_ws(xs[i]) == xs[i]
        &&& !xs[i].contains(';')
        &&& !xs[i].contains('\n')
    }
}

proof fn lemma_subrange_within(s: Seq<char>, t: Seq<char>, a: int, b: int, c: char)
    requires
        !s.contains(c),
        0 <= a <= b <= s.len(),
        t == s.subrange(a, b),
    ensures
        !t.contains(c),
{
    if t.contains(c) {
        let k = choose|k: int| 0 <= k < t.len() && t[k] == c;
        assert(s[a + k] == c);
    }
}

/// Trimming adds no character.
proof fn lemma_trim_within(s: Seq<char>, c: char)
    requires
        !s.contains(c),
    ensures
        !trim_ws(s).contains(c),
{
    lemma_trim_start_skip(s);
    let k = choose|k: int| 0 <= k <= s.len() && trim_start_ws(s) == s.skip(k);
    lemma_subrange_within(s, trim_start_ws(s), k, s.len() as int, c);
    let t = trim_start_ws(s);
    lemma_trim_end_take(t);
    let j = choose|j: int| 0 <= j <= t.len() && crate::text::trim_end_ws(t) == t.take(j);
    lemma_subrange_within(t, trim_ws(s), 0, j, c);
}

proof fn lemma_trim_start_first(s: Seq<char>)
    ensures
        trim_start_ws(s).len() > 0 ==> !is_white_space(trim_start_ws(s)[0]),
    decreases s.len(),
{
    if s.len() > 0 && is_white_space(s[0]) {
        lemma_trim_start_first(s.drop_first());
    }
}

proof fn lemma_trim_end_last(s: Seq<char>)
    ensures
        crate::text::trim_end_ws(s).len() > 0 ==> !is_white_space(crate::text::trim_end_ws(s).last()),
    decreases s.len(),
{
    if s.len() > 0 && is_white_space(s.last()) {
        lemma_trim_end_last(s.drop_last());
    }
}

/// Trimming twice is trimming once.
proof fn lemma_trim_idempotent(s: Seq<char>)
    ensures
        trim_ws(trim_ws(s)) == trim_ws(s),
{
    let a = trim_start_ws(s);
    let t = crate::text::trim_end_ws(a);
    lemma_trim_lengths(a);
    if t.len() > 0 {
        lemma_trim_start_first(s);
        lemma_trim_end_last(a);
        assert(t[0] == a[0]);
        lemma_trim_lengths(t);
    } else {
        lemma_trim_lengths(t);
        assert(t =~= Seq::<char>::empty());
    }
}

/// The ids a list of pieces gives, where no piece holds `;` or a line break,
/// are clean.
proof fn lemma_trimmed_ids_clean(parts: Seq<Seq<char>>)
    requires
        forall|i: int| 0 <= i < parts.len() ==> !(#[trigger] parts[i]).contains(';') && !parts[i].contains('\n'),
    ensures
        clean_ids(trimmed_ids(parts)),
    decreases parts.len(),
{
    if parts.len() > 0 {
        let p = parts.drop_last();
        assert forall|i: int| 0 <= i < p.len() implies !(#[trigger] p[i]).contains(';') && !p[i].contains('\n') by {
            assert(p[i] == parts[i]);
        }
        lemma_trimmed_ids_clean(p);
        let last = parts[parts.len() - 1];
        assert(last == parts.last());
        lemma_trim_within(last, ';');
        lemma_trim_within(last, '\n');
        lemma_trim_idempotent(last);
    }
}

/// The ids read from a value on one line are clean.
proof fn lemma_desktop_ids_clean(v: Seq<char>)
    requires
        !v.contains('\n'),
    ensures
        clean_ids(desktop_ids_of(v)),
{
    let parts = split_on(v, ';');
    lemma_split_no_sep(v, ';');
    assert forall|i: int| 0 <= i < parts.len() implies !(#[trigger] parts[i]).contains(';') && !parts[i].contains('\n') by {
        lemma_split_pieces_within(v, ';', '\n', i);
    }
    lemma_trimmed_ids_clean(parts);
}

/// Leaving ids out keeps a list clean, and leaves none of them in it.
proof fn lemma_without_ids_clean(xs: Seq<Seq<char>>, removed: Seq<Seq<char>>)
    requires
        clean_ids(xs),
    ensures
        clean_ids(without_ids(xs, removed)),
        forall|i: int| 0 <= i < without_ids(xs, removed).len() ==> !removed.contains(#[trigger] without_ids(xs, removed)[i]),
    decreases xs.len(),
{
    if xs.len() > 0 {
        let p = xs.drop_last();
        assert forall|i: int| 0 <= i < p.len() implies {
            &&& (#[trigger] p[i]).len() > 0
            &&& trim_ws(p[i]) == p[i]
            &&& !p[i].contains(';')
            &&& !p[i].contains('\n')
        } by {
            assert(p[i] == xs[i]);
        }
        lemma_without_ids_clean(p, removed);
        assert(xs[xs.len() - 1] == xs.last());
    }
}

/// Joining pieces without the separator and splitting gives them back.
proof fn lemma_split_join(xs: Seq<Seq<char>>)
    requires
        xs.len() >= 1,
        forall|i: int| 0 <= i < xs.len() ==> !(#[trigger] xs[i]).contains(';'),
    ensures
        split_on(join_seqs(xs, seq![';']), ';') == xs,
    decreases xs.len(),
{
    if xs.len() == 1 {
        let x = xs[0];
        lemma_split_append(Seq::<char>::empty(), x, ';');
        assert(Seq::<char>::empty() + x == x);
        assert(split_on(Seq::<char>::empty(), ';') == seq![Seq::<char>::empty()]);
        assert(xs =~= seq![x]);
    } else {
        let p = xs.drop_last();
        assert forall|i: int| 0 <= i < p.len() implies !(#[trigger] p[i]).contains(';') by {
            assert(p[i] == xs[i]);
        }
        lemma_split_join(p);
        let a = join_seqs(p, seq![';']);
        let y = xs.last();
        assert(!y.contains(';')) by {
            assert(xs[xs.len() - 1] == y);
        }
        assert(join_seqs(xs, seq![';']) == a.push(';') + y) by {
            assert(a + seq![';'] =~= a.push(';'));
        }
        lemma_split_append(a.push(';'), y, ';');
        assert(a.push(';').drop_last() =~= a);
        assert(split_on(a.push(';'), ';') == p.push(Seq::<char>::empty()));
        assert(p.push(Seq::<char>::empty()).update(p.len() as int, Seq::<char>::empty() + y) =~= xs);
    }
}

/// Clean ids are their own trimmed ids, also with an empty piece after them.
proof fn lemma_trimmed_ids_of_clean(xs: Seq<Seq<char>>)
    requires
        clean_ids(xs),
    ensures
        trimmed_ids(xs) == xs,
        trimmed_ids(xs.push(Seq::<char>::empty())) == xs,
    decreases xs.len(),
{
    lemma_trim_lengths(Seq::<char>::empty());
    assert(xs.push(Seq::<char>::empty()).drop_last() =~= xs);
    if xs.len() > 0 {
        let p = xs.drop_last();
        assert forall|i: int| 0 <= i < p.len() implies {
            &&& (#[trigger] p[i]).len() > 0
            &&& trim_ws(p[i]) == p[i]
            &&& !p[i].contains(';')
            &&& !p[i].contains('\n')
        } by {
            assert(p[i] == xs[i]);
        }
        lemma_trimmed_ids_of_clean(p);
        assert(xs[xs.len() - 1] == xs.last());
        assert(p.push(xs.last()) =~= xs);
    }
}

/// A non-empty clean list written as a value is one line, trims to itself and
/// reads back as the same list.
proof fn lemma_ids_text_round_trip(xs: Seq<Seq<char>>)
    requires
        xs.len() >= 1,
        clean_ids(xs),
    ensures
        !desktop_ids_text(xs).contains('\n'),
        trim_ws(desktop_ids_text(xs)) == desktop_ids_text(xs),
        desktop_ids_of(desktop_ids_text(xs)) == xs,
{
    assert(no_breaks(xs));
    lemma_join_no_break(xs);
    let joined = join_seqs(xs, seq![';']);
    let text = desktop_ids_text(xs);
    lemma_ids_text_starts(xs);
    let rest = choose|rest: Seq<char>| joined.push(';') == xs[0].push(';') + rest;
    assert(joined.len() > 0) by {
        assert(joined.push(';').len() == xs[0].len() + 1 + rest.len());
    }
    assert(text == joined.push(';'));
    assert(!text.contains('\n')) by {
        if text.contains('\n') {
            let k = choose|k: int| 0 <= k < text.len() && text[k] == '\n';
            if k < joined.len() {
                assert(joined[k] == '\n');
            }
        }
    }
    lemma_plain_key_start(xs[0]);
    assert(text[0] == xs[0][0]);
    assert(text.last() == ';');
    lemma_trim_lengths(text);
    lemma_trim_lengths(trim_start_ws(text));
    lemma_split_join(xs);
    assert(text.drop_last() =~= joined);
    assert(split_on(text, ';') == xs.push(Seq::<char>::empty()));
    lemma_trimmed_ids_of_clean(xs);
}

// ---------------------------------------------------------------------------
// A key written once in a section written once
// ---------------------------------------------------------------------------

/// Line `j` is a line of `key` under a header of `section`.
pub open spec fn key_line_in(lines: Seq<Seq<char>>, j: int, section: Seq<char>, key: Seq<char>) -> bool {
    &&& 0 <= j < lines.len()
    &&& last_header(lines, j) == Some(section)
    &&& section_header(lines[j]) is None
    &&& line_key(lines[j]) == Some(key)
}

/// `section` has at most one header, and `key` at most one line under it.
pub open spec fn single_entry(lines: Seq<Seq<char>>, section: Seq<char>, key: Seq<char>) -> bool {
    &&& forall|a: int, b: int|
        0 <= a < lines.len() && 0 <= b < lines.len() && #[trigger] section_header(lines[a]) == Some(section)
            && #[trigger] section_header(lines[b]) == Some(section) ==> a == b
    &&& forall|a: int, b: int| #[trigger] key_line_in(lines, a, section, key) && #[trigger] key_line_in(lines, b, section, key) ==> a == b
}

/// A value is read only from a line of the key under a header of the section.
proof fn lemma_value_from_key_line(lines: Seq<Seq<char>>, section: Seq<char>, key: Seq<char>, n: int)
    requires
        0 <= n <= lines.len(),
    ensures
        value_state(lines, section, key, n).1 is Some ==> exists|j: int| 0 <= j < n && #[trigger] key_line_in(lines, j, section, key),
    decreases n,
{
    if n > 0 {
        lemma_value_from_key_line(lines, section, key, n - 1);
        lemma_value_state_header(lines, section, key, n - 1);
        if value_state(lines, section, key, n - 1).1 is None && value_state(lines, section, key, n).1 is Some {
            assert(key_line_in(lines, n - 1, section, key));
        }
    }
}

/// The last header before line `j` is a header line before it.
proof fn lemma_last_header_line(lines: Seq<Seq<char>>, j: int, h: Seq<char>)
    requires
        0 <= j <= lines.len(),
        last_header(lines, j) == Some(h),
    ensures
        exists|k: int| 0 <= k < j && #[trigger] section_header(lines[k]) == Some(h),
    decreases j,
{
    if section_header(lines[j - 1]) is None {
        lemma_last_header_line(lines, j - 1, h);
    }
}

/// Where a header stands at `a` before `j`, the last header before `j` is
/// at `a` or after it.
proof fn lemma_last_header_after(lines: Seq<Seq<char>>, a: int, j: int, h: Seq<char>)
    requires
        0 <= a < j <= lines.len(),
        section_header(lines[a]) is Some,
        last_header(lines, j) == Some(h),
    ensures
        exists|k: int| a <= k < j && #[trigger] section_header(lines[k]) == Some(h),
    decreases j,
{
    if section_header(lines[j - 1]) is None {
        lemma_last_header_after(lines, a, j - 1, h);
    }
}

/// With a single header of the section and a single line of the key under
/// it, the update scan stops at that line.
proof fn lemma_single_entry_found(lines: Seq<Seq<char>>, section: Seq<char>, key: Seq<char>, j: int)
    requires
        single_entry(lines, section, key),
        key_line_in(lines, j, section, key),
    ensures
        key_scan(lines, section, key, lines.len() as int) == KeyScan::Found(j),
{
    lemma_single_entry_scanning(lines, section, key, j, j);
    lemma_key_scan_header(lines, section, key, j);
    assert(key_scan(lines, section, key, j + 1) == KeyScan::Found(j));
    lemma_key_scan_stops(lines, section, key, j + 1);
}

proof fn lemma_single_entry_scanning(lines: Seq<Seq<char>>, section: Seq<char>, key: Seq<char>, j: int, n: int)
    requires
        single_entry(lines, section, key),
        key_line_in(lines, j, section, key),
        0 <= n <= j,
    ensures
        key_scan(lines, section, key, n) is Scanning,
    decreases n,
{
    if n > 0 {
        lemma_single_entry_scanning(lines, section, key, j, n - 1);
        lemma_key_scan_header(lines, section, key, n - 1);
        let line = lines[n - 1];
        match key_scan(lines, section, key, n - 1) {
            KeyScan::Scanning(inside) => {
                if inside {
                    if section_header(line) is Some {
                        lemma_last_header_line(lines, n - 1, section);
                        let k0 = choose|k: int| 0 <= k < n - 1 && #[trigger] section_header(lines[k]) == Some(section);
                        lemma_last_header_after(lines, n - 1, j, section);
                        let k1 = choose|k: int| n - 1 <= k < j && #[trigger] section_header(lines[k]) == Some(section);
                        assert(false);
                    } else if line_key(line) == Some(key) {
                        assert(key_line_in(lines, n - 1, section, key));
                        assert(false);
                    }
                }
            },
            _ => {},
        }
    }
}

/// Taking out a line that is no header leaves the headers before every other
/// line as they were.
proof fn lemma_last_header_remove(lines: Seq<Seq<char>>, i: int, j: int)
    requires
        0 <= i < lines.len(),
        section_header(lines[i]) is None,
        0 <= j < lines.len(),
    ensures
        j <= i ==> last_header(lines.remove(i), j) == last_header(lines, j),
        j > i ==> last_header(lines.remove(i), j) == last_header(lines, j + 1),
    decreases j,
{
    let m = lines.remove(i);
    if j > 0 {
        lemma_last_header_remove(lines, i, j - 1);
        if j <= i {
            assert(m[j - 1] == lines[j - 1]);
        } else if j == i + 1 {
            assert(m[j - 1] == lines[j]);
            assert(last_header(lines, i + 1) == last_header(lines, i));
        } else {
            assert(m[j - 1] == lines[j]);
        }
    } else if i == 0 && j == 0 {
    }
}

/// Replacing a line that is no header by another leaves the headers before
/// every line as they were.
proof fn lemma_last_header_update(lines: Seq<Seq<char>>, i: int, x: Seq<char>, j: int)
    requires
        0 <= i < lines.len(),
        section_header(lines[i]) is None,
        section_header(x) is None,
        0 <= j <= lines.len(),
    ensures
        last_header(lines.update(i, x), j) == last_header(lines, j),
    decreases j,
{
    if j > 0 {
        lemma_last_header_update(lines, i, x, j - 1);
    }
}

/// Lines that read alike line by line have the same headers before each line
/// and the same single entries.
proof fn lemma_alike_lines_entries(l1: Seq<Seq<char>>, l2: Seq<Seq<char>>, section: Seq<char>, key: Seq<char>)
    requires
        l1.len() == l2.len(),
        forall|i: int| 0 <= i < l1.len() ==> lines_read_alike(#[trigger] l1[i], l2[i]),
    ensures
        forall|j: int| 0 <= j <= l1.len() ==> #[trigger] last_header(l1, j) == last_header(l2, j),
        single_entry(l1, section, key) ==> single_entry(l2, section, key),
{
    assert forall|j: int| 0 <= j <= l1.len() implies #[trigger] last_header(l1, j) == last_header(l2, j) by {
        lemma_alike_last_header(l1, l2, j);
    }
    assert forall|j: int| 0 <= j < l1.len() implies line_key(#[trigger] l1[j]) == line_key(l2[j]) by {
        assert(lines_read_alike(l1[j], l2[j]));
    }
    if single_entry(l1, section, key) {
        assert forall|a: int, b: int|
            0 <= a < l2.len() && 0 <= b < l2.len() && #[trigger] section_header(l2[a]) == Some(section)
                && #[trigger] section_header(l2[b]) == Some(section) implies a == b by {
            assert(lines_read_alike(l1[a], l2[a]));
            assert(lines_read_alike(l1[b], l2[b]));
            assert(section_header(l1[a]) == Some(section));
        }
        assert forall|a: int, b: int| #[trigger] key_line_in(l2, a, section, key) && #[trigger] key_line_in(l2, b, section, key) implies a == b by {
            assert(lines_read_alike(l1[a], l2[a]));
            assert(lines_read_alike(l1[b], l2[b]));
            assert(key_line_in(l1, a, section, key));
            assert(key_line_in(l1, b, section, key));
        }
    }
}

proof fn lemma_alike_last_header(l1: Seq<Seq<char>>, l2: Seq<Seq<char>>, j: int)
    requires
        l1.len() == l2.len(),
        forall|i: int| 0 <= i < l1.len() ==> lines_read_alike(#[trigger] l1[i], l2[i]),
        0 <= j <= l1.len(),
    ensures
        last_header(l1, j) == last_header(l2, j),
    decreases j,
{
    if j > 0 {
        lemma_alike_last_header(l1, l2, j - 1);
        assert(lines_read_alike(l1[j - 1], l2[j - 1]));
    }
}

/// What the text after removing a key reads as: the value read from the
/// lines left, for any section and key; those lines read back alike.
proof fn lemma_remove_key_text_reads(source: Seq<char>, section: Seq<char>, key: Seq<char>, section2: Seq<char>, key2: Seq<char>)
    ensures
        ({
            let m = remove_key_lines(lines_of(source), section, key);
            &&& spec_mimeapps_value(spec_mimeapps_remove_key(source, section, key), section2, key2) == value_state(
                m,
                section2,
                key2,
                m.len() as int,
            ).1
            &&& lines_of(spec_mimeapps_remove_key(source, section, key)).len() == m.len()
            &&& forall|i: int| 0 <= i < m.len() ==> lines_read_alike(#[trigger] m[i], lines_of(spec_mimeapps_remove_key(source, section, key))[i])
        }),
{
    let lines = lines_of(source);
    let m = remove_key_lines(lines, section, key);
    lemma_lines_no_break(source);
    assert forall|i: int| 0 <= i < m.len() implies !(#[trigger] m[i]).contains('\n') by {
        match key_scan(lines, section, key, lines.len() as int) {
            KeyScan::Found(k) => {
                lemma_key_scan_stop(lines, section, key, lines.len() as int);
                if i < k {
                    assert(m[i] == lines[i]);
                } else {
                    assert(m[i] == lines[i + 1]);
                }
            },
            _ => {},
        }
    }
    lemma_lines_round_trip(m);
    let back = m.map_values(|p: Seq<char>| strip_cr(p));
    assert forall|i: int| 0 <= i < m.len() implies lines_read_alike(#[trigger] m[i], back[i]) by {
        lemma_strip_cr_reads_alike(m[i]);
    }
    lemma_value_state_alike(m, back, section2, key2, m.len() as int);
}

/// Removing a key changes no other read.
proof fn lemma_remove_key_keeps_other_reads(
    source: Seq<char>,
    section: Seq<char>,
    key: Seq<char>,
    section2: Seq<char>,
    key2: Seq<char>,
)
    requires
        section2 != section || key2 != key,
    ensures
        spec_mimeapps_value(spec_mimeapps_remove_key(source, section, key), section2, key2) == spec_mimeapps_value(
            source,
            section2,
            key2,
        ),
{
    let lines = lines_of(source);
    let n = lines.len() as int;
    lemma_remove_key_text_reads(source, section, key, section2, key2);
    lemma_key_scan_header(lines, section, key, n);
    match key_scan(lines, section, key, n) {
        KeyScan::Found(i) => {
            let m = lines.remove(i);
            assert(m.insert(i, lines[i]) =~= lines);
            lemma_last_header_remove(lines, i, i);
            lemma_value_state_insert(m, i, lines[i], section2, key2, m.len() as int);
        },
        _ => {},
    }
}

/// A line of a key under a section after a line was taken out was such a line
/// before.
proof fn lemma_key_line_after_remove(lines: Seq<Seq<char>>, i: int, j: int, section: Seq<char>, key: Seq<char>)
    requires
        0 <= i < lines.len(),
        section_header(lines[i]) is None,
        key_line_in(lines.remove(i), j, section, key),
    ensures
        key_line_in(lines, if j < i { j } else { j + 1 }, section, key),
{
    let m = lines.remove(i);
    lemma_last_header_remove(lines, i, j);
    if j < i {
        assert(m[j] == lines[j]);
    } else {
        assert(m[j] == lines[j + 1]);
        if j == i {
            assert(last_header(lines, i + 1) == last_header(lines, i));
        }
    }
}

/// With a single entry, removing the key leaves no value under it.
#[verifier::spinoff_prover]
proof fn lemma_remove_key_clears(source: Seq<char>, section: Seq<char>, key: Seq<char>)
    requires
        single_entry(lines_of(source), section, key),
    ensures
        spec_mimeapps_value(spec_mimeapps_remove_key(source, section, key), section, key) is None,
{
    let lines = lines_of(source);
    let n = lines.len() as int;
    let m = remove_key_lines(lines, section, key);
    lemma_remove_key_text_reads(source, section, key, section, key);
    lemma_value_from_key_line(m, section, key, m.len() as int);
    lemma_key_scan_header(lines, section, key, n);
    if exists|j: int| 0 <= j < m.len() && #[trigger] key_line_in(m, j, section, key) {
        let j = choose|j: int| 0 <= j < m.len() && #[trigger] key_line_in(m, j, section, key);
        match key_scan(lines, section, key, n) {
            KeyScan::Found(i) => {
                assert(key_line_in(lines, i, section, key));
                assert(m == lines.remove(i));
                lemma_key_line_after_remove(lines, i, j, section, key);
                let j2 = if j < i { j } else { j + 1 };
                assert(key_line_in(lines, j2, section, key));
                assert(j2 != i);
            },
            _ => {
                assert(m == lines);
                lemma_single_entry_found(lines, section, key, j);
            },
        }
    }
}

/// Taking out a line of one key under one section keeps every single entry.
proof fn lemma_single_entry_remove(lines: Seq<Seq<char>>, i: int, section: Seq<char>, key: Seq<char>)
    requires
        0 <= i < lines.len(),
        section_header(lines[i]) is None,
        single_entry(lines, section, key),
    ensures
        single_entry(lines.remove(i), section, key),
{
    let m = lines.remove(i);
    assert forall|a: int, b: int|
        0 <= a < m.len() && 0 <= b < m.len() && #[trigger] section_header(m[a]) == Some(section)
            && #[trigger] section_header(m[b]) == Some(section) implies a == b by {
        let a2 = if a < i { a } else { a + 1 };
        let b2 = if b < i { b } else { b + 1 };
        assert(m[a] == lines[a2]);
        assert(m[b] == lines[b2]);
        assert(section_header(lines[a2]) == Some(section));
        assert(section_header(lines[b2]) == Some(section));
    }
    assert forall|a: int, b: int| #[trigger] key_line_in(m, a, section, key) && #[trigger] key_line_in(m, b, section, key) implies a == b by {
        lemma_key_line_after_remove(lines, i, a, section, key);
        lemma_key_line_after_remove(lines, i, b, section, key);
    }
}

/// Replacing the line of one key under its section by another line of that
/// key keeps every single entry.
proof fn lemma_single_entry_update(
    lines: Seq<Seq<char>>,
    i: int,
    x: Seq<char>,
    s0: Seq<char>,
    k0: Seq<char>,
    section: Seq<char>,
    key: Seq<char>,
)
    requires
        key_line_in(lines, i, s0, k0),
        section_header(x) is None,
        line_key(x) == Some(k0),
        single_entry(lines, section, key),
    ensures
        single_entry(lines.update(i, x), section, key),
{
    let m = lines.update(i, x);
    assert forall|a: int, b: int|
        0 <= a < m.len() && 0 <= b < m.len() && #[trigger] section_header(m[a]) == Some(section)
            && #[trigger] section_header(m[b]) == Some(section) implies a == b by {
        assert(a != i && b != i);
        assert(m[a] == lines[a]);
        assert(m[b] == lines[b]);
    }
    assert forall|a: int, b: int| #[trigger] key_line_in(m, a, section, key) && #[trigger] key_line_in(m, b, section, key) implies a == b by {
        lemma_last_header_update(lines, i, x, a);
        lemma_last_header_update(lines, i, x, b);
        if a == i || b == i {
            assert(key_line_in(lines, i, section, key));
        }
        assert(key_line_in(lines, a, section, key));
        assert(key_line_in(lines, b, section, key));
    }
}

// ---------------------------------------------------------------------------
// Taking ids out of a list
// ---------------------------------------------------------------------------

/// The value under a key is on one line.
proof fn lemma_read_value_one_line(source: Seq<char>, section: Seq<char>, key: Seq<char>)
    ensures
        spec_mimeapps_value(source, section, key) matches Some(v) ==> !v.contains('\n') && clean_ids(desktop_ids_of(v)),
{
    let lines = lines_of(source);
    lemma_lines_no_break(source);
    assert(no_breaks(lines));
    lemma_value_no_break(lines, section, key, lines.len() as int);
    if let Some(v) = spec_mimeapps_value(source, section, key) {
        lemma_desktop_ids_clean(v);
    }
}

/// After taking ids out of the list under a key, where the section has one
/// header and the key one line under it, the key holds none of those ids
/// (or no value at all), for every text and every section name and key that
/// read as themselves.
pub proof fn law_remove_ids_clears(source: Seq<char>, section: Seq<char>, key: Seq<char>, ids: Seq<Seq<char>>)
    requires
        plain_key(key),
        plain_section(section),
        single_entry(lines_of(source), section, key),
    ensures
        spec_mimeapps_value(spec_mimeapps_remove_desktop_ids(source, section, key, ids), section, key) matches Some(v)
            ==> forall|i: int| 0 <= i < desktop_ids_of(v).len() ==> !ids.contains(#[trigger] desktop_ids_of(v)[i]),
{
    lemma_read_value_one_line(source, section, key);
    if let Some(current) = spec_mimeapps_value(source, section, key) {
        let remaining = without_ids(desktop_ids_of(current), ids);
        lemma_without_ids_clean(desktop_ids_of(current), ids);
        if remaining.len() == 0 {
            lemma_remove_key_clears(source, section, key);
        } else {
            let text = desktop_ids_text(remaining);
            lemma_ids_text_round_trip(remaining);
            law_set_value_then_read(source, section, key, text);
        }
    }
}

/// Taking ids out of the list under a key changes no other read.
pub proof fn law_remove_ids_keeps_other_reads(
    source: Seq<char>,
    section: Seq<char>,
    key: Seq<char>,
    ids: Seq<Seq<char>>,
    section2: Seq<char>,
    key2: Seq<char>,
)
    requires
        plain_key(key),
        plain_section(section),
        section2 != section || key2 != key,
    ensures
        spec_mimeapps_value(spec_mimeapps_remove_desktop_ids(source, section, key, ids), section2, key2)
            == spec_mimeapps_value(source, section2, key2),
{
    lemma_read_value_one_line(source, section, key);
    if let Some(current) = spec_mimeapps_value(source, section, key) {
        let remaining = without_ids(desktop_ids_of(current), ids);
        lemma_without_ids_clean(desktop_ids_of(current), ids);
        if remaining.len() == 0 {
            lemma_remove_key_keeps_other_reads(source, section, key, section2, key2);
        } else {
            let text = desktop_ids_text(remaining);
            lemma_ids_text_round_trip(remaining);
            law_set_value_keeps_other_reads(source, section, key, text, section2, key2);
        }
    }
}

/// Taking ids out of the list under a key with a single entry keeps every
/// single entry.
proof fn lemma_remove_ids_keeps_single(
    source: Seq<char>,
    section: Seq<char>,
    key: Seq<char>,
    ids: Seq<Seq<char>>,
    section2: Seq<char>,
    key2: Seq<char>,
)
    requires
        plain_key(key),
        plain_section(section),
        single_entry(lines_of(source), section, key),
        single_entry(lines_of(source), section2, key2),
    ensures
        single_entry(lines_of(spec_mimeapps_remove_desktop_ids(source, section, key, ids)), section2, key2),
{
    let lines = lines_of(source);
    let n = lines.len() as int;
    lemma_read_value_one_line(source, section, key);
    if let Some(current) = spec_mimeapps_value(source, section, key) {
        lemma_value_from_key_line(lines, section, key, n);
        let j = choose|j: int| 0 <= j < n && #[trigger] key_line_in(lines, j, section, key);
        lemma_single_entry_found(lines, section, key, j);
        let remaining = without_ids(desktop_ids_of(current), ids);
        lemma_without_ids_clean(desktop_ids_of(current), ids);
        if remaining.len() == 0 {
            let m = lines.remove(j);
            lemma_single_entry_remove(lines, j, section2, key2);
            lemma_remove_key_text_reads(source, section, key, section2, key2);
            lemma_alike_lines_entries(m, lines_of(spec_mimeapps_remove_key(source, section, key)), section2, key2);
        } else {
            let text = desktop_ids_text(remaining);
            lemma_ids_text_round_trip(remaining);
            let x = key_line(key, text);
            lemma_key_line_reads(key, text);
            let m = lines.update(j, x);
            assert(set_value_lines(lines, section, key, text) == m);
            lemma_single_entry_update(lines, j, x, section, key, section2, key2);
            lemma_lines_no_break(source);
            assert forall|i: int| 0 <= i < m.len() implies !(#[trigger] m[i]).contains('\n') by {
                if i == j {
                    if x.contains('\n') {
                        let k = choose|k: int| 0 <= k < x.len() && x[k] == '\n';
                        if k < key.len() {
                            assert(key[k] == '\n');
                        } else if k > key.len() {
                            assert(text[k - key.len() - 1] == '\n');
                        }
                    }
                } else {
                    assert(m[i] == lines[i]);
                }
            }
            lemma_lines_round_trip(m);
            let back = m.map_values(|p: Seq<char>| strip_cr(p));
            assert forall|i: int| 0 <= i < m.len() implies lines_read_alike(#[trigger] m[i], back[i]) by {
                lemma_strip_cr_reads_alike(m[i]);
            }
            lemma_alike_lines_entries(m, back, section2, key2);
        }
    }
}

// ---------------------------------------------------------------------------
// Turning the editor's associations off
// ---------------------------------------------------------------------------

/// `text` lists none of the editor's ids under `mime_type`, neither as a
/// default handler nor as an added association.
pub open spec fn editor_absent_for(text: Seq<char>, mime_type: Seq<char>) -> bool {
    &&& spec_mimeapps_value(text, "Default Applications"@, mime_type) matches Some(d) ==> forall|i: int|
        0 <= i < desktop_ids_of(d).len() ==> !arca_desktop_ids().contains(#[trigger] desktop_ids_of(d)[i])
    &&& spec_mimeapps_value(text, "Added Associations"@, mime_type) matches Some(a) ==> forall|i: int|
        0 <= i < desktop_ids_of(a).len() ==> !arca_desktop_ids().contains(#[trigger] desktop_ids_of(a)[i])
}

/// Each of the two association sections has one header at most, and each of
/// the MIME types one line at most under it.
pub open spec fn association_entries_single(text: Seq<char>, mime_types: Seq<Seq<char>>) -> bool {
    forall|i: int| 0 <= i < mime_types.len() ==> {
        &&& single_entry(lines_of(text), "Default Applications"@, #[trigger] mime_types[i])
        &&& single_entry(lines_of(text), "Added Associations"@, mime_types[i])
    }
}

/// Turning the editor's association off for a list of MIME types leaves none
/// of the editor's ids under any type in the list, neither as a default
/// handler nor as an added association, for every text where the two
/// sections and each type's line in them are written once (and every list
/// of types that read as keys). Those texts stay so.
pub proof fn law_association_off_clears_every_type(source: Seq<char>, mime_types: Seq<Seq<char>>, n: int)
    requires
        0 <= n <= mime_types.len(),
        forall|i: int| 0 <= i < mime_types.len() ==> plain_key(#[trigger] mime_types[i]),
        association_entries_single(source, mime_types),
    ensures
        association_entries_single(association_text(source, mime_types, false, n), mime_types),
        forall|j: int| 0 <= j < n ==> editor_absent_for(association_text(source, mime_types, false, n), #[trigger] mime_types[j]),
    decreases n,
{
    if n > 0 {
        law_association_off_clears_every_type(source, mime_types, n - 1);
        lemma_association_names();
        let d = "Default Applications"@;
        let a = "Added Associations"@;
        let ids = arca_desktop_ids();
        let prev = association_text(source, mime_types, false, n - 1);
        let m = mime_types[n - 1];
        let first = spec_mimeapps_remove_desktop_ids(prev, d, m, ids);
        let text = association_text(source, mime_types, false, n);
        assert(text == spec_mimeapps_remove_desktop_ids(first, a, m, ids));
        assert(single_entry(lines_of(prev), d, m) && single_entry(lines_of(prev), a, m));
        assert forall|i: int| 0 <= i < mime_types.len() implies {
            &&& single_entry(lines_of(first), d, #[trigger] mime_types[i])
            &&& single_entry(lines_of(first), a, mime_types[i])
        } by {
            lemma_remove_ids_keeps_single(prev, d, m, ids, d, mime_types[i]);
            lemma_remove_ids_keeps_single(prev, d, m, ids, a, mime_types[i]);
        }
        assert forall|i: int| 0 <= i < mime_types.len() implies {
            &&& single_entry(lines_of(text), d, #[trigger] mime_types[i])
            &&& single_entry(lines_of(text), a, mime_types[i])
        } by {
            lemma_remove_ids_keeps_single(first, a, m, ids, d, mime_types[i]);
            lemma_remove_ids_keeps_single(first, a, m, ids, a, mime_types[i]);
        }
        law_remove_ids_clears(prev, d, m, ids);
        law_remove_ids_keeps_other_reads(first, a, m, ids, d, m);
        law_remove_ids_clears(first, a, m, ids);
        assert forall|j: int| 0 <= j < n implies editor_absent_for(text, #[trigger] mime_types[j]) by {
            let k = mime_types[j];
            if k != m {
                assert(editor_absent_for(prev, mime_types[j]));
                law_remove_ids_keeps_other_reads(prev, d, m, ids, d, k);
                law_remove_ids_keeps_other_reads(prev, d, m, ids, a, k);
                law_remove_ids_keeps_other_reads(first, a, m, ids, d, k);
                law_remove_ids_keeps_other_reads(first, a, m, ids, a, k);
            }
        }
    }
}

} // verus!
