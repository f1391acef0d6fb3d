use vstd::prelude::*;

verus! {

broadcast use vstd::string::group_string_axioms;

/// Appends one character to a string (`String::push`).
#[verifier::external_body]
pub(crate) fn push_char(s: &mut String, c: char)
    ensures
        final(s)@ == old(s)@.push(c),
{
    s.push(c);
}

/// The characters of a string slice, in order.
pub fn chars_of(s: &str) -> (r: Vec<char>)
    ensures
        r@ == s@,
{
    let mut out: Vec<char> = Vec::new();
    for c in it: s.chars()
        invariant
            out@ == it.seq().take(it.index() as int),
            it.seq() == s@,
    {
        out.push(c);
    }
    out
}

/// A string holding exactly the given characters.
pub fn string_of(chars: &Vec<char>) -> (r: String)
    ensures
        r@ == chars@,
{
    let mut out = String::new();
    let mut i: usize = 0;
    while i < chars.len()
        invariant
            i <= chars.len(),
            out@ == chars@.take(i as int),
        decreases chars.len() - i,
    {
        push_char(&mut out, chars[i]);
        assert(chars@.take(i + 1) == chars@.take(i as int).push(chars@[i as int]));
        i = i + 1;
    }
    assert(chars@.take(chars.len() as int) == chars@);
    out
}


/// The sequence with every trailing `c` removed.
pub open spec fn trim_end_char(s: Seq<char>, c: char) -> Seq<char>
    decreases s.len(),
{
    if s.len() > 0 && s.last() == c {
        trim_end_char(s.drop_last(), c)
    } else {
        s
    }
}

/// The pieces of `s` between occurrences of `sep`, as `str::split` yields them:
/// one more piece than there are separators, empty pieces included.
pub open spec fn split_on(s: Seq<char>, sep: char) -> Seq<Seq<char>>
    decreases s.len(),
{
    if s.len() == 0 {
        seq![Seq::<char>::empty()]
    } else {
        let prev = split_on(s.drop_last(), sep);
        if s.last() == sep {
            prev.push(Seq::<char>::empty())
        } else {
            prev.update(prev.len() - 1, prev.last().push(s.last()))
        }
    }
}

/// Pieces joined back with `sep` between consecutive pieces.
pub open spec fn join_with(pieces: Seq<Seq<char>>, sep: char) -> Seq<char>
    decreases pieces.len(),
{
    if pieces.len() == 0 {
        Seq::<char>::empty()
    } else if pieces.len() == 1 {
        pieces[0]
    } else {
        join_with(pieces.drop_last(), sep).push(sep) + pieces.last()
    }
}

pub proof fn lemma_split_nonempty(s: Seq<char>, sep: char)
    ensures
        split_on(s, sep).len() >= 1,
    decreases s.len(),
{
    if s.len() > 0 {
        lemma_split_nonempty(s.drop_last(), sep);
    }
}

/// Splitting and joining with the same separator gives the text back.
pub proof fn lemma_join_split(s: Seq<char>, sep: char)
    ensures
        join_with(split_on(s, sep), sep) == s,
    decreases s.len(),
{
    if s.len() > 0 {
        let prev = split_on(s.drop_last(), sep);
        lemma_split_nonempty(s.drop_last(), sep);
        lemma_join_split(s.drop_last(), sep);
        if s.last() == sep {
            assert(split_on(s, sep).drop_last() == prev);
            assert(s.drop_last().push(sep) + Seq::<char>::empty() == s);
        } else {
            let cur = split_on(s, sep);
            if prev.len() == 1 {
                assert(cur[0] == prev[0].push(s.last()));
                assert(s == s.drop_last().push(s.last()));
            } else {
                assert(cur.drop_last() == prev.drop_last());
                assert(join_with(prev, sep) == join_with(prev.drop_last(), sep).push(sep) + prev.last());
                assert(join_with(cur, sep) == join_with(prev.drop_last(), sep).push(sep) + prev.last().push(s.last()));
                assert(s == s.drop_last().push(s.last()));
            }
        }
    }
}

/// The characters with trailing `c` removed.
pub fn trim_end_vec(s: &Vec<char>, c: char) -> (r: Vec<char>)
    ensures
        r@ == trim_end_char(s@, c),
{
    let mut end: usize = s.len();
    assert(s@.take(end as int) == s@);
    while end > 0 && s[end - 1] == c
        invariant
            end <= s.len(),
            trim_end_char(s@.take(end as int), c) == trim_end_char(s@, c),
        decreases end,
    {
        assert(s@.take(end as int).drop_last() == s@.take(end - 1));
        end = end - 1;
    }
    let mut out: Vec<char> = Vec::new();
    let mut i: usize = 0;
    while i < end
        invariant
            i <= end <= s.len(),
            out@ == s@.take(i as int),
        decreases end - i,
    {
        out.push(s[i]);
        assert(s@.take(i + 1) == s@.take(i as int).push(s@[i as int]));
        i = i + 1;
    }
    out
}

/// The pieces of `s` between occurrences of `sep` (as `str::split`).
pub fn split_chars(s: &Vec<char>, sep: char) -> (r: Vec<Vec<char>>)
    ensures
        r.deep_view() == split_on(s@, sep),
        r.len() >= 1,
{
    let mut done: Vec<Vec<char>> = Vec::new();
    let mut cur: Vec<char> = Vec::new();
    let mut i: usize = 0;
    while i < s.len()
        invariant
            i <= s.len(),
            done.deep_view().push(cur@) == split_on(s@.take(i as int), sep),
        decreases s.len() - i,
    {
        let c = s[i];
        let ghost prev = split_on(s@.take(i as int), sep);
        proof {
            assert(s@.take(i + 1).drop_last() == s@.take(i as int));
            assert(s@.take(i + 1).last() == c);
            lemma_split_nonempty(s@.take(i as int), sep);
        }
        if c == sep {
            let ghost before = done.deep_view();
            let ghost cur_view = cur@;
            done.push(cur);
            cur = Vec::new();
            assert(done@.last().deep_view() =~= cur_view);
            assert(done.deep_view() =~= before.push(cur_view));
            assert(split_on(s@.take(i + 1), sep) == prev.push(Seq::<char>::empty()));
        } else {
            let ghost before = done.deep_view();
            cur.push(c);
            assert(done.deep_view() == before);
            assert(split_on(s@.take(i + 1), sep) == prev.update(prev.len() - 1, prev.last().push(c)));
            assert(before.push(cur@) =~= prev.update(prev.len() - 1, prev.last().push(c)));
        }
        i = i + 1;
    }
    assert(s@.take(s.len() as int) == s@);
    let ghost before = done.deep_view();
    let ghost cur_view = cur@;
    done.push(cur);
    assert(done@.last().deep_view() =~= cur_view);
    assert(done.deep_view() =~= before.push(cur_view));
    done
}


/// `a` followed by `b`.
pub fn concat_str(a: &str, b: &str) -> (r: String)
    ensures
        r@ == a@ + b@,
{
    let mut out = a.to_owned();
    out.append(b);
    out
}

/// The character code of `c` after ASCII lower-casing.
pub open spec fn ascii_lower_code(c: char) -> u32 {
    if 'A' <= c && c <= 'Z' {
        ((c as u32) + 32) as u32
    } else {
        c as u32
    }
}

/// `a` lower-cased (ASCII) is `l`.
pub open spec fn lower_eq(a: char, l: char) -> bool {
    ascii_lower_code(a) == (l as u32)
}

/// `a` lower-cased (ASCII) is `l`, character by character.
pub open spec fn lower_eq_seq(a: Seq<char>, l: Seq<char>) -> bool {
    a.len() == l.len() && forall|i: int| 0 <= i < a.len() ==> lower_eq(#[trigger] a[i], l[i])
}

/// `name` lower-cased (ASCII) ends with `suffix`.
pub open spec fn ends_with_lower(name: Seq<char>, suffix: Seq<char>) -> bool {
    suffix.len() <= name.len() && lower_eq_seq(name.skip(name.len() - suffix.len()), suffix)
}

pub fn lower_eq_char(a: char, l: char) -> (r: bool)
    ensures
        r == lower_eq(a, l),
{
    let code: u32 = if 'A' <= a && a <= 'Z' {
        (a as u32) + 32
    } else {
        a as u32
    };
    code == (l as u32)
}

pub fn lower_eq_vec(a: &Vec<char>, l: &Vec<char>) -> (r: bool)
    ensures
        r == lower_eq_seq(a@, l@),
{
    if a.len() != l.len() {
        return false;
    }
    let mut i: usize = 0;
    while i < a.len()
        invariant
            a.len() == l.len(),
            i <= a.len(),
            forall|j: int| 0 <= j < i ==> lower_eq(#[trigger] a@[j], l@[j]),
        decreases a.len() - i,
    {
        if !lower_eq_char(a[i], l[i]) {
            return false;
        }
        i = i + 1;
    }
    true
}

pub fn ends_with_lower_vec(name: &Vec<char>, suffix: &Vec<char>) -> (r: bool)
    ensures
        r == ends_with_lower(name@, suffix@),
{
    if suffix.len() > name.len() {
        return false;
    }
    let off = name.len() - suffix.len();
    let mut i: usize = 0;
    while i < suffix.len()
        invariant
            off + suffix.len() == name.len(),
            i <= suffix.len(),
            forall|j: int| 0 <= j < i ==> lower_eq(#[trigger] name@.skip(off as int)[j], suffix@[j]),
        decreases suffix.len() - i,
    {
        if !lower_eq_char(name[off + i], suffix[i]) {
            assert(name@.skip(off as int)[i as int] == name@[off + i]);
            return false;
        }
        i = i + 1;
    }
    true
}

/// The first `n` characters of `s`.
pub fn prefix_vec(s: &Vec<char>, n: usize) -> (r: Vec<char>)
    requires
        n <= s.len(),
    ensures
        r@ == s@.take(n as int),
{
    let mut out: Vec<char> = Vec::new();
    let mut i: usize = 0;
    while i < n
        invariant
            i <= n <= s.len(),
            out@ == s@.take(i as int),
        decreases n - i,
    {
        out.push(s[i]);
        assert(s@.take(i + 1) == s@.take(i as int).push(s@[i as int]));
        i = i + 1;
    }
    out
}

/// The pieces joined with `sep` between each two of them.
pub open spec fn join_seqs(pieces: Seq<Seq<char>>, sep: Seq<char>) -> Seq<char>
    decreases pieces.len(),
{
    if pieces.len() == 0 {
        Seq::<char>::empty()
    } else if pieces.len() == 1 {
        pieces[0]
    } else {
        join_seqs(pieces.drop_last(), sep) + sep + pieces.last()
    }
}

/// The views of a list of strings.
pub open spec fn string_views(pieces: Seq<String>) -> Seq<Seq<char>> {
    pieces.map_values(|p: String| p@)
}

/// The strings joined with `sep` between each two of them (`[String]::join`).
pub fn join_strings(pieces: &Vec<String>, sep: &str) -> (r: String)
    ensures
        r@ == join_seqs(string_views(pieces@), sep@),
{
    let mut out = String::new();
    let mut i: usize = 0;
    while i < pieces.len()
        invariant
            i <= pieces.len(),
            out@ == join_seqs(string_views(pieces@.take(i as int)), sep@),
        decreases pieces.len() - i,
    {
        let ghost before = string_views(pieces@.take(i as int));
        if i > 0 {
            out.append(sep);
        }
        out.append(pieces[i].as_str());
        proof {
            let now = string_views(pieces@.take(i + 1));
            assert(now.drop_last() =~= before);
            assert(now.last() == pieces@[i as int]@);
        }
        i = i + 1;
    }
    assert(pieces@.take(pieces.len() as int) =~= pieces@);
    out
}

/// The decimal digits of `n`, most significant first, without leading zeros
/// (`"0"` for zero).
pub open spec fn decimal_text(n: nat) -> Seq<char>
    decreases n,
{
    if n < 10 {
        seq![digit_char(n)]
    } else {
        decimal_text(n / 10).push(digit_char(n % 10))
    }
}

/// The character of a decimal digit.
pub open spec fn digit_char(d: nat) -> char {
    if d == 0 { '0' } else if d == 1 { '1' } else if d == 2 { '2' } else if d == 3 { '3' } else if d == 4 { '4' }
    else if d == 5 { '5' } else if d == 6 { '6' } else if d == 7 { '7' } else if d == 8 { '8' } else { '9' }
}

fn digit_of(d: u64) -> (c: char)
    requires
        d < 10,
    ensures
        c == digit_char(d as nat),
{
    if d == 0 { '0' } else if d == 1 { '1' } else if d == 2 { '2' } else if d == 3 { '3' } else if d == 4 { '4' }
    else if d == 5 { '5' } else if d == 6 { '6' } else if d == 7 { '7' } else if d == 8 { '8' } else { '9' }
}

/// The decimal representation of `n` (`u64::to_string`).
pub fn decimal_string(n: u64) -> (r: String)
    ensures
        r@ == decimal_text(n as nat),
    decreases n,
{
    if n < 10 {
        let mut out = String::new();
        push_char(&mut out, digit_of(n));
        proof {
            assert(out@ == seq![digit_char(n as nat)]);
        }
        out
    } else {
        let mut out = decimal_string(n / 10);
        push_char(&mut out, digit_of(n % 10));
        out
    }
}

/// `a` followed by the decimal representation of `n`.
pub fn concat_decimal(a: &str, n: u64) -> (r: String)
    ensures
        r@ == a@ + decimal_text(n as nat),
{
    let digits = decimal_string(n);
    concat_str(a, digits.as_str())
}

/// Whether two strings hold the same characters.
pub fn str_eq(a: &str, b: &str) -> (r: bool)
    ensures
        r == (a@ == b@),
{
    let x = chars_of(a);
    let y = chars_of(b);
    if x.len() != y.len() {
        return false;
    }
    let mut i: usize = 0;
    while i < x.len()
        invariant
            x.len() == y.len(),
            x@ == a@,
            y@ == b@,
            i <= x.len(),
            forall|j: int| 0 <= j < i ==> x@[j] == y@[j],
        decreases x.len() - i,
    {
        if x[i] != y[i] {
            assert(x@[i as int] != y@[i as int]);
            return false;
        }
        i = i + 1;
    }
    assert(x@ =~= y@);
    true
}

/// White space as `char::is_whitespace` defines it (the Unicode `White_Space`
/// property).
pub open spec fn is_white_space(c: char) -> bool {
    ('\u{9}' <= c && c <= '\u{d}') || c == ' ' || c == '\u{85}' || c == '\u{a0}' || c == '\u{1680}' || ('\u{2000}'
        <= c && c <= '\u{200a}') || c == '\u{2028}' || c == '\u{2029}' || c == '\u{202f}' || c == '\u{205f}' || c
        == '\u{3000}'
}

pub fn white_space(c: char) -> (r: bool)
    ensures
        r == is_white_space(c),
{
    ('\u{9}' <= c && c <= '\u{d}') || c == ' ' || c == '\u{85}' || c == '\u{a0}' || c == '\u{1680}' || ('\u{2000}'
        <= c && c <= '\u{200a}') || c == '\u{2028}' || c == '\u{2029}' || c == '\u{202f}' || c == '\u{205f}' || c
        == '\u{3000}'
}

/// The text without its leading white space.
pub open spec fn trim_start_ws(s: Seq<char>) -> Seq<char>
    decreases s.len(),
{
    if s.len() > 0 && is_white_space(s[0]) {
        trim_start_ws(s.drop_first())
    } else {
        s
    }
}

/// The text without its trailing white space.
pub open spec fn trim_end_ws(s: Seq<char>) -> Seq<char>
    decreases s.len(),
{
    if s.len() > 0 && is_white_space(s.last()) {
        trim_end_ws(s.drop_last())
    } else {
        s
    }
}

/// The text without white space at either end (`str::trim`).
pub open spec fn trim_ws(s: Seq<char>) -> Seq<char> {
    trim_end_ws(trim_start_ws(s))
}

/// The index of the first character that is not white space.
pub fn trim_start_index(s: &Vec<char>) -> (r: usize)
    ensures
        r <= s@.len(),
        s@.skip(r as int) == trim_start_ws(s@),
{
    let mut i: usize = 0;
    assert(s@.skip(0) == s@);
    while i < s.len() && white_space(s[i])
        invariant
            i <= s@.len(),
            trim_start_ws(s@.skip(i as int)) == trim_start_ws(s@),
        decreases s.len() - i,
    {
        assert(s@.skip(i as int).drop_first() == s@.skip(i + 1));
        i = i + 1;
    }
    proof {
        lemma_skip_trim(s@, i);
    }
    i
}

proof fn lemma_skip_trim(s: Seq<char>, i: usize)
    requires
        i <= s.len(),
        trim_start_ws(s.skip(i as int)) == trim_start_ws(s),
        i == s.len() || !is_white_space(s[i as int]),
    ensures
        s.skip(i as int) == trim_start_ws(s),
{
    if i < s.len() {
        assert(s.skip(i as int)[0] == s[i as int]);
    }
}

/// The characters without white space at either end.
pub fn trim_ws_vec(s: &Vec<char>) -> (r: Vec<char>)
    ensures
        r@ == trim_ws(s@),
{
    let start = trim_start_index(s);
    let mut end: usize = s.len();
    let ghost t = s@.skip(start as int);
    while end > start && white_space(s[end - 1])
        invariant
            start <= end <= s@.len(),
            t == s@.skip(start as int),
            trim_end_ws(s@.subrange(start as int, end as int)) == trim_end_ws(t),
        decreases end,
    {
        assert(s@.subrange(start as int, end as int).drop_last() == s@.subrange(start as int, end - 1));
        end = end - 1;
    }
    let mut out: Vec<char> = Vec::new();
    let mut i: usize = start;
    while i < end
        invariant
            start <= i <= end,
            end <= s@.len(),
            out@ == s@.subrange(start as int, i as int),
        decreases end - i,
    {
        out.push(s[i]);
        assert(s@.subrange(start as int, i + 1) == s@.subrange(start as int, i as int).push(s@[i as int]));
        i = i + 1;
    }
    proof {
        assert(s@.subrange(start as int, s@.len() as int) == t);
        let sub = s@.subrange(start as int, end as int);
        if end > start {
            assert(sub.last() == s@[end - 1]);
        }
        assert(trim_end_ws(sub) == sub);
    }
    out
}

// ---------------------------------------------------------------------------
// The order of texts
// ---------------------------------------------------------------------------

/// `a` comes before `b` in the order of `String`: character by character by
/// code point (which is the order of their UTF-8 bytes), a proper prefix
/// first.
pub open spec fn text_lt(a: Seq<char>, b: Seq<char>) -> bool
    decreases a.len(),
{
    if a.len() == 0 {
        b.len() > 0
    } else if b.len() == 0 {
        false
    } else if a[0] != b[0] {
        a[0] < b[0]
    } else {
        text_lt(a.drop_first(), b.drop_first())
    }
}

/// Each text comes before every later one.
pub open spec fn strictly_sorted(s: Seq<Seq<char>>) -> bool {
    forall|a: int, b: int| 0 <= a < b < s.len() ==> text_lt(#[trigger] s[a], #[trigger] s[b])
}

pub proof fn lemma_text_lt_irreflexive(a: Seq<char>)
    ensures
        !text_lt(a, a),
    decreases a.len(),
{
    if a.len() > 0 {
        lemma_text_lt_irreflexive(a.drop_first());
    }
}

pub proof fn lemma_text_lt_transitive(a: Seq<char>, b: Seq<char>, c: Seq<char>)
    requires
        text_lt(a, b),
        text_lt(b, c),
    ensures
        text_lt(a, c),
    decreases a.len(),
{
    if a.len() > 0 && b.len() > 0 && c.len() > 0 && a[0] == b[0] && b[0] == c[0] {
        lemma_text_lt_transitive(a.drop_first(), b.drop_first(), c.drop_first());
    }
}

pub proof fn lemma_text_lt_total(a: Seq<char>, b: Seq<char>)
    requires
        a != b,
    ensures
        text_lt(a, b) || text_lt(b, a),
    decreases a.len(),
{
    if a.len() == 0 && b.len() == 0 {
        assert(a =~= b);
    }
    if a.len() > 0 && b.len() > 0 && a[0] == b[0] {
        if a.drop_first() == b.drop_first() {
            assert(a =~= seq![a[0]] + a.drop_first());
            assert(b =~= seq![b[0]] + b.drop_first());
        }
        lemma_text_lt_total(a.drop_first(), b.drop_first());
    }
}

/// `s` lists the texts of `items` in ascending order, each once.
pub open spec fn sorted_listing(s: Seq<Seq<char>>, items: Set<Seq<char>>) -> bool {
    &&& strictly_sorted(s)
    &&& forall|p: Seq<char>| s.contains(p) <==> items.contains(p)
}

/// A set of texts has one listing in ascending order: two such listings of
/// the same texts are the same sequence.
pub proof fn law_sorted_listing_unique(s: Seq<Seq<char>>, t: Seq<Seq<char>>, items: Set<Seq<char>>)
    requires
        sorted_listing(s, items),
        sorted_listing(t, items),
    ensures
        s == t,
    decreases s.len(),
{
    if s.len() == 0 || t.len() == 0 {
        if t.len() > 0 {
            assert(t.contains(t[0]));
        }
        if s.len() > 0 {
            assert(s.contains(s[0]));
        }
        assert(s =~= t);
    } else {
        if s[0] != t[0] {
            assert(s.contains(s[0]));
            assert(t.contains(t[0]));
            let j = choose|j: int| 0 <= j < t.len() && t[j] == s[0];
            let k = choose|k: int| 0 <= k < s.len() && s[k] == t[0];
            assert(text_lt(t[0], t[j]));
            assert(text_lt(s[0], s[k]));
            lemma_text_lt_transitive(s[0], t[0], s[0]);
            lemma_text_lt_irreflexive(s[0]);
        }
        let rest = items.remove(s[0]);
        assert forall|p: Seq<char>| s.drop_first().contains(p) <==> rest.contains(p) by {
            if s.drop_first().contains(p) {
                let k = choose|k: int| 0 <= k < s.drop_first().len() && s.drop_first()[k] == p;
                assert(s[k + 1] == p);
                assert(s.contains(p));
                assert(text_lt(s[0], s[k + 1]));
                lemma_text_lt_irreflexive(s[0]);
            }
            if rest.contains(p) {
                assert(s.contains(p));
                let k = choose|k: int| 0 <= k < s.len() && s[k] == p;
                assert(s.drop_first()[k - 1] == p);
            }
        }
        assert forall|p: Seq<char>| t.drop_first().contains(p) <==> rest.contains(p) by {
            if t.drop_first().contains(p) {
                let k = choose|k: int| 0 <= k < t.drop_first().len() && t.drop_first()[k] == p;
                assert(t[k + 1] == p);
                assert(t.contains(p));
                assert(text_lt(t[0], t[k + 1]));
                lemma_text_lt_irreflexive(t[0]);
            }
            if rest.contains(p) {
                assert(t.contains(p));
                let k = choose|k: int| 0 <= k < t.len() && t[k] == p;
                assert(t.drop_first()[k - 1] == p);
            }
        }
        assert(strictly_sorted(s.drop_first())) by {
            assert forall|a: int, b: int| 0 <= a < b < s.drop_first().len() implies text_lt(
                #[trigger] s.drop_first()[a],
                #[trigger] s.drop_first()[b],
            ) by {
                assert(text_lt(s[a + 1], s[b + 1]));
            }
        }
        assert(strictly_sorted(t.drop_first())) by {
            assert forall|a: int, b: int| 0 <= a < b < t.drop_first().len() implies text_lt(
                #[trigger] t.drop_first()[a],
                #[trigger] t.drop_first()[b],
            ) by {
                assert(text_lt(t[a + 1], t[b + 1]));
            }
        }
        law_sorted_listing_unique(s.drop_first(), t.drop_first(), rest);
        assert(s =~= seq![s[0]] + s.drop_first());
        assert(t =~= seq![t[0]] + t.drop_first());
    }
}

/// Whether `a` comes before `b` in the order of `String`.
pub fn text_less(a: &Vec<char>, b: &Vec<char>) -> (r: bool)
    ensures
        r == text_lt(a@, b@),
{
    let mut i: usize = 0;
    assert(a@.skip(0) =~= a@ && b@.skip(0) =~= b@);
    while i < a.len() && i < b.len() && a[i] == b[i]
        invariant
            i <= a@.len(),
            i <= b@.len(),
            text_lt(a@, b@) == text_lt(a@.skip(i as int), b@.skip(i as int)),
        decreases a.len() - i,
    {
        assert(a@.skip(i as int).drop_first() =~= a@.skip(i + 1));
        assert(b@.skip(i as int).drop_first() =~= b@.skip(i + 1));
        i = i + 1;
    }
    if i == a.len() {
        i < b.len()
    } else if i == b.len() {
        false
    } else {
        a[i] < b[i]
    }
}

/// The strings in ascending order of `String`: `pieces` must not hold the
/// same text twice, and the result holds the same texts, each once.
pub fn sorted_strings(pieces: &Vec<String>) -> (r: Vec<String>)
    requires
        forall|a: int, b: int| 0 <= a < b < pieces@.len() ==> #[trigger] pieces@[a]@ != #[trigger] pieces@[b]@,
    ensures
        r@.len() == pieces@.len(),
        strictly_sorted(string_views(r@)),
        forall|p: Seq<char>| string_views(r@).contains(p) <==> string_views(pieces@).contains(p),
{
    let mut out: Vec<String> = Vec::new();
    let mut i: usize = 0;
    while i < pieces.len()
        invariant
            i <= pieces@.len(),
            out@.len() == i,
            forall|a: int, b: int| 0 <= a < b < pieces@.len() ==> #[trigger] pieces@[a]@ != #[trigger] pieces@[b]@,
            strictly_sorted(string_views(out@)),
            forall|p: Seq<char>| string_views(out@).contains(p) <==> string_views(pieces@.take(i as int)).contains(p),
        decreases pieces.len() - i,
    {
        let x = pieces[i].clone();
        proof {
            if string_views(out@).contains(x@) {
                let k = choose|k: int| 0 <= k < i && string_views(pieces@.take(i as int))[k] == x@;
                assert(pieces@.take(i as int)[k] == pieces@[k]);
            }
        }
        insert_sorted(&mut out, x);
        proof {
            assert forall|p: Seq<char>| string_views(out@).contains(p) <==> string_views(pieces@.take(i + 1)).contains(p) by {
                let t = string_views(pieces@.take(i + 1));
                assert(t =~= string_views(pieces@.take(i as int)).push(pieces@[i as int]@));
                if t.contains(p) && p != pieces@[i as int]@ {
                    let k = choose|k: int| 0 <= k < t.len() && t[k] == p;
                    assert(string_views(pieces@.take(i as int))[k] == p);
                }
                if string_views(pieces@.take(i as int)).contains(p) {
                    let k = choose|k: int| 0 <= k < i && string_views(pieces@.take(i as int))[k] == p;
                    assert(t[k] == p);
                }
                if p == pieces@[i as int]@ {
                    assert(t[i as int] == p);
                }
            }
        }
        i = i + 1;
    }
    assert(pieces@.take(pieces@.len() as int) =~= pieces@);
    out
}

/// Inserts a text that is not yet present into an ascending list, keeping it
/// ascending.
fn insert_sorted(out: &mut Vec<String>, x: String)
    requires
        strictly_sorted(string_views(old(out)@)),
        !string_views(old(out)@).contains(x@),
    ensures
        final(out)@.len() == old(out)@.len() + 1,
        strictly_sorted(string_views(final(out)@)),
        forall|p: Seq<char>| string_views(final(out)@).contains(p) <==> (string_views(old(out)@).contains(p) || p == x@),
{
    let xc = chars_of(x.as_str());
    let ghost v = string_views(out@);
    let mut j: usize = 0;
    while j < out.len() && text_less(&chars_of(out[j].as_str()), &xc)
        invariant
            j <= out@.len(),
            v == string_views(out@),
            xc@ == x@,
            forall|k: int| 0 <= k < j ==> text_lt(#[trigger] v[k], x@),
        decreases out.len() - j,
    {
        j = j + 1;
    }
    proof {
        if j < v.len() {
            assert(v[j as int] != x@);
            lemma_text_lt_total(v[j as int], x@);
        }
        assert forall|k: int| j <= k < v.len() implies text_lt(x@, #[trigger] v[k]) by {
            if k > j {
                lemma_text_lt_transitive(x@, v[j as int], v[k]);
            }
        }
    }
    out.insert(j, x);
    proof {
        let w = string_views(out@);
        assert(w =~= v.insert(j as int, x@));
        assert forall|a: int, b: int| 0 <= a < b < w.len() implies text_lt(#[trigger] w[a], #[trigger] w[b]) by {
            if a < j && b < j {
            } else if a < j && b == j {
            } else if a < j {
                lemma_text_lt_transitive(v[a], x@, v[b - 1]);
            } else if a == j {
            } else {
            }
        }
        assert forall|p: Seq<char>| w.contains(p) <==> (v.contains(p) || p == x@) by {
            if w.contains(p) {
                let k = choose|k: int| 0 <= k < w.len() && w[k] == p;
                if k < j {
                    assert(v[k] == p);
                } else if k > j {
                    assert(v[k - 1] == p);
                }
            }
            if v.contains(p) {
                let k = choose|k: int| 0 <= k < v.len() && v[k] == p;
                if k < j {
                    assert(w[k] == p);
                } else {
                    assert(w[k + 1] == p);
                }
            }
            if p == x@ {
                assert(w[j as int] == p);
            }
        }
    }
}

} // verus!

