//! Character-level helpers shared by the filename, playlist and tag logic.
//!
//! Text is modelled as `Seq<char>` (the view of `str` and `String`). The
//! executable helpers here work on `&[char]` / `Vec<char>` and convert at the
//! edges with `chars_of` and `string_of`.

use vstd::prelude::*;

verus! {

broadcast use vstd::string::group_string_axioms;

/// Appends one character to a `String` (`String::push`).
#[verifier::external_body]
pub(crate) fn push_char(s: &mut String, c: char)
    ensures
        final(s)@ == old(s)@.push(c),
{
    s.push(c);
}

/// The characters of `s`, in order.
pub fn chars_of(s: &str) -> (v: Vec<char>)
    ensures
        v@ == s@,
{
    let mut v: Vec<char> = Vec::new();
    for c in iter: s.chars()
        invariant
            v@ == iter.seq().take(iter.index() as int),
            iter.seq() == s@,
    {
        v.push(c);
    }
    v
}

/// A `String` holding exactly the characters of `v`.
pub fn string_of(v: &[char]) -> (s: String)
    ensures
        s@ == v@,
{
    let mut s = String::new();
    let mut i: usize = 0;
    while i < v.len()
        invariant
            i <= v@.len(),
            s@ == v@.take(i as int),
        decreases v@.len() - i,
    {
        push_char(&mut s, v[i]);
        assert(v@.take(i as int).push(v@[i as int]) =~= v@.take(i + 1));
        i += 1;
    }
    assert(v@.take(v@.len() as int) =~= v@);
    s
}

/// Appends every character of `v` to `out`.
pub fn push_all(out: &mut Vec<char>, v: &[char])
    ensures
        final(out)@ == old(out)@ + v@,
{
    let mut i: usize = 0;
    while i < v.len()
        invariant
            i <= v@.len(),
            out@ == old(out)@ + v@.take(i as int),
        decreases v@.len() - i,
    {
        out.push(v[i]);
        assert(v@.take(i as int).push(v@[i as int]) =~= v@.take(i + 1));
        i += 1;
    }
    assert(v@.take(v@.len() as int) =~= v@);
}

// ── ASCII case ──────────────────────────────────────────────────────────

pub open spec fn is_ascii_upper(c: char) -> bool {
    'A' <= c <= 'Z'
}

pub open spec fn is_ascii_lower(c: char) -> bool {
    'a' <= c <= 'z'
}

pub open spec fn is_ascii_digit(c: char) -> bool {
    '0' <= c <= '9'
}

pub open spec fn is_ascii_alphanumeric(c: char) -> bool {
    is_ascii_upper(c) || is_ascii_lower(c) || is_ascii_digit(c)
}

/// `char::to_ascii_lowercase`: only `A`..=`Z` change.
pub open spec fn ascii_lower(c: char) -> char {
    if is_ascii_upper(c) {
        ((c as u32) + 32) as char
    } else {
        c
    }
}

/// `char::to_ascii_uppercase`: only `a`..=`z` change.
pub open spec fn ascii_upper(c: char) -> char {
    if is_ascii_lower(c) {
        ((c as u32) - 32) as char
    } else {
        c
    }
}

pub open spec fn lower_seq(s: Seq<char>) -> Seq<char> {
    s.map_values(|c: char| ascii_lower(c))
}

pub open spec fn upper_seq(s: Seq<char>) -> Seq<char> {
    s.map_values(|c: char| ascii_upper(c))
}

/// `char::is_ascii_alphanumeric`.
pub fn is_alphanumeric_ascii(c: char) -> (r: bool)
    ensures
        r == is_ascii_alphanumeric(c),
{
    ('A' <= c && c <= 'Z') || ('a' <= c && c <= 'z') || ('0' <= c && c <= '9')
}

/// `char::to_ascii_lowercase`.
pub fn to_ascii_lower(c: char) -> (r: char)
    ensures
        r == ascii_lower(c),
{
    if 'A' <= c && c <= 'Z' {
        ((c as u8) + 32) as char
    } else {
        c
    }
}

/// `char::to_ascii_uppercase`.
pub fn to_ascii_upper(c: char) -> (r: char)
    ensures
        r == ascii_upper(c),
{
    if 'a' <= c && c <= 'z' {
        ((c as u8) - 32) as char
    } else {
        c
    }
}

/// The ASCII-lowercased copy of `s`.
pub fn lower_chars(s: &[char]) -> (r: Vec<char>)
    ensures
        r@ == lower_seq(s@),
{
    let mut r: Vec<char> = Vec::new();
    let mut i: usize = 0;
    while i < s.len()
        invariant
            i <= s@.len(),
            r@ == lower_seq(s@.take(i as int)),
        decreases s@.len() - i,
    {
        r.push(to_ascii_lower(s[i]));
        assert(lower_seq(s@.take(i + 1)) =~= lower_seq(s@.take(i as int)).push(
            ascii_lower(s@[i as int]),
        ));
        i += 1;
    }
    assert(s@.take(s@.len() as int) =~= s@);
    r
}

/// The ASCII-uppercased copy of `s`.
pub fn upper_chars(s: &[char]) -> (r: Vec<char>)
    ensures
        r@ == upper_seq(s@),
{
    let mut r: Vec<char> = Vec::new();
    let mut i: usize = 0;
    while i < s.len()
        invariant
            i <= s@.len(),
            r@ == upper_seq(s@.take(i as int)),
        decreases s@.len() - i,
    {
        r.push(to_ascii_upper(s[i]));
        assert(upper_seq(s@.take(i + 1)) =~= upper_seq(s@.take(i as int)).push(
            ascii_upper(s@[i as int]),
        ));
        i += 1;
    }
    assert(s@.take(s@.len() as int) =~= s@);
    r
}

/// `eq_ignore_ascii_case` on character sequences.
pub open spec fn eq_ignore_case(a: Seq<char>, b: Seq<char>) -> bool {
    lower_seq(a) == lower_seq(b)
}

/// Whether `a` and `b` are equal ignoring ASCII case.
pub fn chars_eq_ignore_ascii_case(a: &[char], b: &[char]) -> (r: bool)
    ensures
        r == eq_ignore_case(a@, b@),
{
    if a.len() != b.len() {
        assert(lower_seq(a@).len() != lower_seq(b@).len());
        return false;
    }
    let mut i: usize = 0;
    while i < a.len()
        invariant
            a@.len() == b@.len(),
            i <= a@.len(),
            forall|j: int| 0 <= j < i ==> ascii_lower(a@[j]) == ascii_lower(b@[j]),
        decreases a@.len() - i,
    {
        if to_ascii_lower(a[i]) != to_ascii_lower(b[i]) {
            assert(lower_seq(a@)[i as int] != lower_seq(b@)[i as int]);
            return false;
        }
        i += 1;
    }
    assert(lower_seq(a@) =~= lower_seq(b@));
    true
}

/// Whether `a` and `b` hold the same characters.
pub fn chars_eq(a: &[char], b: &[char]) -> (r: bool)
    ensures
        r == (a@ == b@),
{
    if a.len() != b.len() {
        return false;
    }
    let mut i: usize = 0;
    while i < a.len()
        invariant
            a@.len() == b@.len(),
            i <= a@.len(),
            forall|j: int| 0 <= j < i ==> a@[j] == b@[j],
        decreases a@.len() - i,
    {
        if a[i] != b[i] {
            return false;
        }
        i += 1;
    }
    assert(a@ =~= b@);
    true
}

pub open spec fn has_suffix(s: Seq<char>, suffix: Seq<char>) -> bool {
    suffix.len() <= s.len() && s.subrange(s.len() - suffix.len(), s.len() as int) == suffix
}

pub open spec fn has_prefix(s: Seq<char>, prefix: Seq<char>) -> bool {
    prefix.len() <= s.len() && s.take(prefix.len() as int) == prefix
}

/// `s` holds `needle` somewhere as a contiguous run.
pub open spec fn contains_run(s: Seq<char>, needle: Seq<char>) -> bool {
    exists|i: int| 0 <= i && i + needle.len() <= s.len() && #[trigger] s.subrange(i, i + needle.len()) == needle
}

/// Whether `s[at..at + needle.len()]` equals `needle`.
pub fn chars_match_at(s: &[char], at: usize, needle: &[char]) -> (r: bool)
    requires
        at <= s@.len(),
    ensures
        r == (at + needle@.len() <= s@.len() && s@.subrange(at as int, at + needle@.len()) == needle@),
{
    let slen = s.len();
    if needle.len() > slen - at {
        return false;
    }
    let mut i: usize = 0;
    while i < needle.len()
        invariant
            slen == s@.len(),
            at + needle@.len() <= slen,
            i <= needle@.len(),
            forall|j: int| 0 <= j < i ==> s@[at + j] == needle@[j],
        decreases needle@.len() - i,
    {
        if s[at + i] != needle[i] {
            assert(s@.subrange(at as int, at + needle@.len())[i as int] != needle@[i as int]);
            return false;
        }
        i += 1;
    }
    assert(s@.subrange(at as int, at + needle@.len()) =~= needle@);
    true
}

/// Whether `s` ends with `suffix`.
pub fn chars_ends_with(s: &[char], suffix: &[char]) -> (r: bool)
    ensures
        r == has_suffix(s@, suffix@),
{
    if suffix.len() > s.len() {
        return false;
    }
    chars_match_at(s, s.len() - suffix.len(), suffix)
}

/// Whether `s` starts with `prefix`.
pub fn chars_starts_with(s: &[char], prefix: &[char]) -> (r: bool)
    ensures
        r == has_prefix(s@, prefix@),
{
    let r = chars_match_at(s, 0, prefix);
    assert(s@.subrange(0, prefix@.len() as int) =~= s@.take(prefix@.len() as int));
    r
}

/// Whether `needle` occurs in `s` as a run of characters.
pub fn chars_contains(s: &[char], needle: &[char]) -> (r: bool)
    ensures
        r == contains_run(s@, needle@),
{
    if needle.len() > s.len() {
        return false;
    }
    let last = s.len() - needle.len();
    let mut i: usize = 0;
    loop
        invariant
            last + needle@.len() == s@.len(),
            i <= last,
            forall|j: int|
                0 <= j < i ==> #[trigger] s@.subrange(j, j + needle@.len()) != needle@,
        ensures
            forall|j: int|
                0 <= j <= last ==> #[trigger] s@.subrange(j, j + needle@.len()) != needle@,
        decreases last - i,
    {
        if chars_match_at(s, i, needle) {
            return true;
        }
        if i == last {
            break;
        }
        i += 1;
    }
    assert forall|j: int| 0 <= j && j + needle@.len() <= s@.len() implies #[trigger] s@.subrange(
        j,
        j + needle@.len(),
    ) != needle@ by {
        assert(j <= last);
    }
    false
}

// ── Unicode whitespace and control characters ───────────────────────────

/// `char::is_whitespace`: the Unicode `White_Space` property.
pub open spec fn is_unicode_whitespace(c: char) -> bool {
    let u = c as u32;
    ||| 0x09 <= u <= 0x0D
    ||| u == 0x20
    ||| u == 0x85
    ||| u == 0xA0
    ||| u == 0x1680
    ||| 0x2000 <= u <= 0x200A
    ||| u == 0x2028
    ||| u == 0x2029
    ||| u == 0x202F
    ||| u == 0x205F
    ||| u == 0x3000
}

/// `char::is_control`: general category `Cc`.
pub open spec fn is_unicode_control(c: char) -> bool {
    let u = c as u32;
    u <= 0x1F || (0x7F <= u <= 0x9F)
}

/// `char::is_whitespace`.
pub fn is_whitespace(c: char) -> (r: bool)
    ensures
        r == is_unicode_whitespace(c),
{
    let u = c as u32;
    (0x09 <= u && u <= 0x0D) || u == 0x20 || u == 0x85 || u == 0xA0 || u == 0x1680 || (0x2000
        <= u && u <= 0x200A) || u == 0x2028 || u == 0x2029 || u == 0x202F || u == 0x205F || u
        == 0x3000
}

/// `char::is_control`.
pub fn is_control(c: char) -> (r: bool)
    ensures
        r == is_unicode_control(c),
{
    let u = c as u32;
    u <= 0x1F || (0x7F <= u && u <= 0x9F)
}

/// Character classes that `trim_chars` strips from both ends.
#[derive(Clone, Copy, PartialEq, Eq)]
pub enum TrimSet {
    /// `char::is_whitespace` (what `str::trim` strips).
    Whitespace,
    /// `-`, space and `.` (the ends of a filename stem).
    StemEdge,
    /// `/`.
    Slash,
}

pub open spec fn is_stem_edge(c: char) -> bool {
    c == '-' || c == ' ' || c == '.'
}

pub open spec fn in_trim_set(set: TrimSet, c: char) -> bool {
    match set {
        TrimSet::Whitespace => is_unicode_whitespace(c),
        TrimSet::StemEdge => is_stem_edge(c),
        TrimSet::Slash => c == '/',
    }
}

/// Whether `c` belongs to `set`.
pub fn is_in_trim_set(set: TrimSet, c: char) -> (r: bool)
    ensures
        r == in_trim_set(set, c),
{
    match set {
        TrimSet::Whitespace => is_whitespace(c),
        TrimSet::StemEdge => c == '-' || c == ' ' || c == '.',
        TrimSet::Slash => c == '/',
    }
}

/// Number of leading characters of `s` that belong to `set`.
pub open spec fn lead_count(s: Seq<char>, set: TrimSet) -> nat
    decreases s.len(),
{
    if s.len() > 0 && in_trim_set(set, s[0]) {
        1 + lead_count(s.drop_first(), set)
    } else {
        0
    }
}

/// Number of trailing characters of `s` that belong to `set`.
pub open spec fn trail_count(s: Seq<char>, set: TrimSet) -> nat
    decreases s.len(),
{
    if s.len() > 0 && in_trim_set(set, s.last()) {
        1 + trail_count(s.drop_last(), set)
    } else {
        0
    }
}

/// `s` without its leading and trailing characters from `set`
/// (`str::trim_matches`).
pub open spec fn trim_set(s: Seq<char>, set: TrimSet) -> Seq<char> {
    let t = s.skip(lead_count(s, set) as int);
    t.take(t.len() - trail_count(t, set))
}

/// `str::trim`.
pub open spec fn trim_ws(s: Seq<char>) -> Seq<char> {
    trim_set(s, TrimSet::Whitespace)
}

/// The leading run counted by `lead_count` lies in `set` and stops at
/// the first character outside it.
pub proof fn lemma_lead_count(s: Seq<char>, set: TrimSet)
    ensures
        lead_count(s, set) <= s.len(),
        forall|j: int| 0 <= j < lead_count(s, set) ==> in_trim_set(set, #[trigger] s[j]),
        lead_count(s, set) < s.len() ==> !in_trim_set(set, s[lead_count(s, set) as int]),
    decreases s.len(),
{
    if s.len() > 0 && in_trim_set(set, s[0]) {
        lemma_lead_count(s.drop_first(), set);
        assert forall|j: int| 0 <= j < lead_count(s, set) implies in_trim_set(
            set,
            #[trigger] s[j],
        ) by {
            if j > 0 {
                assert(s[j] == s.drop_first()[j - 1]);
            }
        }
    }
}

/// The trailing run counted by `trail_count` lies in `set` and stops at
/// the last character outside it.
pub proof fn lemma_trail_count(s: Seq<char>, set: TrimSet)
    ensures
        trail_count(s, set) <= s.len(),
        forall|j: int|
            s.len() - trail_count(s, set) <= j < s.len() ==> in_trim_set(set, #[trigger] s[j]),
        trail_count(s, set) < s.len() ==> !in_trim_set(set, s[s.len() - trail_count(s, set) - 1]),
    decreases s.len(),
{
    if s.len() > 0 && in_trim_set(set, s.last()) {
        lemma_trail_count(s.drop_last(), set);
        assert forall|j: int| s.len() - trail_count(s, set) <= j < s.len() implies in_trim_set(
            set,
            #[trigger] s[j],
        ) by {
            if j < s.len() - 1 {
                assert(s[j] == s.drop_last()[j]);
            }
        }
    }
}

/// What survives the trim is `s[a..b]`, whose first and last characters
/// (when there are any) lie outside `set`.
pub proof fn lemma_trim_set(s: Seq<char>, set: TrimSet)
    ensures
        ({
            let a = lead_count(s, set) as int;
            let t = s.skip(a);
            let b = a + t.len() - trail_count(t, set);
            &&& 0 <= a <= b <= s.len()
            &&& trim_set(s, set) == s.subrange(a, b)
            &&& a < b ==> !in_trim_set(set, s[a]) && !in_trim_set(set, s[b - 1])
            &&& a == b ==> forall|j: int| 0 <= j < s.len() ==> in_trim_set(set, #[trigger] s[j])
        }),
{
    lemma_lead_count(s, set);
    let a = lead_count(s, set) as int;
    let t = s.skip(a);
    lemma_trail_count(t, set);
    let b = a + t.len() - trail_count(t, set);
    assert(trim_set(s, set) =~= s.subrange(a, b));
    if a < b {
        assert(t[t.len() - trail_count(t, set) - 1] == s[b - 1]);
    }
    if a == b {
        assert forall|j: int| 0 <= j < s.len() implies in_trim_set(set, #[trigger] s[j]) by {
            if j >= a {
                assert(s[j] == t[j - a]);
            }
        }
    }
}

/// Index of the first character of `s` outside `set` (or `s.len()`).
pub fn lead_len(s: &[char], set: TrimSet) -> (n: usize)
    ensures
        n == lead_count(s@, set),
{
    let mut i: usize = 0;
    assert(s@.skip(0) =~= s@);
    while i < s.len() && is_in_trim_set(set, s[i])
        invariant
            i <= s@.len(),
            lead_count(s@, set) == i + lead_count(s@.skip(i as int), set),
        decreases s@.len() - i,
    {
        assert(s@.skip(i as int).drop_first() =~= s@.skip(i + 1));
        i += 1;
    }
    assert(s@.skip(i as int).len() == 0 || !in_trim_set(set, s@.skip(i as int)[0]));
    i
}

/// Number of trailing characters of `s` in `set`.
pub fn trail_len(s: &[char], set: TrimSet) -> (n: usize)
    ensures
        n == trail_count(s@, set),
{
    let mut i: usize = s.len();
    assert(s@.take(i as int) =~= s@);
    while i > 0 && is_in_trim_set(set, s[i - 1])
        invariant
            i <= s@.len(),
            trail_count(s@, set) == (s@.len() - i) + trail_count(s@.take(i as int), set),
        decreases i,
    {
        assert(s@.take(i as int).drop_last() =~= s@.take(i - 1));
        i -= 1;
    }
    assert(s@.take(i as int).len() == 0 || !in_trim_set(set, s@.take(i as int).last()));
    s.len() - i
}

/// `s[from..to]` as a new vector.
pub fn sub_chars(s: &[char], from: usize, to: usize) -> (r: Vec<char>)
    requires
        from <= to <= s@.len(),
    ensures
        r@ == s@.subrange(from as int, to as int),
{
    let mut r: Vec<char> = Vec::new();
    let mut i = from;
    while i < to
        invariant
            from <= i <= to <= s@.len(),
            r@ == s@.subrange(from as int, i as int),
        decreases to - i,
    {
        r.push(s[i]);
        assert(s@.subrange(from as int, i as int).push(s@[i as int]) =~= s@.subrange(
            from as int,
            i + 1,
        ));
        i += 1;
    }
    r
}

/// `s` without its leading and trailing characters from `set`.
pub fn trim_chars(s: &[char], set: TrimSet) -> (r: Vec<char>)
    ensures
        r@ == trim_set(s@, set),
{
    proof {
        lemma_lead_count(s@, set);
    }
    let start = lead_len(s, set);
    let t = sub_chars(s, start, s.len());
    assert(t@ =~= s@.skip(start as int));
    proof {
        lemma_trail_count(t@, set);
    }
    let k = trail_len(t.as_slice(), set);
    let r = sub_chars(t.as_slice(), 0, t.len() - k);
    assert(r@ =~= t@.take(t@.len() - k));
    r
}

// ── Decimal rendering ───────────────────────────────────────────────────

pub open spec fn digit_char(d: nat) -> char
    recommends
        d < 10,
{
    (('0' as u32) + d) as char
}

/// Decimal digits of `n`, most significant first, without leading zeros.
pub open spec fn decimal(n: nat) -> Seq<char>
    decreases n,
{
    if n < 10 {
        seq![digit_char(n)]
    } else {
        decimal(n / 10).push(digit_char(n % 10))
    }
}

fn digit(d: u128) -> (c: char)
    requires
        d < 10,
    ensures
        c == digit_char(d as nat),
{
    ((d as u8) + 48) as char
}

/// The decimal rendering of `n`, as `format!("{n}")` prints it.
pub fn decimal_chars(n: u128) -> (r: Vec<char>)
    ensures
        r@ == decimal(n as nat),
    decreases n,
{
    if n < 10 {
        let mut r: Vec<char> = Vec::new();
        r.push(digit(n));
        assert(r@ =~= seq![digit_char(n as nat)]);
        r
    } else {
        let mut r = decimal_chars(n / 10);
        r.push(digit(n % 10));
        r
    }
}

} // verus!
