//! Filename and tag rules for the MP3 normalization step.
//!
//! Garmin firmware accepts MP3, M4A/M4B, AAC and WAV; everything else is
//! transcoded by ffmpeg before upload. The watch also silently drops writes
//! whose filename is too long or holds exotic punctuation, and files whose
//! tags hold control characters or ©®™℗. This module holds those rules.

use vstd::prelude::*;

use crate::paths::{
    extension, extension_of, file_stem, file_stem_of, split_chars, split_on, view_opt, views,
};
use crate::playlist::{from_utf8_lossy, utf8_lossy};
use crate::text::{
    chars_eq, chars_eq_ignore_ascii_case, chars_of, chars_starts_with, eq_ignore_case, has_prefix,
    in_trim_set, is_alphanumeric_ascii, is_ascii_alphanumeric, is_control, is_stem_edge,
    is_unicode_control, lead_count, lemma_trim_set, lower_chars, lower_seq, push_all, string_of,
    decimal, decimal_chars,
    sub_chars,
    trail_count, trim_chars, trim_set, trim_ws, TrimSet,
};

verus! {

broadcast use vstd::string::group_string_axioms;

/// Longest filename stem (in characters) that the watch reliably accepts,
/// leaving room for `.mp3` inside its ~60-character limit.
pub const STEM_CAP: usize = 56;

// ── audio extensions ────────────────────────────────────────────────────

/// The extensions routed through ffmpeg (case-insensitive): mp3, m4a, m4b,
/// aac, wav, flac, ogg, oga, opus, wma, ape, aiff, aif, wv, alac.
pub open spec fn is_audio_ext(e: Seq<char>) -> bool {
    ||| eq_ignore_case(e, seq!['m', 'p', '3'])
    ||| eq_ignore_case(e, seq!['m', '4', 'a'])
    ||| eq_ignore_case(e, seq!['m', '4', 'b'])
    ||| eq_ignore_case(e, seq!['a', 'a', 'c'])
    ||| eq_ignore_case(e, seq!['w', 'a', 'v'])
    ||| eq_ignore_case(e, seq!['f', 'l', 'a', 'c'])
    ||| eq_ignore_case(e, seq!['o', 'g', 'g'])
    ||| eq_ignore_case(e, seq!['o', 'g', 'a'])
    ||| eq_ignore_case(e, seq!['o', 'p', 'u', 's'])
    ||| eq_ignore_case(e, seq!['w', 'm', 'a'])
    ||| eq_ignore_case(e, seq!['a', 'p', 'e'])
    ||| eq_ignore_case(e, seq!['a', 'i', 'f', 'f'])
    ||| eq_ignore_case(e, seq!['a', 'i', 'f'])
    ||| eq_ignore_case(e, seq!['w', 'v'])
    ||| eq_ignore_case(e, seq!['a', 'l', 'a', 'c'])
}

/// The path names an audio file.
pub open spec fn is_audio_path(p: Seq<char>) -> bool {
    match extension_of(p) {
        Some(e) => is_audio_ext(e),
        None => false,
    }
}

/// The path names an MP3 file.
pub open spec fn is_mp3_path(p: Seq<char>) -> bool {
    match extension_of(p) {
        Some(e) => eq_ignore_case(e, seq!['m', 'p', '3']),
        None => false,
    }
}

fn audio_ext(e: &[char]) -> (r: bool)
    ensures
        r == is_audio_ext(e@),
{
    let x_mp3 = ['m', 'p', '3'];
    assert(x_mp3@ =~= seq!['m', 'p', '3']);
    if chars_eq_ignore_ascii_case(e, &x_mp3) {
        return true;
    }
    let x_m4a = ['m', '4', 'a'];
    assert(x_m4a@ =~= seq!['m', '4', 'a']);
    if chars_eq_ignore_ascii_case(e, &x_m4a) {
        return true;
    }
    let x_m4b = ['m', '4', 'b'];
    assert(x_m4b@ =~= seq!['m', '4', 'b']);
    if chars_eq_ignore_ascii_case(e, &x_m4b) {
        return true;
    }
    let x_aac = ['a', 'a', 'c'];
    assert(x_aac@ =~= seq!['a', 'a', 'c']);
    if chars_eq_ignore_ascii_case(e, &x_aac) {
        return true;
    }
    let x_wav = ['w', 'a', 'v'];
    assert(x_wav@ =~= seq!['w', 'a', 'v']);
    if chars_eq_ignore_ascii_case(e, &x_wav) {
        return true;
    }
    let x_flac = ['f', 'l', 'a', 'c'];
    assert(x_flac@ =~= seq!['f', 'l', 'a', 'c']);
    if chars_eq_ignore_ascii_case(e, &x_flac) {
        return true;
    }
    let x_ogg = ['o', 'g', 'g'];
    assert(x_ogg@ =~= seq!['o', 'g', 'g']);
    if chars_eq_ignore_ascii_case(e, &x_ogg) {
        return true;
    }
    let x_oga = ['o', 'g', 'a'];
    assert(x_oga@ =~= seq!['o', 'g', 'a']);
    if chars_eq_ignore_ascii_case(e, &x_oga) {
        return true;
    }
    let x_opus = ['o', 'p', 'u', 's'];
    assert(x_opus@ =~= seq!['o', 'p', 'u', 's']);
    if chars_eq_ignore_ascii_case(e, &x_opus) {
        return true;
    }
    let x_wma = ['w', 'm', 'a'];
    assert(x_wma@ =~= seq!['w', 'm', 'a']);
    if chars_eq_ignore_ascii_case(e, &x_wma) {
        return true;
    }
    let x_ape = ['a', 'p', 'e'];
    assert(x_ape@ =~= seq!['a', 'p', 'e']);
    if chars_eq_ignore_ascii_case(e, &x_ape) {
        return true;
    }
    let x_aiff = ['a', 'i', 'f', 'f'];
    assert(x_aiff@ =~= seq!['a', 'i', 'f', 'f']);
    if chars_eq_ignore_ascii_case(e, &x_aiff) {
        return true;
    }
    let x_aif = ['a', 'i', 'f'];
    assert(x_aif@ =~= seq!['a', 'i', 'f']);
    if chars_eq_ignore_ascii_case(e, &x_aif) {
        return true;
    }
    let x_wv = ['w', 'v'];
    assert(x_wv@ =~= seq!['w', 'v']);
    if chars_eq_ignore_ascii_case(e, &x_wv) {
        return true;
    }
    let x_alac = ['a', 'l', 'a', 'c'];
    assert(x_alac@ =~= seq!['a', 'l', 'a', 'c']);
    if chars_eq_ignore_ascii_case(e, &x_alac) {
        return true;
    }
    false
}

/// Whether `path` has one of the audio extensions that normalization handles.
pub fn is_audio(path: &str) -> (r: bool)
    ensures
        r == is_audio_path(path@),
{
    let p = chars_of(path);
    match extension(p.as_slice()) {
        Some(e) => audio_ext(e.as_slice()),
        None => false,
    }
}

/// Whether `path` has the extension `mp3` (any case).
pub fn is_mp3(path: &str) -> (r: bool)
    ensures
        r == is_mp3_path(path@),
{
    let p = chars_of(path);
    match extension(p.as_slice()) {
        Some(e) => {
            let mp3 = ['m', 'p', '3'];
            assert(mp3@ =~= seq!['m', 'p', '3']);
            chars_eq_ignore_ascii_case(e.as_slice(), &mp3)
        },
        None => false,
    }
}

// ── filename stems ──────────────────────────────────────────────────────

/// Characters a stem may keep: ASCII letters and digits, space, `-`, `_`, `.`.
pub open spec fn is_stem_char(c: char) -> bool {
    is_ascii_alphanumeric(c) || c == ' ' || c == '-' || c == '_' || c == '.'
}

/// Every character outside the stem set becomes `-`.
pub open spec fn replace_unsafe(s: Seq<char>) -> Seq<char> {
    s.map_values(|c: char| if is_stem_char(c) { c } else { '-' })
}

/// A `-` that directly follows a `-` is dropped.
pub open spec fn collapse_dashes(s: Seq<char>) -> Seq<char>
    decreases s.len(),
{
    if s.len() == 0 {
        s
    } else if s.len() >= 2 && s.last() == '-' && s[s.len() - 2] == '-' {
        collapse_dashes(s.drop_last())
    } else {
        collapse_dashes(s.drop_last()).push(s.last())
    }
}

/// At most the first `STEM_CAP` characters.
pub open spec fn cap_stem(s: Seq<char>) -> Seq<char> {
    if s.len() <= STEM_CAP {
        s
    } else {
        s.take(STEM_CAP as int)
    }
}

pub open spec fn audio_word() -> Seq<char> {
    seq!['a', 'u', 'd', 'i', 'o']
}

/// The stem the watch is given for `raw`: unsafe characters become `-`,
/// runs of `-` collapse to one, `-`/space/`.` are trimmed from both ends,
/// the rest is cut to 56 characters, and an empty result becomes `audio`.
pub open spec fn sanitized_stem(raw: Seq<char>) -> Seq<char> {
    let t = cap_stem(trim_set(collapse_dashes(replace_unsafe(raw)), TrimSet::StemEdge));
    if t.len() == 0 {
        audio_word()
    } else {
        t
    }
}

fn is_stem_safe(c: char) -> (r: bool)
    ensures
        r == is_stem_char(c),
{
    is_alphanumeric_ascii(c) || c == ' ' || c == '-' || c == '_' || c == '.'
}

fn audio_chars() -> (r: Vec<char>)
    ensures
        r@ == audio_word(),
{
    let mut r: Vec<char> = Vec::new();
    r.push('a');
    r.push('u');
    r.push('d');
    r.push('i');
    r.push('o');
    assert(r@ =~= audio_word());
    r
}

/// The characters of `sanitized_stem(raw)`.
pub fn sanitize_stem_chars(raw: &[char]) -> (r: Vec<char>)
    ensures
        r@ == sanitized_stem(raw@),
{
    // Replace unsafe characters.
    let mut replaced: Vec<char> = Vec::new();
    let mut i: usize = 0;
    while i < raw.len()
        invariant
            i <= raw@.len(),
            replaced@ == replace_unsafe(raw@.take(i as int)),
        decreases raw@.len() - i,
    {
        let c = raw[i];
        replaced.push(if is_stem_safe(c) { c } else { '-' });
        assert(replace_unsafe(raw@.take(i + 1)) =~= replace_unsafe(raw@.take(i as int)).push(
            if is_stem_char(c) { c } else { '-' },
        ));
        i += 1;
    }
    assert(raw@.take(raw@.len() as int) =~= raw@);
    // Collapse runs of dashes.
    let mut collapsed: Vec<char> = Vec::new();
    let mut j: usize = 0;
    while j < replaced.len()
        invariant
            j <= replaced@.len(),
            collapsed@ == collapse_dashes(replaced@.take(j as int)),
        decreases replaced@.len() - j,
    {
        let c = replaced[j];
        assert(replaced@.take(j + 1).drop_last() =~= replaced@.take(j as int));
        if !(c == '-' && j > 0 && replaced[j - 1] == '-') {
            collapsed.push(c);
        }
        j += 1;
    }
    assert(replaced@.take(replaced@.len() as int) =~= replaced@);
    let trimmed = trim_chars(collapsed.as_slice(), TrimSet::StemEdge);
    let keep = if trimmed.len() <= STEM_CAP {
        trimmed.len()
    } else {
        STEM_CAP
    };
    let capped = sub_chars(trimmed.as_slice(), 0, keep);
    assert(capped@ =~= cap_stem(trimmed@));
    if capped.len() == 0 {
        audio_chars()
    } else {
        capped
    }
}

/// Truncate and sanitize a filename stem for the watch's `/Music` folder.
/// Keeps ASCII letters, digits, spaces, dashes, dots and underscores,
/// replaces anything else with `-`, collapses runs of `-`, trims `-`, space
/// and `.` from both ends, and keeps at most 56 characters. Never empty.
pub fn sanitize_filename_stem(raw: &str) -> (r: String)
    ensures
        r@ == sanitized_stem(raw@),
{
    let cs = chars_of(raw);
    let out = sanitize_stem_chars(cs.as_slice());
    string_of(out.as_slice())
}

// ── laws of the stem sanitizer ──────────────────────────────────────────

pub open spec fn all_stem_chars(s: Seq<char>) -> bool {
    forall|i: int| 0 <= i < s.len() ==> is_stem_char(#[trigger] s[i])
}

pub open spec fn no_double_dash(s: Seq<char>) -> bool {
    forall|i: int| 0 <= i < s.len() - 1 ==> !(#[trigger] s[i] == '-' && s[i + 1] == '-')
}

/// A stem the sanitizer leaves as it is.
pub open spec fn is_clean_stem(s: Seq<char>) -> bool {
    &&& 1 <= s.len() <= STEM_CAP
    &&& all_stem_chars(s)
    &&& no_double_dash(s)
    &&& !is_stem_edge(s[0])
    &&& !is_stem_edge(s.last())
}

proof fn lemma_collapse(s: Seq<char>)
    ensures
        collapse_dashes(s).len() <= s.len(),
        collapse_dashes(s).len() == 0 <==> s.len() == 0,
        s.len() > 0 ==> collapse_dashes(s).last() == s.last(),
        no_double_dash(collapse_dashes(s)),
        forall|i: int|
            0 <= i < collapse_dashes(s).len() ==> exists|j: int|
                0 <= j < s.len() && s[j] == #[trigger] collapse_dashes(s)[i],
    decreases s.len(),
{
    if s.len() > 0 {
        let p = s.drop_last();
        lemma_collapse(p);
        let cp = collapse_dashes(p);
        let cs = collapse_dashes(s);
        assert forall|i: int| 0 <= i < cs.len() implies exists|j: int|
            0 <= j < s.len() && s[j] == #[trigger] cs[i] by {
            if i < cp.len() {
                let j = choose|j: int| 0 <= j < p.len() && p[j] == cp[i];
                assert(s[j] == p[j]);
            } else {
                assert(s[s.len() - 1] == cs[i]);
            }
        }
        if !(s.len() >= 2 && s.last() == '-' && s[s.len() - 2] == '-') {
            assert forall|i: int| 0 <= i < cs.len() - 1 implies !(#[trigger] cs[i] == '-' && cs[i
                + 1] == '-') by {
                if i == cs.len() - 2 {
                    assert(cs[i] == cp.last());
                    assert(cp.last() == p.last());
                    assert(p.last() == s[s.len() - 2]);
                } else {
                    assert(cs[i] == cp[i] && cs[i + 1] == cp[i + 1]);
                }
            }
        }
    }
}

proof fn lemma_collapse_identity(s: Seq<char>)
    requires
        no_double_dash(s),
    ensures
        collapse_dashes(s) == s,
    decreases s.len(),
{
    if s.len() > 0 {
        let p = s.drop_last();
        assert(no_double_dash(p)) by {
            assert forall|i: int| 0 <= i < p.len() - 1 implies !(#[trigger] p[i] == '-' && p[i + 1]
                == '-') by {
                assert(p[i] == s[i] && p[i + 1] == s[i + 1]);
            }
        }
        lemma_collapse_identity(p);
        if s.len() >= 2 {
            assert(!(s[s.len() - 2] == '-' && s[s.len() - 1] == '-'));
        }
        assert(p.push(s.last()) =~= s);
    }
}

proof fn lemma_lead_zero(s: Seq<char>, set: TrimSet)
    requires
        s.len() > 0 ==> !in_trim_set(set, s[0]),
    ensures
        lead_count(s, set) == 0,
{
}

proof fn lemma_trail_zero(s: Seq<char>, set: TrimSet)
    requires
        s.len() > 0 ==> !in_trim_set(set, s.last()),
    ensures
        trail_count(s, set) == 0,
{
}

/// What the sanitizer returns is always a clean stem's material: between 1
/// and 56 characters, all from the safe set, with no `--` and no `-`, space
/// or `.` in front.
pub proof fn lemma_sanitized_stem_shape(raw: Seq<char>)
    ensures
        1 <= sanitized_stem(raw).len() <= STEM_CAP,
        all_stem_chars(sanitized_stem(raw)),
        no_double_dash(sanitized_stem(raw)),
        !is_stem_edge(sanitized_stem(raw)[0]),
{
    let r = replace_unsafe(raw);
    assert(all_stem_chars(r));
    let c = collapse_dashes(r);
    lemma_collapse(r);
    assert(all_stem_chars(c)) by {
        assert forall|i: int| 0 <= i < c.len() implies is_stem_char(#[trigger] c[i]) by {
            let j = choose|j: int| 0 <= j < r.len() && r[j] == c[i];
        }
    }
    lemma_trim_set(c, TrimSet::StemEdge);
    let t = trim_set(c, TrimSet::StemEdge);
    let k = cap_stem(t);
    let a = lead_count(c, TrimSet::StemEdge) as int;
    assert(k =~= c.subrange(a, a + k.len()));
    if k.len() == 0 {
        assert(sanitized_stem(raw) == audio_word());
    } else {
        assert forall|i: int| 0 <= i < k.len() implies is_stem_char(#[trigger] k[i]) by {
            assert(k[i] == c[a + i]);
        }
        assert forall|i: int| 0 <= i < k.len() - 1 implies !(#[trigger] k[i] == '-' && k[i + 1]
            == '-') by {
            assert(k[i] == c[a + i] && k[i + 1] == c[a + i + 1]);
        }
        assert(k[0] == c[a]);
    }
}

/// A stem that is already clean comes back unchanged.
pub proof fn lemma_sanitized_stem_fixpoint(s: Seq<char>)
    requires
        is_clean_stem(s),
    ensures
        sanitized_stem(s) == s,
{
    assert(replace_unsafe(s) =~= s);
    lemma_collapse_identity(s);
    lemma_lead_zero(s, TrimSet::StemEdge);
    assert(s.skip(0) =~= s);
    lemma_trail_zero(s, TrimSet::StemEdge);
    assert(s.take(s.len() as int) =~= s);
}

/// Sanitizing twice gives what sanitizing once gave, whenever the first
/// result does not end in `-`, space or `.` (the 56-character cut can leave
/// such an end, which a second pass then trims).
pub proof fn lemma_sanitized_stem_idempotent(raw: Seq<char>)
    requires
        !is_stem_edge(sanitized_stem(raw).last()),
    ensures
        sanitized_stem(sanitized_stem(raw)) == sanitized_stem(raw),
{
    lemma_sanitized_stem_shape(raw);
    lemma_sanitized_stem_fixpoint(sanitized_stem(raw));
}

// ── tag values ──────────────────────────────────────────────────────────

/// Tag characters kept: no control characters and none of ℗ © ™ ®.
pub open spec fn is_tag_char(c: char) -> bool {
    !is_unicode_control(c) && c != '\u{2117}' && c != '\u{00A9}' && c != '\u{2122}' && c
        != '\u{00AE}'
}

/// `s` with the characters outside `is_tag_char` removed.
pub open spec fn keep_tag_chars(s: Seq<char>) -> Seq<char>
    decreases s.len(),
{
    if s.len() == 0 {
        s
    } else if is_tag_char(s.last()) {
        keep_tag_chars(s.drop_last()).push(s.last())
    } else {
        keep_tag_chars(s.drop_last())
    }
}

/// A tag value as it is written into the MP3: filtered, then trimmed.
pub open spec fn sanitized_tag(v: Seq<char>) -> Seq<char> {
    trim_ws(keep_tag_chars(v))
}

fn tag_char_ok(c: char) -> (r: bool)
    ensures
        r == is_tag_char(c),
{
    !is_control(c) && c != '\u{2117}' && c != '\u{00A9}' && c != '\u{2122}' && c != '\u{00AE}'
}

/// The characters of `sanitized_tag(v)`.
pub fn sanitize_tag_chars(v: &[char]) -> (r: Vec<char>)
    ensures
        r@ == sanitized_tag(v@),
{
    let mut kept: Vec<char> = Vec::new();
    let mut i: usize = 0;
    while i < v.len()
        invariant
            i <= v@.len(),
            kept@ == keep_tag_chars(v@.take(i as int)),
        decreases v@.len() - i,
    {
        let c = v[i];
        assert(v@.take(i + 1).drop_last() =~= v@.take(i as int));
        if tag_char_ok(c) {
            kept.push(c);
        }
        i += 1;
    }
    assert(v@.take(v@.len() as int) =~= v@);
    trim_chars(kept.as_slice(), TrimSet::Whitespace)
}

/// Strip control characters and ℗ © ™ ®, which have tripped the watch's tag
/// parser, then trim surrounding whitespace. Accented letters are kept.
pub fn sanitize_tag_value(v: &str) -> (r: String)
    ensures
        r@ == sanitized_tag(v@),
{
    let cs = chars_of(v);
    let out = sanitize_tag_chars(cs.as_slice());
    string_of(out.as_slice())
}

} // verus!

verus! {

// ── the tag set written into normalized MP3s ────────────────────────────

/// `ffprobe -show_entries format_tags -of default=noprint_wrappers=1` prints
/// one `TAG:<key>=<value>` line per tag.
pub open spec fn tag_line_prefix() -> Seq<char> {
    seq!['T', 'A', 'G', ':']
}

/// The position of the first `c` in `s`, if any.
pub open spec fn first_index(s: Seq<char>, c: char) -> Option<int> {
    if exists|i: int| 0 <= i < s.len() && #[trigger] s[i] == c && (forall|j: int| 0 <= j < i ==> s[j] != c) {
        Some(choose|i: int| 0 <= i < s.len() && #[trigger] s[i] == c && (forall|j: int| 0 <= j < i ==> s[j] != c))
    } else {
        None
    }
}

/// The tag a probe line holds: the line, trimmed, starts with `TAG:`, and
/// the rest splits at its first `=` into the key (in ASCII lowercase) and
/// the value.
pub open spec fn probe_entry(line: Seq<char>) -> Option<(Seq<char>, Seq<char>)> {
    let t = trim_ws(line);
    if has_prefix(t, tag_line_prefix()) {
        let rest = t.skip(4);
        match first_index(rest, '=') {
            Some(i) => Some((lower_seq(rest.take(i)), rest.skip(i + 1))),
            None => None,
        }
    } else {
        None
    }
}

/// The tags of the probe lines, in order.
pub open spec fn probe_entries(lines: Seq<Seq<char>>) -> Seq<(Seq<char>, Seq<char>)>
    decreases lines.len(),
{
    if lines.len() == 0 {
        Seq::empty()
    } else {
        let before = probe_entries(lines.drop_last());
        match probe_entry(lines.last()) {
            Some(e) => before.push(e),
            None => before,
        }
    }
}

/// The value of `key` among the tags; when a key repeats, the last wins.
pub open spec fn probe_value(entries: Seq<(Seq<char>, Seq<char>)>, key: Seq<char>) -> Option<
    Seq<char>,
>
    decreases entries.len(),
{
    if entries.len() == 0 {
        None
    } else if entries.last().0 == key {
        Some(entries.last().1)
    } else {
        probe_value(entries.drop_last(), key)
    }
}

pub open spec fn key_title() -> Seq<char> {
    seq!['t', 'i', 't', 'l', 'e']
}

pub open spec fn key_artist() -> Seq<char> {
    seq!['a', 'r', 't', 'i', 's', 't']
}

pub open spec fn key_album_artist() -> Seq<char> {
    seq!['a', 'l', 'b', 'u', 'm', '_', 'a', 'r', 't', 'i', 's', 't']
}

pub open spec fn key_albumartist() -> Seq<char> {
    seq!['a', 'l', 'b', 'u', 'm', 'a', 'r', 't', 'i', 's', 't']
}

pub open spec fn key_album() -> Seq<char> {
    seq!['a', 'l', 'b', 'u', 'm']
}

pub open spec fn key_track() -> Seq<char> {
    seq!['t', 'r', 'a', 'c', 'k']
}

pub open spec fn key_date() -> Seq<char> {
    seq!['d', 'a', 't', 'e']
}

pub open spec fn key_genre() -> Seq<char> {
    seq!['g', 'e', 'n', 'r', 'e']
}

/// The artist written: `album_artist`, else `albumartist`, else `artist`.
/// Garmin's library groups by artist and album, so the album-wide credit
/// keeps one album together where per-track credits differ.
pub open spec fn resolved_artist(entries: Seq<(Seq<char>, Seq<char>)>) -> Option<Seq<char>> {
    match probe_value(entries, key_album_artist()) {
        Some(v) => Some(v),
        None => match probe_value(entries, key_albumartist()) {
            Some(v) => Some(v),
            None => probe_value(entries, key_artist()),
        },
    }
}

/// The allowlisted fields, in the order they are written, with the value
/// found for each.
pub open spec fn allowlisted(entries: Seq<(Seq<char>, Seq<char>)>) -> Seq<
    (Seq<char>, Option<Seq<char>>),
> {
    seq![
        (key_title(), probe_value(entries, key_title())),
        (key_artist(), resolved_artist(entries)),
        (key_album_artist(), resolved_artist(entries)),
        (key_album(), probe_value(entries, key_album())),
        (key_track(), probe_value(entries, key_track())),
        (key_date(), probe_value(entries, key_date())),
        (key_genre(), probe_value(entries, key_genre())),
    ]
}

/// The fields that have a value which is not empty once sanitized, with
/// that sanitized value.
pub open spec fn kept_fields(fields: Seq<(Seq<char>, Option<Seq<char>>)>) -> Seq<
    (Seq<char>, Seq<char>),
>
    decreases fields.len(),
{
    if fields.len() == 0 {
        Seq::empty()
    } else {
        let before = kept_fields(fields.drop_last());
        match fields.last().1 {
            Some(v) => if sanitized_tag(v).len() > 0 {
                before.push((fields.last().0, sanitized_tag(v)))
            } else {
                before
            },
            None => before,
        }
    }
}

/// The tags written into a normalized MP3, from the text ffprobe printed.
pub open spec fn safe_tags_of(text: Seq<char>) -> Seq<(Seq<char>, Seq<char>)> {
    kept_fields(allowlisted(probe_entries(split_on(text, '\n'))))
}

/// One `key=value` metadata tag for ffmpeg.
#[derive(Debug)]
pub struct MetaTag {
    pub key: String,
    pub value: String,
}

impl View for MetaTag {
    type V = (Seq<char>, Seq<char>);

    open spec fn view(&self) -> (Seq<char>, Seq<char>) {
        (self.key@, self.value@)
    }
}

pub open spec fn meta_view(t: Seq<MetaTag>) -> Seq<(Seq<char>, Seq<char>)> {
    t.map_values(|m: MetaTag| m@)
}

pub open spec fn pairs_view(p: Seq<(Vec<char>, Vec<char>)>) -> Seq<(Seq<char>, Seq<char>)> {
    p.map_values(|e: (Vec<char>, Vec<char>)| (e.0@, e.1@))
}

fn find_char(s: &[char], c: char) -> (r: Option<usize>)
    ensures
        match r {
            Some(i) => first_index(s@, c) == Some(i as int),
            None => first_index(s@, c) is None,
        },
{
    let mut i: usize = 0;
    while i < s.len()
        invariant
            i <= s@.len(),
            forall|j: int| 0 <= j < i ==> s@[j] != c,
        decreases s@.len() - i,
    {
        if s[i] == c {
            let ghost k = choose|k: int| 0 <= k < s@.len() && #[trigger] s@[k] == c && (forall|j: int| 0 <= j < k ==> s@[j] != c);
            assert(s@[i as int] == c);
            assert(k == i);
            return Some(i);
        }
        i += 1;
    }
    None
}

fn parse_probe_line(line: &[char]) -> (r: Option<(Vec<char>, Vec<char>)>)
    ensures
        match r {
            Some(e) => probe_entry(line@) == Some((e.0@, e.1@)),
            None => probe_entry(line@) is None,
        },
{
    let t = trim_chars(line, TrimSet::Whitespace);
    let prefix = ['T', 'A', 'G', ':'];
    assert(prefix@ =~= tag_line_prefix());
    if !chars_starts_with(t.as_slice(), &prefix) {
        return None;
    }
    let rest = sub_chars(t.as_slice(), 4, t.len());
    assert(rest@ =~= t@.skip(4));
    match find_char(rest.as_slice(), '=') {
        Some(i) => {
            let key_raw = sub_chars(rest.as_slice(), 0, i);
            let key = lower_chars(key_raw.as_slice());
            let value = sub_chars(rest.as_slice(), i + 1, rest.len());
            assert(key_raw@ =~= rest@.take(i as int));
            assert(value@ =~= rest@.skip(i + 1));
            Some((key, value))
        },
        None => None,
    }
}

fn lookup(entries: &Vec<(Vec<char>, Vec<char>)>, key: &[char]) -> (r: Option<Vec<char>>)
    ensures
        view_opt(r) == probe_value(pairs_view(entries@), key@),
{
    let ghost pv = pairs_view(entries@);
    assert(pv.take(pv.len() as int) =~= pv);
    let mut i = entries.len();
    while i > 0
        invariant
            i <= entries@.len(),
            pv == pairs_view(entries@),
            probe_value(pv, key@) == probe_value(pv.take(i as int), key@),
        decreases i,
    {
        let k = i - 1;
        assert(pv.take(i as int).drop_last() =~= pv.take(k as int));
        assert(pv.take(i as int).last() == pv[k as int]);
        if chars_eq(entries[k].0.as_slice(), key) {
            return Some(sub_chars(entries[k].1.as_slice(), 0, entries[k].1.len()));
        }
        i = k;
    }
    None
}

fn push_field(
    out: &mut Vec<MetaTag>,
    key: &[char],
    value: &Option<Vec<char>>,
    Ghost(done): Ghost<Seq<(Seq<char>, Option<Seq<char>>)>>,
)
    requires
        meta_view(old(out)@) == kept_fields(done),
    ensures
        meta_view(final(out)@) == kept_fields(done.push((key@, view_opt(*value)))),
{
    proof {
        lemma_kept_fields_push(done, (key@, view_opt(*value)));
    }
    match value {
        Some(v) => {
            let s = sanitize_tag_chars(v.as_slice());
            if s.len() > 0 {
                let ghost before = meta_view(out@);
                let tag = MetaTag { key: string_of(key), value: string_of(s.as_slice()) };
                out.push(tag);
                assert(meta_view(out@) =~= before.push((key@, sanitized_tag(v@))));
            }
        },
        None => {},
    }
}

proof fn lemma_kept_fields_push(
    fields: Seq<(Seq<char>, Option<Seq<char>>)>,
    f: (Seq<char>, Option<Seq<char>>),
)
    ensures
        kept_fields(fields.push(f)) == match f.1 {
            Some(v) => if sanitized_tag(v).len() > 0 {
                kept_fields(fields).push((f.0, sanitized_tag(v)))
            } else {
                kept_fields(fields)
            },
            None => kept_fields(fields),
        },
{
    assert(fields.push(f).drop_last() =~= fields);
}

fn probe_text_entries(text: &str) -> (r: Vec<(Vec<char>, Vec<char>)>)
    ensures
        pairs_view(r@) == probe_entries(split_on(text@, '\n')),
{
    let cs = chars_of(text);
    let lines = split_chars(cs.as_slice(), '\n');
    let ghost lv = views(lines@);
    let mut entries: Vec<(Vec<char>, Vec<char>)> = Vec::new();
    let mut i: usize = 0;
    while i < lines.len()
        invariant
            lv == views(lines@),
            i <= lines@.len(),
            pairs_view(entries@) == probe_entries(lv.take(i as int)),
        decreases lines@.len() - i,
    {
        assert(lv.take(i + 1).drop_last() =~= lv.take(i as int));
        assert(lv[i as int] == lines@[i as int]@);
        let ghost before = pairs_view(entries@);
        match parse_probe_line(lines[i].as_slice()) {
            Some(e) => {
                entries.push(e);
                assert(pairs_view(entries@) =~= before.push((e.0@, e.1@)));
            },
            None => {},
        }
        i += 1;
    }
    assert(lv.take(lines@.len() as int) =~= lv);
    entries
}

fn allowlisted_tags(entries: &Vec<(Vec<char>, Vec<char>)>) -> (r: Vec<MetaTag>)
    ensures
        meta_view(r@) == kept_fields(allowlisted(pairs_view(entries@))),
{
    let ghost ev = pairs_view(entries@);
    let k_title = ['t', 'i', 't', 'l', 'e'];
    let k_artist = ['a', 'r', 't', 'i', 's', 't'];
    let k_album_artist = ['a', 'l', 'b', 'u', 'm', '_', 'a', 'r', 't', 'i', 's', 't'];
    let k_albumartist = ['a', 'l', 'b', 'u', 'm', 'a', 'r', 't', 'i', 's', 't'];
    let k_album = ['a', 'l', 'b', 'u', 'm'];
    let k_track = ['t', 'r', 'a', 'c', 'k'];
    let k_date = ['d', 'a', 't', 'e'];
    let k_genre = ['g', 'e', 'n', 'r', 'e'];
    assert(k_title@ =~= key_title());
    assert(k_artist@ =~= key_artist());
    assert(k_album_artist@ =~= key_album_artist());
    assert(k_albumartist@ =~= key_albumartist());
    assert(k_album@ =~= key_album());
    assert(k_track@ =~= key_track());
    assert(k_date@ =~= key_date());
    assert(k_genre@ =~= key_genre());
    let artist = match lookup(entries, &k_album_artist) {
        Some(v) => Some(v),
        None => match lookup(entries, &k_albumartist) {
            Some(v) => Some(v),
            None => lookup(entries, &k_artist),
        },
    };
    assert(view_opt(artist) == resolved_artist(ev));
    let ghost fields = allowlisted(ev);
    let mut out: Vec<MetaTag> = Vec::new();
    assert(meta_view(out@) =~= kept_fields(fields.take(0)));
    let title = lookup(entries, &k_title);
    push_field(&mut out, &k_title, &title, Ghost(fields.take(0)));
    assert(fields.take(0).push(fields[0]) =~= fields.take(1));
    push_field(&mut out, &k_artist, &artist, Ghost(fields.take(1)));
    assert(fields.take(1).push(fields[1]) =~= fields.take(2));
    push_field(&mut out, &k_album_artist, &artist, Ghost(fields.take(2)));
    assert(fields.take(2).push(fields[2]) =~= fields.take(3));
    let album = lookup(entries, &k_album);
    push_field(&mut out, &k_album, &album, Ghost(fields.take(3)));
    assert(fields.take(3).push(fields[3]) =~= fields.take(4));
    let track = lookup(entries, &k_track);
    push_field(&mut out, &k_track, &track, Ghost(fields.take(4)));
    assert(fields.take(4).push(fields[4]) =~= fields.take(5));
    let date = lookup(entries, &k_date);
    push_field(&mut out, &k_date, &date, Ghost(fields.take(5)));
    assert(fields.take(5).push(fields[5]) =~= fields.take(6));
    let genre = lookup(entries, &k_genre);
    push_field(&mut out, &k_genre, &genre, Ghost(fields.take(6)));
    assert(fields.take(6).push(fields[6]) =~= fields);
    out
}

/// The tags to write into the normalized MP3, from what ffprobe printed
/// (`TAG:<key>=<value>` lines; other lines are ignored). Keys are matched in
/// ASCII lowercase, a later line of the same key wins, and only title,
/// artist, album_artist, album, track, date and genre are written; the
/// artist written (also as album_artist) is album_artist, else albumartist,
/// else artist. Values are sanitized; fields left empty are not written.
pub fn safe_tags_from_text(text: &str) -> (r: Vec<MetaTag>)
    ensures
        meta_view(r@) == safe_tags_of(text@),
{
    let entries = probe_text_entries(text);
    allowlisted_tags(&entries)
}

/// The tags to write, from ffprobe's raw standard output (read as UTF-8,
/// invalid sequences becoming U+FFFD).
pub fn safe_tags_from_probe(stdout: &[u8]) -> (r: Vec<MetaTag>)
    ensures
        meta_view(r@) == safe_tags_of(utf8_lossy(stdout@)),
{
    let text = from_utf8_lossy(stdout);
    safe_tags_from_text(text.as_str())
}

} // verus!

verus! {

// ── the ffmpeg invocation ───────────────────────────────────────────────

/// The name a normalized file is given on the watch: the source's stem,
/// sanitized (`audio` where the source has none), with `.mp3`.
pub open spec fn normalized_name(src: Seq<char>) -> Seq<char> {
    sanitized_stem(
        match file_stem_of(src) {
            Some(s) => s,
            None => audio_word(),
        },
    ) + seq!['.', 'm', 'p', '3']
}

/// The name a normalized copy of `src` is uploaded under.
pub fn normalized_mp3_name(src: &str) -> (r: String)
    ensures
        r@ == normalized_name(src@),
{
    let p = chars_of(src);
    let stem = match file_stem(p.as_slice()) {
        Some(s) => s,
        None => audio_chars(),
    };
    let mut name = sanitize_stem_chars(stem.as_slice());
    push_all(&mut name, &['.', 'm', 'p', '3']);
    assert(name@ =~= normalized_name(src@));
    string_of(name.as_slice())
}

/// The `-metadata key=value` arguments for the tags, in order.
pub open spec fn metadata_args(tags: Seq<(Seq<char>, Seq<char>)>) -> Seq<Seq<char>>
    decreases tags.len(),
{
    if tags.len() == 0 {
        Seq::empty()
    } else {
        metadata_args(tags.drop_last()) + seq![
            "-metadata"@,
            tags.last().0 + seq!['='] + tags.last().1,
        ]
    }
}

/// The audio options: an MP3 source keeps its bitstream (`-c:a copy`, tags
/// rewritten only); anything else becomes CBR 192 kbps, 44.1 kHz stereo MP3.
pub open spec fn codec_args(mp3_source: bool) -> Seq<Seq<char>> {
    if mp3_source {
        seq!["-c:a"@, "copy"@]
    } else {
        seq!["-ac"@, "2"@, "-ar"@, "44100"@, "-codec:a"@, "libmp3lame"@, "-b:a"@, "192k"@]
    }
}

/// The arguments ffmpeg is run with to normalize `src` into `out`: overwrite,
/// quiet, the input, no video (embedded art), the audio options, every tag
/// of the source dropped (`-map_metadata -1`) and an ID3v2.3 tag (no ID3v1)
/// written from `tags` alone.
pub open spec fn ffmpeg_args_of(src: Seq<char>, tags: Seq<(Seq<char>, Seq<char>)>, out: Seq<char>) -> Seq<
    Seq<char>,
> {
    seq!["-y"@, "-hide_banner"@, "-loglevel"@, "error"@, "-i"@, src, "-vn"@] + codec_args(
        is_mp3_path(src),
    ) + seq!["-map_metadata"@, "-1"@, "-id3v2_version"@, "3"@, "-write_id3v1"@, "0"@]
        + metadata_args(tags) + seq![out]
}

pub open spec fn args_view(v: Seq<String>) -> Seq<Seq<char>> {
    v.map_values(|s: String| s@)
}

fn push_arg(args: &mut Vec<String>, a: &str)
    ensures
        args_view(final(args)@) == args_view(old(args)@).push(a@),
{
    let ghost before = args_view(args@);
    args.push(a.to_string());
    assert(args_view(args@) =~= before.push(a@));
}

/// The ffmpeg command line (after `ffmpeg`) that normalizes `src` into the
/// file `out`, writing `tags` as its only metadata.
pub fn ffmpeg_args(src: &str, tags: &[MetaTag], out: &str) -> (r: Vec<String>)
    ensures
        args_view(r@) == ffmpeg_args_of(src@, meta_view(tags@), out@),
{
    let mut args: Vec<String> = Vec::new();
    push_arg(&mut args, "-y");
    push_arg(&mut args, "-hide_banner");
    push_arg(&mut args, "-loglevel");
    push_arg(&mut args, "error");
    push_arg(&mut args, "-i");
    push_arg(&mut args, src);
    push_arg(&mut args, "-vn");
    let ghost head = args_view(args@);
    assert(head =~= seq!["-y"@, "-hide_banner"@, "-loglevel"@, "error"@, "-i"@, src@, "-vn"@]);
    if is_mp3(src) {
        push_arg(&mut args, "-c:a");
        push_arg(&mut args, "copy");
    } else {
        push_arg(&mut args, "-ac");
        push_arg(&mut args, "2");
        push_arg(&mut args, "-ar");
        push_arg(&mut args, "44100");
        push_arg(&mut args, "-codec:a");
        push_arg(&mut args, "libmp3lame");
        push_arg(&mut args, "-b:a");
        push_arg(&mut args, "192k");
    }
    assert(args_view(args@) =~= head + codec_args(is_mp3_path(src@)));
    let ghost with_codec = args_view(args@);
    push_arg(&mut args, "-map_metadata");
    push_arg(&mut args, "-1");
    push_arg(&mut args, "-id3v2_version");
    push_arg(&mut args, "3");
    push_arg(&mut args, "-write_id3v1");
    push_arg(&mut args, "0");
    let ghost fixed = with_codec + seq![
        "-map_metadata"@,
        "-1"@,
        "-id3v2_version"@,
        "3"@,
        "-write_id3v1"@,
        "0"@,
    ];
    assert(args_view(args@) =~= fixed);
    let ghost tv = meta_view(tags@);
    let mut i: usize = 0;
    while i < tags.len()
        invariant
            i <= tags@.len(),
            tv == meta_view(tags@),
            args_view(args@) == fixed + metadata_args(tv.take(i as int)),
        decreases tags@.len() - i,
    {
        let mut kv = chars_of(tags[i].key.as_str());
        kv.push('=');
        let value = chars_of(tags[i].value.as_str());
        push_all(&mut kv, value.as_slice());
        let pair = string_of(kv.as_slice());
        assert(tv[i as int] == tags@[i as int]@);
        assert(pair@ =~= tv[i as int].0 + seq!['='] + tv[i as int].1);
        let ghost before = args_view(args@);
        push_arg(&mut args, "-metadata");
        let ghost mid = args_view(args@);
        args.push(pair);
        assert(args_view(args@) =~= mid.push(tv[i as int].0 + seq!['='] + tv[i as int].1));
        assert(tv.take(i + 1).drop_last() =~= tv.take(i as int));
        assert(tv.take(i + 1).last() == tv[i as int]);
        assert(args_view(args@) =~= before + seq![
            "-metadata"@,
            tv[i as int].0 + seq!['='] + tv[i as int].1,
        ]);
        i += 1;
    }
    assert(tv.take(tags@.len() as int) =~= tv);
    let ghost body = args_view(args@);
    args.push(out.to_string());
    assert(args_view(args@) =~= body.push(out@));
    args
}

} // verus!

verus! {

/// A normalized MP3 waiting for upload: the temporary file ffmpeg wrote
/// and the name it goes up under. The caller removes the file once the
/// upload is over.
#[derive(Debug)]
pub struct Transcoded {
    pub path: String,
    pub mp3_name: String,
}

/// The name of the temporary file a normalization writes:
/// `pelican-<pid>-<nanos>.mp3`, unique per process and instant.
pub open spec fn temp_file_name_of(pid: u32, nanos: u128) -> Seq<char> {
    seq!['p', 'e', 'l', 'i', 'c', 'a', 'n', '-'] + decimal(pid as nat) + seq!['-'] + decimal(
        nanos as nat,
    ) + seq!['.', 'm', 'p', '3']
}

/// `pelican-<pid>-<nanos>.mp3`.
pub fn temp_file_name(pid: u32, nanos: u128) -> (r: String)
    ensures
        r@ == temp_file_name_of(pid, nanos),
{
    let mut cs = vec!['p', 'e', 'l', 'i', 'c', 'a', 'n', '-'];
    let p = decimal_chars(pid as u128);
    push_all(&mut cs, p.as_slice());
    cs.push('-');
    let n = decimal_chars(nanos);
    push_all(&mut cs, n.as_slice());
    push_all(&mut cs, &['.', 'm', 'p', '3']);
    assert(cs@ =~= temp_file_name_of(pid, nanos));
    string_of(cs.as_slice())
}

} // verus!

verus! {

// ── laws of normalization ───────────────────────────────────────────────

/// A normalized file's name always fits the watch's limit: at most 60
/// characters (a stem of at most 56, then `.mp3`), all ASCII-safe.
pub proof fn lemma_normalized_name_fits(src: Seq<char>)
    ensures
        normalized_name(src).len() <= 60,
        forall|i: int|
            0 <= i < normalized_name(src).len() ==> is_stem_char(#[trigger] normalized_name(src)[i]),
{
    let raw = match file_stem_of(src) {
        Some(s) => s,
        None => audio_word(),
    };
    lemma_sanitized_stem_shape(raw);
    let stem = sanitized_stem(raw);
    let n = normalized_name(src);
    assert forall|i: int| 0 <= i < n.len() implies is_stem_char(#[trigger] n[i]) by {
        if i < stem.len() {
            assert(n[i] == stem[i]);
        }
    }
}

/// The stem cleaned of what the watch cannot take: unsafe characters
/// replaced by `-`, runs of `-` collapsed, `-`/space/`.` trimmed from both
/// ends (before any cut to length).
pub open spec fn cleaned_stem(raw: Seq<char>) -> Seq<char> {
    trim_set(collapse_dashes(replace_unsafe(raw)), TrimSet::StemEdge)
}

/// A long name is cut at its end: the stem is the first 56 characters of
/// the cleaned name when that is longer, the cleaned name itself when it is
/// not empty and fits, and `audio` when nothing is left.
pub proof fn lemma_sanitized_stem_keeps_beginning(raw: Seq<char>)
    ensures
        cleaned_stem(raw).len() > 56 ==> sanitized_stem(raw).len() == 56
            && sanitized_stem(raw) =~= cleaned_stem(raw).subrange(0, 56),
        0 < cleaned_stem(raw).len() <= 56 ==> sanitized_stem(raw) == cleaned_stem(raw),
        cleaned_stem(raw).len() == 0 ==> sanitized_stem(raw) == seq!['a', 'u', 'd', 'i', 'o'],
{
}

/// `args[at]` and `args[at + 1]` write the tag `t`: `-metadata` and
/// `key=value`.
pub open spec fn writes_tag(args: Seq<Seq<char>>, at: int, t: (Seq<char>, Seq<char>)) -> bool {
    &&& args[at] == seq!['-', 'm', 'e', 't', 'a', 'd', 'a', 't', 'a']
    &&& args[at + 1] == t.0 + seq!['='] + t.1
}

/// The `-metadata` arguments hold one `-metadata`, `key=value` pair per
/// tag, in the order of the tags, and nothing else.
proof fn lemma_metadata_args_pairs(tags: Seq<(Seq<char>, Seq<char>)>)
    ensures
        metadata_args(tags).len() == 2 * tags.len(),
        forall|i: int| 0 <= i < tags.len() ==> writes_tag(metadata_args(tags), 2 * i, #[trigger] tags[i]),
    decreases tags.len(),
{
    reveal_strlit("-metadata");
    assert("-metadata"@ =~= seq!['-', 'm', 'e', 't', 'a', 'd', 'a', 't', 'a']);
    if tags.len() > 0 {
        let init = tags.drop_last();
        lemma_metadata_args_pairs(init);
        let m = metadata_args(tags);
        let mi = metadata_args(init);
        let tail = seq!["-metadata"@, tags.last().0 + seq!['='] + tags.last().1];
        assert(m == mi + tail);
        assert forall|i: int| 0 <= i < tags.len() implies writes_tag(m, 2 * i, #[trigger] tags[i]) by {
            if i < init.len() {
                assert(init[i] == tags[i]);
                assert(writes_tag(mi, 2 * i, init[i]));
                assert(m[2 * i] == mi[2 * i]);
                assert(m[2 * i + 1] == mi[2 * i + 1]);
            } else {
                assert(tags[i] == tags.last());
                assert(m[2 * i] == tail[0]);
                assert(m[2 * i + 1] == tail[1]);
            }
        }
    }
}

/// Every tag is written: after the fixed options (15 of them for an MP3
/// source, which is copied, 21 for one that is transcoded) come, for each
/// tag in order, `-metadata` and `key=value`, one pair per tag, and last
/// the output file.
pub proof fn lemma_ffmpeg_args_write_every_tag(
    src: Seq<char>,
    tags: Seq<(Seq<char>, Seq<char>)>,
    out: Seq<char>,
)
    ensures
        ({
            let a = ffmpeg_args_of(src, tags, out);
            let p: int = if is_mp3_path(src) { 15 } else { 21 };
            &&& a.len() == p + 2 * tags.len() + 1
            &&& forall|i: int| 0 <= i < tags.len() ==> writes_tag(a, p + 2 * i, #[trigger] tags[i])
            &&& a[a.len() - 1] == out
        }),
{
    lemma_metadata_args_pairs(tags);
    let a = ffmpeg_args_of(src, tags, out);
    let head = seq!["-y"@, "-hide_banner"@, "-loglevel"@, "error"@, "-i"@, src, "-vn"@]
        + codec_args(is_mp3_path(src)) + seq![
        "-map_metadata"@,
        "-1"@,
        "-id3v2_version"@,
        "3"@,
        "-write_id3v1"@,
        "0"@,
    ];
    let p: int = if is_mp3_path(src) { 15 } else { 21 };
    assert(head.len() == p);
    let m = metadata_args(tags);
    let hm = head + m;
    assert(a == hm + seq![out]);
    assert(a.len() == hm.len() + 1);
    assert(a[a.len() - 1] == out);
    assert forall|i: int| 0 <= i < tags.len() implies writes_tag(a, p + 2 * i, #[trigger] tags[i]) by {
        assert(writes_tag(m, 2 * i, tags[i]));
        assert(hm[p + 2 * i] == m[2 * i]);
        assert(hm[p + 2 * i + 1] == m[2 * i + 1]);
        assert(a[p + 2 * i] == hm[p + 2 * i]);
        assert(a[p + 2 * i + 1] == hm[p + 2 * i + 1]);
    }
}

/// One of the fields written into normalized MP3s.
pub open spec fn allowlisted_key(k: Seq<char>) -> bool {
    k == key_title() || k == key_artist() || k == key_album_artist() || k == key_album() || k
        == key_track() || k == key_date() || k == key_genre()
}

proof fn lemma_kept_fields_allowed(fields: Seq<(Seq<char>, Option<Seq<char>>)>)
    requires
        forall|j: int| 0 <= j < fields.len() ==> allowlisted_key(#[trigger] fields[j].0),
    ensures
        forall|i: int|
            0 <= i < kept_fields(fields).len() ==> allowlisted_key(
                #[trigger] kept_fields(fields)[i].0,
            ) && kept_fields(fields)[i].1.len() > 0,
    decreases fields.len(),
{
    if fields.len() > 0 {
        let init = fields.drop_last();
        assert forall|j: int| 0 <= j < init.len() implies allowlisted_key(#[trigger] init[j].0) by {
            assert(init[j] == fields[j]);
        }
        lemma_kept_fields_allowed(init);
        let k = kept_fields(fields);
        let ki = kept_fields(init);
        assert forall|i: int| 0 <= i < k.len() implies allowlisted_key(#[trigger] k[i].0)
            && k[i].1.len() > 0 by {
            if i < ki.len() {
                assert(k[i] == ki[i]);
            } else {
                assert(k[i].0 == fields[fields.len() - 1].0);
            }
        }
    }
}

/// Only the allowlisted fields are written, each with a value that is not
/// empty: title, artist, album_artist, album, track, date, genre.
pub proof fn lemma_safe_tags_allowlisted(text: Seq<char>)
    ensures
        forall|i: int|
            0 <= i < safe_tags_of(text).len() ==> allowlisted_key(#[trigger] safe_tags_of(text)[i].0)
                && safe_tags_of(text)[i].1.len() > 0,
{
    let fields = allowlisted(probe_entries(split_on(text, '\n')));
    assert forall|j: int| 0 <= j < fields.len() implies allowlisted_key(#[trigger] fields[j].0) by {}
    lemma_kept_fields_allowed(fields);
}

/// The place of a field in the allowlist, in the order fields are written
/// (7 for a key that is not allowlisted).
pub open spec fn allowlist_rank(k: Seq<char>) -> int {
    if k == key_title() {
        0
    } else if k == key_artist() {
        1
    } else if k == key_album_artist() {
        2
    } else if k == key_album() {
        3
    } else if k == key_track() {
        4
    } else if k == key_date() {
        5
    } else if k == key_genre() {
        6
    } else {
        7
    }
}

proof fn lemma_allowlist_ranks(entries: Seq<(Seq<char>, Seq<char>)>)
    ensures
        forall|j: int|
            0 <= j < allowlisted(entries).len() ==> allowlist_rank(
                #[trigger] allowlisted(entries)[j].0,
            ) == j,
{
    let f = allowlisted(entries);
    assert(key_artist() != key_title()) by {
        assert(key_artist().len() != key_title().len());
    }
    assert(key_album_artist().len() == 12);
    assert(key_album() != key_title()) by {
        assert(key_album()[0] != key_title()[0]);
    }
    assert(key_album() != key_artist()) by {
        assert(key_album().len() != key_artist().len());
    }
    assert(key_track() != key_title()) by {
        assert(key_track()[1] != key_title()[1]);
    }
    assert(key_track() != key_album()) by {
        assert(key_track()[0] != key_album()[0]);
    }
    assert(key_track() != key_artist()) by {
        assert(key_track().len() != key_artist().len());
    }
    assert(key_date().len() == 4);
    assert(key_genre() != key_title()) by {
        assert(key_genre()[0] != key_title()[0]);
    }
    assert(key_genre() != key_album()) by {
        assert(key_genre()[0] != key_album()[0]);
    }
    assert(key_genre() != key_track()) by {
        assert(key_genre()[0] != key_track()[0]);
    }
    assert(key_genre() != key_artist()) by {
        assert(key_genre().len() != key_artist().len());
    }
    assert(allowlist_rank(f[0].0) == 0);
    assert(allowlist_rank(f[1].0) == 1);
    assert(allowlist_rank(f[2].0) == 2);
    assert(allowlist_rank(f[3].0) == 3);
    assert(allowlist_rank(f[4].0) == 4);
    assert(allowlist_rank(f[5].0) == 5);
    assert(allowlist_rank(f[6].0) == 6);
}

proof fn lemma_kept_fields_ordered(fields: Seq<(Seq<char>, Option<Seq<char>>)>)
    requires
        forall|j: int| 0 <= j < fields.len() ==> allowlist_rank(#[trigger] fields[j].0) == j,
    ensures
        forall|i: int|
            0 <= i < kept_fields(fields).len() ==> allowlist_rank(
                #[trigger] kept_fields(fields)[i].0,
            ) < fields.len(),
        forall|i: int, j: int|
            0 <= i < j < kept_fields(fields).len() ==> allowlist_rank(
                #[trigger] kept_fields(fields)[i].0,
            ) < allowlist_rank(#[trigger] kept_fields(fields)[j].0),
    decreases fields.len(),
{
    if fields.len() > 0 {
        let init = fields.drop_last();
        assert forall|j: int| 0 <= j < init.len() implies allowlist_rank(#[trigger] init[j].0)
            == j by {
            assert(init[j] == fields[j]);
        }
        lemma_kept_fields_ordered(init);
        let k = kept_fields(fields);
        let ki = kept_fields(init);
        assert(allowlist_rank(fields[fields.len() - 1].0) == fields.len() - 1);
        assert forall|i: int| 0 <= i < k.len() implies allowlist_rank(#[trigger] k[i].0)
            < fields.len() by {
            if i < ki.len() {
                assert(k[i] == ki[i]);
            } else {
                assert(k[i].0 == fields[fields.len() - 1].0);
            }
        }
        assert forall|i: int, j: int| 0 <= i < j < k.len() implies allowlist_rank(
            #[trigger] k[i].0,
        ) < allowlist_rank(#[trigger] k[j].0) by {
            assert(k[i] == ki[i]);
            if j < ki.len() {
                assert(k[j] == ki[j]);
            } else {
                assert(k[j].0 == fields[fields.len() - 1].0);
            }
        }
    }
}

/// The written fields come in allowlist order (title, artist,
/// album_artist, album, track, date, genre), none twice.
pub proof fn lemma_safe_tags_in_allowlist_order(text: Seq<char>)
    ensures
        forall|i: int, j: int|
            0 <= i < j < safe_tags_of(text).len() ==> allowlist_rank(
                #[trigger] safe_tags_of(text)[i].0,
            ) < allowlist_rank(#[trigger] safe_tags_of(text)[j].0),
        forall|i: int, j: int|
            0 <= i < j < safe_tags_of(text).len() ==> #[trigger] safe_tags_of(text)[i].0
                != #[trigger] safe_tags_of(text)[j].0,
{
    let entries = probe_entries(split_on(text, '\n'));
    lemma_allowlist_ranks(entries);
    lemma_kept_fields_ordered(allowlisted(entries));
    let t = safe_tags_of(text);
    assert forall|i: int, j: int| 0 <= i < j < t.len() implies #[trigger] t[i].0 != #[trigger] t[j].0 by {
        assert(allowlist_rank(t[i].0) < allowlist_rank(t[j].0));
    }
}

} // verus!
