//! Garmin-compatible M3U8 playlists.
//!
//! Garmin watches read `.m3u`/`.m3u8` files at the root of `/Music`. The
//! format is plain UTF-8 text: a `#EXTM3U` header line, then one track per
//! line. `serialize_for_device` writes the tracks in one of two path styles;
//! `parse` reads the track lines back, skipping blank and `#` lines.

use vstd::prelude::*;

use crate::paths::{split_chars, split_on, views};
use crate::text::{
    chars_of, has_suffix, lead_count, lead_len, lower_chars, lower_seq, push_all, string_of,
    sub_chars, trim_chars, trim_set, trim_ws, upper_chars, upper_seq, TrimSet,
};
use vstd::utf8::{decode_utf8, encode_utf8, valid_utf8};

verus! {

broadcast use vstd::string::group_string_axioms;

/// File extension written for playlists. Garmin reads both `m3u` and
/// `m3u8`; `m3u8` implies UTF-8, which vorbis-derived titles often need.
pub const EXT: &'static str = "m3u8";

/// Path style for the track lines. Tracks are file basenames in `/Music`;
/// the style controls what is prepended and how the case is normalized.
#[derive(Debug, Clone, Copy, PartialEq, Eq, Structural)]
pub enum PathStyle {
    /// `repeat-1.mp3`: bare basename, case preserved.
    BareCasePreserved,
    /// `0:/MUSIC/REPEAT-1.MP3`: uppercase, with the Garmin device-path prefix.
    UppercaseWithPrefix,
}

pub open spec fn header() -> Seq<char> {
    seq!['#', 'E', 'X', 'T', 'M', '3', 'U']
}

pub open spec fn device_prefix() -> Seq<char> {
    seq!['0', ':', '/', 'M', 'U', 'S', 'I', 'C', '/']
}

/// A track's basename: surrounding whitespace and leading `/` removed.
pub open spec fn track_name(t: Seq<char>) -> Seq<char> {
    let trimmed = trim_ws(t);
    trimmed.skip(lead_count(trimmed, TrimSet::Slash) as int)
}

/// The line written for a track.
pub open spec fn track_line(t: Seq<char>, style: PathStyle) -> Seq<char> {
    match style {
        PathStyle::BareCasePreserved => track_name(t),
        PathStyle::UppercaseWithPrefix => device_prefix() + upper_seq(track_name(t)),
    }
}

/// The body lines for `tracks`, each followed by a newline.
pub open spec fn track_lines_text(tracks: Seq<Seq<char>>, style: PathStyle) -> Seq<char>
    decreases tracks.len(),
{
    if tracks.len() == 0 {
        Seq::empty()
    } else {
        track_lines_text(tracks.drop_last(), style) + track_line(tracks.last(), style) + seq![
            '\n',
        ]
    }
}

/// The playlist text: the header line, then one line per track.
pub open spec fn playlist_text(tracks: Seq<Seq<char>>, style: PathStyle) -> Seq<char> {
    header() + seq!['\n'] + track_lines_text(tracks, style)
}

pub open spec fn strings_view(v: Seq<String>) -> Seq<Seq<char>> {
    v.map_values(|s: String| s@)
}

fn line_for(t: &String, style: PathStyle) -> (r: Vec<char>)
    ensures
        r@ == track_line(t@, style),
{
    let cs = chars_of(t.as_str());
    let trimmed = trim_chars(cs.as_slice(), TrimSet::Whitespace);
    let start = lead_len(trimmed.as_slice(), TrimSet::Slash);
    proof {
        crate::text::lemma_lead_count(trimmed@, TrimSet::Slash);
    }
    let name = sub_chars(trimmed.as_slice(), start, trimmed.len());
    assert(name@ =~= track_name(t@));
    match style {
        PathStyle::BareCasePreserved => name,
        PathStyle::UppercaseWithPrefix => {
            let prefix = ['0', ':', '/', 'M', 'U', 'S', 'I', 'C', '/'];
            let mut out = vstd::slice::slice_to_vec(&prefix);
            let up = upper_chars(name.as_slice());
            push_all(&mut out, up.as_slice());
            assert(out@ =~= device_prefix() + upper_seq(track_name(t@)));
            out
        },
    }
}

/// The characters of `playlist_text(tracks, style)`.
pub fn playlist_chars(tracks: &[String], style: PathStyle) -> (r: Vec<char>)
    ensures
        r@ == playlist_text(strings_view(tracks@), style),
{
    let ghost tv = strings_view(tracks@);
    let head = ['#', 'E', 'X', 'T', 'M', '3', 'U', '\n'];
    let mut out = vstd::slice::slice_to_vec(&head);
    assert(out@ =~= header() + seq!['\n'] + track_lines_text(tv.take(0), style));
    let mut i: usize = 0;
    while i < tracks.len()
        invariant
            tv == strings_view(tracks@),
            i <= tracks@.len(),
            out@ == header() + seq!['\n'] + track_lines_text(tv.take(i as int), style),
        decreases tracks@.len() - i,
    {
        let line = line_for(&tracks[i], style);
        push_all(&mut out, line.as_slice());
        out.push('\n');
        assert(tv.take(i + 1).drop_last() =~= tv.take(i as int));
        assert(out@ =~= header() + seq!['\n'] + track_lines_text(tv.take(i + 1), style));
        i += 1;
    }
    assert(tv.take(tracks@.len() as int) =~= tv);
    out
}

/// Serialize track filenames into the Garmin device M3U8 format: the
/// UTF-8 bytes of `#EXTM3U` and one line per track, each line ending in a
/// newline. Tracks are basenames in `/Music`; `style` controls each line.
pub fn serialize_for_device(tracks: &[String], style: PathStyle) -> (r: Vec<u8>)
    ensures
        r@ == encode_utf8(playlist_text(strings_view(tracks@), style)),
{
    let cs = playlist_chars(tracks, style);
    let text = string_of(cs.as_slice());
    vstd::slice::slice_to_vec(text.as_str().as_bytes())
}

// ── reading ─────────────────────────────────────────────────────────────

/// What `String::from_utf8_lossy` makes of a byte sequence.
pub uninterp spec fn utf8_lossy(bytes: Seq<u8>) -> Seq<char>;

/// `String::from_utf8_lossy`: valid UTF-8 decodes as it is; each invalid
/// sequence becomes U+FFFD. The contract states the result for valid
/// UTF-8 and names it otherwise.
#[verifier::external_body]
pub(crate) fn from_utf8_lossy(bytes: &[u8]) -> (r: String)
    ensures
        r@ == utf8_lossy(bytes@),
        valid_utf8(bytes@) ==> r@ == decode_utf8(bytes@),
{
    String::from_utf8_lossy(bytes).into_owned()
}

/// A line names a track when, trimmed, it is neither empty nor a `#` line.
pub open spec fn is_track_line(trimmed: Seq<char>) -> bool {
    trimmed.len() > 0 && trimmed[0] != '#'
}

/// The trimmed track lines among `lines`, in order.
pub open spec fn track_entries(lines: Seq<Seq<char>>) -> Seq<Seq<char>>
    decreases lines.len(),
{
    if lines.len() == 0 {
        Seq::empty()
    } else {
        let before = track_entries(lines.drop_last());
        let t = trim_ws(lines.last());
        if is_track_line(t) {
            before.push(t)
        } else {
            before
        }
    }
}

/// The tracks a playlist text names: its lines, trimmed, without blank
/// lines and `#` lines (`#EXTM3U`, `#EXTINF`, comments).
pub open spec fn parsed_tracks(text: Seq<char>) -> Seq<Seq<char>> {
    track_entries(split_on(text, '\n'))
}

/// The track filenames of a playlist text.
pub fn parse_text(text: &str) -> (r: Vec<String>)
    ensures
        strings_view(r@) == parsed_tracks(text@),
{
    let cs = chars_of(text);
    let lines = split_chars(cs.as_slice(), '\n');
    let ghost lv = views(lines@);
    let mut out: Vec<String> = Vec::new();
    let mut i: usize = 0;
    while i < lines.len()
        invariant
            lv == views(lines@),
            i <= lines@.len(),
            strings_view(out@) == track_entries(lv.take(i as int)),
        decreases lines@.len() - i,
    {
        let t = trim_chars(lines[i].as_slice(), TrimSet::Whitespace);
        assert(lv.take(i + 1).drop_last() =~= lv.take(i as int));
        assert(lv[i as int] == lines@[i as int]@);
        if t.len() > 0 && t[0] != '#' {
            let ghost before = strings_view(out@);
            let s = string_of(t.as_slice());
            out.push(s);
            assert(strings_view(out@) =~= before.push(t@));
        }
        i += 1;
    }
    assert(lv.take(lines@.len() as int) =~= lv);
    out
}

/// Parse a playlist file into its track filenames. The bytes are read as
/// UTF-8 (invalid sequences become U+FFFD); comment and `#EXTM3U`/`#EXTINF`
/// lines are stripped; other lines, trimmed, pass through as they are.
pub fn parse(bytes: &[u8]) -> (r: Vec<String>)
    ensures
        strings_view(r@) == parsed_tracks(utf8_lossy(bytes@)),
        valid_utf8(bytes@) ==> strings_view(r@) == parsed_tracks(decode_utf8(bytes@)),
{
    let text = from_utf8_lossy(bytes);
    parse_text(text.as_str())
}

/// `.m3u` or `.m3u8`, in any case.
pub open spec fn is_playlist_name(name: Seq<char>) -> bool {
    has_suffix(lower_seq(name), seq!['.', 'm', '3', 'u']) || has_suffix(
        lower_seq(name),
        seq!['.', 'm', '3', 'u', '8'],
    )
}

/// True if the filename looks like a playlist we should surface.
pub fn is_playlist(name: &str) -> (r: bool)
    ensures
        r == is_playlist_name(name@),
{
    let cs = chars_of(name);
    let lower = lower_chars(cs.as_slice());
    let m3u = ['.', 'm', '3', 'u'];
    assert(m3u@ =~= seq!['.', 'm', '3', 'u']);
    let m3u8 = ['.', 'm', '3', 'u', '8'];
    assert(m3u8@ =~= seq!['.', 'm', '3', 'u', '8']);
    crate::text::chars_ends_with(lower.as_slice(), &m3u) || crate::text::chars_ends_with(
        lower.as_slice(),
        &m3u8,
    )
}

} // verus!

verus! {

// ── reading back what was written ───────────────────────────────────────

proof fn lemma_split_push(s: Seq<char>, c: char, sep: char)
    ensures
        split_on(s.push(c), sep) == if c == sep {
            split_on(s, sep).push(Seq::<char>::empty())
        } else {
            split_on(s, sep).update(
                split_on(s, sep).len() - 1,
                split_on(s, sep).last().push(c),
            )
        },
{
    assert(s.push(c).drop_last() =~= s);
}

/// Appending text without separators extends the last piece.
proof fn lemma_split_append_plain(s: Seq<char>, l: Seq<char>, sep: char)
    requires
        !l.contains(sep),
    ensures
        split_on(s + l, sep).len() == split_on(s, sep).len(),
        split_on(s + l, sep) == split_on(s, sep).update(
            split_on(s, sep).len() - 1,
            split_on(s, sep).last() + l,
        ),
    decreases l.len(),
{
    crate::paths::lemma_split_on_nonempty(s, sep);
    if l.len() == 0 {
        assert(s + l =~= s);
        assert(split_on(s, sep).last() + l =~= split_on(s, sep).last());
        assert(split_on(s, sep).update(split_on(s, sep).len() - 1, split_on(s, sep).last())
            =~= split_on(s, sep));
    } else {
        let l0 = l.drop_last();
        assert(!l0.contains(sep)) by {
            if l0.contains(sep) {
                let k = choose|k: int| 0 <= k < l0.len() && l0[k] == sep;
                assert(l[k] == sep);
            }
        }
        assert(l.last() != sep) by {
            assert(l[l.len() - 1] == l.last());
        }
        lemma_split_append_plain(s, l0, sep);
        assert(s + l =~= (s + l0).push(l.last()));
        lemma_split_push(s + l0, l.last(), sep);
        let a = split_on(s, sep);
        assert((a.last() + l0).push(l.last()) =~= a.last() + l);
        assert(a.update(a.len() - 1, a.last() + l0).update(a.len() - 1, (a.last() + l0).push(
            l.last(),
        )) =~= a.update(a.len() - 1, a.last() + l));
    }
}

proof fn lemma_track_entries_concat(a: Seq<Seq<char>>, b: Seq<Seq<char>>)
    ensures
        track_entries(a + b) == track_entries(a) + track_entries(b),
    decreases b.len(),
{
    if b.len() == 0 {
        assert(a + b =~= a);
        assert(track_entries(a) + track_entries(b) =~= track_entries(a));
    } else {
        lemma_track_entries_concat(a, b.drop_last());
        assert((a + b).drop_last() =~= a + b.drop_last());
        let t = trim_ws(b.last());
        if is_track_line(t) {
            assert(track_entries(a) + track_entries(b.drop_last()).push(t) =~= (track_entries(a)
                + track_entries(b.drop_last())).push(t));
        }
    }
}

/// The lines a body of track lines splits into, with the empty piece that
/// follows the last newline.
pub open spec fn lines_of(tracks: Seq<Seq<char>>, style: PathStyle) -> Seq<Seq<char>> {
    tracks.map_values(|t: Seq<char>| track_line(t, style))
}

/// No track holds a line break.
pub open spec fn single_line_tracks(tracks: Seq<Seq<char>>) -> bool {
    forall|i: int| 0 <= i < tracks.len() ==> !(#[trigger] tracks[i]).contains('\n')
}

proof fn lemma_line_single(t: Seq<char>, style: PathStyle)
    requires
        !t.contains('\n'),
    ensures
        !track_line(t, style).contains('\n'),
{
    crate::text::lemma_trim_set(t, TrimSet::Whitespace);
    let tr = trim_ws(t);
    crate::text::lemma_lead_count(tr, TrimSet::Slash);
    let name = track_name(t);
    let a = lead_count(t, TrimSet::Whitespace) as int;
    let k = lead_count(tr, TrimSet::Slash) as int;
    assert(!name.contains('\n')) by {
        if name.contains('\n') {
            let j = choose|j: int| 0 <= j < name.len() && name[j] == '\n';
            assert(name[j] == tr[k + j]);
            assert(tr[k + j] == t[a + k + j]);
        }
    }
    if style == PathStyle::UppercaseWithPrefix {
        let line = device_prefix() + upper_seq(name);
        assert(!line.contains('\n')) by {
            if line.contains('\n') {
                let j = choose|j: int| 0 <= j < line.len() && line[j] == '\n';
                if j >= 9 {
                    assert(line[j] == upper_seq(name)[j - 9]);
                    assert(upper_seq(name)[j - 9] == crate::text::ascii_upper(name[j - 9]));
                }
            }
        }
    }
}

proof fn lemma_split_body(tracks: Seq<Seq<char>>, style: PathStyle)
    requires
        single_line_tracks(tracks),
    ensures
        split_on(header() + seq!['\n'] + track_lines_text(tracks, style), '\n') == seq![header()]
            + lines_of(tracks, style) + seq![Seq::<char>::empty()],
    decreases tracks.len(),
{
    let h = header() + seq!['\n'];
    if tracks.len() == 0 {
        assert(h + track_lines_text(tracks, style) =~= header().push('\n'));
        assert(!header().contains('\n')) by {
            if header().contains('\n') {
                let j = choose|j: int| 0 <= j < header().len() && header()[j] == '\n';
            }
        }
        lemma_split_append_plain(Seq::<char>::empty(), header(), '\n');
        assert(Seq::<char>::empty() + header() =~= header());
        lemma_split_push(header(), '\n', '\n');
        assert(seq![Seq::<char>::empty()].update(0, Seq::<char>::empty() + header()) =~= seq![
            header(),
        ]);
        assert(seq![header()] + lines_of(tracks, style) + seq![Seq::<char>::empty()] =~= seq![
            header(),
        ].push(Seq::<char>::empty()));
    } else {
        let init = tracks.drop_last();
        assert(single_line_tracks(init)) by {
            assert forall|i: int| 0 <= i < init.len() implies !(#[trigger] init[i]).contains('\n') by {
                assert(init[i] == tracks[i]);
            }
        }
        lemma_split_body(init, style);
        let line = track_line(tracks.last(), style);
        assert(!tracks.last().contains('\n')) by {
            assert(tracks[tracks.len() - 1] == tracks.last());
        }
        lemma_line_single(tracks.last(), style);
        let before = h + track_lines_text(init, style);
        assert(h + track_lines_text(tracks, style) =~= (before + line).push('\n'));
        lemma_split_append_plain(before, line, '\n');
        lemma_split_push(before + line, '\n', '\n');
        let pieces = seq![header()] + lines_of(init, style) + seq![Seq::<char>::empty()];
        assert(pieces.update(pieces.len() - 1, pieces.last() + line).push(Seq::<char>::empty())
            =~= seq![header()] + lines_of(tracks, style) + seq![Seq::<char>::empty()]);
    }
}

proof fn lemma_track_entries_one(line: Seq<char>)
    ensures
        track_entries(seq![line]) == if is_track_line(trim_ws(line)) {
            seq![trim_ws(line)]
        } else {
            Seq::<Seq<char>>::empty()
        },
{
    let one = seq![line];
    assert(one.drop_last() =~= Seq::<Seq<char>>::empty());
    assert(one.last() == line);
    assert(track_entries(Seq::<Seq<char>>::empty()) == Seq::<Seq<char>>::empty());
    assert(Seq::<Seq<char>>::empty().push(trim_ws(line)) =~= seq![trim_ws(line)]);
}

/// Reading back a written playlist gives the track lines as written
/// (trimmed, with blank lines and lines that begin with `#` left out),
/// whenever no track holds a line break. The header is not read as a track.
pub proof fn lemma_parse_reads_back(tracks: Seq<Seq<char>>, style: PathStyle)
    requires
        single_line_tracks(tracks),
    ensures
        parsed_tracks(decode_utf8(encode_utf8(playlist_text(tracks, style)))) == track_entries(
            lines_of(tracks, style),
        ),
{
    vstd::utf8::encode_utf8_decode_utf8(playlist_text(tracks, style));
    lemma_split_body(tracks, style);
    let mid = lines_of(tracks, style);
    lemma_track_entries_concat(seq![header()] + mid, seq![Seq::<char>::empty()]);
    lemma_track_entries_concat(seq![header()], mid);
    // The header is a `#` line, the final piece is blank.
    crate::text::lemma_lead_count(header(), TrimSet::Whitespace);
    assert(header().skip(0) =~= header());
    crate::text::lemma_trail_count(header(), TrimSet::Whitespace);
    assert(header().take(header().len() as int) =~= header());
    assert(trim_ws(header()) == header());
    lemma_track_entries_one(header());
    crate::text::lemma_trim_set(Seq::<char>::empty(), TrimSet::Whitespace);
    lemma_track_entries_one(Seq::<char>::empty());
    assert(Seq::<Seq<char>>::empty() + track_entries(mid) + Seq::<Seq<char>>::empty()
        =~= track_entries(mid));
}

/// A track name with no surrounding whitespace, no leading `/`, no line
/// break, and neither empty nor starting with `#`.
pub open spec fn is_plain_track(t: Seq<char>) -> bool {
    &&& t.len() > 0
    &&& t[0] != '#'
    &&& t[0] != '/'
    &&& !crate::text::is_unicode_whitespace(t[0])
    &&& !crate::text::is_unicode_whitespace(t.last())
    &&& !t.contains('\n')
}

proof fn lemma_plain_entries(tracks: Seq<Seq<char>>)
    requires
        forall|i: int| 0 <= i < tracks.len() ==> is_plain_track(#[trigger] tracks[i]),
    ensures
        track_entries(lines_of(tracks, PathStyle::BareCasePreserved)) == tracks,
    decreases tracks.len(),
{
    if tracks.len() > 0 {
        let init = tracks.drop_last();
        assert forall|i: int| 0 <= i < init.len() implies is_plain_track(#[trigger] init[i]) by {
            assert(init[i] == tracks[i]);
        }
        lemma_plain_entries(init);
        let t = tracks.last();
        assert(is_plain_track(t)) by {
            assert(tracks[tracks.len() - 1] == t);
        }
        assert(lines_of(tracks, PathStyle::BareCasePreserved).drop_last() =~= lines_of(
            init,
            PathStyle::BareCasePreserved,
        ));
        crate::text::lemma_lead_count(t, TrimSet::Whitespace);
        assert(t.skip(0) =~= t);
        crate::text::lemma_trail_count(t, TrimSet::Whitespace);
        assert(t.take(t.len() as int) =~= t);
        assert(trim_ws(t) == t);
        crate::text::lemma_lead_count(t, TrimSet::Slash);
        assert(track_name(t) == t);
        assert(lines_of(tracks, PathStyle::BareCasePreserved).last() == t);
        assert(init.push(t) =~= tracks);
    }
}

/// A playlist of plain track names, written bare and read back, gives the
/// same names in the same order.
pub proof fn lemma_bare_round_trip(tracks: Seq<Seq<char>>)
    requires
        forall|i: int| 0 <= i < tracks.len() ==> is_plain_track(#[trigger] tracks[i]),
    ensures
        parsed_tracks(decode_utf8(encode_utf8(playlist_text(tracks, PathStyle::BareCasePreserved))))
            == tracks,
{
    assert(single_line_tracks(tracks)) by {
        assert forall|i: int| 0 <= i < tracks.len() implies !(#[trigger] tracks[i]).contains(
            '\n',
        ) by {
            assert(is_plain_track(tracks[i]));
        }
    }
    lemma_parse_reads_back(tracks, PathStyle::BareCasePreserved);
    lemma_plain_entries(tracks);
}

} // verus!
