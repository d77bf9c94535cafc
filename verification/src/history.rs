//! Persistent record of files uploaded to a given watch.
//!
//! Garmin's firmware does not expose its indexed music library over MTP, so
//! after the watch absorbs files out of `/Music` they are invisible to us.
//! The journal, one per device serial, keeps every completed upload and the
//! user's local playlists. Reading and writing the journal file is the
//! caller's business; this module holds the journal and its updates.

use vstd::prelude::*;

use crate::text::{chars_of, is_alphanumeric_ascii, is_ascii_alphanumeric, push_all, string_of};

verus! {

broadcast use vstd::string::group_string_axioms;

/// The journal keeps at most this many uploads, the newest ones.
pub const UPLOAD_LIMIT: usize = 1000;

/// One completed upload.
#[derive(Debug)]
pub struct UploadRecord {
    pub name: String,
    pub bytes: u64,
    /// UNIX seconds.
    pub at: u64,
}

/// A user-defined group of local source paths. Playlists live on this side
/// only: the watch sees the tracks as individual files.
#[derive(Debug)]
pub struct LocalPlaylist {
    pub name: String,
    pub tracks: Vec<String>,
    /// UNIX seconds.
    pub created_at: u64,
}

/// The journal of one watch.
#[derive(Debug)]
pub struct DeviceHistory {
    pub serial: String,
    pub uploads: Vec<UploadRecord>,
    pub playlists: Vec<LocalPlaylist>,
}

pub struct UploadView {
    pub name: Seq<char>,
    pub bytes: u64,
    pub at: u64,
}

pub struct PlaylistView {
    pub name: Seq<char>,
    pub tracks: Seq<Seq<char>>,
    pub created_at: u64,
}

pub struct HistoryView {
    pub serial: Seq<char>,
    pub uploads: Seq<UploadView>,
    pub playlists: Seq<PlaylistView>,
}

impl View for UploadRecord {
    type V = UploadView;

    open spec fn view(&self) -> UploadView {
        UploadView { name: self.name@, bytes: self.bytes, at: self.at }
    }
}

pub open spec fn tracks_view(t: Seq<String>) -> Seq<Seq<char>> {
    t.map_values(|s: String| s@)
}

impl View for LocalPlaylist {
    type V = PlaylistView;

    open spec fn view(&self) -> PlaylistView {
        PlaylistView {
            name: self.name@,
            tracks: tracks_view(self.tracks@),
            created_at: self.created_at,
        }
    }
}

pub open spec fn uploads_view(u: Seq<UploadRecord>) -> Seq<UploadView> {
    u.map_values(|r: UploadRecord| r@)
}

pub open spec fn playlists_view(p: Seq<LocalPlaylist>) -> Seq<PlaylistView> {
    p.map_values(|l: LocalPlaylist| l@)
}

impl View for DeviceHistory {
    type V = HistoryView;

    open spec fn view(&self) -> HistoryView {
        HistoryView {
            serial: self.serial@,
            uploads: uploads_view(self.uploads@),
            playlists: playlists_view(self.playlists@),
        }
    }
}

// ── the journal as values ───────────────────────────────────────────────

/// An upload is of the same file when name and size agree.
pub open spec fn same_file(u: UploadView, name: Seq<char>, bytes: u64) -> bool {
    u.name == name && u.bytes == bytes
}

/// `s` without the uploads of that file, in order.
pub open spec fn uploads_except(s: Seq<UploadView>, name: Seq<char>, bytes: u64) -> Seq<UploadView>
    decreases s.len(),
{
    if s.len() == 0 {
        s
    } else {
        let rest = uploads_except(s.drop_last(), name, bytes);
        if same_file(s.last(), name, bytes) {
            rest
        } else {
            rest.push(s.last())
        }
    }
}

/// The newest `UPLOAD_LIMIT` uploads of `s`.
pub open spec fn keep_newest(s: Seq<UploadView>) -> Seq<UploadView> {
    if s.len() > UPLOAD_LIMIT {
        s.skip(s.len() - UPLOAD_LIMIT)
    } else {
        s
    }
}

/// The journal after an upload of `name` (`bytes` long) completed at `now`:
/// an earlier row of the same file goes, the new row comes last, and only
/// the newest `UPLOAD_LIMIT` rows stay.
pub open spec fn recorded(h: HistoryView, name: Seq<char>, bytes: u64, now: u64) -> HistoryView {
    HistoryView {
        serial: h.serial,
        uploads: keep_newest(
            uploads_except(h.uploads, name, bytes).push(UploadView { name, bytes, at: now }),
        ),
        playlists: h.playlists,
    }
}

/// `s` without the playlists named `name`, in order.
pub open spec fn playlists_except(s: Seq<PlaylistView>, name: Seq<char>) -> Seq<PlaylistView>
    decreases s.len(),
{
    if s.len() == 0 {
        s
    } else {
        let rest = playlists_except(s.drop_last(), name);
        if s.last().name == name {
            rest
        } else {
            rest.push(s.last())
        }
    }
}

/// The journal with playlist `name` saved: a playlist of that name is
/// replaced, and the new one comes last.
pub open spec fn with_playlist(
    h: HistoryView,
    name: Seq<char>,
    tracks: Seq<Seq<char>>,
    now: u64,
) -> HistoryView {
    HistoryView {
        serial: h.serial,
        uploads: h.uploads,
        playlists: playlists_except(h.playlists, name).push(
            PlaylistView { name, tracks, created_at: now },
        ),
    }
}

/// The journal without the playlists named `name`.
pub open spec fn without_playlist(h: HistoryView, name: Seq<char>) -> HistoryView {
    HistoryView { serial: h.serial, uploads: h.uploads, playlists: playlists_except(h.playlists, name) }
}

/// The character a serial keeps in the journal's filename.
pub open spec fn file_safe(c: char) -> char {
    if is_ascii_alphanumeric(c) {
        c
    } else {
        '_'
    }
}

/// The journal's filename for a serial: `uploads-<serial>.json`, with every
/// character of the serial that is not an ASCII letter or digit made `_`.
pub open spec fn journal_file_name(serial: Seq<char>) -> Seq<char> {
    "uploads-"@ + serial.map_values(|c: char| file_safe(c)) + ".json"@
}

// ── executable ──────────────────────────────────────────────────────────

impl DeviceHistory {
    /// An empty journal for `serial`: what a watch starts with, and what an
    /// unreadable journal file is replaced by.
    pub fn for_serial(serial: &str) -> (r: DeviceHistory)
        ensures
            r@.serial == serial@,
            r@.uploads.len() == 0,
            r@.playlists.len() == 0,
    {
        let r = DeviceHistory { serial: serial.to_owned(), uploads: Vec::new(), playlists: Vec::new() };
        assert(r@.uploads =~= Seq::<UploadView>::empty());
        assert(r@.playlists =~= Seq::<PlaylistView>::empty());
        r
    }
}

impl Default for DeviceHistory {
    fn default() -> (r: DeviceHistory)
        ensures
            r@.serial.len() == 0,
            r@.uploads.len() == 0,
            r@.playlists.len() == 0,
    {
        let r = DeviceHistory { serial: String::new(), uploads: Vec::new(), playlists: Vec::new() };
        assert(r@.uploads =~= Seq::<UploadView>::empty());
        assert(r@.playlists =~= Seq::<PlaylistView>::empty());
        r
    }
}

/// The journal's filename for `serial` (see `journal_file_name`).
pub fn file_name_for(serial: &str) -> (r: String)
    ensures
        r@ == journal_file_name(serial@),
{
    let cs = chars_of(serial);
    let mut out = vec!['u', 'p', 'l', 'o', 'a', 'd', 's', '-'];
    let ghost start = out@;
    let mut i: usize = 0;
    while i < cs.len()
        invariant
            i <= cs@.len(),
            cs@ == serial@,
            out@ == start + serial@.take(i as int).map_values(|c: char| file_safe(c)),
        decreases cs@.len() - i,
    {
        let c = cs[i];
        let kept = if is_alphanumeric_ascii(c) {
            c
        } else {
            '_'
        };
        out.push(kept);
        assert(serial@.take(i + 1).map_values(|c: char| file_safe(c)) =~= serial@.take(
            i as int,
        ).map_values(|c: char| file_safe(c)).push(file_safe(c)));
        i += 1;
    }
    push_all(&mut out, &['.', 'j', 's', 'o', 'n']);
    proof {
        reveal_strlit("uploads-");
        reveal_strlit(".json");
        assert(serial@.take(serial@.len() as int) =~= serial@);
    }
    assert(out@ =~= journal_file_name(serial@));
    string_of(out.as_slice())
}

/// Record a completed upload of `name` (`bytes` long) at UNIX time `now`.
/// Re-uploading the same file (same name and size) refreshes its row rather
/// than adding a second one; the journal keeps the newest `UPLOAD_LIMIT`
/// rows.
pub fn record(history: &mut DeviceHistory, name: &str, bytes: u64, now: u64)
    ensures
        final(history)@ == recorded(old(history)@, name@, bytes, now),
{
    let key = name.to_owned();
    let mut old_rows: Vec<UploadRecord> = Vec::new();
    std::mem::swap(&mut old_rows, &mut history.uploads);
    let ghost old_view = uploads_view(old_rows@);
    let mut kept: Vec<UploadRecord> = Vec::new();
    for row in it: old_rows
        invariant
            old_view == uploads_view(it.seq()),
            uploads_view(kept@) == uploads_except(
                old_view.take(it.index() as int),
                key@,
                bytes,
            ),
            key@ == name@,
    {
        let ghost before = uploads_view(kept@);
        let ghost i = it.index();
        assert(old_view.take(i + 1).drop_last() =~= old_view.take(i as int));
        assert(old_view.take(i + 1).last() == row@);
        if !(row.name == key && row.bytes == bytes) {
            kept.push(row);
            assert(uploads_view(kept@) =~= before.push(old_view[i as int]));
        }
    }
    assert(old_view.take(old_view.len() as int) =~= old_view);
    let ghost filtered = uploads_view(kept@);
    kept.push(UploadRecord { name: key, bytes, at: now });
    assert(uploads_view(kept@) =~= filtered.push(UploadView { name: name@, bytes, at: now }));
    if kept.len() > UPLOAD_LIMIT {
        let drop = kept.len() - UPLOAD_LIMIT;
        let ghost full = kept@;
        let newest = kept.split_off(drop);
        assert(uploads_view(newest@) =~= uploads_view(full).skip(drop as int)) by {
            assert(newest@ =~= full.skip(drop as int));
        }
        kept = newest;
    }
    history.uploads = kept;
}

/// Save playlist `name` with `tracks` at UNIX time `now`, replacing a
/// playlist of the same name.
pub fn add_playlist(history: &mut DeviceHistory, name: String, tracks: Vec<String>, now: u64)
    ensures
        final(history)@ == with_playlist(old(history)@, name@, tracks_view(tracks@), now),
{
    remove_playlist(history, name.as_str());
    let ghost before = playlists_view(history.playlists@);
    let pl = LocalPlaylist { name, tracks, created_at: now };
    history.playlists.push(pl);
    assert(playlists_view(history.playlists@) =~= before.push(pl@));
}

/// Delete the playlists named `name`.
pub fn remove_playlist(history: &mut DeviceHistory, name: &str)
    ensures
        final(history)@ == without_playlist(old(history)@, name@),
{
    let key = name.to_owned();
    let mut old_lists: Vec<LocalPlaylist> = Vec::new();
    std::mem::swap(&mut old_lists, &mut history.playlists);
    let ghost old_view = playlists_view(old_lists@);
    let mut kept: Vec<LocalPlaylist> = Vec::new();
    for pl in it: old_lists
        invariant
            old_view == playlists_view(it.seq()),
            playlists_view(kept@) == playlists_except(old_view.take(it.index() as int), key@),
            key@ == name@,
    {
        let ghost before = playlists_view(kept@);
        let ghost i = it.index();
        assert(old_view.take(i + 1).drop_last() =~= old_view.take(i as int));
        assert(old_view.take(i + 1).last() == pl@);
        if !(pl.name == key) {
            kept.push(pl);
            assert(playlists_view(kept@) =~= before.push(old_view[i as int]));
        }
    }
    assert(old_view.take(old_view.len() as int) =~= old_view);
    history.playlists = kept;
}

} // verus!

verus! {

// ── laws of the journal ─────────────────────────────────────────────────

/// No two rows of `s` are of the same file.
pub open spec fn distinct_files(s: Seq<UploadView>) -> bool {
    forall|i: int, j: int|
        0 <= i < j < s.len() ==> !same_file(#[trigger] s[i], s[j].name, #[trigger] s[j].bytes)
}

/// The number of rows of `s` that are of that file.
pub open spec fn rows_of(s: Seq<UploadView>, name: Seq<char>, bytes: u64) -> nat
    decreases s.len(),
{
    if s.len() == 0 {
        0
    } else {
        rows_of(s.drop_last(), name, bytes) + if same_file(s.last(), name, bytes) {
            1nat
        } else {
            0nat
        }
    }
}

proof fn lemma_except_kept(s: Seq<UploadView>, name: Seq<char>, bytes: u64)
    ensures
        uploads_except(s, name, bytes).len() <= s.len(),
        forall|i: int|
            0 <= i < uploads_except(s, name, bytes).len() ==> !same_file(
                #[trigger] uploads_except(s, name, bytes)[i],
                name,
                bytes,
            ) && s.contains(uploads_except(s, name, bytes)[i]),
    decreases s.len(),
{
    if s.len() > 0 {
        let init = s.drop_last();
        lemma_except_kept(init, name, bytes);
        let e = uploads_except(s, name, bytes);
        let ei = uploads_except(init, name, bytes);
        assert forall|i: int| 0 <= i < e.len() implies !same_file(#[trigger] e[i], name, bytes)
            && s.contains(e[i]) by {
            if i < ei.len() {
                assert(e[i] == ei[i]);
                assert(ei[i] == ei[i]);
                let k = choose|k: int| 0 <= k < init.len() && init[k] == ei[i];
                assert(s[k] == init[k]);
            } else {
                assert(e[i] == s.last());
                assert(s[s.len() - 1] == s.last());
            }
        }
    }
}

proof fn lemma_except_noop(s: Seq<UploadView>, name: Seq<char>, bytes: u64)
    requires
        forall|i: int| 0 <= i < s.len() ==> !same_file(#[trigger] s[i], name, bytes),
    ensures
        uploads_except(s, name, bytes) == s,
    decreases s.len(),
{
    if s.len() > 0 {
        let init = s.drop_last();
        assert forall|i: int| 0 <= i < init.len() implies !same_file(#[trigger] init[i], name, bytes) by {
            assert(init[i] == s[i]);
        }
        lemma_except_noop(init, name, bytes);
        assert(!same_file(s[s.len() - 1], name, bytes));
        assert(init.push(s.last()) =~= s);
    }
}

proof fn lemma_except_distinct(s: Seq<UploadView>, name: Seq<char>, bytes: u64)
    requires
        distinct_files(s),
    ensures
        distinct_files(uploads_except(s, name, bytes)),
    decreases s.len(),
{
    if s.len() > 0 {
        let init = s.drop_last();
        assert(distinct_files(init)) by {
            assert forall|i: int, j: int| 0 <= i < j < init.len() implies !same_file(
                #[trigger] init[i],
                init[j].name,
                #[trigger] init[j].bytes,
            ) by {
                assert(init[i] == s[i] && init[j] == s[j]);
            }
        }
        lemma_except_distinct(init, name, bytes);
        lemma_except_kept(init, name, bytes);
        let ei = uploads_except(init, name, bytes);
        let e = uploads_except(s, name, bytes);
        if !same_file(s.last(), name, bytes) {
            assert forall|i: int, j: int| 0 <= i < j < e.len() implies !same_file(
                #[trigger] e[i],
                e[j].name,
                #[trigger] e[j].bytes,
            ) by {
                if j == e.len() - 1 {
                    assert(e[i] == ei[i]);
                    assert(ei[i] == ei[i]);
                    let k = choose|k: int| 0 <= k < init.len() && init[k] == ei[i];
                    assert(s[k] == init[k]);
                    assert(e[j] == s[s.len() - 1]);
                } else {
                    assert(e[i] == ei[i] && e[j] == ei[j]);
                }
            }
        }
    }
}

proof fn lemma_rows_of_except(s: Seq<UploadView>, name: Seq<char>, bytes: u64)
    ensures
        rows_of(uploads_except(s, name, bytes), name, bytes) == 0,
    decreases s.len(),
{
    if s.len() > 0 {
        lemma_rows_of_except(s.drop_last(), name, bytes);
        let ei = uploads_except(s.drop_last(), name, bytes);
        if !same_file(s.last(), name, bytes) {
            assert(ei.push(s.last()).drop_last() =~= ei);
        }
    }
}

proof fn lemma_rows_of_skip(s: Seq<UploadView>, name: Seq<char>, bytes: u64, k: int)
    requires
        0 <= k <= s.len(),
        rows_of(s.drop_last(), name, bytes) == 0,
        s.len() > 0,
    ensures
        rows_of(s.skip(k), name, bytes) == if k < s.len() && same_file(s.last(), name, bytes) {
            1nat
        } else {
            0nat
        },
    decreases s.len(),
{
    if k == s.len() {
        assert(s.skip(k) =~= Seq::<UploadView>::empty());
    } else {
        let t = s.skip(k);
        assert(t.last() == s.last());
        lemma_rows_of_zero_suffix(s.drop_last(), name, bytes, k);
        assert(t.drop_last() =~= s.drop_last().skip(k));
    }
}

proof fn lemma_rows_of_zero_suffix(s: Seq<UploadView>, name: Seq<char>, bytes: u64, k: int)
    requires
        0 <= k <= s.len(),
        rows_of(s, name, bytes) == 0,
    ensures
        rows_of(s.skip(k), name, bytes) == 0,
    decreases s.len(),
{
    if k < s.len() {
        lemma_rows_of_zero_suffix(s.drop_last(), name, bytes, k);
        assert(s.skip(k).drop_last() =~= s.drop_last().skip(k));
        assert(s.skip(k).last() == s.last());
    } else {
        assert(s.skip(k) =~= Seq::<UploadView>::empty());
    }
}

/// After an upload is recorded, the journal holds exactly one row of that
/// file: the newest, stamped with the time of the upload. It holds no more
/// than `UPLOAD_LIMIT` rows, each other row was already in the journal, and
/// the serial and playlists are untouched.
pub proof fn lemma_record_refreshes(h: HistoryView, name: Seq<char>, bytes: u64, now: u64)
    ensures
        ({
            let r = recorded(h, name, bytes, now);
            &&& r.uploads.len() > 0
            &&& r.uploads.last() == (UploadView { name, bytes, at: now })
            &&& rows_of(r.uploads, name, bytes) == 1
            &&& r.uploads.len() <= UPLOAD_LIMIT
            &&& forall|i: int|
                0 <= i < r.uploads.len() - 1 ==> h.uploads.contains(#[trigger] r.uploads[i])
            &&& r.serial == h.serial
            &&& r.playlists == h.playlists
        }),
{
    let e = uploads_except(h.uploads, name, bytes);
    let new = UploadView { name, bytes, at: now };
    let p = e.push(new);
    lemma_except_kept(h.uploads, name, bytes);
    lemma_rows_of_except(h.uploads, name, bytes);
    assert(p.drop_last() =~= e);
    let k: int = if p.len() > UPLOAD_LIMIT {
        p.len() - UPLOAD_LIMIT
    } else {
        0
    };
    assert(keep_newest(p) =~= p.skip(k));
    lemma_rows_of_skip(p, name, bytes, k);
    let r = p.skip(k);
    assert forall|i: int| 0 <= i < r.len() - 1 implies h.uploads.contains(#[trigger] r[i]) by {
        assert(r[i] == e[i + k]);
    }
}

/// Recording keeps the journal free of duplicate rows.
pub proof fn lemma_record_keeps_rows_distinct(h: HistoryView, name: Seq<char>, bytes: u64, now: u64)
    requires
        distinct_files(h.uploads),
    ensures
        distinct_files(recorded(h, name, bytes, now).uploads),
{
    let e = uploads_except(h.uploads, name, bytes);
    let new = UploadView { name, bytes, at: now };
    let p = e.push(new);
    lemma_except_distinct(h.uploads, name, bytes);
    lemma_except_kept(h.uploads, name, bytes);
    assert(distinct_files(p)) by {
        assert forall|i: int, j: int| 0 <= i < j < p.len() implies !same_file(
            #[trigger] p[i],
            p[j].name,
            #[trigger] p[j].bytes,
        ) by {
            assert(p[i] == e[i]);
            if j < e.len() {
                assert(p[j] == e[j]);
            }
        }
    }
    let k: int = if p.len() > UPLOAD_LIMIT {
        p.len() - UPLOAD_LIMIT
    } else {
        0
    };
    let r = p.skip(k);
    assert(keep_newest(p) =~= r);
    assert forall|i: int, j: int| 0 <= i < j < r.len() implies !same_file(
        #[trigger] r[i],
        r[j].name,
        #[trigger] r[j].bytes,
    ) by {
        assert(r[i] == p[i + k] && r[j] == p[j + k]);
    }
}

/// Uploading the same file again only refreshes its row: recording it twice
/// leaves the journal as recording it once, at the later time.
pub proof fn lemma_record_twice(h: HistoryView, name: Seq<char>, bytes: u64, t1: u64, t2: u64)
    ensures
        recorded(recorded(h, name, bytes, t1), name, bytes, t2) == recorded(h, name, bytes, t2),
{
    let e = uploads_except(h.uploads, name, bytes);
    let n1 = UploadView { name, bytes, at: t1 };
    let n2 = UploadView { name, bytes, at: t2 };
    lemma_except_kept(h.uploads, name, bytes);
    let k: int = if e.len() + 1 > UPLOAD_LIMIT {
        e.len() + 1 - UPLOAD_LIMIT
    } else {
        0
    };
    assert(keep_newest(e.push(n1)) =~= e.skip(k).push(n1));
    assert(keep_newest(e.push(n2)) =~= e.skip(k).push(n2));
    let mid = e.skip(k);
    assert forall|i: int| 0 <= i < mid.len() implies !same_file(#[trigger] mid[i], name, bytes) by {
        assert(mid[i] == e[i + k]);
    }
    lemma_except_noop(mid, name, bytes);
    assert(mid.push(n1).drop_last() =~= mid);
    assert(uploads_except(mid.push(n1), name, bytes) == mid);
    assert(keep_newest(mid.push(n2)) =~= mid.push(n2));
    assert(recorded(recorded(h, name, bytes, t1), name, bytes, t2).uploads =~= recorded(
        h,
        name,
        bytes,
        t2,
    ).uploads);
}

proof fn lemma_playlists_except_none(s: Seq<PlaylistView>, name: Seq<char>)
    ensures
        forall|i: int|
            0 <= i < playlists_except(s, name).len() ==> (#[trigger] playlists_except(s, name)[i]).name
                != name,
    decreases s.len(),
{
    if s.len() > 0 {
        lemma_playlists_except_none(s.drop_last(), name);
        let ei = playlists_except(s.drop_last(), name);
        let e = playlists_except(s, name);
        assert forall|i: int| 0 <= i < e.len() implies (#[trigger] e[i]).name != name by {
            if i < ei.len() {
                assert(e[i] == ei[i]);
            }
        }
    }
}

proof fn lemma_playlists_except_noop(s: Seq<PlaylistView>, name: Seq<char>)
    requires
        forall|i: int| 0 <= i < s.len() ==> (#[trigger] s[i]).name != name,
    ensures
        playlists_except(s, name) == s,
    decreases s.len(),
{
    if s.len() > 0 {
        let init = s.drop_last();
        assert forall|i: int| 0 <= i < init.len() implies (#[trigger] init[i]).name != name by {
            assert(init[i] == s[i]);
        }
        lemma_playlists_except_noop(init, name);
        assert(s[s.len() - 1].name != name);
        assert(init.push(s.last()) =~= s);
    }
}

/// A saved playlist replaces any of the same name: afterwards exactly one
/// playlist has that name, the newest, with the tracks given.
pub proof fn lemma_saved_playlist_unique(
    h: HistoryView,
    name: Seq<char>,
    tracks: Seq<Seq<char>>,
    now: u64,
)
    ensures
        ({
            let ps = with_playlist(h, name, tracks, now).playlists;
            &&& ps.len() > 0
            &&& ps.last() == (PlaylistView { name, tracks, created_at: now })
            &&& forall|i: int| 0 <= i < ps.len() - 1 ==> (#[trigger] ps[i]).name != name
        }),
{
    lemma_playlists_except_none(h.playlists, name);
    let e = playlists_except(h.playlists, name);
    let ps = with_playlist(h, name, tracks, now).playlists;
    assert forall|i: int| 0 <= i < ps.len() - 1 implies (#[trigger] ps[i]).name != name by {
        assert(ps[i] == e[i]);
    }
}

/// Removing a playlist leaves none of that name; removing it after saving
/// it gives the journal as removing it alone would.
pub proof fn lemma_remove_after_add(
    h: HistoryView,
    name: Seq<char>,
    tracks: Seq<Seq<char>>,
    now: u64,
)
    ensures
        forall|i: int|
            0 <= i < without_playlist(h, name).playlists.len() ==> (#[trigger] without_playlist(
                h,
                name,
            ).playlists[i]).name != name,
        without_playlist(with_playlist(h, name, tracks, now), name) == without_playlist(h, name),
{
    lemma_playlists_except_none(h.playlists, name);
    let e = playlists_except(h.playlists, name);
    let pushed = e.push(PlaylistView { name, tracks, created_at: now });
    assert(pushed.drop_last() =~= e);
    lemma_playlists_except_noop(e, name);
    assert(playlists_except(pushed, name) == e);
}

/// Saving a playlist twice under one name keeps only the second.
pub proof fn lemma_add_twice(
    h: HistoryView,
    name: Seq<char>,
    t1: Seq<Seq<char>>,
    c1: u64,
    t2: Seq<Seq<char>>,
    c2: u64,
)
    ensures
        with_playlist(with_playlist(h, name, t1, c1), name, t2, c2) == with_playlist(
            h,
            name,
            t2,
            c2,
        ),
{
    lemma_remove_after_add(h, name, t1, c1);
    assert(without_playlist(with_playlist(h, name, t1, c1), name).playlists == playlists_except(
        h.playlists,
        name,
    ));
}

} // verus!
