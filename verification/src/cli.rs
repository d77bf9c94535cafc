//! The command line: its options, and the decisions of a headless run.

use vstd::prelude::*;

use crate::mtp::{RemoteEntry, RemoteEntryView};
use crate::playlist::is_playlist_name;
use crate::text::{chars_of, decimal, decimal_chars, push_all, string_of, trim_chars, trim_ws, TrimSet};
use crate::transfer::{Options, Report};

verus! {

broadcast use vstd::string::group_string_axioms;

/// The options of `pelican`.
#[derive(Debug)]
pub struct Cli {
    /// Run without the window. Implied by the operations below.
    pub headless: bool,
    /// Files or folders to copy to the watch's `Music/` folder.
    pub copy: Vec<String>,
    /// Require ID3 title and artist before upload; without this, untagged
    /// files go up but the watch's music app does not list them.
    pub require_tags: bool,
    /// Do not transcode through ffmpeg.
    pub no_transcode: bool,
    /// The watch to use, by USB serial.
    pub serial: Option<String>,
    /// Remote paths to delete (`Music/foo.mp3`, or a `‹unreadable #N›` name).
    pub delete: Vec<String>,
    /// List the `.m3u`/`.m3u8` playlists in `/Music` with their tracks.
    pub list_playlists: bool,
    /// Write a playlist of this name (without extension) from `track`.
    pub create_playlist: Option<String>,
    /// Track filenames (in `/Music`) for `create_playlist`.
    pub track: Vec<String>,
}

impl Cli {
    /// Whether to run without the window: asked for, or implied by any of
    /// `--copy`, `--delete`, `--list-playlists`, `--create-playlist`.
    pub fn wants_headless(&self) -> (r: bool)
        ensures
            r == (self.headless || self.copy@.len() > 0 || self.delete@.len() > 0
                || self.list_playlists || self.create_playlist is Some),
    {
        self.headless || self.copy.len() > 0 || self.delete.len() > 0 || self.list_playlists
            || self.create_playlist.is_some()
    }

    /// The upload options: tags are checked only with `--require-tags`,
    /// files are normalized unless `--no-transcode`.
    pub fn upload_options(&self) -> (r: Options)
        ensures
            r.skip_tag_check == !self.require_tags,
            r.transcode == !self.no_transcode,
    {
        Options { skip_tag_check: !self.require_tags, transcode: !self.no_transcode }
    }
}

/// A character kept in a playlist's filename: ASCII letters and digits,
/// `-`, `_` and space; anything else becomes `-`.
pub open spec fn playlist_file_char(c: char) -> char {
    if crate::text::is_ascii_alphanumeric(c) || c == '-' || c == '_' || c == ' ' {
        c
    } else {
        '-'
    }
}

/// The file a playlist named `name` is written to: the name trimmed, each
/// other character made `-`, with the `.m3u8` extension.
pub open spec fn playlist_file_of(name: Seq<char>) -> Seq<char> {
    trim_ws(name).map_values(|c: char| playlist_file_char(c)) + seq!['.'] + crate::playlist::EXT@
}

/// The file a playlist named `name` is written to (see `playlist_file_of`).
pub fn playlist_file_name(name: &str) -> (r: String)
    ensures
        r@ == playlist_file_of(name@),
{
    let cs = chars_of(name);
    let t = trim_chars(cs.as_slice(), TrimSet::Whitespace);
    let mut out: Vec<char> = Vec::new();
    let mut i: usize = 0;
    while i < t.len()
        invariant
            i <= t@.len(),
            out@ == t@.take(i as int).map_values(|c: char| playlist_file_char(c)),
        decreases t@.len() - i,
    {
        let c = t[i];
        let keep = crate::text::is_alphanumeric_ascii(c) || c == '-' || c == '_' || c == ' ';
        out.push(if keep { c } else { '-' });
        assert(t@.take(i + 1).map_values(|c: char| playlist_file_char(c)) =~= t@.take(
            i as int,
        ).map_values(|c: char| playlist_file_char(c)).push(playlist_file_char(c)));
        i += 1;
    }
    assert(t@.take(t@.len() as int) =~= t@);
    out.push('.');
    let ext = chars_of(crate::playlist::EXT);
    push_all(&mut out, ext.as_slice());
    assert(out@ =~= playlist_file_of(name@));
    string_of(out.as_slice())
}

/// A listing entry is a playlist to show: a readable file with a playlist
/// extension.
pub open spec fn listed_playlist(e: RemoteEntryView) -> bool {
    !e.is_folder && !e.is_broken && is_playlist_name(e.name)
}

/// Whether `--list-playlists` shows this entry.
pub fn is_listed_playlist(e: &RemoteEntry) -> (r: bool)
    ensures
        r == listed_playlist(e@),
{
    !e.is_folder && !e.is_broken && crate::playlist::is_playlist(e.name.as_str())
}

/// The closing line of a headless run:
/// `<ok> ok, <skipped> skipped, <failed> failed, <n> delete-failed`.
pub open spec fn summary_of(r: Report, delete_failed: usize) -> Seq<char> {
    decimal(r.ok as nat) + " ok, "@ + decimal(r.skipped as nat) + " skipped, "@ + decimal(
        r.failed as nat,
    ) + " failed, "@ + decimal(delete_failed as nat) + " delete-failed"@
}

fn push_text(out: &mut Vec<char>, s: &str)
    ensures
        final(out)@ == old(out)@ + s@,
{
    let cs = chars_of(s);
    push_all(out, cs.as_slice());
}

/// The closing line of a headless run (see `summary_of`).
pub fn summary_line(report: &Report, delete_failed: usize) -> (r: String)
    ensures
        r@ == summary_of(*report, delete_failed),
{
    let mut out = decimal_chars(report.ok as u128);
    push_text(&mut out, " ok, ");
    let s = decimal_chars(report.skipped as u128);
    push_all(&mut out, s.as_slice());
    push_text(&mut out, " skipped, ");
    let f = decimal_chars(report.failed as u128);
    push_all(&mut out, f.as_slice());
    push_text(&mut out, " failed, ");
    let d = decimal_chars(delete_failed as u128);
    push_all(&mut out, d.as_slice());
    push_text(&mut out, " delete-failed");
    string_of(out.as_slice())
}

/// A headless run fails when an upload failed or a deletion did.
pub fn run_failed(report: &Report, delete_failed: usize) -> (r: bool)
    ensures
        r == (report.failed > 0 || delete_failed > 0),
{
    report.failed > 0 || delete_failed > 0
}

} // verus!
