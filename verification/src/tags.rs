//! Whether a file carries the ID3 title and artist that Garmin's music app
//! needs to list it.
//!
//! The watch hides files without a title and an artist from its library
//! view. MP3 files are read with the `id3` crate, M4A/M4B/AAC with
//! `mp4ameta`; other formats (WAV) pass, tags being optional there in
//! practice. The caller reads the file; this module decides on its bytes.

use vstd::prelude::*;

use id3::TagLike;

use crate::paths::{extension, extension_of};
use crate::text::{chars_eq_ignore_ascii_case, chars_of, eq_ignore_case};

verus! {

/// Which tag reader a file's extension calls for.
#[derive(Debug, Clone, Copy, PartialEq, Eq, Structural)]
pub enum TagFormat {
    /// `.mp3`: an ID3 tag.
    Id3,
    /// `.m4a`, `.m4b`, `.aac`: an MPEG-4 metadata tag.
    Mp4,
    /// Anything else: not checked.
    Untagged,
}

/// The tag format for a path, by its extension in any case.
pub open spec fn tag_format_of(path: Seq<char>) -> TagFormat {
    match extension_of(path) {
        Some(e) => if eq_ignore_case(e, seq!['m', 'p', '3']) {
            TagFormat::Id3
        } else if eq_ignore_case(e, seq!['m', '4', 'a']) || eq_ignore_case(e, seq!['m', '4', 'b'])
            || eq_ignore_case(e, seq!['a', 'a', 'c']) {
            TagFormat::Mp4
        } else {
            TagFormat::Untagged
        },
        None => TagFormat::Untagged,
    }
}

/// The title and artist fields of a tag, where present.
#[derive(Debug)]
pub struct TagText {
    pub title: Option<String>,
    pub artist: Option<String>,
}

pub struct TagTextView {
    pub title: Option<Seq<char>>,
    pub artist: Option<Seq<char>>,
}

pub open spec fn opt_string_view(o: Option<String>) -> Option<Seq<char>> {
    match o {
        Some(s) => Some(s@),
        None => None,
    }
}

impl View for TagText {
    type V = TagTextView;

    open spec fn view(&self) -> TagTextView {
        TagTextView { title: opt_string_view(self.title), artist: opt_string_view(self.artist) }
    }
}

pub open spec fn tag_text_view(o: Option<TagText>) -> Option<TagTextView> {
    match o {
        Some(t) => Some(t@),
        None => None,
    }
}

/// What `id3::Tag::read_from2` finds as title and artist in a file's bytes
/// (`None` when no tag can be read).
pub uninterp spec fn id3_tag_text(bytes: Seq<u8>) -> Option<TagTextView>;

/// What `mp4ameta::Tag::read_from` finds as title and artist in a file's
/// bytes (`None` when no tag can be read).
pub uninterp spec fn mp4_tag_text(bytes: Seq<u8>) -> Option<TagTextView>;

/// Reads the ID3 tag of an MP3 file's bytes with `id3::Tag::read_from2`
/// and hands out its title and artist. The result is named, not stated:
/// it is what the id3 crate makes of those bytes.
#[verifier::external_body]
fn read_id3_text(bytes: &[u8]) -> (r: Option<TagText>)
    ensures
        tag_text_view(r) == id3_tag_text(bytes@),
{
    match id3::Tag::read_from2(std::io::Cursor::new(bytes)) {
        Ok(tag) => Some(TagText {
            title: tag.title().map(String::from),
            artist: tag.artist().map(String::from),
        }),
        Err(_) => None,
    }
}

/// Reads the MPEG-4 metadata of an M4A/M4B/AAC file's bytes with
/// `mp4ameta::Tag::read_from` and hands out its title and artist. The
/// result is named, not stated: it is what mp4ameta makes of those bytes.
#[verifier::external_body]
fn read_mp4_text(bytes: &[u8]) -> (r: Option<TagText>)
    ensures
        tag_text_view(r) == mp4_tag_text(bytes@),
{
    match mp4ameta::Tag::read_from(&mut std::io::Cursor::new(bytes)) {
        Ok(tag) => Some(TagText {
            title: tag.title().map(String::from),
            artist: tag.artist().map(String::from),
        }),
        Err(_) => None,
    }
}

/// A tag was read and has both a title and an artist.
pub open spec fn title_and_artist(t: Option<TagTextView>) -> bool {
    match t {
        Some(v) => v.title is Some && v.artist is Some,
        None => false,
    }
}

/// Whether a file passes the tag check, given its path and its contents
/// (`None` when it could not be read).
pub open spec fn tags_ok(path: Seq<char>, contents: Option<Seq<u8>>) -> bool {
    match tag_format_of(path) {
        TagFormat::Id3 => match contents {
            Some(b) => title_and_artist(id3_tag_text(b)),
            None => false,
        },
        TagFormat::Mp4 => match contents {
            Some(b) => title_and_artist(mp4_tag_text(b)),
            None => false,
        },
        TagFormat::Untagged => true,
    }
}

/// What the reader for the path's format finds in `bytes` (`None` for a
/// format that is not read).
pub open spec fn tag_read(path: Seq<char>, bytes: Seq<u8>) -> Option<TagTextView> {
    match tag_format_of(path) {
        TagFormat::Id3 => id3_tag_text(bytes),
        TagFormat::Mp4 => mp4_tag_text(bytes),
        TagFormat::Untagged => None,
    }
}

/// A file whose format carries tags (MP3, M4A, M4B, AAC) passes the check
/// only when it could be read and its tag has both a title and an artist:
/// a tag without a title fails whatever its artist, one without an artist
/// fails whatever its title, and an unreadable file or tag fails. Files of
/// other formats always pass.
pub proof fn lemma_tag_check_needs_title_and_artist(path: Seq<char>, contents: Option<Seq<u8>>)
    ensures
        tag_format_of(path) is Untagged ==> tags_ok(path, contents),
        !(tag_format_of(path) is Untagged) ==> (tags_ok(path, contents) <==> (contents is Some
            && tag_read(path, contents->0) is Some && tag_read(path, contents->0)->0.title is Some
            && tag_read(path, contents->0)->0.artist is Some)),
        !(tag_format_of(path) is Untagged) && contents is Some && tag_read(path, contents->0) is Some
            && tag_read(path, contents->0)->0.title is None ==> !tags_ok(path, contents),
{
}

pub open spec fn bytes_view(o: Option<&[u8]>) -> Option<Seq<u8>> {
    match o {
        Some(b) => Some(b@),
        None => None,
    }
}

/// The tag format `path` calls for.
pub fn tag_format(path: &str) -> (r: TagFormat)
    ensures
        r == tag_format_of(path@),
{
    let p = chars_of(path);
    match extension(p.as_slice()) {
        Some(e) => {
            let mp3 = ['m', 'p', '3'];
            assert(mp3@ =~= seq!['m', 'p', '3']);
            let m4a = ['m', '4', 'a'];
            assert(m4a@ =~= seq!['m', '4', 'a']);
            let m4b = ['m', '4', 'b'];
            assert(m4b@ =~= seq!['m', '4', 'b']);
            let aac = ['a', 'a', 'c'];
            assert(aac@ =~= seq!['a', 'a', 'c']);
            if chars_eq_ignore_ascii_case(e.as_slice(), &mp3) {
                TagFormat::Id3
            } else if chars_eq_ignore_ascii_case(e.as_slice(), &m4a)
                || chars_eq_ignore_ascii_case(e.as_slice(), &m4b)
                || chars_eq_ignore_ascii_case(e.as_slice(), &aac) {
                TagFormat::Mp4
            } else {
                TagFormat::Untagged
            }
        },
        None => TagFormat::Untagged,
    }
}

/// Whether what a tag reader found has both a title and an artist.
pub fn has_title_and_artist(t: &Option<TagText>) -> (r: bool)
    ensures
        r == title_and_artist(tag_text_view(*t)),
{
    match t {
        Some(v) => v.title.is_some() && v.artist.is_some(),
        None => false,
    }
}

/// Whether the file at `path`, with `contents` (`None` when it could not
/// be read), has the ID3 title and artist the watch needs to list it. MP3
/// is read as ID3, M4A/M4B/AAC as MPEG-4 metadata; other formats pass.
pub fn has_required_tags(path: &str, contents: Option<&[u8]>) -> (r: bool)
    ensures
        r == tags_ok(path@, bytes_view(contents)),
{
    match tag_format(path) {
        TagFormat::Id3 => match contents {
            Some(b) => {
                let t = read_id3_text(b);
                has_title_and_artist(&t)
            },
            None => false,
        },
        TagFormat::Mp4 => match contents {
            Some(b) => {
                let t = read_mp4_text(b);
                has_title_and_artist(&t)
            },
            None => false,
        },
        TagFormat::Untagged => true,
    }
}

} // verus!
