use id3::TagLike;
use pelican::tags::{has_required_tags, has_title_and_artist, tag_format, TagFormat, TagText};

fn id3_bytes(title: Option<&str>, artist: Option<&str>) -> Vec<u8> {
    let mut tag = id3::Tag::new();
    if let Some(t) = title {
        tag.set_title(t);
    }
    if let Some(a) = artist {
        tag.set_artist(a);
    }
    let mut out = Vec::new();
    tag.write_to(&mut out, id3::Version::Id3v23).unwrap();
    out.extend_from_slice(&[0xFF, 0xFB, 0x90, 0x00]);
    out
}

#[test]
fn tag_format_by_extension() {
    assert_eq!(tag_format("a/b.MP3"), TagFormat::Id3);
    assert_eq!(tag_format("x.m4b"), TagFormat::Mp4);
    assert_eq!(tag_format("x.AAC"), TagFormat::Mp4);
    assert_eq!(tag_format("x.wav"), TagFormat::Untagged);
    assert_eq!(tag_format("mp3"), TagFormat::Untagged);
}

#[test]
fn mp3_with_title_and_artist_passes() {
    let bytes = id3_bytes(Some("Song"), Some("Band"));
    assert!(has_required_tags("s.mp3", Some(&bytes)));
}

#[test]
fn mp3_missing_artist_fails() {
    let bytes = id3_bytes(Some("Song"), None);
    assert!(!has_required_tags("s.mp3", Some(&bytes)));
    let none = id3_bytes(None, None);
    assert!(!has_required_tags("s.mp3", Some(&none)));
}

#[test]
fn unreadable_or_untagged_inputs() {
    assert!(!has_required_tags("s.mp3", None));
    assert!(!has_required_tags("s.mp3", Some(b"not an id3 tag at all")));
    assert!(!has_required_tags("s.m4a", Some(b"garbage")));
    assert!(!has_required_tags("s.m4a", None));
    assert!(has_required_tags("s.wav", None));
    assert!(has_required_tags("notes", Some(b"")));
}

#[test]
fn title_and_artist_check() {
    let both = Some(TagText { title: Some("t".into()), artist: Some("a".into()) });
    assert!(has_title_and_artist(&both));
    let one = Some(TagText { title: Some("t".into()), artist: None });
    assert!(!has_title_and_artist(&one));
    assert!(!has_title_and_artist(&None));
}
