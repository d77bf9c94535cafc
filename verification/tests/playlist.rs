use pelican::playlist::{is_playlist, parse, parse_text, serialize_for_device, PathStyle, EXT};

#[test]
fn parse_strips_extm3u() {
    let bytes = b"#EXTM3U\n#EXTINF:30,Title\ntrack.mp3\n";
    assert_eq!(parse(bytes), vec!["track.mp3"]);
}

#[test]
fn parse_handles_crlf_and_blank_lines() {
    let bytes = b"#EXTM3U\r\ntrack-1.mp3\r\n\r\ntrack-2.mp3\r\n";
    assert_eq!(parse(bytes), vec!["track-1.mp3", "track-2.mp3"]);
}

#[test]
fn parse_only_header_returns_empty() {
    assert!(parse(b"#EXTM3U\n").is_empty());
    assert!(parse(b"").is_empty());
}

#[test]
fn parse_strips_all_comment_lines() {
    let bytes = b"#EXTM3U\n#EXTINF:60,Foo\n#EXTBYT:1234\ntrack.mp3\n#anything-else-with-hash\n";
    assert_eq!(parse(bytes), vec!["track.mp3"]);
}

#[test]
fn is_playlist_extension_match() {
    assert!(is_playlist("foo.m3u"));
    assert!(is_playlist("foo.M3U8"));
    assert!(is_playlist("Bar.m3u8"));
    assert!(!is_playlist("foo.mp3"));
    assert!(!is_playlist("m3u8"));
    assert!(!is_playlist(""));
}

#[test]
fn device_format_skips_leading_slash() {
    let tracks = vec!["/already-rooted.mp3".to_string()];
    let bytes = serialize_for_device(&tracks, PathStyle::BareCasePreserved);
    let s = std::str::from_utf8(&bytes).unwrap();
    assert_eq!(s, "#EXTM3U\nalready-rooted.mp3\n");
}

#[test]
fn device_format_empty_track_list_is_just_header() {
    let bytes = serialize_for_device(&[], PathStyle::BareCasePreserved);
    assert_eq!(bytes, b"#EXTM3U\n");
}

#[test]
fn device_format_uppercase_with_prefix() {
    let tracks = vec!["Some Track.mp3".to_string(), "another.MP3".to_string()];
    let bytes = serialize_for_device(&tracks, PathStyle::UppercaseWithPrefix);
    let s = std::str::from_utf8(&bytes).unwrap();
    assert_eq!(s, "#EXTM3U\n0:/MUSIC/SOME TRACK.MP3\n0:/MUSIC/ANOTHER.MP3\n");
}

#[test]
fn device_format_bare_case_preserved() {
    let tracks = vec!["Some Track.mp3".to_string(), "another.MP3".to_string()];
    let bytes = serialize_for_device(&tracks, PathStyle::BareCasePreserved);
    let s = std::str::from_utf8(&bytes).unwrap();
    assert_eq!(s, "#EXTM3U\nSome Track.mp3\nanother.MP3\n");
}

#[test]
fn written_playlist_reads_back() {
    let tracks = vec!["01-intro.mp3".to_string(), "Ünïcode – track.mp3".to_string()];
    let bytes = serialize_for_device(&tracks, PathStyle::BareCasePreserved);
    assert_eq!(parse(&bytes), tracks);
}

#[test]
fn written_playlist_with_prefix_reads_back_as_lines() {
    let tracks = vec!["  /a.mp3 ".to_string(), "b.m4a".to_string()];
    let bytes = serialize_for_device(&tracks, PathStyle::UppercaseWithPrefix);
    assert_eq!(parse(&bytes), vec!["0:/MUSIC/A.MP3", "0:/MUSIC/B.M4A"]);
}

#[test]
fn serialize_trims_whitespace_and_all_leading_slashes() {
    let tracks = vec!["  //deep.mp3\t".to_string()];
    let bytes = serialize_for_device(&tracks, PathStyle::BareCasePreserved);
    assert_eq!(bytes, b"#EXTM3U\ndeep.mp3\n");
}

#[test]
fn parse_invalid_utf8_becomes_replacement_character() {
    let bytes = b"#EXTM3U\nbad\xFFname.mp3\n";
    assert_eq!(parse(bytes), vec!["bad\u{FFFD}name.mp3"]);
}

#[test]
fn parse_text_trims_lines() {
    assert_eq!(parse_text("  a.mp3  \n\t#x\n\n b.mp3"), vec!["a.mp3", "b.mp3"]);
}

#[test]
fn playlist_extension_is_m3u8() {
    assert_eq!(EXT, "m3u8");
    assert!(is_playlist(&format!("x.{EXT}")));
}
