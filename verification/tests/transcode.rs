use pelican::transcode::{
    ffmpeg_args, is_audio, is_mp3, normalized_mp3_name, safe_tags_from_probe, safe_tags_from_text,
    sanitize_filename_stem, sanitize_tag_value, temp_file_name, MetaTag,
};

fn pairs(tags: &[MetaTag]) -> Vec<(String, String)> {
    tags.iter().map(|t| (t.key.clone(), t.value.clone())).collect()
}

#[test]
fn audio_classification() {
    assert!(is_audio("/a/b/song.FLAC"));
    assert!(is_audio("x.wv"));
    assert!(!is_audio("cover.jpg"));
    assert!(!is_audio("flac"));
    assert!(!is_audio(".mp3"));
    assert!(is_mp3("Track.MP3"));
    assert!(!is_mp3("track.mp3.flac"));
}

#[test]
fn stem_sanitizer_exact_values() {
    assert_eq!(sanitize_filename_stem("Hello / World"), "Hello - World");
    assert_eq!(sanitize_filename_stem("***"), "audio");
    assert_eq!(sanitize_filename_stem(""), "audio");
    assert_eq!(sanitize_filename_stem("a--b"), "a-b");
    let long = "x".repeat(80);
    assert_eq!(sanitize_filename_stem(&long).len(), 56);
}

#[test]
fn stem_sanitizer_is_idempotent_on_examples() {
    for raw in ["Héllo Wörld!!", "  ..a--b..  ", "Iva Davies, Christopher Gordon - Ghost of Time"] {
        let once = sanitize_filename_stem(raw);
        assert_eq!(sanitize_filename_stem(&once), once);
    }
}

#[test]
fn tag_values_lose_symbols_and_controls() {
    assert_eq!(sanitize_tag_value("  \u{2117} 2020 Label\u{7}  "), "2020 Label");
    assert_eq!(sanitize_tag_value("Beyoncé ™"), "Beyoncé");
    assert_eq!(sanitize_tag_value("\u{a9}\u{ae}"), "");
}

#[test]
fn probe_prefers_album_artist() {
    let probe = "[FORMAT]\nTAG:ARTIST=Iva Davies\nTAG:album_artist=Iva Davies, Christopher Gordon, Richard Tognetti\nTAG:TITLE= Ghost of Time \nTAG:COPYRIGHT=\u{2117} 2003\n[/FORMAT]\n";
    let tags = safe_tags_from_text(probe);
    assert_eq!(
        pairs(&tags),
        vec![
            ("title".to_string(), "Ghost of Time".to_string()),
            ("artist".to_string(), "Iva Davies, Christopher Gordon, Richard Tognetti".to_string()),
            ("album_artist".to_string(), "Iva Davies, Christopher Gordon, Richard Tognetti".to_string()),
        ]
    );
}

#[test]
fn probe_falls_back_to_albumartist_then_artist() {
    let t1 = safe_tags_from_text("TAG:albumartist=AA\nTAG:artist=A\n");
    assert_eq!(pairs(&t1)[0], ("artist".to_string(), "AA".to_string()));
    let t2 = safe_tags_from_text("TAG:artist=A\r\n");
    assert_eq!(pairs(&t2), vec![("artist".into(), "A".into()), ("album_artist".into(), "A".into())]);
}

#[test]
fn probe_last_line_wins_and_value_keeps_equals() {
    let tags = safe_tags_from_text("TAG:title=first\nTAG:TITLE=a=b\nnot a tag\nTAG:broken\n");
    assert_eq!(pairs(&tags), vec![("title".to_string(), "a=b".to_string())]);
}

#[test]
fn probe_drops_empty_values() {
    let tags = safe_tags_from_text("TAG:genre=\u{2122}\nTAG:date=1999\n");
    assert_eq!(pairs(&tags), vec![("date".to_string(), "1999".to_string())]);
}

#[test]
fn probe_bytes_are_read_lossily() {
    let tags = safe_tags_from_probe(b"TAG:album=Caf\xE9\n");
    assert_eq!(pairs(&tags), vec![("album".to_string(), "Caf\u{FFFD}".to_string())]);
}

#[test]
fn normalized_names() {
    assert_eq!(normalized_mp3_name("/music/01 - Intro (Live).flac"), "01 - Intro -Live.mp3");
    assert_eq!(normalized_mp3_name("/"), "audio.mp3");
}

#[test]
fn ffmpeg_args_for_mp3_copy_audio() {
    let tags = vec![MetaTag { key: "title".into(), value: "T".into() }];
    let args = ffmpeg_args("/m/a.mp3", &tags, "/tmp/o.mp3");
    assert_eq!(
        args,
        vec![
            "-y", "-hide_banner", "-loglevel", "error", "-i", "/m/a.mp3", "-vn", "-c:a", "copy",
            "-map_metadata", "-1", "-id3v2_version", "3", "-write_id3v1", "0", "-metadata",
            "title=T", "/tmp/o.mp3",
        ]
    );
}

#[test]
fn ffmpeg_args_transcode_other_formats() {
    let args = ffmpeg_args("/m/a.flac", &[], "/tmp/o.mp3");
    assert_eq!(
        args,
        vec![
            "-y", "-hide_banner", "-loglevel", "error", "-i", "/m/a.flac", "-vn", "-ac", "2",
            "-ar", "44100", "-codec:a", "libmp3lame", "-b:a", "192k", "-map_metadata", "-1",
            "-id3v2_version", "3", "-write_id3v1", "0", "/tmp/o.mp3",
        ]
    );
}

#[test]
fn temp_names() {
    assert_eq!(temp_file_name(42, 1_700_000_000_123_456_789), "pelican-42-1700000000123456789.mp3");
    assert_eq!(temp_file_name(0, 0), "pelican-0-0.mp3");
}

#[test]
fn safe_tags_come_in_allowlist_order() {
    let probe = "TAG:genre=Jazz\nTAG:TRACK=3\nTAG:copyright=x\nTAG:date=1959\nTAG:title=So What\nTAG:album=Kind of Blue\nTAG:artist=Miles Davis\nTAG:title=So What (take 2)\n";
    let tags = pairs(&safe_tags_from_text(probe));
    let keys: Vec<&str> = tags.iter().map(|(k, _)| k.as_str()).collect();
    assert_eq!(keys, vec!["title", "artist", "album_artist", "album", "track", "date", "genre"]);
    assert_eq!(tags[0].1, "So What (take 2)");
    assert_eq!(tags[2].1, "Miles Davis");
}
