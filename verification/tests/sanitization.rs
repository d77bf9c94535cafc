use pelican::transcode::{is_audio, safe_tags_from_text, STEM_CAP};
use pelican::transfer::ext_supported;

#[test]
fn filename_cap_documented() {
    let stem_cap = 56usize;
    let ext_len = ".mp3".len();
    assert!(stem_cap + ext_len <= 60, "stem cap + ext must fit in firmware limit");
    assert_eq!(STEM_CAP, stem_cap);
}

#[test]
fn supported_formats_match_firmware() {
    let claimed: &[&str] = &["mp3", "m4a", "m4b", "aac", "wav"];
    assert_eq!(claimed.len(), 5, "if Garmin adds/removes a supported format, update both this test and the supported set");
    for e in claimed {
        assert!(ext_supported(&format!("x.{e}")));
    }
}

#[test]
fn transcodable_formats_documented() {
    let need_transcode: &[&str] = &["flac", "ogg", "oga", "opus", "wma", "ape", "aiff", "aif", "wv", "alac"];
    for required in &["flac", "ogg", "opus"] {
        assert!(need_transcode.contains(required), "must transcode {required}");
    }
    for e in need_transcode {
        let p = format!("song.{e}");
        assert!(is_audio(&p), "{p} is audio");
        assert!(!ext_supported(&p), "{p} is not played as is");
    }
}

#[test]
fn tag_allowlist_is_strict() {
    let allowlist: &[&str] = &["title", "artist", "album", "track", "date", "genre"];
    assert_eq!(allowlist.len(), 6);
    let probe = "TAG:TITLE=t\nTAG:ARTIST=a\nTAG:ALBUM=b\nTAG:track=1\nTAG:DATE=2001\nTAG:GENRE=g\nTAG:DISCTOTAL=2\nTAG:ISRC=x\nTAG:QBZ:TID=9\n";
    let keys: Vec<String> = safe_tags_from_text(probe).into_iter().map(|t| t.key).collect();
    for k in &keys {
        assert!(allowlist.contains(&k.as_str()) || k == "album_artist", "unexpected {k}");
    }
}
