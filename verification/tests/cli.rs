use pelican::cli::{is_listed_playlist, playlist_file_name, run_failed, summary_line, Cli};
use pelican::mtp::RemoteEntry;
use pelican::transfer::Report;

fn cli() -> Cli {
    Cli {
        headless: false,
        copy: vec![],
        require_tags: false,
        no_transcode: false,
        serial: None,
        delete: vec![],
        list_playlists: false,
        create_playlist: None,
        track: vec![],
    }
}

#[test]
fn headless_is_implied_by_operations() {
    assert!(!cli().wants_headless());
    assert!(Cli { headless: true, ..cli() }.wants_headless());
    assert!(Cli { copy: vec!["a".into()], ..cli() }.wants_headless());
    assert!(Cli { delete: vec!["Music/a.mp3".into()], ..cli() }.wants_headless());
    assert!(Cli { list_playlists: true, ..cli() }.wants_headless());
    assert!(Cli { create_playlist: Some("x".into()), ..cli() }.wants_headless());
}

#[test]
fn options_from_flags() {
    let o = cli().upload_options();
    assert!(o.skip_tag_check && o.transcode);
    let o = Cli { require_tags: true, no_transcode: true, ..cli() }.upload_options();
    assert!(!o.skip_tag_check && !o.transcode);
}

#[test]
fn playlist_file_names() {
    assert_eq!(playlist_file_name("  Long Run / 5k! "), "Long Run - 5k-.m3u8");
    assert_eq!(playlist_file_name("a_b-c"), "a_b-c.m3u8");
    assert_eq!(playlist_file_name(""), ".m3u8");
}

#[test]
fn listed_playlists() {
    let f = |name: &str, folder: bool, broken: bool| RemoteEntry { name: name.into(), path: name.into(), size: 0, is_folder: folder, is_broken: broken };
    assert!(is_listed_playlist(&f("a.m3u8", false, false)));
    assert!(!is_listed_playlist(&f("a.m3u8", true, false)));
    assert!(!is_listed_playlist(&f("a.m3u", false, true)));
    assert!(!is_listed_playlist(&f("a.mp3", false, false)));
}

#[test]
fn summary_and_exit() {
    let r = Report { ok: 3, skipped: 1, failed: 0 };
    assert_eq!(summary_line(&r, 2), "3 ok, 1 skipped, 0 failed, 2 delete-failed");
    assert!(run_failed(&r, 2));
    assert!(!run_failed(&r, 0));
    assert!(run_failed(&Report { ok: 0, skipped: 0, failed: 1 }, 0));
}
