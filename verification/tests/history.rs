use pelican::history::{
    add_playlist, file_name_for, record, remove_playlist, DeviceHistory, UPLOAD_LIMIT,
};

fn names(h: &DeviceHistory) -> Vec<(String, u64, u64)> {
    h.uploads.iter().map(|u| (u.name.clone(), u.bytes, u.at)).collect()
}

#[test]
fn fresh_history_is_empty() {
    let h = DeviceHistory::for_serial("ABC123");
    assert_eq!(h.serial, "ABC123");
    assert!(h.uploads.is_empty());
    assert!(h.playlists.is_empty());
    let d = DeviceHistory::default();
    assert_eq!(d.serial, "");
}

#[test]
fn journal_file_name_keeps_only_alphanumerics() {
    assert_eq!(file_name_for("3f2a-9B:x"), "uploads-3f2a_9B_x.json");
    assert_eq!(file_name_for(""), "uploads-.json");
    assert_eq!(file_name_for("é"), "uploads-_.json");
}

#[test]
fn record_appends_and_refreshes_same_file() {
    let mut h = DeviceHistory::for_serial("s");
    record(&mut h, "a", 10, 1);
    record(&mut h, "b", 20, 2);
    record(&mut h, "a", 11, 3);
    assert_eq!(names(&h), vec![("a".into(), 10, 1), ("b".into(), 20, 2), ("a".into(), 11, 3)]);
    record(&mut h, "a", 10, 4);
    assert_eq!(names(&h), vec![("b".into(), 20, 2), ("a".into(), 11, 3), ("a".into(), 10, 4)]);
}

#[test]
fn recording_twice_equals_recording_once_later() {
    let mut twice = DeviceHistory::for_serial("s");
    record(&mut twice, "x", 1, 5);
    record(&mut twice, "y", 2, 6);
    let mut once = DeviceHistory::for_serial("s");
    record(&mut once, "x", 1, 5);
    record(&mut once, "y", 2, 6);
    record(&mut twice, "x", 1, 7);
    record(&mut twice, "x", 1, 8);
    record(&mut once, "x", 1, 8);
    assert_eq!(names(&twice), names(&once));
}

#[test]
fn journal_keeps_newest_thousand() {
    let mut h = DeviceHistory::for_serial("s");
    for i in 0..(UPLOAD_LIMIT as u64 + 5) {
        record(&mut h, &format!("f{i}"), i, i);
    }
    assert_eq!(h.uploads.len(), UPLOAD_LIMIT);
    assert_eq!(h.uploads[0].name, "f5");
    assert_eq!(h.uploads[UPLOAD_LIMIT - 1].name, format!("f{}", UPLOAD_LIMIT + 4));
}

#[test]
fn playlists_replace_and_remove() {
    let mut h = DeviceHistory::for_serial("s");
    add_playlist(&mut h, "Run".into(), vec!["/m/a.mp3".into()], 1);
    add_playlist(&mut h, "Chill".into(), vec![], 2);
    add_playlist(&mut h, "Run".into(), vec!["/m/b.mp3".into(), "/m/c.mp3".into()], 3);
    let got: Vec<(String, usize, u64)> =
        h.playlists.iter().map(|p| (p.name.clone(), p.tracks.len(), p.created_at)).collect();
    assert_eq!(got, vec![("Chill".into(), 0, 2), ("Run".into(), 2, 3)]);
    assert_eq!(h.playlists[1].tracks, vec!["/m/b.mp3", "/m/c.mp3"]);
    remove_playlist(&mut h, "Run");
    assert_eq!(h.playlists.len(), 1);
    assert_eq!(h.playlists[0].name, "Chill");
    remove_playlist(&mut h, "nope");
    assert_eq!(h.playlists.len(), 1);
}

#[test]
fn remove_after_add_is_remove() {
    let mut a = DeviceHistory::for_serial("s");
    add_playlist(&mut a, "P".into(), vec!["t".into()], 1);
    add_playlist(&mut a, "Q".into(), vec![], 1);
    let mut b = DeviceHistory::for_serial("s");
    add_playlist(&mut b, "P".into(), vec!["t".into()], 1);
    add_playlist(&mut b, "Q".into(), vec![], 1);
    add_playlist(&mut a, "Q".into(), vec!["u".into()], 9);
    remove_playlist(&mut a, "Q");
    remove_playlist(&mut b, "Q");
    let na: Vec<&str> = a.playlists.iter().map(|p| p.name.as_str()).collect();
    let nb: Vec<&str> = b.playlists.iter().map(|p| p.name.as_str()).collect();
    assert_eq!(na, nb);
}
