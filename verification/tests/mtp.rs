use pelican::mtp::{
    broken_entry_name, child_path, folder_steps, is_stale, listing_entries, listing_order, normalize_remote, order_of_keys,
    parent_path, raw_format, sort_entries, ListingKey, RawFormat, RemoteEntry,
};

#[test]
fn remote_keys_and_children() {
    assert_eq!(normalize_remote("/Music/"), "Music");
    assert_eq!(normalize_remote("//"), "");
    assert_eq!(child_path("", "a.mp3"), "a.mp3");
    assert_eq!(child_path("Music", "a.mp3"), "Music/a.mp3");
}

#[test]
fn parents() {
    assert_eq!(parent_path("Music/Album/a.mp3"), "Music/Album");
    assert_eq!(parent_path("Music"), "");
    assert_eq!(parent_path(""), "");
}

#[test]
fn broken_names() {
    assert_eq!(broken_entry_name(17), "\u{2039}unreadable #17\u{203A}");
}

#[test]
fn staleness_below_a_key() {
    assert!(is_stale("Music", "Music"));
    assert!(is_stale("Music/a.mp3", "Music"));
    assert!(!is_stale("Musical/a.mp3", "Music"));
    assert!(is_stale("Anything", ""));
}

#[test]
fn folder_steps_from_root() {
    let steps: Vec<(String, String)> =
        folder_steps("/Music//Album/").into_iter().map(|s| (s.name, s.key)).collect();
    assert_eq!(
        steps,
        vec![("Music".into(), "Music".into()), ("Album".into(), "Music/Album".into())]
    );
    assert!(folder_steps("").is_empty());
}

#[test]
fn raw_formats() {
    assert_eq!(raw_format("List.M3U8"), RawFormat::Playlist);
    assert_eq!(raw_format("x.m3u"), RawFormat::Playlist);
    assert_eq!(raw_format("x.mp3"), RawFormat::Undefined);
}

fn e(name: &str, folder: bool) -> RemoteEntry {
    RemoteEntry { name: name.into(), path: format!("Music/{name}"), size: 1, is_folder: folder, is_broken: false }
}

#[test]
fn listing_folders_first_then_by_lowercase_name() {
    let sorted = sort_entries(vec![e("b.mp3", false), e("Zeta", true), e("A.mp3", false), e("alpha", true), e("a.mp3", false)]);
    let names: Vec<&str> = sorted.iter().map(|x| x.name.as_str()).collect();
    assert_eq!(names, vec!["alpha", "Zeta", "A.mp3", "a.mp3", "b.mp3"]);
}

#[test]
fn listing_order_is_stable_and_complete() {
    let keys = vec![
        ListingKey { is_folder: false, name: "B".into() },
        ListingKey { is_folder: false, name: "b".into() },
        ListingKey { is_folder: true, name: "c".into() },
        ListingKey { is_folder: false, name: "Ä".into() },
        ListingKey { is_folder: false, name: "ä".into() },
    ];
    assert_eq!(listing_order(&keys), vec![2, 0, 1, 3, 4]);
    assert!(listing_order(&[]).is_empty());
}

#[test]
fn order_of_lowered_keys() {
    let key = |folder: bool, name: &str| (folder, name.chars().collect::<Vec<char>>());
    let keys = vec![key(false, "b"), key(true, "z"), key(false, "a"), key(false, "b"), key(true, "c")];
    assert_eq!(order_of_keys(&keys), vec![4, 1, 2, 0, 3]);
    // Code-point order: uppercase sorts before lowercase when not lowered.
    let raw = vec![key(false, "b"), key(false, "B")];
    assert_eq!(order_of_keys(&raw), vec![1, 0]);
    assert!(order_of_keys(&Vec::new()).is_empty());
}

#[test]
fn listing_entries_keep_unreadable_objects() {
    let objects = vec![
        ("a.mp3".to_string(), 1234u64, false),
        ("Album".to_string(), 0u64, true),
    ];
    let entries = listing_entries("Music", objects, vec![42]);
    assert_eq!(entries.len(), 3);
    assert_eq!(entries[0].path, "Music/a.mp3");
    assert_eq!(entries[0].size, 1234);
    assert!(!entries[0].is_folder && !entries[0].is_broken);
    assert_eq!(entries[1].path, "Music/Album");
    assert!(entries[1].is_folder);
    assert_eq!(entries[2].name, "\u{2039}unreadable #42\u{203A}");
    assert_eq!(entries[2].path, "Music/\u{2039}unreadable #42\u{203A}");
    assert_eq!(entries[2].size, 0);
    assert!(!entries[2].is_folder && entries[2].is_broken);
    let at_root = listing_entries("", vec![], vec![7]);
    assert_eq!(at_root[0].path, "\u{2039}unreadable #7\u{203A}");
}
