use pelican::garmin::Device;
use pelican::ui::{
    action_states, apply_op, begin_transmit, close_ops, file_counter, link_status, playlist_name,
    push_log, reconnect_due, repaint_after_ms, reselect_device, root_folders, saved_playlist_line,
    short_path, watch_breadcrumb, watch_placeholder, watch_up, is_staging_folder, BusyKind,
    LinkStatus, LogKind, LogLine, OpMsg, OpNote, OpState, Progress, ProgressStage, Selection,
    LOG_LIMIT,
};

fn rows(names: &[&str]) -> Vec<String> {
    names.iter().map(|s| s.to_string()).collect()
}

#[test]
fn status_dot() {
    assert_eq!(link_status(true, true, true, false), LinkStatus::Busy);
    assert_eq!(link_status(true, false, false, true), LinkStatus::Connected);
    assert_eq!(link_status(false, false, false, true), LinkStatus::Searching);
    assert_eq!(link_status(false, false, true, true), LinkStatus::CannotLink);
    assert_eq!(link_status(false, true, true, false), LinkStatus::Connecting);
    assert_eq!(LinkStatus::Connecting.label(), "Connecting\u{2026}");
    assert_eq!(LinkStatus::Searching.label(), "Searching for watch");
    assert!(LinkStatus::Busy.animates());
    assert!(!LinkStatus::CannotLink.animates());
}

#[test]
fn watch_pane_texts() {
    assert_eq!(watch_placeholder(false, true), "Searching for watch\u{2026}");
    assert_eq!(watch_placeholder(true, true), "Cannot link to watch.\nUnplug, replug, and unlock the screen.");
    assert_eq!(watch_placeholder(true, false), "Connecting to watch\u{2026}");
    assert_eq!(watch_breadcrumb(""), "/");
    assert_eq!(watch_breadcrumb("Music/Album"), "/Music/Album");
    assert!(is_staging_folder("music"));
    assert!(!is_staging_folder("Music/Album"));
    assert_eq!(root_folders(), vec!["Music", "Audiobooks", "Podcasts"]);
}

#[test]
fn watch_up_navigation() {
    assert_eq!(watch_up(""), None);
    assert_eq!(watch_up("Music"), Some(String::new()));
    assert_eq!(watch_up("Music/Album"), Some("Music".to_string()));
}

#[test]
fn click_toggles_and_shift_selects_range() {
    let r = rows(&["a", "b", "c", "d"]);
    let mut s = Selection::new();
    s.click(&r, 1, false);
    assert_eq!(s.items(), &vec!["b".to_string()]);
    assert_eq!(s.last_clicked(), Some(1));
    s.click(&r, 3, true);
    assert_eq!(s.items(), &rows(&["b", "c", "d"]));
    assert_eq!(s.last_clicked(), Some(1));
    s.click(&r, 0, true);
    assert_eq!(s.items(), &rows(&["b", "c", "d", "a"]));
    s.click(&r, 2, false);
    assert_eq!(s.items(), &rows(&["b", "d", "a"]));
    assert_eq!(s.last_clicked(), Some(2));
    s.click(&r, 9, false);
    assert_eq!(s.len(), 3);
}

#[test]
fn clicking_twice_restores_selection() {
    let r = rows(&["x", "y"]);
    let mut s = Selection::new();
    s.insert("y".to_string());
    s.click(&r, 0, false);
    s.click(&r, 0, false);
    assert_eq!(s.items(), &rows(&["y"]));
}

#[test]
fn drag_payload_and_take() {
    let mut s = Selection::new();
    s.insert("p".to_string());
    s.insert("p".to_string());
    assert_eq!(s.len(), 1);
    assert_eq!(s.drag_payload(&"q".to_string()), rows(&["p", "q"]));
    assert_eq!(s.drag_payload(&"p".to_string()), rows(&["p"]));
    assert!(s.contains(&"p".to_string()));
    let taken = s.take_items();
    assert_eq!(taken, rows(&["p"]));
    assert!(s.is_empty());
    s.clear();
    assert_eq!(s.last_clicked(), None);
}

fn dev(serial: Option<&str>) -> Device {
    Device { vendor_id: 0x091E, product_id: 1, serial: serial.map(String::from), product: None }
}

#[test]
fn device_reselection() {
    let devices = vec![dev(Some("A")), dev(Some("B"))];
    assert_eq!(reselect_device(Some(0), Some("B"), &devices), Some(1));
    assert_eq!(reselect_device(Some(1), Some("Z"), &devices), Some(0));
    assert_eq!(reselect_device(None, None, &devices), Some(0));
    assert_eq!(reselect_device(Some(1), None, &devices), Some(1));
    assert_eq!(reselect_device(Some(1), Some("A"), &vec![]), None);
}

#[test]
fn reconnect_throttle() {
    assert!(reconnect_due(false, false, true, false, None));
    assert!(!reconnect_due(false, false, true, false, Some(149)));
    assert!(reconnect_due(false, false, true, false, Some(150)));
    assert!(!reconnect_due(false, false, true, true, Some(1999)));
    assert!(reconnect_due(false, false, true, true, Some(2000)));
    assert!(!reconnect_due(true, false, true, false, None));
    assert!(!reconnect_due(false, true, true, false, None));
    assert!(!reconnect_due(false, false, false, false, None));
}

#[test]
fn log_keeps_newest_lines() {
    let mut log: Vec<LogLine> = Vec::new();
    for i in 0..(LOG_LIMIT + 3) {
        push_log(&mut log, LogKind::Info, format!("line {i}"));
    }
    assert_eq!(log.len(), LOG_LIMIT);
    assert_eq!(log[0].text, "line 3");
    assert_eq!(log[LOG_LIMIT - 1].text, format!("line {}", LOG_LIMIT + 2));
}

#[test]
fn short_paths() {
    assert_eq!(short_path("/home/u/a.mp3"), "/home/u/a.mp3");
    let long = format!("/home/u/{}/song.flac", "x".repeat(60));
    assert_eq!(short_path(&long), "\u{2026}/song.flac");
    assert_eq!(short_path(""), "");
}

fn state() -> OpState {
    OpState { busy: None, progress: None, free_space: Some((100, 1000)) }
}

#[test]
fn worker_messages_update_state() {
    let mut s = state();
    begin_transmit(&mut s);
    assert_eq!(s.busy, Some(BusyKind::Transmitting));
    assert_eq!(s.progress.as_ref().unwrap().label, "queueing\u{2026}");
    let out = apply_op(&mut s, OpMsg::Transcoding { file: "a.flac".into(), files_done: 0, files_total: 2 });
    assert!(matches!(out.note, OpNote::Quiet));
    assert_eq!(s.progress.as_ref().unwrap().stage, ProgressStage::Transcoding);
    apply_op(&mut s, OpMsg::Progress { file: "a.flac".into(), transferred: 5, total: 10, files_done: 0, files_total: 2 });
    let p = s.progress.as_ref().unwrap();
    assert_eq!((p.stage, p.file_done, p.file_total), (ProgressStage::Uploading, 5, 10));
    let out = apply_op(&mut s, OpMsg::Done { src: "/m/Album/a.flac".into(), bytes: 150, files_done: 1, files_total: 2 });
    assert_eq!(s.free_space, Some((0, 1000)));
    assert_eq!(s.progress.as_ref().unwrap().files_done, 1);
    assert_eq!(out.record, Some(("a".to_string(), 150)));
    assert!(matches!(out.note, OpNote::Sent { ref label, bytes: 150 } if label == "/m/Album/a.flac"));
    let out = apply_op(&mut s, OpMsg::JobFinished);
    assert!(out.refresh);
    assert_eq!(s.busy, None);
    assert!(s.progress.is_none());
}

#[test]
fn worker_messages_log_lines() {
    let mut s = state();
    let cases = vec![
        (OpMsg::Deleted("Music/x.mp3".into()), LogKind::Success, "\u{2715} purged \u{b7} /Music/x.mp3"),
        (OpMsg::DeleteError("Music/x.mp3".into(), "gone".into()), LogKind::Error, "\u{2715} purge /Music/x.mp3 \u{b7} gone"),
        (OpMsg::Started("/a/b.mp3".into()), LogKind::Info, "\u{2192} /a/b.mp3"),
        (OpMsg::Skipped { src: "/a/b.txt".into(), reason: "not an audio file".into() }, LogKind::Warn, "\u{b7} skip \u{b7} /a/b.txt \u{b7} not an audio file"),
        (OpMsg::Failed { src: "".into(), error: "plan \u{b7} oops".into() }, LogKind::Error, "\u{2715}  \u{b7} plan \u{b7} oops"),
    ];
    for (msg, kind, text) in cases {
        let out = apply_op(&mut s, msg);
        match out.note {
            OpNote::Log(k, t) => {
                assert_eq!(k, kind);
                assert_eq!(t, text);
            }
            other => panic!("unexpected note {other:?}"),
        }
    }
    assert_eq!(s.free_space, Some((100, 1000)));
    s.busy = Some(BusyKind::Purging);
    close_ops(&mut s);
    assert_eq!(s.busy, None);
}

#[test]
fn progress_counters() {
    let p = Progress { stage: ProgressStage::Uploading, label: "x".into(), file_done: 1, file_total: 2, files_done: 2, files_total: 2 };
    assert_eq!(file_counter(&p), Some((2, 2)));
    let q = Progress { files_done: 0, files_total: 3, ..p };
    assert_eq!(file_counter(&q), Some((1, 3)));
    let z = Progress { stage: ProgressStage::Transcoding, label: "x".into(), file_done: 0, file_total: 0, files_done: 0, files_total: 0 };
    assert_eq!(file_counter(&z), None);
}

#[test]
fn controls() {
    let a = action_states(2, 0, false, true, false);
    assert!(a.send && !a.delete && a.save_group);
    let b = action_states(0, 1, true, true, true);
    assert!(!b.send && !b.delete && !b.save_group);
    assert_eq!(playlist_name("  Long Run \n"), Some("Long Run".to_string()));
    assert_eq!(playlist_name("   "), None);
    assert_eq!(saved_playlist_line(&"Run".to_string(), true), (LogKind::Success, "\u{2713} saved local playlist \u{ab}Run\u{bb}".to_string()));
    assert_eq!(saved_playlist_line(&"Run".to_string(), false).0, LogKind::Warn);
    assert_eq!(repaint_after_ms(Some(ProgressStage::Transcoding), true), 33);
    assert_eq!(repaint_after_ms(Some(ProgressStage::Uploading), true), 80);
    assert_eq!(repaint_after_ms(None, false), 220);
}
