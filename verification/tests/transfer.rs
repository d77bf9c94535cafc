use pelican::transfer::{
    expand_inputs, expand_inputs_into, expand_inputs_with, ext_supported, job_step, sanitize_name,
    Action, EntryKind, Event, Front, FsEntry, Input, Job, Options, Report, Stage,
};

#[test]
fn sanitize_name_caps_long_filenames() {
    let raw = "11 - Iva Davies, Christopher Gordon, Richard Tognetti - Ghost of Time - Tognetti Into the Fog.flac";
    let out = sanitize_name(raw);
    let stem_len = out
        .rsplit_once('.')
        .map(|(s, _)| s.len())
        .unwrap_or(out.len());
    assert!(stem_len <= 56, "stem must be ≤56 chars, got {stem_len}: {out}");
    assert!(out.ends_with(".flac"), "extension preserved (lowercased): {out}");
}

#[test]
fn sanitize_name_strips_fat_hostile_chars() {
    let out = sanitize_name("a/b\\c:d*e?f\"g<h>i|j.mp3");
    assert!(!out.contains(['/', '\\', ':', '*', '?', '"', '<', '>', '|']));
    assert!(out.ends_with(".mp3"));
}

#[test]
fn sanitize_name_keeps_short_names() {
    assert_eq!(sanitize_name("track-01.mp3"), "track-01.mp3");
}

#[test]
fn sanitize_name_lowercases_extension() {
    assert!(sanitize_name("track.MP3").ends_with(".mp3"));
    assert!(sanitize_name("song.FLAC").ends_with(".flac"));
}

#[test]
fn ext_supported_matches_garmin_formats() {
    for ok in ["x.mp3", "x.M4A", "x.m4b", "x.aac", "x.WAV"] {
        assert!(ext_supported(ok), "{ok} should be supported");
    }
    for ko in ["x.flac", "x.ogg", "x.opus", "x.wma", "x.txt", "x"] {
        assert!(!ext_supported(ko), "{ko} should NOT be supported");
    }
}

#[test]
fn sanitize_name_exact_values() {
    assert_eq!(sanitize_name("a/b\\c:d*e?f\"g<h>i|j.mp3"), "b-c-d-e-f-g-h-i-j.mp3");
    assert_eq!(sanitize_name("Héllo Wörld!!.OGG"), "H-llo W-rld.ogg");
    assert_eq!(sanitize_name("...---.mp3"), "audio.mp3");
    assert_eq!(sanitize_name("noext"), "noext");
    assert_eq!(sanitize_name(".hidden"), "hidden");
}

fn entry(path: &str, kind: EntryKind, parent: Option<usize>) -> FsEntry {
    FsEntry { path: path.to_string(), kind, parent }
}

fn album_listing() -> Vec<FsEntry> {
    vec![
        entry("/tmp/t", EntryKind::Dir, None),
        entry("/tmp/t/album", EntryKind::Dir, Some(0)),
        entry("/tmp/t/album/01-track.mp3", EntryKind::File, Some(1)),
        entry("/tmp/t/album/disc2", EntryKind::Dir, Some(1)),
        entry("/tmp/t/album/disc2/02-track.mp3", EntryKind::File, Some(3)),
        entry("/tmp/t/album/cover.jpg", EntryKind::File, Some(1)),
    ]
}

#[test]
fn expand_inputs_flattens_directory_tree() {
    let jobs = expand_inputs_with(&album_listing(), "Music", true);
    assert_eq!(jobs.len(), 3);
    for j in &jobs {
        assert_eq!(j.remote_dir, "Music", "flatten should keep dir==Music");
    }
    let names: Vec<&str> = jobs.iter().map(|j| j.remote_name.as_str()).collect();
    assert_eq!(names, vec!["01-track.mp3", "02-track.mp3", "cover.jpg"]);
    assert_eq!(jobs[1].src, "/tmp/t/album/disc2/02-track.mp3");
}

#[test]
fn expand_inputs_preserves_subfolders_when_not_flat() {
    let listing = vec![
        entry("/tmp/t", EntryKind::Dir, None),
        entry("/tmp/t/album", EntryKind::Dir, Some(0)),
        entry("/tmp/t/album/01.mp3", EntryKind::File, Some(1)),
        entry("/tmp/t/album/disc2", EntryKind::Dir, Some(1)),
        entry("/tmp/t/album/disc2/02.mp3", EntryKind::File, Some(3)),
    ];
    let jobs = expand_inputs_with(&listing, "Music", false);
    let dirs: Vec<&str> = jobs.iter().map(|j| j.remote_dir.as_str()).collect();
    assert_eq!(dirs, vec!["Music/t/album", "Music/t/album/disc2"]);
    assert!(dirs.iter().any(|d| d.starts_with("Music/")));
    assert!(dirs.iter().any(|d| d.contains("disc2")));
}

#[test]
fn expand_inputs_keeps_subfolders_of_listed_tree_when_not_flat() {
    let jobs = expand_inputs_with(&album_listing(), "Music", false);
    let dirs: Vec<&str> = jobs.iter().map(|j| j.remote_dir.as_str()).collect();
    assert_eq!(dirs, vec!["Music/t/album", "Music/t/album/disc2", "Music/t/album"]);
}

#[test]
fn expand_inputs_single_file_and_default_root() {
    let listing = vec![entry("/home/u/Long Name (Live).FLAC", EntryKind::File, None)];
    let jobs = expand_inputs(&listing);
    assert_eq!(jobs.len(), 1);
    assert_eq!(jobs[0].remote_dir, "Music");
    assert_eq!(jobs[0].remote_name, "Long Name -Live.flac");
    let into = expand_inputs_into(&listing, "Audiobooks");
    assert_eq!(into[0].remote_dir, "Audiobooks");
}

#[test]
fn expand_inputs_skips_other_kinds() {
    let listing = vec![entry("/dev/null", EntryKind::Other, None)];
    assert!(expand_inputs(&listing).is_empty());
}

fn job(src: &str) -> Job {
    Job { src: src.to_string(), remote_dir: "Music".to_string(), remote_name: "x.mp3".to_string() }
}

fn run(job: &Job, opts: Options, front: Front, inputs: Vec<Input>) -> Vec<Action> {
    let mut stage = Stage::Begin;
    let mut acts = Vec::new();
    for input in inputs {
        let (next, act) = job_step(job, &opts, front, stage, input);
        stage = next;
        acts.push(act);
    }
    acts
}

#[test]
fn protocol_skips_non_audio() {
    let acts = run(&job("notes.txt"), Options { skip_tag_check: true, transcode: true }, Front::Cli, vec![Input::Proceed, Input::Proceed, Input::Proceed]);
    assert!(matches!(&acts[0], Action::Send(Event::Started(s)) if s == "notes.txt"));
    assert!(matches!(&acts[1], Action::Send(Event::Skipped { reason, .. }) if reason == "not an audio file"));
    assert!(matches!(acts[2], Action::Finish));
}

#[test]
fn protocol_cli_full_upload_with_size_check() {
    let opts = Options { skip_tag_check: false, transcode: true };
    let acts = run(
        &job("/m/a.flac"),
        opts,
        Front::Cli,
        vec![
            Input::Proceed,
            Input::Proceed,
            Input::Normalized { path: "/tmp/p.mp3".into(), name: "a.mp3".into() },
            Input::TagsChecked(true),
            Input::FolderReady,
            Input::Uploaded(1234),
            Input::SizeReported(Some(99)),
        ],
    );
    assert!(matches!(&acts[1], Action::Normalize(s) if s == "/m/a.flac"));
    assert!(matches!(&acts[2], Action::CheckTags(p) if p == "/tmp/p.mp3"));
    assert!(matches!(&acts[3], Action::EnsureFolder(d) if d == "Music"));
    assert!(matches!(&acts[4], Action::Upload { path, dir, name } if path == "/tmp/p.mp3" && dir == "Music" && name == "a.mp3"));
    assert!(matches!(&acts[5], Action::QuerySize { name, .. } if name == "a.mp3"));
    assert!(matches!(&acts[6], Action::Send(Event::Failed { error, .. })
        if error == "post-write size mismatch: expected 1234, watch reports 99"));
}

#[test]
fn protocol_cli_unknown_size_is_done() {
    let opts = Options { skip_tag_check: true, transcode: false };
    let acts = run(
        &job("/m/a.mp3"),
        opts,
        Front::Cli,
        vec![Input::Proceed, Input::Proceed, Input::TagsChecked(false), Input::Proceed, Input::FolderReady, Input::Uploaded(7), Input::SizeUnknown],
    );
    assert!(matches!(&acts[2], Action::WarnUntagged(s) if s == "/m/a.mp3"));
    assert!(matches!(&acts[4], Action::Upload { path, name, .. } if path == "/m/a.mp3" && name == "x.mp3"));
    assert!(matches!(&acts[6], Action::Send(Event::Done { bytes: 7, .. })));
}

#[test]
fn protocol_error_wording_per_front() {
    let strict = Options { skip_tag_check: false, transcode: false };
    let cli = run(&job("/m/a.ogg"), strict, Front::Cli, vec![Input::Proceed, Input::Proceed]);
    assert!(matches!(&cli[1], Action::Send(Event::Skipped { reason, .. }) if reason == "needs transcode (--no-transcode is set)"));
    let gui = run(&job("/m/a.ogg"), strict, Front::Gui, vec![Input::Proceed, Input::Proceed]);
    assert!(matches!(&gui[1], Action::Send(Event::Skipped { reason, .. }) if reason == "needs normalization (toggle Transcode on)"));
    let tags = run(&job("/m/a.mp3"), strict, Front::Gui, vec![Input::Proceed, Input::Proceed, Input::TagsChecked(false)]);
    assert!(matches!(&tags[2], Action::Send(Event::Skipped { reason, .. })
        if reason == "missing ID3 title/artist \u{2014} uncheck 'Require tags' to send anyway"));
    let tags_cli = run(&job("/m/a.mp3"), strict, Front::Cli, vec![Input::Proceed, Input::Proceed, Input::TagsChecked(false)]);
    assert!(matches!(&tags_cli[2], Action::Send(Event::Skipped { reason, .. })
        if reason == "missing ID3 title/artist (would be hidden on watch)"));
    let folder = run(&job("/m/a.mp3"), strict, Front::Gui, vec![Input::Proceed, Input::Proceed, Input::TagsChecked(true), Input::FolderFailed("busy".into())]);
    assert!(matches!(&folder[3], Action::Send(Event::Failed { error, .. }) if error == "ensure_folder \u{b7} busy"));
    let folder_cli = run(&job("/m/a.mp3"), strict, Front::Cli, vec![Input::Proceed, Input::Proceed, Input::TagsChecked(true), Input::FolderFailed("busy".into())]);
    assert!(matches!(&folder_cli[3], Action::Send(Event::Failed { error, .. }) if error == "ensure_folder: busy"));
    let norm = run(&job("/m/a.flac"), Options { skip_tag_check: true, transcode: true }, Front::Cli, vec![Input::Proceed, Input::Proceed, Input::NormalizeFailed("boom".into())]);
    assert!(matches!(&norm[2], Action::Send(Event::Failed { error, .. }) if error == "normalize: boom"));
}

#[test]
fn protocol_gui_announces_transcoding_and_skips_size_check() {
    let opts = Options { skip_tag_check: true, transcode: true };
    let acts = run(
        &job("/m/Album/a.flac"),
        opts,
        Front::Gui,
        vec![
            Input::Proceed,
            Input::Proceed,
            Input::Proceed,
            Input::Normalized { path: "/tmp/p.mp3".into(), name: "a.mp3".into() },
            Input::TagsChecked(false),
            Input::Proceed,
            Input::Proceed,
            Input::FolderReady,
            Input::Uploaded(10),
            Input::Proceed,
        ],
    );
    assert!(matches!(&acts[1], Action::ShowTranscoding(l) if l == "a.flac"));
    assert!(matches!(&acts[2], Action::Normalize(_)));
    assert!(matches!(&acts[4], Action::Send(Event::Started(s)) if s == "/m/Album/a.flac"));
    assert!(matches!(&acts[5], Action::WarnUntagged(_)));
    assert!(matches!(&acts[6], Action::EnsureFolder(_)));
    assert!(matches!(&acts[8], Action::Send(Event::Done { bytes: 10, .. })));
    assert!(matches!(acts[9], Action::Finish));
}

#[test]
fn report_counts_outcomes() {
    let mut r = Report::default();
    for e in [
        Event::Started("a".into()),
        Event::Done { src: "a".into(), bytes: 1 },
        Event::Skipped { src: "b".into(), reason: "r".into() },
        Event::Failed { src: "c".into(), error: "e".into() },
        Event::Done { src: "d".into(), bytes: 2 },
        Event::Progress { src: "d".into(), transferred: 1, total: 2 },
    ] {
        r.count(&e);
    }
    assert_eq!((r.ok, r.skipped, r.failed), (2, 1, 1));
    assert_eq!(r.settled(), 3);
}

#[test]
fn protocol_cli_sends_started_then_one_outcome() {
    let opts = Options { skip_tag_check: true, transcode: false };
    let acts = run(
        &job("/m/a.mp3"),
        opts,
        Front::Cli,
        vec![
            Input::Proceed,
            Input::Proceed,
            Input::TagsChecked(false),
            Input::Proceed,
            Input::FolderReady,
            Input::Uploaded(7),
            Input::SizeReported(Some(7)),
            Input::Proceed,
        ],
    );
    let sent: Vec<&Event> = acts
        .iter()
        .filter_map(|a| match a {
            Action::Send(e) => Some(e),
            _ => None,
        })
        .collect();
    assert_eq!(sent.len(), 2);
    assert!(matches!(sent[0], Event::Started(s) if s == "/m/a.mp3"));
    assert!(matches!(sent[1], Event::Done { src, bytes: 7 } if src == "/m/a.mp3"));
    assert!(matches!(acts.last(), Some(Action::Finish)));
}

#[test]
fn protocol_cli_run_of_jobs_sends_started_and_outcome_per_job() {
    let opts = Options { skip_tag_check: false, transcode: false };
    let feeds = vec![
        (job("/m/notes.txt"), vec![Input::Proceed, Input::Proceed, Input::Proceed]),
        (
            job("/m/b.mp3"),
            vec![
                Input::Proceed,
                Input::Proceed,
                Input::TagsChecked(true),
                Input::FolderFailed("busy".into()),
                Input::Proceed,
            ],
        ),
    ];
    let mut sent = Vec::new();
    for (j, inputs) in feeds {
        for a in run(&j, opts, Front::Cli, inputs) {
            if let Action::Send(e) = a {
                sent.push(e);
            }
        }
    }
    assert_eq!(sent.len(), 4);
    assert!(matches!(&sent[0], Event::Started(s) if s == "/m/notes.txt"));
    assert!(matches!(&sent[1], Event::Skipped { src, .. } if src == "/m/notes.txt"));
    assert!(matches!(&sent[2], Event::Started(s) if s == "/m/b.mp3"));
    assert!(matches!(&sent[3], Event::Failed { src, error } if src == "/m/b.mp3" && error == "ensure_folder: busy"));
    let mut report = Report::default();
    for e in &sent {
        report.count(e);
    }
    assert_eq!(report.ok + report.skipped + report.failed, 2);
}
