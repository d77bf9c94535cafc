//! Job planning and the per-job upload protocol.
//!
//! Each input path expands into one or more `Job`s. A worker then takes each
//! job through a fixed protocol: announce it, skip what is not audio,
//! normalize (or check that the format is playable as is), check the tags,
//! make sure the remote folder exists, upload, and compare the size the
//! watch reports. The decisions of that protocol live in `job_step`; the
//! caller performs the actions it asks for and feeds back what happened.

use vstd::prelude::*;
use vstd::string::StringExecFns;

use crate::garmin::music_folder;
use crate::paths::{
    extension, extension_of, file_name, file_name_of, file_stem, file_stem_of, view_opt,
};
use crate::text::{
    chars_eq_ignore_ascii_case, chars_of, decimal, decimal_chars, eq_ignore_case, lower_chars,
    lower_seq, push_all, string_of,
};
use crate::transcode::{is_audio, is_audio_path, sanitize_stem_chars, sanitized_stem};

verus! {

broadcast use vstd::string::group_string_axioms;

// ── remote names ────────────────────────────────────────────────────────

/// The name a file is given on the watch: its stem sanitized as for
/// transcoded files, followed by its extension in ASCII lowercase.
pub open spec fn sanitized_name(name: Seq<char>) -> Seq<char> {
    let stem = match file_stem_of(name) {
        Some(s) => s,
        None => name,
    };
    let cleaned = sanitized_stem(stem);
    match extension_of(name) {
        Some(e) => cleaned + seq!['.'] + lower_seq(e),
        None => cleaned,
    }
}

/// The characters of `sanitized_name(name)`.
pub fn sanitize_name_chars(name: &[char]) -> (r: Vec<char>)
    ensures
        r@ == sanitized_name(name@),
{
    let stem = match file_stem(name) {
        Some(s) => s,
        None => vstd::slice::slice_to_vec(name),
    };
    let mut out = sanitize_stem_chars(stem.as_slice());
    match extension(name) {
        Some(e) => {
            let ghost cleaned = out@;
            out.push('.');
            let low = lower_chars(e.as_slice());
            push_all(&mut out, low.as_slice());
            assert(out@ =~= cleaned + seq!['.'] + lower_seq(e@));
        },
        None => {},
    }
    out
}

/// The remote filename for `name`: stem capped at 56 safe characters
/// (see `transcode::sanitize_filename_stem`), extension lowercased.
pub fn sanitize_name(name: &str) -> (r: String)
    ensures
        r@ == sanitized_name(name@),
{
    let cs = chars_of(name);
    let out = sanitize_name_chars(cs.as_slice());
    string_of(out.as_slice())
}

/// The formats Garmin firmware plays as they are: mp3, m4a, m4b, aac, wav.
pub open spec fn is_supported_ext(e: Seq<char>) -> bool {
    ||| eq_ignore_case(e, seq!['m', 'p', '3'])
    ||| eq_ignore_case(e, seq!['m', '4', 'a'])
    ||| eq_ignore_case(e, seq!['m', '4', 'b'])
    ||| eq_ignore_case(e, seq!['a', 'a', 'c'])
    ||| eq_ignore_case(e, seq!['w', 'a', 'v'])
}

/// The path has one of the extensions the watch plays without transcoding.
pub open spec fn is_supported_path(p: Seq<char>) -> bool {
    match extension_of(p) {
        Some(e) => is_supported_ext(e),
        None => false,
    }
}

fn supported_ext(e: &[char]) -> (r: bool)
    ensures
        r == is_supported_ext(e@),
{
    let mp3 = ['m', 'p', '3'];
    assert(mp3@ =~= seq!['m', 'p', '3']);
    let m4a = ['m', '4', 'a'];
    assert(m4a@ =~= seq!['m', '4', 'a']);
    let m4b = ['m', '4', 'b'];
    assert(m4b@ =~= seq!['m', '4', 'b']);
    let aac = ['a', 'a', 'c'];
    assert(aac@ =~= seq!['a', 'a', 'c']);
    let wav = ['w', 'a', 'v'];
    assert(wav@ =~= seq!['w', 'a', 'v']);
    chars_eq_ignore_ascii_case(e, &mp3) || chars_eq_ignore_ascii_case(e, &m4a)
        || chars_eq_ignore_ascii_case(e, &m4b) || chars_eq_ignore_ascii_case(e, &aac)
        || chars_eq_ignore_ascii_case(e, &wav)
}

/// Whether `path` is in a format the watch plays without transcoding.
pub fn ext_supported(path: &str) -> (r: bool)
    ensures
        r == is_supported_path(path@),
{
    let p = chars_of(path);
    match extension(p.as_slice()) {
        Some(e) => supported_ext(e.as_slice()),
        None => false,
    }
}

// ── jobs ────────────────────────────────────────────────────────────────

/// Upload options.
#[derive(Clone, Copy, Debug)]
pub struct Options {
    /// Upload files without ID3 title/artist anyway (with a warning).
    pub skip_tag_check: bool,
    /// Normalize every file through ffmpeg before upload.
    pub transcode: bool,
}

/// One file to upload: local source, remote folder, remote filename.
#[derive(Clone, Debug)]
pub struct Job {
    pub src: String,
    pub remote_dir: String,
    pub remote_name: String,
}

pub struct JobView {
    pub src: Seq<char>,
    pub remote_dir: Seq<char>,
    pub remote_name: Seq<char>,
}

impl View for Job {
    type V = JobView;

    open spec fn view(&self) -> JobView {
        JobView { src: self.src@, remote_dir: self.remote_dir@, remote_name: self.remote_name@ }
    }
}

/// What a local path turned out to be when it was listed.
#[derive(Clone, Copy, Debug, PartialEq, Eq, Structural)]
pub enum EntryKind {
    File,
    Dir,
    /// Neither a regular file nor a directory.
    Other,
}

/// One entry of a listing of the inputs: the inputs themselves and, under
/// each directory, its contents, in the order they were walked. `parent` is
/// the index of the directory the entry was found in (`None` for an input).
#[derive(Clone, Debug)]
pub struct FsEntry {
    pub path: String,
    pub kind: EntryKind,
    pub parent: Option<usize>,
}

pub struct FsEntryView {
    pub path: Seq<char>,
    pub kind: EntryKind,
    pub parent: Option<usize>,
}

impl View for FsEntry {
    type V = FsEntryView;

    open spec fn view(&self) -> FsEntryView {
        FsEntryView { path: self.path@, kind: self.kind, parent: self.parent }
    }
}

pub open spec fn listing_view(l: Seq<FsEntry>) -> Seq<FsEntryView> {
    l.map_values(|e: FsEntry| e@)
}

pub open spec fn jobs_view(j: Seq<Job>) -> Seq<JobView> {
    j.map_values(|x: Job| x@)
}

/// The remote folder that entry `i` lands in: the folder its parent
/// directory opens into, or `root` for an input.
pub open spec fn lands_in(l: Seq<FsEntryView>, root: Seq<char>, flatten: bool, i: int) -> Seq<
    char,
>
    decreases i, 0int,
{
    if 0 <= i < l.len() {
        match l[i].parent {
            Some(p) => if p < i {
                opens_into(l, root, flatten, p as int)
            } else {
                root
            },
            None => root,
        }
    } else {
        root
    }
}

/// The remote folder that the contents of directory `i` land in. Flattened,
/// that is the folder the directory itself lands in; otherwise a subfolder
/// named after the directory (sanitized like a file name).
pub open spec fn opens_into(l: Seq<FsEntryView>, root: Seq<char>, flatten: bool, i: int) -> Seq<
    char,
>
    decreases i, 1int,
{
    let here = lands_in(l, root, flatten, i);
    if flatten || !(0 <= i < l.len()) {
        here
    } else {
        match file_name_of(l[i].path) {
            Some(n) => here + seq!['/'] + sanitized_name(n),
            None => here,
        }
    }
}

/// The job planned for entry `i`, if it is a file with a name.
pub open spec fn job_for(l: Seq<FsEntryView>, root: Seq<char>, flatten: bool, i: int) -> Option<
    JobView,
> {
    if l[i].kind == EntryKind::File {
        match file_name_of(l[i].path) {
            Some(n) => Some(
                JobView {
                    src: l[i].path,
                    remote_dir: lands_in(l, root, flatten, i),
                    remote_name: sanitized_name(n),
                },
            ),
            None => None,
        }
    } else {
        None
    }
}

/// The jobs planned for the first `k` entries of the listing, in order.
pub open spec fn planned_jobs(l: Seq<FsEntryView>, root: Seq<char>, flatten: bool, k: int) -> Seq<
    JobView,
>
    decreases k,
{
    if k <= 0 {
        Seq::empty()
    } else {
        let before = planned_jobs(l, root, flatten, k - 1);
        match job_for(l, root, flatten, k - 1) {
            Some(j) => before.push(j),
            None => before,
        }
    }
}

fn clone_string(s: &String) -> (r: String)
    ensures
        r@ == s@,
{
    s.clone()
}

/// Plan the jobs for a listing of the inputs, every file landing under
/// `remote_root`. With `flatten`, every file lands directly in
/// `remote_root`; otherwise each directory becomes a subfolder.
pub fn expand_inputs_with(listing: &[FsEntry], remote_root: &str, flatten: bool) -> (r: Vec<Job>)
    ensures
        jobs_view(r@) == planned_jobs(
            listing_view(listing@),
            remote_root@,
            flatten,
            listing@.len() as int,
        ),
{
    let ghost l = listing_view(listing@);
    let root_chars = chars_of(remote_root);
    let mut jobs: Vec<Job> = Vec::new();
    // opened[i]: the folder that the contents of entry i land in.
    let mut opened: Vec<Vec<char>> = Vec::new();
    let mut i: usize = 0;
    while i < listing.len()
        invariant
            l == listing_view(listing@),
            root_chars@ == remote_root@,
            i <= listing@.len(),
            opened@.len() == i,
            forall|k: int| 0 <= k < i ==> #[trigger] opened@[k]@ == opens_into(l, remote_root@, flatten, k),
            jobs_view(jobs@) == planned_jobs(l, remote_root@, flatten, i as int),
        decreases listing@.len() - i,
    {
        let entry = &listing[i];
        let here: Vec<char> = match entry.parent {
            Some(p) => if p < i {
                vstd::slice::slice_to_vec(opened[p].as_slice())
            } else {
                vstd::slice::slice_to_vec(root_chars.as_slice())
            },
            None => vstd::slice::slice_to_vec(root_chars.as_slice()),
        };
        assert(here@ == lands_in(l, remote_root@, flatten, i as int));
        let path = chars_of(entry.path.as_str());
        let name = file_name(path.as_slice());
        let mut inner = vstd::slice::slice_to_vec(here.as_slice());
        if !flatten {
            match &name {
                Some(n) => {
                    let ghost h = inner@;
                    inner.push('/');
                    let dir_name = sanitize_name_chars(n.as_slice());
                    push_all(&mut inner, dir_name.as_slice());
                    assert(inner@ =~= h + seq!['/'] + sanitized_name(n@));
                },
                None => {},
            }
        }
        assert(inner@ == opens_into(l, remote_root@, flatten, i as int));
        opened.push(inner);
        let ghost before = jobs_view(jobs@);
        if entry.kind == EntryKind::File {
            match &name {
                Some(n) => {
                    let remote_name = sanitize_name_chars(n.as_slice());
                    let job = Job {
                        src: clone_string(&entry.path),
                        remote_dir: string_of(here.as_slice()),
                        remote_name: string_of(remote_name.as_slice()),
                    };
                    jobs.push(job);
                    assert(jobs_view(jobs@) =~= before.push(job@));
                },
                None => {},
            }
        }
        i += 1;
    }
    jobs
}

/// Plan jobs that all land in `remote_root`, flattening folders. Garmin
/// firmware is unreliable when listing newly created subfolders of `Music/`,
/// and the watch's library is built from ID3 tags anyway.
pub fn expand_inputs_into(listing: &[FsEntry], remote_root: &str) -> (r: Vec<Job>)
    ensures
        jobs_view(r@) == planned_jobs(
            listing_view(listing@),
            remote_root@,
            true,
            listing@.len() as int,
        ),
{
    expand_inputs_with(listing, remote_root, true)
}

/// Plan jobs that land in the watch's `Music` folder, flattened.
pub fn expand_inputs(listing: &[FsEntry]) -> (r: Vec<Job>)
    ensures
        jobs_view(r@) == planned_jobs(
            listing_view(listing@),
            seq!['M', 'u', 's', 'i', 'c'],
            true,
            listing@.len() as int,
        ),
{
    let root = music_folder();
    expand_inputs_with(listing, root.as_str(), true)
}

} // verus!

verus! {

// ── events and the report ───────────────────────────────────────────────

/// Progress of the worker, as reported to whoever drives the upload.
#[derive(Clone, Debug)]
pub enum Event {
    Started(String),
    Progress { src: String, transferred: u64, total: u64 },
    Skipped { src: String, reason: String },
    Done { src: String, bytes: u64 },
    Failed { src: String, error: String },
}

pub enum EventView {
    Started(Seq<char>),
    Progress { src: Seq<char>, transferred: u64, total: u64 },
    Skipped { src: Seq<char>, reason: Seq<char> },
    Done { src: Seq<char>, bytes: u64 },
    Failed { src: Seq<char>, error: Seq<char> },
}

impl View for Event {
    type V = EventView;

    open spec fn view(&self) -> EventView {
        match self {
            Event::Started(s) => EventView::Started(s@),
            Event::Progress { src, transferred, total } => EventView::Progress {
                src: src@,
                transferred: *transferred,
                total: *total,
            },
            Event::Skipped { src, reason } => EventView::Skipped { src: src@, reason: reason@ },
            Event::Done { src, bytes } => EventView::Done { src: src@, bytes: *bytes },
            Event::Failed { src, error } => EventView::Failed { src: src@, error: error@ },
        }
    }
}

/// Outcome counts of a run.
#[derive(Debug, Clone, Copy)]
pub struct Report {
    pub ok: usize,
    pub skipped: usize,
    pub failed: usize,
}

impl Default for Report {
    fn default() -> (r: Report)
        ensures
            r.ok == 0 && r.skipped == 0 && r.failed == 0,
    {
        Report { ok: 0, skipped: 0, failed: 0 }
    }
}

impl Report {
    /// Files settled so far, as the window counts them: sent or skipped
    /// (saturating).
    pub fn settled(&self) -> (r: usize)
        ensures
            r == if self.ok + self.skipped <= usize::MAX {
                (self.ok + self.skipped) as usize
            } else {
                usize::MAX
            },
    {
        self.ok.saturating_add(self.skipped)
    }

    /// Count one event: `Done` is ok, `Skipped` skipped, `Failed` failed;
    /// `Started` and `Progress` count for nothing. Counts saturate.
    pub fn count(&mut self, e: &Event)
        ensures
            final(self).ok == if e@ is Done && old(self).ok < usize::MAX {
                old(self).ok + 1
            } else {
                old(self).ok as int
            },
            final(self).skipped == if e@ is Skipped && old(self).skipped < usize::MAX {
                old(self).skipped + 1
            } else {
                old(self).skipped as int
            },
            final(self).failed == if e@ is Failed && old(self).failed < usize::MAX {
                old(self).failed + 1
            } else {
                old(self).failed as int
            },
    {
        match e {
            Event::Done { .. } => {
                if self.ok < usize::MAX {
                    self.ok = self.ok + 1;
                }
            },
            Event::Skipped { .. } => {
                if self.skipped < usize::MAX {
                    self.skipped = self.skipped + 1;
                }
            },
            Event::Failed { .. } => {
                if self.failed < usize::MAX {
                    self.failed = self.failed + 1;
                }
            },
            _ => {},
        }
    }
}

} // verus!

verus! {

// ── the per-job protocol ────────────────────────────────────────────────

/// Who drives the worker. The command line and the window word outcomes
/// differently; the window shows a "transcoding" notice before each
/// normalization and announces an untagged file again before sending it;
/// only the command line compares the size the watch reports after upload.
#[derive(Debug, Clone, Copy, PartialEq, Eq, Structural)]
pub enum Front {
    Cli,
    Gui,
}

/// Where a job's run stands.
#[derive(Debug)]
pub enum Stage {
    /// Nothing done yet.
    Begin,
    /// `Started` was sent.
    Announced,
    /// The window was told that the source is being transcoded.
    Labelled,
    /// Waiting for ffmpeg normalization of the source.
    Normalizing,
    /// Waiting for the tag check of the file to upload.
    CheckingTags { path: String, name: String },
    /// The file has no title/artist and is uploaded anyway; the window was
    /// sent `Started` for it again.
    Reannounced { path: String, name: String },
    /// The file has no title/artist and is uploaded anyway; a warning went out.
    Warned { path: String, name: String },
    /// Waiting for the remote folder.
    PreparingFolder { path: String, name: String },
    /// Waiting for the upload.
    Uploading { name: String },
    /// Waiting for the size the watch reports for the uploaded file.
    Verifying { name: String, bytes: u64 },
    /// The outcome (`Skipped`, `Failed` or `Done`) was sent.
    Reported,
    /// The job is over; any temporary file can go.
    Finished,
}

/// What happened to the work the previous action asked for.
#[derive(Debug)]
pub enum Input {
    /// The event was sent / the warning was logged / start the job.
    Proceed,
    /// Normalization wrote `path`, to be uploaded as `name`.
    Normalized { path: String, name: String },
    NormalizeFailed(String),
    /// Whether the file to upload has ID3 title and artist.
    TagsChecked(bool),
    FolderReady,
    FolderFailed(String),
    /// The upload finished; this many bytes were sent.
    Uploaded(u64),
    UploadFailed(String),
    /// The watch listed the folder; the size of the file, if it was found.
    SizeReported(Option<u64>),
    /// The folder could not be listed.
    SizeUnknown,
}

/// What the worker has to do next.
#[derive(Debug)]
pub enum Action {
    Send(Event),
    /// Tell the window that this file (by its name) is being transcoded.
    ShowTranscoding(String),
    /// Normalize the source through ffmpeg.
    Normalize(String),
    /// Check the ID3 title/artist of this file.
    CheckTags(String),
    /// Log that this source goes up without title/artist.
    WarnUntagged(String),
    EnsureFolder(String),
    Upload { path: String, dir: String, name: String },
    QuerySize { dir: String, name: String },
    /// The job is over.
    Finish,
}

pub enum StageView {
    Begin,
    Announced,
    Labelled,
    Normalizing,
    CheckingTags { path: Seq<char>, name: Seq<char> },
    Reannounced { path: Seq<char>, name: Seq<char> },
    Warned { path: Seq<char>, name: Seq<char> },
    PreparingFolder { path: Seq<char>, name: Seq<char> },
    Uploading { name: Seq<char> },
    Verifying { name: Seq<char>, bytes: u64 },
    Reported,
    Finished,
}

pub enum InputView {
    Proceed,
    Normalized { path: Seq<char>, name: Seq<char> },
    NormalizeFailed(Seq<char>),
    TagsChecked(bool),
    FolderReady,
    FolderFailed(Seq<char>),
    Uploaded(u64),
    UploadFailed(Seq<char>),
    SizeReported(Option<u64>),
    SizeUnknown,
}

pub enum ActionView {
    Send(EventView),
    ShowTranscoding(Seq<char>),
    Normalize(Seq<char>),
    CheckTags(Seq<char>),
    WarnUntagged(Seq<char>),
    EnsureFolder(Seq<char>),
    Upload { path: Seq<char>, dir: Seq<char>, name: Seq<char> },
    QuerySize { dir: Seq<char>, name: Seq<char> },
    Finish,
}

impl View for Stage {
    type V = StageView;

    open spec fn view(&self) -> StageView {
        match self {
            Stage::Begin => StageView::Begin,
            Stage::Announced => StageView::Announced,
            Stage::Labelled => StageView::Labelled,
            Stage::Normalizing => StageView::Normalizing,
            Stage::CheckingTags { path, name } => StageView::CheckingTags {
                path: path@,
                name: name@,
            },
            Stage::Reannounced { path, name } => StageView::Reannounced {
                path: path@,
                name: name@,
            },
            Stage::Warned { path, name } => StageView::Warned { path: path@, name: name@ },
            Stage::PreparingFolder { path, name } => StageView::PreparingFolder {
                path: path@,
                name: name@,
            },
            Stage::Uploading { name } => StageView::Uploading { name: name@ },
            Stage::Verifying { name, bytes } => StageView::Verifying { name: name@, bytes: *bytes },
            Stage::Reported => StageView::Reported,
            Stage::Finished => StageView::Finished,
        }
    }
}

impl View for Input {
    type V = InputView;

    open spec fn view(&self) -> InputView {
        match self {
            Input::Proceed => InputView::Proceed,
            Input::Normalized { path, name } => InputView::Normalized { path: path@, name: name@ },
            Input::NormalizeFailed(e) => InputView::NormalizeFailed(e@),
            Input::TagsChecked(b) => InputView::TagsChecked(*b),
            Input::FolderReady => InputView::FolderReady,
            Input::FolderFailed(e) => InputView::FolderFailed(e@),
            Input::Uploaded(n) => InputView::Uploaded(*n),
            Input::UploadFailed(e) => InputView::UploadFailed(e@),
            Input::SizeReported(s) => InputView::SizeReported(*s),
            Input::SizeUnknown => InputView::SizeUnknown,
        }
    }
}

impl View for Action {
    type V = ActionView;

    open spec fn view(&self) -> ActionView {
        match self {
            Action::Send(e) => ActionView::Send(e@),
            Action::ShowTranscoding(l) => ActionView::ShowTranscoding(l@),
            Action::Normalize(s) => ActionView::Normalize(s@),
            Action::CheckTags(p) => ActionView::CheckTags(p@),
            Action::WarnUntagged(s) => ActionView::WarnUntagged(s@),
            Action::EnsureFolder(d) => ActionView::EnsureFolder(d@),
            Action::Upload { path, dir, name } => ActionView::Upload {
                path: path@,
                dir: dir@,
                name: name@,
            },
            Action::QuerySize { dir, name } => ActionView::QuerySize { dir: dir@, name: name@ },
            Action::Finish => ActionView::Finish,
        }
    }
}

/// The inputs each stage waits for.
pub open spec fn accepts(stage: StageView, input: InputView) -> bool {
    match stage {
        StageView::Begin | StageView::Announced | StageView::Labelled | StageView::Reannounced {
            ..
        }
        | StageView::Warned { .. } | StageView::Reported => input is Proceed,
        StageView::Normalizing => input is Normalized || input is NormalizeFailed,
        StageView::CheckingTags { .. } => input is TagsChecked,
        StageView::PreparingFolder { .. } => input is FolderReady || input is FolderFailed,
        StageView::Uploading { .. } => input is Uploaded || input is UploadFailed,
        StageView::Verifying { .. } => input is SizeReported || input is SizeUnknown,
        StageView::Finished => false,
    }
}

pub open spec fn size_mismatch_message(expected: u64, actual: u64) -> Seq<char> {
    "post-write size mismatch: expected "@ + decimal(expected as nat) + ", watch reports "@
        + decimal(actual as nat)
}

pub open spec fn skipped(src: Seq<char>, reason: Seq<char>) -> (StageView, ActionView) {
    (StageView::Reported, ActionView::Send(EventView::Skipped { src, reason }))
}

pub open spec fn failed(src: Seq<char>, error: Seq<char>) -> (StageView, ActionView) {
    (StageView::Reported, ActionView::Send(EventView::Failed { src, error }))
}

/// Why a format the watch cannot play is skipped when normalization is off.
pub open spec fn unsupported_reason(front: Front) -> Seq<char> {
    match front {
        Front::Cli => "needs transcode (--no-transcode is set)"@,
        Front::Gui => "needs normalization (toggle Transcode on)"@,
    }
}

/// Why a file without title/artist is skipped when tags are required.
pub open spec fn untagged_reason(front: Front) -> Seq<char> {
    match front {
        Front::Cli => "missing ID3 title/artist (would be hidden on watch)"@,
        Front::Gui => "missing ID3 title/artist \u{2014} uncheck 'Require tags' to send anyway"@,
    }
}

/// The error reported when normalization failed with `e`.
pub open spec fn normalize_error(front: Front, e: Seq<char>) -> Seq<char> {
    match front {
        Front::Cli => "normalize: "@ + e,
        Front::Gui => e,
    }
}

/// The error reported when the remote folder could not be made ready.
pub open spec fn folder_error(front: Front, e: Seq<char>) -> Seq<char> {
    match front {
        Front::Cli => "ensure_folder: "@ + e,
        Front::Gui => "ensure_folder \u{b7} "@ + e,
    }
}

/// The name the window shows while a source is transcoded: its file name,
/// or `audio` when it has none.
pub open spec fn transcode_label(src: Seq<char>) -> Seq<char> {
    match file_name_of(src) {
        Some(n) => n,
        None => seq!['a', 'u', 'd', 'i', 'o'],
    }
}

/// One step of a job's run: from the stage it stands in and what happened
/// to the last action, the next stage and the next action.
pub open spec fn step_spec(
    job: JobView,
    opts: Options,
    front: Front,
    stage: StageView,
    input: InputView,
) -> (StageView, ActionView) {
    let src = job.src;
    match stage {
        StageView::Begin => (StageView::Announced, ActionView::Send(EventView::Started(src))),
        StageView::Announced => if !is_audio_path(src) {
            skipped(src, "not an audio file"@)
        } else if opts.transcode {
            match front {
                Front::Cli => (StageView::Normalizing, ActionView::Normalize(src)),
                Front::Gui => (
                    StageView::Labelled,
                    ActionView::ShowTranscoding(transcode_label(src)),
                ),
            }
        } else if !is_supported_path(src) {
            skipped(src, unsupported_reason(front))
        } else {
            (
                StageView::CheckingTags { path: src, name: job.remote_name },
                ActionView::CheckTags(src),
            )
        },
        StageView::Labelled => (StageView::Normalizing, ActionView::Normalize(src)),
        StageView::Normalizing => match input {
            InputView::Normalized { path, name } => (
                StageView::CheckingTags { path, name },
                ActionView::CheckTags(path),
            ),
            InputView::NormalizeFailed(e) => failed(src, normalize_error(front, e)),
            _ => (stage, ActionView::Finish),
        },
        StageView::CheckingTags { path, name } => match input {
            InputView::TagsChecked(true) => (
                StageView::PreparingFolder { path, name },
                ActionView::EnsureFolder(job.remote_dir),
            ),
            InputView::TagsChecked(false) => if !opts.skip_tag_check {
                skipped(src, untagged_reason(front))
            } else {
                match front {
                    Front::Cli => (StageView::Warned { path, name }, ActionView::WarnUntagged(src)),
                    Front::Gui => (
                        StageView::Reannounced { path, name },
                        ActionView::Send(EventView::Started(src)),
                    ),
                }
            },
            _ => (stage, ActionView::Finish),
        },
        StageView::Reannounced { path, name } => (
            StageView::Warned { path, name },
            ActionView::WarnUntagged(src),
        ),
        StageView::Warned { path, name } => (
            StageView::PreparingFolder { path, name },
            ActionView::EnsureFolder(job.remote_dir),
        ),
        StageView::PreparingFolder { path, name } => match input {
            InputView::FolderReady => (
                StageView::Uploading { name },
                ActionView::Upload { path, dir: job.remote_dir, name },
            ),
            InputView::FolderFailed(e) => failed(src, folder_error(front, e)),
            _ => (stage, ActionView::Finish),
        },
        StageView::Uploading { name } => match input {
            InputView::Uploaded(bytes) => match front {
                Front::Cli => (
                    StageView::Verifying { name, bytes },
                    ActionView::QuerySize { dir: job.remote_dir, name },
                ),
                Front::Gui => (
                    StageView::Reported,
                    ActionView::Send(EventView::Done { src, bytes }),
                ),
            },
            InputView::UploadFailed(e) => failed(src, e),
            _ => (stage, ActionView::Finish),
        },
        StageView::Verifying { name, bytes } => match input {
            InputView::SizeReported(Some(actual)) => if actual != bytes {
                failed(src, size_mismatch_message(bytes, actual))
            } else {
                (StageView::Reported, ActionView::Send(EventView::Done { src, bytes }))
            },
            _ => (StageView::Reported, ActionView::Send(EventView::Done { src, bytes })),
        },
        StageView::Reported => (StageView::Finished, ActionView::Finish),
        StageView::Finished => (stage, ActionView::Finish),
    }
}

fn copy_string(s: &String) -> (r: String)
    ensures
        r@ == s@,
{
    s.clone()
}

fn send_skipped(src: &String, reason: String) -> (r: (Stage, Action))
    ensures
        r.0@ == skipped(src@, reason@).0,
        r.1@ == skipped(src@, reason@).1,
{
    (Stage::Reported, Action::Send(Event::Skipped { src: copy_string(src), reason }))
}

fn send_failed(src: &String, error: String) -> (r: (Stage, Action))
    ensures
        r.0@ == failed(src@, error@).0,
        r.1@ == failed(src@, error@).1,
{
    (Stage::Reported, Action::Send(Event::Failed { src: copy_string(src), error }))
}

fn prefixed(prefix: &str, rest: &String) -> (r: String)
    ensures
        r@ == prefix@ + rest@,
{
    let mut m = prefix.to_string();
    m.append(rest.as_str());
    m
}

fn decimal_string(n: u64) -> (r: String)
    ensures
        r@ == decimal(n as nat),
{
    let d = decimal_chars(n as u128);
    string_of(d.as_slice())
}

fn unsupported_reason_text(front: Front) -> (r: String)
    ensures
        r@ == unsupported_reason(front),
{
    match front {
        Front::Cli => "needs transcode (--no-transcode is set)".to_string(),
        Front::Gui => "needs normalization (toggle Transcode on)".to_string(),
    }
}

fn untagged_reason_text(front: Front) -> (r: String)
    ensures
        r@ == untagged_reason(front),
{
    match front {
        Front::Cli => "missing ID3 title/artist (would be hidden on watch)".to_string(),
        Front::Gui => "missing ID3 title/artist \u{2014} uncheck 'Require tags' to send anyway".to_string(),
    }
}

fn transcode_label_text(src: &String) -> (r: String)
    ensures
        r@ == transcode_label(src@),
{
    let cs = chars_of(src.as_str());
    match file_name(cs.as_slice()) {
        Some(n) => string_of(n.as_slice()),
        None => {
            let a = ['a', 'u', 'd', 'i', 'o'];
            assert(a@ =~= seq!['a', 'u', 'd', 'i', 'o']);
            string_of(&a)
        },
    }
}

fn mismatch_text(expected: u64, actual: u64) -> (r: String)
    ensures
        r@ == size_mismatch_message(expected, actual),
{
    let mut m = "post-write size mismatch: expected ".to_string();
    let expected_text = decimal_string(expected);
    m.append(expected_text.as_str());
    m.append(", watch reports ");
    let actual_text = decimal_string(actual);
    m.append(actual_text.as_str());
    m
}

/// Take one step of a job's run. `stage` is where the run stands (start at
/// `Stage::Begin`, with `Input::Proceed`); `input` is what happened to the
/// action the previous step asked for.
pub fn job_step(job: &Job, opts: &Options, front: Front, stage: Stage, input: Input) -> (r: (
    Stage,
    Action,
))
    requires
        accepts(stage@, input@),
    ensures
        r.0@ == step_spec(job@, *opts, front, stage@, input@).0,
        r.1@ == step_spec(job@, *opts, front, stage@, input@).1,
{
    match stage {
        Stage::Begin => (Stage::Announced, Action::Send(Event::Started(copy_string(&job.src)))),
        Stage::Announced => {
            if !is_audio(job.src.as_str()) {
                send_skipped(&job.src, "not an audio file".to_string())
            } else if opts.transcode {
                match front {
                    Front::Cli => (Stage::Normalizing, Action::Normalize(copy_string(&job.src))),
                    Front::Gui => (
                        Stage::Labelled,
                        Action::ShowTranscoding(transcode_label_text(&job.src)),
                    ),
                }
            } else if !ext_supported(job.src.as_str()) {
                send_skipped(&job.src, unsupported_reason_text(front))
            } else {
                (
                    Stage::CheckingTags {
                        path: copy_string(&job.src),
                        name: copy_string(&job.remote_name),
                    },
                    Action::CheckTags(copy_string(&job.src)),
                )
            }
        },
        Stage::Labelled => (Stage::Normalizing, Action::Normalize(copy_string(&job.src))),
        Stage::Normalizing => match input {
            Input::Normalized { path, name } => {
                let check = copy_string(&path);
                (Stage::CheckingTags { path, name }, Action::CheckTags(check))
            },
            Input::NormalizeFailed(e) => match front {
                Front::Cli => send_failed(&job.src, prefixed("normalize: ", &e)),
                Front::Gui => send_failed(&job.src, e),
            },
            _ => (Stage::Normalizing, Action::Finish),
        },
        Stage::CheckingTags { path, name } => match input {
            Input::TagsChecked(present) => {
                if present {
                    (
                        Stage::PreparingFolder { path, name },
                        Action::EnsureFolder(copy_string(&job.remote_dir)),
                    )
                } else if !opts.skip_tag_check {
                    send_skipped(&job.src, untagged_reason_text(front))
                } else {
                    match front {
                        Front::Cli => (
                            Stage::Warned { path, name },
                            Action::WarnUntagged(copy_string(&job.src)),
                        ),
                        Front::Gui => (
                            Stage::Reannounced { path, name },
                            Action::Send(Event::Started(copy_string(&job.src))),
                        ),
                    }
                }
            },
            _ => (Stage::CheckingTags { path, name }, Action::Finish),
        },
        Stage::Reannounced { path, name } => (
            Stage::Warned { path, name },
            Action::WarnUntagged(copy_string(&job.src)),
        ),
        Stage::Warned { path, name } => (
            Stage::PreparingFolder { path, name },
            Action::EnsureFolder(copy_string(&job.remote_dir)),
        ),
        Stage::PreparingFolder { path, name } => match input {
            Input::FolderReady => {
                let upload_name = copy_string(&name);
                (
                    Stage::Uploading { name },
                    Action::Upload { path, dir: copy_string(&job.remote_dir), name: upload_name },
                )
            },
            Input::FolderFailed(e) => match front {
                Front::Cli => send_failed(&job.src, prefixed("ensure_folder: ", &e)),
                Front::Gui => send_failed(&job.src, prefixed("ensure_folder \u{b7} ", &e)),
            },
            _ => (Stage::PreparingFolder { path, name }, Action::Finish),
        },
        Stage::Uploading { name } => match input {
            Input::Uploaded(bytes) => match front {
                Front::Cli => {
                    let query_name = copy_string(&name);
                    (
                        Stage::Verifying { name, bytes },
                        Action::QuerySize { dir: copy_string(&job.remote_dir), name: query_name },
                    )
                },
                Front::Gui => (
                    Stage::Reported,
                    Action::Send(Event::Done { src: copy_string(&job.src), bytes }),
                ),
            },
            Input::UploadFailed(e) => send_failed(&job.src, e),
            _ => (Stage::Uploading { name }, Action::Finish),
        },
        Stage::Verifying { name, bytes } => {
            let mismatch = match input {
                Input::SizeReported(Some(actual)) => if actual != bytes {
                    Some(actual)
                } else {
                    None
                },
                _ => None,
            };
            match mismatch {
                Some(actual) => send_failed(&job.src, mismatch_text(bytes, actual)),
                None => (
                    Stage::Reported,
                    Action::Send(Event::Done { src: copy_string(&job.src), bytes }),
                ),
            }
        },
        Stage::Reported => (Stage::Finished, Action::Finish),
        Stage::Finished => (Stage::Finished, Action::Finish),
    }
}

} // verus!

verus! {

// ── laws of the protocol ────────────────────────────────────────────────

/// The stages and actions that a run goes through when it is fed `inputs`.
pub open spec fn run_steps(
    job: JobView,
    opts: Options,
    front: Front,
    stage: StageView,
    inputs: Seq<InputView>,
) -> (StageView, Seq<ActionView>)
    decreases inputs.len(),
{
    if inputs.len() == 0 {
        (stage, Seq::empty())
    } else {
        let (next, act) = step_spec(job, opts, front, stage, inputs[0]);
        let (last, rest) = run_steps(job, opts, front, next, inputs.drop_first());
        (last, seq![act] + rest)
    }
}

/// Every input is one the stage it arrives in waits for.
pub open spec fn well_fed(
    job: JobView,
    opts: Options,
    front: Front,
    stage: StageView,
    inputs: Seq<InputView>,
) -> bool
    decreases inputs.len(),
{
    inputs.len() == 0 || (accepts(stage, inputs[0]) && well_fed(
        job,
        opts,
        front,
        step_spec(job, opts, front, stage, inputs[0]).0,
        inputs.drop_first(),
    ))
}

/// An action that reports a job's outcome.
pub open spec fn is_outcome(a: ActionView) -> bool {
    match a {
        ActionView::Send(e) => e is Skipped || e is Done || e is Failed,
        _ => false,
    }
}

pub open spec fn outcome_count(acts: Seq<ActionView>) -> nat
    decreases acts.len(),
{
    if acts.len() == 0 {
        0
    } else {
        (if is_outcome(acts[0]) { 1nat } else { 0nat }) + outcome_count(acts.drop_first())
    }
}

pub open spec fn reported(s: StageView) -> nat {
    if s is Reported || s is Finished { 1 } else { 0 }
}

proof fn lemma_step_outcome(job: JobView, opts: Options, front: Front, stage: StageView, input: InputView)
    requires
        accepts(stage, input),
    ensures
        reported(step_spec(job, opts, front, stage, input).0) == reported(stage) + if is_outcome(
            step_spec(job, opts, front, stage, input).1,
        ) {
            1nat
        } else {
            0nat
        },
{
}

proof fn lemma_run_outcomes(job: JobView, opts: Options, front: Front, stage: StageView, inputs: Seq<InputView>)
    requires
        well_fed(job, opts, front, stage, inputs),
    ensures
        reported(run_steps(job, opts, front, stage, inputs).0) == reported(stage) + outcome_count(
            run_steps(job, opts, front, stage, inputs).1,
        ),
    decreases inputs.len(),
{
    if inputs.len() > 0 {
        let (next, act) = step_spec(job, opts, front, stage, inputs[0]);
        lemma_step_outcome(job, opts, front, stage, inputs[0]);
        lemma_run_outcomes(job, opts, front, next, inputs.drop_first());
        let rest = run_steps(job, opts, front, next, inputs.drop_first()).1;
        assert((seq![act] + rest).drop_first() =~= rest);
    }
}

/// Every job reports exactly one outcome: a run from the start that the
/// worker has carried to its end (`Finished`) has sent exactly one
/// `Skipped`, `Failed` or `Done`, and a run still under way at most one.
pub proof fn lemma_one_outcome_per_job(job: JobView, opts: Options, front: Front, inputs: Seq<InputView>)
    requires
        well_fed(job, opts, front, StageView::Begin, inputs),
    ensures
        run_steps(job, opts, front, StageView::Begin, inputs).0 is Finished ==> outcome_count(
            run_steps(job, opts, front, StageView::Begin, inputs).1,
        ) == 1,
        outcome_count(run_steps(job, opts, front, StageView::Begin, inputs).1) <= 1,
{
    lemma_run_outcomes(job, opts, front, StageView::Begin, inputs);
}

/// What holds of a job once it is past the format checks.
pub open spec fn past_checks(job: JobView, opts: Options, stage: StageView) -> bool {
    let playable = is_audio_path(job.src);
    let direct = |path: Seq<char>, name: Seq<char>|
        !opts.transcode ==> is_supported_path(job.src) && path == job.src && name
            == job.remote_name;
    match stage {
        StageView::Labelled | StageView::Normalizing => playable && opts.transcode,
        StageView::CheckingTags { path, name } => playable && direct(path, name),
        StageView::Reannounced { path, name } | StageView::Warned { path, name } => playable
            && direct(path, name) && opts.skip_tag_check,
        StageView::PreparingFolder { path, name } => playable && direct(path, name),
        StageView::Uploading { name } => playable && direct(job.src, name),
        StageView::Verifying { name, .. } => playable && direct(job.src, name),
        _ => true,
    }
}

/// What an action may only ask for on a job that passed the checks.
pub open spec fn action_allowed(job: JobView, opts: Options, a: ActionView) -> bool {
    match a {
        ActionView::Upload { path, dir, name } => {
            &&& is_audio_path(job.src)
            &&& dir == job.remote_dir
            &&& !opts.transcode ==> is_supported_path(job.src) && path == job.src && name
                == job.remote_name
        },
        ActionView::WarnUntagged(_) => opts.skip_tag_check,
        ActionView::Normalize(s) => is_audio_path(job.src) && opts.transcode && s == job.src,
        _ => true,
    }
}

proof fn lemma_step_allowed(job: JobView, opts: Options, front: Front, stage: StageView, input: InputView)
    requires
        accepts(stage, input),
        past_checks(job, opts, stage),
    ensures
        past_checks(job, opts, step_spec(job, opts, front, stage, input).0),
        action_allowed(job, opts, step_spec(job, opts, front, stage, input).1),
{
}

proof fn lemma_run_allowed(job: JobView, opts: Options, front: Front, stage: StageView, inputs: Seq<InputView>)
    requires
        well_fed(job, opts, front, stage, inputs),
        past_checks(job, opts, stage),
    ensures
        forall|k: int|
            0 <= k < run_steps(job, opts, front, stage, inputs).1.len() ==> action_allowed(
                job,
                opts,
                #[trigger] run_steps(job, opts, front, stage, inputs).1[k],
            ),
    decreases inputs.len(),
{
    if inputs.len() > 0 {
        let (next, act) = step_spec(job, opts, front, stage, inputs[0]);
        lemma_step_allowed(job, opts, front, stage, inputs[0]);
        lemma_run_allowed(job, opts, front, next, inputs.drop_first());
        let rest = run_steps(job, opts, front, next, inputs.drop_first()).1;
        assert forall|k: int| 0 <= k < (seq![act] + rest).len() implies action_allowed(
            job,
            opts,
            #[trigger] (seq![act] + rest)[k],
        ) by {
            if k > 0 {
                assert((seq![act] + rest)[k] == rest[k - 1]);
            }
        }
    }
}

/// Only audio goes up: in any run, an upload is only ever asked for an
/// audio source, into the job's remote folder; without transcoding, only
/// for a source the watch plays as it is, under the job's remote name.
/// Normalization is only asked for audio when transcoding is on, and a
/// file without title/artist is only let through (with a warning) when the
/// tag check is waived.
pub proof fn lemma_only_playable_uploads(job: JobView, opts: Options, front: Front, inputs: Seq<InputView>)
    requires
        well_fed(job, opts, front, StageView::Begin, inputs),
    ensures
        forall|k: int|
            0 <= k < run_steps(job, opts, front, StageView::Begin, inputs).1.len() ==> action_allowed(
                job,
                opts,
                #[trigger] run_steps(job, opts, front, StageView::Begin, inputs).1[k],
            ),
{
    lemma_run_allowed(job, opts, front, StageView::Begin, inputs);
}

/// A failed upload is reported as failed: at the upload stage, an upload
/// failure with error `e` ends the job with `Failed` of its source carrying
/// `e`, on either front.
pub proof fn lemma_upload_failure_reported(
    job: JobView,
    opts: Options,
    front: Front,
    name: Seq<char>,
    e: Seq<char>,
)
    ensures
        step_spec(job, opts, front, StageView::Uploading { name }, InputView::UploadFailed(e))
            == (StageView::Reported, ActionView::Send(EventView::Failed { src: job.src, error: e })),
{
}

/// `Done` follows only a successful upload, and carries its size: a step
/// that sends `Done { src, bytes }` does so for the job's source, either on
/// the input `Uploaded(bytes)` (the window) or at the size check that
/// follows such an upload (the command line), which is only entered on
/// `Uploaded(bytes)`. No failure input ever yields `Done`.
pub proof fn lemma_done_only_after_upload(
    job: JobView,
    opts: Options,
    front: Front,
    stage: StageView,
    input: InputView,
)
    requires
        accepts(stage, input),
    ensures
        ({
            let (next, act) = step_spec(job, opts, front, stage, input);
            &&& act matches ActionView::Send(EventView::Done { src, bytes }) ==> src == job.src && (
            input == InputView::Uploaded(bytes) || (stage is Verifying && stage->bytes == bytes))
            &&& next matches StageView::Verifying { bytes, .. } ==> input == InputView::Uploaded(
                bytes,
            ) && stage is Uploading
            &&& (input is UploadFailed || input is NormalizeFailed || input is FolderFailed)
                ==> !(act matches ActionView::Send(EventView::Done { .. }))
        }),
{
}

/// The events an action sends: the event of a `Send`, none otherwise.
pub open spec fn sent_by(a: ActionView) -> Seq<EventView> {
    match a {
        ActionView::Send(e) => seq![e],
        _ => Seq::empty(),
    }
}

/// The events a sequence of actions sends, in order.
pub open spec fn sent_events(acts: Seq<ActionView>) -> Seq<EventView>
    decreases acts.len(),
{
    if acts.len() == 0 {
        Seq::empty()
    } else {
        sent_by(acts[0]) + sent_events(acts.drop_first())
    }
}

/// `e` is the outcome (`Skipped`, `Failed` or `Done`) of the source `src`.
pub open spec fn is_outcome_of(e: EventView, src: Seq<char>) -> bool {
    match e {
        EventView::Skipped { src: s, .. } => s == src,
        EventView::Failed { src: s, .. } => s == src,
        EventView::Done { src: s, .. } => s == src,
        _ => false,
    }
}

/// The events a command-line run has sent by the time it stands in
/// `stage`: none at the start, `Started` while under way, `Started` and
/// one outcome once reported.
pub open spec fn cli_sent_so_far(src: Seq<char>, stage: StageView, ev: Seq<EventView>) -> bool {
    match stage {
        StageView::Begin => ev.len() == 0,
        StageView::Reported | StageView::Finished => {
            &&& ev.len() == 2
            &&& ev[0] == EventView::Started(src)
            &&& is_outcome_of(ev[1], src)
        },
        StageView::Reannounced { .. } => false,
        _ => ev == seq![EventView::Started(src)],
    }
}

proof fn lemma_cli_step_sent(
    job: JobView,
    opts: Options,
    stage: StageView,
    input: InputView,
    ev: Seq<EventView>,
)
    requires
        accepts(stage, input),
        cli_sent_so_far(job.src, stage, ev),
    ensures
        cli_sent_so_far(
            job.src,
            step_spec(job, opts, Front::Cli, stage, input).0,
            ev + sent_by(step_spec(job, opts, Front::Cli, stage, input).1),
        ),
{
    let (next, act) = step_spec(job, opts, Front::Cli, stage, input);
    let ev2 = ev + sent_by(act);
    if act is Send {
        assert(ev2 =~= ev.push(act->Send_0));
    } else {
        assert(ev2 =~= ev);
    }
    if stage is Begin {
        assert(ev2 =~= seq![EventView::Started(job.src)]);
    }
}

proof fn lemma_cli_run_sent(
    job: JobView,
    opts: Options,
    stage: StageView,
    inputs: Seq<InputView>,
    ev: Seq<EventView>,
)
    requires
        well_fed(job, opts, Front::Cli, stage, inputs),
        cli_sent_so_far(job.src, stage, ev),
    ensures
        cli_sent_so_far(
            job.src,
            run_steps(job, opts, Front::Cli, stage, inputs).0,
            ev + sent_events(run_steps(job, opts, Front::Cli, stage, inputs).1),
        ),
    decreases inputs.len(),
{
    let r = run_steps(job, opts, Front::Cli, stage, inputs);
    if inputs.len() == 0 {
        assert(ev + sent_events(r.1) =~= ev);
    } else {
        let (next, act) = step_spec(job, opts, Front::Cli, stage, inputs[0]);
        lemma_cli_step_sent(job, opts, stage, inputs[0], ev);
        lemma_cli_run_sent(job, opts, next, inputs.drop_first(), ev + sent_by(act));
        let rest = run_steps(job, opts, Front::Cli, next, inputs.drop_first()).1;
        assert((seq![act] + rest).drop_first() =~= rest);
        assert((seq![act] + rest)[0] == act);
        assert(sent_events(r.1) == sent_by(act) + sent_events(rest));
        assert(ev + sent_by(act) + sent_events(rest) =~= ev + sent_events(r.1));
    }
}

/// What a job sends on the command line is `Started` and then exactly one
/// outcome (`Skipped`, `Failed` or `Done`) for its source, and nothing
/// else: a run carried to its end has sent exactly those two events, and a
/// run still under way a beginning of them.
pub proof fn lemma_cli_job_events(job: JobView, opts: Options, inputs: Seq<InputView>)
    requires
        well_fed(job, opts, Front::Cli, StageView::Begin, inputs),
    ensures
        ({
            let r = run_steps(job, opts, Front::Cli, StageView::Begin, inputs);
            let ev = sent_events(r.1);
            &&& ev.len() <= 2
            &&& ev.len() >= 1 ==> ev[0] == EventView::Started(job.src)
            &&& ev.len() == 2 ==> is_outcome_of(ev[1], job.src)
            &&& r.0 is Finished ==> ev.len() == 2
        }),
{
    let r = run_steps(job, opts, Front::Cli, StageView::Begin, inputs);
    lemma_cli_run_sent(job, opts, StageView::Begin, inputs, Seq::empty());
    assert(Seq::<EventView>::empty() + sent_events(r.1) =~= sent_events(r.1));
}

/// The events a command-line job sends when it is fed `inputs`.
pub open spec fn cli_job_events(job: JobView, opts: Options, inputs: Seq<InputView>) -> Seq<
    EventView,
> {
    sent_events(run_steps(job, opts, Front::Cli, StageView::Begin, inputs).1)
}

/// The job was fed inputs its stages wait for and carried to its end.
pub open spec fn cli_job_completed(job: JobView, opts: Options, inputs: Seq<InputView>) -> bool {
    &&& well_fed(job, opts, Front::Cli, StageView::Begin, inputs)
    &&& run_steps(job, opts, Front::Cli, StageView::Begin, inputs).0 is Finished
}

/// The events of the jobs run one after the other, job `i` being fed
/// `feeds[i]`.
pub open spec fn cli_run_events(
    jobs: Seq<JobView>,
    opts: Options,
    feeds: Seq<Seq<InputView>>,
) -> Seq<EventView>
    decreases jobs.len(),
{
    if jobs.len() == 0 || feeds.len() == 0 {
        Seq::empty()
    } else {
        cli_run_events(jobs.drop_last(), opts, feeds.drop_last()) + cli_job_events(
            jobs.last(),
            opts,
            feeds.last(),
        )
    }
}

/// The number of outcomes (`Skipped`, `Failed`, `Done`) among `ev`.
pub open spec fn outcome_events(ev: Seq<EventView>) -> nat
    decreases ev.len(),
{
    if ev.len() == 0 {
        0
    } else {
        outcome_events(ev.drop_last()) + if ev.last() is Skipped || ev.last() is Failed
            || ev.last() is Done {
            1nat
        } else {
            0nat
        }
    }
}

/// A run of jobs on the command line, each carried to its end, sends in
/// job order `Started` of the job and then exactly one outcome of it, and
/// nothing else: event `2i` is `Started` of job `i`, event `2i + 1` its
/// outcome. So there are as many outcomes as jobs.
pub proof fn lemma_cli_run_events(jobs: Seq<JobView>, opts: Options, feeds: Seq<Seq<InputView>>)
    requires
        feeds.len() == jobs.len(),
        forall|i: int| 0 <= i < jobs.len() ==> cli_job_completed(#[trigger] jobs[i], opts, feeds[i]),
    ensures
        cli_run_events(jobs, opts, feeds).len() == 2 * jobs.len(),
        forall|i: int|
            0 <= i < jobs.len() ==> cli_run_events(jobs, opts, feeds)[2 * i] == EventView::Started(
                #[trigger] jobs[i].src,
            ) && is_outcome_of(cli_run_events(jobs, opts, feeds)[2 * i + 1], jobs[i].src),
        outcome_events(cli_run_events(jobs, opts, feeds)) == jobs.len(),
    decreases jobs.len(),
{
    if jobs.len() > 0 {
        let n = jobs.len() - 1;
        let ji = jobs.drop_last();
        let fi = feeds.drop_last();
        assert forall|i: int| 0 <= i < ji.len() implies cli_job_completed(
            #[trigger] ji[i],
            opts,
            fi[i],
        ) by {
            assert(ji[i] == jobs[i] && fi[i] == feeds[i]);
        }
        lemma_cli_run_events(ji, opts, fi);
        let before = cli_run_events(ji, opts, fi);
        let last = jobs[n];
        assert(cli_job_completed(last, opts, feeds[n]));
        lemma_cli_job_events(last, opts, feeds[n]);
        let ev = cli_job_events(last, opts, feeds[n]);
        let all = cli_run_events(jobs, opts, feeds);
        assert(all == before + ev);
        assert forall|i: int| 0 <= i < jobs.len() implies all[2 * i] == EventView::Started(
            #[trigger] jobs[i].src,
        ) && is_outcome_of(all[2 * i + 1], jobs[i].src) by {
            if i < n {
                assert(ji[i] == jobs[i]);
                assert(all[2 * i] == before[2 * i]);
                assert(all[2 * i + 1] == before[2 * i + 1]);
            } else {
                assert(all[2 * i] == ev[0]);
                assert(all[2 * i + 1] == ev[1]);
            }
        }
        assert(all =~= before.push(ev[0]).push(ev[1]));
        assert(all.drop_last() =~= before.push(ev[0]));
        assert(before.push(ev[0]).drop_last() =~= before);
        assert(is_outcome_of(ev[1], last.src));
        let mid = before.push(ev[0]);
        assert(mid.last() == ev[0]);
        assert(outcome_events(mid) == outcome_events(before));
        assert(all.last() == ev[1]);
        assert(outcome_events(all) == outcome_events(mid) + 1);
    }
}

} // verus!

verus! {

// ── laws of the planner ─────────────────────────────────────────────────

proof fn lemma_flat_folders(l: Seq<FsEntryView>, root: Seq<char>, i: int)
    ensures
        lands_in(l, root, true, i) == root,
        opens_into(l, root, true, i) == root,
    decreases i,
{
    if 0 <= i < l.len() {
        match l[i].parent {
            Some(p) => if p < i {
                lemma_flat_folders(l, root, p as int);
            },
            None => {},
        }
    }
}

proof fn lemma_nested_folders(l: Seq<FsEntryView>, root: Seq<char>, i: int)
    ensures
        crate::text::has_prefix(lands_in(l, root, false, i), root),
        crate::text::has_prefix(opens_into(l, root, false, i), root),
    decreases i,
{
    assert(root.take(root.len() as int) =~= root);
    if 0 <= i < l.len() {
        match l[i].parent {
            Some(p) => if p < i {
                lemma_nested_folders(l, root, p as int);
            },
            None => {},
        }
        let here = lands_in(l, root, false, i);
        match file_name_of(l[i].path) {
            Some(n) => {
                let there = here + seq!['/'] + sanitized_name(n);
                assert(there.take(root.len() as int) =~= here.take(root.len() as int));
            },
            None => {},
        }
    }
}

/// Flattened, every planned job lands directly in the remote root.
pub proof fn lemma_flattened_jobs_land_in_root(l: Seq<FsEntryView>, root: Seq<char>, k: int)
    ensures
        forall|j: int|
            0 <= j < planned_jobs(l, root, true, k).len() ==> (#[trigger] planned_jobs(
                l,
                root,
                true,
                k,
            )[j]).remote_dir == root,
    decreases k,
{
    if k > 0 {
        lemma_flattened_jobs_land_in_root(l, root, k - 1);
        lemma_flat_folders(l, root, k - 1);
        let before = planned_jobs(l, root, true, k - 1);
        let now = planned_jobs(l, root, true, k);
        assert forall|j: int| 0 <= j < now.len() implies (#[trigger] now[j]).remote_dir == root by {
            if j < before.len() {
                assert(now[j] == before[j]);
            }
        }
    }
}

/// Not flattened, every planned job lands in the remote root or below it.
pub proof fn lemma_nested_jobs_land_under_root(l: Seq<FsEntryView>, root: Seq<char>, k: int)
    ensures
        forall|j: int|
            0 <= j < planned_jobs(l, root, false, k).len() ==> crate::text::has_prefix(
                (#[trigger] planned_jobs(l, root, false, k)[j]).remote_dir,
                root,
            ),
    decreases k,
{
    if k > 0 {
        lemma_nested_jobs_land_under_root(l, root, k - 1);
        lemma_nested_folders(l, root, k - 1);
        let before = planned_jobs(l, root, false, k - 1);
        let now = planned_jobs(l, root, false, k);
        assert forall|j: int| 0 <= j < now.len() implies crate::text::has_prefix(
            (#[trigger] now[j]).remote_dir,
            root,
        ) by {
            if j < before.len() {
                assert(now[j] == before[j]);
            }
        }
    }
}

} // verus!
