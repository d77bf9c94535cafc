//! The decisions of the desktop window, apart from its drawing.
//!
//! The window shows a LOCAL pane and a WATCH pane, a status dot, an
//! activity log and a progress strip. What it shows and how it reacts to
//! clicks, device scans and worker messages is decided here; painting and
//! the worker threads stay with the window itself.

use vstd::prelude::*;

use crate::garmin::{devices_view, Device, DeviceView};
use crate::mtp::parent_of;
use crate::paths::{file_name, file_name_of};
use crate::text::{chars_eq_ignore_ascii_case, chars_of, eq_ignore_case, push_all, string_of};

verus! {

broadcast use vstd::string::group_string_axioms;

// ── link status ─────────────────────────────────────────────────────────

/// The state the status dot in the top bar shows.
#[derive(Debug, Clone, Copy, PartialEq, Eq, Structural)]
pub enum LinkStatus {
    /// Linked, and a transfer or deletion is running.
    Busy,
    /// Linked and idle.
    Connected,
    /// No watch found on USB.
    Searching,
    /// A watch is there, but the last attempt to link failed.
    CannotLink,
    /// A watch is there and a link is being set up.
    Connecting,
}

pub open spec fn link_status_of(
    linked: bool,
    busy: bool,
    has_devices: bool,
    link_failed: bool,
) -> LinkStatus {
    if linked {
        if busy {
            LinkStatus::Busy
        } else {
            LinkStatus::Connected
        }
    } else if !has_devices {
        LinkStatus::Searching
    } else if link_failed {
        LinkStatus::CannotLink
    } else {
        LinkStatus::Connecting
    }
}

/// The status to show: `linked` when a session is open, `busy` while a job
/// runs or its messages are still being drained, `has_devices` when a
/// watch was found, `link_failed` when the last attempt to link failed.
pub fn link_status(linked: bool, busy: bool, has_devices: bool, link_failed: bool) -> (r:
    LinkStatus)
    ensures
        r == link_status_of(linked, busy, has_devices, link_failed),
{
    if linked {
        if busy {
            LinkStatus::Busy
        } else {
            LinkStatus::Connected
        }
    } else if !has_devices {
        LinkStatus::Searching
    } else if link_failed {
        LinkStatus::CannotLink
    } else {
        LinkStatus::Connecting
    }
}

pub open spec fn link_label(s: LinkStatus) -> Seq<char> {
    match s {
        LinkStatus::Busy => "Busy"@,
        LinkStatus::Connected => "Connected"@,
        LinkStatus::Searching => "Searching for watch"@,
        LinkStatus::CannotLink => "Cannot link"@,
        LinkStatus::Connecting => "Connecting\u{2026}"@,
    }
}

impl LinkStatus {
    /// The words next to the dot.
    pub fn label(&self) -> (r: String)
        ensures
            r@ == link_label(*self),
    {
        match self {
            LinkStatus::Busy => "Busy".to_string(),
            LinkStatus::Connected => "Connected".to_string(),
            LinkStatus::Searching => "Searching for watch".to_string(),
            LinkStatus::CannotLink => "Cannot link".to_string(),
            LinkStatus::Connecting => "Connecting\u{2026}".to_string(),
        }
    }

    /// Whether the dot pulses: while busy and while connecting.
    pub fn animates(&self) -> (r: bool)
        ensures
            r == (*self == LinkStatus::Busy || *self == LinkStatus::Connecting),
    {
        match self {
            LinkStatus::Busy | LinkStatus::Connecting => true,
            _ => false,
        }
    }
}

/// What the WATCH pane says while no session is open.
pub open spec fn watch_placeholder_of(has_devices: bool, link_failed: bool) -> Seq<char> {
    if !has_devices {
        "Searching for watch\u{2026}"@
    } else if link_failed {
        "Cannot link to watch.\nUnplug, replug, and unlock the screen."@
    } else {
        "Connecting to watch\u{2026}"@
    }
}

/// What the WATCH pane says while no session is open.
pub fn watch_placeholder(has_devices: bool, link_failed: bool) -> (r: String)
    ensures
        r@ == watch_placeholder_of(has_devices, link_failed),
{
    if !has_devices {
        "Searching for watch\u{2026}".to_string()
    } else if link_failed {
        "Cannot link to watch.\nUnplug, replug, and unlock the screen.".to_string()
    } else {
        "Connecting to watch\u{2026}".to_string()
    }
}

// ── the WATCH pane ──────────────────────────────────────────────────────

/// The folders offered as shortcuts in the WATCH pane.
pub open spec fn root_folder_names() -> Seq<Seq<char>> {
    seq!["Music"@, "Audiobooks"@, "Podcasts"@]
}

/// `Music`, `Audiobooks`, `Podcasts`.
pub fn root_folders() -> (r: Vec<String>)
    ensures
        r@.map_values(|s: String| s@) == root_folder_names(),
{
    let r = vec!["Music".to_string(), "Audiobooks".to_string(), "Podcasts".to_string()];
    assert(r@.map_values(|s: String| s@) =~= root_folder_names());
    r
}

/// The path shown above the WATCH listing: `/` and the folder.
pub open spec fn breadcrumb_of(cwd: Seq<char>) -> Seq<char> {
    seq!['/'] + cwd
}

/// The path shown above the WATCH listing (`/` at the root).
pub fn watch_breadcrumb(cwd: &str) -> (r: String)
    ensures
        r@ == breadcrumb_of(cwd@),
{
    let mut cs = vec!['/'];
    let rest = chars_of(cwd);
    push_all(&mut cs, rest.as_slice());
    string_of(cs.as_slice())
}

pub open spec fn music_word() -> Seq<char> {
    seq!['M', 'u', 's', 'i', 'c']
}

/// The WATCH pane shows `/Music` (in any case): uploads land there before
/// the watch's indexer absorbs them, so the journal and the local playlists
/// are shown with it.
pub open spec fn is_staging_of(cwd: Seq<char>) -> bool {
    eq_ignore_case(cwd, music_word())
}

/// Whether the WATCH pane shows the staging folder `/Music`.
pub fn is_staging_folder(cwd: &str) -> (r: bool)
    ensures
        r == is_staging_of(cwd@),
{
    let cs = chars_of(cwd);
    let m = ['M', 'u', 's', 'i', 'c'];
    assert(m@ =~= music_word());
    chars_eq_ignore_ascii_case(cs.as_slice(), &m)
}

/// Where "Up" leads from the WATCH folder `cwd`: nowhere at the root,
/// else the folder it lies in.
pub open spec fn watch_up_of(cwd: Seq<char>) -> Option<Seq<char>> {
    if cwd.len() == 0 {
        None
    } else {
        Some(parent_of(cwd))
    }
}

/// Where "Up" leads from the WATCH folder `cwd` (`None`: stay).
pub fn watch_up(cwd: &str) -> (r: Option<String>)
    ensures
        match r {
            Some(p) => watch_up_of(cwd@) == Some(p@),
            None => watch_up_of(cwd@) is None,
        },
{
    if cwd.is_empty() {
        None
    } else {
        Some(crate::mtp::parent_path(cwd))
    }
}

// ── selection in a pane ─────────────────────────────────────────────────

/// No item occurs twice.
pub open spec fn no_repeats(s: Seq<Seq<char>>) -> bool {
    forall|i: int, j: int| 0 <= i < j < s.len() ==> s[i] != s[j]
}

pub open spec fn items_view(v: Seq<String>) -> Seq<Seq<char>> {
    v.map_values(|s: String| s@)
}

/// The rows selected in a pane, by path, and the row last clicked (the
/// anchor of a shift-click range).
#[derive(Debug)]
pub struct Selection {
    items: Vec<String>,
    last_clicked: Option<usize>,
}

pub struct SelectionView {
    pub items: Seq<Seq<char>>,
    pub last_clicked: Option<usize>,
}

impl View for Selection {
    type V = SelectionView;

    closed spec fn view(&self) -> SelectionView {
        SelectionView { items: items_view(self.items@), last_clicked: self.last_clicked }
    }
}

/// `s` with `x` added unless it is there.
pub open spec fn with_item(s: Seq<Seq<char>>, x: Seq<char>) -> Seq<Seq<char>> {
    if s.contains(x) {
        s
    } else {
        s.push(x)
    }
}

/// `s` without `x`.
pub open spec fn without_item(s: Seq<Seq<char>>, x: Seq<char>) -> Seq<Seq<char>> {
    s.filter(|y: Seq<char>| y != x)
}

/// `s` with each of `xs` added in turn.
pub open spec fn with_all(s: Seq<Seq<char>>, xs: Seq<Seq<char>>) -> Seq<Seq<char>>
    decreases xs.len(),
{
    if xs.len() == 0 {
        s
    } else {
        with_item(with_all(s, xs.drop_last()), xs.last())
    }
}

/// The selection after a click on row `idx` of `rows`: a shift-click with
/// an anchor selects the rows from the anchor to `idx` (both included) and
/// keeps the anchor; any other click toggles row `idx` and makes it the
/// anchor. A click past the last row changes nothing.
pub open spec fn clicked(sel: SelectionView, rows: Seq<Seq<char>>, idx: int, shift: bool) -> SelectionView {
    if idx >= rows.len() {
        sel
    } else if shift && sel.last_clicked is Some {
        let a = sel.last_clicked->0 as int;
        let lo = if a < idx { a } else { idx };
        let hi = if a < idx { idx } else { a };
        SelectionView {
            items: with_all(sel.items, rows.subrange(lo, hi + 1)),
            last_clicked: sel.last_clicked,
        }
    } else {
        SelectionView {
            items: if sel.items.contains(rows[idx]) {
                without_item(sel.items, rows[idx])
            } else {
                sel.items.push(rows[idx])
            },
            last_clicked: Some(idx as usize),
        }
    }
}

/// The paths a drag from a row carries: the selection, and the row itself
/// when it is not selected.
pub open spec fn drag_payload_of(items: Seq<Seq<char>>, row: Seq<char>) -> Seq<Seq<char>> {
    if items.contains(row) {
        items
    } else {
        items.push(row)
    }
}

fn position_of(v: &Vec<String>, x: &String) -> (r: Option<usize>)
    ensures
        match r {
            Some(i) => i < v@.len() && v@[i as int]@ == x@ && items_view(v@).contains(x@),
            None => !items_view(v@).contains(x@),
        },
{
    let mut i: usize = 0;
    while i < v.len()
        invariant
            i <= v@.len(),
            forall|j: int| 0 <= j < i ==> v@[j]@ != x@,
        decreases v@.len() - i,
    {
        if v[i] == *x {
            assert(items_view(v@)[i as int] == x@);
            return Some(i);
        }
        i += 1;
    }
    proof {
        if items_view(v@).contains(x@) {
            let k = choose|k: int| 0 <= k < items_view(v@).len() && items_view(v@)[k] == x@;
            assert(v@[k]@ == x@);
        }
    }
    None
}

proof fn lemma_filter_out_unique(s: Seq<Seq<char>>, x: Seq<char>, k: int)
    requires
        no_repeats(s),
        0 <= k < s.len(),
        s[k] == x,
    ensures
        without_item(s, x) == s.remove(k),
    decreases s.len(),
{
    reveal(Seq::filter);
    let f = |y: Seq<char>| y != x;
    if k == s.len() - 1 {
        let init = s.drop_last();
        assert forall|i: int| 0 <= i < init.len() implies f(#[trigger] init[i]) by {
            assert(init[i] == s[i]);
        }
        lemma_filter_all(init, x);
        assert(s.remove(k) =~= init);
    } else {
        let init = s.drop_last();
        assert(no_repeats(init)) by {
            assert forall|i: int, j: int| 0 <= i < j < init.len() implies init[i] != init[j] by {
                assert(init[i] == s[i] && init[j] == s[j]);
            }
        }
        assert(init[k] == x);
        lemma_filter_out_unique(init, x, k);
        assert(s.last() != x) by {
            assert(s[s.len() - 1] == s.last());
        }
        assert(s.remove(k) =~= init.remove(k).push(s.last()));
    }
}

proof fn lemma_filter_all(s: Seq<Seq<char>>, x: Seq<char>)
    requires
        forall|i: int| 0 <= i < s.len() ==> #[trigger] s[i] != x,
    ensures
        without_item(s, x) == s,
    decreases s.len(),
{
    reveal(Seq::filter);
    if s.len() > 0 {
        let init = s.drop_last();
        assert forall|i: int| 0 <= i < init.len() implies #[trigger] init[i] != x by {
            assert(init[i] == s[i]);
        }
        lemma_filter_all(init, x);
        assert(s[s.len() - 1] != x);
        assert(init.push(s.last()) =~= s);
    }
}

impl Selection {
    /// The selection of a pane's rows, kept free of repeats.
    #[verifier::type_invariant]
    closed spec fn well_formed(&self) -> bool {
        no_repeats(items_view(self.items@))
    }

    /// Nothing selected, no anchor.
    pub fn new() -> (r: Selection)
        ensures
            r@.items.len() == 0,
            r@.last_clicked is None,
    {
        let r = Selection { items: Vec::new(), last_clicked: None };
        assert(items_view(r.items@) =~= Seq::<Seq<char>>::empty());
        r
    }

    /// The selected paths, in the order they were selected; none repeats.
    pub fn items(&self) -> (r: &Vec<String>)
        ensures
            items_view(r@) == self@.items,
            no_repeats(self@.items),
    {
        proof {
            use_type_invariant(self);
        }
        &self.items
    }

    pub fn len(&self) -> (r: usize)
        ensures
            r == self@.items.len(),
    {
        self.items.len()
    }

    pub fn is_empty(&self) -> (r: bool)
        ensures
            r == (self@.items.len() == 0),
    {
        self.items.len() == 0
    }

    pub fn last_clicked(&self) -> (r: Option<usize>)
        ensures
            r == self@.last_clicked,
    {
        self.last_clicked
    }

    pub fn contains(&self, path: &String) -> (r: bool)
        ensures
            r == self@.items.contains(path@),
    {
        position_of(&self.items, path).is_some()
    }

    /// Select `path` (a no-op when it is selected already).
    pub fn insert(&mut self, path: String)
        ensures
            final(self)@.items == with_item(old(self)@.items, path@),
            final(self)@.last_clicked == old(self)@.last_clicked,
    {
        proof {
            use_type_invariant(&*self);
        }
        match position_of(&self.items, &path) {
            Some(_) => {},
            None => {
                let ghost before = items_view(self.items@);
                let mut items = Vec::new();
                std::mem::swap(&mut items, &mut self.items);
                items.push(path);
                assert(items_view(items@) =~= before.push(path@));
                assert(no_repeats(items_view(items@))) by {
                    let s = items_view(items@);
                    assert forall|i: int, j: int| 0 <= i < j < s.len() implies s[i] != s[j] by {
                        if j == s.len() - 1 {
                            assert(s[i] == before[i]);
                            assert(before[i] != path@);
                        } else {
                            assert(s[i] == before[i] && s[j] == before[j]);
                        }
                    }
                }
                self.items = items;
            },
        }
    }

    /// Forget the selection and the anchor (the pane moved elsewhere).
    pub fn clear(&mut self)
        ensures
            final(self)@.items.len() == 0,
            final(self)@.last_clicked is None,
    {
        self.items = Vec::new();
        self.last_clicked = None;
        assert(items_view(self.items@) =~= Seq::<Seq<char>>::empty());
    }

    /// Take the selected paths out, leaving nothing selected; the anchor
    /// stays.
    pub fn take_items(&mut self) -> (r: Vec<String>)
        ensures
            items_view(r@) == old(self)@.items,
            final(self)@.items.len() == 0,
            final(self)@.last_clicked == old(self)@.last_clicked,
    {
        let mut out = Vec::new();
        std::mem::swap(&mut out, &mut self.items);
        assert(items_view(self.items@) =~= Seq::<Seq<char>>::empty());
        out
    }

    fn toggle(&mut self, path: String)
        ensures
            final(self)@.items == if old(self)@.items.contains(path@) {
                without_item(old(self)@.items, path@)
            } else {
                old(self)@.items.push(path@)
            },
            final(self)@.last_clicked == old(self)@.last_clicked,
    {
        proof {
            use_type_invariant(&*self);
        }
        match position_of(&self.items, &path) {
            Some(k) => {
                let ghost before = items_view(self.items@);
                let mut items = Vec::new();
                std::mem::swap(&mut items, &mut self.items);
                let _ = items.remove(k);
                proof {
                    lemma_filter_out_unique(before, path@, k as int);
                }
                assert(items_view(items@) =~= before.remove(k as int));
                assert(no_repeats(items_view(items@))) by {
                    let s = items_view(items@);
                    assert forall|i: int, j: int| 0 <= i < j < s.len() implies s[i] != s[j] by {
                        let i2 = if i < k { i } else { i + 1 };
                        let j2 = if j < k { j } else { j + 1 };
                        assert(s[i] == before[i2] && s[j] == before[j2]);
                    }
                }
                self.items = items;
            },
            None => {
                self.insert(path);
            },
        }
    }

    /// A click on row `idx` of the pane's `rows` (their paths, in display
    /// order), with or without shift held (see `clicked`).
    pub fn click(&mut self, rows: &Vec<String>, idx: usize, shift: bool)
        requires
            shift && old(self)@.last_clicked is Some ==> old(self)@.last_clicked->0 < rows@.len(),
        ensures
            final(self)@ == clicked(old(self)@, items_view(rows@), idx as int, shift),
    {
        if idx >= rows.len() {
            return;
        }
        let ghost rv = items_view(rows@);
        if shift {
            match self.last_clicked {
                Some(anchor) => {
                    let (lo, hi) = if anchor < idx {
                        (anchor, idx)
                    } else {
                        (idx, anchor)
                    };
                    let ghost start = self@.items;
                    let mut k = lo;
                    while k <= hi
                        invariant
                            lo <= k <= hi + 1,
                            hi < rows.len(),
                            rv == items_view(rows@),
                            self@.items == with_all(start, rv.subrange(lo as int, k as int)),
                            self@.last_clicked == Some(anchor),
                        decreases hi + 1 - k,
                    {
                        let path = rows[k].clone();
                        self.insert(path);
                        assert(rv.subrange(lo as int, k + 1).drop_last() =~= rv.subrange(
                            lo as int,
                            k as int,
                        ));
                        assert(rv.subrange(lo as int, k + 1).last() == rv[k as int]);
                        k += 1;
                    }
                    return;
                },
                None => {},
            }
        }
        let path = rows[idx].clone();
        self.toggle(path);
        proof {
            use_type_invariant(&*self);
        }
        self.last_clicked = Some(idx);
    }

    /// The paths a drag from the row `row` carries (see `drag_payload_of`).
    pub fn drag_payload(&self, row: &String) -> (r: Vec<String>)
        ensures
            items_view(r@) == drag_payload_of(self@.items, row@),
    {
        let mut out: Vec<String> = Vec::new();
        let mut i: usize = 0;
        while i < self.items.len()
            invariant
                i <= self.items@.len(),
                items_view(out@) == items_view(self.items@).take(i as int),
            decreases self.items@.len() - i,
        {
            let ghost before = items_view(out@);
            let item = self.items[i].clone();
            assert(item@ == items_view(self.items@)[i as int]);
            out.push(item);
            assert(items_view(out@) =~= before.push(item@));
            assert(items_view(self.items@).take(i + 1) =~= items_view(self.items@).take(
                i as int,
            ).push(items_view(self.items@)[i as int]));
            i += 1;
        }
        assert(items_view(self.items@).take(self.items@.len() as int) =~= items_view(self.items@));
        if !self.contains(row) {
            out.push(row.clone());
            assert(items_view(out@) =~= items_view(self.items@).push(row@));
        }
        out
    }
}

} // verus!

verus! {

// ── device choice after a scan ──────────────────────────────────────────

/// The index of the first device with serial `s`.
pub open spec fn index_of_serial(d: Seq<DeviceView>, s: Seq<char>) -> Option<usize>
    decreases d.len(),
{
    if d.len() == 0 {
        None
    } else {
        match index_of_serial(d.drop_last(), s) {
            Some(i) => Some(i),
            None => if d.last().serial == Some(s) {
                Some((d.len() - 1) as usize)
            } else {
                None
            },
        }
    }
}

/// The device selected after a scan found `devices`. The previous choice
/// is followed by its serial when it had one (and lost if that serial is
/// gone); with nothing selected the first device is taken; with no device
/// nothing is selected.
pub open spec fn reselected(
    current: Option<usize>,
    prior_serial: Option<Seq<char>>,
    devices: Seq<DeviceView>,
) -> Option<usize> {
    let followed = match prior_serial {
        Some(s) => index_of_serial(devices, s),
        None => current,
    };
    if devices.len() == 0 {
        None
    } else if followed is None {
        Some(0)
    } else {
        followed
    }
}

pub open spec fn opt_str_view(o: Option<&str>) -> Option<Seq<char>> {
    match o {
        Some(s) => Some(s@),
        None => None,
    }
}

/// The device to select after a scan found `devices`, given the current
/// selection and the serial of the device it pointed at.
pub fn reselect_device(current: Option<usize>, prior_serial: Option<&str>, devices: &Vec<Device>) -> (r:
    Option<usize>)
    ensures
        r == reselected(current, opt_str_view(prior_serial), devices_view(devices@)),
{
    let ghost dv = devices_view(devices@);
    let followed = match prior_serial {
        Some(s) => {
            let want = s.to_owned();
            let mut found: Option<usize> = None;
            let mut i: usize = 0;
            while i < devices.len()
                invariant
                    i <= devices@.len(),
                    dv == devices_view(devices@),
                    want@ == s@,
                    found == index_of_serial(dv.take(i as int), s@),
                decreases devices@.len() - i,
            {
                assert(dv.take(i + 1).drop_last() =~= dv.take(i as int));
                assert(dv.take(i + 1).last() == dv[i as int]);
                if found.is_none() {
                    let hit = match &devices[i].serial {
                        Some(ser) => *ser == want,
                        None => false,
                    };
                    if hit {
                        found = Some(i);
                    }
                }
                i += 1;
            }
            assert(dv.take(devices@.len() as int) =~= dv);
            found
        },
        None => current,
    };
    if devices.len() == 0 {
        None
    } else if followed.is_none() {
        Some(0)
    } else {
        followed
    }
}

/// With no device, nothing is selected; with devices, something is.
pub proof fn lemma_reselected_some_iff_devices(
    current: Option<usize>,
    prior_serial: Option<Seq<char>>,
    devices: Seq<DeviceView>,
)
    ensures
        (reselected(current, prior_serial, devices) is None) == (devices.len() == 0),
{
}

// ── reconnecting ────────────────────────────────────────────────────────

/// Milliseconds to wait between link attempts: 2 s after a failure, else
/// 150 ms.
pub open spec fn reconnect_delay_ms(link_failed: bool) -> u128 {
    if link_failed {
        2000
    } else {
        150
    }
}

/// Whether the window tries to link now: only when no session is open, no
/// job runs, a device is selected, and the last attempt (if any) is at
/// least the delay ago.
pub open spec fn reconnect_due_of(
    linked: bool,
    busy: bool,
    has_selection: bool,
    link_failed: bool,
    since_last_ms: Option<u128>,
) -> bool {
    !linked && !busy && has_selection && match since_last_ms {
        Some(ms) => ms >= reconnect_delay_ms(link_failed),
        None => true,
    }
}

/// Whether to try to link now; `since_last_ms` is the time since the last
/// attempt, in whole milliseconds, `None` before the first.
pub fn reconnect_due(
    linked: bool,
    busy: bool,
    has_selection: bool,
    link_failed: bool,
    since_last_ms: Option<u128>,
) -> (r: bool)
    ensures
        r == reconnect_due_of(linked, busy, has_selection, link_failed, since_last_ms),
{
    if linked || busy || !has_selection {
        return false;
    }
    let delay: u128 = if link_failed {
        2000
    } else {
        150
    };
    match since_last_ms {
        Some(ms) => ms >= delay,
        None => true,
    }
}

// ── the activity log ────────────────────────────────────────────────────

/// The log keeps this many lines, the newest.
pub const LOG_LIMIT: usize = 600;

#[derive(Debug, Clone, Copy, PartialEq, Eq, Structural)]
pub enum LogKind {
    Info,
    Warn,
    Error,
    /// Something went well (shown in the success colour).
    Success,
}

#[derive(Debug)]
pub struct LogLine {
    pub text: String,
    pub kind: LogKind,
}

pub open spec fn log_view(l: Seq<LogLine>) -> Seq<(Seq<char>, LogKind)> {
    l.map_values(|x: LogLine| (x.text@, x.kind))
}

/// The log after a line is added: the newest `LOG_LIMIT` lines.
pub open spec fn log_pushed(l: Seq<(Seq<char>, LogKind)>, line: (Seq<char>, LogKind)) -> Seq<
    (Seq<char>, LogKind),
> {
    let p = l.push(line);
    if p.len() > LOG_LIMIT {
        p.skip(p.len() - LOG_LIMIT)
    } else {
        p
    }
}

/// Add a line to the activity log, dropping the oldest beyond `LOG_LIMIT`.
pub fn push_log(log: &mut Vec<LogLine>, kind: LogKind, text: String)
    ensures
        log_view(final(log)@) == log_pushed(log_view(old(log)@), (text@, kind)),
{
    let ghost before = log_view(log@);
    let line = LogLine { text, kind };
    log.push(line);
    assert(log_view(log@) =~= before.push((line.text@, kind)));
    if log.len() > LOG_LIMIT {
        let drop = log.len() - LOG_LIMIT;
        let ghost full = log@;
        let tail = log.split_off(drop);
        assert(tail@ =~= full.skip(drop as int));
        assert(log_view(tail@) =~= log_view(full).skip(drop as int));
        *log = tail;
    }
}

/// The log never grows past `LOG_LIMIT` lines, and the newest line is the
/// one just added.
pub proof fn lemma_log_bounded(l: Seq<(Seq<char>, LogKind)>, line: (Seq<char>, LogKind))
    ensures
        log_pushed(l, line).len() <= LOG_LIMIT,
        log_pushed(l, line).len() > 0,
        log_pushed(l, line).last() == line,
{
}

// ── short paths ─────────────────────────────────────────────────────────

/// How a local path appears in the log: as it is when its UTF-8 form is at
/// most 60 bytes, else `…/` and its file name.
pub open spec fn short_path_of(p: Seq<char>) -> Seq<char> {
    if vstd::utf8::encode_utf8(p).len() > 60 {
        seq!['\u{2026}', '/'] + match file_name_of(p) {
            Some(n) => n,
            None => Seq::empty(),
        }
    } else {
        p
    }
}

/// How a local path appears in the log (see `short_path_of`).
pub fn short_path(p: &str) -> (r: String)
    ensures
        r@ == short_path_of(p@),
{
    if p.as_bytes().len() > 60 {
        let cs = chars_of(p);
        let mut out = vec!['\u{2026}', '/'];
        match file_name(cs.as_slice()) {
            Some(n) => push_all(&mut out, n.as_slice()),
            None => {},
        }
        assert(out@ =~= short_path_of(p@));
        string_of(out.as_slice())
    } else {
        p.to_string()
    }
}

} // verus!

verus! {

// ── progress and the worker's messages ──────────────────────────────────

#[derive(Debug, Clone, Copy, PartialEq, Eq, Structural)]
pub enum ProgressStage {
    Transcoding,
    Uploading,
}

/// What the progress strip shows.
#[derive(Debug)]
pub struct Progress {
    pub stage: ProgressStage,
    pub label: String,
    /// Bytes of the current file sent so far.
    pub file_done: u64,
    pub file_total: u64,
    /// Files settled so far (sent or skipped).
    pub files_done: usize,
    pub files_total: usize,
}

pub struct ProgressView {
    pub stage: ProgressStage,
    pub label: Seq<char>,
    pub file_done: u64,
    pub file_total: u64,
    pub files_done: usize,
    pub files_total: usize,
}

impl View for Progress {
    type V = ProgressView;

    open spec fn view(&self) -> ProgressView {
        ProgressView {
            stage: self.stage,
            label: self.label@,
            file_done: self.file_done,
            file_total: self.file_total,
            files_done: self.files_done,
            files_total: self.files_total,
        }
    }
}

/// What the window is busy with.
#[derive(Debug, Clone, Copy, PartialEq, Eq, Structural)]
pub enum BusyKind {
    Transmitting,
    Purging,
}

/// The part of the window's state that the worker's messages change.
#[derive(Debug)]
pub struct OpState {
    pub busy: Option<BusyKind>,
    pub progress: Option<Progress>,
    /// Free and total bytes on the watch, as last known.
    pub free_space: Option<(u64, u64)>,
}

pub struct OpStateView {
    pub busy: Option<BusyKind>,
    pub progress: Option<ProgressView>,
    pub free_space: Option<(u64, u64)>,
}

pub open spec fn progress_opt_view(p: Option<Progress>) -> Option<ProgressView> {
    match p {
        Some(x) => Some(x@),
        None => None,
    }
}

impl View for OpState {
    type V = OpStateView;

    open spec fn view(&self) -> OpStateView {
        OpStateView {
            busy: self.busy,
            progress: progress_opt_view(self.progress),
            free_space: self.free_space,
        }
    }
}

/// A message from a worker thread of the window.
#[derive(Debug)]
pub enum OpMsg {
    Deleted(String),
    DeleteError(String, String),
    Started(String),
    Transcoding { file: String, files_done: usize, files_total: usize },
    Progress { file: String, transferred: u64, total: u64, files_done: usize, files_total: usize },
    Done { src: String, bytes: u64, files_done: usize, files_total: usize },
    Skipped { src: String, reason: String },
    Failed { src: String, error: String },
    JobFinished,
}

pub enum OpMsgView {
    Deleted(Seq<char>),
    DeleteError(Seq<char>, Seq<char>),
    Started(Seq<char>),
    Transcoding { file: Seq<char>, files_done: usize, files_total: usize },
    Progress {
        file: Seq<char>,
        transferred: u64,
        total: u64,
        files_done: usize,
        files_total: usize,
    },
    Done { src: Seq<char>, bytes: u64, files_done: usize, files_total: usize },
    Skipped { src: Seq<char>, reason: Seq<char> },
    Failed { src: Seq<char>, error: Seq<char> },
    JobFinished,
}

impl View for OpMsg {
    type V = OpMsgView;

    open spec fn view(&self) -> OpMsgView {
        match self {
            OpMsg::Deleted(p) => OpMsgView::Deleted(p@),
            OpMsg::DeleteError(p, e) => OpMsgView::DeleteError(p@, e@),
            OpMsg::Started(p) => OpMsgView::Started(p@),
            OpMsg::Transcoding { file, files_done, files_total } => OpMsgView::Transcoding {
                file: file@,
                files_done: *files_done,
                files_total: *files_total,
            },
            OpMsg::Progress { file, transferred, total, files_done, files_total } =>
                OpMsgView::Progress {
                file: file@,
                transferred: *transferred,
                total: *total,
                files_done: *files_done,
                files_total: *files_total,
            },
            OpMsg::Done { src, bytes, files_done, files_total } => OpMsgView::Done {
                src: src@,
                bytes: *bytes,
                files_done: *files_done,
                files_total: *files_total,
            },
            OpMsg::Skipped { src, reason } => OpMsgView::Skipped { src: src@, reason: reason@ },
            OpMsg::Failed { src, error } => OpMsgView::Failed { src: src@, error: error@ },
            OpMsg::JobFinished => OpMsgView::JobFinished,
        }
    }
}

/// What the window writes in its log for a message.
#[derive(Debug)]
pub enum OpNote {
    Quiet,
    Log(LogKind, String),
    /// A file went up: `✓ <label> · <size>`, the size being written in the
    /// window's human-readable units.
    Sent { label: String, bytes: u64 },
}

pub enum OpNoteView {
    Quiet,
    Log(LogKind, Seq<char>),
    Sent { label: Seq<char>, bytes: u64 },
}

impl View for OpNote {
    type V = OpNoteView;

    open spec fn view(&self) -> OpNoteView {
        match self {
            OpNote::Quiet => OpNoteView::Quiet,
            OpNote::Log(k, t) => OpNoteView::Log(*k, t@),
            OpNote::Sent { label, bytes } => OpNoteView::Sent { label: label@, bytes: *bytes },
        }
    }
}

/// What the window does about a message besides the state change: a log
/// note, an upload to record in the watch's journal (name and size), and
/// whether to list the WATCH folder again.
#[derive(Debug)]
pub struct OpOutcome {
    pub note: OpNote,
    pub record: Option<(String, u64)>,
    pub refresh: bool,
}

pub struct OpOutcomeView {
    pub note: OpNoteView,
    pub record: Option<(Seq<char>, u64)>,
    pub refresh: bool,
}

impl View for OpOutcome {
    type V = OpOutcomeView;

    open spec fn view(&self) -> OpOutcomeView {
        OpOutcomeView {
            note: self.note@,
            record: match self.record {
                Some(r) => Some((r.0@, r.1)),
                None => None,
            },
            refresh: self.refresh,
        }
    }
}

/// The name an upload is recorded under: the source's stem, else its
/// short form.
pub open spec fn journal_name(src: Seq<char>) -> Seq<char> {
    match crate::paths::file_stem_of(src) {
        Some(s) => s,
        None => short_path_of(src),
    }
}

pub open spec fn quiet() -> OpOutcomeView {
    OpOutcomeView { note: OpNoteView::Quiet, record: None, refresh: false }
}

pub open spec fn logged(kind: LogKind, text: Seq<char>) -> OpOutcomeView {
    OpOutcomeView { note: OpNoteView::Log(kind, text), record: None, refresh: false }
}

/// The state after a message, and what to do about it.
pub open spec fn apply_op_spec(s: OpStateView, m: OpMsgView) -> (OpStateView, OpOutcomeView) {
    match m {
        OpMsgView::Deleted(p) => (
            s,
            logged(LogKind::Success, "\u{2715} purged \u{b7} /"@ + p),
        ),
        OpMsgView::DeleteError(p, e) => (
            s,
            logged(LogKind::Error, "\u{2715} purge /"@ + p + " \u{b7} "@ + e),
        ),
        OpMsgView::Started(p) => (s, logged(LogKind::Info, "\u{2192} "@ + short_path_of(p))),
        OpMsgView::Transcoding { file, files_done, files_total } => (
            OpStateView {
                progress: Some(
                    ProgressView {
                        stage: ProgressStage::Transcoding,
                        label: file,
                        file_done: 0,
                        file_total: 0,
                        files_done,
                        files_total,
                    },
                ),
                ..s
            },
            quiet(),
        ),
        OpMsgView::Progress { file, transferred, total, files_done, files_total } => (
            OpStateView {
                progress: Some(
                    ProgressView {
                        stage: ProgressStage::Uploading,
                        label: file,
                        file_done: transferred,
                        file_total: total,
                        files_done,
                        files_total,
                    },
                ),
                ..s
            },
            quiet(),
        ),
        OpMsgView::Done { src, bytes, files_done, files_total } => (
            OpStateView {
                busy: s.busy,
                progress: match s.progress {
                    Some(p) => Some(ProgressView { files_done, files_total, ..p }),
                    None => None,
                },
                free_space: match s.free_space {
                    Some((free, total)) => Some(
                        (if free >= bytes { (free - bytes) as u64 } else { 0 }, total),
                    ),
                    None => None,
                },
            },
            OpOutcomeView {
                note: OpNoteView::Sent { label: short_path_of(src), bytes },
                record: Some((journal_name(src), bytes)),
                refresh: false,
            },
        ),
        OpMsgView::Skipped { src, reason } => (
            s,
            logged(LogKind::Warn, "\u{b7} skip \u{b7} "@ + short_path_of(src) + " \u{b7} "@ + reason),
        ),
        OpMsgView::Failed { src, error } => (
            s,
            logged(LogKind::Error, "\u{2715} "@ + short_path_of(src) + " \u{b7} "@ + error),
        ),
        OpMsgView::JobFinished => (
            OpStateView { busy: None, progress: None, free_space: s.free_space },
            OpOutcomeView { note: OpNoteView::Quiet, record: None, refresh: true },
        ),
    }
}

fn joined(a: &str, b: &String) -> (r: String)
    ensures
        r@ == a@ + b@,
{
    let mut t = a.to_string();
    t.append(b.as_str());
    t
}

fn quiet_outcome() -> (r: OpOutcome)
    ensures
        r@ == quiet(),
{
    OpOutcome { note: OpNote::Quiet, record: None, refresh: false }
}

fn log_outcome(kind: LogKind, text: String) -> (r: OpOutcome)
    ensures
        r@ == logged(kind, text@),
{
    OpOutcome { note: OpNote::Log(kind, text), record: None, refresh: false }
}

fn journal_name_of(src: &String) -> (r: String)
    ensures
        r@ == journal_name(src@),
{
    let cs = chars_of(src.as_str());
    match crate::paths::file_stem(cs.as_slice()) {
        Some(s) => string_of(s.as_slice()),
        None => short_path(src.as_str()),
    }
}

/// Apply one message of a worker to the window's state, and say what to
/// log, what to record in the journal and whether to list the WATCH folder
/// again (see `apply_op_spec`).
pub fn apply_op(state: &mut OpState, msg: OpMsg) -> (r: OpOutcome)
    ensures
        final(state)@ == apply_op_spec(old(state)@, msg@).0,
        r@ == apply_op_spec(old(state)@, msg@).1,
{
    match msg {
        OpMsg::Deleted(p) => log_outcome(LogKind::Success, joined("\u{2715} purged \u{b7} /", &p)),
        OpMsg::DeleteError(p, e) => {
            let mut t = joined("\u{2715} purge /", &p);
            t.append(" \u{b7} ");
            t.append(e.as_str());
            log_outcome(LogKind::Error, t)
        },
        OpMsg::Started(p) => {
            let s = short_path(p.as_str());
            log_outcome(LogKind::Info, joined("\u{2192} ", &s))
        },
        OpMsg::Transcoding { file, files_done, files_total } => {
            state.progress = Some(
                Progress {
                    stage: ProgressStage::Transcoding,
                    label: file,
                    file_done: 0,
                    file_total: 0,
                    files_done,
                    files_total,
                },
            );
            quiet_outcome()
        },
        OpMsg::Progress { file, transferred, total, files_done, files_total } => {
            state.progress = Some(
                Progress {
                    stage: ProgressStage::Uploading,
                    label: file,
                    file_done: transferred,
                    file_total: total,
                    files_done,
                    files_total,
                },
            );
            quiet_outcome()
        },
        OpMsg::Done { src, bytes, files_done, files_total } => {
            match &mut state.progress {
                Some(p) => {
                    p.files_done = files_done;
                    p.files_total = files_total;
                },
                None => {},
            }
            match state.free_space {
                Some((free, total)) => {
                    state.free_space = Some((free.saturating_sub(bytes), total));
                },
                None => {},
            }
            let label = short_path(src.as_str());
            let name = journal_name_of(&src);
            OpOutcome { note: OpNote::Sent { label, bytes }, record: Some((name, bytes)), refresh: false }
        },
        OpMsg::Skipped { src, reason } => {
            let s = short_path(src.as_str());
            let mut t = joined("\u{b7} skip \u{b7} ", &s);
            t.append(" \u{b7} ");
            t.append(reason.as_str());
            log_outcome(LogKind::Warn, t)
        },
        OpMsg::Failed { src, error } => {
            let s = short_path(src.as_str());
            let mut t = joined("\u{2715} ", &s);
            t.append(" \u{b7} ");
            t.append(error.as_str());
            log_outcome(LogKind::Error, t)
        },
        OpMsg::JobFinished => {
            state.busy = None;
            state.progress = None;
            OpOutcome { note: OpNote::Quiet, record: None, refresh: true }
        },
    }
}

/// The worker's channel closed: nothing runs any more.
pub fn close_ops(state: &mut OpState)
    ensures
        final(state)@.busy is None,
        final(state)@.progress is None,
        final(state)@.free_space == old(state)@.free_space,
{
    state.busy = None;
    state.progress = None;
}

/// The state when an upload job starts: busy transmitting, with a
/// `queueing…` strip and no counts yet.
pub fn begin_transmit(state: &mut OpState)
    ensures
        final(state)@.busy == Some(BusyKind::Transmitting),
        final(state)@.progress == Some(
            ProgressView {
                stage: ProgressStage::Uploading,
                label: "queueing\u{2026}"@,
                file_done: 0,
                file_total: 0,
                files_done: 0,
                files_total: 0,
            },
        ),
        final(state)@.free_space == old(state)@.free_space,
{
    state.busy = Some(BusyKind::Transmitting);
    state.progress = Some(
        Progress {
            stage: ProgressStage::Uploading,
            label: "queueing\u{2026}".to_string(),
            file_done: 0,
            file_total: 0,
            files_done: 0,
            files_total: 0,
        },
    );
}

/// The `File n of m` counter: the file under way (counting from one, never
/// past the last), when the total is known.
pub open spec fn file_counter_of(p: ProgressView) -> Option<(int, int)> {
    if p.files_total > 0 {
        Some(
            (
                if p.files_done + 1 < p.files_total {
                    p.files_done + 1
                } else {
                    p.files_total as int
                },
                p.files_total as int,
            ),
        )
    } else {
        None
    }
}

/// The `File n of m` counter of the strip (see `file_counter_of`).
pub fn file_counter(p: &Progress) -> (r: Option<(usize, usize)>)
    ensures
        match r {
            Some((n, m)) => file_counter_of(p@) == Some((n as int, m as int)),
            None => file_counter_of(p@) is None,
        },
{
    if p.files_total > 0 {
        let n = if p.files_done < p.files_total - 1 {
            p.files_done + 1
        } else {
            p.files_total
        };
        Some((n, p.files_total))
    } else {
        None
    }
}

/// The bytes counter of the strip: sent and total bytes of the current
/// file, shown while uploading a file of known size.
pub open spec fn byte_counter_of(p: ProgressView) -> Option<(u64, u64)> {
    if p.stage == ProgressStage::Uploading && p.file_total > 0 {
        Some((p.file_done, p.file_total))
    } else {
        None
    }
}

/// The bytes counter of the strip (see `byte_counter_of`).
pub fn byte_counter(p: &Progress) -> (r: Option<(u64, u64)>)
    ensures
        r == byte_counter_of(p@),
{
    if p.stage == ProgressStage::Uploading && p.file_total > 0 {
        Some((p.file_done, p.file_total))
    } else {
        None
    }
}

} // verus!

verus! {

// ── controls ────────────────────────────────────────────────────────────

/// Which of the centre column's actions can be used.
#[derive(Debug, Clone, Copy)]
pub struct ActionStates {
    /// Send the LOCAL selection: something selected, nothing running, a
    /// watch present.
    pub send: bool,
    /// Delete the WATCH selection: something selected, nothing running, a
    /// session open.
    pub delete: bool,
    /// Save the LOCAL selection as a playlist: something selected.
    pub save_group: bool,
}

/// Which actions can be used, given the selections and the link.
pub fn action_states(
    local_selected: usize,
    watch_selected: usize,
    busy: bool,
    has_devices: bool,
    linked: bool,
) -> (r: ActionStates)
    ensures
        r.send == (local_selected > 0 && !busy && has_devices),
        r.delete == (watch_selected > 0 && !busy && linked),
        r.save_group == (local_selected > 0),
{
    ActionStates {
        send: local_selected > 0 && !busy && has_devices,
        delete: watch_selected > 0 && !busy && linked,
        save_group: local_selected > 0,
    }
}

/// The name a playlist is saved under: the text typed, trimmed; nothing
/// when that leaves it empty.
pub open spec fn playlist_name_of(typed: Seq<char>) -> Option<Seq<char>> {
    let t = crate::text::trim_ws(typed);
    if t.len() > 0 {
        Some(t)
    } else {
        None
    }
}

/// The name to save a playlist under (see `playlist_name_of`).
pub fn playlist_name(typed: &str) -> (r: Option<String>)
    ensures
        match r {
            Some(n) => playlist_name_of(typed@) == Some(n@),
            None => playlist_name_of(typed@) is None,
        },
{
    let cs = chars_of(typed);
    let t = crate::text::trim_chars(cs.as_slice(), crate::text::TrimSet::Whitespace);
    if t.len() > 0 {
        Some(string_of(t.as_slice()))
    } else {
        None
    }
}

/// The log line after saving a playlist: confirmed with its name when a
/// watch is linked (playlists are kept per watch), else a warning.
pub open spec fn saved_playlist_note(name: Seq<char>, linked: bool) -> (LogKind, Seq<char>) {
    if linked {
        (LogKind::Success, "\u{2713} saved local playlist \u{ab}"@ + name + "\u{bb}"@)
    } else {
        (LogKind::Warn, "no device linked \u{2014} playlists are saved per-device"@)
    }
}

/// The log line after saving a playlist (see `saved_playlist_note`).
pub fn saved_playlist_line(name: &String, linked: bool) -> (r: (LogKind, String))
    ensures
        r.0 == saved_playlist_note(name@, linked).0,
        r.1@ == saved_playlist_note(name@, linked).1,
{
    if linked {
        let mut t = "\u{2713} saved local playlist \u{ab}".to_string();
        t.append(name.as_str());
        t.append("\u{bb}");
        (LogKind::Success, t)
    } else {
        (LogKind::Warn, "no device linked \u{2014} playlists are saved per-device".to_string())
    }
}

/// The caption of the transcode option.
pub fn transcode_option_label(ffmpeg_present: bool) -> (r: String)
    ensures
        r@ == if ffmpeg_present {
            "Transcode FLAC"@
        } else {
            "Transcode (no ffmpeg)"@
        },
{
    if ffmpeg_present {
        "Transcode FLAC".to_string()
    } else {
        "Transcode (no ffmpeg)".to_string()
    }
}

/// Milliseconds until the next repaint: fast while the transcoding marquee
/// runs, brisk while busy, lazy otherwise.
pub fn repaint_after_ms(stage: Option<ProgressStage>, busy: bool) -> (r: u64)
    ensures
        r == if stage == Some(ProgressStage::Transcoding) {
            33u64
        } else if busy {
            80u64
        } else {
            220u64
        },
{
    match stage {
        Some(ProgressStage::Transcoding) => 33,
        _ => if busy {
            80
        } else {
            220
        },
    }
}

} // verus!
