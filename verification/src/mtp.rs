//! The watch's file tree as the MTP backend sees it.
//!
//! Remote paths are `/`-separated and relative to the storage root
//! (`Music/foo.mp3`); leading and trailing `/` carry no meaning. The backend
//! caches object handles by path, creates folders one component at a time,
//! and lists folders with sub-folders first. The session itself is I/O and
//! lives with the caller; the path rules and the listing order live here.

use vstd::prelude::*;

use crate::paths::{split_chars, split_on, views};
use crate::text::{
    chars_ends_with, chars_of, decimal, decimal_chars, has_prefix, has_suffix, lower_chars,
    lower_seq, push_all, string_of, sub_chars, trim_chars, trim_set, TrimSet,
};

verus! {

broadcast use vstd::string::group_string_axioms;

/// One entry of a remote folder listing.
#[derive(Debug)]
pub struct RemoteEntry {
    pub name: String,
    pub path: String,
    pub size: u64,
    pub is_folder: bool,
    /// The watch lists the object but cannot describe it: almost always a
    /// stub left by an earlier rejected upload. Only deleting it makes sense.
    pub is_broken: bool,
}

pub struct RemoteEntryView {
    pub name: Seq<char>,
    pub path: Seq<char>,
    pub size: u64,
    pub is_folder: bool,
    pub is_broken: bool,
}

impl View for RemoteEntry {
    type V = RemoteEntryView;

    open spec fn view(&self) -> RemoteEntryView {
        RemoteEntryView {
            name: self.name@,
            path: self.path@,
            size: self.size,
            is_folder: self.is_folder,
            is_broken: self.is_broken,
        }
    }
}

pub open spec fn entries_view(e: Seq<RemoteEntry>) -> Seq<RemoteEntryView> {
    e.map_values(|x: RemoteEntry| x@)
}

// ── paths ───────────────────────────────────────────────────────────────

/// The cache key of a remote path: the path without leading and trailing `/`.
pub open spec fn remote_key(path: Seq<char>) -> Seq<char> {
    trim_set(path, TrimSet::Slash)
}

/// The cache key of a remote path (`path.trim_matches('/')`).
pub fn normalize_remote(path: &str) -> (r: String)
    ensures
        r@ == remote_key(path@),
{
    let cs = chars_of(path);
    let t = trim_chars(cs.as_slice(), TrimSet::Slash);
    string_of(t.as_slice())
}

/// The path of `name` inside the folder with key `dir`.
pub open spec fn child_of(dir: Seq<char>, name: Seq<char>) -> Seq<char> {
    if dir.len() == 0 {
        name
    } else {
        dir + seq!['/'] + name
    }
}

/// The path of `name` inside the folder with key `dir`.
pub fn child_path(dir: &str, name: &str) -> (r: String)
    ensures
        r@ == child_of(dir@, name@),
{
    let mut cs = chars_of(dir);
    let n = chars_of(name);
    if cs.len() == 0 {
        return string_of(n.as_slice());
    }
    cs.push('/');
    push_all(&mut cs, n.as_slice());
    string_of(cs.as_slice())
}

/// The position of the last `c` in `s`, if any.
pub open spec fn last_index(s: Seq<char>, c: char) -> Option<int> {
    if exists|i: int| 0 <= i < s.len() && #[trigger] s[i] == c && (forall|j: int| i < j < s.len() ==> s[j] != c) {
        Some(choose|i: int| 0 <= i < s.len() && #[trigger] s[i] == c && (forall|j: int| i < j < s.len() ==> s[j] != c))
    } else {
        None
    }
}

/// The folder a key lies in: what precedes its last `/`, or the root (the
/// empty key) when it has none.
pub open spec fn parent_of(key: Seq<char>) -> Seq<char> {
    match last_index(key, '/') {
        Some(i) => key.take(i),
        None => Seq::empty(),
    }
}

/// The key of the folder `key` lies in (see `parent_of`).
pub fn parent_path(key: &str) -> (r: String)
    ensures
        r@ == parent_of(key@),
{
    let cs = chars_of(key);
    let mut i = cs.len();
    while i > 0
        invariant
            i <= cs@.len(),
            cs@ == key@,
            forall|j: int| i <= j < cs@.len() ==> cs@[j] != '/',
        decreases i,
    {
        if cs[i - 1] == '/' {
            let k = i - 1;
            let ghost w = choose|w: int| 0 <= w < cs@.len() && #[trigger] cs@[w] == '/' && (forall|j: int| w < j < cs@.len() ==> cs@[j] != '/');
            assert(cs@[k as int] == '/');
            assert(w == k);
            let p = sub_chars(cs.as_slice(), 0, k);
            assert(p@ =~= key@.take(k as int));
            return string_of(p.as_slice());
        }
        i -= 1;
    }
    assert(last_index(key@, '/') is None);
    String::new()
}

/// The name of the synthetic entry that stands for an object the watch
/// lists but cannot describe: `‹unreadable #<handle>›`.
pub open spec fn broken_name(handle: u64) -> Seq<char> {
    seq!['\u{2039}', 'u', 'n', 'r', 'e', 'a', 'd', 'a', 'b', 'l', 'e', ' ', '#'] + decimal(
        handle as nat,
    ) + seq!['\u{203A}']
}

/// `‹unreadable #<handle>›`.
pub fn broken_entry_name(handle: u64) -> (r: String)
    ensures
        r@ == broken_name(handle),
{
    let mut cs = vec!['\u{2039}', 'u', 'n', 'r', 'e', 'a', 'd', 'a', 'b', 'l', 'e', ' ', '#'];
    let d = decimal_chars(handle as u128);
    push_all(&mut cs, d.as_slice());
    cs.push('\u{203A}');
    assert(cs@ =~= broken_name(handle));
    string_of(cs.as_slice())
}

/// The listing entry of a readable object named `name`, of `size` bytes,
/// in the folder with key `key`.
pub open spec fn object_entry(key: Seq<char>, o: (Seq<char>, u64, bool)) -> RemoteEntryView {
    RemoteEntryView {
        name: o.0,
        path: child_of(key, o.0),
        size: o.1,
        is_folder: o.2,
        is_broken: false,
    }
}

/// The listing entry that stands for the object with `handle`, which the
/// watch lists in the folder with key `key` but cannot describe: named
/// `‹unreadable #<handle>›`, empty, not a folder, marked broken.
pub open spec fn unreadable_entry(key: Seq<char>, handle: u64) -> RemoteEntryView {
    RemoteEntryView {
        name: broken_name(handle),
        path: child_of(key, broken_name(handle)),
        size: 0,
        is_folder: false,
        is_broken: true,
    }
}

/// The entries of a folder listing, before ordering: the readable objects
/// in the order given, then one entry per unreadable handle.
pub open spec fn listing_entries_of(
    key: Seq<char>,
    objects: Seq<(Seq<char>, u64, bool)>,
    unreadable: Seq<u64>,
) -> Seq<RemoteEntryView> {
    objects.map_values(|o: (Seq<char>, u64, bool)| object_entry(key, o)) + unreadable.map_values(
        |h: u64| unreadable_entry(key, h),
    )
}

pub open spec fn objects_view(o: Seq<(String, u64, bool)>) -> Seq<(Seq<char>, u64, bool)> {
    o.map_values(|x: (String, u64, bool)| (x.0@, x.1, x.2))
}

/// The entries of the folder with key `key`, from what the watch reported:
/// each readable object as (name, size, is a folder), and the handles of
/// the objects it could not describe. Unreadable objects stay visible, so
/// that they can be deleted. The entries come in the order given, readable
/// objects first; `sort_entries` puts them in display order.
pub fn listing_entries(key: &str, objects: Vec<(String, u64, bool)>, unreadable: Vec<u64>) -> (r:
    Vec<RemoteEntry>)
    ensures
        entries_view(r@) == listing_entries_of(key@, objects_view(objects@), unreadable@),
{
    let ghost ov = objects_view(objects@);
    let ghost first = ov.map_values(|o: (Seq<char>, u64, bool)| object_entry(key@, o));
    let ghost second = unreadable@.map_values(|h: u64| unreadable_entry(key@, h));
    let mut out: Vec<RemoteEntry> = Vec::new();
    let mut i: usize = 0;
    while i < objects.len()
        invariant
            ov == objects_view(objects@),
            first == ov.map_values(|o: (Seq<char>, u64, bool)| object_entry(key@, o)),
            i <= objects@.len(),
            entries_view(out@) == first.take(i as int),
        decreases objects@.len() - i,
    {
        let name = objects[i].0.clone();
        let path = child_path(key, name.as_str());
        let ghost before = entries_view(out@);
        out.push(
            RemoteEntry {
                name,
                path,
                size: objects[i].1,
                is_folder: objects[i].2,
                is_broken: false,
            },
        );
        assert(ov[i as int] == (objects@[i as int].0@, objects@[i as int].1, objects@[i as int].2));
        assert(entries_view(out@) =~= before.push(first[i as int]));
        assert(first.take(i + 1) =~= first.take(i as int).push(first[i as int]));
        i += 1;
    }
    assert(first.take(objects@.len() as int) =~= first);
    let mut j: usize = 0;
    while j < unreadable.len()
        invariant
            first == ov.map_values(|o: (Seq<char>, u64, bool)| object_entry(key@, o)),
            second == unreadable@.map_values(|h: u64| unreadable_entry(key@, h)),
            j <= unreadable@.len(),
            entries_view(out@) == first + second.take(j as int),
        decreases unreadable@.len() - j,
    {
        let name = broken_entry_name(unreadable[j]);
        let path = child_path(key, name.as_str());
        let ghost before = entries_view(out@);
        out.push(RemoteEntry { name, path, size: 0, is_folder: false, is_broken: true });
        assert(entries_view(out@) =~= before.push(second[j as int]));
        assert(second.take(j + 1) =~= second.take(j as int).push(second[j as int]));
        assert(first + second.take(j + 1) =~= (first + second.take(j as int)).push(
            second[j as int],
        ));
        j += 1;
    }
    assert(second.take(unreadable@.len() as int) =~= second);
    out
}

/// Whether a cached path goes stale when the object at `key` changes: the
/// object itself and everything below it. At the root that is everything.
pub open spec fn stale_under(cached: Seq<char>, key: Seq<char>) -> bool {
    cached == key || has_prefix(
        cached,
        if key.len() == 0 {
            Seq::<char>::empty()
        } else {
            key + seq!['/']
        },
    )
}

/// Whether the cached path `cached` goes stale when the object at the
/// (normalized) `key` changes.
pub fn is_stale(cached: &str, key: &str) -> (r: bool)
    ensures
        r == stale_under(cached@, key@),
{
    let c = chars_of(cached);
    let mut prefix = chars_of(key);
    if crate::text::chars_eq(c.as_slice(), prefix.as_slice()) {
        return true;
    }
    if prefix.len() > 0 {
        prefix.push('/');
    }
    assert(prefix@ =~= if key@.len() == 0 {
        Seq::<char>::empty()
    } else {
        key@ + seq!['/']
    });
    crate::text::chars_starts_with(c.as_slice(), prefix.as_slice())
}

/// The non-empty components of a path, in order.
pub open spec fn components(segs: Seq<Seq<char>>) -> Seq<Seq<char>>
    decreases segs.len(),
{
    if segs.len() == 0 {
        Seq::empty()
    } else if segs.last().len() == 0 {
        components(segs.drop_last())
    } else {
        components(segs.drop_last()).push(segs.last())
    }
}

/// Components joined with `/`.
pub open spec fn join_slash(cs: Seq<Seq<char>>) -> Seq<char>
    decreases cs.len(),
{
    if cs.len() == 0 {
        Seq::empty()
    } else if cs.len() == 1 {
        cs[0]
    } else {
        join_slash(cs.drop_last()) + seq!['/'] + cs.last()
    }
}

/// One folder on the way down to a remote folder: its own name and the key
/// of the folder, which is the names so far joined with `/`.
#[derive(Debug)]
pub struct FolderStep {
    pub name: String,
    pub key: String,
}

impl View for FolderStep {
    type V = (Seq<char>, Seq<char>);

    open spec fn view(&self) -> (Seq<char>, Seq<char>) {
        (self.name@, self.key@)
    }
}

pub open spec fn steps_view(s: Seq<FolderStep>) -> Seq<(Seq<char>, Seq<char>)> {
    s.map_values(|x: FolderStep| x@)
}

/// The folders to resolve, from the root down, for a remote folder path.
pub open spec fn folder_steps_of(path: Seq<char>) -> Seq<(Seq<char>, Seq<char>)> {
    let cs = components(split_on(path, '/'));
    Seq::new(cs.len(), |k: int| (cs[k], join_slash(cs.take(k + 1))))
}

/// The folders to look up or create, from the root down, to reach the
/// folder at `path`: each component that is not empty, with the key of the
/// folder it names.
pub fn folder_steps(path: &str) -> (r: Vec<FolderStep>)
    ensures
        steps_view(r@) == folder_steps_of(path@),
{
    let cs = chars_of(path);
    let segs = split_chars(cs.as_slice(), '/');
    let ghost sv = views(segs@);
    let mut out: Vec<FolderStep> = Vec::new();
    let mut acc: Vec<char> = Vec::new();
    let ghost mut comps: Seq<Seq<char>> = Seq::empty();
    let mut i: usize = 0;
    while i < segs.len()
        invariant
            sv == views(segs@),
            i <= segs@.len(),
            comps == components(sv.take(i as int)),
            forall|k: int| 0 <= k < comps.len() ==> (#[trigger] comps[k]).len() > 0,
            acc@ == join_slash(comps),
            steps_view(out@) == Seq::new(
                comps.len(),
                |k: int| (comps[k], join_slash(comps.take(k + 1))),
            ),
        decreases segs@.len() - i,
    {
        assert(sv.take(i + 1).drop_last() =~= sv.take(i as int));
        assert(sv[i as int] == segs@[i as int]@);
        if segs[i].len() > 0 {
            let ghost before = steps_view(out@);
            if acc.len() > 0 {
                acc.push('/');
            }
            push_all(&mut acc, segs[i].as_slice());
            let ghost next = comps.push(sv[i as int]);
            assert(next.drop_last() =~= comps);
            assert(comps.len() == 0 ==> next =~= seq![sv[i as int]]);
            assert(comps.len() > 0 ==> join_slash(comps).len() > 0) by {
                if comps.len() > 0 {
                    lemma_join_nonempty(comps);
                }
            }
            assert(acc@ =~= join_slash(next));
            let step = FolderStep { name: string_of(segs[i].as_slice()), key: string_of(acc.as_slice()) };
            out.push(step);
            assert(steps_view(out@) =~= before.push((sv[i as int], join_slash(next))));
            let ghost prev = comps;
            proof {
                comps = next;
            }
            assert(next.take(next.len() as int) =~= next);
            assert forall|k: int| 0 <= k < prev.len() implies #[trigger] next.take(k + 1)
                == prev.take(k + 1) by {
                assert(next.take(k + 1) =~= prev.take(k + 1));
            }
            assert forall|k: int| 0 <= k < prev.len() implies #[trigger] next[k] == prev[k] by {}
            assert(steps_view(out@) =~= Seq::new(
                next.len(),
                |k: int| (next[k], join_slash(next.take(k + 1))),
            ));
        }
        i += 1;
    }
    assert(sv.take(segs@.len() as int) =~= sv);
    out
}

proof fn lemma_join_nonempty(cs: Seq<Seq<char>>)
    requires
        cs.len() > 0,
        forall|k: int| 0 <= k < cs.len() ==> (#[trigger] cs[k]).len() > 0,
    ensures
        join_slash(cs).len() > 0,
    decreases cs.len(),
{
    if cs.len() > 1 {
        assert(cs.drop_last()[0] == cs[0]);
    }
}

/// How a raw file is announced to the watch when it is written.
#[derive(Debug, Clone, Copy, PartialEq, Eq, Structural)]
pub enum RawFormat {
    /// MTP abstract audio/video playlist (`0xBA05`): used for `.m3u` and
    /// `.m3u8` playlists, the format code the firmware looks for.
    Playlist,
    /// MTP `Undefined`: everything else.
    Undefined,
}

/// The format code for a raw file: `Playlist` for `.m3u8` and `.m3u` (any
/// case), `Undefined` otherwise.
pub open spec fn raw_format_of(name: Seq<char>) -> RawFormat {
    if has_suffix(lower_seq(name), seq!['.', 'm', '3', 'u', '8']) || has_suffix(
        lower_seq(name),
        seq!['.', 'm', '3', 'u'],
    ) {
        RawFormat::Playlist
    } else {
        RawFormat::Undefined
    }
}

/// The format code a raw file named `name` is written with.
pub fn raw_format(name: &str) -> (r: RawFormat)
    ensures
        r == raw_format_of(name@),
{
    let cs = chars_of(name);
    let lower = lower_chars(cs.as_slice());
    let m3u8 = ['.', 'm', '3', 'u', '8'];
    assert(m3u8@ =~= seq!['.', 'm', '3', 'u', '8']);
    let m3u = ['.', 'm', '3', 'u'];
    assert(m3u@ =~= seq!['.', 'm', '3', 'u']);
    if chars_ends_with(lower.as_slice(), &m3u8) || chars_ends_with(lower.as_slice(), &m3u) {
        RawFormat::Playlist
    } else {
        RawFormat::Undefined
    }
}

} // verus!

verus! {

// ── listing order ───────────────────────────────────────────────────────

/// What `str::to_lowercase` makes of a string (Unicode lowercase).
pub uninterp spec fn unicode_lower(s: Seq<char>) -> Seq<char>;

/// `str::to_lowercase`. The result is named, not stated: it follows the
/// Unicode case tables of the standard library.
#[verifier::external_body]
fn to_lowercase(s: &str) -> (r: String)
    ensures
        r@ == unicode_lower(s@),
{
    s.to_lowercase()
}

/// Code-point lexicographic order, which is the order of `str` and `String`
/// (UTF-8 keeps the order of code points).
pub open spec fn lex_lt(a: Seq<char>, b: Seq<char>) -> bool
    decreases a.len(),
{
    if a.len() == 0 {
        b.len() > 0
    } else if b.len() == 0 {
        false
    } else if a[0] != b[0] {
        (a[0] as int) < (b[0] as int)
    } else {
        lex_lt(a.drop_first(), b.drop_first())
    }
}

proof fn lemma_lex_irreflexive(a: Seq<char>)
    ensures
        !lex_lt(a, a),
    decreases a.len(),
{
    if a.len() > 0 {
        lemma_lex_irreflexive(a.drop_first());
    }
}

proof fn lemma_lex_transitive(a: Seq<char>, b: Seq<char>, c: Seq<char>)
    requires
        lex_lt(a, b),
        lex_lt(b, c),
    ensures
        lex_lt(a, c),
    decreases a.len(),
{
    if a.len() > 0 && b.len() > 0 && c.len() > 0 && a[0] == b[0] && b[0] == c[0] {
        lemma_lex_transitive(a.drop_first(), b.drop_first(), c.drop_first());
    }
}

proof fn lemma_lex_total(a: Seq<char>, b: Seq<char>)
    ensures
        a == b || lex_lt(a, b) || lex_lt(b, a),
    decreases a.len(),
{
    if a.len() > 0 && b.len() > 0 && a[0] == b[0] {
        lemma_lex_total(a.drop_first(), b.drop_first());
        if a.drop_first() == b.drop_first() {
            assert(a =~= seq![a[0]] + a.drop_first());
            assert(b =~= seq![b[0]] + b.drop_first());
        }
    } else if a.len() == 0 && b.len() == 0 {
        assert(a =~= b);
    } else if a.len() > 0 && b.len() > 0 {
        assert(a[0] as int != b[0] as int);
    }
}

proof fn lemma_lex_common_prefix(a: Seq<char>, b: Seq<char>, i: int)
    requires
        0 <= i <= a.len(),
        i <= b.len(),
        a.take(i) == b.take(i),
    ensures
        lex_lt(a, b) == lex_lt(a.skip(i), b.skip(i)),
    decreases i,
{
    if i > 0 {
        assert(a[0] == a.take(i)[0]);
        assert(b[0] == b.take(i)[0]);
        assert(a.drop_first().take(i - 1) =~= a.take(i).drop_first());
        assert(b.drop_first().take(i - 1) =~= b.take(i).drop_first());
        lemma_lex_common_prefix(a.drop_first(), b.drop_first(), i - 1);
        assert(a.drop_first().skip(i - 1) =~= a.skip(i));
        assert(b.drop_first().skip(i - 1) =~= b.skip(i));
    } else {
        assert(a.skip(0) =~= a);
        assert(b.skip(0) =~= b);
    }
}

/// Whether `a` sorts before `b` (`a < b` on strings).
fn chars_lt(a: &[char], b: &[char]) -> (r: bool)
    ensures
        r == lex_lt(a@, b@),
{
    let mut i: usize = 0;
    while i < a.len() && i < b.len() && a[i] == b[i]
        invariant
            i <= a@.len(),
            i <= b@.len(),
            a@.take(i as int) == b@.take(i as int),
        decreases a@.len() - i,
    {
        assert(a@.take(i + 1) =~= a@.take(i as int).push(a@[i as int]));
        assert(b@.take(i + 1) =~= b@.take(i as int).push(b@[i as int]));
        i += 1;
    }
    proof {
        lemma_lex_common_prefix(a@, b@, i as int);
    }
    let ghost sa = a@.skip(i as int);
    let ghost sb = b@.skip(i as int);
    if i < a.len() && i < b.len() {
        assert(sa[0] == a@[i as int] && sb[0] == b@[i as int]);
        a[i] < b[i]
    } else {
        i == a.len() && i < b.len()
    }
}

/// What a listing is ordered by: folders first, then names compared in
/// Unicode lowercase.
#[derive(Debug)]
pub struct ListingKey {
    pub is_folder: bool,
    pub name: String,
}

/// The key a listing entry is sorted by: folder or not, lowercase name.
pub open spec fn sort_key(k: ListingKey) -> (bool, Seq<char>) {
    (k.is_folder, unicode_lower(k.name@))
}

pub open spec fn sort_keys(ks: Seq<ListingKey>) -> Seq<(bool, Seq<char>)> {
    ks.map_values(|k: ListingKey| sort_key(k))
}

/// `x` sorts strictly before `y`: a folder before a file, else by name.
pub open spec fn key_lt(x: (bool, Seq<char>), y: (bool, Seq<char>)) -> bool {
    (x.0 && !y.0) || (x.0 == y.0 && lex_lt(x.1, y.1))
}

/// Entry `i` comes before entry `j`: its key is smaller, or the keys are
/// equal and it came first (the sort is stable).
pub open spec fn comes_before(ks: Seq<(bool, Seq<char>)>, i: int, j: int) -> bool {
    key_lt(ks[i], ks[j]) || (ks[i] == ks[j] && i < j)
}

/// `order` lists every index of `ks` once, in the listing order.
pub open spec fn is_listing_order(ks: Seq<(bool, Seq<char>)>, order: Seq<int>) -> bool {
    &&& order.len() == ks.len()
    &&& forall|p: int| 0 <= p < order.len() ==> 0 <= #[trigger] order[p] < ks.len()
    &&& forall|p: int, q: int|
        0 <= p < q < order.len() ==> comes_before(ks, #[trigger] order[p], #[trigger] order[q])
}

proof fn lemma_key_order(x: (bool, Seq<char>), y: (bool, Seq<char>), z: (bool, Seq<char>))
    ensures
        !key_lt(x, x),
        key_lt(x, y) && key_lt(y, z) ==> key_lt(x, z),
        x == y || key_lt(x, y) || key_lt(y, x),
        key_lt(x, y) ==> !key_lt(y, x),
{
    lemma_lex_irreflexive(x.1);
    lemma_lex_total(x.1, y.1);
    if key_lt(x, y) && key_lt(y, z) && x.0 == y.0 && y.0 == z.0 {
        lemma_lex_transitive(x.1, y.1, z.1);
    }
    if key_lt(x, y) && key_lt(y, x) {
        lemma_lex_transitive(x.1, y.1, x.1);
    }
    if x.0 == y.0 && x.1 == y.1 {
        assert(x == y);
    }
}

/// In a listing order no index appears twice.
pub proof fn lemma_listing_order_distinct(ks: Seq<(bool, Seq<char>)>, order: Seq<int>)
    requires
        is_listing_order(ks, order),
    ensures
        forall|p: int, q: int|
            0 <= p < q < order.len() ==> #[trigger] order[p] != #[trigger] order[q],
{
    assert forall|p: int, q: int| 0 <= p < q < order.len() implies #[trigger] order[p]
        != #[trigger] order[q] by {
        let i = order[p];
        lemma_key_order(ks[i], ks[i], ks[i]);
        assert(comes_before(ks, order[p], order[q]));
    }
}

fn key_less(a: &(bool, Vec<char>), b: &(bool, Vec<char>)) -> (r: bool)
    ensures
        r == key_lt((a.0, a.1@), (b.0, b.1@)),
{
    if a.0 && !b.0 {
        true
    } else if a.0 == b.0 {
        chars_lt(a.1.as_slice(), b.1.as_slice())
    } else {
        false
    }
}

pub open spec fn lowered_view(ks: Seq<(bool, Vec<char>)>) -> Seq<(bool, Seq<char>)> {
    ks.map_values(|k: (bool, Vec<char>)| (k.0, k.1@))
}

pub open spec fn order_view(o: Seq<usize>) -> Seq<int> {
    o.map_values(|i: usize| i as int)
}

/// The listing order of keys already lowered: each key is whether the
/// entry is a folder and its name in lowercase. Folders come first, then
/// names in code-point order; equal keys keep their order. The result holds
/// each index of `keys` once.
pub fn order_of_keys(keys: &Vec<(bool, Vec<char>)>) -> (r: Vec<usize>)
    ensures
        is_listing_order(lowered_view(keys@), order_view(r@)),
{
    let ghost ks = lowered_view(keys@);
    let mut order: Vec<usize> = Vec::new();
    let mut j: usize = 0;
    while j < keys.len()
        invariant
            ks == lowered_view(keys@),
            j <= keys@.len(),
            order@.len() == j,
            forall|p: int| 0 <= p < order@.len() ==> (#[trigger] order@[p]) < j,
            forall|p: int, q: int|
                0 <= p < q < order@.len() ==> comes_before(
                    ks,
                    #[trigger] order@[p] as int,
                    #[trigger] order@[q] as int,
                ),
        decreases keys@.len() - j,
    {
        let mut pos: usize = 0;
        while pos < order.len() && !key_less(&keys[j], &keys[order[pos]])
            invariant
                ks == lowered_view(keys@),
                j < keys@.len(),
                pos <= order@.len(),
                forall|p: int| 0 <= p < order@.len() ==> (#[trigger] order@[p]) < j,
                forall|q: int| 0 <= q < pos ==> !key_lt(ks[j as int], ks[#[trigger] order@[q] as int]),
            decreases order@.len() - pos,
        {
            pos += 1;
        }
        let ghost old_order = order@;
        proof {
            // Everything from `pos` on sorts after the new key.
            assert forall|q: int| pos <= q < old_order.len() implies key_lt(
                ks[j as int],
                ks[#[trigger] old_order[q] as int],
            ) by {
                let a = ks[j as int];
                let b = ks[old_order[pos as int] as int];
                let c = ks[old_order[q] as int];
                assert(key_lt(a, b));
                if q > pos {
                    assert(comes_before(ks, old_order[pos as int] as int, old_order[q] as int));
                    lemma_key_order(a, b, c);
                }
            }
        }
        order.insert(pos, j);
        proof {
            assert forall|p: int| 0 <= p < order@.len() implies (#[trigger] order@[p]) < j + 1 by {
                if p < pos {
                    assert(order@[p] == old_order[p]);
                } else if p > pos {
                    assert(order@[p] == old_order[p - 1]);
                }
            }
            assert forall|p: int, q: int| 0 <= p < q < order@.len() implies comes_before(
                ks,
                #[trigger] order@[p] as int,
                #[trigger] order@[q] as int,
            ) by {
                if p < pos && q < pos {
                    assert(order@[p] == old_order[p] && order@[q] == old_order[q]);
                } else if p < pos && q == pos {
                    let x = ks[old_order[p] as int];
                    let y = ks[j as int];
                    assert(order@[p] == old_order[p]);
                    assert(!key_lt(y, x));
                    lemma_key_order(x, y, y);
                } else if p < pos && q > pos {
                    assert(order@[p] == old_order[p] && order@[q] == old_order[q - 1]);
                } else if p == pos {
                    assert(order@[q] == old_order[q - 1]);
                    assert(key_lt(ks[j as int], ks[old_order[q - 1] as int]));
                } else {
                    assert(order@[p] == old_order[p - 1] && order@[q] == old_order[q - 1]);
                }
            }
        }
        j += 1;
    }
    let ghost ov = order_view(order@);
    assert forall|p: int, q: int| 0 <= p < q < ov.len() implies comes_before(
        ks,
        #[trigger] ov[p],
        #[trigger] ov[q],
    ) by {
        assert(ov[p] == order@[p] as int && ov[q] == order@[q] as int);
    }
    order
}

fn lowered_keys(keys: &[ListingKey]) -> (r: Vec<(bool, Vec<char>)>)
    ensures
        lowered_view(r@) == sort_keys(keys@),
{
    let mut out: Vec<(bool, Vec<char>)> = Vec::new();
    let mut i: usize = 0;
    while i < keys.len()
        invariant
            i <= keys@.len(),
            lowered_view(out@) == sort_keys(keys@.take(i as int)),
        decreases keys@.len() - i,
    {
        let ghost before = lowered_view(out@);
        let lower = to_lowercase(keys[i].name.as_str());
        let cs = chars_of(lower.as_str());
        out.push((keys[i].is_folder, cs));
        assert(lowered_view(out@) =~= before.push(sort_key(keys@[i as int])));
        assert(sort_keys(keys@.take(i + 1)) =~= sort_keys(keys@.take(i as int)).push(
            sort_key(keys@[i as int]),
        ));
        i += 1;
    }
    assert(keys@.take(keys@.len() as int) =~= keys@);
    out
}

/// The order a listing is shown in: folders first, then by name compared
/// in Unicode lowercase; entries that compare equal keep their order. The
/// result holds each index of `keys` once.
pub fn listing_order(keys: &[ListingKey]) -> (r: Vec<usize>)
    ensures
        is_listing_order(sort_keys(keys@), order_view(r@)),
{
    let lowered = lowered_keys(keys);
    order_of_keys(&lowered)
}

fn copy_entry(e: &RemoteEntry) -> (r: RemoteEntry)
    ensures
        r@ == e@,
{
    RemoteEntry {
        name: e.name.clone(),
        path: e.path.clone(),
        size: e.size,
        is_folder: e.is_folder,
        is_broken: e.is_broken,
    }
}

pub open spec fn entry_key(e: RemoteEntryView) -> (bool, Seq<char>) {
    (e.is_folder, unicode_lower(e.name))
}

pub open spec fn entry_keys(es: Seq<RemoteEntryView>) -> Seq<(bool, Seq<char>)> {
    es.map_values(|e: RemoteEntryView| entry_key(e))
}

/// A folder listing in display order: sub-folders first, then by name in
/// Unicode lowercase, entries comparing equal in the order listed.
pub fn sort_entries(entries: Vec<RemoteEntry>) -> (r: Vec<RemoteEntry>)
    ensures
        exists|order: Seq<int>|
            is_listing_order(entry_keys(entries_view(entries@)), order) && entries_view(r@)
                == order.map_values(|i: int| entries_view(entries@)[i]),
{
    let mut keys: Vec<ListingKey> = Vec::new();
    let mut i: usize = 0;
    while i < entries.len()
        invariant
            i <= entries@.len(),
            keys@.len() == i,
            forall|k: int| 0 <= k < i ==> #[trigger] sort_key(keys@[k]) == entry_key(entries@[k]@),
        decreases entries@.len() - i,
    {
        keys.push(ListingKey { is_folder: entries[i].is_folder, name: entries[i].name.clone() });
        i += 1;
    }
    let order = listing_order(keys.as_slice());
    let ghost ev = entries_view(entries@);
    assert(sort_keys(keys@) =~= entry_keys(ev));
    let ghost ov = order_view(order@);
    let mut out: Vec<RemoteEntry> = Vec::new();
    let mut p: usize = 0;
    while p < order.len()
        invariant
            ov == order_view(order@),
            is_listing_order(entry_keys(ev), ov),
            ev == entries_view(entries@),
            p <= order@.len(),
            entries_view(out@) == ov.take(p as int).map_values(|i: int| ev[i]),
        decreases order@.len() - p,
    {
        let k = order[p];
        assert(ov[p as int] == k as int);
        let e = copy_entry(&entries[k]);
        let ghost before = entries_view(out@);
        out.push(e);
        assert(entries_view(out@) =~= before.push(ev[k as int]));
        assert(ov.take(p + 1).map_values(|i: int| ev[i]) =~= ov.take(p as int).map_values(
            |i: int| ev[i],
        ).push(ev[k as int]));
        p += 1;
    }
    assert(ov.take(order@.len() as int) =~= ov);
    out
}

} // verus!
