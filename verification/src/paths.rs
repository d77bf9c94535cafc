//! The parts of a Unix path that the upload planner reads: the file name,
//! its stem and its extension, with the same meaning as `std::path::Path`.
//!
//! A path is split on `/`; empty segments and `.` segments carry no name.
//! The file name is the last segment that carries one, unless that segment
//! is `..`. The extension is what follows the last `.` of the file name,
//! unless that `.` is the name's first character.

use vstd::prelude::*;

verus! {

/// The view of each element of a sequence of character vectors.
pub open spec fn views(v: Seq<Vec<char>>) -> Seq<Seq<char>> {
    v.map_values(|x: Vec<char>| x@)
}

pub open spec fn view_opt(o: Option<Vec<char>>) -> Option<Seq<char>> {
    match o {
        Some(v) => Some(v@),
        None => None,
    }
}

/// `s` cut at every `sep`; there is always at least one (possibly empty) piece.
pub open spec fn split_on(s: Seq<char>, sep: char) -> Seq<Seq<char>>
    decreases s.len(),
{
    if s.len() == 0 {
        seq![Seq::<char>::empty()]
    } else {
        let rest = split_on(s.drop_last(), sep);
        if s.last() == sep {
            rest.push(Seq::<char>::empty())
        } else {
            rest.update(rest.len() - 1, rest.last().push(s.last()))
        }
    }
}

/// Splitting always yields at least one piece.
pub proof fn lemma_split_on_nonempty(s: Seq<char>, sep: char)
    ensures
        split_on(s, sep).len() >= 1,
    decreases s.len(),
{
    if s.len() > 0 {
        lemma_split_on_nonempty(s.drop_last(), sep);
    }
}

/// `s` cut at every `sep`.
pub fn split_chars(s: &[char], sep: char) -> (r: Vec<Vec<char>>)
    ensures
        views(r@) == split_on(s@, sep),
{
    let mut segs: Vec<Vec<char>> = Vec::new();
    let mut cur: Vec<char> = Vec::new();
    let mut i: usize = 0;
    assert(s@.take(0) =~= Seq::<char>::empty());
    assert(views(segs@).push(cur@) =~= split_on(s@.take(0), sep));
    while i < s.len()
        invariant
            i <= s@.len(),
            views(segs@).push(cur@) == split_on(s@.take(i as int), sep),
        decreases s@.len() - i,
    {
        let c = s[i];
        assert(s@.take(i + 1).drop_last() =~= s@.take(i as int));
        if c == sep {
            let done = cur;
            segs.push(done);
            cur = Vec::new();
            assert(views(segs@).push(cur@) =~= views(segs@.drop_last()).push(done@).push(
                Seq::<char>::empty(),
            ));
        } else {
            let ghost before = views(segs@).push(cur@);
            cur.push(c);
            assert(views(segs@).push(cur@) =~= before.update(before.len() - 1, before.last().push(c)));
        }
        i += 1;
    }
    assert(s@.take(s@.len() as int) =~= s@);
    let last = cur;
    segs.push(last);
    assert(views(segs@) =~= views(segs@.drop_last()).push(last@));
    segs
}

pub open spec fn carries_name(seg: Seq<char>) -> bool {
    seg.len() > 0 && seg != seq!['.']
}

/// The last segment that carries a name.
pub open spec fn last_named(segs: Seq<Seq<char>>) -> Option<Seq<char>>
    decreases segs.len(),
{
    if segs.len() == 0 {
        None
    } else if carries_name(segs.last()) {
        Some(segs.last())
    } else {
        last_named(segs.drop_last())
    }
}

/// `Path::file_name`.
pub open spec fn file_name_of(p: Seq<char>) -> Option<Seq<char>> {
    match last_named(split_on(p, '/')) {
        Some(seg) => if seg == seq!['.', '.'] {
            None
        } else {
            Some(seg)
        },
        None => None,
    }
}

/// Index of the last `.` in `name`.
pub open spec fn last_dot(name: Seq<char>) -> Option<int>
    decreases name.len(),
{
    if name.len() == 0 {
        None
    } else if name.last() == '.' {
        Some(name.len() - 1)
    } else {
        last_dot(name.drop_last())
    }
}

/// `last_dot` finds the last `.` of a name, or says there is none.
pub proof fn lemma_last_dot(name: Seq<char>)
    ensures
        match last_dot(name) {
            Some(i) => 0 <= i < name.len() && name[i] == '.' && forall|j: int|
                i < j < name.len() ==> name[j] != '.',
            None => forall|j: int| 0 <= j < name.len() ==> name[j] != '.',
        },
    decreases name.len(),
{
    if name.len() > 0 && name.last() != '.' {
        let p = name.drop_last();
        lemma_last_dot(p);
        match last_dot(p) {
            Some(i) => {
                assert forall|j: int| i < j < name.len() implies name[j] != '.' by {
                    if j < name.len() - 1 {
                        assert(name[j] == p[j]);
                    }
                }
            },
            None => {
                assert forall|j: int| 0 <= j < name.len() implies name[j] != '.' by {
                    if j < name.len() - 1 {
                        assert(name[j] == p[j]);
                    }
                }
            },
        }
    }
}

/// A file name cut into stem and extension (`Path::file_stem` / `Path::extension`).
pub open spec fn stem_of_name(name: Seq<char>) -> Seq<char> {
    match last_dot(name) {
        Some(i) => if i > 0 {
            name.take(i)
        } else {
            name
        },
        None => name,
    }
}

pub open spec fn extension_of_name(name: Seq<char>) -> Option<Seq<char>> {
    match last_dot(name) {
        Some(i) => if i > 0 {
            Some(name.skip(i + 1))
        } else {
            None
        },
        None => None,
    }
}

/// `Path::file_stem`.
pub open spec fn file_stem_of(p: Seq<char>) -> Option<Seq<char>> {
    match file_name_of(p) {
        Some(n) => Some(stem_of_name(n)),
        None => None,
    }
}

/// `Path::extension`.
pub open spec fn extension_of(p: Seq<char>) -> Option<Seq<char>> {
    match file_name_of(p) {
        Some(n) => extension_of_name(n),
        None => None,
    }
}

/// The file name of `path`, as `Path::file_name` returns it.
pub fn file_name(path: &[char]) -> (r: Option<Vec<char>>)
    ensures
        view_opt(r) == file_name_of(path@),
{
    let mut segs = split_chars(path, '/');
    let ghost all = views(segs@);
    let mut k = segs.len();
    assert(views(segs@).take(k as int) =~= all);
    while k > 0
        invariant
            k <= segs@.len(),
            views(segs@) == all,
            all == split_on(path@, '/'),
            last_named(views(segs@).take(k as int)) == last_named(all),
        decreases k,
    {
        let seg = &segs[k - 1];
        let dot = ['.'];
        assert(dot@ =~= seq!['.']);
        if seg.len() > 0 && !chars_eq_slice(seg.as_slice(), &dot) {
            proof {
                let t = views(segs@).take(k as int);
                assert(t.last() == segs@[k - 1]@);
                assert(last_named(t) == Some(segs@[k - 1]@));
            }
            let ghost target = segs@[k - 1]@;
            let named = segs.remove(k - 1);
            assert(named@ == target);
            assert(last_named(split_on(path@, '/')) == Some(target));
            let dotdot = ['.', '.'];
            assert(dotdot@ =~= seq!['.', '.']);
            if chars_eq_slice(named.as_slice(), &dotdot) {
                return None;
            }
            return Some(named);
        }
        assert(views(segs@).take(k as int).drop_last() =~= views(segs@).take(k - 1));
        k -= 1;
    }
    None
}

fn chars_eq_slice(a: &[char], b: &[char]) -> (r: bool)
    ensures
        r == (a@ == b@),
{
    crate::text::chars_eq(a, b)
}

/// The stem and extension of a file name.
pub fn split_ext(name: &[char]) -> (r: (Vec<char>, Option<Vec<char>>))
    ensures
        r.0@ == stem_of_name(name@),
        view_opt(r.1) == extension_of_name(name@),
{
    let mut i = name.len();
    assert(name@.take(i as int) =~= name@);
    while i > 0 && name[i - 1] != '.'
        invariant
            i <= name@.len(),
            last_dot(name@) == last_dot(name@.take(i as int)),
        decreases i,
    {
        assert(name@.take(i as int).drop_last() =~= name@.take(i - 1));
        i -= 1;
    }
    // `i - 1` is the last dot, when there is one.
    if i <= 1 {
        let whole = vstd::slice::slice_to_vec(name);
        return (whole, None);
    }
    let dot = i - 1;
    let mut stem: Vec<char> = Vec::new();
    let mut j: usize = 0;
    while j < dot
        invariant
            dot < name@.len(),
            j <= dot,
            stem@ == name@.take(j as int),
        decreases dot - j,
    {
        stem.push(name[j]);
        assert(name@.take(j as int).push(name@[j as int]) =~= name@.take(j + 1));
        j += 1;
    }
    let mut ext: Vec<char> = Vec::new();
    let mut k = dot + 1;
    while k < name.len()
        invariant
            dot + 1 <= k <= name@.len(),
            ext@ == name@.subrange(dot + 1, k as int),
        decreases name@.len() - k,
    {
        ext.push(name[k]);
        assert(name@.subrange(dot + 1, k as int).push(name@[k as int]) =~= name@.subrange(
            dot + 1,
            k + 1,
        ));
        k += 1;
    }
    assert(ext@ =~= name@.skip(dot + 1));
    (stem, Some(ext))
}

/// `Path::file_stem`.
pub fn file_stem(path: &[char]) -> (r: Option<Vec<char>>)
    ensures
        view_opt(r) == file_stem_of(path@),
{
    match file_name(path) {
        Some(n) => {
            let (stem, _) = split_ext(n.as_slice());
            Some(stem)
        },
        None => None,
    }
}

/// `Path::extension`.
pub fn extension(path: &[char]) -> (r: Option<Vec<char>>)
    ensures
        view_opt(r) == extension_of(path@),
{
    match file_name(path) {
        Some(n) => {
            let (_, ext) = split_ext(n.as_slice());
            ext
        },
        None => None,
    }
}

} // verus!
