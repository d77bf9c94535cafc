//! Spotting a GVFS mount that holds the watch.
//!
//! On most Linux desktops, plugging in a Garmin watch makes gvfs-mtp mount
//! it; while it does, direct USB access fails with "busy". gvfs-mtp names
//! its mount directories under `/run/user/<uid>/gvfs` after the device URL
//! (`mtp:host=...`), which carries the USB vendor id.

use vstd::prelude::*;

use crate::garmin::GARMIN_VENDOR_ID;
use crate::text::{
    chars_contains, chars_of, chars_starts_with, contains_run, decimal, decimal_chars, has_prefix,
    lower_seq, push_all, string_of,
};

verus! {

broadcast use vstd::string::group_string_axioms;

/// The upper-case hex digit for `d < 16`.
pub open spec fn hex_digit(d: int) -> char {
    if d < 10 {
        ((48 + d) as u32) as char
    } else {
        ((55 + d) as u32) as char
    }
}

/// `v` as four upper-case hex digits (`format!("{v:04X}")`).
pub open spec fn hex4(v: u16) -> Seq<char> {
    seq![
        hex_digit((v / 4096) as int),
        hex_digit(((v / 256) % 16) as int),
        hex_digit(((v / 16) % 16) as int),
        hex_digit((v % 16) as int),
    ]
}

fn hex_char(d: u16) -> (c: char)
    requires
        d < 16,
    ensures
        c == hex_digit(d as int),
{
    if d < 10 {
        ((48 + d) as u8) as char
    } else {
        ((55 + d) as u8) as char
    }
}

/// `v` as four upper-case hex digits.
pub fn hex4_chars(v: u16) -> (r: Vec<char>)
    ensures
        r@ == hex4(v),
{
    let r = vec![hex_char(v / 4096), hex_char((v / 256) % 16), hex_char((v / 16) % 16), hex_char(v % 16)];
    assert(r@ =~= hex4(v));
    r
}

/// The directory gvfs mounts under for user `uid`: `/run/user/<uid>/gvfs`.
pub open spec fn gvfs_base_of(uid: u32) -> Seq<char> {
    "/run/user/"@ + decimal(uid as nat) + "/gvfs"@
}

/// `/run/user/<uid>/gvfs`.
pub fn gvfs_base(uid: u32) -> (r: String)
    ensures
        r@ == gvfs_base_of(uid),
{
    let mut out = chars_of("/run/user/");
    let d = decimal_chars(uid as u128);
    push_all(&mut out, d.as_slice());
    let tail = chars_of("/gvfs");
    push_all(&mut out, tail.as_slice());
    string_of(out.as_slice())
}

pub open spec fn mtp_host_prefix() -> Seq<char> {
    seq!['m', 't', 'p', ':', 'h', 'o', 's', 't', '=']
}

/// A gvfs mount directory that looks like a Garmin watch: an MTP mount
/// whose name holds Garmin's vendor id in hex, upper or lower case.
pub open spec fn is_garmin_mount_name(name: Seq<char>) -> bool {
    has_prefix(name, mtp_host_prefix()) && (contains_run(name, hex4(GARMIN_VENDOR_ID))
        || contains_run(name, lower_seq(hex4(GARMIN_VENDOR_ID))))
}

/// Whether the gvfs directory entry `name` is a mount of a Garmin watch.
pub fn is_garmin_mount(name: &str) -> (r: bool)
    ensures
        r == is_garmin_mount_name(name@),
{
    let cs = chars_of(name);
    let prefix = ['m', 't', 'p', ':', 'h', 'o', 's', 't', '='];
    assert(prefix@ =~= mtp_host_prefix());
    if !chars_starts_with(cs.as_slice(), &prefix) {
        return false;
    }
    let upper = hex4_chars(GARMIN_VENDOR_ID);
    let lower = crate::text::lower_chars(upper.as_slice());
    chars_contains(cs.as_slice(), upper.as_slice()) || chars_contains(cs.as_slice(), lower.as_slice())
}

pub open spec fn names_view(v: Seq<String>) -> Seq<Seq<char>> {
    v.map_values(|s: String| s@)
}

/// The first of `names` that is a Garmin mount, as a path under `base`.
pub open spec fn garmin_mount_in(base: Seq<char>, names: Seq<Seq<char>>) -> Option<Seq<char>>
    decreases names.len(),
{
    if names.len() == 0 {
        None
    } else if is_garmin_mount_name(names[0]) {
        Some(base + seq!['/'] + names[0])
    } else {
        garmin_mount_in(base, names.drop_first())
    }
}

/// The path of the first entry of the gvfs directory `base` (its entries
/// `names`, as listed) that is a Garmin mount.
pub fn find_garmin_mount(base: &str, names: &Vec<String>) -> (r: Option<String>)
    ensures
        match r {
            Some(p) => garmin_mount_in(base@, names_view(names@)) == Some(p@),
            None => garmin_mount_in(base@, names_view(names@)) is None,
        },
{
    let ghost nv = names_view(names@);
    assert(nv.skip(0) =~= nv);
    let mut i: usize = 0;
    while i < names.len()
        invariant
            i <= names@.len(),
            nv == names_view(names@),
            garmin_mount_in(base@, nv) == garmin_mount_in(base@, nv.skip(i as int)),
        decreases names@.len() - i,
    {
        assert(nv.skip(i as int)[0] == names@[i as int]@);
        assert(nv.skip(i as int).drop_first() =~= nv.skip(i + 1));
        if is_garmin_mount(names[i].as_str()) {
            let mut out = chars_of(base);
            out.push('/');
            let n = chars_of(names[i].as_str());
            push_all(&mut out, n.as_slice());
            assert(out@ =~= base@ + seq!['/'] + names@[i as int]@);
            return Some(string_of(out.as_slice()));
        }
        i += 1;
    }
    assert(nv.skip(names@.len() as int) =~= Seq::<Seq<char>>::empty());
    None
}

/// The banner the window shows while gvfs holds the watch at `path`.
pub open spec fn gvfs_banner_of(path: Seq<char>) -> Seq<char> {
    "GVFS holds device at "@ + path + " \u{2014} direct link blocked. Unmount in Files first."@
}

/// The banner text (see `gvfs_banner_of`).
pub fn gvfs_banner(path: &str) -> (r: String)
    ensures
        r@ == gvfs_banner_of(path@),
{
    let mut out = chars_of("GVFS holds device at ");
    let p = chars_of(path);
    push_all(&mut out, p.as_slice());
    let tail = chars_of(" \u{2014} direct link blocked. Unmount in Files first.");
    push_all(&mut out, tail.as_slice());
    string_of(out.as_slice())
}

} // verus!
