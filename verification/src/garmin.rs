//! Garmin devices as seen on USB, and the choice of which one to talk to.

use vstd::prelude::*;

use crate::text::{chars_eq, chars_of, push_all, string_of};
use vstd::string::StringExecFns;

verus! {

broadcast use vstd::string::group_string_axioms;

/// USB vendor id of Garmin.
pub const GARMIN_VENDOR_ID: u16 = 0x091E;

/// Top-level folder on the watch where playable music lives.
pub open spec fn music_folder_name() -> Seq<char> {
    seq!['M', 'u', 's', 'i', 'c']
}

/// `"Music"`.
pub fn music_folder() -> (r: String)
    ensures
        r@ == music_folder_name(),
{
    let cs = ['M', 'u', 's', 'i', 'c'];
    assert(cs@ =~= music_folder_name());
    string_of(&cs)
}

/// A USB device, as enumeration reports it.
#[derive(Debug, Clone)]
pub struct Device {
    pub vendor_id: u16,
    pub product_id: u16,
    pub serial: Option<String>,
    pub product: Option<String>,
}

pub struct DeviceView {
    pub vendor_id: u16,
    pub product_id: u16,
    pub serial: Option<Seq<char>>,
    pub product: Option<Seq<char>>,
}

pub open spec fn string_opt_view(o: Option<String>) -> Option<Seq<char>> {
    match o {
        Some(s) => Some(s@),
        None => None,
    }
}

impl View for Device {
    type V = DeviceView;

    open spec fn view(&self) -> DeviceView {
        DeviceView {
            vendor_id: self.vendor_id,
            product_id: self.product_id,
            serial: string_opt_view(self.serial),
            product: string_opt_view(self.product),
        }
    }
}

pub open spec fn devices_view(d: Seq<Device>) -> Seq<DeviceView> {
    d.map_values(|x: Device| x@)
}

pub open spec fn garmin_device_word() -> Seq<char> {
    seq!['G', 'a', 'r', 'm', 'i', 'n', ' ', 'd', 'e', 'v', 'i', 'c', 'e']
}

/// `"<product> (<serial>)"`, `"<product>"` without a serial, and
/// `Garmin device` in place of a missing product name.
pub open spec fn device_label(d: DeviceView) -> Seq<char> {
    let name = match d.product {
        Some(p) => p,
        None => garmin_device_word(),
    };
    match d.serial {
        Some(s) => name + seq![' ', '('] + s + seq![')'],
        None => name,
    }
}

fn garmin_device_chars() -> (r: Vec<char>)
    ensures
        r@ == garmin_device_word(),
{
    let cs = ['G', 'a', 'r', 'm', 'i', 'n', ' ', 'd', 'e', 'v', 'i', 'c', 'e'];
    assert(cs@ =~= garmin_device_word());
    vstd::slice::slice_to_vec(&cs)
}

impl Device {
    /// Human-readable name: product name and, when known, the serial.
    pub fn label(&self) -> (r: String)
        ensures
            r@ == device_label(self@),
    {
        let mut out = match &self.product {
            Some(p) => chars_of(p.as_str()),
            None => garmin_device_chars(),
        };
        match &self.serial {
            Some(s) => {
                let ghost name = out@;
                out.push(' ');
                out.push('(');
                let sc = chars_of(s.as_str());
                push_all(&mut out, sc.as_slice());
                out.push(')');
                assert(out@ =~= name + seq![' ', '('] + s@ + seq![')']);
            },
            None => {},
        }
        string_of(out.as_slice())
    }
}

/// The Garmin devices of an enumeration, in order.
pub open spec fn garmin_only(d: Seq<DeviceView>) -> Seq<DeviceView>
    decreases d.len(),
{
    if d.len() == 0 {
        d
    } else if d.last().vendor_id == GARMIN_VENDOR_ID {
        garmin_only(d.drop_last()).push(d.last())
    } else {
        garmin_only(d.drop_last())
    }
}

/// The device is a Garmin one.
pub open spec fn is_garmin(d: DeviceView) -> bool {
    d.vendor_id == GARMIN_VENDOR_ID
}

proof fn lemma_garmin_only_is_filter(d: Seq<DeviceView>)
    ensures
        garmin_only(d) == d.filter(|x: DeviceView| is_garmin(x)),
    decreases d.len(),
{
    reveal(Seq::filter);
    if d.len() > 0 {
        lemma_garmin_only_is_filter(d.drop_last());
    }
}

/// Keeping the Garmin devices drops exactly the others: the result is the
/// enumeration filtered by Garmin's vendor id, in the same order, so every
/// attached Garmin device is in it, and nothing else is.
pub proof fn lemma_garmin_only_keeps_every_garmin(d: Seq<DeviceView>)
    ensures
        garmin_only(d) == d.filter(|x: DeviceView| x.vendor_id == GARMIN_VENDOR_ID),
        forall|i: int|
            0 <= i < d.len() && (#[trigger] d[i]).vendor_id == GARMIN_VENDOR_ID ==> garmin_only(
                d,
            ).contains(d[i]),
        forall|j: int|
            0 <= j < garmin_only(d).len() ==> (#[trigger] garmin_only(d)[j]).vendor_id
                == GARMIN_VENDOR_ID,
        garmin_only(d).len() <= d.len(),
{
    let pred = |x: DeviceView| is_garmin(x);
    lemma_garmin_only_is_filter(d);
    assert(pred =~= (|x: DeviceView| x.vendor_id == GARMIN_VENDOR_ID));
    #[allow(deprecated)]
    d.filter_lemma(pred);
    assert forall|i: int| 0 <= i < d.len() && (#[trigger] d[i]).vendor_id == GARMIN_VENDOR_ID
        implies garmin_only(d).contains(d[i]) by {
        assert(pred(d[i]));
    }
    assert forall|j: int| 0 <= j < garmin_only(d).len() implies (#[trigger] garmin_only(
        d,
    )[j]).vendor_id == GARMIN_VENDOR_ID by {
        assert(pred(d.filter(pred)[j]));
    }
}

fn copy_opt_string(o: &Option<String>) -> (r: Option<String>)
    ensures
        string_opt_view(r) == string_opt_view(*o),
{
    match o {
        Some(s) => Some(s.clone()),
        None => None,
    }
}

/// A copy of `d` with the same view.
fn copy_device(d: &Device) -> (r: Device)
    ensures
        r@ == d@,
{
    Device {
        vendor_id: d.vendor_id,
        product_id: d.product_id,
        serial: copy_opt_string(&d.serial),
        product: copy_opt_string(&d.product),
    }
}

/// Keeps the devices whose vendor id is Garmin's.
pub fn keep_garmin(devices: Vec<Device>) -> (r: Vec<Device>)
    ensures
        devices_view(r@) == garmin_only(devices_view(devices@)),
{
    let ghost all = devices_view(devices@);
    let mut out: Vec<Device> = Vec::new();
    let mut i: usize = 0;
    while i < devices.len()
        invariant
            all == devices_view(devices@),
            i <= devices@.len(),
            devices_view(out@) == garmin_only(all.take(i as int)),
        decreases devices@.len() - i,
    {
        let d = copy_device(&devices[i]);
        assert(all.take(i + 1).drop_last() =~= all.take(i as int));
        if d.vendor_id == GARMIN_VENDOR_ID {
            let ghost before = devices_view(out@);
            out.push(d);
            assert(devices_view(out@) =~= before.push(d@));
        }
        i += 1;
    }
    assert(all.take(devices@.len() as int) =~= all);
    out
}

/// Why no device could be picked.
#[derive(Debug, Clone)]
pub enum PickError {
    /// No Garmin device is attached.
    NoDevice,
    /// None of the attached devices has the serial that was asked for.
    UnknownSerial(String),
    /// Several devices are attached and none was named.
    Ambiguous(Vec<Device>),
}

/// Index of the first device whose serial is `want`.
pub open spec fn first_with_serial(d: Seq<DeviceView>, want: Seq<char>) -> Option<int>
    decreases d.len(),
{
    if d.len() == 0 {
        None
    } else {
        match first_with_serial(d.drop_last(), want) {
            Some(i) => Some(i),
            None => if d.last().serial == Some(want) {
                Some(d.len() - 1)
            } else {
                None
            },
        }
    }
}

/// The choice among the attached Garmin devices: an error when there is
/// none; the first one with the serial asked for, if one was; the only
/// device when there is exactly one; otherwise ambiguity.
pub enum Pick {
    NoDevice,
    UnknownSerial,
    Ambiguous,
    At(int),
}

pub open spec fn pick_spec(d: Seq<DeviceView>, serial: Option<Seq<char>>) -> Pick {
    if d.len() == 0 {
        Pick::NoDevice
    } else {
        match serial {
            Some(want) => match first_with_serial(d, want) {
                Some(i) => Pick::At(i),
                None => Pick::UnknownSerial,
            },
            None => if d.len() == 1 {
                Pick::At(0)
            } else {
                Pick::Ambiguous
            },
        }
    }
}

pub open spec fn str_opt_view(o: Option<&str>) -> Option<Seq<char>> {
    match o {
        Some(s) => Some(s@),
        None => None,
    }
}

proof fn lemma_first_with_serial(d: Seq<DeviceView>, want: Seq<char>, k: int)
    requires
        0 <= k <= d.len(),
        forall|j: int| 0 <= j < k ==> d[j].serial != Some(want),
    ensures
        first_with_serial(d.take(k), want) == None::<int>,
    decreases k,
{
    if k > 0 {
        assert(d.take(k).drop_last() =~= d.take(k - 1));
        lemma_first_with_serial(d, want, k - 1);
    }
}

proof fn lemma_first_with_serial_found(d: Seq<DeviceView>, want: Seq<char>, k: int)
    requires
        0 <= k < d.len(),
        forall|j: int| 0 <= j < k ==> d[j].serial != Some(want),
        d[k].serial == Some(want),
    ensures
        first_with_serial(d, want) == Some(k),
    decreases d.len(),
{
    if d.len() - 1 == k {
        lemma_first_with_serial(d, want, k);
        assert(d.take(k) =~= d.drop_last());
    } else {
        lemma_first_with_serial_found(d.drop_last(), want, k);
    }
}

/// Choose the device to talk to among the attached Garmin devices.
pub fn pick_device(devices: Vec<Device>, serial: Option<&str>) -> (r: Result<Device, PickError>)
    ensures
        match pick_spec(devices_view(devices@), str_opt_view(serial)) {
            Pick::NoDevice => r matches Err(PickError::NoDevice),
            Pick::UnknownSerial => r matches Err(PickError::UnknownSerial(s)) && s@ == serial.unwrap()@,
            Pick::Ambiguous => r matches Err(PickError::Ambiguous(all)) && devices_view(all@) == devices_view(devices@),
            Pick::At(i) => r matches Ok(d) && d@ == devices_view(devices@)[i],
        },
{
    let ghost dv = devices_view(devices@);
    if devices.len() == 0 {
        return Err(PickError::NoDevice);
    }
    match serial {
        Some(want) => {
            let want_chars = chars_of(want);
            let mut i: usize = 0;
            while i < devices.len()
                invariant
                    dv == devices_view(devices@),
                    serial == Some(want),
                    want_chars@ == want@,
                    i <= devices@.len(),
                    forall|j: int| 0 <= j < i ==> dv[j].serial != Some(want@),
                decreases devices@.len() - i,
            {
                let hit = match &devices[i].serial {
                    Some(s) => {
                        let sc = chars_of(s.as_str());
                        chars_eq(sc.as_slice(), want_chars.as_slice())
                    },
                    None => false,
                };
                assert(dv[i as int] == devices@[i as int]@);
                if hit {
                    assert(dv[i as int].serial == Some(want@));
                    proof {
                        lemma_first_with_serial_found(dv, want@, i as int);
                    }
                    return Ok(copy_device(&devices[i]));
                }
                i += 1;
            }
            proof {
                lemma_first_with_serial(dv, want@, dv.len() as int);
                assert(dv.take(dv.len() as int) =~= dv);
            }
            Err(PickError::UnknownSerial(want.to_string()))
        },
        None => {
            if devices.len() == 1 {
                Ok(copy_device(&devices[0]))
            } else {
                Err(PickError::Ambiguous(devices))
            }
        },
    }
}

} // verus!

verus! {

/// Text of the concatenated list lines `"  - <label>\n"` for `d`.
pub open spec fn device_lines(d: Seq<DeviceView>) -> Seq<char>
    decreases d.len(),
{
    if d.len() == 0 {
        Seq::empty()
    } else {
        device_lines(d.drop_last()) + "  - "@ + device_label(d.last()) + "\n"@
    }
}

/// What the user is told when no device could be picked.
pub open spec fn pick_error_message(e: PickError) -> Seq<char> {
    match e {
        PickError::NoDevice => "no Garmin device found on USB (vendor 0x091e). Plug in your watch, unlock it, and check that USB mode is set to MTP."@,
        PickError::UnknownSerial(s) => "no Garmin device with serial "@ + s@,
        PickError::Ambiguous(all) => "multiple Garmin devices found. Pick one with --serial:\n"@
            + device_lines(devices_view(all@)),
    }
}

impl PickError {
    /// The message shown to the user.
    pub fn message(&self) -> (r: String)
        ensures
            r@ == pick_error_message(*self),
    {
        match self {
            PickError::NoDevice => "no Garmin device found on USB (vendor 0x091e). Plug in your watch, unlock it, and check that USB mode is set to MTP.".to_string(),
            PickError::UnknownSerial(s) => {
                let mut m = "no Garmin device with serial ".to_string();
                m.append(s.as_str());
                m
            },
            PickError::Ambiguous(all) => {
                let ghost dv = devices_view(all@);
                let mut m = "multiple Garmin devices found. Pick one with --serial:\n".to_string();
                let ghost head = m@;
                let mut i: usize = 0;
                while i < all.len()
                    invariant
                        dv == devices_view(all@),
                        i <= all@.len(),
                        m@ == head + device_lines(dv.take(i as int)),
                    decreases all@.len() - i,
                {
                    assert(dv.take(i + 1).drop_last() =~= dv.take(i as int));
                    assert(dv[i as int] == all@[i as int]@);
                    m.append("  - ");
                    let label = all[i].label();
                    m.append(label.as_str());
                    m.append("\n");
                    i += 1;
                }
                assert(dv.take(all@.len() as int) =~= dv);
                m
            },
        }
    }
}

} // verus!
