use pelican::garmin::{keep_garmin, music_folder, pick_device, Device, PickError, GARMIN_VENDOR_ID};

fn dev(vendor: u16, serial: Option<&str>, product: Option<&str>) -> Device {
    Device { vendor_id: vendor, product_id: 0x4b48, serial: serial.map(String::from), product: product.map(String::from) }
}

#[test]
fn labels() {
    assert_eq!(dev(GARMIN_VENDOR_ID, Some("123"), Some("Forerunner 165")).label(), "Forerunner 165 (123)");
    assert_eq!(dev(GARMIN_VENDOR_ID, None, None).label(), "Garmin device");
    assert_eq!(music_folder(), "Music");
}

#[test]
fn only_garmin_devices_kept() {
    let kept = keep_garmin(vec![dev(0x1234, Some("x"), None), dev(GARMIN_VENDOR_ID, Some("y"), None)]);
    assert_eq!(kept.len(), 1);
    assert_eq!(kept[0].serial.as_deref(), Some("y"));
}

#[test]
fn picking() {
    assert!(matches!(pick_device(vec![], None), Err(PickError::NoDevice)));
    let one = pick_device(vec![dev(GARMIN_VENDOR_ID, Some("a"), None)], None).unwrap();
    assert_eq!(one.serial.as_deref(), Some("a"));
    let two = vec![dev(GARMIN_VENDOR_ID, Some("a"), None), dev(GARMIN_VENDOR_ID, Some("b"), Some("Fenix"))];
    let picked = pick_device(two.clone(), Some("b")).unwrap();
    assert_eq!(picked.product.as_deref(), Some("Fenix"));
    match pick_device(two.clone(), Some("zz")) {
        Err(e @ PickError::UnknownSerial(_)) => assert_eq!(e.message(), "no Garmin device with serial zz"),
        other => panic!("{other:?}"),
    }
    match pick_device(two, None) {
        Err(e @ PickError::Ambiguous(_)) => assert_eq!(
            e.message(),
            "multiple Garmin devices found. Pick one with --serial:\n  - Garmin device (a)\n  - Fenix (b)\n"
        ),
        other => panic!("{other:?}"),
    }
    assert!(PickError::NoDevice.message().starts_with("no Garmin device found on USB (vendor 0x091e)."));
}
