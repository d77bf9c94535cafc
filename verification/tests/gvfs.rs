use pelican::gvfs::{find_garmin_mount, gvfs_banner, gvfs_base, hex4_chars, is_garmin_mount};

#[test]
fn vendor_hex() {
    let s: String = hex4_chars(0x091E).into_iter().collect();
    assert_eq!(s, "091E");
    let t: String = hex4_chars(0xABCD).into_iter().collect();
    assert_eq!(t, "ABCD");
}

#[test]
fn gvfs_paths_and_names() {
    assert_eq!(gvfs_base(1000), "/run/user/1000/gvfs");
    assert!(is_garmin_mount("mtp:host=091E_4B48_0000c0ffee"));
    assert!(is_garmin_mount("mtp:host=usb%3A091e"));
    assert!(!is_garmin_mount("mtp:host=04e8_6860"));
    assert!(!is_garmin_mount("smb-share:091E"));
}

#[test]
fn first_garmin_mount_wins() {
    let names = vec!["smb-share:server".to_string(), "mtp:host=091E_A".to_string(), "mtp:host=091e_B".to_string()];
    assert_eq!(find_garmin_mount("/run/user/1/gvfs", &names), Some("/run/user/1/gvfs/mtp:host=091E_A".to_string()));
    assert_eq!(find_garmin_mount("/b", &vec![]), None);
    assert_eq!(gvfs_banner("/x"), "GVFS holds device at /x \u{2014} direct link blocked. Unmount in Files first.");
}
