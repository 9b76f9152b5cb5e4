use diminuendo::device::{DeviceIdentity, default_allow_list, match_devices, matches_allow_list};
use diminuendo::error::{AppError, bl_err};
use diminuendo::hexfmt::format_frame_hex;

#[test]
fn allow_list_hits_and_misses() {
    let allow = default_allow_list();
    assert!(matches_allow_list(
        DeviceIdentity { vendor_id: 0x944, product_id: 0x111 },
        &allow
    ));
    assert!(matches_allow_list(
        DeviceIdentity { vendor_id: 0x499, product_id: 0x1039 },
        &allow
    ));
    assert!(!matches_allow_list(
        DeviceIdentity { vendor_id: 0x944, product_id: 0x112 },
        &allow
    ));
    assert!(!matches_allow_list(
        DeviceIdentity { vendor_id: 0x1, product_id: 0x111 },
        &allow
    ));
}

#[test]
fn empty_allow_list_matches_nothing() {
    let allow: Vec<DeviceIdentity> = Vec::new();
    assert!(!matches_allow_list(
        DeviceIdentity { vendor_id: 0x944, product_id: 0x111 },
        &allow
    ));
}

#[test]
fn scan_subset_in_order_skipping_unreadable() {
    let allow = default_allow_list();
    let scan = vec![
        Some(DeviceIdentity { vendor_id: 0x499, product_id: 0x1039 }),
        None,
        Some(DeviceIdentity { vendor_id: 0x1234, product_id: 0x5678 }),
        Some(DeviceIdentity { vendor_id: 0x944, product_id: 0x111 }),
    ];
    assert_eq!(match_devices(&scan, &allow), vec![0usize, 3]);
}

#[test]
fn business_error_carries_message() {
    let e = bl_err("no matching device");
    assert!(matches!(e, AppError::BL { .. }));
    assert_eq!(e.message(), "no matching device");
}

#[test]
fn transport_error_carries_text() {
    let e = AppError::Libusb { msg: String::from("endpoint stalled") };
    assert_eq!(e.message(), "endpoint stalled");
}

#[test]
fn bytes_rendered_as_uppercase_hex_list() {
    assert_eq!(format_frame_hex(&vec![0x3C]), "0x3C");
    assert_eq!(format_frame_hex(&vec![0x00, 0xFF, 0x0A]), "0x00, 0xFF, 0x0A");
    let empty: Vec<u8> = Vec::new();
    assert_eq!(format_frame_hex(&empty), "");
}
