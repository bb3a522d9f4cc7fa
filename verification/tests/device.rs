use orbweaver::device::{find_orbweaver, is_orbweaver_keyboard, DeviceInfo, PRODUCT, VENDOR};

fn keypad() -> DeviceInfo {
    DeviceInfo { vendor: 0x1532, product: 0x0207, has_leds: true }
}

#[test]
fn keypad_is_known_by_vendor_product_and_leds() {
    assert_eq!(VENDOR, 0x1532);
    assert_eq!(PRODUCT, 0x0207);
    assert!(is_orbweaver_keyboard(&keypad()));
    assert!(!is_orbweaver_keyboard(&DeviceInfo { has_leds: false, ..keypad() }));
    assert!(!is_orbweaver_keyboard(&DeviceInfo { vendor: 0x1533, ..keypad() }));
    assert!(!is_orbweaver_keyboard(&DeviceInfo { product: 0x0208, ..keypad() }));
    assert!(!is_orbweaver_keyboard(&DeviceInfo { vendor: 0x0207, product: 0x1532, has_leds: true }));
    assert!(!is_orbweaver_keyboard(&DeviceInfo { vendor: 0, product: 0, has_leds: false }));
}

#[test]
fn first_keypad_among_the_devices_is_found() {
    let mouse = DeviceInfo { vendor: 0x046d, product: 0xc077, has_leds: false };
    let keyboard = DeviceInfo { vendor: 0x046d, product: 0xc31c, has_leds: true };
    let keypad_mouse_part = DeviceInfo { has_leds: false, ..keypad() };
    assert_eq!(find_orbweaver(&vec![mouse, keypad_mouse_part, keyboard, keypad(), keypad()]), Some(3));
    assert_eq!(find_orbweaver(&vec![keypad()]), Some(0));
    assert_eq!(find_orbweaver(&vec![keypad(), mouse]), Some(0));
}

#[test]
fn no_keypad_is_found_where_there_is_none() {
    let mouse = DeviceInfo { vendor: 0x046d, product: 0xc077, has_leds: false };
    let keypad_mouse_part = DeviceInfo { has_leds: false, ..keypad() };
    assert_eq!(find_orbweaver(&Vec::new()), None);
    assert_eq!(find_orbweaver(&vec![mouse, keypad_mouse_part]), None);
}
