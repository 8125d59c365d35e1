use controwly::hid_descriptor::{controller_usage, parse_usage, parse_usage_page};

const GAMEPAD_APP: &[u8] = &[0x05, 0x01, 0x09, 0x05, 0xa1, 0x01, 0x81, 0x02, 0xc0];

#[test]
fn accepts_generic_desktop_gamepad_application() {
    assert_eq!(controller_usage(GAMEPAD_APP), Ok((0x01, 0x05)));

    let joystick = [0x05, 0x01, 0x09, 0x04, 0xa1, 0x01, 0x81, 0x02, 0xc0];
    assert_eq!(controller_usage(&joystick), Ok((0x01, 0x04)));
}

#[test]
fn accepts_extended_application_usage() {
    let descriptor = [
        0x0b, 0x05, 0x00, 0x01, 0x00, // Usage 0x0001:0005
        0xa1, 0x01, 0x81, 0x02, 0xc0,
    ];
    assert_eq!(controller_usage(&descriptor), Ok((0x01, 0x05)));
}

#[test]
fn resolves_short_usage_pages_at_main_items_but_preserves_extended_pages() {
    let short_page_transition = [
        0x05, 0x01, 0x09, 0x05, 0xa1, 0x01, 0x06, 0x00, 0xff, 0x09, 0x06, 0x05, 0x07, 0x81,
        0x02, 0xc0,
    ];
    assert!(controller_usage(&short_page_transition).is_err());

    let extended_page_override = [
        0x05, 0x01, 0x09, 0x05, 0xa1, 0x01, 0x06, 0x00, 0xff, 0x0b, 0x06, 0x00, 0xff, 0x00,
        0x05, 0x07, 0x81, 0x02, 0xc0,
    ];
    assert_eq!(controller_usage(&extended_page_override), Ok((0x01, 0x05)));
}

#[test]
fn application_identity_uses_first_local_usage() {
    let vendor_first = [
        0x0b, 0x01, 0x00, 0xff, 0x00, 0x0b, 0x05, 0x00, 0x01, 0x00, 0xa1, 0x01, 0x81, 0x02,
        0xc0,
    ];
    assert!(controller_usage(&vendor_first).is_err());
}

#[test]
fn push_and_pop_restore_usage_page() {
    let descriptor = [
        0x05, 0x01, // Generic Desktop
        0xa4, // Push
        0x05, 0x07, 0x09, 0x06, 0x81, 0x01, // constant keyboard-page input
        0xb4, // Pop
        0x09, 0x05, 0xa1, 0x01, 0x81, 0x02, 0xc0,
    ];
    assert_eq!(controller_usage(&descriptor), Ok((0x01, 0x05)));
}

#[test]
fn accepts_defined_main_widths_and_nonzero_report_ids() {
    let descriptor = [
        0x05, 0x01, 0x09, 0x05, 0xa1, 0x01, 0x80, 0x82, 0x02, 0x00, 0x83, 0x02, 0x00, 0x00,
        0x00, 0x82, 0x02, 0x01, // Buffered Bytes flag in a wide Input item
        0x90, 0x92, 0x80, 0x00, // Output permits the Volatile bit at bit 7
        0x92, 0x00, 0x00, 0x93, 0x00, 0x00, 0x00, 0x00, 0xb0, 0xb2, 0x00, 0x00, 0xb3, 0x00,
        0x00, 0x00, 0x00, 0x85, 0x01, 0x86, 0x02, 0x00, 0x87, 0x03, 0x00, 0x00, 0x00, 0xc0,
    ];
    assert_eq!(controller_usage(&descriptor), Ok((0x01, 0x05)));

    let zero_report_id = [0x05, 0x01, 0x09, 0x05, 0xa1, 0x01, 0x85, 0x00, 0xc0];
    assert!(controller_usage(&zero_report_id).is_err());

    let reserved_input_flag = [0x05, 0x01, 0x09, 0x05, 0xa1, 0x01, 0x81, 0x82, 0xc0];
    assert!(controller_usage(&reserved_input_flag).is_err());

    let wide_application = [0x05, 0x01, 0x09, 0x05, 0xa2, 0x01, 0x00, 0x81, 0x02, 0xc0];
    assert_eq!(controller_usage(&wide_application), Ok((0x01, 0x05)));

    let zero_width_physical = [
        0x05, 0x01, 0x09, 0x05, 0xa1, 0x01, 0xa0, 0x81, 0x02, 0xc0, 0xc0,
    ];
    assert_eq!(controller_usage(&zero_width_physical), Ok((0x01, 0x05)));

    let four_byte_application = [
        0x05, 0x01, 0x09, 0x05, 0xa3, 0x01, 0x00, 0x00, 0x00, 0x81, 0x02, 0xc0,
    ];
    assert_eq!(controller_usage(&four_byte_application), Ok((0x01, 0x05)));
}

#[test]
fn controller_usage_outside_application_is_not_evidence() {
    let descriptor = [0x05, 0x01, 0x09, 0x04, 0x81, 0x02];
    assert!(controller_usage(&descriptor).is_err());
}

#[test]
fn rejects_keyboard_application_and_keyboard_page_input() {
    let keyboard_application = [0x05, 0x01, 0x09, 0x06, 0xa1, 0x01, 0x81, 0x02, 0xc0];
    assert!(controller_usage(&keyboard_application).is_err());

    let mixed = [
        0x05, 0x01, 0x09, 0x05, 0xa1, 0x01, 0x81, 0x02, 0x05, 0x07, 0x19, 0x00, 0x29, 0x65,
        0x81, 0x02, 0xc0,
    ];
    assert!(controller_usage(&mixed).is_err());
}

#[test]
fn constant_keyboard_page_input_does_not_veto_controller() {
    let descriptor = [
        0x05, 0x01, 0x09, 0x05, 0xa1, 0x01, 0x05, 0x07, 0x09, 0x06, 0x81, 0x01, 0xc0,
    ];
    assert_eq!(controller_usage(&descriptor), Ok((0x01, 0x05)));
}

#[test]
fn rejects_mouse_or_pointer_application_even_with_gamepad() {
    let mixed_mouse = [
        0x05, 0x01, 0x09, 0x05, 0xa1, 0x01, 0x81, 0x02, 0xc0, 0x05, 0x01, 0x09, 0x02, 0xa1,
        0x01, 0x81, 0x06, 0xc0,
    ];
    assert!(controller_usage(&mixed_mouse).is_err());

    let mixed_pointer = [
        0x05, 0x01, 0x09, 0x05, 0xa1, 0x01, 0x81, 0x02, 0xc0, 0x05, 0x01, 0x09, 0x01, 0xa1,
        0x01, 0x81, 0x06, 0xc0,
    ];
    assert!(controller_usage(&mixed_pointer).is_err());
}

#[test]
fn preserves_relative_and_absolute_axes_in_gamepad_application() {
    let relative = [
        0x05, 0x01, 0x09, 0x05, 0xa1, 0x01, 0x09, 0x30, 0x81, 0x06, 0xc0,
    ];
    assert_eq!(controller_usage(&relative), Ok((0x01, 0x05)));

    let absolute = [
        0x05, 0x01, 0x09, 0x05, 0xa1, 0x01, 0x09, 0x30, 0x81, 0x02, 0xc0,
    ];
    assert_eq!(controller_usage(&absolute), Ok((0x01, 0x05)));
}

#[test]
fn preserves_vendor_and_absolute_touchpad_collections() {
    let descriptor = [
        0x05, 0x01, 0x09, 0x05, 0xa1, 0x01, 0x06, 0x00, 0xff, 0x09, 0x01, 0xa1, 0x02, 0x15,
        0x00, 0x26, 0xff, 0x00, 0x75, 0x10, 0x95, 0x02, 0x81, 0x02, 0xc0, 0x05, 0x01, 0x09,
        0x01, 0xa1, 0x00, 0x06, 0x0d, 0x00, 0x09, 0x22, 0x81, 0x02, 0xc0, 0xc0,
    ];
    assert_eq!(controller_usage(&descriptor), Ok((0x01, 0x05)));
}

#[test]
fn rejects_ambiguous_ranges_and_incomplete_structure() {
    let ambiguous_application = [
        0x05, 0x01, 0x19, 0x04, 0x29, 0x05, 0xa1, 0x01, 0x81, 0x02, 0xc0,
    ];
    assert!(controller_usage(&ambiguous_application).is_err());

    let incomplete_range = [0x05, 0x07, 0x19, 0x00, 0x05, 0x01, 0x09, 0x05, 0xa1, 0x01];
    assert!(controller_usage(&incomplete_range).is_err());

    let unbalanced = [0x05, 0x01, 0x09, 0x05, 0xa1, 0x01, 0x81, 0x02];
    assert!(controller_usage(&unbalanced).is_err());
}

#[test]
fn rejects_truncated_long_and_delimited_items() {
    assert!(controller_usage(&[0x05]).is_err());
    assert!(controller_usage(&[0xfe, 0x01, 0x00, 0x00]).is_err());
    assert!(controller_usage(&[0xa9, 0x01]).is_err());
    assert!(controller_usage(&[0xb4]).is_err());
}

#[test]
fn empty_and_oversized_descriptors_are_refused() {
    assert_eq!(
        controller_usage(&[]),
        Err("HID report descriptor is unavailable or oversized".to_owned())
    );
    let oversized = vec![0u8; 131073];
    assert_eq!(
        controller_usage(&oversized),
        Err("HID report descriptor is unavailable or oversized".to_owned())
    );
}

#[test]
fn a_veto_is_final() {
    // A gamepad that follows a keyboard application does not take the veto back.
    let descriptor = [
        0x05, 0x01, 0x09, 0x06, 0xa1, 0x01, 0x81, 0x02, 0xc0, 0x09, 0x05, 0xa1, 0x01, 0x81, 0x02,
        0xc0,
    ];
    assert!(controller_usage(&descriptor).is_err());
}

#[test]
fn usages_have_one_two_or_four_bytes() {
    let short = parse_usage(&[0x05], 1).expect("one byte");
    assert_eq!((short.page, short.id, short.extended), (1, 5, false));
    let word = parse_usage(&[0x34, 0x12], 9).expect("two bytes");
    assert_eq!((word.page, word.id, word.extended), (9, 0x1234, false));
    let extended = parse_usage(&[0x05, 0x00, 0x01, 0x00], 9).expect("four bytes");
    assert_eq!((extended.page, extended.id, extended.extended), (1, 5, true));
    for length in [0usize, 3, 5, 6, 64] {
        assert!(parse_usage(&vec![1u8; length], 1).is_err());
        assert!(parse_usage_page(&vec![1u8; length]).is_err());
    }
}

#[test]
fn popping_restores_the_page_however_much_stands_between() {
    let descriptor = [
        0x05, 0x01, // Generic Desktop
        0xa4, // Push
        0x05, 0x07, 0xa4, 0x05, 0x09, 0x05, 0x0c, 0xb4, 0x05, 0x0d, 0x75, 0x08, 0xb4, // Pop
        0x09, 0x05, 0xa1, 0x01, 0x81, 0x02, 0xc0,
    ];
    assert_eq!(controller_usage(&descriptor), Ok((0x01, 0x05)));
}
