use controwly::capability::{
    gamepad_usage, has_typing_keyboard_capability, read_bitmap, BTN_GAMEPAD, BTN_LEFT,
};

#[test]
fn native_bitmap_preserves_controller_and_keyboard_mouse_bits() {
    let mut errors = Vec::new();
    let bits = read_bitmap(
        Some("1000000010000 0 0 0 40000000\n"),
        "capabilities/key",
        &mut errors,
    );
    assert!(errors.is_empty(), "{errors:?}");
    assert_eq!(bits, [0x1e, BTN_LEFT, BTN_GAMEPAD]);
    assert_eq!(gamepad_usage(&bits, &[0]), Some((1, 5)));
    assert!(has_typing_keyboard_capability(&bits));
}
