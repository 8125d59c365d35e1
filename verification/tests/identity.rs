use controwly::capability::{
    gamepad_usage, has_mouse_capability, has_touchpad_capability, has_typing_keyboard_capability,
    input_id, is_event_device, read_attr, read_bitmap, read_kv_file, ABS_MT_POSITION_X,
    ABS_MT_POSITION_Y, BTN_GAMEPAD, BTN_JOYSTICK, BTN_LEFT, BTN_TOOL_FINGER, REL_X, REL_Y,
};
use controwly::fingerprint::{
    compare_properties, fingerprint_for, parse_fingerprint, safe_driver, stable_function_name,
    stable_interface_name, stable_selection_key, validate_identity, FunctionBus, FunctionIdentity,
    Identity,
};
use controwly::identity::{
    decode_component, digest128, encode_component, from_hex, hex_digit, is_hid_name,
    is_usb_device_name, is_usb_interface_name, sanitize_display, valid_driver_token,
    valid_function_name, valid_stable_id, valid_token, MAX_FINGERPRINT,
};
use controwly::ordered::Ordered;

fn properties(pairs: &[(&str, &str)]) -> Ordered<String> {
    let mut properties = Ordered::new();
    for (key, value) in pairs {
        properties.insert(key.to_string(), value.to_string());
    }
    properties
}

const PAD: &str = "0003:054C:0CE6.0001";

fn pad_properties() -> Ordered<String> {
    properties(&[
        ("id", "0003:0000054C:00000CE6"),
        ("phys", "usb-0000:00:14.0-1/input3"),
        ("uniq", "aa:bb"),
        ("name", "Pad"),
    ])
}

fn pad_function() -> FunctionIdentity {
    FunctionIdentity {
        bus: FunctionBus::Hid,
        id: PAD.to_owned(),
        driver: Some("hid-playstation".to_owned()),
        expected_driver: None,
        properties: pad_properties(),
    }
}

fn pad_fingerprint(mixed: bool, usage: u16) -> String {
    fingerprint_for(
        Some(&pad_function()),
        "Pad",
        "usb-0000:00:14.0-1/input3",
        "aa:bb",
        "0003:0000054C:00000CE6",
        "usb",
        mixed,
        1,
        usage,
    )
}

fn identity_with(fingerprint: String) -> Identity {
    let key = stable_selection_key("hid", PAD, &pad_properties(), 1, 5);
    Identity {
        platform: "linux".to_owned(),
        stable_id: format!("linux-controller-{}", digest128(&key)),
        instance_id: format!("linux-function-{}", digest128(&format!("hid:{PAD}"))),
        fingerprint,
    }
}

#[test]
fn kernel_names_are_recognised() {
    assert!(is_hid_name(PAD));
    assert!(is_hid_name("0005.045e.02fd:a"));
    assert!(!is_hid_name("0003:054C:0CE6"));
    assert!(!is_hid_name("0003:054C:0CE6."));
    assert!(!is_hid_name("003:054C:0CE6.0001"));
    assert!(!is_hid_name("0003:054G:0CE6.0001"));
    assert!(is_usb_device_name("1-2.4"));
    assert!(is_usb_device_name("1-2-3"));
    assert!(!is_usb_device_name("1"));
    assert!(!is_usb_device_name("1-2."));
    assert!(!is_usb_device_name("usb1-2"));
    assert!(is_usb_interface_name("1-2:1.0"));
    assert!(!is_usb_interface_name("1-2:1"));
    assert!(!is_usb_interface_name("1-2"));
    assert!(valid_function_name("hid", PAD));
    assert!(!valid_function_name("usb", PAD));
    assert!(!valid_function_name("pci", PAD));
}

#[test]
fn tokens_are_bounded() {
    assert!(valid_driver_token("hid-generic"));
    assert!(valid_driver_token(&"d".repeat(64)));
    assert!(!valid_driver_token(&"d".repeat(65)));
    assert!(!valid_driver_token(""));
    assert!(!valid_driver_token("../x"));
    let digits = "0123456789abcdefABCDEF0123456789";
    assert!(valid_stable_id(&format!("linux-controller-{digits}")));
    assert!(!valid_stable_id(&format!("linux-function-{digits}")));
    assert!(valid_token(&format!("linux-function-{digits}"), "linux-function-"));
    assert!(!valid_token(&format!("linux-function-{digits}0"), "linux-function-"));
    assert!(!valid_stable_id("linux-controller-0123456789abcdefABCDEF012345678g"));
}

#[test]
fn components_are_escaped_and_read_back() {
    assert_eq!(encode_component("a.b_c-d e/ß"), "a.b_c-d%20e%2f%c3%9f");
    assert_eq!(decode_component("a.b_c-d%20e%2F%c3%9f"), Some("a.b_c-d e/ß".to_owned()));
    for bad in ["%", "%4", "%4g", "a b", "ß", "%c3"] {
        assert_eq!(decode_component(bad), None);
    }
    for text in ["", "plain", "=;%\t\n", "😀 \u{0}"] {
        assert_eq!(decode_component(&encode_component(text)), Some(text.to_owned()));
    }
    assert_eq!(hex_digit(11), 'b');
    assert_eq!(hex_digit(16), 'g');
    assert_eq!(hex_digit(158), '\u{f5}');
    assert_eq!(from_hex(b'F'), Some(15));
    assert_eq!(from_hex(b'g'), None);
}

#[test]
fn digests_have_their_known_values() {
    assert_eq!(digest128(""), "cbf29ce484222325084222325cbf29ce");
    assert_eq!(digest128("a"), "af63dc4c8601ec8cc4f4c99457048542");
    assert_eq!(
        digest128("hid:0003:045E:028E.0001"),
        "8a8d7f00a3ef43fbf40556177c470997"
    );
    assert!(valid_token(&format!("x-{}", digest128("any text")), "x-"));
}

#[test]
fn shown_names_are_cleaned() {
    assert_eq!(sanitize_display("Pad\n\u{7f} 1"), "Pad 1");
    assert_eq!(sanitize_display("\n\t"), "Linux controller");
    assert_eq!(sanitize_display(&"é".repeat(200)), "é".repeat(160));
}

#[test]
fn selection_keys_survive_a_new_instance_number() {
    assert_eq!(stable_function_name("hid", PAD), "0003:054C:0CE6");
    assert_eq!(stable_function_name("usb", "1-2:1.0"), "1-2:1.0");
    assert_eq!(
        stable_selection_key("hid", PAD, &pad_properties(), 1, 5),
        "bus=hid;transport=0003%3a0000054C%3a00000CE6;serial=aa%3abb;phys=usb-0000%3a00%3a14.0-1%2finput3;interface=0003%3a054C%3a0CE6;usage=1:5"
    );
    assert_eq!(
        stable_selection_key("hid", "0003:054C:0CE6.000F", &pad_properties(), 1, 5),
        stable_selection_key("hid", PAD, &pad_properties(), 1, 5)
    );
}

#[test]
fn a_usb_serial_stands_in_place_of_the_port() {
    let with_serial = properties(&[
        ("id", "45e/28e/114"),
        ("interface", "1-2:1.0"),
        ("phys", "1-2"),
        ("serial", "XYZ"),
    ]);
    assert_eq!(
        stable_selection_key("usb", "1-2:1.0", &with_serial, 1, 5),
        "bus=usb;transport=45e%2f28e%2f114;serial=XYZ;phys=;interface=1.0;usage=1:5"
    );
    assert_eq!(stable_interface_name("usb", "1-2:1.0", &with_serial), "1.0");
    let without = properties(&[("id", "45e/28e/114"), ("interface", "1-2:1.0"), ("phys", "1-2")]);
    assert_eq!(
        stable_selection_key("usb", "1-2:1.0", &without, 1, 5),
        "bus=usb;transport=45e%2f28e%2f114;serial=;phys=1-2;interface=1.0;usage=1:5"
    );
}

#[test]
fn fingerprints_are_rendered_and_read_back() {
    let text = pad_fingerprint(false, 5);
    assert_eq!(
        text,
        "v=2;bus=hid;function=0003%3a054C%3a0CE6.0001;driver=hid-playstation;name=Pad;phys=usb-0000%3a00%3a14.0-1%2finput3;uniq=aa%3abb;id=0003%3a0000054C%3a00000CE6;connection=usb;mixed=0;usage_page=1;usage=5"
    );
    let fields = parse_fingerprint(&text).expect("a fingerprint");
    assert_eq!(fields.text("function"), PAD);
    assert_eq!(fields.text("uniq"), "aa:bb");
    assert_eq!(fields.find("usage"), Some("5"));
    assert!(parse_fingerprint("v=1;bus=hid").is_none());
    assert!(parse_fingerprint("bus=hid").is_none());
    assert!(parse_fingerprint("v=2;bus").is_none());
    assert!(parse_fingerprint("v=2;=x").is_none());
    assert!(parse_fingerprint("v=2;bus=a;bus=a").is_none());
    assert!(parse_fingerprint("v=2;bus=%zz").is_none());
    assert!(parse_fingerprint("v=2;ü=x").is_none());
    let room = MAX_FINGERPRINT - "v=2;x=".len();
    assert!(parse_fingerprint(&format!("v=2;x={}", "y".repeat(room))).is_some());
    assert!(parse_fingerprint(&format!("v=2;x={}", "y".repeat(room + 1))).is_none());
}

#[test]
fn identities_are_checked_part_by_part() {
    assert_eq!(validate_identity(&identity_with(pad_fingerprint(false, 5))), Ok(()));
    let refusal = |identity: &Identity| validate_identity(identity).expect_err("refused");
    let mut other = identity_with(pad_fingerprint(false, 5));
    other.platform = "windows".to_owned();
    assert_eq!(refusal(&other), "identity platform is not linux");
    let mut other = identity_with(pad_fingerprint(false, 5));
    other.instance_id = "linux-function-1".to_owned();
    assert_eq!(refusal(&other), "identity token is malformed");
    assert_eq!(
        refusal(&identity_with("nothing".to_owned())),
        "identity fingerprint is malformed"
    );
    assert_eq!(
        refusal(&identity_with(pad_fingerprint(false, 5).replace("bus=hid", "bus=pci"))),
        "identity function token is malformed"
    );
    assert_eq!(
        refusal(&identity_with(pad_fingerprint(true, 5))),
        "controller function has an unrelated keyboard/mouse sibling"
    );
    assert_eq!(
        refusal(&identity_with(pad_fingerprint(false, 5).replace("hid-playstation", "evil"))),
        "controller function driver is not approved"
    );
    assert_eq!(
        refusal(&identity_with(
            pad_fingerprint(false, 5).replace("id=0003%3a0000054C%3a00000CE6", "id=")
        )),
        "controller transport identity is missing"
    );
    assert_eq!(
        refusal(&identity_with(pad_fingerprint(false, 6))),
        "controller HID usage evidence is missing or not a gamepad/joystick"
    );
    assert_eq!(
        refusal(&identity_with(pad_fingerprint(false, 4))),
        "identity digest does not match its immutable function fingerprint"
    );
}

#[test]
fn usb_identities_need_their_evidence() {
    let base = "v=2;bus=usb;function=1-2%3a1.0;driver=xpad;mixed=0;id=45e;usage_page=1;usage=5";
    let evidence = "phys=1-2;interface=1-2%3a1.0;subsystem=usb;devtype=usb_interface;type=255";
    let refusal = |fingerprint: String| {
        validate_identity(&identity_with(fingerprint)).expect_err("refused")
    };
    assert_eq!(refusal(base.to_owned()), "USB identity is missing phys evidence");
    assert_eq!(
        refusal(format!("{base};{evidence}")),
        "USB identity is missing busnum evidence"
    );
    assert_eq!(
        refusal(format!("{base};{evidence};busnum=1;devnum=4")),
        "USB identity lacks interface class/protocol evidence"
    );
    assert_eq!(
        refusal(format!("{base};{evidence};busnum=1;devnum=4;interface_descriptor=x")),
        "identity digest does not match its immutable function fingerprint"
    );
}

#[test]
fn changed_properties_are_noticed() {
    let expected = pad_properties();
    assert_eq!(compare_properties(FunctionBus::Hid, &expected, &pad_properties()), Ok(()));
    let missing = properties(&[("id", "0003:0000054C:00000CE6"), ("uniq", "aa:bb")]);
    assert_eq!(
        compare_properties(FunctionBus::Hid, &expected, &missing),
        Err("function phys identity is missing".to_owned())
    );
    let mut changed = pad_properties();
    changed.insert("uniq".to_owned(), "cc:dd".to_owned());
    assert_eq!(
        compare_properties(FunctionBus::Hid, &expected, &changed),
        Err("function uniq identity changed".to_owned())
    );
    assert_eq!(compare_properties(FunctionBus::Hid, &missing, &expected), Ok(()));
}

#[test]
fn only_listed_drivers_are_approved() {
    for driver in [
        "hid-generic", "hid-playstation", "sony", "xpad", "xpadneo", "hid-nintendo", "hid-steam",
        "usbhid",
    ] {
        assert!(safe_driver(driver));
    }
    assert!(!safe_driver("XPAD"));
    assert!(!safe_driver(""));
}

#[test]
fn attribute_files_are_read() {
    assert_eq!(read_attr("value \r\n\n"), "value ");
    let pairs = read_kv_file(Some("A=1\nnothing\nB=x=y\nA=2\n"));
    assert_eq!(pairs.text("A"), "2");
    assert_eq!(pairs.text("B"), "x=y");
    assert_eq!(pairs.find("nothing"), None);
    assert_eq!(read_kv_file(None).find("A"), None);
    assert_eq!(input_id(Some("0003"), Some("054c"), None, Some("0111")), "0003:054c::0111");
}

#[test]
fn broken_bitmaps_are_reported() {
    let mut errors = Vec::new();
    assert_eq!(read_bitmap(Some("8000000000000000 1"), "key", &mut errors), [0, 127]);
    assert!(read_bitmap(None, "key", &mut errors).is_empty());
    assert!(errors.is_empty());
    read_bitmap(Some("xyz"), "dev/capabilities/key", &mut errors);
    assert_eq!(errors.len(), 1);
    assert!(errors[0].contains("dev/capabilities/key"), "{errors:?}");
}

#[test]
fn capabilities_tell_kinds_of_input() {
    assert_eq!(gamepad_usage(&[BTN_GAMEPAD], &[0, 1]), Some((1, 5)));
    assert_eq!(gamepad_usage(&[BTN_JOYSTICK], &[0, 1]), Some((1, 4)));
    assert_eq!(gamepad_usage(&[BTN_LEFT], &[0, 1]), None);
    assert!(has_mouse_capability(&[BTN_LEFT], &[], &[REL_X, REL_Y]));
    assert!(has_mouse_capability(&[BTN_LEFT], &[], &[]));
    let touch = [BTN_LEFT, BTN_TOOL_FINGER];
    let surface = [ABS_MT_POSITION_X, ABS_MT_POSITION_Y];
    assert!(has_touchpad_capability(&touch, &surface));
    assert!(!has_touchpad_capability(&touch, &[]));
    assert!(!has_mouse_capability(&touch, &surface, &[]));
    assert!(has_typing_keyboard_capability(&[30]));
    assert!(!has_typing_keyboard_capability(&[BTN_GAMEPAD]));
    assert!(is_event_device(&[1]));
    assert!(is_event_device(&[3]));
    assert!(!is_event_device(&[2]));
}
