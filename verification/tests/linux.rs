use controwly::discovery::{
    controller_from_unbound, discover, discover_nothing, order_events, parse_event_name, DeviceReading, Discovery,
    EventReading,
};
use controwly::fingerprint::{
    parse_fingerprint, validate_identity, FunctionBus, FunctionIdentity, Identity,
};
use controwly::function::{
    admit_authorization, authorization_settled, authorize_usb_interface, bind, canonical_function_path,
    check_driver_path, find_function, find_unbound_function, function_is_definitively_gone,
    function_properties, gone_probe_paths, hid_descriptor_controller_usage, map_io_error,
    owning_function, unbind, unbound_target, validate_directory, validate_regular_file, verify_hid_descriptor_identity,
    write_binding, AuthorizationEvidence, BindingStep, FileMetadata, FunctionError,
    FunctionReading, InputReading, Operation, PathEvidence, Presence, UnboundReading,
};
use controwly::helper::{
    exit_message, gate_directory, gate_file, helper_mode, removal_gate_active, GateReading,
    HelperExit, HelperMode, Request, MAX_ARGUMENT,
};
use controwly::input::{connection_from, function_key, identity_matches, Controller};
use controwly::journal::{
    journal_add_locked, journal_read_locked, journal_remove_locked, journal_write,
    MAX_JOURNAL_BYTES,
};
use controwly::linux::{
    control_problem, coverage_for, mutation_warning, native_identity, platform_device, wait_for_bound,
    wait_for_unbound, LinuxPlatform, PROBLEM_HELPER_MISSING, PROBLEM_PARTIAL_FUNCTION,
};
use controwly::linux_helper::{
    admit_id, admit_recovery, bounded_output, helper_action, helper_not_started, helper_path, helper_result, invoke_helper,
    launcher_failure, no_settings_program, recover_unbound, resolve_verified,
    resolve_verified_for_recovery, settings_program, trusted_pkexec, trusted_root_executable,
    trusted_user_executable, watch_launcher, ExecutableReading, HelperOutput, LaunchOutcome,
    RecoveryLookup, Watch, LAUNCH_LOOKS,
};
use controwly::linux_switch::{Stage, SwitchEvent, SwitchNext};
use controwly::ordered::Ordered;
use controwly::platform::{
    ControlCoverage, ControllerProtocol, DeviceId, MutationReport, PlatformError, VerifiedDevice,
};
use controwly::removal::{
    clear_removal_gate, ensure_removal_gate, finish_install, prepare_removal, ClearEvent,
    ClearNext, EnsureEvent, EnsureNext,
};
use controwly::recovery::{
    current_controller, disable, enable, recover_record, restore_journal, verify_usb_authorized,
    AuthorizationReading, CurrentController, DisableEvent, DisableNext, EnableEvent, EnableNext,
    Observation, RecoveryEvent, RecoveryNext, RestoreNext,
};

const PAD: &str = "0003:054C:0CE6.0001";

const PAD_UEVENT: &str = "HID_ID=0003:0000054C:00000CE6\nHID_NAME=Pad\nHID_PHYS=usb-1/input3\nHID_UNIQ=aa:bb\n";

const XBOX: &str = "1-2:1.0";

const XBOX_UEVENT: &str =
    "DEVTYPE=usb_interface\nPRODUCT=45e/28e/114\nTYPE=255/255/255\nINTERFACE=255/93/1\n";

/// A file with a gamepad button, and one with the letter A.
const PAD_KEYS: &str = "1000000000000 0 0 0 0";
const LETTER_KEYS: &str = "40000000";

fn text(value: &str) -> Option<String> {
    Some(value.to_owned())
}

fn pad_reading() -> FunctionReading {
    FunctionReading {
        function_name: PAD.to_owned(),
        uevent: text(PAD_UEVENT),
        parent_name: "1-1:1.3".to_owned(),
        parent_uevent: None,
        parent_serial: None,
        interface_class: None,
        interface_subclass: None,
        interface_protocol: None,
    }
}

fn xbox_reading() -> FunctionReading {
    FunctionReading {
        function_name: XBOX.to_owned(),
        uevent: text(XBOX_UEVENT),
        parent_name: "1-2".to_owned(),
        parent_uevent: text("BUSNUM=001\nDEVNUM=004\nSERIAL=ignored\n"),
        parent_serial: text("XYZ"),
        interface_class: text("ff"),
        interface_subclass: text("5d"),
        interface_protocol: text("01"),
    }
}

fn pad_function(driver: Option<&str>) -> FunctionIdentity {
    FunctionIdentity {
        bus: FunctionBus::Hid,
        id: PAD.to_owned(),
        driver: driver.map(|name| name.to_owned()),
        expected_driver: None,
        properties: function_properties(&pad_reading(), &Ordered::new()),
    }
}

fn xbox_function() -> FunctionIdentity {
    FunctionIdentity {
        bus: FunctionBus::Usb,
        id: XBOX.to_owned(),
        driver: text("xpad"),
        expected_driver: None,
        properties: function_properties(&xbox_reading(), &Ordered::new()),
    }
}

fn event(number: u32, function: Option<FunctionIdentity>, keys: &str) -> EventReading {
    EventReading {
        event_name: format!("event{number}"),
        device: Ok(DeviceReading {
            path: format!("/sys/class/input/event{number}/device"),
            name: text("Pad"),
            keys: text(keys),
            abs: text("3"),
            rel: text("0"),
            ev: text("b"),
            phys: text("usb-1/input3"),
            uniq: text("aa:bb"),
            function,
            descriptor_usage: Some((1, 5)),
        }),
    }
}

fn discovery(functions: Vec<FunctionIdentity>) -> Discovery {
    let mut readings = Vec::new();
    for (at, function) in functions.into_iter().enumerate() {
        readings.push(event(at as u32, Some(function), PAD_KEYS));
    }
    discover(&readings)
}

fn pad() -> Controller {
    let mut found = discovery(vec![pad_function(Some("hid-playstation"))]);
    assert_eq!(found.controllers.len(), 1, "{:?}", found.errors);
    found.controllers.remove(0)
}

fn xbox() -> Controller {
    let mut found = discovery(vec![xbox_function()]);
    assert_eq!(found.controllers.len(), 1, "{:?}", found.errors);
    found.controllers.remove(0)
}

fn pad_path() -> PathEvidence {
    let canonical = format!("/sys/devices/usb1/1-1/{PAD}");
    PathEvidence {
        canonical: Ok(canonical.clone()),
        devices_root: Ok("/sys/devices".to_owned()),
        bus_alias: Ok(canonical),
        is_dir: Ok(true),
        subsystem: Ok("/sys/bus/hid".to_owned()),
        subsystem_root: Ok("/sys/bus/hid".to_owned()),
        uevent: text(PAD_UEVENT),
    }
}

fn xbox_path() -> PathEvidence {
    let canonical = format!("/sys/devices/usb1/1-2/{XBOX}");
    PathEvidence {
        canonical: Ok(canonical.clone()),
        devices_root: Ok("/sys/devices".to_owned()),
        bus_alias: Ok(canonical),
        is_dir: Ok(true),
        subsystem: Ok("/sys/bus/usb".to_owned()),
        subsystem_root: Ok("/sys/bus/usb".to_owned()),
        uevent: text(XBOX_UEVENT),
    }
}

fn pad_unbound(driver: Option<&str>) -> UnboundReading {
    UnboundReading {
        presence: Presence::Present(true),
        path: pad_path(),
        function: pad_reading(),
        driver: driver.map(|name| name.to_owned()),
    }
}

fn unread() -> AuthorizationReading {
    AuthorizationReading {
        canonical: Err("unread".to_owned()),
        devices_root: Err("unread".to_owned()),
        authorized: Err("unread".to_owned()),
    }
}

fn observed(functions: Vec<FunctionIdentity>) -> Observation {
    Observation {
        discovery: discovery(functions),
        usage: Ok((1, 5)),
        authorization: unread(),
    }
}

fn bound_pad() -> Observation {
    observed(vec![pad_function(Some("hid-playstation"))])
}

fn verified(controller: &Controller, coverage: ControlCoverage) -> VerifiedDevice {
    platform_device(controller, coverage, true, true).verified.expect("a verified device")
}

fn root_file(mode: u32) -> FileMetadata {
    FileMetadata { is_dir: false, is_file: true, uid: 0, mode }
}

fn root_directory(mode: u32) -> FileMetadata {
    FileMetadata { is_dir: true, is_file: false, uid: 0, mode }
}

fn refusal<T>(result: Result<T, FunctionError>) -> String {
    match result {
        Ok(_) => panic!("the function was accepted"),
        Err(error) => error.message,
    }
}

fn recovery_end(next: RecoveryNext) -> String {
    match next {
        RecoveryNext::Done(Err(message)) => message,
        other => panic!("{other:?}"),
    }
}

// Discovery.

#[test]
fn events_are_taken_by_number() {
    assert_eq!(parse_event_name("event12"), Some(12));
    assert_eq!(parse_event_name("mouse0"), None);
    assert_eq!(parse_event_name("event"), None);
    let names = ["event10", "js0", "event2", "event9"].map(|name| name.to_owned());
    let ordered: Vec<String> = order_events(&names).into_iter().map(|e| e.name).collect();
    assert_eq!(ordered, ["event2", "event9", "event10"]);
}

#[test]
fn a_discovered_controller_has_an_accepted_identity() {
    for controller in [pad(), xbox()] {
        assert_eq!(validate_identity(&controller.identity), Ok(()));
        assert!(controller.can_full_control);
        assert_eq!(controller.connection, "usb");
        assert_eq!(controller.problem_code, None);
        assert!(identity_matches(&controller, &controller.identity));
    }
    assert!(!identity_matches(&pad(), &xbox().identity));
    assert_eq!(function_key(&pad_function(None)), format!("hid:{PAD}"));
}

#[test]
fn unrelated_input_is_not_a_controller() {
    let function = || Some(pad_function(Some("hid-playstation")));
    let readings = [event(0, function(), PAD_KEYS), event(1, function(), LETTER_KEYS)];
    let found = discover(&readings);
    assert!(found.controllers.is_empty());
    assert!(found.errors.is_empty());
    let mut silent = event(0, function(), PAD_KEYS);
    if let Ok(device) = &mut silent.device {
        device.ev = text("1");
    }
    assert!(discover(&[silent]).controllers.is_empty());
}

#[test]
fn one_function_is_one_controller() {
    let function = || Some(pad_function(Some("hid-playstation")));
    let found = discover(&[event(0, function(), PAD_KEYS), event(1, function(), "0")]);
    assert_eq!(found.controllers.len(), 1);
    let both = discovery(vec![xbox_function(), pad_function(Some("hid-playstation"))]);
    let ids: Vec<&str> =
        both.controllers.iter().map(|c| c.identity.stable_id.as_str()).collect();
    let mut sorted = ids.clone();
    sorted.sort();
    assert_eq!(ids, sorted);
    assert_eq!(ids.len(), 2);
}

#[test]
fn controllers_that_cannot_be_switched_say_why() {
    let found = discovery(vec![pad_function(Some("evil"))]);
    assert_eq!(found.controllers[0].problem_code, Some(7103));
    assert!(!found.controllers[0].can_full_control);
    assert_eq!(
        control_problem(&found.controllers[0]),
        "kernel driver \"evil\" is not in the trusted controller allow-list"
    );
    let found = discover(&[event(0, None, PAD_KEYS)]);
    assert_eq!(found.controllers[0].problem_code, Some(7101));
    assert_eq!(
        control_problem(&found.controllers[0]),
        "no stable HID or USB controller function was found"
    );
    let mut odd = pad();
    odd.function = Some(pad_function(Some("e\"v\n")));
    assert_eq!(
        control_problem(&odd),
        "kernel driver \"e\\\"v\\n\" is not in the trusted controller allow-list"
    );
    odd.function = Some(pad_function(None));
    assert_eq!(control_problem(&odd), "controller function has no bound kernel driver");
    odd.mixed_unrelated = true;
    assert_eq!(
        control_problem(&odd),
        "the input function also exposes an unrelated keyboard/mouse capability"
    );
}

#[test]
fn unreadable_devices_are_reported() {
    let lost = EventReading { event_name: "event3".to_owned(), device: Err("gone".to_owned()) };
    let mut broken = event(4, Some(pad_function(Some("hid-playstation"))), "xyz");
    if let Ok(device) = &mut broken.device {
        device.descriptor_usage = None;
    }
    let found = discover(&[lost, broken]);
    assert_eq!(
        found.errors,
        [
            "event3: cannot resolve input device: gone",
            "/sys/class/input/event4/device/capabilities/key: malformed capability bitmap",
        ]
    );
    assert!(found.controllers.is_empty());
}

#[test]
fn connections_are_told_from_evidence() {
    let mut properties: Ordered<String> = Ordered::new();
    assert_eq!(connection_from(&properties, None), "other");
    properties.insert("phys".to_owned(), "USB-1".to_owned());
    assert_eq!(connection_from(&properties, None), "usb");
    properties.insert("name".to_owned(), "BlueTooth pad".to_owned());
    assert_eq!(connection_from(&properties, None), "bluetooth");
    assert_eq!(connection_from(&Ordered::new(), Some(&xbox_function())), "usb");
}

// Functions.

#[test]
fn the_nearest_function_is_found() {
    let names = [None, text("input7"), text(PAD), text(XBOX)];
    assert_eq!(find_function(&names), Some((2, FunctionBus::Hid)));
    assert_eq!(find_function(&names[3..]), Some((0, FunctionBus::Usb)));
    assert_eq!(find_function(&names[..2]), None);
}

#[test]
fn a_function_stands_at_its_fixed_place() {
    let place = canonical_function_path(FunctionBus::Hid, PAD, &pad_path());
    assert_eq!(place, Ok(format!("/sys/devices/usb1/1-1/{PAD}")));
    let refused = |evidence: PathEvidence| {
        canonical_function_path(FunctionBus::Hid, PAD, &evidence).expect_err("refused")
    };
    let fixed = "function path is not the canonical fixed-bus sysfs function";
    let mut moved = pad_path();
    moved.bus_alias = Ok("/sys/devices/other".to_owned());
    assert_eq!(refused(moved), fixed);
    let mut outside = pad_path();
    outside.devices_root = Ok("/sys/dev".to_owned());
    assert_eq!(refused(outside), fixed);
    let mut top = pad_path();
    top.devices_root = Ok("/".to_owned());
    assert!(canonical_function_path(FunctionBus::Hid, PAD, &top).is_ok());
    let mut padded = pad_path();
    padded.devices_root = Ok("/sys//devices/./".to_owned());
    padded.bus_alias = Ok(format!("/sys/devices/usb1//1-1/./{PAD}/"));
    assert!(canonical_function_path(FunctionBus::Hid, PAD, &padded).is_ok());
    let mut beside = pad_path();
    beside.devices_root = Ok("/sys/devices/usb".to_owned());
    assert_eq!(refused(beside), fixed);
    let mut relative = pad_path();
    relative.devices_root = Ok("sys/devices".to_owned());
    assert_eq!(refused(relative), fixed);
    let mut unresolved = pad_path();
    unresolved.canonical = Err("gone".to_owned());
    assert_eq!(refused(unresolved), "cannot resolve Hid function: gone");
    let mut file = pad_path();
    file.is_dir = Ok(false);
    assert_eq!(refused(file), "validated function is not a directory");
    let mut foreign = pad_path();
    foreign.subsystem = Ok("/sys/bus/usb".to_owned());
    assert_eq!(refused(foreign), "function subsystem is not the expected HID/USB bus");
    let mut bare = pad_path();
    bare.uevent = None;
    assert_eq!(refused(bare), "HID function lacks authoritative HID_ID evidence");
    assert_eq!(
        canonical_function_path(FunctionBus::Hid, XBOX, &pad_path()),
        Err("malformed kernel function name".to_owned())
    );
    let mut partial = xbox_path();
    partial.uevent = text("DEVTYPE=usb_device\nPRODUCT=1\nTYPE=2\n");
    assert_eq!(
        canonical_function_path(FunctionBus::Usb, XBOX, &partial),
        Err("USB function lacks authoritative interface/type evidence".to_owned())
    );
}

#[test]
fn properties_come_from_the_kernel() {
    let properties = function_properties(&xbox_reading(), &Ordered::new());
    assert_eq!(properties.text("id"), "45e/28e/114");
    assert_eq!(properties.text("phys"), "1-2");
    assert_eq!(properties.text("serial"), "XYZ");
    assert_eq!(properties.text("busnum"), "001");
    assert_eq!(properties.text("interface_descriptor"), "255/93/1");
    assert_eq!(properties.find("uniq"), Some(""));
    let properties = function_properties(&pad_reading(), &Ordered::new());
    assert_eq!(properties.text("id"), "0003:0000054C:00000CE6");
    assert_eq!(properties.text("hid_phys"), "usb-1/input3");
}

#[test]
fn an_unbound_function_is_still_identified() {
    let identity = pad().identity;
    assert_eq!(unbound_target(&identity), Ok((FunctionBus::Hid, PAD.to_owned())));
    let function = find_unbound_function(&identity, &pad_unbound(None)).expect("the function");
    assert_eq!(function.driver, None);
    assert_eq!(function.expected_driver.as_deref(), Some("hid-playstation"));
    let refused = |reading: UnboundReading| {
        find_unbound_function(&identity, &reading).expect_err("refused")
    };
    let mut missing = pad_unbound(None);
    missing.presence = Presence::Missing("ENOENT".to_owned());
    assert_eq!(refused(missing), "function is not present: ENOENT");
    let mut unreadable = pad_unbound(None);
    unreadable.presence = Presence::Unreadable("EIO".to_owned());
    assert_eq!(refused(unreadable), "cannot inspect function identity: EIO");
    let mut file = pad_unbound(None);
    file.presence = Presence::Present(false);
    assert_eq!(refused(file), "function identity is not a directory");
    let mut changed = pad_unbound(None);
    changed.function.uevent = text("HID_ID=0003:00000001:00000002\n");
    assert_eq!(refused(changed), "function id identity changed");

    let controller = controller_from_unbound(&identity, &pad_unbound(None)).expect("a controller");
    assert_eq!(controller.name, "Pad");
    assert!(controller.can_full_control);
    assert_eq!(
        controller_from_unbound(&identity, &pad_unbound(Some("hid-playstation"))).err(),
        text("controller function is still bound")
    );
}

#[test]
fn a_function_is_gone_when_nothing_is_left() {
    let identity = pad().identity;
    assert_eq!(
        gone_probe_paths(&identity),
        Some(vec![format!("/sys/bus/hid/devices/{PAD}")])
    );
    assert!(function_is_definitively_gone(&identity, &[true]));
    assert!(!function_is_definitively_gone(&identity, &[false]));
    assert!(!function_is_definitively_gone(&identity, &[]));
    let identity = xbox().identity;
    assert_eq!(
        gone_probe_paths(&identity),
        Some(vec!["/sys/bus/usb/devices/1-2:1.0".to_owned(), "/sys/bus/usb/devices/1-2".to_owned()])
    );
    assert!(!function_is_definitively_gone(&identity, &[true, false]));
    assert!(function_is_definitively_gone(&identity, &[true, true]));
}

#[test]
fn descriptors_confirm_the_usage_on_record() {
    let descriptor = vec![0x05, 0x01, 0x09, 0x05, 0xa1, 0x01, 0x81, 0x02, 0xc0];
    assert_eq!(
        hid_descriptor_controller_usage(PAD, &pad_path(), &Ok(descriptor)),
        Ok((1, 5))
    );
    assert_eq!(
        hid_descriptor_controller_usage(PAD, &pad_path(), &Err("short".to_owned())),
        Err("short".to_owned())
    );
    assert_eq!(
        hid_descriptor_controller_usage(XBOX, &pad_path(), &Ok(Vec::new())),
        Err("malformed HID function identity".to_owned())
    );
    let fields = parse_fingerprint(&pad().identity.fingerprint).expect("fields");
    assert_eq!(verify_hid_descriptor_identity(&fields, &Ok((1, 5))), Ok(()));
    assert_eq!(
        verify_hid_descriptor_identity(&fields, &Ok((1, 4))),
        Err("HID report usage changed since enumeration".to_owned())
    );
    assert_eq!(
        verify_hid_descriptor_identity(&Ordered::new(), &Ok((1, 5))),
        Err("missing HID usage-page evidence".to_owned())
    );
}

#[test]
fn binding_undoes_unbinding() {
    match unbind(&pad_function(Some("hid-playstation"))) {
        Ok(BindingStep::Write { driver, operation }) => {
            assert_eq!((driver.as_str(), operation), ("hid-playstation", Operation::Unbind));
        }
        other => panic!("{other:?}"),
    }
    let mut unbound = pad_function(None);
    unbound.expected_driver = text("hid-playstation");
    match bind(&unbound) {
        Ok(BindingStep::Write { driver, operation }) => {
            assert_eq!((driver.as_str(), operation), ("hid-playstation", Operation::Bind));
        }
        other => panic!("{other:?}"),
    }
    assert!(matches!(unbind(&xbox_function()), Ok(BindingStep::Authorize { enabled: false })));
    assert!(matches!(bind(&xbox_function()), Ok(BindingStep::Authorize { enabled: true })));
    assert_eq!(
        refusal(unbind(&pad_function(None))),
        "controller function has no bound kernel driver"
    );
    assert_eq!(
        refusal(bind(&pad_function(None))),
        "persisted controller function has no approved driver"
    );
    assert_eq!(
        refusal(unbind(&pad_function(Some("evil")))),
        "kernel driver \"evil\" is not approved for controller function control"
    );
}

#[test]
fn binding_files_stand_under_the_bus() {
    let paths = write_binding(FunctionBus::Hid, "sony", Operation::Bind, PAD).expect("paths");
    assert_eq!(paths.root, "/sys/bus/hid/drivers");
    assert_eq!(paths.driver, "/sys/bus/hid/drivers/sony");
    assert_eq!(paths.file, "/sys/bus/hid/drivers/sony/bind");
    let paths = write_binding(FunctionBus::Usb, "xpad", Operation::Unbind, XBOX).expect("paths");
    assert_eq!(paths.file, "/sys/bus/usb/drivers/xpad/unbind");
    assert_eq!(
        refusal(write_binding(FunctionBus::Hid, "../x", Operation::Bind, PAD)),
        "validated kernel function token rejected"
    );
    let root = Ok("/sys/bus/hid/drivers".to_owned());
    assert!(check_driver_path(&root, &Ok("/sys/bus/hid/drivers/sony".to_owned())).is_ok());
    assert_eq!(
        refusal(check_driver_path(&root, &Ok("/sys/bus/hid/driversx".to_owned()))),
        "kernel driver path escaped the fixed sysfs root"
    );
    assert_eq!(
        refusal(check_driver_path(&root, &Err("ENOENT".to_owned()))),
        "approved kernel driver is unavailable: ENOENT"
    );
    assert_eq!(map_io_error("EBUSY").message, "EBUSY");
}

#[test]
fn kernel_files_belong_to_root() {
    assert_eq!(validate_directory(&Ok(root_directory(0o755)), "/d"), Ok(()));
    assert_eq!(
        validate_directory(&Ok(root_directory(0o775)), "/d"),
        Err("/d is not a root-owned non-writable directory".to_owned())
    );
    assert_eq!(
        validate_directory(&Err("EIO".to_owned()), "/d"),
        Err("cannot inspect /d: EIO".to_owned())
    );
    assert_eq!(validate_regular_file(&Ok(root_file(0o644)), "/f"), Ok(()));
    assert_eq!(
        validate_regular_file(&Ok(FileMetadata { uid: 7, ..root_file(0o644) }), "/f"),
        Err("/f is not a root-owned non-writable regular file".to_owned())
    );
}

#[test]
fn usb_interfaces_are_authorized_with_evidence() {
    let evidence = || AuthorizationEvidence {
        path: xbox_path(),
        directory: Ok(root_directory(0o755)),
        pinned: Ok(format!("/sys/devices/usb1/1-2/{XBOX}")),
        function: xbox_reading(),
    };
    let plan = authorize_usb_interface(&xbox_function(), false, &evidence()).expect("a plan");
    assert_eq!((plan.value, plan.probe), ('0', false));
    let plan = authorize_usb_interface(&xbox_function(), true, &evidence()).expect("a plan");
    assert_eq!((plan.value, plan.probe), ('1', true));
    assert_eq!(
        refusal(authorize_usb_interface(&pad_function(Some("xpad")), true, &evidence())),
        "USB interface identity failed strict validation"
    );
    let mut other = xbox_function();
    other.driver = text("usbhid");
    assert_eq!(
        refusal(authorize_usb_interface(&other, true, &evidence())),
        "USB authorization is restricted to the approved xpad driver"
    );
    assert!(admit_authorization(&xbox_function()).is_ok());
    assert_eq!(
        refusal(admit_authorization(&pad_function(Some("xpad")))),
        "USB interface identity failed strict validation"
    );
    assert!(admit_authorization(&other).is_err());
    let mut moved = evidence();
    moved.pinned = Ok("/sys/devices/elsewhere".to_owned());
    assert_eq!(
        refusal(authorize_usb_interface(&xbox_function(), true, &moved)),
        "USB interface changed while being authorized"
    );
    let mut changed = evidence();
    changed.function.parent_serial = text("OTHER");
    assert_eq!(
        refusal(authorize_usb_interface(&xbox_function(), true, &changed)),
        "function serial identity changed"
    );
    assert!(authorization_settled("1\n", true).is_ok());
    assert_eq!(
        refusal(authorization_settled("1\n", false)),
        "USB interface authorization did not settle at 0"
    );
}

// The journal.

#[test]
fn the_journal_reads_what_it_wrote() {
    let records = [pad().identity, xbox().identity];
    let contents = journal_write(&records).expect("valid records");
    assert_eq!(contents.lines().count(), 2);
    assert_eq!(
        contents.lines().next(),
        Some(
            format!(
                "{}\t{}\t{}",
                records[0].stable_id, records[0].instance_id, records[0].fingerprint
            )
            .as_str()
        )
    );
    assert_eq!(journal_read_locked(&contents), Ok(records.to_vec()));
    assert_eq!(journal_read_locked(""), Ok(Vec::new()));
}

#[test]
fn records_are_added_once_and_removed() {
    let (first, second) = (pad().identity, xbox().identity);
    let one = journal_add_locked("", &first).expect("added").expect("a new text");
    assert_eq!(journal_add_locked(&one, &first), Ok(None));
    let two = journal_add_locked(&one, &second).expect("added").expect("a new text");
    assert_eq!(journal_read_locked(&two), Ok(vec![first.clone(), second.clone()]));
    assert_eq!(journal_remove_locked(&two, &second), Ok(Some(one.clone())));
    assert_eq!(journal_remove_locked(&one, &second), Ok(None));
    assert_eq!(journal_remove_locked(&one, &first), Ok(Some(String::new())));
}

#[test]
fn broken_journals_are_refused() {
    let record = pad().identity;
    let contents = journal_write(&[record.clone()]).expect("valid records");
    assert_eq!(
        journal_read_locked("a\tb\n"),
        Err("malformed Linux recovery journal row".to_owned())
    );
    assert_eq!(
        journal_read_locked(&format!("{contents}{contents}")),
        Err("duplicate Linux recovery journal identity".to_owned())
    );
    assert_eq!(
        journal_read_locked(&" ".repeat(MAX_JOURNAL_BYTES + 1)),
        Err("Linux recovery journal is oversized".to_owned())
    );
    assert_eq!(
        journal_read_locked("x\ty\tz\n"),
        Err("identity token is malformed".to_owned())
    );
    let mut invalid = record.clone();
    invalid.fingerprint = "x".to_owned();
    assert!(journal_write(&[invalid.clone()]).is_err());
    assert!(journal_add_locked("", &invalid).is_err());
    assert!(journal_remove_locked("", &invalid).is_err());
    let mut conflict = record.clone();
    conflict.fingerprint = format!("{};extra=1", record.fingerprint);
    assert_eq!(
        journal_add_locked(&contents, &conflict),
        Err("Linux recovery journal identity conflict".to_owned())
    );
}

// The helper.

fn arguments(list: &[&str]) -> Vec<String> {
    list.iter().map(|argument| argument.to_string()).collect()
}

fn mode_refusal(root: bool, args: Vec<String>, pkexec: bool) -> (i32, String) {
    match helper_mode(root, args, pkexec) {
        Err(HelperExit { code, message }) => (code, message),
        Ok(mode) => panic!("{mode:?}"),
    }
}

#[test]
fn requests_are_parsed_flag_by_flag() {
    let full = [
        "--enable", "--platform", "linux", "--stable-id", "s", "--instance-id", "i",
        "--fingerprint", "f",
    ];
    let request = Request::parse(arguments(&full)).expect("a request");
    assert_eq!(request.action, "enable");
    assert_eq!(request.fingerprint, "f");
    let refused = |list: &[&str]| Request::parse(arguments(list)).expect_err("refused");
    assert_eq!(refused(&full[1..]), "missing helper action");
    assert_eq!(refused(&["--enable"]), "missing platform");
    assert_eq!(refused(&full[..3]), "missing stable ID");
    assert_eq!(refused(&full[..5]), "missing instance ID");
    assert_eq!(refused(&full[..7]), "missing identity fingerprint");
    assert_eq!(refused(&full[..8]), "missing value for --fingerprint");
    assert_eq!(refused(&["--enable", "--disable"]), "duplicate helper action");
    assert_eq!(
        refused(&["--platform", "a", "--platform", "b"]),
        "duplicate argument --platform"
    );
    assert_eq!(refused(&["--verbose", "x"]), "unsupported helper argument --verbose");
    assert_eq!(refused(&["--platform", "a\n"]), "helper argument is malformed");
    assert_eq!(
        refused(&["--platform", &"x".repeat(MAX_ARGUMENT + 1)]),
        "helper argument is malformed"
    );
}

#[test]
fn helper_modes_need_root_and_the_right_caller() {
    assert_eq!(
        mode_refusal(false, Vec::new(), false),
        (4, "the Linux input helper must run as root through polkit".to_owned())
    );
    assert_eq!(
        mode_refusal(true, arguments(&["--prepare-removal"]), true),
        (
            4,
            "package maintenance helper modes must run from the package manager as direct root"
                .to_owned()
        )
    );
    assert!(matches!(
        helper_mode(true, arguments(&["--prepare-removal"]), false),
        Ok(HelperMode::PrepareRemoval)
    ));
    assert!(matches!(
        helper_mode(true, arguments(&["--clear-removal-gate"]), false),
        Ok(HelperMode::ClearRemovalGate)
    ));
    assert!(matches!(
        helper_mode(true, arguments(&["--restore-journal"]), false),
        Ok(HelperMode::RestoreJournal)
    ));
    assert_eq!(mode_refusal(true, Vec::new(), true), (2, "missing helper action".to_owned()));
    let rest = ["--instance-id", "i", "--fingerprint", "f", "--platform", "linux"];
    let mut list = vec!["--enable", "--stable-id", "short"];
    list.extend(rest);
    assert_eq!(
        mode_refusal(true, arguments(&list), true),
        (2, "malformed Linux controller stable ID".to_owned())
    );
    let mut list = vec!["--disable", "--stable-id", "short"];
    list.extend(rest);
    assert_eq!(
        mode_refusal(true, arguments(&list), true),
        (2, "identity token is malformed".to_owned())
    );
    assert_eq!(exit_message("a\u{7}b\nc"), "ab\nc");
    assert_eq!(exit_message(&"é".repeat(600)), "é".repeat(512));
}

#[test]
fn the_helper_understands_what_it_is_asked() {
    let identity = pad().identity;
    for (action, off) in [("disable", true), ("enable", false)] {
        let helper = Some("/usr/libexec/helper");
        let call = invoke_helper(action, &identity, helper, true).expect("a call");
        assert_eq!(call[0], "/usr/libexec/helper");
        match helper_mode(true, call[1..].to_vec(), true) {
            Ok(HelperMode::Disable(of)) => assert!(off && of == identity),
            Ok(HelperMode::Enable(of)) => assert!(!off && of == identity),
            other => panic!("{other:?}"),
        }
    }
    let denied = |error: PlatformError| matches!(error, PlatformError::PermissionDenied(_));
    assert!(denied(invoke_helper("enable", &identity, None, true).expect_err("no helper")));
    assert!(denied(
        invoke_helper("enable", &identity, Some("/h"), false).expect_err("no pkexec")
    ));
    assert!(matches!(
        invoke_helper("erase", &identity, Some("/h"), true),
        Err(PlatformError::OperationFailed(_))
    ));
}

#[test]
fn the_removal_marker_blocks_only_when_it_is_sound() {
    assert_eq!(removal_gate_active(&GateReading::Missing), Ok(false));
    assert_eq!(removal_gate_active(&GateReading::Opened(Ok(root_file(0o100600)))), Ok(true));
    assert!(removal_gate_active(&GateReading::Opened(Ok(root_file(0o644)))).is_err());
    assert!(removal_gate_active(&GateReading::Failed("EIO".to_owned())).is_err());
    assert_eq!(gate_file(&Ok(root_file(0o600))), Ok(()));
    assert!(gate_file(&Ok(root_directory(0o600))).is_err());
    assert_eq!(gate_directory(&Ok(root_directory(0o755))), Ok(()));
    assert!(gate_directory(&Ok(root_directory(0o757))).is_err());
}

#[test]
fn the_removal_marker_is_set_step_by_step() {
    let sound = || EnsureEvent::Opened(Ok(root_file(0o100600)));
    assert!(matches!(ensure_removal_gate(sound()), EnsureNext::SyncFile));
    assert!(matches!(ensure_removal_gate(EnsureEvent::Exists), EnsureNext::Open));
    assert!(matches!(
        ensure_removal_gate(EnsureEvent::FileSynced(Ok(()))),
        EnsureNext::SyncDirectory
    ));
    assert!(matches!(
        ensure_removal_gate(EnsureEvent::DirectorySynced(Ok(()))),
        EnsureNext::Done(Ok(()))
    ));
    let failed = |event: EnsureEvent| match ensure_removal_gate(event) {
        EnsureNext::Done(Err(error)) => error,
        other => panic!("{other:?}"),
    };
    let error = || "EIO".to_owned();
    assert_eq!(
        failed(EnsureEvent::NotCreated(error())),
        "cannot create Controwly removal gate: EIO"
    );
    assert_eq!(
        failed(EnsureEvent::NotOpened(error())),
        "cannot open Controwly removal gate: EIO"
    );
    assert_eq!(
        failed(EnsureEvent::FileSynced(Err(error()))),
        "cannot sync Controwly removal gate: EIO"
    );
    assert_eq!(failed(EnsureEvent::DirectorySynced(Err(error()))), "EIO");
    assert_eq!(
        failed(EnsureEvent::Opened(Ok(root_file(0o644)))),
        "Controwly removal gate is not a root-owned mode-0600 regular file"
    );
    assert!(prepare_removal(Ok(())).is_none());
    let exit = prepare_removal(Err(error())).unwrap();
    assert_eq!((exit.code, exit.message.as_str()), (5, "EIO"));
}

#[test]
fn the_removal_marker_is_set_again_where_its_removal_may_be_lost() {
    let done = |event: ClearEvent| match clear_removal_gate(event) {
        ClearNext::Done(result) => result,
        other => panic!("{other:?}"),
    };
    let error = || "EIO".to_owned();
    assert_eq!(done(ClearEvent::Missing), Ok(()));
    assert_eq!(
        done(ClearEvent::NotOpened(error())),
        Err("cannot open Controwly removal gate: EIO".to_owned())
    );
    assert!(matches!(
        clear_removal_gate(ClearEvent::Opened(Ok(root_file(0o100600)))),
        ClearNext::Remove
    ));
    assert!(done(ClearEvent::Opened(Ok(root_directory(0o600)))).is_err());
    assert!(matches!(clear_removal_gate(ClearEvent::Removed(Ok(()))), ClearNext::SyncDirectory));
    assert_eq!(
        done(ClearEvent::Removed(Err(error()))),
        Err("cannot clear Controwly removal gate: EIO".to_owned())
    );
    assert_eq!(done(ClearEvent::DirectorySynced(Ok(()))), Ok(()));
    let next = clear_removal_gate(ClearEvent::DirectorySynced(Err(error())));
    assert!(matches!(next, ClearNext::Ensure { error } if error == "EIO"));
    assert_eq!(
        done(ClearEvent::Ensured { error: error(), result: Ok(()) }),
        Err("Controwly removal gate clear is uncertain; disables remain blocked: EIO; gate restore: Ok(())".to_owned())
    );
    let lost: Result<(), String> = Err("no \"disk\"".to_owned());
    assert_eq!(
        done(ClearEvent::Ensured { error: error(), result: lost.clone() }),
        Err(format!(
            "Controwly removal gate clear is uncertain; disables remain blocked: EIO; gate restore: {lost:?}"
        ))
    );
    let exit = finish_install(Err(error()));
    assert_eq!((exit.code, exit.message.as_str()), (5, "EIO"));
    let exit = finish_install(Ok(()));
    assert_eq!((exit.code, exit.message.as_str()), (0, "ok"));
}

// Disabling and recovering.

#[test]
fn the_current_controller_has_the_whole_identity() {
    let found = discovery(vec![pad_function(Some("hid-playstation"))]);
    let identity = pad().identity;
    assert_eq!(current_controller(&found, &identity), CurrentController::Exact(0));
    let mut changed = identity.clone();
    changed.fingerprint.push('x');
    assert_eq!(current_controller(&found, &changed), CurrentController::StableMismatch);
    assert_eq!(current_controller(&found, &xbox().identity), CurrentController::Absent);
}

#[test]
fn a_usb_interface_is_bound_only_when_authorized() {
    let reading = |authorized: &str| AuthorizationReading {
        canonical: Ok(format!("/sys/devices/usb1/1-2/{XBOX}")),
        devices_root: Ok("/sys/devices".to_owned()),
        authorized: Ok(authorized.to_owned()),
    };
    assert_eq!(verify_usb_authorized(XBOX, &reading("1\n")), Ok(()));
    assert_eq!(
        verify_usb_authorized(XBOX, &reading("0\n")),
        Err("USB interface is not freshly authorized".to_owned())
    );
    assert_eq!(
        verify_usb_authorized("1-3:1.0", &reading("1\n")),
        Err("USB interface path escaped the fixed sysfs root".to_owned())
    );
    assert!(verify_usb_authorized(XBOX, &unread()).is_err());
}

#[test]
fn disabling_takes_the_function_from_its_driver() {
    let identity = pad().identity;
    let next = disable(&identity, DisableEvent::GateRead(Ok(false)));
    assert!(matches!(next, DisableNext::Observe));
    let next = disable(&identity, DisableEvent::Observed(bound_pad()));
    let function = match next {
        DisableNext::AddRecord { function } => function,
        other => panic!("{other:?}"),
    };
    assert_eq!(function.id, PAD);
    let next = disable(&identity, DisableEvent::RecordAdded { function, result: Ok(()) });
    let function = match next {
        DisableNext::ReadJournal { function } => function,
        other => panic!("{other:?}"),
    };
    let records = Ok(vec![identity.clone()]);
    let next = disable(&identity, DisableEvent::JournalRead { function, records });
    assert!(matches!(
        next,
        DisableNext::Unbind { step: BindingStep::Write { operation: Operation::Unbind, .. }, .. }
    ));
    let next = disable(&identity, DisableEvent::UnbindTried(Ok(())));
    let attempts_left = match next {
        DisableNext::Poll { attempts_left } => attempts_left,
        other => panic!("{other:?}"),
    };
    let reading = pad_unbound(Some("hid-playstation"));
    let next = disable(&identity, DisableEvent::Polled { attempts_left, reading });
    assert!(matches!(next, DisableNext::Poll { attempts_left: n } if n == attempts_left - 1));
    let reading = pad_unbound(None);
    let next = disable(&identity, DisableEvent::Polled { attempts_left: 1, reading });
    match next {
        DisableNext::Exit(exit) => assert_eq!((exit.code, exit.message.as_str()), (0, "ok")),
        other => panic!("{other:?}"),
    }
}

#[test]
fn disabling_stops_where_anything_is_doubtful() {
    let identity = pad().identity;
    let exit = |event: DisableEvent| match disable(&identity, event) {
        DisableNext::Exit(exit) => (exit.code, exit.message),
        other => panic!("{other:?}"),
    };
    let function = || pad_function(Some("hid-playstation"));
    assert_eq!(exit(DisableEvent::GateRead(Ok(true))).0, 5);
    assert_eq!(exit(DisableEvent::GateRead(Err("EIO".to_owned()))), (5, "EIO".to_owned()));
    assert_eq!(exit(DisableEvent::Observed(observed(Vec::new()))).0, 3);
    let mut changed = bound_pad();
    changed.usage = Ok((1, 4));
    assert_eq!(
        exit(DisableEvent::Observed(changed)),
        (3, "HID report usage changed since enumeration".to_owned())
    );
    assert_eq!(
        exit(DisableEvent::RecordAdded { function: function(), result: Err("full".to_owned()) }),
        (5, "cannot durably record controller recovery intent: full".to_owned())
    );
    assert_eq!(
        exit(DisableEvent::JournalRead { function: function(), records: Ok(Vec::new()) }),
        (
            5,
            "durable controller recovery intent was not confirmed; no kernel mutation performed"
                .to_owned()
        )
    );
    assert_eq!(
        exit(DisableEvent::UnbindTried(Err(map_io_error("EBUSY")))),
        (4, "controller unbind failed; recovery journal retained: EBUSY".to_owned())
    );
    let reading = pad_unbound(Some("hid-playstation"));
    assert_eq!(exit(DisableEvent::Polled { attempts_left: 1, reading }).0, 5);
}

#[test]
fn recovery_binds_an_unbound_function_and_looks_twice() {
    let identity = pad().identity;
    let observation = observed(Vec::new());
    let next = recover_record(&identity, RecoveryEvent::Observed { clear_gone: false, observation });
    assert!(matches!(next, RecoveryNext::ReadUnbound));
    let next = recover_record(&identity, RecoveryEvent::UnboundRead(pad_unbound(None)));
    assert!(matches!(
        next,
        RecoveryNext::Bind { step: BindingStep::Write { operation: Operation::Bind, .. }, .. }
    ));
    let next = recover_record(&identity, RecoveryEvent::BindTried(Ok(())));
    let attempts_left = match next {
        RecoveryNext::Await { attempts_left } => attempts_left,
        other => panic!("{other:?}"),
    };
    let observation = observed(Vec::new());
    let next = recover_record(&identity, RecoveryEvent::Awaited { attempts_left, observation });
    assert!(matches!(next, RecoveryNext::Await { attempts_left: n } if n == attempts_left - 1));
    let observation = bound_pad();
    let next = recover_record(&identity, RecoveryEvent::Awaited { attempts_left, observation });
    assert!(matches!(next, RecoveryNext::Confirm));
    let next = recover_record(&identity, RecoveryEvent::Confirmed(bound_pad()));
    assert!(matches!(next, RecoveryNext::RemoveRecord { gone: false }));
    let removed = RecoveryEvent::RecordRemoved { gone: false, result: Ok(()) };
    let next = recover_record(&identity, removed);
    assert!(matches!(next, RecoveryNext::Done(Ok(()))));
}

#[test]
fn recovery_clears_the_record_of_a_vanished_function() {
    let identity = pad().identity;
    let observation = observed(Vec::new());
    let next = recover_record(&identity, RecoveryEvent::Observed { clear_gone: true, observation });
    assert!(matches!(next, RecoveryNext::ProbeGone { stable_mismatch: false }));
    let probed = RecoveryEvent::Probed { stable_mismatch: false, missing: vec![true] };
    let next = recover_record(&identity, probed);
    assert!(matches!(next, RecoveryNext::RemoveRecord { gone: true }));
    let probed = RecoveryEvent::Probed { stable_mismatch: false, missing: vec![false] };
    assert!(matches!(recover_record(&identity, probed), RecoveryNext::ReadUnbound));
    let probed = RecoveryEvent::Probed { stable_mismatch: true, missing: vec![false] };
    assert!(recovery_end(recover_record(&identity, probed)).contains("stable key"));
    let uncertain = RecoveryEvent::RecordRemoved { gone: true, result: Err("EIO".to_owned()) };
    assert_eq!(
        recovery_end(recover_record(&identity, uncertain)),
        "gone recovery record removal outcome is uncertain; retry restoration: EIO"
    );
}

#[test]
fn recovery_keeps_the_record_in_doubt() {
    let identity = pad().identity;
    let end = |event: RecoveryEvent| recovery_end(recover_record(&identity, event));
    assert_eq!(
        end(RecoveryEvent::UnboundRead(pad_unbound(Some("sony")))),
        "controller function is still bound; recovery journal retained"
    );
    assert_eq!(
        end(RecoveryEvent::BindTried(Err(map_io_error("ENODEV")))),
        "ENODEV; recovery journal retained"
    );
    let observation = observed(Vec::new());
    assert_eq!(
        end(RecoveryEvent::Awaited { attempts_left: 1, observation }),
        "kernel did not confirm that the validated controller function was rebound; recovery journal retained"
    );
    assert_eq!(
        end(RecoveryEvent::Confirmed(observed(Vec::new()))),
        "kernel did not expose the rebound controller; recovery journal retained"
    );
    let observation = observed(vec![pad_function(Some("sony"))]);
    assert!(end(RecoveryEvent::Observed { clear_gone: false, observation }).contains("stable key"));
}

#[test]
fn a_bound_controller_needs_no_recovery() {
    let identity = pad().identity;
    let observation = bound_pad();
    let next = recover_record(&identity, RecoveryEvent::Observed { clear_gone: false, observation });
    assert!(matches!(next, RecoveryNext::RemoveRecord { gone: false }));
}

#[test]
fn enabling_goes_by_the_record() {
    let identity = pad().identity;
    let mut requested = identity.clone();
    requested.fingerprint = "anything".to_owned();
    let records = Ok(vec![xbox().identity, identity.clone()]);
    match enable(&requested, EnableEvent::JournalRead(records)) {
        EnableNext::Recover(record) => assert_eq!(record, identity),
        other => panic!("{other:?}"),
    }
    let exit = |requested: &Identity, event: EnableEvent| match enable(requested, event) {
        EnableNext::Exit(exit) => exit.code,
        other => panic!("{other:?}"),
    };
    assert_eq!(exit(&requested, EnableEvent::JournalRead(Ok(Vec::new()))), 3);
    assert_eq!(exit(&identity, EnableEvent::JournalRead(Err("EIO".to_owned()))), 5);
    assert_eq!(exit(&identity, EnableEvent::Recovered(Ok(()))), 0);
    assert_eq!(exit(&identity, EnableEvent::Recovered(Err("x".to_owned()))), 5);
    assert_eq!(exit(&identity, EnableEvent::Observed(bound_pad())), 0);
    assert_eq!(exit(&identity, EnableEvent::Observed(observed(Vec::new()))), 3);
    let next = enable(&identity, EnableEvent::JournalRead(Ok(Vec::new())));
    assert!(matches!(next, EnableNext::Observe));
}

#[test]
fn a_restore_takes_each_record_in_turn() {
    let records = Ok(vec![pad().identity, xbox().identity]);
    assert!(matches!(restore_journal(&records, 0, &Ok(())), RestoreNext::Recover(0)));
    assert!(matches!(restore_journal(&records, 1, &Ok(())), RestoreNext::Recover(1)));
    match restore_journal(&records, 2, &Ok(())) {
        RestoreNext::Exit(exit) => assert_eq!(exit.code, 0),
        other => panic!("{other:?}"),
    }
    match restore_journal(&records, 2, &Err("x".to_owned())) {
        RestoreNext::Exit(exit) => {
            assert_eq!(exit.code, 5);
            assert_eq!(exit.message, format!("{}: x", xbox().identity.stable_id));
        }
        other => panic!("{other:?}"),
    }
    match restore_journal(&Err("EIO".to_owned()), 0, &Ok(())) {
        RestoreNext::Exit(exit) => assert_eq!((exit.code, exit.message.as_str()), (5, "EIO")),
        other => panic!("{other:?}"),
    }
}

// The platform.

#[test]
fn rows_show_what_can_be_switched() {
    let controller = pad();
    assert_eq!(coverage_for(&controller, true), ControlCoverage::Full);
    assert_eq!(coverage_for(&controller, false), ControlCoverage::Uncontrolled);
    let row = platform_device(&controller, ControlCoverage::Full, true, true);
    assert_eq!(row.id.as_str(), controller.identity.stable_id);
    assert!(row.capabilities.full_control && row.capabilities.usb);
    assert!(!row.capabilities.xinput);
    assert_eq!(row.problem_code, None);
    let of = row.verified.expect("verified");
    assert_eq!((of.usage_page, of.usage), (1, 5));
    assert_eq!(of.protocol, ControllerProtocol::HidGamepad);
    let row = platform_device(&controller, ControlCoverage::Uncontrolled, true, false);
    assert_eq!(row.problem_code, Some(PROBLEM_HELPER_MISSING));
    let row = platform_device(&controller, ControlCoverage::HidOnly, true, true);
    assert_eq!(row.problem_code, Some(PROBLEM_PARTIAL_FUNCTION));
    let row = platform_device(&xbox(), ControlCoverage::Full, true, true);
    assert!(row.capabilities.xinput);
    assert_eq!(row.verified.map(|v| v.protocol), Some(ControllerProtocol::Xusb));
    assert!(mutation_warning(&xbox()).contains("Xbox"));
    assert!(!mutation_warning(&pad()).contains("Xbox"));
}

#[test]
fn native_identities_keep_their_evidence() {
    let of = verified(&pad(), ControlCoverage::Full);
    assert_eq!(native_identity(&of).ok(), Some(pad().identity));
    let mut other = of.clone();
    other.usage = 4;
    assert!(matches!(native_identity(&other), Err(PlatformError::IdentityMismatch(_))));
    let mut other = of.clone();
    other.protocol = ControllerProtocol::Xusb;
    assert!(matches!(native_identity(&other), Err(PlatformError::IdentityMismatch(_))));
    let mut other = of;
    other.platform = "windows".to_owned();
    assert!(matches!(native_identity(&other), Err(PlatformError::VerificationFailed(_))));
}

#[test]
fn enumeration_notes_what_is_not_controllable() {
    let mut platform = LinuxPlatform::new();
    let found = discovery(vec![pad_function(Some("hid-playstation"))]);
    let report = platform.enumerate_internal(&found, true);
    assert!(report.errors.is_empty());
    assert!(report.devices[0].state.enabled);
    let report = platform.enumerate_internal(&found, false);
    assert_eq!(
        report.errors,
        ["Pad: Linux controller helper is not installed as a trusted root-owned executable; refusing an incomplete evdev-only disable"]
    );
    let found = discovery(vec![pad_function(Some("evil"))]);
    let report = platform.enumerate_internal(&found, true);
    assert!(report.errors[0].starts_with("Pad: controller function is not safely controllable ("));
}

#[test]
fn a_disable_is_asked_for_and_then_seen() {
    let mut platform = LinuxPlatform::new();
    let of = verified(&pad(), ControlCoverage::Full);
    let live = || discovery(vec![pad_function(Some("hid-playstation"))]);
    let (stage, next) = platform.advance(Stage::Looking, SwitchEvent::Requested, &of, false);
    assert!(matches!(next, SwitchNext::Discover));
    let (stage, next) =
        platform.advance(stage, SwitchEvent::Discovered(live(), true), &of, false);
    assert!(matches!(next, SwitchNext::Ask("disable", identity) if identity == pad().identity));
    let (stage, next) = platform.advance(stage, SwitchEvent::Answered(Ok(())), &of, false);
    assert!(matches!(next, SwitchNext::Look));
    let still = SwitchEvent::FunctionRead(Ok(pad_function(Some("hid-playstation"))));
    let (stage, next) = platform.advance(stage, still, &of, false);
    assert!(matches!(next, SwitchNext::PauseAndLook));
    let gone = SwitchEvent::FunctionRead(Ok(pad_function(None)));
    let (_, next) = platform.advance(stage, gone, &of, false);
    let report: MutationReport = match next {
        SwitchNext::Done(Ok(report)) => report,
        other => panic!("{other:?}"),
    };
    assert_eq!(report.outcomes[0].confirmed_enabled, Some(false));
    assert!(report.outcomes[0].error.is_some());
    let row = platform.enumerate_internal(&discovery(Vec::new()), true).devices.remove(0);
    assert!(!row.state.enabled);
    assert_eq!(row.id.as_str(), of.stable_id);

    let (stage, next) = platform.advance(
        Stage::Looking,
        SwitchEvent::Discovered(discovery(Vec::new()), true),
        &of,
        true,
    );
    assert!(matches!(next, SwitchNext::Probe(_)));
    let unbound = controller_from_unbound(&pad().identity, &pad_unbound(None));
    let (stage, next) = platform.advance(stage, SwitchEvent::Probed(unbound, true), &of, true);
    assert!(matches!(next, SwitchNext::Ask("enable", _)));
    let (stage, _) = platform.advance(stage, SwitchEvent::Answered(Ok(())), &of, true);
    let (_, next) = platform.advance(stage, SwitchEvent::Discovered(live(), true), &of, true);
    assert!(matches!(next, SwitchNext::Done(Ok(_))));
    assert!(platform.enumerate_internal(&discovery(Vec::new()), true).devices.is_empty());
}

#[test]
fn a_switch_fails_where_the_helper_is_refused_or_nothing_changes() {
    let mut platform = LinuxPlatform::new();
    let of = verified(&pad(), ControlCoverage::Full);
    let asked = || Stage::Asked(Some(pad()));
    let denied = PlatformError::PermissionDenied("dismissed".to_owned());
    let (_, next) = platform.advance(asked(), SwitchEvent::Answered(Err(denied)), &of, false);
    assert!(matches!(next, SwitchNext::Done(Err(PlatformError::PermissionDenied(_)))));
    let (mut stage, _) = platform.advance(asked(), SwitchEvent::Answered(Ok(())), &of, false);
    let mut looks = 0;
    let error = loop {
        let still = SwitchEvent::FunctionRead(Err("gone".to_owned()));
        let (after, next) = platform.advance(stage, still, &of, false);
        stage = after;
        looks += 1;
        match next {
            SwitchNext::PauseAndLook => {}
            SwitchNext::Done(Err(error)) => break error,
            other => panic!("{other:?}"),
        }
    };
    assert!(looks > 1);
    assert!(matches!(error, PlatformError::VerificationFailed(_)));
    let live = discovery(vec![pad_function(Some("hid-playstation"))]);
    let (_, next) =
        platform.advance(Stage::Looking, SwitchEvent::Discovered(live, false), &of, false);
    assert!(matches!(next, SwitchNext::Done(Err(PlatformError::IdentityMismatch(_)))));
    let mut foreign = of;
    foreign.platform = "windows".to_owned();
    let (_, next) = platform.advance(Stage::Looking, SwitchEvent::Requested, &foreign, false);
    assert!(matches!(next, SwitchNext::Done(Err(PlatformError::VerificationFailed(_)))));
}

#[test]
fn new_states_are_seen_in_the_kernel() {
    assert!(wait_for_unbound(&Ok(pad_function(None))));
    assert!(!wait_for_unbound(&Ok(pad_function(Some("sony")))));
    assert!(!wait_for_unbound(&Err("gone".to_owned())));
    let live = discovery(vec![pad_function(Some("hid-playstation"))]);
    assert!(wait_for_bound(&live, &pad().identity));
    assert!(!wait_for_bound(&live, &xbox().identity));
}

#[test]
fn executables_are_trusted_only_from_root() {
    let reading = |path: &str, mode: u32, ancestors: Vec<Option<FileMetadata>>| ExecutableReading {
        path: path.to_owned(),
        file: Some(root_file(mode)),
        ancestors,
    };
    let sound = || vec![Some(root_directory(0o755)), Some(root_directory(0o755))];
    assert!(trusted_root_executable(&reading("/usr/h", 0o755, sound())));
    assert!(!trusted_root_executable(&reading("usr/h", 0o755, sound())));
    assert!(!trusted_root_executable(&reading("/usr/h", 0o644, sound())));
    assert!(!trusted_root_executable(&reading("/usr/h", 0o775, sound())));
    assert!(!trusted_root_executable(&reading("/usr/h", 0o755, vec![None])));
    assert!(!trusted_root_executable(&reading(
        "/usr/h",
        0o755,
        vec![Some(root_directory(0o777))]
    )));
    assert!(trusted_pkexec(&reading("/usr/bin/pkexec", 0o4755, sound())));
    assert!(trusted_user_executable(&Some(FileMetadata { uid: 1000, ..root_file(0o755) })));
    assert!(!trusted_user_executable(&Some(root_file(0o644))));
    assert!(!trusted_user_executable(&None));
    let libexec = "/usr/libexec/controwly-linux-input-helper";
    let lib = "/usr/lib/controwly/controwly-linux-input-helper";
    assert_eq!(
        helper_path(&reading(libexec, 0o755, sound()), &reading(lib, 0o755, sound())),
        Some(libexec)
    );
    assert_eq!(
        helper_path(&reading(libexec, 0o644, sound()), &reading(lib, 0o755, sound())),
        Some(lib)
    );
    assert_eq!(
        helper_path(&reading("/tmp/h", 0o755, sound()), &reading(lib, 0o644, sound())),
        None
    );
}

#[test]
fn helper_answers_are_told() {
    assert_eq!(bounded_output(b""), None);
    assert_eq!(bounded_output(b" \x07\n"), None);
    assert_eq!(bounded_output(b"bad \xff end\r\n"), text("bad \u{fffd} end"));
    assert_eq!(bounded_output(&[b'x'; 600]), Some("x".repeat(512)));
    let output = |success: bool, code: Option<i32>, stdout: &str, stderr: &str| HelperOutput {
        success,
        code,
        status: "exit status: 3".to_owned(),
        stdout: stdout.as_bytes().to_vec(),
        stderr: stderr.as_bytes().to_vec(),
    };
    assert!(helper_result(&output(true, Some(0), "", "noise")).is_ok());
    let told = |output: HelperOutput| helper_result(&output).expect_err("failed").describe();
    assert_eq!(
        told(output(false, Some(3), "out", "err")),
        "device operation failed: err"
    );
    assert_eq!(told(output(false, Some(3), "out", "")), "device operation failed: out");
    assert_eq!(
        told(output(false, None, "", "")),
        "device operation failed: helper exited with status exit status: 3"
    );
    assert_eq!(told(output(false, Some(126), "", "no")), "permission denied: no");
    assert_eq!(told(output(false, Some(127), "", "no")), "permission denied: no");
    assert!(helper_not_started("ENOENT").describe().contains("ENOENT"));
    assert_eq!(launcher_failure("xdg-open", &LaunchOutcome::Accepted), None);
    assert_eq!(
        launcher_failure("xdg-open", &LaunchOutcome::Failed("1".to_owned())),
        text("xdg-open: exited with status 1")
    );
    assert_eq!(
        launcher_failure("xdg-open", &LaunchOutcome::Unwatched("e".to_owned())),
        text("xdg-open: cannot inspect launcher: e")
    );
    assert_eq!(
        launcher_failure("xdg-open", &LaunchOutcome::NotStarted("e".to_owned())),
        text("xdg-open: e")
    );
    let none = no_settings_program(&["a: x".to_owned(), "b: y".to_owned()]);
    assert!(matches!(none, PlatformError::LaunchFailed(_)));
}

#[test]
fn devices_are_resolved_from_the_inventory() {
    let row = platform_device(&pad(), ControlCoverage::Full, true, true);
    let id = DeviceId(pad().identity.stable_id);
    assert!(admit_id(&id).is_ok());
    let malformed = DeviceId("pad".to_owned());
    assert!(matches!(admit_id(&malformed), Err(PlatformError::VerificationFailed(_))));
    assert_eq!(resolve_verified(&id, &[row.clone()]).ok(), row.verified);
    assert!(matches!(resolve_verified(&id, &[]), Err(PlatformError::NotFound(_))));
    let of = verified(&pad(), ControlCoverage::Full);
    assert!(matches!(
        resolve_verified_for_recovery(&id, &of, &[row.clone()]),
        RecoveryLookup::Resolved(found) if found == of
    ));
    assert!(matches!(
        resolve_verified_for_recovery(&id, &of, &[]),
        RecoveryLookup::Probe(native) if native == pad().identity
    ));
    assert_eq!(admit_recovery(&id, &of).ok(), Some(pad().identity));
    assert!(matches!(
        admit_recovery(&malformed, &of),
        Err(PlatformError::IdentityMismatch(_))
    ));
    let partial = verified(&pad(), ControlCoverage::HidOnly);
    assert!(matches!(
        resolve_verified_for_recovery(&id, &partial, &[row]),
        RecoveryLookup::Failed(PlatformError::IdentityMismatch(_))
    ));
    assert!(matches!(
        resolve_verified_for_recovery(&malformed, &of, &[]),
        RecoveryLookup::Failed(PlatformError::IdentityMismatch(_))
    ));
}

#[test]
fn an_unbound_device_is_recovered_or_gone() {
    let id = DeviceId(pad().identity.stable_id);
    let of = verified(&pad(), ControlCoverage::Full);
    let probe = || controller_from_unbound(&pad().identity, &pad_unbound(None));
    assert_eq!(recover_unbound(&id, &of, probe(), true, false).ok(), Some(of.clone()));
    assert!(matches!(
        recover_unbound(&id, &of, probe(), false, false),
        Err(PlatformError::PermissionDenied(_))
    ));
    let lost = || Err("gone".to_owned());
    assert!(matches!(
        recover_unbound(&id, &of, lost(), true, true),
        Err(PlatformError::RecoveryGone(_))
    ));
    assert_eq!(recover_unbound(&id, &of, lost(), true, false).ok(), Some(of));
}

#[test]
fn the_owner_of_an_input_has_its_evidence() {
    let input = InputReading {
        name: None,
        phys: text("usb-9/input0"),
        uniq: None,
        bustype: text("0003"),
        vendor: text("054c"),
        product: None,
        version: text("8111"),
    };
    let driver = text("xpad");
    let found =
        owning_function(FunctionBus::Usb, XBOX, &xbox_path(), &xbox_reading(), &driver, &input);
    let function = found.expect("a sound place is a function");
    assert_eq!(function.id, XBOX);
    assert_eq!(function.driver.as_deref(), Some("xpad"));
    assert_eq!(function.expected_driver.as_deref(), Some("xpad"));
    assert_eq!(function.properties.text("id"), "45e/28e/114");
    assert_eq!(function.properties.text("name"), "Linux input device");
    let bare = FunctionReading {
        function_name: PAD.to_owned(),
        uevent: None,
        parent_name: String::new(),
        parent_uevent: None,
        parent_serial: None,
        interface_class: None,
        interface_subclass: None,
        interface_protocol: None,
    };
    let found = owning_function(FunctionBus::Hid, PAD, &pad_path(), &bare, &None, &input);
    let function = found.expect("a function without a uevent");
    assert_eq!(function.properties.text("id"), "0003:054c::8111");
    assert_eq!(function.properties.text("phys"), "usb-9/input0");
    assert_eq!(function.driver, None);
    let mut elsewhere = xbox_path();
    elsewhere.subsystem = Ok("/sys/bus/hid".to_owned());
    let found =
        owning_function(FunctionBus::Usb, XBOX, &elsewhere, &xbox_reading(), &driver, &input);
    assert!(found.is_none());
}

#[test]
fn settings_programs_come_in_turn() {
    assert_eq!(settings_program(0), Some(("/usr/bin/blueman-manager", None)));
    assert_eq!(
        settings_program(1),
        Some(("/usr/bin/gnome-control-center", Some("bluetooth")))
    );
    assert_eq!(settings_program(2), Some(("/usr/bin/kcmshell6", Some("kcm_bluetooth"))));
    assert_eq!(settings_program(3), Some(("/usr/bin/kcmshell5", Some("kcm_bluetooth"))));
    assert_eq!(settings_program(4), Some(("/usr/bin/systemsettings", Some("kcm_bluetooth"))));
    assert_eq!(settings_program(5), None);
}

#[test]
fn requests_are_understood_in_any_order() {
    let groups: [&[&str]; 5] = [
        &["--disable"],
        &["--platform", "linux"],
        &["--stable-id", "s"],
        &["--instance-id", "i"],
        &["--fingerprint", "f"],
    ];
    for turn in 0..5 {
        let mut order: Vec<&[&str]> = groups.to_vec();
        order.rotate_left(turn);
        if turn % 2 == 1 {
            order.reverse();
        }
        let request = Request::parse(arguments(&order.concat())).expect("a request");
        assert_eq!((request.action.as_str(), request.platform.as_str()), ("disable", "linux"));
        assert_eq!((request.stable_id.as_str(), request.instance_id.as_str()), ("s", "i"));
        assert_eq!(request.fingerprint, "f");
        let repeated = [order.concat(), order[turn].to_vec()].concat();
        assert!(Request::parse(arguments(&repeated)).is_err());
        assert!(Request::parse(arguments(&order[1..].concat())).is_err());
    }
}

#[test]
fn a_settings_program_is_watched_for_a_while() {
    assert!(watch_launcher(1, Watch::Running).is_none());
    assert!(watch_launcher(LAUNCH_LOOKS - 1, Watch::Running).is_none());
    assert!(matches!(watch_launcher(5, Watch::Running), Some(LaunchOutcome::Accepted)));
    let ended = |success: bool| Watch::Ended { success, status: "exit status: 1".to_owned() };
    assert!(matches!(watch_launcher(1, ended(true)), Some(LaunchOutcome::Accepted)));
    assert!(matches!(
        watch_launcher(1, ended(false)),
        Some(LaunchOutcome::Failed(status)) if status == "exit status: 1"
    ));
    assert!(matches!(
        watch_launcher(2, Watch::Failed("e".to_owned())),
        Some(LaunchOutcome::Unwatched(error)) if error == "e"
    ));
}

#[test]
fn an_unlisted_machine_has_no_controllers() {
    let found = discover_nothing("Permission denied (os error 13)");
    assert!(found.controllers.is_empty());
    assert_eq!(found.errors, ["cannot read /sys/class/input: Permission denied (os error 13)"]);
}

#[test]
fn the_helper_is_asked_for_the_action_of_the_request() {
    assert_eq!(helper_action(true), "enable");
    assert_eq!(helper_action(false), "disable");
    for enabled in [true, false] {
        let call = invoke_helper(helper_action(enabled), &pad().identity, Some("/h"), true);
        let call = call.expect("a call");
        assert_eq!(call[1], format!("--{}", helper_action(enabled)));
    }
}
