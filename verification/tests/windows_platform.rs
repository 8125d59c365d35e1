use controwly::devnode::{
    collect_all_devnodes, device_instance_id, instance_units, read_raw_devnode, registry_units,
    registry_values, HidAggregate, ListedNode, NodeReading, RawDevnode, CM_PROB_DISABLED,
    CR_NO_SUCH_DEVNODE, DN_HAS_PROBLEM, DN_NEEDS_RESTART, DN_STARTED, DN_WILL_BE_REMOVED,
    ERROR_INSUFFICIENT_BUFFER, ERROR_NO_MORE_ITEMS, ERROR_SUCCESS,
};
use controwly::family::{is_descendant_of, node_by_devinst};
use controwly::interfaces::{
    ascending_keys, interface_failure, interface_path, interface_size, observe_hid, HidCollection,
    InterfaceEvent, InterfaceKind, InterfaceNext, XusbCollection,
};
use controwly::inventory::{
    build_record, build_xusb_record, connection_label, control_limitation, display_name,
    fingerprint, fnv64, hex_bytes, scan_inventory, stable_id, Inventory,
};
use controwly::link_collections::{
    classify_hid_collections, inspect_hid_path, is_allowed_usage, link_collection_count,
    HidpLinkCollectionNode, HIDP_STATUS_SUCCESS,
};
use controwly::locate::{identity_shape_is_valid, locate_identity, reconstructed_record};
use controwly::platform::{
    ControlCoverage, ControllerProtocol, DeviceId, PlatformError, VerifiedDevice,
};
use controwly::windows::{
    admit_change, admit_id, admit_recovery, apply_property_change, confirm_state,
    node_needs_restart, open_bluetooth_settings, plan_change, property_change_error,
    target_missing, ChangePlan, Confirmation, TargetStep, WindowsPlatform,
};
use controwly::windows_switch::{state_change, Stage, SwitchEvent, SwitchNext};
use controwly::xusb::{
    exact_xusb_root_devinst, has_verified_hid_descendant, related_mixed_hid_function,
    related_observed_xusb_conflict, related_unsafe_xusb_descendant, xusb_companion_hint,
    xusb_recovery_native, xusb_relation_root_devinst,
};
use std::collections::{BTreeMap, BTreeSet};

const PAD: &str = "USB\\PAD";

fn node(devinst: u32, instance: &str, class_name: &str, parent: Option<u32>) -> RawDevnode {
    RawDevnode {
        devinst,
        instance: instance.to_owned(),
        class_name: class_name.to_owned(),
        service: "HidUsb".to_owned(),
        enumerator: "USB".to_owned(),
        hardware_ids: vec!["B".to_owned(), "A".to_owned()],
        friendly_name: String::new(),
        description: "Pad".to_owned(),
        manufacturer: String::new(),
        parent,
        xusb_interface: false,
        status: DN_STARTED,
        problem: None,
        status_known: true,
    }
}

fn pad() -> RawDevnode {
    node(7, PAD, "HIDClass", None)
}

fn off(mut node: RawDevnode) -> RawDevnode {
    node.status = DN_HAS_PROBLEM;
    node.problem = Some(CM_PROB_DISABLED as i32);
    node
}

fn pad_evidence() -> HidAggregate {
    let mut evidence = HidAggregate::new();
    evidence.add(1, 5, false);
    evidence
}

fn pad_hid() -> BTreeMap<u32, HidAggregate> {
    let mut hid = BTreeMap::new();
    hid.insert(7, pad_evidence());
    hid
}

fn scan(nodes: &[RawDevnode], hid: BTreeMap<u32, HidAggregate>) -> Inventory {
    scan_inventory(nodes, &BTreeSet::new(), &[], hid, Vec::new()).expect("an inventory")
}

fn on_inventory() -> Inventory {
    scan(&[pad()], pad_hid())
}

fn off_inventory() -> Inventory {
    scan(&[off(pad())], BTreeMap::new())
}

fn pad_identity() -> VerifiedDevice {
    build_record(&pad(), &pad_evidence(), &[pad()], &pad_hid()).expect("a record").identity
}

fn units(text: &str) -> Vec<u16> {
    text.encode_utf16().collect()
}

fn ended(next: SwitchNext) -> PlatformError {
    match next {
        SwitchNext::Done(Err(error)) => error,
        other => panic!("{other:?}"),
    }
}

// Device nodes.

#[test]
fn registry_texts_are_taken_apart() {
    assert_eq!(registry_units(0, 10, ERROR_INSUFFICIENT_BUFFER), Some(6));
    assert_eq!(registry_units(1, 0, ERROR_INSUFFICIENT_BUFFER), None);
    assert_eq!(registry_units(0, 10, 5), None);
    assert_eq!(registry_units(0, 0, ERROR_INSUFFICIENT_BUFFER), None);
    let buffer = units("one\0 two \0\0three\0rest");
    assert_eq!(
        registry_values(&buffer, 2 * 17),
        Some(vec!["one".to_owned(), "two".to_owned(), "three".to_owned()])
    );
    assert_eq!(registry_values(&buffer, 8), Some(vec!["one".to_owned()]));
    assert_eq!(registry_values(&units(" \0\0"), 6), None);
    assert_eq!(registry_values(&[0xd83d, 0xde00, 0xd800], 1000), Some(vec!["😀\u{fffd}".to_owned()]));
}

#[test]
fn instance_identifiers_are_normal() {
    assert_eq!(instance_units(0, 20, ERROR_INSUFFICIENT_BUFFER, &[]), Ok(20));
    assert_eq!(
        instance_units(1, 0, 0, &[]),
        Err("SetupDiGetDeviceInstanceIdW returned no instance ID".to_owned())
    );
    assert_eq!(
        instance_units(0, 0, 5, &units("Denied. ")),
        Err("SetupDiGetDeviceInstanceIdW: Denied. (0x00000005)".to_owned())
    );
    assert_eq!(device_instance_id(&units(" usb\\pad \0junk")), Ok(PAD.to_owned()));
    assert_eq!(
        device_instance_id(&units("\0junk")),
        Err("SetupAPI returned an empty device instance ID".to_owned())
    );
}

fn reading() -> NodeReading {
    NodeReading {
        devinst: 7,
        instance: Ok(PAD.to_owned()),
        class_name: Some(vec!["HIDClass".to_owned(), "ignored".to_owned()]),
        service: None,
        enumerator: Some(Vec::new()),
        hardware_ids: Some(vec![" usb\\vid_1 ".to_owned()]),
        friendly_name: None,
        description: None,
        manufacturer: None,
        status_code: ERROR_SUCCESS,
        status: DN_STARTED,
        problem: 0,
        parent_code: ERROR_SUCCESS,
        parent: 3,
    }
}

#[test]
fn nodes_are_read_with_their_status() {
    let read = read_raw_devnode(reading()).expect("a node");
    assert_eq!(read.class_name, "HIDClass");
    assert_eq!(read.service, "");
    assert_eq!(read.hardware_ids, ["USB\\VID_1"]);
    assert_eq!(read.parent, Some(3));
    assert_eq!(read.problem, None);
    assert_eq!(read.enabled(), Some(true));
    let mut orphan = reading();
    orphan.parent_code = CR_NO_SUCH_DEVNODE;
    orphan.status_code = 5;
    orphan.problem = 22;
    let read = read_raw_devnode(orphan).expect("a node");
    assert_eq!((read.parent, read.problem, read.enabled()), (None, None, None));
    let mut broken = reading();
    broken.parent_code = 0x1a;
    assert_eq!(
        read_raw_devnode(broken).err().as_deref(),
        Some("CM_Get_Parent failed for devnode 7 (CONFIGRET 0x0000001A)")
    );
    let mut nameless = reading();
    nameless.instance = Err("no name".to_owned());
    assert_eq!(read_raw_devnode(nameless).err().as_deref(), Some("no name"));
}

#[test]
fn a_switched_off_node_is_not_running() {
    assert!(off(pad()).administratively_disabled());
    assert_eq!(off(pad()).enabled(), Some(false));
    let mut stopped = pad();
    stopped.status = 0;
    assert!(!stopped.administratively_disabled());
    assert_eq!(stopped.enabled(), Some(false));
}

#[test]
fn node_kinds_are_told_by_class_and_service() {
    let mut composite = node(1, "USB\\X", "usb", None);
    composite.service = " usbccgp ".to_owned();
    assert!(composite.is_composite_parent());
    assert!(node(1, "USB\\X", "Some Composite", None).is_composite_parent());
    assert!(!node(1, "USB\\X", "XNA Composite", None).is_composite_parent());
    assert!(pad().is_hid_function());
    assert!(node(1, "USB\\X", "Mouse", None).is_explicit_keyboard_or_mouse());
    let mut keyboard = node(1, "USB\\X", "Other", None);
    keyboard.service = "kbdhid".to_owned();
    assert!(keyboard.is_explicit_keyboard_or_mouse());
    assert!(!pad().is_explicit_keyboard_or_mouse());
}

#[test]
fn all_nodes_are_listed_until_none_is_left() {
    let mut nodes = Vec::new();
    let next = collect_all_devnodes(&mut nodes, 0, ListedNode::Node(Ok(pad())));
    assert_eq!(next.ok(), Some(Some(1)));
    let mut leaving = node(8, "USB\\GOING", "HIDClass", None);
    leaving.status |= DN_WILL_BE_REMOVED;
    let next = collect_all_devnodes(&mut nodes, 1, ListedNode::Node(Ok(leaving)));
    assert_eq!(next.ok(), Some(Some(2)));
    assert_eq!(nodes.len(), 1);
    let end = ListedNode::Refused { error: ERROR_NO_MORE_ITEMS, said: Vec::new() };
    assert_eq!(collect_all_devnodes(&mut nodes, 2, end).ok(), Some(None));
    let refused = ListedNode::Refused { error: 5, said: units("Denied.") };
    assert_eq!(
        collect_all_devnodes(&mut nodes, 2, refused).expect_err("refused").describe(),
        "device operation failed: SetupDiEnumDeviceInfo: Denied. (0x00000005)"
    );
    let broken = ListedNode::Node(Err("no name".to_owned()));
    assert_eq!(
        collect_all_devnodes(&mut nodes, 2, broken).expect_err("refused").describe(),
        "device operation failed: all-class devnode 2 could not be read: no name"
    );
}

#[test]
fn evidence_of_several_usages_is_mixed() {
    let mut evidence = HidAggregate::new();
    assert_eq!(evidence.usage(), None);
    evidence.add(1, 5, false);
    evidence.add(1, 5, false);
    assert_eq!(evidence.usage(), Some((1, 5)));
    assert!(evidence.allowed && !evidence.mixed && !evidence.disallowed);
    evidence.add(1, 4, false);
    assert_eq!(evidence.usage(), Some((1, 4)));
    assert!(evidence.mixed);
    let mut keyboard = HidAggregate::new();
    keyboard.add(1, 6, false);
    assert!(keyboard.disallowed && !keyboard.allowed);
    keyboard.mark_inspection_failed();
    assert!(keyboard.mixed);
}

// Collections of a descriptor.

fn link(parent: u16, children: u16, next: u16, first: u16, kind: u8, usage: u16) -> HidpLinkCollectionNode {
    HidpLinkCollectionNode {
        link_usage: usage,
        link_usage_page: 1,
        parent,
        number_of_children: children,
        next_sibling: next,
        first_child: first,
        collection_type: kind,
        is_alias: 0,
    }
}

#[test]
fn broken_collection_arrays_are_refused() {
    let refusal = |nodes: &[HidpLinkCollectionNode]| {
        classify_hid_collections(nodes, 1, 5).expect_err("refused")
    };
    assert_eq!(refusal(&[]), "HID link-collection array has no top-level collection");
    assert_eq!(
        refusal(&[link(1, 0, 0, 0, 1, 5)]),
        "HID link-collection array root has a parent"
    );
    assert_eq!(
        refusal(&[link(0, 1, 0, 9, 1, 5)]),
        "HID link-collection node 0 points to child index 9 outside the array"
    );
    assert_eq!(
        refusal(&[link(0, 2, 0, 1, 1, 5), link(0, 0, 1, 0, 0, 1)]),
        "HID link-collection node 0 has a cyclic sibling list"
    );
    assert_eq!(
        refusal(&[link(0, 1, 0, 1, 1, 5), link(2, 0, 0, 0, 0, 1), link(0, 0, 0, 0, 0, 1)]),
        "HID link-collection node 1 disagrees with its parent's child link"
    );
    assert_eq!(
        refusal(&[link(0, 2, 0, 1, 1, 5), link(0, 0, 0, 0, 0, 1)]),
        "HID link-collection node 0 reports 2 children but links 1"
    );
    assert_eq!(
        refusal(&[link(0, 0, 0, 0, 1, 5), link(0, 0, 0, 0, 0, 1)]),
        "HID link-collection array contains an unreachable node"
    );
    assert_eq!(
        refusal(&[link(0, 1, 0, 1, 1, 5), link(0, 1, 0, 1, 0, 1)]),
        "HID link-collection node 1 is reachable more than once"
    );
}

#[test]
fn foreign_collections_make_a_function_mixed() {
    assert!(is_allowed_usage(1, 8));
    assert!(!is_allowed_usage(1, 6));
    assert!(!is_allowed_usage(2, 5));
    assert_eq!(classify_hid_collections(&[link(0, 0, 0, 0, 1, 5)], 1, 5), Ok(false));
    assert_eq!(classify_hid_collections(&[link(0, 0, 0, 0, 1, 5)], 1, 4), Ok(true));
    assert_eq!(classify_hid_collections(&[link(0, 0, 0, 0, 1, 6)], 1, 6), Ok(true));
    let vendor = [link(0, 1, 0, 1, 1, 5), link(0, 0, 0, 0, 7, 1)];
    assert_eq!(classify_hid_collections(&vendor, 1, 5), Ok(true));
    assert_eq!(link_collection_count(HIDP_STATUS_SUCCESS, 3), Ok(3));
    assert_eq!(
        link_collection_count(-1072627711, 3),
        Err("HidP_GetCaps failed with HID status 0xC0110001".to_owned())
    );
    assert!(link_collection_count(HIDP_STATUS_SUCCESS, 0).is_err());
    assert!(link_collection_count(HIDP_STATUS_SUCCESS, 4097).is_err());
    let nodes = [link(0, 0, 0, 0, 1, 5), link(9, 9, 9, 9, 9, 9)];
    assert_eq!(inspect_hid_path(1, 5, &nodes, HIDP_STATUS_SUCCESS, 1), Ok((1, 5, false)));
    assert!(inspect_hid_path(1, 5, &nodes, HIDP_STATUS_SUCCESS, 2).is_err());
    assert!(inspect_hid_path(1, 5, &nodes, HIDP_STATUS_SUCCESS, 3).is_err());
    assert!(inspect_hid_path(1, 5, &nodes, 0, 1).is_err());
}

// Interfaces.

fn detail(path: &str) -> Vec<u8> {
    let mut bytes = vec![8, 0, 0, 0];
    for unit in path.encode_utf16() {
        bytes.extend(unit.to_le_bytes());
    }
    bytes
}

#[test]
fn interface_paths_are_read_from_their_detail() {
    assert_eq!(interface_path(0, 7, &detail("\\\\?\\hid\0x")).ok().as_deref(), Some("\\\\?\\hid"));
    assert_eq!(
        interface_path(2, 7, &detail("\0x")).expect_err("refused").describe(),
        "device operation failed: HID interface 2 devinst 7 returned a malformed device path"
    );
    let mut odd = detail("ab");
    odd.push(0);
    assert!(interface_path(2, 7, &odd).is_err());
    assert!(interface_path(2, 7, &[8, 0, 0, 0]).is_err());
    let ask = |first: i32, required: u32, error: u32| {
        interface_size(InterfaceKind::Hid, 3, first, required, error, &[])
    };
    assert_eq!(ask(0, 100, ERROR_INSUFFICIENT_BUFFER), Ok(100));
    assert_eq!(
        ask(0, 2, ERROR_INSUFFICIENT_BUFFER),
        Err("HID interface 3: SetupDiGetDeviceInterfaceDetailW returned a truncated detail buffer"
            .to_owned())
    );
    assert_eq!(
        ask(0, 100, 5),
        Err("HID interface 3: SetupDiGetDeviceInterfaceDetailW sizing: Win32 error 5 (0x00000005)"
            .to_owned())
    );
    assert!(ask(1, 100, ERROR_INSUFFICIENT_BUFFER).is_err());
    assert!(ask(0, 1_048_577, ERROR_INSUFFICIENT_BUFFER).is_err());
    assert_eq!(
        interface_failure(InterfaceKind::Xusb, 1, 5, &units("Denied.")),
        "XUSB interface 1: SetupDiGetDeviceInterfaceDetailW: Denied. (0x00000005)"
    );
}

#[test]
fn hid_interfaces_are_listed_and_inspected() {
    let mut list = HidCollection::new();
    let listed = || InterfaceEvent::Listed { ok: 1, error: 0, said: Vec::new() };
    assert!(matches!(list.collect_hid_observations(listed()), InterfaceNext::Size));
    let sized = InterfaceEvent::Sized {
        first: 0,
        required: 40,
        error: ERROR_INSUFFICIENT_BUFFER,
        said: Vec::new(),
    };
    assert!(matches!(list.collect_hid_observations(sized), InterfaceNext::Read(40)));
    let read = InterfaceEvent::Read {
        ok: 1,
        error: 0,
        said: Vec::new(),
        devinst: 7,
        detail: detail("path\0"),
    };
    assert!(matches!(
        list.collect_hid_observations(read),
        InterfaceNext::Inspect(7, path) if path == "path"
    ));
    let inspected = InterfaceEvent::Inspected { devinst: 7, inspection: Ok((1, 5, false)) };
    assert!(matches!(list.collect_hid_observations(inspected), InterfaceNext::List(1)));
    let failed = InterfaceEvent::Inspected { devinst: 9, inspection: Err("busy".to_owned()) };
    assert!(matches!(list.collect_hid_observations(failed), InterfaceNext::List(2)));
    assert_eq!(list.errors, ["HID interface 1 devinst 9 could not be inspected: busy"]);
    assert!(list.observations[&9].mixed);
    assert_eq!(list.observations[&7].usage(), Some((1, 5)));
    assert_eq!(ascending_keys(&list.observations), [7, 9]);
    let end =
        InterfaceEvent::Listed { ok: 0, error: ERROR_NO_MORE_ITEMS, said: Vec::new() };
    assert!(matches!(list.collect_hid_observations(end), InterfaceNext::Done));
    let refused = InterfaceEvent::Listed { ok: 0, error: 5, said: Vec::new() };
    assert!(matches!(list.collect_hid_observations(refused), InterfaceNext::Failed(_)));
    let unread = InterfaceEvent::Read {
        ok: 0,
        error: 5,
        said: Vec::new(),
        devinst: 0,
        detail: vec![0; 4],
    };
    assert!(matches!(list.collect_hid_observations(unread), InterfaceNext::Failed(_)));
}

#[test]
fn native_interfaces_are_passed_over_when_unreadable() {
    let mut list = XusbCollection::new();
    let sized = InterfaceEvent::Sized { first: 0, required: 0, error: 5, said: Vec::new() };
    assert!(matches!(list.collect_xusb_interfaces(sized), InterfaceNext::List(1)));
    let read = InterfaceEvent::Read {
        ok: 1,
        error: 0,
        said: Vec::new(),
        devinst: 20,
        detail: vec![0; 4],
    };
    assert!(matches!(list.collect_xusb_interfaces(read), InterfaceNext::List(2)));
    assert!(list.devinsts.contains(&20));
    let unread = InterfaceEvent::Read {
        ok: 0,
        error: 5,
        said: Vec::new(),
        devinst: 21,
        detail: vec![0; 4],
    };
    assert!(matches!(list.collect_xusb_interfaces(unread), InterfaceNext::List(3)));
    let refused = InterfaceEvent::Listed { ok: 0, error: 5, said: Vec::new() };
    assert!(matches!(list.collect_xusb_interfaces(refused), InterfaceNext::Done));
    assert_eq!(list.errors.len(), 3);
    assert_eq!(list.devinsts.len(), 1);
}

#[test]
fn a_failed_inspection_blocks_control() {
    let mut hid = pad_hid();
    let mut errors = Vec::new();
    observe_hid(&mut hid, &mut errors, 4, 7, Err("busy".to_owned()));
    assert_eq!(errors, ["HID interface 4 devinst 7 could not be inspected: busy"]);
    assert!(build_record(&pad(), &hid[&7], &[pad()], &hid).is_none());
}

// Relations between nodes.

#[test]
fn descent_follows_parents_and_ends_on_cycles() {
    let all = [
        node(1, "USB\\A", "USB", None),
        node(2, "USB\\B", "USB", Some(1)),
        node(3, "USB\\C", "USB", Some(2)),
        node(4, "USB\\D", "USB", Some(5)),
        node(5, "USB\\E", "USB", Some(4)),
    ];
    assert!(is_descendant_of(&all[2], 1, &all));
    assert!(is_descendant_of(&all[2], 2, &all));
    assert!(!is_descendant_of(&all[0], 3, &all));
    assert!(is_descendant_of(&all[3], 4, &all));
    assert!(!is_descendant_of(&all[3], 1, &all));
    assert_eq!(node_by_devinst(&all, 3).map(|n| n.instance.as_str()), Some("USB\\C"));
    assert!(node_by_devinst(&all, 9).is_none());
}

#[test]
fn native_roots_are_the_nearest_above() {
    let mut root = node(1, "USB\\X", "XUSB", None);
    root.xusb_interface = true;
    let transport = node(2, "USB\\X&T", "HIDClass", Some(1));
    let leaf = node(3, "USB\\X&IG_00", "HIDClass", Some(2));
    let all = [root.clone(), transport.clone(), leaf.clone()];
    assert_eq!(exact_xusb_root_devinst(&leaf, &all), Some(1));
    assert_eq!(exact_xusb_root_devinst(&root, &all), Some(1));
    assert!(xusb_companion_hint(&leaf));
    assert!(!xusb_companion_hint(&transport));
    let mut named = root.clone();
    named.xusb_interface = false;
    assert!(xusb_recovery_native(&named));
    let by_name = [named, leaf.clone()];
    assert_eq!(xusb_relation_root_devinst(&by_name[0], &by_name, false), None);
    assert_eq!(xusb_relation_root_devinst(&by_name[0], &by_name, true), Some(1));
    let mut hid = BTreeMap::new();
    assert!(related_unsafe_xusb_descendant(&root, &all, &hid, false));
    assert!(!related_unsafe_xusb_descendant(&root, &all, &hid, true));
    hid.insert(3, pad_evidence());
    assert!(has_verified_hid_descendant(&transport, &all, &hid));
    assert!(!related_unsafe_xusb_descendant(&root, &all, &hid, false));
    assert!(!related_mixed_hid_function(&root, &all, &hid));
    assert!(!related_observed_xusb_conflict(&root, &all, &hid));
    let mut mixed = pad_evidence();
    mixed.mark_inspection_failed();
    hid.insert(3, mixed);
    assert!(related_mixed_hid_function(&root, &all, &hid));
    assert!(related_observed_xusb_conflict(&root, &all, &hid));
}

// Rows.

#[test]
fn identifiers_and_fingerprints_have_their_known_values() {
    assert_eq!(hex_bytes("Aß"), "41C39F");
    assert_eq!(stable_id(" usb\\pad"), "windows-controller-5553425C504144");
    assert_ne!(stable_id("USB\\PAD"), stable_id("USB\\PAE"));
    assert_eq!(fnv64(0xcbf2_9ce4_8422_2325, b"foobar"), 0x85944171f73967e8);
    assert_eq!(
        fingerprint(&pad(), 1, 5),
        "windows-fingerprint-A48EBE1ADD5872C1A591F837ED89C6E6"
    );
}

#[test]
fn connections_are_told_up_the_line() {
    let mut radio = node(1, "BTHENUM\\X", "Bluetooth", None);
    radio.enumerator = "BTHENUM".to_owned();
    let mut child = node(2, "HID\\X", "HIDClass", Some(1));
    child.enumerator = "HID".to_owned();
    assert_eq!(connection_label(&child, &[radio.clone(), child.clone()]), "Bluetooth");
    assert_eq!(connection_label(&child, &[child.clone()]), "Other");
    assert_eq!(connection_label(&pad(), &[]), "USB");
    child.parent = Some(2);
    assert_eq!(connection_label(&child, &[child.clone()]), "Other");
}

#[test]
fn names_are_chosen_in_order() {
    let mut bare = pad();
    assert_eq!(display_name(&bare, 5, true), "Pad");
    bare.friendly_name = " Friendly ".to_owned();
    assert_eq!(display_name(&bare, 5, true), "Friendly");
    bare.friendly_name.clear();
    bare.description.clear();
    bare.manufacturer = "Maker".to_owned();
    assert_eq!(display_name(&bare, 5, true), "Maker");
    bare.manufacturer.clear();
    assert_eq!(display_name(&bare, 4, true), "HID joystick");
    assert_eq!(display_name(&bare, 5, true), "HID game pad");
    assert_eq!(display_name(&bare, 8, true), "HID multi-axis controller");
    assert_eq!(display_name(&bare, 9, true), "HID controller");
    assert_eq!(display_name(&bare, 0, false), "XUSB/XInput controller");
    assert_eq!(control_limitation(ControlCoverage::Full), None);
    assert!(control_limitation(ControlCoverage::HidOnly).is_some());
    assert!(control_limitation(ControlCoverage::Uncontrolled).is_some());
}

#[test]
fn an_inventory_lists_controllers_once_and_in_order() {
    let mut native = node(20, "USB\\XBOX", "XUSB", None);
    native.xusb_interface = false;
    let twin = node(8, PAD, "HIDClass", None);
    let mut hid = pad_hid();
    hid.insert(8, pad_evidence());
    hid.insert(99, pad_evidence());
    let mut devinsts = BTreeSet::new();
    devinsts.insert(20);
    let nodes = [native, pad(), twin];
    let inventory = scan_inventory(&nodes, &devinsts, &[], hid, vec!["kept".to_owned()])
        .expect("an inventory");
    let ids: Vec<&str> =
        inventory.records.iter().map(|r| r.identity.instance_id.as_str()).collect();
    assert_eq!(ids, [PAD, "USB\\XBOX"]);
    assert_eq!(
        inventory.errors,
        ["kept", "HID devnode 99 was not present in the all-class scan"]
    );
    assert!(inventory.nodes[0].xusb_interface);
    assert_eq!(inventory.records[1].identity.protocol, ControllerProtocol::Xusb);
    for record in &inventory.records {
        let located = locate_identity(&inventory, &record.identity).expect("located");
        assert_eq!(located.identity, record.identity);
        assert!(identity_shape_is_valid(&record.identity));
    }
    let broken = scan_inventory(
        &nodes,
        &devinsts,
        &["a".to_owned(), "b".to_owned()],
        BTreeMap::new(),
        Vec::new(),
    );
    assert_eq!(
        broken.expect_err("refused").describe(),
        "device operation failed: XUSB interface enumeration was not authoritative: a; b"
    );
}

#[test]
fn nodes_without_status_are_noted() {
    let mut blind = pad();
    blind.status_known = false;
    let mut native = node(20, "USB\\XBOX", "XUSB", None);
    native.status_known = false;
    let mut devinsts = BTreeSet::new();
    devinsts.insert(20);
    let inventory =
        scan_inventory(&[blind, native], &devinsts, &[], pad_hid(), Vec::new()).expect("scanned");
    assert!(inventory.records.is_empty());
    assert_eq!(
        inventory.errors,
        [
            "HID controller devnode 7 has no authoritative Configuration Manager status",
            "XUSB controller devnode 20 has no authoritative Configuration Manager status",
        ]
    );
}

#[test]
fn identities_are_located_or_refused() {
    let identity = pad_identity();
    let error = |inventory: &Inventory, identity: &VerifiedDevice| {
        locate_identity(inventory, identity).expect_err("refused")
    };
    let mut foreign = identity.clone();
    foreign.platform = "linux".to_owned();
    assert!(matches!(error(&on_inventory(), &foreign), PlatformError::VerificationFailed(_)));
    let empty = scan(&[], BTreeMap::new());
    assert!(matches!(error(&empty, &identity), PlatformError::NotFound(_)));
    let mut changed = identity.clone();
    changed.coverage = ControlCoverage::HidOnly;
    assert!(matches!(error(&on_inventory(), &changed), PlatformError::IdentityMismatch(_)));
    let blind = scan(&[pad()], BTreeMap::new());
    assert_eq!(
        error(&blind, &identity).describe(),
        format!(
            "device identity changed: {}: recovery requires an authoritative CM_PROB_DISABLED devnode",
            identity.stable_id
        )
    );
    let found = locate_identity(&off_inventory(), &identity).expect("reconstructed");
    assert_eq!(found.identity, identity);
    assert!(!found.device.state.enabled);
    let mut renamed = off(pad());
    renamed.service = "Other".to_owned();
    assert!(matches!(
        reconstructed_record(&renamed, &identity, &off_inventory()),
        Err(PlatformError::IdentityMismatch(_))
    ));
}

// Changing a function.

#[test]
fn property_errors_are_explained() {
    let told = |code: u32| property_change_error("change", code, &[]).describe();
    assert_eq!(
        told(5),
        "permission denied: change: Win32 error 5 (0x00000005); administrator permission is required to change this device"
    );
    assert!(told(1314).starts_with("permission denied: "));
    assert!(told(1223).ends_with("vetoed the property change"));
    assert!(told(995).ends_with("vetoed the property change"));
    assert!(told(87).starts_with("device operation failed: change: "));
}

#[test]
fn only_the_verified_node_is_changed() {
    let identity = pad_identity();
    let inventory = on_inventory();
    let step = |read: RawDevnode, devinst: u32, enabled: bool| {
        apply_property_change(read, &identity, devinst, &inventory.nodes, &inventory.hid, enabled)
    };
    assert!(matches!(step(pad(), 7, false), TargetStep::Change));
    assert!(matches!(step(pad(), 8, false), TargetStep::Pass));
    assert!(matches!(step(node(7, "USB\\B", "HIDClass", None), 7, false), TargetStep::Pass));
    let mut blind = pad();
    blind.status_known = false;
    assert!(matches!(
        step(blind, 7, false),
        TargetStep::Refuse(PlatformError::VerificationFailed(_))
    ));
    let mut renamed = pad();
    renamed.service = "Other".to_owned();
    assert!(matches!(
        step(renamed, 7, false),
        TargetStep::Refuse(PlatformError::IdentityMismatch(_))
    ));
    assert!(matches!(target_missing(&identity), PlatformError::NotFound(_)));
}

#[test]
fn changes_are_admitted_only_for_full_control() {
    let identity = pad_identity();
    assert!(admit_change(&identity, false).is_ok());
    let mut partial = identity.clone();
    partial.coverage = ControlCoverage::HidOnly;
    assert!(matches!(admit_change(&partial, false), Err(PlatformError::Unsupported(_))));
    assert!(admit_change(&partial, true).is_ok());
    let mut malformed = identity.clone();
    malformed.stable_id = "windows-controller-00".to_owned();
    assert!(matches!(admit_change(&malformed, true), Err(PlatformError::VerificationFailed(_))));
    let id = DeviceId(identity.stable_id.clone());
    assert!(admit_id(&id).is_ok());
    assert!(admit_id(&DeviceId("pad".to_owned())).is_err());
    assert!(admit_recovery(&id, &identity).is_ok());
    assert!(admit_recovery(&DeviceId("pad".to_owned()), &identity).is_err());
    let record = build_record(&pad(), &pad_evidence(), &[pad()], &pad_hid()).expect("a record");
    assert!(matches!(
        plan_change(&record, &record, &identity, false),
        Ok(ChangePlan::Change(7))
    ));
    assert!(matches!(plan_change(&record, &record, &identity, true), Ok(ChangePlan::Done(_))));
    let mut other = record.clone();
    other.node.instance = "USB\\OTHER".to_owned();
    assert!(plan_change(&record, &other, &identity, false).is_err());
}

#[test]
fn a_disable_is_looked_up_twice_changed_and_confirmed() {
    let identity = pad_identity();
    let mut platform = WindowsPlatform::new();
    let (stage, next) =
        platform.set_enabled(Stage::Looking, SwitchEvent::Requested, &identity, false);
    assert!(matches!(next, SwitchNext::Scan));
    let scanned = || SwitchEvent::Scanned(Ok(on_inventory()));
    let (stage, next) = platform.set_enabled(stage, scanned(), &identity, false);
    assert!(matches!(next, SwitchNext::Scan));
    let (stage, next) = platform.set_enabled(stage, scanned(), &identity, false);
    assert!(matches!(next, SwitchNext::Meet));
    let unread = SwitchEvent::Met(Err("no name".to_owned()));
    let (stage, next) = platform.set_enabled(stage, unread, &identity, false);
    assert!(matches!(next, SwitchNext::Meet));
    let (stage, next) =
        platform.set_enabled(stage, SwitchEvent::Met(Ok(pad())), &identity, false);
    assert!(matches!(next, SwitchNext::Change(2)));
    let (stage, next) =
        platform.set_enabled(stage, SwitchEvent::Changed(Ok(())), &identity, false);
    assert!(matches!(next, SwitchNext::Scan));
    let (stage, next) = platform.set_enabled(stage, scanned(), &identity, false);
    assert!(matches!(next, SwitchNext::PauseAndScan));
    let off_scan = || SwitchEvent::Scanned(Ok(off_inventory()));
    let (_, next) = platform.set_enabled(stage, off_scan(), &identity, false);
    let report = match next {
        SwitchNext::Done(Ok(report)) => report,
        other => panic!("{other:?}"),
    };
    assert_eq!(report.outcomes[0].confirmed_enabled, Some(false));
    assert!(report.outcomes[0].changed);
    assert_eq!(platform.disabled.entries.len(), 1);

    let shown = platform.enumerate_internal(&off_inventory()).expect("enumerated");
    assert_eq!(shown.devices.len(), 1);
    assert!(!shown.devices[0].state.enabled);
    let unplugged = scan(&[], BTreeMap::new());
    let shown = platform.enumerate_internal(&unplugged).expect("enumerated");
    assert_eq!(shown.devices[0].id.as_str(), identity.stable_id);
    let id = DeviceId(identity.stable_id.clone());
    assert_eq!(platform.resolve_verified(&id, &off_inventory()).ok(), Some(identity.clone()));
    assert_eq!(
        platform.resolve_verified_for_recovery(&id, &identity, &off_inventory()).ok(),
        Some(identity.clone())
    );

    let (stage, _) = platform.set_enabled(Stage::Looking, off_scan(), &identity, true);
    let (stage, next) = platform.set_enabled(stage, off_scan(), &identity, true);
    assert!(matches!(next, SwitchNext::Meet));
    let (stage, next) =
        platform.set_enabled(stage, SwitchEvent::Met(Ok(off(pad()))), &identity, true);
    assert!(matches!(next, SwitchNext::Change(1)));
    let (stage, _) = platform.set_enabled(stage, SwitchEvent::Changed(Ok(())), &identity, true);
    let (_, next) = platform.set_enabled(stage, scanned(), &identity, true);
    assert!(matches!(next, SwitchNext::Done(Ok(_))));
    assert!(platform.disabled.entries.is_empty());
}

#[test]
fn a_change_that_is_not_seen_is_not_believed() {
    let identity = pad_identity();
    let mut platform = WindowsPlatform::new();
    let record = || {
        build_record(&pad(), &pad_evidence(), &[pad()], &pad_hid()).expect("a record")
    };
    let scanned = || SwitchEvent::Scanned(Ok(on_inventory()));
    let mut stage = Stage::Confirming(record(), 0);
    let mut looks = 0;
    while !matches!(stage, Stage::Deferred(_)) {
        let (after, next) = platform.set_enabled(stage, scanned(), &identity, false);
        assert!(matches!(next, SwitchNext::PauseAndScan));
        stage = after;
        looks += 1;
    }
    assert_eq!(looks, 8);
    let (_, next) = platform.set_enabled(stage, scanned(), &identity, false);
    assert!(matches!(ended(next), PlatformError::VerificationFailed(_)));
    let mut waiting = pad();
    waiting.status |= DN_NEEDS_RESTART;
    let inventory = scan(&[waiting], pad_hid());
    assert!(node_needs_restart(&Some(scan(&[], BTreeMap::new())), &identity) == false);
    let deferred = SwitchEvent::Scanned(Ok(inventory));
    let (_, next) =
        platform.set_enabled(Stage::Deferred(record()), deferred, &identity, false);
    assert!(matches!(ended(next), PlatformError::OperationFailed(_)));
    assert!(platform.disabled.entries.is_empty());

    let changing = || Stage::Changing(record(), on_inventory());
    let end = SwitchEvent::ListEnded(ERROR_NO_MORE_ITEMS, Vec::new());
    let (_, next) = platform.set_enabled(changing(), end, &identity, false);
    assert!(matches!(ended(next), PlatformError::NotFound(_)));
    let end = SwitchEvent::ListEnded(5, Vec::new());
    let (_, next) = platform.set_enabled(changing(), end, &identity, false);
    assert!(matches!(ended(next), PlatformError::OperationFailed(_)));
    let failed = PlatformError::PermissionDenied("no".to_owned());
    let (_, next) =
        platform.set_enabled(changing(), SwitchEvent::Changed(Err(failed)), &identity, false);
    assert!(matches!(ended(next), PlatformError::PermissionDenied(_)));
    let lost = PlatformError::OperationFailed("scan".to_owned());
    let (_, next) =
        platform.set_enabled(Stage::Looking, SwitchEvent::Scanned(Err(lost)), &identity, false);
    assert!(matches!(ended(next), PlatformError::OperationFailed(_)));
}

#[test]
fn a_state_is_confirmed_by_a_fresh_look() {
    let identity = pad_identity();
    let seen = confirm_state(&Some(off_inventory()), &identity, false, 0);
    assert_eq!(seen, Confirmation::Confirmed);
    let seen = confirm_state(&Some(on_inventory()), &identity, false, 0);
    assert_eq!(seen, Confirmation::Again(1));
    assert_eq!(confirm_state(&None, &identity, false, 7), Confirmation::GaveUp);
    let seen = confirm_state(&Some(on_inventory()), &identity, true, 0);
    assert_eq!(seen, Confirmation::Confirmed);
}

#[test]
fn enumeration_notes_limits() {
    let mut native = node(20, "USB\\XBOX", "XUSB", None);
    native.description = "Xbox".to_owned();
    let unknown = node(21, "USB\\XBOX&X", "Vendor", Some(20));
    let mut devinsts = BTreeSet::new();
    devinsts.insert(20);
    let inventory =
        scan_inventory(&[native, unknown], &devinsts, &[], BTreeMap::new(), Vec::new())
            .expect("an inventory");
    let shown = WindowsPlatform::new().enumerate_internal(&inventory).expect("enumerated");
    assert_eq!(shown.devices[0].coverage, ControlCoverage::Uncontrolled);
    assert_eq!(shown.devices[0].problem_code, Some(7303));
    assert!(shown.errors[0].starts_with("Xbox (windows-controller-"));
    let mut marked = node(20, "USB\\XBOX", "XUSB", None);
    marked.xusb_interface = true;
    assert!(build_xusb_record(&marked, &[marked.clone()], &BTreeMap::new()).is_some());
    assert!(build_xusb_record(&pad(), &[pad()], &BTreeMap::new()).is_none());
}

#[test]
fn settings_that_do_not_open_are_told() {
    assert!(open_bluetooth_settings(33, 0).is_ok());
    assert_eq!(
        open_bluetooth_settings(-2, 1155).expect_err("refused").describe(),
        "could not open Bluetooth settings: ShellExecuteW(ms-settings:bluetooth) returned -2; Win32 error 1155 (0x00000483). Open Windows Settings > Bluetooth manually or repair the Settings app."
    );
}

#[test]
fn fingerprints_forget_case_space_and_order() {
    let mut other = pad();
    other.devinst = 99;
    other.instance = " usb\\pad ".to_owned();
    other.class_name = "\thidclass".to_owned();
    other.service = "HIDUSB ".to_owned();
    other.enumerator = "usb".to_owned();
    other.hardware_ids = vec!["A".to_owned(), "B".to_owned()];
    other.friendly_name = "Another".to_owned();
    let print = fingerprint(&pad(), 1, 5);
    assert_eq!(fingerprint(&other, 1, 5), print);
    let digits = print.strip_prefix("windows-fingerprint-").expect("the prefix");
    assert_eq!(digits.len(), 32);
    assert!(digits.chars().all(|c| c.is_ascii_digit() || ('A'..='F').contains(&c)));
    assert_ne!(fingerprint(&pad(), 1, 4), print);
}

#[test]
fn only_one_tree_of_collections_is_accepted() {
    let tree = [
        link(0, 2, 0, 1, 1, 5),
        link(0, 1, 3, 2, 0, 0),
        link(1, 0, 0, 0, 2, 0),
        link(0, 0, 0, 0, 0, 0),
    ];
    assert_eq!(classify_hid_collections(&tree, 1, 5), Ok(false));
    let mut wrong = tree;
    wrong[2].parent = 3;
    assert!(classify_hid_collections(&wrong, 1, 5).is_err());
    let mut wrong = tree;
    wrong[0].number_of_children = 1;
    assert!(classify_hid_collections(&wrong, 1, 5).is_err());
    let mut wrong = tree;
    wrong[3].next_sibling = 1;
    assert!(classify_hid_collections(&wrong, 1, 5).is_err());
    // Two elements that only hold each other.
    let island = [
        link(0, 0, 0, 0, 1, 5),
        link(2, 1, 0, 2, 0, 0),
        link(1, 1, 0, 1, 0, 0),
    ];
    assert!(classify_hid_collections(&island, 1, 5).is_err());
}

#[test]
fn nodes_are_switched_by_number() {
    assert_eq!(state_change(true), 1);
    assert_eq!(state_change(false), 2);
}
