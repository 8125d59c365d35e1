use controwly::devnode::{HidAggregate, RawDevnode, CM_PROB_DISABLED, DN_HAS_PROBLEM, DN_STARTED};
use controwly::inventory::{
    build_record, build_xusb_record, fingerprint, platform_device, stable_id, Inventory,
};
use controwly::link_collections::{
    classify_hid_collections, HidpLinkCollectionNode, COLLECTION_APPLICATION, COLLECTION_PHYSICAL,
    GENERIC_DESKTOP_PAGE, USAGE_GAME_PAD,
};
use controwly::locate::{locate_identity, reconstructed_record};
use controwly::platform::{ControlCoverage, ControllerProtocol, PlatformError, VerifiedDevice};
use controwly::windows::{mutation_plan, overlay_device, MutationPlan};
use controwly::xusb::{xusb_direct, xusb_related};
use std::collections::BTreeMap;

fn link_node(
    usage_page: u16,
    usage: u16,
    parent: u16,
    number_of_children: u16,
    next_sibling: u16,
    first_child: u16,
    collection_type: u8,
) -> HidpLinkCollectionNode {
    HidpLinkCollectionNode {
        link_usage: usage,
        link_usage_page: usage_page,
        parent,
        number_of_children,
        next_sibling,
        first_child,
        collection_type,
        is_alias: 0,
    }
}

fn xusb_identity(node: &RawDevnode, coverage: ControlCoverage) -> VerifiedDevice {
    VerifiedDevice {
        platform: "windows".to_owned(),
        stable_id: stable_id(&node.instance),
        instance_id: node.instance.clone(),
        fingerprint: fingerprint(node, 0, 0),
        protocol: ControllerProtocol::Xusb,
        coverage,
        usage_page: 0,
        usage: 0,
    }
}
fn raw(
    devinst: u32,
    instance: &str,
    class_name: &str,
    parent: Option<u32>,
    status: u32,
    problem: Option<i32>,
) -> RawDevnode {
    RawDevnode {
        devinst,
        instance: instance.to_owned(),
        class_name: class_name.to_owned(),
        service: String::new(),
        enumerator: "USB".to_owned(),
        hardware_ids: vec!["USB\\VID_1234&PID_5678".to_owned()],
        friendly_name: "Fixture controller".to_owned(),
        description: "Fixture controller".to_owned(),
        manufacturer: "Fixture".to_owned(),
        parent,
        xusb_interface: false,
        status,
        problem,
        status_known: true,
    }
}

fn hid_identity(node: &RawDevnode, coverage: ControlCoverage) -> VerifiedDevice {
    VerifiedDevice {
        platform: "windows".to_owned(),
        stable_id: stable_id(&node.instance),
        instance_id: node.instance.clone(),
        fingerprint: fingerprint(node, GENERIC_DESKTOP_PAGE, USAGE_GAME_PAD),
        protocol: ControllerProtocol::HidGamepad,
        coverage,
        usage_page: GENERIC_DESKTOP_PAGE,
        usage: USAGE_GAME_PAD,
    }
}
#[test]
fn nested_physical_pointer_is_not_a_second_top_level_collection() {
    let mut root = link_node(
        GENERIC_DESKTOP_PAGE,
        USAGE_GAME_PAD,
        0,
        1,
        0,
        1,
        COLLECTION_APPLICATION,
    );
    let child = link_node(GENERIC_DESKTOP_PAGE, 0x01, 0, 0, 0, 0, COLLECTION_PHYSICAL);
    root.number_of_children = 1;
    let mixed = classify_hid_collections(&[root, child], GENERIC_DESKTOP_PAGE, USAGE_GAME_PAD)
        .expect("well-formed nested physical collection");
    assert!(!mixed);
}

#[test]
fn nested_application_pointer_is_mixed() {
    let root = link_node(
        GENERIC_DESKTOP_PAGE,
        USAGE_GAME_PAD,
        0,
        1,
        0,
        1,
        COLLECTION_APPLICATION,
    );
    let child = link_node(
        GENERIC_DESKTOP_PAGE,
        0x01,
        0,
        0,
        0,
        0,
        COLLECTION_APPLICATION,
    );
    assert!(
        classify_hid_collections(&[root, child], GENERIC_DESKTOP_PAGE, USAGE_GAME_PAD,)
            .expect("well-formed nested application collection")
    );
}

#[test]
fn ig00_hid_companion_is_never_full() {
    let node = raw(
        10,
        "USB\\VID_1234&PID_5678&IG_00",
        "HIDClass",
        None,
        DN_STARTED,
        None,
    );
    let mut aggregate = HidAggregate::new();
    aggregate.add(GENERIC_DESKTOP_PAGE, USAGE_GAME_PAD, false);
    let record = build_record(&node, &aggregate, &[node.clone()], &BTreeMap::new())
        .expect("allowed HID fixture should be represented");
    assert_eq!(record.identity.coverage, ControlCoverage::Uncontrolled);
    assert!(!record.device.capabilities.full_control);
}

#[test]
fn failed_hid_inspection_blocks_full_record() {
    let node = raw(
        11,
        "USB\\VID_1234&PID_5678&MI_00",
        "HIDClass",
        None,
        DN_STARTED,
        None,
    );
    let mut aggregate = HidAggregate::new();
    aggregate.add(GENERIC_DESKTOP_PAGE, USAGE_GAME_PAD, false);
    aggregate.mark_inspection_failed();
    assert!(build_record(&node, &aggregate, std::slice::from_ref(&node), &BTreeMap::new())
        .is_none());
}

#[test]
fn only_exact_xusb_interface_evidence_is_native() {
    let mut native = raw(
        20,
        "USB\\VID_045E&PID_0B13&MI_00",
        "XUSB",
        Some(1),
        DN_STARTED,
        None,
    );
    native.xusb_interface = true;
    let companion = raw(
        21,
        "USB\\VID_045E&PID_0B13&IG_00",
        "HIDClass",
        Some(native.devinst),
        DN_STARTED,
        None,
    );
    let sibling = raw(
        22,
        "USB\\VID_045E&PID_0B13&MI_01",
        "HIDClass",
        Some(1),
        DN_STARTED,
        None,
    );
    let parent = raw(1, "USB\\VID_045E&PID_0B13", "USB", None, DN_STARTED, None);
    assert!(xusb_direct(&native));
    assert!(!xusb_direct(&companion));
    assert!(!xusb_direct(&parent));
    let related_nodes = [parent.clone(), native.clone(), companion.clone()];
    let related = xusb_related(&related_nodes[2], &related_nodes);
    assert_eq!(
        related
            .iter()
            .filter(|node| node.devinst == native.devinst)
            .count(),
        1
    );
    let unrelated_nodes = [parent, native, sibling];
    assert!(xusb_related(&unrelated_nodes[2], &unrelated_nodes).is_empty());
}

#[test]
fn native_xusb_row_is_full_with_verified_hid_descendant() {
    let mut native = raw(
        30,
        "USB\\VID_045E&PID_0B13&MI_00",
        "XUSB",
        Some(1),
        DN_STARTED,
        None,
    );
    native.xusb_interface = true;
    let transport = raw(
        31,
        "USB\\VID_045E&PID_0B13&HID_TRANSPORT",
        "HIDClass",
        Some(native.devinst),
        DN_STARTED,
        None,
    );
    let child = raw(
        32,
        "USB\\VID_045E&PID_0B13&IG_00",
        "HIDClass",
        Some(transport.devinst),
        DN_STARTED,
        None,
    );
    let mut hid = HidAggregate::new();
    hid.add(GENERIC_DESKTOP_PAGE, USAGE_GAME_PAD, false);
    let mut all_hid = BTreeMap::new();
    all_hid.insert(child.devinst, hid);
    let record = build_xusb_record(&native, &[native.clone(), transport, child], &all_hid)
        .expect("native XUSB function remains visible");
    assert_eq!(record.identity.coverage, ControlCoverage::Full);
}

#[test]
fn unknown_xusb_descendant_is_not_full_control() {
    let mut native = raw(
        32,
        "USB\\VID_045E&PID_0B13&MI_00",
        "XUSB",
        Some(1),
        DN_STARTED,
        None,
    );
    native.xusb_interface = true;
    let unknown = raw(
        33,
        "USB\\VID_045E&PID_0B13&UNKNOWN",
        "VendorFunction",
        Some(native.devinst),
        DN_STARTED,
        None,
    );
    let record = build_xusb_record(&native, &[native.clone(), unknown], &BTreeMap::new())
        .expect("native XUSB function remains visible");
    assert_eq!(record.identity.coverage, ControlCoverage::Uncontrolled);
}
#[test]
fn missing_active_hid_descendant_is_not_full_control() {
    let mut native = raw(
        34,
        "USB\\VID_045E&PID_0B13&MI_00",
        "XUSB",
        Some(1),
        DN_STARTED,
        None,
    );
    native.xusb_interface = true;
    let child = raw(
        35,
        "USB\\VID_045E&PID_0B13&IG_00",
        "HIDClass",
        Some(native.devinst),
        DN_STARTED,
        None,
    );
    let record = build_xusb_record(&native, &[native.clone(), child], &BTreeMap::new())
        .expect("native XUSB function remains visible");
    assert_eq!(record.identity.coverage, ControlCoverage::Uncontrolled);
}

#[test]
fn stopped_without_cm_disabled_is_not_administratively_disabled() {
    let stopped = raw(
        40,
        "USB\\VID_1234&PID_5678&MI_00",
        "HIDClass",
        None,
        0,
        None,
    );
    let disabled = raw(
        41,
        "USB\\VID_1234&PID_5678&MI_01",
        "HIDClass",
        None,
        DN_HAS_PROBLEM,
        Some(CM_PROB_DISABLED as i32),
    );
    assert!(!stopped.administratively_disabled());
    assert!(disabled.administratively_disabled());
    assert_eq!(mutation_plan(&stopped, false, false), Err(()));
    assert_eq!(
        mutation_plan(&stopped, true, false),
        Ok(MutationPlan::NativeChange)
    );
    assert_eq!(
        mutation_plan(&disabled, false, false),
        Ok(MutationPlan::Noop)
    );
}

#[test]
fn unknown_status_controller_is_not_actionable() {
    let mut unknown_hid = raw(
        36,
        "USB\\VID_1234&PID_5678&MI_00",
        "HIDClass",
        None,
        0,
        None,
    );
    unknown_hid.status_known = false;
    let mut hid = HidAggregate::new();
    hid.add(GENERIC_DESKTOP_PAGE, USAGE_GAME_PAD, false);
    assert!(
        build_record(&unknown_hid, &hid, std::slice::from_ref(&unknown_hid), &BTreeMap::new())
            .is_none()
    );

    let mut unknown_xusb = raw(37, "USB\\VID_045E&PID_0B13&MI_00", "XUSB", None, 0, None);
    unknown_xusb.status_known = false;
    unknown_xusb.xusb_interface = true;
    assert!(
        build_xusb_record(
            &unknown_xusb,
            std::slice::from_ref(&unknown_xusb),
            &BTreeMap::new()
        )
        .is_none()
    );
}

#[test]
fn cold_full_hid_recovery_ignores_sibling_and_parent_transport() {
    let transport = raw(
        49,
        "USB\\VID_1234&PID_5678&HID_TRANSPORT",
        "HIDClass",
        Some(1),
        DN_STARTED,
        None,
    );
    let node = raw(
        50,
        "USB\\VID_1234&PID_5678&MI_00",
        "HIDClass",
        Some(transport.devinst),
        DN_HAS_PROBLEM,
        Some(CM_PROB_DISABLED as i32),
    );
    let sibling = raw(
        51,
        "USB\\VID_1234&PID_5678&MI_01",
        "HIDClass",
        Some(1),
        DN_HAS_PROBLEM,
        Some(CM_PROB_DISABLED as i32),
    );
    let identity = hid_identity(&node, ControlCoverage::Full);
    let inventory = Inventory {
        nodes: vec![node.clone(), transport, sibling],
        hid: BTreeMap::new(),
        records: Vec::new(),
        errors: Vec::new(),
    };
    let record = reconstructed_record(&node, &identity, &inventory)
        .expect("the exact disabled HID TLC is recoverable");
    assert!(record.identity.same_hardware(&identity));
    assert!(!record.device.state.enabled);
}

#[test]
fn cold_full_xusb_recovery_restores_full_coverage_without_hid_handle() {
    let mut native = raw(
        60,
        "USB\\VID_045E&PID_0B13&MI_00",
        "XUSB",
        Some(1),
        DN_HAS_PROBLEM,
        Some(CM_PROB_DISABLED as i32),
    );
    native.xusb_interface = true;
    let child = raw(
        61,
        "USB\\VID_045E&PID_0B13&IG_00",
        "HIDClass",
        Some(native.devinst),
        DN_STARTED,
        None,
    );
    let identity = xusb_identity(&native, ControlCoverage::Full);
    let stale_projection =
        build_xusb_record(&native, &[native.clone(), child.clone()], &BTreeMap::new())
            .expect("disabled native XUSB row remains addressable");
    assert_eq!(stale_projection.identity.coverage, ControlCoverage::Full);
    let inventory = Inventory {
        nodes: vec![native.clone(), child],
        hid: BTreeMap::new(),
        records: vec![stale_projection],
        errors: Vec::new(),
    };
    let record = locate_identity(&inventory, &identity)
        .expect("disabled XUSB identity is reconstructed before coverage comparison");
    assert_eq!(record.identity.coverage, ControlCoverage::Full);
    assert!(!record.device.state.enabled);
}

#[test]
fn cold_full_xusb_recovery_rejects_explicit_keyboard_without_hid_aggregate() {
    let mut native = raw(
        62,
        "USB\\VID_045E&PID_0B13&MI_00",
        "XUSB",
        Some(1),
        DN_HAS_PROBLEM,
        Some(CM_PROB_DISABLED as i32),
    );
    native.xusb_interface = true;
    let keyboard = raw(
        63,
        "USB\\VID_045E&PID_0B13&KEYBOARD",
        "Keyboard",
        Some(native.devinst),
        DN_STARTED,
        None,
    );
    let identity = xusb_identity(&native, ControlCoverage::Full);
    let inventory = Inventory {
        nodes: vec![native.clone(), keyboard],
        hid: BTreeMap::new(),
        records: Vec::new(),
        errors: Vec::new(),
    };
    let result = reconstructed_record(&native, &identity, &inventory);
    assert!(matches!(result, Err(PlatformError::IdentityMismatch(_))));
}
#[test]
fn disabled_snapshot_replaces_same_id_dynamic_projection() {
    let mut native = raw(
        70,
        "USB\\VID_045E&PID_0B13&MI_00",
        "XUSB",
        Some(1),
        DN_HAS_PROBLEM,
        Some(CM_PROB_DISABLED as i32),
    );
    native.xusb_interface = true;
    let nodes = vec![native.clone()];
    let stale = platform_device(
        &native,
        xusb_identity(&native, ControlCoverage::Uncontrolled),
        false,
        &nodes,
    )
    .expect("known disabled node has an authoritative state");
    let replacement = platform_device(
        &native,
        xusb_identity(&native, ControlCoverage::Full),
        false,
        &nodes,
    )
    .expect("known disabled node has an authoritative state");
    let mut devices = vec![stale];
    overlay_device(&mut devices, replacement);
    assert_eq!(devices.len(), 1);
    assert_eq!(devices[0].coverage, ControlCoverage::Full);
}
