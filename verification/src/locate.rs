//! How a Windows identity is found again in a fresh inventory.
use crate::devnode::{
    composite_parent, hid_function, switched_off, AggregateModel, NodeModel, RawDevnode,
};
use crate::family::opt_node;
use crate::inventory::{
    fingerprint, found, platform_device, print_of, shown_id, stable_id, ControllerRecord,
    FoundModel, Inventory, InventoryModel,
};
use crate::interfaces::evidence;
use crate::link_collections::{allowed_usage, is_allowed_usage};
use crate::platform::{
    platform_result, same_device, valid, ControlCoverage, ControllerProtocol, ErrorModel,
    PlatformError, VerifiedDevice, VerifiedModel,
};
use crate::sorting::views;
use crate::text::{joined3, same};
use crate::wide_text::{normal, normalized};
use crate::xusb::{
    companion_name, conflicts, native, native_by_name, related, related_observed_xusb_conflict,
    xusb_companion_hint, xusb_direct, xusb_recovery_native, xusb_related,
};
use vstd::prelude::*;

verus! {

/// The identity is one that a scan can have made.
pub open spec fn shape_ok(identity: VerifiedModel) -> bool {
    &&& identity.platform == "windows"@
    &&& valid(identity)
    &&& allowed_usage(identity.usage_page, identity.usage) || (identity.protocol
        == ControllerProtocol::Xusb && identity.usage_page == 0 && identity.usage == 0)
    &&& identity.stable_id == shown_id(identity.instance_id)
}

pub fn identity_shape_is_valid(identity: &VerifiedDevice) -> (r: bool)
    ensures
        r == shape_ok(identity@),
{
    let usage_valid = is_allowed_usage(identity.usage_page, identity.usage) || (identity.protocol
        == ControllerProtocol::Xusb && identity.usage_page == 0 && identity.usage == 0);
    same(identity.platform.as_str(), "windows") && identity.is_valid() && usage_valid && same(
        identity.stable_id.as_str(),
        stable_id(identity.instance_id.as_str()).as_str(),
    )
}

pub open spec fn mismatch(identity: VerifiedModel, message: Seq<char>) -> ErrorModel {
    ErrorModel::IdentityMismatch(identity.stable_id + ": "@ + message)
}

pub(crate) fn mismatched(identity: &VerifiedDevice, message: &str) -> (r: PlatformError)
    ensures
        r@ == mismatch(identity@, message@),
{
    PlatformError::IdentityMismatch(joined3(identity.stable_id.as_str(), ": ", message))
}

/// The identity of a native function that was under full control.
pub open spec fn full_native_target(node: NodeModel, identity: VerifiedModel) -> bool {
    identity.protocol == ControllerProtocol::Xusb && identity.coverage == ControlCoverage::Full
        && native_by_name(node)
}

/// Why a disabled node is not the one on record, if it is not.
pub open spec fn recovery_problem(
    node: NodeModel,
    identity: VerifiedModel,
    nodes: Seq<NodeModel>,
    hid: Map<u32, AggregateModel>,
) -> Option<Seq<char>> {
    let behind = related(node, nodes).len() > 0;
    let target = full_native_target(node, identity);
    let detected = if behind || target {
        ControllerProtocol::Xusb
    } else {
        ControllerProtocol::HidGamepad
    };
    if !switched_off(node) {
        Some("recovery requires an authoritative CM_PROB_DISABLED devnode"@)
    } else if print_of(node, identity.usage_page, identity.usage) != identity.fingerprint {
        Some("immutable Windows function properties changed"@)
    } else if composite_parent(node) {
        Some("persisted identity resolves to a USB composite parent"@)
    } else if identity.protocol == ControllerProtocol::HidGamepad && identity.coverage
        == ControlCoverage::Full && companion_name(node) {
        Some("IG_00 HID companion lacks exact XUSB interface evidence"@)
    } else if detected != identity.protocol {
        Some("controller protocol evidence changed"@)
    } else if identity.protocol == ControllerProtocol::Xusb {
        match identity.coverage {
            ControlCoverage::Full => if !target {
                Some("exact XUSB function is no longer safely identifiable"@)
            } else if conflicts(node, nodes, hid) {
                Some("observed XUSB descendant evidence is no longer controller-only"@)
            } else {
                None
            },
            ControlCoverage::HidOnly => if !hid_function(node) || !behind {
                Some("persisted partial XUSB identity lost its validated HID/XUSB pair"@)
            } else {
                None
            },
            ControlCoverage::Uncontrolled => if !native(node) {
                Some("persisted XUSB identity is not the exact XUSB function devnode"@)
            } else {
                None
            },
        }
    } else if !hid_function(node) {
        Some("persisted HID identity no longer resolves to its exact HID function"@)
    } else {
        None
    }
}

/// The record of a disabled node, from the identity that was kept of it.
pub open spec fn reconstructed(
    node: NodeModel,
    identity: VerifiedModel,
    nodes: Seq<NodeModel>,
    hid: Map<u32, AggregateModel>,
) -> Result<FoundModel, ErrorModel> {
    match recovery_problem(node, identity, nodes, hid) {
        Some(message) => Err(mismatch(identity, message)),
        None => match found(node, identity, hid_function(node), nodes) {
            Some(record) => Ok(record),
            None => Err(
                ErrorModel::VerificationFailed(
                    identity.stable_id
                        + ": authoritative status disappeared during identity reconstruction"@,
                ),
            ),
        },
    }
}

pub fn reconstructed_record(
    node: &RawDevnode,
    identity: &VerifiedDevice,
    inventory: &Inventory,
) -> (r: Result<ControllerRecord, PlatformError>)
    ensures
        platform_result(r) == reconstructed(
            node@,
            identity@,
            inventory@.nodes,
            inventory@.hid,
        ),
{
    if !node.administratively_disabled() {
        return Err(
            mismatched(identity, "recovery requires an authoritative CM_PROB_DISABLED devnode"),
        );
    }
    if !same(
        fingerprint(node, identity.usage_page, identity.usage).as_str(),
        identity.fingerprint.as_str(),
    ) {
        return Err(mismatched(identity, "immutable Windows function properties changed"));
    }
    if node.is_composite_parent() {
        return Err(mismatched(identity, "persisted identity resolves to a USB composite parent"));
    }
    if identity.protocol == ControllerProtocol::HidGamepad && identity.coverage
        == ControlCoverage::Full && xusb_companion_hint(node) {
        return Err(
            mismatched(identity, "IG_00 HID companion lacks exact XUSB interface evidence"),
        );
    }
    let related_xusb = xusb_related(node, inventory.nodes.as_slice());
    let behind = related_xusb.len() > 0;
    assert(crate::xusb::ref_views(related_xusb@).len() == related_xusb@.len());
    let target = identity.protocol == ControllerProtocol::Xusb && identity.coverage
        == ControlCoverage::Full && xusb_recovery_native(node);
    let detected = if behind || target {
        ControllerProtocol::Xusb
    } else {
        ControllerProtocol::HidGamepad
    };
    if detected != identity.protocol {
        return Err(mismatched(identity, "controller protocol evidence changed"));
    }
    if identity.protocol == ControllerProtocol::Xusb {
        match identity.coverage {
            ControlCoverage::Full => {
                if !target {
                    return Err(
                        mismatched(
                            identity,
                            "exact XUSB function is no longer safely identifiable",
                        ),
                    );
                }
                if related_observed_xusb_conflict(
                    node,
                    inventory.nodes.as_slice(),
                    &inventory.hid,
                ) {
                    return Err(
                        mismatched(
                            identity,
                            "observed XUSB descendant evidence is no longer controller-only",
                        ),
                    );
                }
            },
            ControlCoverage::HidOnly => {
                if !node.is_hid_function() || !behind {
                    return Err(
                        mismatched(
                            identity,
                            "persisted partial XUSB identity lost its validated HID/XUSB pair",
                        ),
                    );
                }
            },
            ControlCoverage::Uncontrolled => {
                if !xusb_direct(node) {
                    return Err(
                        mismatched(
                            identity,
                            "persisted XUSB identity is not the exact XUSB function devnode",
                        ),
                    );
                }
            },
        }
    } else if !node.is_hid_function() {
        return Err(
            mismatched(
                identity,
                "persisted HID identity no longer resolves to its exact HID function",
            ),
        );
    }
    match platform_device(
        node,
        identity.copy(),
        node.is_hid_function(),
        inventory.nodes.as_slice(),
    ) {
        Some(device) => Ok(
            ControllerRecord { node: node.copy(), identity: identity.copy(), device },
        ),
        None => Err(
            PlatformError::VerificationFailed(
                crate::text::joined(
                    identity.stable_id.as_str(),
                    ": authoritative status disappeared during identity reconstruction",
                ),
            ),
        ),
    }
}

/// The first node of an instance.
pub open spec fn find_instance(nodes: Seq<NodeModel>, instance: Seq<char>) -> Option<NodeModel>
    decreases nodes.len(),
{
    if nodes.len() == 0 {
        None
    } else if nodes[0].instance == instance {
        Some(nodes[0])
    } else {
        find_instance(nodes.skip(1), instance)
    }
}

pub(crate) fn node_by_instance<'a>(nodes: &'a [RawDevnode], instance: &str) -> (r: Option<
    &'a RawDevnode,
>)
    ensures
        opt_node(r) == find_instance(views(nodes@), instance@),
{
    let mut i: usize = 0;
    assert(views(nodes@).skip(0) == views(nodes@));
    while i < nodes.len()
        invariant
            i <= nodes@.len(),
            find_instance(views(nodes@).skip(i as int), instance@) == find_instance(
                views(nodes@),
                instance@,
            ),
        decreases nodes@.len() - i,
    {
        assert(views(nodes@).skip(i as int)[0] == nodes@[i as int]@);
        if same(nodes[i].instance.as_str(), instance) {
            return Some(&nodes[i]);
        }
        assert(views(nodes@).skip(i as int).skip(1) == views(nodes@).skip(i + 1));
        i += 1;
    }
    assert(views(nodes@).skip(i as int).len() == 0);
    None
}

/// The first record with an identifier.
pub open spec fn find_record(records: Seq<FoundModel>, id: Seq<char>) -> Option<FoundModel>
    decreases records.len(),
{
    if records.len() == 0 {
        None
    } else if records[0].identity.stable_id == id {
        Some(records[0])
    } else {
        find_record(records.skip(1), id)
    }
}

fn record_by_id<'a>(records: &'a [ControllerRecord], id: &str) -> (r: Option<
    &'a ControllerRecord,
>)
    ensures
        (match r {
            Some(record) => Some(record@),
            None => None,
        }) == find_record(views(records@), id@),
{
    let mut i: usize = 0;
    assert(views(records@).skip(0) == views(records@));
    while i < records.len()
        invariant
            i <= records@.len(),
            find_record(views(records@).skip(i as int), id@) == find_record(
                views(records@),
                id@,
            ),
        decreases records@.len() - i,
    {
        assert(views(records@).skip(i as int)[0] == records@[i as int]@);
        if same(records[i].identity.stable_id.as_str(), id) {
            return Some(&records[i]);
        }
        assert(views(records@).skip(i as int).skip(1) == views(records@).skip(i + 1));
        i += 1;
    }
    assert(views(records@).skip(i as int).len() == 0);
    None
}

/// Finds an identity in a fresh inventory.  A disabled function may have lost
/// its live companions, so a full identity is first sought in the disabled
/// node itself.
pub open spec fn located(inventory: InventoryModel, identity: VerifiedModel) -> Result<
    FoundModel,
    ErrorModel,
> {
    if !shape_ok(identity) {
        Err(
            ErrorModel::VerificationFailed(
                "malformed or cross-platform Windows controller identity"@,
            ),
        )
    } else {
        match find_instance(inventory.nodes, normal(identity.instance_id)) {
            None => Err(ErrorModel::NotFound(identity.stable_id)),
            Some(node) => {
                let known = find_record(inventory.records, identity.stable_id);
                if (identity.coverage == ControlCoverage::Full && switched_off(node)) || known
                    is None {
                    reconstructed(node, identity, inventory.nodes, inventory.hid)
                } else if same_device(known->0.identity, identity) {
                    Ok(known->0)
                } else {
                    Err(
                        mismatch(
                            identity,
                            "fresh HID evidence does not match the verified identity"@,
                        ),
                    )
                }
            },
        }
    }
}

pub fn locate_identity(inventory: &Inventory, identity: &VerifiedDevice) -> (r: Result<
    ControllerRecord,
    PlatformError,
>)
    ensures
        platform_result(r) == located(inventory@, identity@),
{
    if !identity_shape_is_valid(identity) {
        return Err(
            PlatformError::VerificationFailed(
                "malformed or cross-platform Windows controller identity".to_owned(),
            ),
        );
    }
    let instance = normalized(identity.instance_id.as_str());
    let node = match node_by_instance(inventory.nodes.as_slice(), instance.as_str()) {
        Some(node) => node,
        None => {
            return Err(PlatformError::NotFound(identity.stable_id.clone()));
        },
    };
    if identity.coverage == ControlCoverage::Full && node.administratively_disabled() {
        return reconstructed_record(node, identity, inventory);
    }
    match record_by_id(inventory.records.as_slice(), identity.stable_id.as_str()) {
        Some(record) => {
            if !record.identity.same_hardware(identity) {
                return Err(
                    mismatched(
                        identity,
                        "fresh HID evidence does not match the verified identity",
                    ),
                );
            }
            Ok(record.copy())
        },
        None => reconstructed_record(node, identity, inventory),
    }
}

/// What is located is the identity that was sought, not a similar one.
pub proof fn located_is_the_identity_sought(inventory: InventoryModel, identity: VerifiedModel)
    ensures
        located(inventory, identity) matches Ok(record) ==> record.identity == identity
            && shape_ok(identity),
{
}

/// A record is reconstructed only of a node that someone switched off and whose
/// immutable properties are those on record.
pub proof fn only_switched_off_nodes_are_reconstructed(
    node: NodeModel,
    identity: VerifiedModel,
    nodes: Seq<NodeModel>,
    hid: Map<u32, AggregateModel>,
)
    ensures
        reconstructed(node, identity, nodes, hid) matches Ok(record) ==> {
            &&& switched_off(node)
            &&& !record.device.enabled
            &&& record.node == node
            &&& print_of(node, identity.usage_page, identity.usage) == identity.fingerprint
            &&& !composite_parent(node)
        },
{
}

} // verus!
