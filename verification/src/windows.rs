//! Switching controllers on and off on Windows.
//!
//! The system calls are made elsewhere; the functions here decide what is
//! called and what is reported, from the inventories that were read.
use crate::devnode::{
    composite_parent, hid_function, switched_off, AggregateModel, HidAggregate, NodeModel,
    RawDevnode, DN_NEEDS_RESTART,
};
use crate::family::{find_node, node_by_devinst};
use crate::interfaces::evidence;
use crate::inventory::{
    control_limitation, fingerprint, limitation, print_of, ControllerRecord, FoundModel,
    Inventory, InventoryModel,
};
use crate::locate::{
    find_instance, identity_shape_is_valid, locate_identity, located, mismatch, mismatched,
    node_by_instance, shape_ok,
};
use crate::ordered::{lookup, put, without, Ordered};
use crate::platform::{
    confirmed_report, error_message, platform_result, same_device, unit_result, verified_of,
    ControlCoverage,
    ControllerProtocol, DeviceId, DeviceModel, DeviceState, EnumerationReport, ErrorModel,
    MutationReport, OutcomeModel, PlatformDevice, PlatformError, ReportModel, VerifiedDevice,
    VerifiedModel,
};
use crate::sorting::{lemma_sorted_views, precedence, sort, sorted_by, views};
use crate::text::{
    byte_len, decimal, decimal_of, has_prefix, joined, joined3, same, starts_with, texts,
    upper_hex, upper_hex_of, utf8_len,
};
use crate::wide_text::{error_text, format_error_code};
use crate::xusb::{
    endangers, native, native_by_name, related_unsafe_xusb_descendant, xusb_direct,
    xusb_recovery_native,
};
use std::collections::BTreeMap;
use vstd::prelude::*;

verus! {

pub const ERROR_ACCESS_DENIED: u32 = 5;

pub const ERROR_OPERATION_ABORTED: u32 = 995;

pub const ERROR_CANCELLED: u32 = 1223;

pub const ERROR_PRIVILEGE_NOT_HELD: u32 = 1314;

pub const ERROR_REBOOT_REQUIRED: u32 = 3010;

/// How often a new state is looked for.
pub const MAX_CONFIRMATIONS: u8 = 8;

/// The most bytes that an identifier may have.
pub const MAX_ID_BYTES: usize = 1024;

// Planning.
#[derive(Clone, Copy, Debug, PartialEq, Eq, Structural)]
pub enum MutationPlan {
    Noop,
    NativeChange,
}

/// Nothing is to do where the state is the one requested, but a node that merely
/// stopped does not count as disabled.
pub open spec fn planned(node: NodeModel, current: bool, requested: bool) -> Result<
    MutationPlan,
    (),
> {
    if current != requested {
        Ok(MutationPlan::NativeChange)
    } else if !requested && !switched_off(node) {
        Err(())
    } else {
        Ok(MutationPlan::Noop)
    }
}

pub fn mutation_plan(
    node: &RawDevnode,
    current_enabled: bool,
    requested_enabled: bool,
) -> (r: Result<MutationPlan, ()>)
    ensures
        r == planned(node@, current_enabled, requested_enabled),
{
    if current_enabled == requested_enabled {
        if !requested_enabled && !node.administratively_disabled() {
            return Err(());
        }
        return Ok(MutationPlan::Noop);
    }
    Ok(MutationPlan::NativeChange)
}

// The property change.
pub open spec fn change_error(context: Seq<char>, code: u32, detail: Seq<u16>) -> ErrorModel {
    let message = error_text(context, code, detail);
    if code == ERROR_ACCESS_DENIED || code == ERROR_PRIVILEGE_NOT_HELD {
        ErrorModel::PermissionDenied(
            message + "; administrator permission is required to change this device"@,
        )
    } else if code == ERROR_CANCELLED || code == ERROR_OPERATION_ABORTED {
        ErrorModel::OperationFailed(
            message
                + "; the device or another system component vetoed the property change"@,
        )
    } else if code == ERROR_REBOOT_REQUIRED {
        ErrorModel::OperationFailed(
            message
                + "; Windows requires a restart before the requested state can be confirmed"@,
        )
    } else {
        ErrorModel::OperationFailed(message)
    }
}

/// `code` is the error of the call named by `context`, `detail` what the system
/// says of it.
pub fn property_change_error(context: &str, code: u32, detail: &[u16]) -> (r: PlatformError)
    ensures
        r@ == change_error(context@, code, detail@),
{
    let message = format_error_code(context, code, detail);
    if code == ERROR_ACCESS_DENIED || code == ERROR_PRIVILEGE_NOT_HELD {
        PlatformError::PermissionDenied(
            joined(
                message.as_str(),
                "; administrator permission is required to change this device",
            ),
        )
    } else if code == ERROR_CANCELLED || code == ERROR_OPERATION_ABORTED {
        PlatformError::OperationFailed(
            joined(
                message.as_str(),
                "; the device or another system component vetoed the property change",
            ),
        )
    } else if code == ERROR_REBOOT_REQUIRED {
        PlatformError::OperationFailed(
            joined(
                message.as_str(),
                "; Windows requires a restart before the requested state can be confirmed",
            ),
        )
    } else {
        PlatformError::OperationFailed(message)
    }
}

/// What is done with a node that is met on the way to the target.
#[derive(Debug)]
pub enum TargetStep {
    /// It is another node.
    Pass,
    /// It is the target, and its property is changed.
    Change,
    Refuse(PlatformError),
}

pub enum TargetModel {
    Pass,
    Change,
    Refuse(ErrorModel),
}

impl View for TargetStep {
    type V = TargetModel;

    open spec fn view(&self) -> TargetModel {
        match self {
            TargetStep::Pass => TargetModel::Pass,
            TargetStep::Change => TargetModel::Change,
            TargetStep::Refuse(e) => TargetModel::Refuse(e@),
        }
    }
}

/// A node that was just read, with the interface that the inventory lists for
/// its number.
pub open spec fn as_listed(node: NodeModel, nodes: Seq<NodeModel>) -> NodeModel {
    NodeModel {
        xusb_interface: match find_node(nodes, node.devinst) {
            Some(listed) => listed.xusb_interface,
            None => false,
        },
        ..node
    }
}

/// The node is the kind of function that the identity stands for.
pub open spec fn fits(node: NodeModel, identity: VerifiedModel, enabled: bool) -> bool {
    match (identity.protocol, identity.coverage) {
        (ControllerProtocol::HidGamepad, _) => hid_function(node),
        (ControllerProtocol::Xusb, ControlCoverage::Full) => native(node) || (enabled
            && native_by_name(node)),
        (ControllerProtocol::Xusb, ControlCoverage::HidOnly) => hid_function(node),
        (ControllerProtocol::Xusb, ControlCoverage::Uncontrolled) => native(node),
    }
}

pub open spec fn target_step(
    read: NodeModel,
    identity: VerifiedModel,
    devinst: u32,
    nodes: Seq<NodeModel>,
    hid: Map<u32, AggregateModel>,
    enabled: bool,
) -> TargetModel {
    let node = as_listed(read, nodes);
    if node.devinst != devinst || node.instance != identity.instance_id {
        TargetModel::Pass
    } else if !node.status_known {
        TargetModel::Refuse(
            ErrorModel::VerificationFailed(
                identity.stable_id
                    + ": Configuration Manager could not provide an authoritative target status"@,
            ),
        )
    } else if print_of(node, identity.usage_page, identity.usage) != identity.fingerprint {
        TargetModel::Refuse(
            mismatch(identity, "function identity changed before property change"@),
        )
    } else if composite_parent(node) {
        TargetModel::Refuse(mismatch(identity, "refusing to mutate a USB composite parent"@))
    } else if !fits(node, identity, enabled) {
        TargetModel::Refuse(
            mismatch(
                identity,
                "verified identity does not resolve to its expected HID/XUSB function"@,
            ),
        )
    } else if !enabled && identity.protocol == ControllerProtocol::Xusb && identity.coverage
        == ControlCoverage::Full && endangers(node, nodes, hid, false) {
        TargetModel::Refuse(
            mismatch(
                identity,
                "a keyboard, mouse, mixed, or unknown HID companion prevents safe XUSB disable"@,
            ),
        )
    } else {
        TargetModel::Change
    }
}

fn does_fit(node: &RawDevnode, identity: &VerifiedDevice, enabled: bool) -> (r: bool)
    ensures
        r == fits(node@, identity@, enabled),
{
    match (identity.protocol, identity.coverage) {
        (ControllerProtocol::HidGamepad, _) => node.is_hid_function(),
        (ControllerProtocol::Xusb, ControlCoverage::Full) => xusb_direct(node) || (enabled
            && xusb_recovery_native(node)),
        (ControllerProtocol::Xusb, ControlCoverage::HidOnly) => node.is_hid_function(),
        (ControllerProtocol::Xusb, ControlCoverage::Uncontrolled) => xusb_direct(node),
    }
}

/// Decides about one node while the system lists them again before the change.
pub fn apply_property_change(
    read: RawDevnode,
    identity: &VerifiedDevice,
    expected_devinst: u32,
    all_nodes: &[RawDevnode],
    all_hid: &BTreeMap<u32, HidAggregate>,
    enabled: bool,
) -> (r: TargetStep)
    ensures
        r@ == target_step(
            read@,
            identity@,
            expected_devinst,
            views(all_nodes@),
            evidence(all_hid@),
            enabled,
        ),
{
    let mut node = read;
    node.xusb_interface = match node_by_devinst(all_nodes, node.devinst) {
        Some(listed) => listed.xusb_interface,
        None => false,
    };
    assert(node@ == as_listed(read@, views(all_nodes@)));
    if node.devinst != expected_devinst || !same(
        node.instance.as_str(),
        identity.instance_id.as_str(),
    ) {
        return TargetStep::Pass;
    }
    if !node.status_known {
        return TargetStep::Refuse(
            PlatformError::VerificationFailed(
                joined(
                    identity.stable_id.as_str(),
                    ": Configuration Manager could not provide an authoritative target status",
                ),
            ),
        );
    }
    if !same(
        fingerprint(&node, identity.usage_page, identity.usage).as_str(),
        identity.fingerprint.as_str(),
    ) {
        return TargetStep::Refuse(
            mismatched(identity, "function identity changed before property change"),
        );
    }
    if node.is_composite_parent() {
        return TargetStep::Refuse(
            mismatched(identity, "refusing to mutate a USB composite parent"),
        );
    }
    if !does_fit(&node, identity, enabled) {
        return TargetStep::Refuse(
            mismatched(
                identity,
                "verified identity does not resolve to its expected HID/XUSB function",
            ),
        );
    }
    if !enabled && identity.protocol == ControllerProtocol::Xusb && identity.coverage
        == ControlCoverage::Full && related_unsafe_xusb_descendant(
        &node,
        all_nodes,
        all_hid,
        false,
    ) {
        return TargetStep::Refuse(
            mismatched(
                identity,
                "a keyboard, mouse, mixed, or unknown HID companion prevents safe XUSB disable",
            ),
        );
    }
    TargetStep::Change
}

/// What is reported when no listed node was the target.
pub fn target_missing(identity: &VerifiedDevice) -> (r: PlatformError)
    ensures
        r@ == ErrorModel::NotFound(
            identity@.stable_id
                + ": exact function devnode disappeared before property change"@,
        ),
{
    PlatformError::NotFound(
        joined(
            identity.stable_id.as_str(),
            ": exact function devnode disappeared before property change",
        ),
    )
}

/// A change is made only to the very function of the identity: same number, same
/// instance, unchanged properties, never a composite parent; and a native
/// function is switched off only if nothing else hangs on it.
pub proof fn only_the_verified_function_is_changed(
    read: NodeModel,
    identity: VerifiedModel,
    devinst: u32,
    nodes: Seq<NodeModel>,
    hid: Map<u32, AggregateModel>,
    enabled: bool,
)
    requires
        target_step(read, identity, devinst, nodes, hid, enabled) is Change,
    ensures
        read.devinst == devinst,
        read.instance == identity.instance_id,
        read.status_known,
        print_of(read, identity.usage_page, identity.usage) == identity.fingerprint,
        !composite_parent(read),
        !enabled && identity.protocol == ControllerProtocol::Xusb && identity.coverage
            == ControlCoverage::Full ==> !endangers(as_listed(read, nodes), nodes, hid, false),
{
    assert(composite_parent(as_listed(read, nodes)) == composite_parent(read));
}

// Confirmation.
/// A change waits for a restart.
pub open spec fn restart_pending(inventory: InventoryModel, identity: VerifiedModel) -> bool {
    match find_instance(inventory.nodes, identity.instance_id) {
        Some(node) => node.status & DN_NEEDS_RESTART != 0,
        None => false,
    }
}

/// `inventory` is a fresh scan, where there was one.
pub fn node_needs_restart(inventory: &Option<Inventory>, identity: &VerifiedDevice) -> (r: bool)
    ensures
        r == (match *inventory {
            Some(inventory) => restart_pending(inventory@, identity@),
            None => false,
        }),
{
    match inventory {
        Some(inventory) => match node_by_instance(
            inventory.nodes.as_slice(),
            identity.instance_id.as_str(),
        ) {
            Some(node) => node.status & DN_NEEDS_RESTART != 0,
            None => false,
        },
        None => false,
    }
}

/// The inventory shows the identity in the expected state.
pub open spec fn shows(inventory: InventoryModel, identity: VerifiedModel, enabled: bool) -> bool {
    match located(inventory, identity) {
        Ok(record) => record.node.status_known && (enabled || switched_off(record.node))
            && record.device.enabled == enabled,
        Err(_) => false,
    }
}

#[derive(Clone, Copy, Debug, PartialEq, Eq, Structural)]
pub enum Confirmation {
    Confirmed,
    /// Look again after a pause; so many looks were made.
    Again(u8),
    GaveUp,
}

pub open spec fn confirmation(
    inventory: Option<Inventory>,
    identity: VerifiedModel,
    enabled: bool,
    looks: u8,
) -> Confirmation {
    match inventory {
        Some(inventory) => if shows(inventory@, identity, enabled) {
            Confirmation::Confirmed
        } else if looks + 1 < MAX_CONFIRMATIONS {
            Confirmation::Again((looks + 1) as u8)
        } else {
            Confirmation::GaveUp
        },
        None => if looks + 1 < MAX_CONFIRMATIONS {
            Confirmation::Again((looks + 1) as u8)
        } else {
            Confirmation::GaveUp
        },
    }
}

/// One look at a fresh inventory, where the scan gave one, after `looks` others.
pub fn confirm_state(
    inventory: &Option<Inventory>,
    identity: &VerifiedDevice,
    expected_enabled: bool,
    looks: u8,
) -> (r: Confirmation)
    ensures
        r == confirmation(*inventory, identity@, expected_enabled, looks),
{
    match inventory {
        Some(inventory) => match locate_identity(inventory, identity) {
            Ok(record) => if record.node.status_known && (expected_enabled
                || record.node.administratively_disabled()) && record.device.state.enabled
                == expected_enabled {
                return Confirmation::Confirmed;
            },
            Err(_) => {},
        },
        None => {},
    }
    if looks < MAX_CONFIRMATIONS - 1 {
        Confirmation::Again(looks + 1)
    } else {
        Confirmation::GaveUp
    }
}

/// A disabled controller counts as such only if someone switched its node off.
pub proof fn confirmed_disable_is_a_switched_off_node(
    inventory: InventoryModel,
    identity: VerifiedModel,
)
    requires
        shows(inventory, identity, false),
    ensures
        located(inventory, identity) matches Ok(record) && switched_off(record.node)
            && record.identity == identity && !record.device.enabled,
{
}

// The rows of an enumeration.
/// Where a device with an identifier stands, or the end.
pub open spec fn row_of(devices: Seq<DeviceModel>, id: Seq<char>) -> nat
    decreases devices.len(),
{
    if devices.len() == 0 || devices[0].id == id {
        0
    } else {
        1 + row_of(devices.skip(1), id)
    }
}

proof fn lemma_row_of(devices: Seq<DeviceModel>, id: Seq<char>, at: int)
    requires
        0 <= at <= devices.len(),
        forall|i: int| 0 <= i < at ==> (#[trigger] devices[i]).id != id,
        at < devices.len() ==> devices[at].id == id,
    ensures
        row_of(devices, id) == at,
    decreases at,
{
    if at > 0 {
        assert(devices[0].id != id);
        let rest = devices.skip(1);
        assert forall|i: int| 0 <= i < at - 1 implies (#[trigger] rest[i]).id != id by {
            assert(rest[i] == devices[i + 1]);
        }
        lemma_row_of(rest, id, at - 1);
    }
}

fn find_row(devices: &[PlatformDevice], id: &str) -> (r: usize)
    ensures
        r == row_of(views(devices@), id@),
        r <= devices@.len(),
        r < devices@.len() ==> devices@[r as int].id@ == id@,
        forall|i: int| 0 <= i < r ==> (#[trigger] devices@[i]).id@ != id@,
{
    let mut i: usize = 0;
    while i < devices.len() && !same(devices[i].id.as_str(), id)
        invariant
            i <= devices@.len(),
            forall|j: int| 0 <= j < i ==> (#[trigger] devices@[j]).id@ != id@,
        decreases devices@.len() - i,
    {
        i += 1;
    }
    proof {
        assert forall|j: int| 0 <= j < i implies (#[trigger] views(devices@)[j]).id != id@ by {
            assert(views(devices@)[j] == devices@[j]@);
        }
        assert(i < devices@.len() ==> views(devices@)[i as int] == devices@[i as int]@);
        lemma_row_of(views(devices@), id@, i as int);
    }
    i
}

/// The devices with a row replaced, or added at the end.
pub open spec fn overlaid(devices: Seq<DeviceModel>, replacement: DeviceModel) -> Seq<DeviceModel> {
    let at = row_of(devices, replacement.id) as int;
    if at < devices.len() {
        devices.update(at, replacement)
    } else {
        devices.push(replacement)
    }
}

pub fn overlay_device(devices: &mut Vec<PlatformDevice>, replacement: PlatformDevice)
    ensures
        views(final(devices)@) == overlaid(views(old(devices)@), replacement@),
{
    let ghost before = views(devices@);
    let at: usize = find_row(devices.as_slice(), replacement.id.as_str());
    if at < devices.len() {
        devices.set(at, replacement);
        assert(views(devices@) == before.update(at as int, replacement@));
    } else {
        devices.push(replacement);
        assert(views(devices@) == before.push(replacement@));
    }
}

pub open spec fn distinct_ids(devices: Seq<DeviceModel>) -> bool {
    forall|i: int, j: int|
        0 <= i < j < devices.len() ==> (#[trigger] devices[i]).id != (#[trigger] devices[j]).id
}

proof fn lemma_row_bounds(devices: Seq<DeviceModel>, id: Seq<char>)
    ensures
        row_of(devices, id) <= devices.len(),
        row_of(devices, id) < devices.len() ==> devices[row_of(devices, id) as int].id == id,
        forall|i: int| 0 <= i < row_of(devices, id) ==> (#[trigger] devices[i]).id != id,
    decreases devices.len(),
{
    if devices.len() > 0 && devices[0].id != id {
        let rest = devices.skip(1);
        lemma_row_bounds(rest, id);
        assert forall|i: int| 0 <= i < row_of(devices, id) implies (#[trigger] devices[i]).id
            != id by {
            if i > 0 {
                assert(rest[i - 1] == devices[i]);
            }
        }
        if row_of(devices, id) < devices.len() {
            assert(rest[row_of(rest, id) as int] == devices[row_of(devices, id) as int]);
        }
    }
}

/// An overlay gives the identifier exactly one row, which is the replacement,
/// and leaves the other rows alone.
pub proof fn an_overlay_keeps_one_row_per_identifier(
    devices: Seq<DeviceModel>,
    replacement: DeviceModel,
)
    requires
        distinct_ids(devices),
    ensures
        distinct_ids(overlaid(devices, replacement)),
        overlaid(devices, replacement).contains(replacement),
        forall|i: int|
            0 <= i < devices.len() && (#[trigger] devices[i]).id != replacement.id ==> overlaid(
                devices,
                replacement,
            ).contains(devices[i]),
{
    let at = row_of(devices, replacement.id) as int;
    let after = overlaid(devices, replacement);
    lemma_row_bounds(devices, replacement.id);
    assert(after[at] == replacement);
    assert forall|i: int, j: int| 0 <= i < j < after.len() implies (#[trigger] after[i]).id != (
    #[trigger] after[j]).id by {
        if i < devices.len() && j < devices.len() {
            assert(devices[i].id != devices[j].id);
        }
    }
    assert forall|i: int|
        0 <= i < devices.len() && (#[trigger] devices[i]).id
            != replacement.id implies after.contains(devices[i]) by {
        assert(after[i] == devices[i]);
    }
}

/// What is kept of a controller that this process switched off.
#[derive(Clone, Debug)]
pub struct DisabledSnapshot {
    pub device: PlatformDevice,
}

impl View for DisabledSnapshot {
    type V = DeviceModel;

    open spec fn view(&self) -> DeviceModel {
        self.device@
    }
}

#[derive(Clone, Debug)]
pub struct WindowsPlatform {
    pub disabled: Ordered<DisabledSnapshot>,
}

impl View for WindowsPlatform {
    type V = Seq<(Seq<char>, DeviceModel)>;

    open spec fn view(&self) -> Seq<(Seq<char>, DeviceModel)> {
        self.disabled@
    }
}

/// The rows so far, and what was noted.
pub struct Overlay {
    pub devices: Seq<DeviceModel>,
    pub errors: Seq<Seq<char>>,
}

/// One snapshot laid over the rows of a fresh inventory: the disabled node is
/// located anew, and a node that is gone keeps the row it had.
pub open spec fn with_snapshot(
    rows: Overlay,
    id: Seq<char>,
    snapshot: DeviceModel,
    inventory: InventoryModel,
) -> Result<Overlay, ErrorModel> {
    match verified_of(snapshot) {
        Err(e) => Err(e),
        Ok(expected) => match find_instance(inventory.nodes, expected.instance_id) {
            Some(node) => if switched_off(node) {
                match located(inventory, expected) {
                    Ok(record) => Ok(
                        Overlay { devices: overlaid(rows.devices, record.device), ..rows },
                    ),
                    Err(e) => Ok(
                        Overlay {
                            errors: rows.errors.push(
                                id + ": persisted disabled identity was not overlaid: "@
                                    + error_message(e),
                            ),
                            ..rows
                        },
                    ),
                }
            } else {
                Ok(rows)
            },
            None => if row_of(rows.devices, id) < rows.devices.len() {
                Ok(rows)
            } else {
                Ok(Overlay { devices: rows.devices.push(snapshot), ..rows })
            },
        },
    }
}

pub open spec fn with_snapshots(
    rows: Overlay,
    disabled: Seq<(Seq<char>, DeviceModel)>,
    inventory: InventoryModel,
) -> Result<Overlay, ErrorModel>
    decreases disabled.len(),
{
    if disabled.len() == 0 {
        Ok(rows)
    } else {
        match with_snapshots(rows, disabled.drop_last(), inventory) {
            Err(e) => Err(e),
            Ok(rows) => with_snapshot(rows, disabled.last().0, disabled.last().1, inventory),
        }
    }
}

/// The limitations of the devices, in their order.
pub open spec fn limitations(errors: Seq<Seq<char>>, devices: Seq<DeviceModel>) -> Seq<Seq<char>>
    decreases devices.len(),
{
    if devices.len() == 0 {
        errors
    } else {
        let before = limitations(errors, devices.drop_last());
        let device = devices.last();
        match limitation(device.coverage) {
            Some(text) => before.push(device.name + " ("@ + device.id + "): "@ + text),
            None => before,
        }
    }
}

pub open spec fn record_devices(records: Seq<FoundModel>) -> Seq<DeviceModel> {
    records.map_values(|r: FoundModel| r.device)
}

pub open spec fn enumerated(
    disabled: Seq<(Seq<char>, DeviceModel)>,
    inventory: InventoryModel,
) -> Result<ReportModel, ErrorModel> {
    let rows = Overlay { devices: record_devices(inventory.records), errors: inventory.errors };
    match with_snapshots(rows, disabled, inventory) {
        Err(e) => Err(e),
        Ok(rows) => Ok(
            ReportModel {
                devices: sorted_by(rows.devices, crate::controller::device_order()),
                errors: limitations(rows.errors, rows.devices),
            },
        ),
    }
}

fn devices_of(records: &[ControllerRecord]) -> (r: Vec<PlatformDevice>)
    ensures
        views(r@) == record_devices(views(records@)),
{
    let ghost goal = record_devices(views(records@));
    let mut out: Vec<PlatformDevice> = Vec::new();
    let mut i: usize = 0;
    assert(views(out@) == goal.take(0));
    while i < records.len()
        invariant
            i <= records@.len(),
            goal == record_devices(views(records@)),
            views(out@) == goal.take(i as int),
        decreases records@.len() - i,
    {
        let ghost before = views(out@);
        let device = records[i].device.copy();
        out.push(device);
        assert(views(out@) == before.push(device@));
        assert(goal[i as int] == device@);
        i += 1;
    }
    assert(views(out@) == goal);
    out
}

fn overlay_snapshot(
    devices: &mut Vec<PlatformDevice>,
    errors: &mut Vec<String>,
    id: &str,
    snapshot: &DisabledSnapshot,
    inventory: &Inventory,
) -> (r: Result<(), PlatformError>)
    ensures
        match (
            r,
            with_snapshot(
                Overlay { devices: views(old(devices)@), errors: texts(old(errors)@) },
                id@,
                snapshot@,
                inventory@,
            ),
        ) {
            (Ok(_), Ok(after)) => after.devices == views(final(devices)@) && after.errors
                == texts(final(errors)@),
            (Err(e), Err(m)) => e@ == m,
            _ => false,
        },
{
    let expected = match snapshot.device.verified() {
        Ok(expected) => expected,
        Err(error) => {
            return Err(error);
        },
    };
    match node_by_instance(inventory.nodes.as_slice(), expected.instance_id.as_str()) {
        Some(node) => {
            if node.administratively_disabled() {
                match locate_identity(inventory, expected) {
                    Ok(record) => {
                        overlay_device(devices, record.device);
                    },
                    Err(error) => {
                        let note = joined3(
                            id,
                            ": persisted disabled identity was not overlaid: ",
                            error.describe().as_str(),
                        );
                        let ghost before = texts(errors@);
                        errors.push(note);
                        assert(texts(errors@) == before.push(note@));
                    },
                }
            }
        },
        None => {
            if find_row(devices.as_slice(), id) >= devices.len() {
                let device = snapshot.device.copy();
                let ghost before = views(devices@);
                devices.push(device);
                assert(views(devices@) == before.push(device@));
            }
        },
    }
    Ok(())
}

fn note_limitations(errors: &mut Vec<String>, devices: &[PlatformDevice])
    ensures
        texts(final(errors)@) == limitations(texts(old(errors)@), views(devices@)),
{
    let ghost start = texts(errors@);
    let ghost list = views(devices@);
    let mut i: usize = 0;
    assert(list.take(0).len() == 0);
    while i < devices.len()
        invariant
            i <= devices@.len(),
            list == views(devices@),
            texts(errors@) == limitations(start, list.take(i as int)),
        decreases devices@.len() - i,
    {
        let device = &devices[i];
        proof {
            assert(list.take(i + 1).drop_last() == list.take(i as int));
            assert(list.take(i + 1).last() == device@);
        }
        match control_limitation(device.coverage) {
            Some(text) => {
                let mut note = joined3(device.name.as_str(), " (", device.id.as_str());
                note.append("): ");
                note.append(text);
                let ghost before = texts(errors@);
                errors.push(note);
                assert(texts(errors@) == before.push(note@));
            },
            None => {},
        }
        i += 1;
    }
    assert(list.take(i as int) == list);
}

impl WindowsPlatform {
    pub open spec fn wf(&self) -> bool {
        self.disabled.wf()
    }

    pub fn new() -> (r: Self)
        ensures
            r.wf(),
            r@ == Seq::<(Seq<char>, DeviceModel)>::empty(),
    {
        WindowsPlatform { disabled: Ordered::new() }
    }

    /// The devices of a fresh inventory, with what this process switched off.
    pub fn enumerate_internal(&self, inventory: &Inventory) -> (r: Result<
        EnumerationReport,
        PlatformError,
    >)
        ensures
            platform_result(r) == enumerated(self@, inventory@),
    {
        let mut devices = devices_of(inventory.records.as_slice());
        let mut errors = crate::text::copy_list(inventory.errors.as_slice());
        let ghost start = Overlay { devices: views(devices@), errors: texts(errors@) };
        let ghost entries = self@;
        let mut i: usize = 0;
        assert(entries.take(0).len() == 0);
        while i < self.disabled.entries.len()
            invariant
                i <= self.disabled.entries@.len(),
                entries == self@,
                start == (Overlay {
                    devices: record_devices(inventory@.records),
                    errors: inventory@.errors,
                }),
                with_snapshots(start, entries.take(i as int), inventory@) == Ok::<
                    Overlay,
                    ErrorModel,
                >(Overlay { devices: views(devices@), errors: texts(errors@) }),
            decreases self.disabled.entries@.len() - i,
        {
            let entry = &self.disabled.entries[i];
            proof {
                assert(entries.take(i + 1).drop_last() == entries.take(i as int));
                assert(entries.take(i + 1).last() == (entry.0@, entry.1@));
            }
            match overlay_snapshot(
                &mut devices,
                &mut errors,
                entry.0.as_str(),
                &entry.1,
                inventory,
            ) {
                Ok(_) => {},
                Err(error) => {
                    proof {
                        lemma_snapshots_fail(start, entries, inventory@, i + 1, error@);
                    }
                    return Err(error);
                },
            }
            i += 1;
        }
        assert(entries.take(i as int) == entries);
        note_limitations(&mut errors, devices.as_slice());
        proof {
            lemma_sorted_views(
                devices@,
                precedence::<PlatformDevice>(),
                crate::controller::device_order(),
            );
        }
        let devices = sort(devices);
        Ok(EnumerationReport { devices, errors })
    }
}

proof fn lemma_snapshots_fail(
    rows: Overlay,
    disabled: Seq<(Seq<char>, DeviceModel)>,
    inventory: InventoryModel,
    n: int,
    error: ErrorModel,
)
    requires
        0 <= n <= disabled.len(),
        with_snapshots(rows, disabled.take(n), inventory) == Err::<Overlay, ErrorModel>(error),
    ensures
        with_snapshots(rows, disabled, inventory) == Err::<Overlay, ErrorModel>(error),
    decreases disabled.len() - n,
{
    if n == disabled.len() {
        assert(disabled.take(n) == disabled);
    } else {
        assert(disabled.take(n + 1).drop_last() == disabled.take(n));
        lemma_snapshots_fail(rows, disabled, inventory, n + 1, error);
    }
}

// Resolving.
pub open spec fn id_ok(id: Seq<char>) -> bool {
    utf8_len(id) <= MAX_ID_BYTES && starts_with(id, "windows-controller-"@)
}

pub open spec fn malformed_id() -> ErrorModel {
    ErrorModel::VerificationFailed("malformed Windows controller ID"@)
}

/// Whether an identifier can be that of a controller at all.
pub fn admit_id(id: &DeviceId) -> (r: Result<(), PlatformError>)
    ensures
        match r {
            Ok(_) => id_ok(id@),
            Err(e) => !id_ok(id@) && e@ == malformed_id(),
        },
{
    if byte_len(id.as_str()) > MAX_ID_BYTES || !has_prefix(id.as_str(), "windows-controller-") {
        return Err(PlatformError::VerificationFailed("malformed Windows controller ID".to_owned()));
    }
    Ok(())
}

/// The first record that is shown under an identifier.
pub open spec fn shown_record(records: Seq<FoundModel>, id: Seq<char>) -> Option<FoundModel>
    decreases records.len(),
{
    if records.len() == 0 {
        None
    } else if records[0].device.id == id {
        Some(records[0])
    } else {
        shown_record(records.skip(1), id)
    }
}

fn record_shown_as<'a>(records: &'a [ControllerRecord], id: &str) -> (r: Option<
    &'a ControllerRecord,
>)
    ensures
        (match r {
            Some(record) => Some(record@),
            None => None,
        }) == shown_record(views(records@), id@),
{
    let mut i: usize = 0;
    assert(views(records@).skip(0) == views(records@));
    while i < records.len()
        invariant
            i <= records@.len(),
            shown_record(views(records@).skip(i as int), id@) == shown_record(
                views(records@),
                id@,
            ),
        decreases records@.len() - i,
    {
        assert(views(records@).skip(i as int)[0] == records@[i as int]@);
        if same(records[i].device.id.as_str(), id) {
            return Some(&records[i]);
        }
        assert(views(records@).skip(i as int).skip(1) == views(records@).skip(i + 1));
        i += 1;
    }
    assert(views(records@).skip(i as int).len() == 0);
    None
}

pub open spec fn located_identity(inventory: InventoryModel, identity: VerifiedModel) -> Result<
    VerifiedModel,
    ErrorModel,
> {
    match located(inventory, identity) {
        Ok(record) => Ok(record.identity),
        Err(e) => Err(e),
    }
}

/// The inventory has the node of an identity, and someone switched it off.
pub open spec fn node_is_off(inventory: InventoryModel, identity: VerifiedModel) -> bool {
    match find_instance(inventory.nodes, identity.instance_id) {
        Some(node) => switched_off(node),
        None => false,
    }
}

/// The verified identity under an identifier: that of a snapshot whose node is
/// still switched off, else that of a row, else that of a snapshot.
pub open spec fn resolved(
    disabled: Seq<(Seq<char>, DeviceModel)>,
    id: Seq<char>,
    inventory: InventoryModel,
) -> Result<VerifiedModel, ErrorModel> {
    if !id_ok(id) {
        Err(malformed_id())
    } else {
        match lookup(disabled, id) {
            None => match shown_record(inventory.records, id) {
                Some(record) => Ok(record.identity),
                None => Err(ErrorModel::NotFound(id)),
            },
            Some(snapshot) => match verified_of(snapshot) {
                Err(e) => Err(e),
                Ok(expected) => if node_is_off(inventory, expected) {
                    located_identity(inventory, expected)
                } else {
                    match shown_record(inventory.records, id) {
                        Some(record) => Ok(record.identity),
                        None => located_identity(inventory, expected),
                    }
                },
            },
        }
    }
}

fn locate_for(inventory: &Inventory, identity: &VerifiedDevice) -> (r: Result<
    VerifiedDevice,
    PlatformError,
>)
    ensures
        platform_result(r) == located_identity(inventory@, identity@),
{
    match locate_identity(inventory, identity) {
        Ok(record) => Ok(record.identity),
        Err(error) => Err(error),
    }
}

/// A fresh identity for a recovery.
pub open spec fn recovered(
    id: Seq<char>,
    expected: VerifiedModel,
    inventory: InventoryModel,
) -> Result<VerifiedModel, ErrorModel> {
    match recovery_admitted(id, expected) {
        Err(e) => Err(e),
        Ok(_) => match located(inventory, expected) {
            Err(e) => Err(e),
            Ok(record) => if record.device.id != id || !same_device(record.identity, expected) {
                Err(
                    ErrorModel::IdentityMismatch(
                        id
                            + ": fresh recovery identity does not match persisted Windows hardware"@,
                    ),
                )
            } else {
                Ok(record.identity)
            },
        },
    }
}

pub open spec fn recovery_admitted(id: Seq<char>, expected: VerifiedModel) -> Result<
    (),
    ErrorModel,
> {
    if id != expected.stable_id {
        Err(
            ErrorModel::IdentityMismatch(
                id + ": recovery command ID does not match persisted identity"@,
            ),
        )
    } else if !shape_ok(expected) {
        Err(
            ErrorModel::VerificationFailed(
                "malformed or cross-platform Windows recovery identity"@,
            ),
        )
    } else {
        Ok(())
    }
}

/// Whether a recovery may look for its identity.
pub fn admit_recovery(id: &DeviceId, expected: &VerifiedDevice) -> (r: Result<(), PlatformError>)
    ensures
        unit_result(r) == recovery_admitted(id@, expected@),
{
    if !same(id.as_str(), expected.stable_id.as_str()) {
        return Err(
            PlatformError::IdentityMismatch(
                joined(
                    id.as_str(),
                    ": recovery command ID does not match persisted identity",
                ),
            ),
        );
    }
    if !identity_shape_is_valid(expected) {
        return Err(
            PlatformError::VerificationFailed(
                "malformed or cross-platform Windows recovery identity".to_owned(),
            ),
        );
    }
    Ok(())
}

// Switching.
pub open spec fn change_admitted(identity: VerifiedModel, enabled: bool) -> Result<
    (),
    ErrorModel,
> {
    if !shape_ok(identity) {
        Err(
            ErrorModel::VerificationFailed(
                "malformed or cross-platform Windows controller identity"@,
            ),
        )
    } else if !enabled && identity.coverage != ControlCoverage::Full {
        Err(
            ErrorModel::Unsupported(
                "refusing destructive disable: HID-only or ambiguous coverage leaves the XInput/XUSB path live"@,
            ),
        )
    } else {
        Ok(())
    }
}

/// Whether a switch may look for its identity.
pub fn admit_change(identity: &VerifiedDevice, enabled: bool) -> (r: Result<(), PlatformError>)
    ensures
        unit_result(r) == change_admitted(identity@, enabled),
{
    if !identity_shape_is_valid(identity) {
        return Err(
            PlatformError::VerificationFailed(
                "malformed or cross-platform Windows controller identity".to_owned(),
            ),
        );
    }
    if !enabled && identity.coverage != ControlCoverage::Full {
        return Err(
            PlatformError::Unsupported(
                "refusing destructive disable: HID-only or ambiguous coverage leaves the XInput/XUSB path live".to_owned(),
            ),
        );
    }
    Ok(())
}

/// What a switch does after both looks at the system.
#[derive(Debug)]
pub enum ChangePlan {
    /// The controller is in the requested state.
    Done(MutationReport),
    /// The property of the node with this number is changed.
    Change(u32),
}

pub enum ChangeModel {
    Done(Seq<OutcomeModel>),
    Change(u32),
}

impl View for ChangePlan {
    type V = ChangeModel;

    open spec fn view(&self) -> ChangeModel {
        match self {
            ChangePlan::Done(report) => ChangeModel::Done(report@),
            ChangePlan::Change(devinst) => ChangeModel::Change(*devinst),
        }
    }
}

pub open spec fn change_planned(
    first: FoundModel,
    current: FoundModel,
    identity: VerifiedModel,
    enabled: bool,
) -> Result<ChangeModel, ErrorModel> {
    match change_admitted(identity, enabled) {
        Err(e) => Err(e),
        Ok(_) => if !same_device(first.identity, current.identity) || first.node.instance
            != current.node.instance {
            Err(mismatch(identity, "function identity changed during revalidation"@))
        } else if !current.node.status_known {
            Err(
                ErrorModel::VerificationFailed(
                    identity.stable_id
                        + ": Configuration Manager could not provide an authoritative devnode status"@,
                ),
            )
        } else {
            match planned(current.node, current.device.enabled, enabled) {
                Err(_) => Err(
                    ErrorModel::VerificationFailed(
                        identity.stable_id
                            + ": stopped state is not confirmed by CM_PROB_DISABLED; refusing to record a disable"@,
                    ),
                ),
                Ok(MutationPlan::Noop) => Ok(
                    ChangeModel::Done(confirmed_report(identity.stable_id, enabled, false)),
                ),
                Ok(MutationPlan::NativeChange) => if !enabled && (
                !current.device.capabilities.full_control || current.identity.coverage
                    != ControlCoverage::Full) {
                    Err(
                        ErrorModel::Unsupported(
                            "refusing destructive disable: the exact controller function is not fully controllable"@,
                        ),
                    )
                } else {
                    Ok(ChangeModel::Change(current.node.devinst))
                },
            }
        },
    }
}

/// `first` and `current` are what two looks at the system, one right after the
/// other, located for the identity.
pub fn plan_change(
    first: &ControllerRecord,
    current: &ControllerRecord,
    identity: &VerifiedDevice,
    enabled: bool,
) -> (r: Result<ChangePlan, PlatformError>)
    ensures
        platform_result(r) == change_planned(first@, current@, identity@, enabled),
{
    match admit_change(identity, enabled) {
        Ok(_) => {},
        Err(error) => {
            return Err(error);
        },
    }
    if !first.identity.same_hardware(&current.identity) || !same(
        first.node.instance.as_str(),
        current.node.instance.as_str(),
    ) {
        return Err(mismatched(identity, "function identity changed during revalidation"));
    }
    if !current.node.status_known {
        return Err(
            PlatformError::VerificationFailed(
                joined(
                    identity.stable_id.as_str(),
                    ": Configuration Manager could not provide an authoritative devnode status",
                ),
            ),
        );
    }
    match mutation_plan(&current.node, current.device.state.enabled, enabled) {
        Err(_) => {
            return Err(
                PlatformError::VerificationFailed(
                    joined(
                        identity.stable_id.as_str(),
                        ": stopped state is not confirmed by CM_PROB_DISABLED; refusing to record a disable",
                    ),
                ),
            );
        },
        Ok(MutationPlan::Noop) => {
            return Ok(
                ChangePlan::Done(
                    MutationReport::confirmed(
                        DeviceId(identity.stable_id.clone()),
                        enabled,
                        false,
                    ),
                ),
            );
        },
        Ok(MutationPlan::NativeChange) => {},
    }
    if !enabled && (!current.device.capabilities.full_control || current.identity.coverage
        != ControlCoverage::Full) {
        return Err(
            PlatformError::Unsupported(
                "refusing destructive disable: the exact controller function is not fully controllable".to_owned(),
            ),
        );
    }
    Ok(ChangePlan::Change(current.node.devinst))
}

/// Only a controller under full control is switched off, and one whose node
/// merely stopped is never reported as disabled.
pub proof fn disabling_needs_full_control(
    first: FoundModel,
    current: FoundModel,
    identity: VerifiedModel,
)
    ensures
        change_planned(first, current, identity, false) matches Ok(ChangeModel::Change(devinst))
            ==> {
            &&& identity.coverage == ControlCoverage::Full
            &&& current.identity.coverage == ControlCoverage::Full
            &&& current.device.capabilities.full_control
            &&& current.device.enabled
            &&& devinst == current.node.devinst
        },
        change_planned(first, current, identity, false) matches Ok(ChangeModel::Done(_))
            ==> switched_off(current.node) && !current.device.enabled,
{
}

/// How a change ended.
pub open spec fn change_result(
    identity: VerifiedModel,
    enabled: bool,
    confirmed: bool,
    needs_restart: bool,
) -> Result<Seq<OutcomeModel>, ErrorModel> {
    if confirmed {
        Ok(
            seq![
                OutcomeModel {
                    id: identity.stable_id,
                    requested_enabled: enabled,
                    confirmed_enabled: Some(enabled),
                    changed: true,
                    error: limitation(identity.coverage),
                },
            ],
        )
    } else if needs_restart {
        Err(
            ErrorModel::OperationFailed(
                identity.stable_id
                    + ": Windows deferred the property change; a restart is required before the requested state is active"@,
            ),
        )
    } else {
        Err(
            ErrorModel::VerificationFailed(
                identity.stable_id
                    + ": Windows reported the property change but fresh status confirmation failed"@,
            ),
        )
    }
}

/// What is kept of the controllers that are switched off.
pub open spec fn snapshots_after(
    disabled: Seq<(Seq<char>, DeviceModel)>,
    identity: VerifiedModel,
    enabled: bool,
    device: DeviceModel,
    confirmed: bool,
) -> Seq<(Seq<char>, DeviceModel)> {
    if !confirmed {
        disabled
    } else if enabled {
        without(disabled, identity.stable_id)
    } else {
        put(disabled, identity.stable_id, (DeviceModel { enabled: false, ..device }))
    }
}

impl WindowsPlatform {
    pub fn resolve_verified(&self, id: &DeviceId, inventory: &Inventory) -> (r: Result<
        VerifiedDevice,
        PlatformError,
    >)
        requires
            self.wf(),
        ensures
            platform_result(r) == resolved(self@, id@, inventory@),
    {
        match admit_id(id) {
            Ok(_) => {},
            Err(error) => {
                return Err(error);
            },
        }
        match self.disabled.get(id.as_str()) {
            Some(snapshot) => {
                let expected = match snapshot.device.verified() {
                    Ok(expected) => expected,
                    Err(error) => {
                        return Err(error);
                    },
                };
                let off = match node_by_instance(
                    inventory.nodes.as_slice(),
                    expected.instance_id.as_str(),
                ) {
                    Some(node) => node.administratively_disabled(),
                    None => false,
                };
                if off {
                    return locate_for(inventory, expected);
                }
                match record_shown_as(inventory.records.as_slice(), id.as_str()) {
                    Some(record) => Ok(record.identity.copy()),
                    None => locate_for(inventory, expected),
                }
            },
            None => match record_shown_as(inventory.records.as_slice(), id.as_str()) {
                Some(record) => Ok(record.identity.copy()),
                None => Err(PlatformError::NotFound(id.as_str().to_owned())),
            },
        }
    }

    pub fn resolve_verified_for_recovery(
        &self,
        id: &DeviceId,
        expected: &VerifiedDevice,
        inventory: &Inventory,
    ) -> (r: Result<VerifiedDevice, PlatformError>)
        ensures
            platform_result(r) == recovered(id@, expected@, inventory@),
    {
        match admit_recovery(id, expected) {
            Ok(_) => {},
            Err(error) => {
                return Err(error);
            },
        }
        match locate_identity(inventory, expected) {
            Err(error) => Err(error),
            Ok(fresh) => {
                if !same(fresh.device.id.as_str(), id.as_str()) || !fresh.identity.same_hardware(
                    expected,
                ) {
                    return Err(
                        PlatformError::IdentityMismatch(
                            joined(
                                id.as_str(),
                                ": fresh recovery identity does not match persisted Windows hardware",
                            ),
                        ),
                    );
                }
                Ok(fresh.identity)
            },
        }
    }

    /// Ends a change of the controller that was shown as `device`; `confirmed`
    /// says whether the new state was seen, `needs_restart` whether the system
    /// put it off.
    pub fn finish_change(
        &mut self,
        identity: &VerifiedDevice,
        enabled: bool,
        device: &PlatformDevice,
        confirmed: bool,
        needs_restart: bool,
    ) -> (r: Result<MutationReport, PlatformError>)
        requires
            old(self).wf(),
        ensures
            final(self).wf(),
            platform_result(r) == change_result(identity@, enabled, confirmed, needs_restart),
            final(self)@ == snapshots_after(old(self)@, identity@, enabled, device@, confirmed),
    {
        if !confirmed {
            if needs_restart {
                return Err(
                    PlatformError::OperationFailed(
                        joined(
                            identity.stable_id.as_str(),
                            ": Windows deferred the property change; a restart is required before the requested state is active",
                        ),
                    ),
                );
            }
            return Err(
                PlatformError::VerificationFailed(
                    joined(
                        identity.stable_id.as_str(),
                        ": Windows reported the property change but fresh status confirmation failed",
                    ),
                ),
            );
        }
        if enabled {
            self.disabled.remove(identity.stable_id.as_str());
        } else {
            let mut kept = device.copy();
            kept.state = DeviceState { enabled: false };
            self.disabled.insert(identity.stable_id.clone(), DisabledSnapshot { device: kept });
        }
        let error: Option<String> = match control_limitation(identity.coverage) {
            Some(text) => Some(text.to_owned()),
            None => None,
        };
        let outcome = crate::platform::DeviceOutcome {
            id: DeviceId(identity.stable_id.clone()),
            requested_enabled: enabled,
            confirmed_enabled: Some(enabled),
            changed: true,
            error,
        };
        let mut outcomes: Vec<crate::platform::DeviceOutcome> = Vec::new();
        outcomes.push(outcome);
        let report = MutationReport { outcomes };
        assert(report@ == seq![outcome@]);
        Ok(report)
    }
}

/// What is resolved for a recovery is the identity on record.
pub proof fn recovery_resolves_the_identity_on_record(
    id: Seq<char>,
    expected: VerifiedModel,
    inventory: InventoryModel,
)
    ensures
        recovered(id, expected, inventory) matches Ok(identity) ==> identity == expected && id
            == expected.stable_id,
{
}

/// Switching a controller on again takes back what switching it off kept.
pub proof fn enabling_reverses_disabling(
    disabled: Seq<(Seq<char>, DeviceModel)>,
    identity: VerifiedModel,
    device: DeviceModel,
    later: DeviceModel,
)
    requires
        crate::ordered::in_order(disabled),
        lookup(disabled, identity.stable_id) is None,
    ensures
        snapshots_after(
            snapshots_after(disabled, identity, false, device, true),
            identity,
            true,
            later,
            true,
        ) == disabled,
{
    crate::ordered::taking_out_reverses_putting_in(
        disabled,
        identity.stable_id,
        (DeviceModel { enabled: false, ..device }),
    );
}

// The settings page.
/// A number with its sign.
pub open spec fn signed_decimal(n: int) -> Seq<char> {
    if n < 0 {
        "-"@ + decimal((-n) as nat)
    } else {
        decimal(n as nat)
    }
}

pub open spec fn settings_failure(result: i64, code: u32) -> Seq<char> {
    "ShellExecuteW(ms-settings:bluetooth) returned "@ + signed_decimal(result as int)
        + "; Win32 error "@ + decimal(code as nat) + " (0x"@ + upper_hex(code as nat, 8)
        + "). Open Windows Settings > Bluetooth manually or repair the Settings app."@
}

/// `result` is what the shell returned; a small number stands for a failure.
pub fn open_bluetooth_settings(result: i64, code: u32) -> (r: Result<(), PlatformError>)
    ensures
        unit_result(r) == (if result <= 32 {
            Err(ErrorModel::LaunchFailed(settings_failure(result, code)))
        } else {
            Ok(())
        }),
{
    if result > 32 {
        return Ok(());
    }
    let number = if result < 0 {
        joined("-", decimal_of((-(result + 1)) as u64 + 1).as_str())
    } else {
        decimal_of(result as u64)
    };
    let mut out = joined3(
        "ShellExecuteW(ms-settings:bluetooth) returned ",
        number.as_str(),
        "; Win32 error ",
    );
    out.append(decimal_of(code as u64).as_str());
    out.append(" (0x");
    out.append(upper_hex_of(code as u64, 8).as_str());
    out.append("). Open Windows Settings > Bluetooth manually or repair the Settings app.");
    Err(PlatformError::LaunchFailed(out))
}

} // verus!
