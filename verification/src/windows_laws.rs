//! What a switch on Windows comes to, and what is found and shown there.
use crate::devnode::{composite_parent, hid_function, switched_off, AggregateModel, NodeModel};
use crate::family::find_node;
use crate::inventory::{print_of, shown_id, FoundModel, InventoryModel};
use crate::locate::{find_instance, located, shape_ok};
use crate::ordered::{in_order, lemma_lookup_put, lookup};
use crate::platform::{
    ControlCoverage, ControllerProtocol, DeviceModel, ErrorModel, OutcomeModel, VerifiedModel,
};
use crate::record_laws::{no_companion_name, nothing_native};
use crate::service_laws::whole;
use crate::sorting::{lemma_same_members, sorted_by, sorting_keeps_items};
use crate::text::{starts_with, utf8_len};
use crate::wide_text::{error_text, normal};
use crate::windows::{
    as_listed, change_admitted, change_error, change_planned, enumerated, limitations,
    record_devices, recovered, resolved, row_of, shown_record, snapshots_after, target_step,
    with_snapshot, with_snapshots, ChangeModel, Overlay,
};
use crate::windows_switch::{switch_step, Snapshots, StageModel, SwitchEventModel, SwitchNextModel};
use crate::xusb::{endangers, native};
use vstd::prelude::*;

verus! {

/// An identity that a scan can have made.
pub open spec fn scannable(identity: VerifiedModel) -> bool {
    &&& identity.platform == "windows"@
    &&& whole(identity)
    &&& identity.stable_id == shown_id(identity.instance_id)
    &&& (identity.usage_page == 1 && (identity.usage == 4 || identity.usage == 5 || identity.usage
        == 8)) || (identity.protocol == ControllerProtocol::Xusb && identity.usage_page == 0
        && identity.usage == 0)
}

/// Someone switched the node off: the system reports a problem, and the problem
/// is that it is disabled.
pub open spec fn is_off(node: NodeModel) -> bool {
    node.status_known && node.status & 0x400 != 0 && node.problem == Some(22i32)
}

/// The shape of an identity is accepted exactly if a scan can have made it, and
/// a node counts as switched off exactly if the system says that it is disabled.
pub proof fn what_is_accepted_and_what_is_off(identity: VerifiedModel, node: NodeModel)
    ensures
        shape_ok(identity) <==> scannable(identity),
        switched_off(node) <==> is_off(node),
{
}

/// Any state can be requested of an identity that a scan can have made, but only
/// one under full control can be switched off.
pub proof fn what_may_be_requested(identity: VerifiedModel, enabled: bool)
    ensures
        change_admitted(identity, enabled) is Ok <==> scannable(identity) && (enabled
            || identity.coverage == ControlCoverage::Full),
{
}

// The target.
/// The function on record is changed where it is met again: the same number, the
/// same instance, known, unchanged, a HID function that is no composite parent.
pub proof fn a_hid_function_is_changed(
    read: NodeModel,
    identity: VerifiedModel,
    nodes: Seq<NodeModel>,
    hid: Map<u32, AggregateModel>,
    enabled: bool,
)
    requires
        identity.protocol == ControllerProtocol::HidGamepad,
        read.instance == identity.instance_id,
        read.status_known,
        print_of(read, identity.usage_page, identity.usage) == identity.fingerprint,
        !composite_parent(read),
        hid_function(read),
    ensures
        target_step(read, identity, read.devinst, nodes, hid, enabled) is Change,
{
    assert(print_of(as_listed(read, nodes), identity.usage_page, identity.usage) == print_of(
        read,
        identity.usage_page,
        identity.usage,
    ));
}

/// A native function on record is changed where it is met again: to be switched
/// on always, to be switched off if nothing else hangs on it.
pub proof fn a_native_function_is_changed(
    read: NodeModel,
    identity: VerifiedModel,
    nodes: Seq<NodeModel>,
    hid: Map<u32, AggregateModel>,
    enabled: bool,
)
    requires
        identity.protocol == ControllerProtocol::Xusb,
        identity.coverage == ControlCoverage::Full,
        read.instance == identity.instance_id,
        read.status_known,
        print_of(read, identity.usage_page, identity.usage) == identity.fingerprint,
        !composite_parent(read),
        !hid_function(read),
        find_node(nodes, read.devinst) matches Some(listed) && listed.xusb_interface,
    ensures
        ({
            let endangered = endangers(
                NodeModel { xusb_interface: true, ..read },
                nodes,
                hid,
                false,
            );
            &&& enabled || !endangered ==> target_step(
                read,
                identity,
                read.devinst,
                nodes,
                hid,
                enabled,
            ) is Change
            &&& !enabled && endangered ==> target_step(
                read,
                identity,
                read.devinst,
                nodes,
                hid,
                enabled,
            ) is Refuse
        }),
{
    assert(print_of(as_listed(read, nodes), identity.usage_page, identity.usage) == print_of(
        read,
        identity.usage_page,
        identity.usage,
    ));
    assert(as_listed(read, nodes) == (NodeModel { xusb_interface: true, ..read }));
}

/// A node of another number or another instance is passed by.
pub proof fn another_node_is_passed_by(
    read: NodeModel,
    identity: VerifiedModel,
    devinst: u32,
    nodes: Seq<NodeModel>,
    hid: Map<u32, AggregateModel>,
    enabled: bool,
)
    requires
        read.devinst != devinst || read.instance != identity.instance_id,
    ensures
        target_step(read, identity, devinst, nodes, hid, enabled) is Pass,
{
}

// Switching.
/// What two looks in a row located: the same function, and its state is known.
pub open spec fn seen_twice(
    first: FoundModel,
    current: FoundModel,
    identity: VerifiedModel,
) -> bool {
    &&& first.identity == identity
    &&& current.identity == identity
    &&& first.node.instance == current.node.instance
    &&& current.node.status_known
}

/// A switch runs its course: two looks locate the function, all nodes are met
/// again, the function is changed by the number of the request, and once a fresh
/// look shows the new state the change is reported as confirmed; a controller
/// that was switched off is kept, one that was switched on is not.
pub proof fn a_switch_runs_its_course(
    kept: Snapshots,
    identity: VerifiedModel,
    enabled: bool,
    one: InventoryModel,
    first: FoundModel,
    two: InventoryModel,
    current: FoundModel,
    node: NodeModel,
    looks: u8,
    later: InventoryModel,
    shown: FoundModel,
)
    requires
        scannable(identity),
        identity.coverage == ControlCoverage::Full,
        in_order(kept),
        located(one, identity) == Ok::<FoundModel, ErrorModel>(first),
        located(two, identity) == Ok::<FoundModel, ErrorModel>(current),
        seen_twice(first, current, identity),
        current.device.enabled == !enabled,
        current.device.capabilities.full_control,
        target_step(node, identity, current.node.devinst, two.nodes, two.hid, enabled) is Change,
        located(later, identity) == Ok::<FoundModel, ErrorModel>(shown),
        shown.node.status_known,
        shown.device.enabled == enabled,
        !enabled ==> is_off(shown.node),
    ensures
        ({
            let (end, after, next) = switch_step(
                StageModel::Confirming(current, looks),
                kept,
                SwitchEventModel::Scanned(Ok(later)),
                identity,
                enabled,
            );
            &&& switch_step(
                StageModel::Looking,
                kept,
                SwitchEventModel::Requested,
                identity,
                enabled,
            ) == (StageModel::Looking, kept, SwitchNextModel::Scan)
            &&& switch_step(
                StageModel::Looking,
                kept,
                SwitchEventModel::Scanned(Ok(one)),
                identity,
                enabled,
            ) == (StageModel::Relooking(first), kept, SwitchNextModel::Scan)
            &&& switch_step(
                StageModel::Relooking(first),
                kept,
                SwitchEventModel::Scanned(Ok(two)),
                identity,
                enabled,
            ) == (StageModel::Changing(current, two), kept, SwitchNextModel::Meet)
            &&& switch_step(
                StageModel::Changing(current, two),
                kept,
                SwitchEventModel::Met(Ok(node)),
                identity,
                enabled,
            ) == (
                StageModel::Changing(current, two),
                kept,
                SwitchNextModel::Change(
                    if enabled {
                        1u32
                    } else {
                        2u32
                    },
                ),
            )
            &&& switch_step(
                StageModel::Changing(current, two),
                kept,
                SwitchEventModel::Changed(Ok(())),
                identity,
                enabled,
            ) == (StageModel::Confirming(current, 0), kept, SwitchNextModel::Scan)
            &&& next == SwitchNextModel::Done(
                Ok(
                    seq![
                        OutcomeModel {
                            id: identity.stable_id,
                            requested_enabled: enabled,
                            confirmed_enabled: Some(enabled),
                            changed: true,
                            error: None,
                        },
                    ],
                ),
            )
            &&& forall|key: Seq<char>| #[trigger]
                lookup(after, key) == (if key != identity.stable_id {
                    lookup(kept, key)
                } else if enabled {
                    None
                } else {
                    Some(DeviceModel { enabled: false, ..current.device })
                })
        }),
{
    let id = identity.stable_id;
    let off = DeviceModel { enabled: false, ..current.device };
    let after = snapshots_after(kept, identity, enabled, current.device, true);
    assert forall|key: Seq<char>| #[trigger] lookup(after, key) == (if key != id {
        lookup(kept, key)
    } else if enabled {
        None
    } else {
        Some(off)
    }) by {
        lemma_lookup_put(kept, id, off, key);
        crate::linux_laws::lemma_without_lookup(kept, id, key);
    }
}

/// A controller that is in the requested state already is reported so, without a
/// change; one that merely stopped does not count as switched off.
pub proof fn what_is_in_the_requested_state_stays(
    first: FoundModel,
    current: FoundModel,
    identity: VerifiedModel,
    enabled: bool,
)
    requires
        scannable(identity),
        identity.coverage == ControlCoverage::Full,
        seen_twice(first, current, identity),
        current.device.enabled == enabled,
    ensures
        enabled || is_off(current.node) ==> change_planned(first, current, identity, enabled)
            == Ok::<ChangeModel, ErrorModel>(
            ChangeModel::Done(
                seq![
                    OutcomeModel {
                        id: identity.stable_id,
                        requested_enabled: enabled,
                        confirmed_enabled: Some(enabled),
                        changed: false,
                        error: None,
                    },
                ],
            ),
        ),
        !enabled && !is_off(current.node) ==> change_planned(first, current, identity, enabled)
            is Err,
{
}

/// As long as no look shows the new state there are more of them, eight in all;
/// then the switch fails, and it says so where only a restart is missing.
pub proof fn an_unseen_change_fails(
    kept: Snapshots,
    identity: VerifiedModel,
    enabled: bool,
    current: FoundModel,
    looks: u8,
    later: InventoryModel,
    node: NodeModel,
)
    requires
        located(later, identity) matches Ok(shown) ==> shown.device.enabled != enabled,
        find_instance(later.nodes, identity.instance_id) == Some(node),
    ensures
        ({
            let (stage, after, next) = switch_step(
                StageModel::Confirming(current, looks),
                kept,
                SwitchEventModel::Scanned(Ok(later)),
                identity,
                enabled,
            );
            &&& after == kept
            &&& next == SwitchNextModel::PauseAndScan
            &&& looks < 7 ==> stage == StageModel::Confirming(current, (looks + 1) as u8)
            &&& looks >= 7 ==> stage == StageModel::Deferred(current)
        }),
        switch_step(
            StageModel::Deferred(current),
            kept,
            SwitchEventModel::Scanned(Ok(later)),
            identity,
            enabled,
        ) == (
            StageModel::Deferred(current),
            kept,
            SwitchNextModel::Done(
                Err(
                    if node.status & 0x100 != 0 {
                        ErrorModel::OperationFailed(
                            identity.stable_id
                                + ": Windows deferred the property change; a restart is required before the requested state is active"@,
                        )
                    } else {
                        ErrorModel::VerificationFailed(
                            identity.stable_id
                                + ": Windows reported the property change but fresh status confirmation failed"@,
                        )
                    },
                ),
            ),
        ),
{
}

/// What goes wrong on the way ends the switch with its error, and nothing that is
/// kept changes.
pub proof fn a_failed_step_ends_the_switch(
    kept: Snapshots,
    identity: VerifiedModel,
    enabled: bool,
    first: FoundModel,
    inventory: InventoryModel,
    error: ErrorModel,
    said: Seq<u16>,
)
    ensures
        switch_step(
            StageModel::Looking,
            kept,
            SwitchEventModel::Scanned(Err(error)),
            identity,
            enabled,
        ) == (StageModel::Looking, kept, SwitchNextModel::Done(Err(error))),
        switch_step(
            StageModel::Relooking(first),
            kept,
            SwitchEventModel::Scanned(Err(error)),
            identity,
            enabled,
        ) == (StageModel::Relooking(first), kept, SwitchNextModel::Done(Err(error))),
        switch_step(
            StageModel::Changing(first, inventory),
            kept,
            SwitchEventModel::Changed(Err(error)),
            identity,
            enabled,
        ) == (StageModel::Changing(first, inventory), kept, SwitchNextModel::Done(Err(error))),
        switch_step(
            StageModel::Changing(first, inventory),
            kept,
            SwitchEventModel::ListEnded(259, said),
            identity,
            enabled,
        ) == (
            StageModel::Changing(first, inventory),
            kept,
            SwitchNextModel::Done(
                Err(
                    ErrorModel::NotFound(
                        identity.stable_id
                            + ": exact function devnode disappeared before property change"@,
                    ),
                ),
            ),
        ),
{
}

/// Two looks that disagree end the switch, and so does a function whose state is
/// not known.
pub proof fn disagreeing_looks_end_the_switch(
    first: FoundModel,
    current: FoundModel,
    identity: VerifiedModel,
    enabled: bool,
)
    requires
        first.identity != current.identity || first.node.instance != current.node.instance
            || !current.node.status_known,
    ensures
        change_planned(first, current, identity, enabled) is Err,
{
}

/// What the system refuses is told apart: a missing permission, a veto, a
/// restart that is due, and anything else.
pub proof fn refusals_are_told_apart(context: Seq<char>, code: u32, detail: Seq<u16>)
    ensures
        ({
            let message = error_text(context, code, detail);
            change_error(context, code, detail) == (if code == 5 || code == 1314 {
                ErrorModel::PermissionDenied(
                    message + "; administrator permission is required to change this device"@,
                )
            } else if code == 1223 || code == 995 {
                ErrorModel::OperationFailed(
                    message
                        + "; the device or another system component vetoed the property change"@,
                )
            } else if code == 3010 {
                ErrorModel::OperationFailed(
                    message
                        + "; Windows requires a restart before the requested state can be confirmed"@,
                )
            } else {
                ErrorModel::OperationFailed(message)
            })
        }),
{
}

// Finding again.
/// The first node of an instance stands at `i`.
pub open spec fn first_of_instance(nodes: Seq<NodeModel>, instance: Seq<char>, i: int) -> bool {
    &&& 0 <= i < nodes.len()
    &&& nodes[i].instance == instance
    &&& forall|j: int| 0 <= j < i ==> (#[trigger] nodes[j]).instance != instance
}

proof fn lemma_first_of_instance(nodes: Seq<NodeModel>, instance: Seq<char>, i: int)
    requires
        first_of_instance(nodes, instance, i),
    ensures
        find_instance(nodes, instance) == Some(nodes[i]),
    decreases nodes.len(),
{
    if i > 0 {
        let rest = nodes.skip(1);
        assert(nodes[0].instance != instance);
        assert forall|j: int| 0 <= j < i - 1 implies (#[trigger] rest[j]).instance != instance by {
            assert(rest[j] == nodes[j + 1]);
        }
        assert(rest[i - 1] == nodes[i]);
        lemma_first_of_instance(rest, instance, i - 1);
    }
}

/// A HID controller that was switched off is found again by its identity, in the
/// node that is switched off, though its evidence is gone: the node is a HID
/// function, has not changed, and no native function is listed.
pub proof fn a_switched_off_hid_controller_is_found_again(
    inventory: InventoryModel,
    identity: VerifiedModel,
    i: int,
)
    requires
        scannable(identity),
        identity.protocol == ControllerProtocol::HidGamepad,
        identity.coverage == ControlCoverage::Full,
        first_of_instance(inventory.nodes, normal(identity.instance_id), i),
        is_off(inventory.nodes[i]),
        normal(inventory.nodes[i].class_name) == "HIDCLASS"@,
        print_of(inventory.nodes[i], identity.usage_page, identity.usage) == identity.fingerprint,
        nothing_native(inventory.nodes[i], inventory.nodes),
        no_companion_name(inventory.nodes[i]),
    ensures
        located(inventory, identity) matches Ok(record) && {
            &&& record.node == inventory.nodes[i]
            &&& record.identity == identity
            &&& record.device.verified == Some(identity)
            &&& !record.device.enabled
            &&& record.device.capabilities.full_control
            &&& record.device.problem_code is None
        },
{
    let node = inventory.nodes[i];
    lemma_first_of_instance(inventory.nodes, normal(identity.instance_id), i);
    crate::record_laws::lemma_nothing_native(node, inventory.nodes);
    crate::record_laws::lemma_no_companion(node);
    crate::record_laws::lemma_hid_class(node);
}

/// Switching a function off does not change by what it is known: a node that
/// differs in its state alone has the same fingerprint, and what a scan recorded
/// of it is what is found again.
pub proof fn the_state_is_no_part_of_the_identity(
    node: NodeModel,
    status: u32,
    problem: Option<i32>,
    known: bool,
    usage_page: u16,
    usage: u16,
)
    ensures
        print_of(
            NodeModel { status, problem, status_known: known, ..node },
            usage_page,
            usage,
        ) == print_of(node, usage_page, usage),
{
}

/// An identity whose node is gone is not found, and one that a scan cannot have
/// made is refused.
pub proof fn a_missing_node_is_not_found(inventory: InventoryModel, identity: VerifiedModel)
    ensures
        scannable(identity) && find_instance(inventory.nodes, normal(identity.instance_id)) is None
            ==> located(inventory, identity) == Err::<FoundModel, ErrorModel>(
            ErrorModel::NotFound(identity.stable_id),
        ),
        !scannable(identity) ==> located(inventory, identity) == Err::<FoundModel, ErrorModel>(
            ErrorModel::VerificationFailed(
                "malformed or cross-platform Windows controller identity"@,
            ),
        ),
{
}

/// What is recorded under an identifier is resolved to its identity, where
/// nothing is kept under it; what is unknown is not found.
pub proof fn a_recorded_controller_is_resolved(
    kept: Snapshots,
    id: Seq<char>,
    inventory: InventoryModel,
    i: int,
)
    requires
        utf8_len(id) <= 1024,
        starts_with(id, "windows-controller-"@),
        lookup(kept, id) is None,
    ensures
        0 <= i < inventory.records.len() && inventory.records[i].device.id == id && (forall|j: int|
            0 <= j < i ==> (#[trigger] inventory.records[j]).device.id != id) ==> resolved(
            kept,
            id,
            inventory,
        ) == Ok::<VerifiedModel, ErrorModel>(inventory.records[i].identity),
        (forall|j: int|
            0 <= j < inventory.records.len() ==> (#[trigger] inventory.records[j]).device.id != id)
            ==> resolved(kept, id, inventory) == Err::<VerifiedModel, ErrorModel>(
            ErrorModel::NotFound(id),
        ),
{
    if 0 <= i < inventory.records.len() && inventory.records[i].device.id == id && (forall|j: int|
        0 <= j < i ==> (#[trigger] inventory.records[j]).device.id != id) {
        lemma_shown_record(inventory.records, id, i);
    }
    if forall|j: int|
        0 <= j < inventory.records.len() ==> (#[trigger] inventory.records[j]).device.id != id {
        lemma_no_shown_record(inventory.records, id);
    }
}

proof fn lemma_shown_record(records: Seq<FoundModel>, id: Seq<char>, i: int)
    requires
        0 <= i < records.len(),
        records[i].device.id == id,
        forall|j: int| 0 <= j < i ==> (#[trigger] records[j]).device.id != id,
    ensures
        shown_record(records, id) == Some(records[i]),
    decreases records.len(),
{
    if i > 0 {
        let rest = records.skip(1);
        assert(records[0].device.id != id);
        assert forall|j: int| 0 <= j < i - 1 implies (#[trigger] rest[j]).device.id != id by {
            assert(rest[j] == records[j + 1]);
        }
        assert(rest[i - 1] == records[i]);
        lemma_shown_record(rest, id, i - 1);
    }
}

proof fn lemma_no_shown_record(records: Seq<FoundModel>, id: Seq<char>)
    requires
        forall|j: int| 0 <= j < records.len() ==> (#[trigger] records[j]).device.id != id,
    ensures
        shown_record(records, id) is None,
    decreases records.len(),
{
    if records.len() > 0 {
        let rest = records.skip(1);
        assert(records[0].device.id != id);
        assert forall|j: int| 0 <= j < rest.len() implies (#[trigger] rest[j]).device.id != id by {
            assert(rest[j] == records[j + 1]);
        }
        lemma_no_shown_record(rest, id);
    }
}

/// A recovery resolves the identity on record wherever it is located under its
/// own identifier, and refuses a command for another one.
pub proof fn a_recovery_resolves_what_is_located(
    id: Seq<char>,
    expected: VerifiedModel,
    inventory: InventoryModel,
    record: FoundModel,
)
    requires
        located(inventory, expected) == Ok::<FoundModel, ErrorModel>(record),
        record.device.id == expected.stable_id,
    ensures
        id == expected.stable_id ==> recovered(id, expected, inventory) == Ok::<
            VerifiedModel,
            ErrorModel,
        >(expected),
        id != expected.stable_id ==> recovered(id, expected, inventory) == Err::<
            VerifiedModel,
            ErrorModel,
        >(
            ErrorModel::IdentityMismatch(
                id + ": recovery command ID does not match persisted identity"@,
            ),
        ),
{
}

// Showing.
proof fn lemma_row_of(devices: Seq<DeviceModel>, id: Seq<char>)
    ensures
        row_of(devices, id) <= devices.len(),
        row_of(devices, id) < devices.len() ==> devices[row_of(devices, id) as int].id == id,
        row_of(devices, id) == devices.len() ==> forall|i: int|
            0 <= i < devices.len() ==> (#[trigger] devices[i]).id != id,
    decreases devices.len(),
{
    if devices.len() > 0 && devices[0].id != id {
        let rest = devices.skip(1);
        lemma_row_of(rest, id);
        if row_of(rest, id) == rest.len() {
            assert forall|i: int| 0 <= i < devices.len() implies (#[trigger] devices[i]).id
                != id by {
                if i > 0 {
                    assert(devices[i] == rest[i - 1]);
                }
            }
        }
    }
}

/// The rows lose nothing but what is laid over under the same identifier.
spec fn kept_in(device: DeviceModel, rows: Seq<DeviceModel>) -> bool {
    exists|n: int| 0 <= n < rows.len() && #[trigger] rows[n] == device
}

proof fn lemma_rows_kept(
    rows: Overlay,
    kept: Snapshots,
    inventory: InventoryModel,
    device: DeviceModel,
)
    requires
        with_snapshots(rows, kept, inventory) is Ok,
        kept_in(device, rows.devices),
        forall|k: int|
            0 <= k < kept.len() ==> ((#[trigger] kept[k]).1.verified matches Some(v) && (
            find_instance(inventory.nodes, v.instance_id) matches Some(n) ==> !is_off(n))),
    ensures
        kept_in(device, with_snapshots(rows, kept, inventory)->Ok_0.devices),
    decreases kept.len(),
{
    if kept.len() > 0 {
        let head = kept.drop_last();
        assert forall|k: int| 0 <= k < head.len() implies ((#[trigger] head[k]).1.verified matches Some(
            v,
        ) && (find_instance(inventory.nodes, v.instance_id) matches Some(n) ==> !is_off(n))) by {
            assert(head[k] == kept[k]);
        }
        lemma_rows_kept(rows, head, inventory, device);
        let before = with_snapshots(rows, head, inventory)->Ok_0;
        let after = with_snapshots(rows, kept, inventory)->Ok_0;
        assert(kept[kept.len() - 1] == kept.last());
        let n = choose|n: int|
            0 <= n < before.devices.len() && #[trigger] before.devices[n] == device;
        assert(after.devices[n] == device);
    }
}

/// What a scan recorded is shown as it was recorded, as long as nothing that was
/// switched off is laid over it.
pub proof fn recorded_controllers_are_shown(
    kept: Snapshots,
    inventory: InventoryModel,
    i: int,
)
    requires
        0 <= i < inventory.records.len(),
        enumerated(kept, inventory) is Ok,
        forall|k: int|
            0 <= k < kept.len() ==> ((#[trigger] kept[k]).1.verified matches Some(v) && (
            find_instance(inventory.nodes, v.instance_id) matches Some(n) ==> !is_off(n))),
    ensures
        enumerated(kept, inventory)->Ok_0.devices.contains(inventory.records[i].device),
{
    let rows = Overlay { devices: record_devices(inventory.records), errors: inventory.errors };
    let device = inventory.records[i].device;
    assert(rows.devices[i] == device);
    assert(kept_in(device, rows.devices));
    lemma_rows_kept(rows, kept, inventory, device);
    let all = with_snapshots(rows, kept, inventory)->Ok_0.devices;
    let order = crate::controller::device_order();
    let n = choose|n: int| 0 <= n < all.len() && #[trigger] all[n] == device;
    sorting_keeps_items(all, order);
    lemma_same_members(all, sorted_by(all, order), n);
}

/// A controller that was switched off and whose node is gone keeps its row; one
/// whose node is still switched off is shown as it is located anew.
pub proof fn a_switched_off_controller_is_shown(
    rows: Overlay,
    id: Seq<char>,
    snapshot: DeviceModel,
    inventory: InventoryModel,
    identity: VerifiedModel,
)
    requires
        snapshot.verified == Some(identity),
        whole(identity),
        snapshot.id == id,
    ensures
        ({
            let node = find_instance(inventory.nodes, identity.instance_id);
            let after = with_snapshot(rows, id, snapshot, inventory);
            &&& after is Ok
            &&& node is None ==> exists|n: int|
                0 <= n < after->Ok_0.devices.len() && (#[trigger] after->Ok_0.devices[n]).id == id
            &&& node is None && (forall|k: int|
                0 <= k < rows.devices.len() ==> (#[trigger] rows.devices[k]).id != id)
                ==> after->Ok_0.devices == rows.devices.push(snapshot)
            &&& node matches Some(n) ==> (is_off(n) ==> (located(inventory, identity) matches Ok(
                record,
            ) ==> (exists|n: int|
                0 <= n < after->Ok_0.devices.len() && #[trigger] after->Ok_0.devices[n]
                    == record.device)))
            &&& node matches Some(n) ==> (!is_off(n) ==> after->Ok_0 == rows)
        }),
{
    lemma_row_of(rows.devices, id);
    let after = with_snapshot(rows, id, snapshot, inventory)->Ok_0;
    match find_instance(inventory.nodes, identity.instance_id) {
        None => {
            let at = row_of(rows.devices, id) as int;
            if at < rows.devices.len() {
                assert(after.devices[at].id == id);
            } else {
                assert(after.devices[rows.devices.len() as int] == snapshot);
            }
        },
        Some(node) => {
            if is_off(node) {
                if let Ok(record) = located(inventory, identity) {
                    lemma_row_of(rows.devices, record.device.id);
                    let at = row_of(rows.devices, record.device.id) as int;
                    assert(after.devices[at] == record.device);
                }
            }
        },
    }
}

/// Each row that is not under full control is noted, with its name and its
/// identifier, and says what stays live.
pub proof fn an_uncontrolled_row_is_noted(
    errors: Seq<Seq<char>>,
    devices: Seq<DeviceModel>,
    i: int,
)
    requires
        0 <= i < devices.len(),
        devices[i].coverage != ControlCoverage::Full,
    ensures
        limitations(errors, devices).contains(
            devices[i].name + " ("@ + devices[i].id + "): "@ + (if devices[i].coverage
                == ControlCoverage::HidOnly {
                "only the validated HID function is controllable; the XInput/XUSB path remains live"@
            } else {
                "controller function coverage is ambiguous; the XInput/XUSB path remains live and disable is refused"@
            }),
        ),
    decreases devices.len(),
{
    let head = devices.drop_last();
    let before = limitations(errors, head);
    let after = limitations(errors, devices);
    let note = devices[i].name + " ("@ + devices[i].id + "): "@ + (if devices[i].coverage
        == ControlCoverage::HidOnly {
        "only the validated HID function is controllable; the XInput/XUSB path remains live"@
    } else {
        "controller function coverage is ambiguous; the XInput/XUSB path remains live and disable is refused"@
    });
    if i < head.len() {
        assert(head[i] == devices[i]);
        an_uncontrolled_row_is_noted(errors, head, i);
        let k = choose|k: int| 0 <= k < before.len() && before[k] == note;
        assert(after[k] == note);
    } else {
        assert(devices[i] == devices.last());
        assert(after[before.len() as int] == note);
    }
}

/// Rows under full control are not noted.
pub proof fn controlled_rows_are_not_noted(errors: Seq<Seq<char>>, devices: Seq<DeviceModel>)
    requires
        forall|i: int|
            0 <= i < devices.len() ==> (#[trigger] devices[i]).coverage == ControlCoverage::Full,
    ensures
        limitations(errors, devices) == errors,
    decreases devices.len(),
{
    if devices.len() > 0 {
        let head = devices.drop_last();
        assert forall|i: int| 0 <= i < head.len() implies (#[trigger] head[i]).coverage
            == ControlCoverage::Full by {
            assert(head[i] == devices[i]);
        }
        controlled_rows_are_not_noted(errors, head);
        assert(devices[devices.len() - 1] == devices.last());
    }
}

} // verus!
