//! Which function of a Windows machine is the one on record.
use crate::devnode::{composite_parent, hid_function, AggregateModel, NodeModel};
use crate::family::find_node;
use crate::inventory::{print_of, FoundModel, InventoryModel};
use crate::locate::{find_instance, located, recovery_problem};
use crate::ordered::lookup;
use crate::platform::{
    ControlCoverage, ControllerProtocol, DeviceModel, ErrorModel, OutcomeModel, VerifiedModel,
};
use crate::service_laws::whole;
use crate::text::{decimal, starts_with, upper_hex};
use crate::windows::{
    change_result, confirmation, resolved, restart_pending, settings_failure, shown_record, shows,
    target_step, Confirmation,
};
use crate::windows_laws::is_off;
use crate::windows_switch::{switch_step, Snapshots, StageModel, SwitchEventModel, SwitchNextModel};
use crate::xusb::{companion_name, conflicts, endangers, native, native_by_name, related};
use vstd::prelude::*;

verus! {

/// The node is of the kind that the identity was made of: a HID function for a HID
/// identity and for a partial native one, a native function for all others.  One
/// under full control that is switched on again may be known by its name alone.
pub open spec fn of_its_kind(node: NodeModel, identity: VerifiedModel, enabled: bool) -> bool {
    if identity.protocol == ControllerProtocol::HidGamepad || identity.coverage
        == ControlCoverage::HidOnly {
        hid_function(node)
    } else if identity.coverage == ControlCoverage::Full && enabled {
        native(node) || native_by_name(node)
    } else {
        native(node)
    }
}

/// A node that is met again is changed exactly where it is the one on record, of
/// known state, unchanged, no bundle of functions and of its kind; and a native
/// function under full control is switched off only where that endangers nothing.
pub proof fn which_function_is_changed(
    read: NodeModel,
    identity: VerifiedModel,
    devinst: u32,
    nodes: Seq<NodeModel>,
    hid: Map<u32, AggregateModel>,
    enabled: bool,
    lists: bool,
)
    requires
        lists == (find_node(nodes, read.devinst) matches Some(l) && l.xusb_interface),
    ensures
        ({
            let node = NodeModel { xusb_interface: lists, ..read };
            target_step(read, identity, devinst, nodes, hid, enabled) is Change <==> {
                &&& read.devinst == devinst
                &&& read.instance == identity.instance_id
                &&& read.status_known
                &&& print_of(node, identity.usage_page, identity.usage) == identity.fingerprint
                &&& !composite_parent(node)
                &&& of_its_kind(node, identity, enabled)
                &&& enabled || identity.protocol != ControllerProtocol::Xusb || identity.coverage
                    != ControlCoverage::Full || !endangers(node, nodes, hid, false)
            }
        }),
        target_step(read, identity, devinst, nodes, hid, enabled) is Pass <==> read.devinst
            != devinst || read.instance != identity.instance_id,
{
}

/// A node that cannot be read while the function is looked for is passed by.
pub proof fn an_unread_node_is_passed_by(
    current: FoundModel,
    inventory: InventoryModel,
    disabled: Snapshots,
    message: Seq<char>,
    identity: VerifiedModel,
    enabled: bool,
)
    ensures
        switch_step(
            StageModel::Changing(current, inventory),
            disabled,
            SwitchEventModel::Met(Err(message)),
            identity,
            enabled,
        ) == (StageModel::Changing(current, inventory), disabled, SwitchNextModel::Meet),
{
}

/// A look shows the requested state where it finds the function, of known state,
/// and in that state; a function counts as off only where someone switched it off.
pub proof fn what_a_look_shows(inventory: InventoryModel, identity: VerifiedModel, enabled: bool)
    ensures
        shows(inventory, identity, enabled) <==> (located(inventory, identity) matches Ok(record)
            && record.node.status_known && record.device.enabled == enabled && (enabled || is_off(
            record.node,
        ))),
        restart_pending(inventory, identity) <==> (find_instance(
            inventory.nodes,
            identity.instance_id,
        ) matches Some(node) && node.status & 0x100 != 0),
{
}

/// A change is looked for eight times before it is given up.
pub proof fn how_often_a_change_is_looked_for(
    scan: Option<crate::inventory::Inventory>,
    identity: VerifiedModel,
    enabled: bool,
    looks: u8,
)
    requires
        looks < 255,
    ensures
        (scan matches Some(i) && shows(i@, identity, enabled)) ==> confirmation(
            scan,
            identity,
            enabled,
            looks,
        ) == Confirmation::Confirmed,
        !(scan matches Some(i) && shows(i@, identity, enabled)) && looks < 7 ==> confirmation(
            scan,
            identity,
            enabled,
            looks,
        ) == Confirmation::Again((looks + 1) as u8),
        !(scan matches Some(i) && shows(i@, identity, enabled)) && looks >= 7 ==> confirmation(
            scan,
            identity,
            enabled,
            looks,
        ) == Confirmation::GaveUp,
{
}

/// A confirmed change is reported with what stays live beside it.
pub proof fn how_a_change_is_reported(
    identity: VerifiedModel,
    enabled: bool,
    needs_restart: bool,
)
    ensures
        change_result(identity, enabled, true, needs_restart) == Ok::<
            Seq<OutcomeModel>,
            ErrorModel,
        >(
            seq![
                OutcomeModel {
                    id: identity.stable_id,
                    requested_enabled: enabled,
                    confirmed_enabled: Some(enabled),
                    changed: true,
                    error: match identity.coverage {
                        ControlCoverage::Full => None,
                        ControlCoverage::HidOnly => Some(
                            "only the validated HID function is controllable; the XInput/XUSB path remains live"@,
                        ),
                        ControlCoverage::Uncontrolled => Some(
                            "controller function coverage is ambiguous; the XInput/XUSB path remains live and disable is refused"@,
                        ),
                    },
                },
            ],
        ),
        change_result(identity, enabled, false, true) matches Err(e) && e is OperationFailed,
        change_result(identity, enabled, false, false) matches Err(e) && e is VerificationFailed,
{
}

/// A node that is switched off is the one on record exactly where nothing of it
/// changed, it is no bundle of functions, and its kind is still that of the
/// identity: a HID function beside which no native one appeared, a native function
/// below which nothing else is seen, or a HID function with its native one.
pub proof fn what_is_recovered(
    node: NodeModel,
    identity: VerifiedModel,
    nodes: Seq<NodeModel>,
    hid: Map<u32, AggregateModel>,
)
    ensures
        recovery_problem(node, identity, nodes, hid) is None <==> {
            &&& is_off(node)
            &&& print_of(node, identity.usage_page, identity.usage) == identity.fingerprint
            &&& !composite_parent(node)
            &&& match (identity.protocol, identity.coverage) {
                (ControllerProtocol::HidGamepad, coverage) => hid_function(node) && related(
                    node,
                    nodes,
                ).len() == 0 && (coverage == ControlCoverage::Full ==> !companion_name(node)),
                (ControllerProtocol::Xusb, ControlCoverage::Full) => native_by_name(node)
                    && !conflicts(node, nodes, hid),
                (ControllerProtocol::Xusb, ControlCoverage::HidOnly) => hid_function(node)
                    && related(node, nodes).len() > 0,
                (ControllerProtocol::Xusb, ControlCoverage::Uncontrolled) => native(node)
                    && related(node, nodes).len() > 0,
            }
        },
{
}

/// What an identifier resolves to: what was kept of a controller that is still
/// switched off goes before the rows, and the rows before what was kept of one
/// that is not.
pub proof fn what_an_identifier_resolves_to(
    disabled: Seq<(Seq<char>, DeviceModel)>,
    id: Seq<char>,
    inventory: InventoryModel,
    snapshot: DeviceModel,
    kept: VerifiedModel,
    record: FoundModel,
)
    requires
        starts_with(id, "windows-controller-"@),
        crate::windows::id_ok(id),
    ensures
        lookup(disabled, id) is None && shown_record(inventory.records, id) == Some(record)
            ==> resolved(disabled, id, inventory) == Ok::<VerifiedModel, ErrorModel>(
            record.identity,
        ),
        lookup(disabled, id) is None && shown_record(inventory.records, id) is None ==> resolved(
            disabled,
            id,
            inventory,
        ) == Err::<VerifiedModel, ErrorModel>(ErrorModel::NotFound(id)),
        lookup(disabled, id) == Some(snapshot) && snapshot.verified == Some(kept) && whole(kept)
            ==> {
            let off = find_instance(inventory.nodes, kept.instance_id) matches Some(node)
                && is_off(node);
            &&& off && located(inventory, kept) == Ok::<FoundModel, ErrorModel>(record) ==> resolved(
                disabled,
                id,
                inventory,
            ) == Ok::<VerifiedModel, ErrorModel>(record.identity)
            &&& off && located(inventory, kept) is Err ==> resolved(disabled, id, inventory) is Err
            &&& !off && shown_record(inventory.records, id) == Some(record) ==> resolved(
                disabled,
                id,
                inventory,
            ) == Ok::<VerifiedModel, ErrorModel>(record.identity)
            &&& !off && shown_record(inventory.records, id) is None && located(inventory, kept)
                == Ok::<FoundModel, ErrorModel>(record) ==> resolved(disabled, id, inventory)
                == Ok::<VerifiedModel, ErrorModel>(record.identity)
        },
{
}

/// What is said where the settings did not open.
pub proof fn what_is_said_of_closed_settings(result: i64, code: u32)
    ensures
        result >= 0 ==> settings_failure(result, code)
            == "ShellExecuteW(ms-settings:bluetooth) returned "@ + decimal(result as nat)
            + "; Win32 error "@ + decimal(code as nat) + " (0x"@ + upper_hex(code as nat, 8)
            + "). Open Windows Settings > Bluetooth manually or repair the Settings app."@,
        result < 0 ==> settings_failure(result, code)
            == "ShellExecuteW(ms-settings:bluetooth) returned "@ + ("-"@ + decimal((-result) as nat))
            + "; Win32 error "@ + decimal(code as nat) + " (0x"@ + upper_hex(code as nat, 8)
            + "). Open Windows Settings > Bluetooth manually or repair the Settings app."@,
{
}

} // verus!
