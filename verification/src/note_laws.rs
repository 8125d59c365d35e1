//! What is said of controllers that cannot be switched or shown.
use crate::devnode::{AggregateModel, NodeModel};
use crate::input::ControllerModel;
use crate::inventory::{
    hid_rows, last_node, native_rows, scanned, with_native, InventoryModel, Rows,
};
use crate::linux::{
    enable_change, native_check, probed, problem_text, switch_admitted, switch_change,
    warning_for, LinuxChangeModel,
};
use crate::platform::{ControlCoverage, ErrorModel, VerifiedModel};
use crate::service_laws::whole;
use crate::text::{debug_form, decimal};
use vstd::prelude::*;

verus! {

// Linux.
/// A switch is admitted exactly for an identity of this platform that is whole.
pub proof fn what_may_be_switched_on_linux(identity: VerifiedModel)
    ensures
        switch_admitted(identity) is Ok <==> identity.platform == "linux"@ && whole(identity),
        switch_admitted(identity) matches Err(e) ==> e is VerificationFailed,
{
}

/// What is said of a controller that cannot be controlled: that it shares its
/// function, that its driver is not approved, that it has none, or that it has no
/// function.
pub proof fn why_a_controller_is_not_controlled(controller: ControllerModel)
    ensures
        controller.mixed_unrelated ==> problem_text(controller)
            == "the input function also exposes an unrelated keyboard/mouse capability"@,
        !controller.mixed_unrelated && controller.function is None ==> problem_text(controller)
            == "no stable HID or USB controller function was found"@,
        !controller.mixed_unrelated ==> (controller.function matches Some(f) ==> match f.driver {
            Some(driver) => problem_text(controller) == "kernel driver "@ + debug_form(driver)
                + " is not in the trusted controller allow-list"@,
            None => problem_text(controller) == "controller function has no bound kernel driver"@,
        }),
{
}

/// What a switched-off controller is not covered for: an Xbox interface can still
/// be reached through its device, every other one leaves its siblings alone.
pub proof fn what_a_warning_says(controller: ControllerModel, driver: Seq<char>)
    requires
        controller.function matches Some(f) && (f.driver == Some(driver) || f.driver is None
            && f.expected_driver == Some(driver)),
    ensures
        driver == "xpad"@ || driver == "xpadneo"@ ==> warning_for(controller)
            == "Linux unbound the validated Xbox USB controller interface; direct libusb access to the USB parent is outside this coverage"@,
        driver != "xpad"@ && driver != "xpadneo"@ ==> warning_for(controller)
            == "Linux control covers only the validated controller HID/USB function; separate sibling functions are intentionally left alone"@,
{
}

/// A probe that failed means that the controller is not the one on record.
pub proof fn what_a_probe_says(
    identity: VerifiedModel,
    controller: ControllerModel,
    error: Seq<char>,
)
    ensures
        probed(identity, Ok(controller)) == Ok::<ControllerModel, ErrorModel>(controller),
        probed(identity, Err(error)) == Err::<ControllerModel, ErrorModel>(
            ErrorModel::IdentityMismatch(identity.stable_id + ": "@ + error),
        ),
{
}

/// A controller that cannot be controlled is not switched, and an error about the
/// controller stays what it is, except that a lost one may still be enabled.
pub proof fn what_is_not_switched_on_linux(
    disabled: Seq<(Seq<char>, ControllerModel)>,
    identity: VerifiedModel,
    enabled: bool,
    controller: ControllerModel,
    error: ErrorModel,
    helper: bool,
)
    requires
        switch_admitted(identity) is Ok,
        native_check(identity) is Ok,
    ensures
        !enabled || !(error is NotFound || error is IdentityMismatch) ==> switch_change(
            disabled,
            identity,
            enabled,
            Err(error),
            helper,
        ) == Err::<LinuxChangeModel, ErrorModel>(error),
        enabled && (error is NotFound || error is IdentityMismatch) && identity.coverage
            == ControlCoverage::Uncontrolled ==> (switch_change(
            disabled,
            identity,
            enabled,
            Err(error),
            helper,
        ) matches Err(e) && e is Unsupported),
        enabled && (error is NotFound || error is IdentityMismatch) && identity.coverage
            != ControlCoverage::Uncontrolled ==> (switch_change(
            disabled,
            identity,
            enabled,
            Err(error),
            helper,
        ) matches Ok(c) && c is Invoke),
        !controller.can_full_control && identity.coverage == ControlCoverage::Uncontrolled
            && !enabled ==> switch_change(disabled, identity, enabled, Ok(controller), helper)
            == Err::<LinuxChangeModel, ErrorModel>(
            ErrorModel::OperationFailed(controller.name + ": "@ + problem_text(controller)),
        ),
        !controller.can_full_control && identity.coverage != ControlCoverage::Uncontrolled
            ==> (enable_change(identity, Some(controller)) matches Err(e) && e
            is IdentityMismatch),
        identity.coverage == ControlCoverage::Uncontrolled ==> (enable_change(
            identity,
            Some(controller),
        ) matches Err(e) && e is Unsupported),
{
}

// Windows.
/// What a scan notes of an observed HID node.
pub open spec fn notes_hid(
    note: Seq<char>,
    devinst: u32,
    nodes: Seq<NodeModel>,
    hid: Map<u32, AggregateModel>,
) -> bool {
    match last_node(nodes, devinst) {
        None => note == "HID devnode "@ + decimal(devinst as nat)
            + " was not present in the all-class scan"@,
        Some(node) => !node.status_known && hid[devinst].allowed && note
            == "HID controller devnode "@ + decimal(devinst as nat)
            + " has no authoritative Configuration Manager status"@,
    }
}

/// What a scan notes of a listed node.
pub open spec fn notes_native(note: Seq<char>, node: NodeModel) -> bool {
    !node.status_known && node.xusb_interface && note == "XUSB controller devnode "@ + decimal(
        node.devinst as nat,
    ) + " has no authoritative Configuration Manager status"@
}

proof fn lemma_hid_notes(
    rows: Rows,
    keys: Seq<u32>,
    nodes: Seq<NodeModel>,
    hid: Map<u32, AggregateModel>,
    i: int,
)
    requires
        0 <= i < hid_rows(rows, keys, nodes, hid).errors.len(),
    ensures
        rows.errors.contains(hid_rows(rows, keys, nodes, hid).errors[i]) || exists|k: int|
            0 <= k < keys.len() && notes_hid(
                hid_rows(rows, keys, nodes, hid).errors[i],
                #[trigger] keys[k],
                nodes,
                hid,
            ),
    decreases keys.len(),
{
    if keys.len() == 0 {
        assert(rows.errors.contains(rows.errors[i]));
    } else {
        let head = keys.drop_last();
        let before = hid_rows(rows, head, nodes, hid);
        let after = hid_rows(rows, keys, nodes, hid);
        if i < before.errors.len() {
            assert(after.errors[i] == before.errors[i]);
            lemma_hid_notes(rows, head, nodes, hid, i);
            if !rows.errors.contains(before.errors[i]) {
                let k = choose|k: int|
                    0 <= k < head.len() && notes_hid(
                        before.errors[i],
                        #[trigger] head[k],
                        nodes,
                        hid,
                    );
                assert(keys[k] == head[k]);
            }
        } else {
            assert(notes_hid(after.errors[i], keys[keys.len() - 1], nodes, hid));
        }
    }
}

proof fn lemma_native_notes(
    rows: Rows,
    list: Seq<NodeModel>,
    nodes: Seq<NodeModel>,
    hid: Map<u32, AggregateModel>,
    i: int,
)
    requires
        0 <= i < native_rows(rows, list, nodes, hid).errors.len(),
    ensures
        (i < rows.errors.len() && native_rows(rows, list, nodes, hid).errors[i] == rows.errors[i])
            || exists|k: int|
            0 <= k < list.len() && notes_native(
                native_rows(rows, list, nodes, hid).errors[i],
                #[trigger] list[k],
            ),
    decreases list.len(),
{
    if list.len() > 0 {
        let head = list.drop_last();
        let before = native_rows(rows, head, nodes, hid);
        let after = native_rows(rows, list, nodes, hid);
        if i < before.errors.len() {
            assert(after.errors[i] == before.errors[i]);
            lemma_native_notes(rows, head, nodes, hid, i);
            if exists|k: int|
                0 <= k < head.len() && notes_native(before.errors[i], #[trigger] head[k]) {
                let k = choose|k: int|
                    0 <= k < head.len() && notes_native(before.errors[i], #[trigger] head[k]);
                assert(list[k] == head[k]);
            }
        } else {
            assert(notes_native(after.errors[i], list[list.len() - 1]));
        }
    }
}

/// A scan notes nothing but what its listings reported, observed HID nodes that
/// were not listed, and controllers whose state is not known.
pub proof fn only_gaps_are_noted(
    nodes: Seq<NodeModel>,
    devinsts: Set<u32>,
    hid: Map<u32, AggregateModel>,
    hid_errors: Seq<Seq<char>>,
    inventory: InventoryModel,
    i: int,
)
    requires
        scanned(nodes, devinsts, Seq::empty(), hid, hid_errors) == Ok::<InventoryModel, ErrorModel>(
            inventory,
        ),
        0 <= i < inventory.errors.len(),
    ensures
        hid_errors.contains(inventory.errors[i]) || (exists|d: u32| #[trigger]
            notes_hid(inventory.errors[i], d, inventory.nodes, hid)) || (exists|k: int|
            0 <= k < inventory.nodes.len() && notes_native(
                inventory.errors[i],
                #[trigger] inventory.nodes[k],
            )),
{
    let all = with_native(nodes, devinsts);
    let start = Rows { records: Seq::empty(), errors: hid_errors };
    let keys = crate::interfaces::ascending(hid.dom());
    let first = hid_rows(start, keys, all, hid);
    lemma_native_notes(first, all, all, hid, i);
    if i < first.errors.len() && inventory.errors[i] == first.errors[i] {
        lemma_hid_notes(start, keys, all, hid, i);
        if !hid_errors.contains(first.errors[i]) {
            let k = choose|k: int|
                0 <= k < keys.len() && notes_hid(first.errors[i], #[trigger] keys[k], all, hid);
            assert(notes_hid(inventory.errors[i], keys[k], inventory.nodes, hid));
        }
    } else {
        let k = choose|k: int|
            0 <= k < all.len() && notes_native(inventory.errors[i], #[trigger] all[k]);
        assert(notes_native(inventory.errors[i], inventory.nodes[k]));
    }
}

} // verus!
