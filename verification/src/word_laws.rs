//! What is said and where it is written.
use crate::devnode::NodeModel;
use crate::discovery::unlisted;
use crate::family::below;
use crate::fingerprint::FunctionBus;
use crate::function::{bus_of_name, bus_root, drivers_root, operation_text, Operation};
use crate::identity::{hid_name, usb_interface_name};
use crate::inventory::{usage_name, with_native};
use crate::link_collections::status_text;
use crate::shell::shortcut_note;
use crate::text::{decimal, trimmed, upper_hex};
use crate::updater::busy_text;
use crate::wide_text::{error_text, utf16_text};
use crate::xusb::{native, related, root_of};
use vstd::prelude::*;

verus! {

/// An error of the system is told with its own words where it has any, and always
/// with its number.
pub proof fn how_system_errors_are_told(context: Seq<char>, code: u32, detail: Seq<u16>, status: i32)
    ensures
        error_text(context, code, Seq::empty()) == context + ": "@ + ("Win32 error "@ + decimal(
            code as nat,
        )) + " (0x"@ + upper_hex(code as nat, 8) + ")"@,
        detail.len() > 0 ==> error_text(context, code, detail) == context + ": "@ + trimmed(
            utf16_text(detail),
        ) + " (0x"@ + upper_hex(code as nat, 8) + ")"@,
        status_text(context, status) == context + " failed with HID status 0x"@ + upper_hex(
            (status as u32) as nat,
            8,
        ),
{
}

/// What is said while something else is under way, and of a shortcut that is taken.
pub proof fn what_is_said_of_the_shell(operation: Seq<char>, shortcut: Seq<char>, error: Seq<char>)
    ensures
        busy_text(operation) == "Another updater operation is already in progress; "@ + operation
            + " was not started"@,
        shortcut_note(shortcut, error) == "Global shortcut "@ + shortcut + " is unavailable: "@
            + error + ". Choose another application or use the buttons."@,
        unlisted(error).controllers.len() == 0,
        unlisted(error).errors == seq!["cannot read /sys/class/input: "@ + error],
{
}

/// Where the kernel has its functions and their drivers, and which names are whose.
pub proof fn where_the_kernel_has_its_functions(name: Seq<char>)
    ensures
        bus_root(FunctionBus::Hid) == "/sys/bus/hid/devices"@,
        bus_root(FunctionBus::Usb) == "/sys/bus/usb/devices"@,
        drivers_root(FunctionBus::Hid) == "/sys/bus/hid/drivers"@,
        drivers_root(FunctionBus::Usb) == "/sys/bus/usb/drivers"@,
        operation_text(Operation::Bind) == "bind"@,
        operation_text(Operation::Unbind) == "unbind"@,
        hid_name(name) ==> bus_of_name(name) == Some(FunctionBus::Hid),
        !hid_name(name) && usb_interface_name(name) ==> bus_of_name(name) == Some(FunctionBus::Usb),
        !hid_name(name) && !usb_interface_name(name) ==> bus_of_name(name) is None,
{
}

/// What a controller without a name of its own is called by its usage.
pub proof fn what_a_usage_is_called(usage: u16)
    ensures
        usage_name(4) == "HID joystick"@,
        usage_name(5) == "HID game pad"@,
        usage_name(8) == "HID multi-axis controller"@,
        usage != 4 && usage != 5 && usage != 8 ==> usage_name(usage) == "HID controller"@,
{
}

proof fn lemma_kept_is_listed(all: Seq<NodeModel>, test: spec_fn(NodeModel) -> bool, i: int)
    requires
        0 <= i < all.filter(test).len(),
    ensures
        all.contains(all.filter(test)[i]),
    decreases all.len(),
{
    reveal(Seq::filter);
    if all.len() > 0 {
        let head = all.drop_last();
        if i < head.filter(test).len() {
            lemma_kept_is_listed(head, test, i);
            let k = choose|k: int| 0 <= k < head.len() && head[k] == head.filter(test)[i];
            assert(all[k] == head[k]);
        } else {
            assert(all[all.len() - 1] == all.filter(test)[i]);
        }
    }
}

/// The native functions that a node belongs to are those at its root and below it.
pub proof fn which_native_functions_are_related(node: NodeModel, all: Seq<NodeModel>, c: NodeModel)
    ensures
        related(node, all).contains(c) <==> all.contains(c) && native(c) && (root_of(
            node,
            all,
            false,
        ) matches Some(root) && (c.devinst == root || below(c, root, all))),
{
    broadcast use vstd::seq_lib::group_filter_ensures;

    if let Some(root) = root_of(node, all, false) {
        let test = crate::xusb::native_within(root, all);
        let kept = all.filter(test);
        if kept.contains(c) {
            let i = choose|i: int| 0 <= i < kept.len() && kept[i] == c;
            assert(test(kept[i]));
            lemma_kept_is_listed(all, test, i);
        }
        if all.contains(c) && native(c) && (c.devinst == root || below(c, root, all)) {
            assert(test(c));
            let i = choose|i: int| 0 <= i < all.len() && all[i] == c;
            assert(kept.contains(all[i]));
        }
    }
}

/// The nodes whose numbers list the native interface are marked, all others are
/// not, and nothing else of them changes.
pub proof fn which_nodes_are_marked(nodes: Seq<NodeModel>, devinsts: Set<u32>, i: int)
    requires
        0 <= i < nodes.len(),
    ensures
        with_native(nodes, devinsts).len() == nodes.len(),
        with_native(nodes, devinsts)[i] == (NodeModel {
            xusb_interface: devinsts.contains(nodes[i].devinst),
            ..nodes[i]
        }),
{
}

} // verus!
