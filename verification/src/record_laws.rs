//! Which controllers an inventory records, and what it says of them.
use crate::devnode::{
    composite_parent, hid_function, no_evidence, switched_off, with_interface, with_usage,
    AggregateModel, NodeModel,
};
use crate::family::{find_node, hits, lemma_find_node, lemma_found, line};
use crate::interfaces::ascending;
use crate::inventory::{
    by_cable, by_radio, connection_of, hid_record, hid_row, hid_rows, label, last_node,
    native_record, native_row, native_rows, record_order, scanned, shown_id, with_native,
    without_repeats, FoundModel, InventoryModel, Rows,
};
use crate::link_collections::{classified, HidpLinkCollectionNode};
use crate::platform::{ControlCoverage, ControllerProtocol, ErrorModel};
use crate::scan_laws::{lemma_ascending_exists, of_listed_node};
use crate::sorting::{lemma_same_members, sorted_by, sorting_keeps_items};
use crate::text::{contains_text, decimal, ends_with, join};
use crate::wide_text::{cleaned, normal};
use crate::xusb::{
    companion_name, endangers, mixed_company, native, native_test, related, root_of, unsafe_below,
};
use vstd::prelude::*;

verus! {

/// No listed node offers the native interface.
pub open spec fn nothing_native(node: NodeModel, nodes: Seq<NodeModel>) -> bool {
    !node.xusb_interface && forall|i: int|
        0 <= i < nodes.len() ==> !(#[trigger] nodes[i]).xusb_interface
}

proof fn lemma_line_listed(node: NodeModel, nodes: Seq<NodeModel>, k: nat)
    ensures
        line(node, nodes, k) matches Some(n) ==> n == node || nodes.contains(n),
    decreases k,
{
    if k > 0 {
        lemma_line_listed(node, nodes, (k - 1) as nat);
        if let Some(n) = line(node, nodes, (k - 1) as nat) {
            if let Some(parent) = n.parent {
                lemma_find_node(nodes, parent);
            }
        }
    }
}

pub proof fn lemma_nothing_native(node: NodeModel, nodes: Seq<NodeModel>)
    requires
        nothing_native(node, nodes),
    ensures
        root_of(node, nodes, false) is None,
{
    let test = native_test(false);
    assert forall|k: nat| !#[trigger] hits(node, nodes, test, k) by {
        lemma_line_listed(node, nodes, k);
        if let Some(n) = line(node, nodes, k) {
            if nodes.contains(n) {
                let i = choose|i: int| 0 <= i < nodes.len() && nodes[i] == n;
                assert(!nodes[i].xusb_interface);
            }
        }
    }
}

/// The name of the instance does not point to a native function beside it.
pub open spec fn no_companion_name(node: NodeModel) -> bool {
    forall|i: int|
        0 <= i <= normal(node.instance).len() - 5 ==> #[trigger] normal(node.instance).subrange(
            i,
            i + 5,
        ) != "IG_00"@
}

pub proof fn lemma_no_companion(node: NodeModel)
    requires
        no_companion_name(node),
    ensures
        !companion_name(node),
{
    reveal_strlit("IG_00");
    reveal_strlit("&IG_00");
    reveal_strlit("\\IG_00");
    let s = normal(node.instance);
    let name = "IG_00"@;
    assert("&IG_00"@.subrange(1, 6) =~= name);
    assert("\\IG_00"@.subrange(1, 6) =~= name);
    if contains_text(s, "&IG_00"@) {
        let i = choose|i: int| 0 <= i <= s.len() - 6 && #[trigger] s.subrange(i, i + 6) == "&IG_00"@;
        assert(s.subrange(i, i + 6).subrange(1, 6) =~= s.subrange(i + 1, i + 1 + 5));
    }
    if contains_text(s, "\\IG_00"@) {
        let i = choose|i: int|
            0 <= i <= s.len() - 6 && #[trigger] s.subrange(i, i + 6) == "\\IG_00"@;
        assert(s.subrange(i, i + 6).subrange(1, 6) =~= s.subrange(i + 1, i + 1 + 5));
    }
    if ends_with(s, "IG_00"@) {
        assert(s.skip(s.len() - 5) =~= s.subrange(s.len() - 5, s.len() - 5 + 5));
    }
}

pub proof fn lemma_hid_class(node: NodeModel)
    requires
        normal(node.class_name) == "HIDCLASS"@,
    ensures
        hid_function(node),
        !composite_parent(node),
{
    reveal_strlit("HIDCLASS");
    reveal_strlit("HID");
    reveal_strlit("USB");
    reveal_strlit("USB COMPOSITE");
    reveal_strlit("COMPOSITE");
    let class = normal(node.class_name);
    assert(class.subrange(0, 0int + "HID"@.len()) =~= "HID"@);
    assert(class[0] == 'H');
    assert("USB"@[0] == 'U');
    assert("USB COMPOSITE"@[0] == 'U');
}

/// A controller record under full control: the function can be switched off
/// entirely, and nothing is shown as a problem unless the system reports one.
pub open spec fn fully_controlled(record: FoundModel) -> bool {
    &&& record.identity.coverage == ControlCoverage::Full
    &&& record.device.coverage == ControlCoverage::Full
    &&& record.device.capabilities.full_control
    &&& record.node.problem is None && record.node.status & 0x400 == 0
        ==> record.device.problem_code is None
}

/// Full control is promised wherever it is safe: of every HID-class function of
/// known status whose evidence is a controller of any allowed usage and nothing
/// else, where no native function is listed and the name points to none.
pub proof fn a_plain_hid_controller_is_under_full_control(
    node: NodeModel,
    evidence: AggregateModel,
    nodes: Seq<NodeModel>,
    hid: Map<u32, AggregateModel>,
)
    requires
        node.status_known,
        normal(node.class_name) == "HIDCLASS"@,
        evidence.allowed,
        !evidence.disallowed,
        !evidence.mixed,
        evidence.usages.len() > 0,
        nothing_native(node, nodes),
        no_companion_name(node),
    ensures
        hid_record(node, evidence, nodes, hid) matches Some(record) && {
            &&& fully_controlled(record)
            &&& record.node == node
            &&& record.identity.protocol == ControllerProtocol::HidGamepad
            &&& record.identity.usage_page == evidence.usages[0].0
            &&& record.identity.usage == evidence.usages[0].1
            &&& record.device.capabilities.hid
        },
{
    lemma_nothing_native(node, nodes);
    lemma_no_companion(node);
    lemma_hid_class(node);
}

/// Full control of a HID function is decided by four things and by nothing
/// else: no native function behind it, no name that points to one, a HID class,
/// and a record at all.
pub proof fn what_decides_full_control_of_a_hid_function(
    node: NodeModel,
    evidence: AggregateModel,
    nodes: Seq<NodeModel>,
    hid: Map<u32, AggregateModel>,
)
    ensures
        root_of(node, nodes, false) is None ==> (hid_record(node, evidence, nodes, hid) is Some
            <==> node.status_known && evidence.allowed && !evidence.disallowed && !evidence.mixed
            && evidence.usages.len() > 0 && !composite_parent(node)),
        hid_record(node, evidence, nodes, hid) matches Some(record) ==> (
        record.identity.coverage == ControlCoverage::Full <==> related(node, nodes).len() == 0
            && !companion_name(node) && hid_function(node)),
        hid_record(node, evidence, nodes, hid) matches Some(record) ==> (
        record.identity.coverage != ControlCoverage::Full ==> record.identity.coverage
            == ControlCoverage::Uncontrolled),
        hid_record(node, evidence, nodes, hid) matches Some(record) ==> (record.identity.protocol
            == ControllerProtocol::Xusb <==> related(node, nodes).len() > 0),
{
}

/// A HID function behind which a native function can be switched off safely is
/// no row of its own; where it cannot, the HID function is shown and is not
/// under control.
pub proof fn a_native_function_stands_for_its_hid_functions(
    node: NodeModel,
    evidence: AggregateModel,
    nodes: Seq<NodeModel>,
    hid: Map<u32, AggregateModel>,
    root: NodeModel,
)
    requires
        node.status_known,
        evidence.allowed,
        !evidence.disallowed,
        !evidence.mixed,
        evidence.usages.len() > 0,
        !composite_parent(node),
        !mixed_company(node, nodes, hid),
        root_of(node, nodes, false) == Some(root.devinst),
        find_node(nodes, root.devinst) == Some(root),
        native(root),
    ensures
        ({
            let off = switched_off(node) || switched_off(root);
            if endangers(node, nodes, hid, off) {
                hid_record(node, evidence, nodes, hid) matches Some(record)
                    && record.identity.coverage == ControlCoverage::Uncontrolled
                    && record.identity.protocol == ControllerProtocol::Xusb
                    && !record.device.capabilities.full_control
            } else {
                hid_record(node, evidence, nodes, hid) is None
            }
        }),
{
    broadcast use vstd::seq_lib::group_filter_ensures;

    lemma_find_node(nodes, root.devinst);
    let test = crate::xusb::native_within(root.devinst, nodes);
    let i = choose|i: int| 0 <= i < nodes.len() && #[trigger] nodes[i] == root;
    assert(test(nodes[i]));
    assert(nodes.filter(test).contains(nodes[i]));
    assert(related(node, nodes).len() > 0);
}

/// No listed node hangs on this one.
pub open spec fn nothing_below(node: NodeModel, nodes: Seq<NodeModel>) -> bool {
    forall|i: int| 0 <= i < nodes.len() ==> (#[trigger] nodes[i]).parent != Some(node.devinst)
}

/// A native function on which nothing hangs is recorded under full control, as
/// an XInput device without a HID usage.
pub proof fn a_lone_native_function_is_under_full_control(
    node: NodeModel,
    nodes: Seq<NodeModel>,
    hid: Map<u32, AggregateModel>,
)
    requires
        node.status_known,
        node.xusb_interface,
        !composite_parent(node),
        !hid_function(node),
        !hid.contains_key(node.devinst),
        nothing_below(node, nodes),
    ensures
        native_record(node, nodes, hid) matches Some(record) && {
            &&& fully_controlled(record)
            &&& record.node == node
            &&& record.identity.protocol == ControllerProtocol::Xusb
            &&& record.identity.usage_page == 0
            &&& record.identity.usage == 0
            &&& record.device.capabilities.xinput
            &&& record.device.capabilities.gamepad
            &&& !record.device.capabilities.hid
        },
{
    let off = switched_off(node);
    let test = native_test(off);
    assert(line(node, nodes, 0) == Some(node));
    assert(test(node));
    assert(hits(node, nodes, test, 0));
    lemma_found(node, nodes, test, 0);
    assert(root_of(node, nodes, off) == Some(node.devinst));
    let risky = unsafe_below(node, node.devinst, nodes, hid, off);
    assert forall|i: int| 0 <= i < nodes.len() implies !risky(#[trigger] nodes[i]) by {
        let up = |n: NodeModel| n.parent == Some(node.devinst);
        assert forall|k: nat| !#[trigger] hits(nodes[i], nodes, up, k) by {
            lemma_line_listed(nodes[i], nodes, k);
            if let Some(n) = line(nodes[i], nodes, k) {
                assert(nodes.contains(n));
                let j = choose|j: int| 0 <= j < nodes.len() && nodes[j] == n;
                assert(nodes[j].parent != Some(node.devinst));
            }
        }
    }
}

/// What a record says of its node: the identifier, the instance and the state
/// are those of the node, the abilities follow from the protocol and the usage,
/// and the problem is what the system reports, or else what limits the control.
pub proof fn a_record_tells_of_its_node(
    record: FoundModel,
    nodes: Seq<NodeModel>,
    hid: Map<u32, AggregateModel>,
)
    requires
        of_listed_node(record, nodes, hid),
    ensures
        ({
            let node = record.node;
            let identity = record.identity;
            let device = record.device;
            let off = node.status & 0x400 != 0 && node.problem == Some(22i32);
            &&& node.status_known
            &&& identity.platform == "windows"@
            &&& identity.instance_id == node.instance
            &&& identity.stable_id == shown_id(node.instance)
            &&& device.id == identity.stable_id
            &&& device.verified == Some(identity)
            &&& device.coverage == identity.coverage
            &&& device.enabled == (!off && node.status & 0x8 != 0)
            &&& device.capabilities.full_control == (identity.coverage == ControlCoverage::Full)
            &&& device.capabilities.xinput == (identity.protocol == ControllerProtocol::Xusb)
            &&& device.capabilities.joystick == (identity.usage == 4 || identity.usage == 8)
            &&& device.capabilities.gamepad == (identity.protocol == ControllerProtocol::Xusb
                || identity.usage == 5 || identity.usage == 8)
            &&& device.capabilities.usb == (device.connection == "USB"@)
            &&& device.capabilities.bluetooth == (device.connection == "Bluetooth"@)
            &&& device.connection == connection_of(node, nodes)
            &&& device.problem_code == (if off {
                None
            } else if node.problem is Some {
                node.problem
            } else if node.status & 0x400 != 0 {
                Some(7304i32)
            } else if identity.coverage == ControlCoverage::Full {
                None
            } else if identity.coverage == ControlCoverage::HidOnly {
                Some(7302i32)
            } else {
                Some(7303i32)
            })
        }),
{
}

/// The name of a controller is the first of its friendly name, its description
/// and its manufacturer that holds more than filler.
pub proof fn a_record_is_named_after_its_node(
    record: FoundModel,
    nodes: Seq<NodeModel>,
    hid: Map<u32, AggregateModel>,
)
    requires
        of_listed_node(record, nodes, hid),
    ensures
        ({
            let node = record.node;
            let friendly = cleaned(node.friendly_name);
            let description = cleaned(node.description);
            let manufacturer = cleaned(node.manufacturer);
            &&& friendly.len() > 0 ==> record.device.name == friendly
            &&& friendly.len() == 0 && description.len() > 0 ==> record.device.name == description
            &&& friendly.len() == 0 && description.len() == 0 && manufacturer.len() > 0
                ==> record.device.name == manufacturer
            &&& friendly.len() == 0 && description.len() == 0 && manufacturer.len() == 0 ==> {
                &&& !record.device.capabilities.hid ==> record.device.name
                    == "XUSB/XInput controller"@
                &&& record.device.capabilities.hid ==> record.device.name == (
                if record.identity.usage == 4 {
                    "HID joystick"@
                } else if record.identity.usage == 5 {
                    "HID game pad"@
                } else if record.identity.usage == 8 {
                    "HID multi-axis controller"@
                } else {
                    "HID controller"@
                })
            }
        }),
{
}

/// The connection is that of the node where the node tells, a cable before a
/// radio; a node that does not tell and has no parent in the list is neither.
pub proof fn a_node_tells_its_connection(node: NodeModel, nodes: Seq<NodeModel>)
    ensures
        by_cable(node) ==> connection_of(node, nodes) == "USB"@,
        !by_cable(node) && by_radio(node) ==> connection_of(node, nodes) == "Bluetooth"@,
        !by_cable(node) && !by_radio(node) && (node.parent matches Some(p) ==> find_node(
            nodes,
            p,
        ) is None) ==> connection_of(node, nodes) == "Other"@,
        !by_cable(node) && !by_radio(node) ==> (node.parent matches Some(p) ==> (find_node(
            nodes,
            p,
        ) matches Some(parent) ==> (parent.devinst != node.devinst ==> {
            &&& by_cable(parent) ==> connection_of(node, nodes) == "USB"@
            &&& !by_cable(parent) && by_radio(parent) ==> connection_of(node, nodes)
                == "Bluetooth"@
        }))),
{
    reveal_with_fuel(label, 3);
}

// The listing.
proof fn lemma_last_node_kept(rows: Rows, keys: Seq<u32>, nodes: Seq<NodeModel>, hid: Map<u32, AggregateModel>, i: int)
    requires
        0 <= i < keys.len(),
    ensures
        rows.records.is_prefix_of(hid_rows(rows, keys, nodes, hid).records),
        last_node(nodes, keys[i]) matches Some(node) ==> (node.status_known ==> (hid_record(
            node,
            hid[keys[i]],
            nodes,
            hid,
        ) matches Some(record) ==> hid_rows(rows, keys, nodes, hid).records.contains(record))),
        last_node(nodes, keys[i]) is None ==> hid_rows(rows, keys, nodes, hid).errors.contains(
            "HID devnode "@ + decimal(keys[i] as nat) + " was not present in the all-class scan"@,
        ),
        last_node(nodes, keys[i]) matches Some(node) ==> (!node.status_known
            && hid[keys[i]].allowed ==> hid_rows(rows, keys, nodes, hid).errors.contains(
            "HID controller devnode "@ + decimal(keys[i] as nat)
                + " has no authoritative Configuration Manager status"@,
        )),
    decreases keys.len(),
{
    let head = keys.drop_last();
    let before = hid_rows(rows, head, nodes, hid);
    let after = hid_rows(rows, keys, nodes, hid);
    assert(after == hid_row(before, keys.last(), nodes, hid));
    lemma_hid_row_grows(before, keys.last(), nodes, hid);
    assert(before.records.is_prefix_of(after.records));
    if head.len() > 0 {
        let k = if i < head.len() {
            i
        } else {
            0
        };
        assert(head[k] == keys[k]);
        lemma_last_node_kept(rows, head, nodes, hid, k);
    }
    assert(rows.records.is_prefix_of(before.records));
    lemma_prefix(rows.records, before.records, after.records);
    if i < head.len() {
        lemma_members_kept(before, after);
    } else {
        lemma_last_added(before, keys.last(), nodes, hid);
    }
}

proof fn lemma_prefix(a: Seq<FoundModel>, b: Seq<FoundModel>, c: Seq<FoundModel>)
    requires
        a.is_prefix_of(b),
        b.is_prefix_of(c),
    ensures
        a.is_prefix_of(c),
{
    assert forall|i: int| 0 <= i < a.len() implies a[i] == c[i] by {
        assert(a[i] == b.subrange(0, a.len() as int)[i]);
        assert(b[i] == c.subrange(0, b.len() as int)[i]);
    }
    assert(a =~= c.subrange(0, a.len() as int));
}

spec fn grown(before: Rows, after: Rows) -> bool {
    ||| after == before
    ||| after.errors == before.errors && after.records.len() == before.records.len() + 1
        && after.records.drop_last() == before.records
    ||| after.records == before.records && after.errors.len() == before.errors.len() + 1
        && after.errors.drop_last() == before.errors
}

proof fn lemma_hid_row_grows(
    before: Rows,
    devinst: u32,
    nodes: Seq<NodeModel>,
    hid: Map<u32, AggregateModel>,
)
    ensures
        grown(before, hid_row(before, devinst, nodes, hid)),
{
    let after = hid_row(before, devinst, nodes, hid);
    if after.records.len() > before.records.len() {
        assert(after.records.drop_last() =~= before.records);
    } else if after.errors.len() > before.errors.len() {
        assert(after.errors.drop_last() =~= before.errors);
    }
}

proof fn lemma_native_row_grows(
    before: Rows,
    node: NodeModel,
    nodes: Seq<NodeModel>,
    hid: Map<u32, AggregateModel>,
)
    ensures
        grown(before, native_row(before, node, nodes, hid)),
        node.status_known ==> (native_record(node, nodes, hid) matches Some(record) ==> native_row(
            before,
            node,
            nodes,
            hid,
        ).records.contains(record)),
        !node.status_known && node.xusb_interface ==> native_row(
            before,
            node,
            nodes,
            hid,
        ).errors.contains(
            "XUSB controller devnode "@ + decimal(node.devinst as nat)
                + " has no authoritative Configuration Manager status"@,
        ),
{
    let after = native_row(before, node, nodes, hid);
    if after.records.len() > before.records.len() {
        assert(after.records.drop_last() =~= before.records);
        assert(after.records[before.records.len() as int] == after.records.last());
    } else if after.errors.len() > before.errors.len() {
        assert(after.errors.drop_last() =~= before.errors);
        assert(after.errors[before.errors.len() as int] == after.errors.last());
    }
}

proof fn lemma_members_kept(before: Rows, after: Rows)
    requires
        grown(before, after),
    ensures
        forall|r: FoundModel| #[trigger]
            before.records.contains(r) ==> after.records.contains(r),
        forall|e: Seq<char>| #[trigger] before.errors.contains(e) ==> after.errors.contains(e),
{
    assert forall|r: FoundModel| #[trigger] before.records.contains(r) implies
        after.records.contains(r) by {
        let k = choose|k: int| 0 <= k < before.records.len() && before.records[k] == r;
        assert(after.records[k] == r);
    }
    assert forall|e: Seq<char>| #[trigger] before.errors.contains(e) implies
        after.errors.contains(e) by {
        let k = choose|k: int| 0 <= k < before.errors.len() && before.errors[k] == e;
        assert(after.errors[k] == e);
    }
}

proof fn lemma_last_added(
    before: Rows,
    devinst: u32,
    nodes: Seq<NodeModel>,
    hid: Map<u32, AggregateModel>,
)
    ensures
        last_node(nodes, devinst) matches Some(node) ==> (node.status_known ==> (hid_record(
            node,
            hid[devinst],
            nodes,
            hid,
        ) matches Some(record) ==> hid_row(before, devinst, nodes, hid).records.contains(record))),
        last_node(nodes, devinst) is None ==> hid_row(before, devinst, nodes, hid).errors.contains(
            "HID devnode "@ + decimal(devinst as nat) + " was not present in the all-class scan"@,
        ),
        last_node(nodes, devinst) matches Some(node) ==> (!node.status_known
            && hid[devinst].allowed ==> hid_row(before, devinst, nodes, hid).errors.contains(
            "HID controller devnode "@ + decimal(devinst as nat)
                + " has no authoritative Configuration Manager status"@,
        )),
{
    let after = hid_row(before, devinst, nodes, hid);
    if after.records.len() > before.records.len() {
        assert(after.records[before.records.len() as int] == after.records.last());
    }
    if after.errors.len() > before.errors.len() {
        assert(after.errors[before.errors.len() as int] == after.errors.last());
    }
}

proof fn lemma_native_rows_kept(
    rows: Rows,
    list: Seq<NodeModel>,
    nodes: Seq<NodeModel>,
    hid: Map<u32, AggregateModel>,
)
    ensures
        forall|r: FoundModel| #[trigger]
            rows.records.contains(r) ==> native_rows(rows, list, nodes, hid).records.contains(r),
        forall|e: Seq<char>| #[trigger]
            rows.errors.contains(e) ==> native_rows(rows, list, nodes, hid).errors.contains(e),
    decreases list.len(),
{
    if list.len() > 0 {
        let before = native_rows(rows, list.drop_last(), nodes, hid);
        lemma_native_rows_kept(rows, list.drop_last(), nodes, hid);
        lemma_native_row_grows(before, list.last(), nodes, hid);
        lemma_members_kept(before, native_row(before, list.last(), nodes, hid));
    }
}

proof fn lemma_native_rows(
    rows: Rows,
    list: Seq<NodeModel>,
    nodes: Seq<NodeModel>,
    hid: Map<u32, AggregateModel>,
    i: int,
)
    requires
        0 <= i < list.len(),
    ensures
        list[i].status_known ==> (native_record(list[i], nodes, hid) matches Some(record)
            ==> native_rows(rows, list, nodes, hid).records.contains(record)),
        !list[i].status_known && list[i].xusb_interface ==> native_rows(
            rows,
            list,
            nodes,
            hid,
        ).errors.contains(
            "XUSB controller devnode "@ + decimal(list[i].devinst as nat)
                + " has no authoritative Configuration Manager status"@,
        ),
    decreases list.len(),
{
    let head = list.drop_last();
    let before = native_rows(rows, head, nodes, hid);
    let after = native_row(before, list.last(), nodes, hid);
    lemma_native_row_grows(before, list.last(), nodes, hid);
    if i < head.len() {
        assert(head[i] == list[i]);
        lemma_native_rows(rows, head, nodes, hid, i);
        lemma_members_kept(before, after);
    } else {
        assert(list[i] == list.last());
    }
}

proof fn lemma_repeats_keep_ids(records: Seq<FoundModel>, i: int)
    requires
        0 <= i < records.len(),
    ensures
        exists|j: int|
            0 <= j < without_repeats(records).len() && (#[trigger] without_repeats(
                records,
            )[j]).identity.stable_id == records[i].identity.stable_id,
    decreases records.len(),
{
    let head = without_repeats(records.drop_last());
    let after = without_repeats(records);
    if i < records.len() - 1 {
        lemma_repeats_keep_ids(records.drop_last(), i);
        let j = choose|j: int|
            0 <= j < head.len() && (#[trigger] head[j]).identity.stable_id
                == records.drop_last()[i].identity.stable_id;
        assert(after[j] == head[j]);
    } else if after.len() == head.len() {
        assert(after[head.len() - 1].identity.stable_id == records[i].identity.stable_id);
    } else {
        assert(after[head.len() as int].identity.stable_id == records[i].identity.stable_id);
    }
}

/// The inventory holds a record of this identifier.
pub open spec fn is_recorded(inventory: InventoryModel, id: Seq<char>) -> bool {
    exists|j: int|
        0 <= j < inventory.records.len() && (#[trigger] inventory.records[j]).identity.stable_id
            == id
}

proof fn lemma_recorded(rows: Rows, record: FoundModel, inventory: InventoryModel)
    requires
        rows.records.contains(record),
        inventory.records == without_repeats(sorted_by(rows.records, record_order())),
    ensures
        is_recorded(inventory, record.identity.stable_id),
{
    let sorted = sorted_by(rows.records, record_order());
    sorting_keeps_items(rows.records, record_order());
    let k = choose|k: int| 0 <= k < rows.records.len() && rows.records[k] == record;
    lemma_same_members(rows.records, sorted, k);
    let i = choose|i: int| 0 <= i < sorted.len() && sorted[i] == rows.records[k];
    lemma_repeats_keep_ids(sorted, i);
}

/// A scan misses nothing: every HID function with evidence that makes a
/// controller is recorded, and one that cannot be judged is reported.
pub proof fn a_scan_records_every_hid_controller(
    nodes: Seq<NodeModel>,
    devinsts: Set<u32>,
    hid: Map<u32, AggregateModel>,
    hid_errors: Seq<Seq<char>>,
    devinst: u32,
)
    requires
        hid.dom().finite(),
        hid.contains_key(devinst),
    ensures
        scanned(nodes, devinsts, Seq::empty(), hid, hid_errors) matches Ok(inventory) && {
            let all = inventory.nodes;
            match last_node(all, devinst) {
                Some(node) => {
                    &&& node.status_known ==> (hid_record(node, hid[devinst], all, hid)
                        matches Some(record) ==> is_recorded(
                        inventory,
                        record.identity.stable_id,
                    ))
                    &&& !node.status_known && hid[devinst].allowed ==> inventory.errors.contains(
                        "HID controller devnode "@ + decimal(devinst as nat)
                            + " has no authoritative Configuration Manager status"@,
                    )
                },
                None => inventory.errors.contains(
                    "HID devnode "@ + decimal(devinst as nat)
                        + " was not present in the all-class scan"@,
                ),
            }
        },
{
    let all = with_native(nodes, devinsts);
    let keys = ascending(hid.dom());
    let start = Rows { records: Seq::empty(), errors: hid_errors };
    lemma_ascending_exists(hid.dom());
    assert(keys.to_set().contains(devinst));
    let i = choose|i: int| 0 <= i < keys.len() && keys[i] == devinst;
    lemma_last_node_kept(start, keys, all, hid, i);
    let between = hid_rows(start, keys, all, hid);
    lemma_native_rows_kept(between, all, all, hid);
    let rows = native_rows(between, all, all, hid);
    let inventory = scanned(nodes, devinsts, Seq::empty(), hid, hid_errors)->Ok_0;
    if let Some(node) = last_node(all, devinst) {
        if let Some(record) = hid_record(node, hid[devinst], all, hid) {
            if node.status_known {
                lemma_recorded(rows, record, inventory);
            }
        }
    }
}

/// A scan misses nothing: every native function is recorded, and one that
/// cannot be judged is reported.
pub proof fn a_scan_records_every_native_controller(
    nodes: Seq<NodeModel>,
    devinsts: Set<u32>,
    hid: Map<u32, AggregateModel>,
    hid_errors: Seq<Seq<char>>,
    i: int,
)
    requires
        0 <= i < nodes.len(),
    ensures
        scanned(nodes, devinsts, Seq::empty(), hid, hid_errors) matches Ok(inventory) && {
            let all = inventory.nodes;
            &&& all.len() == nodes.len()
            &&& all[i] == (NodeModel {
                xusb_interface: devinsts.contains(nodes[i].devinst),
                ..nodes[i]
            })
            &&& all[i].status_known ==> (native_record(all[i], all, hid) matches Some(record)
                ==> is_recorded(inventory, record.identity.stable_id))
            &&& !all[i].status_known && all[i].xusb_interface ==> inventory.errors.contains(
                "XUSB controller devnode "@ + decimal(nodes[i].devinst as nat)
                    + " has no authoritative Configuration Manager status"@,
            )
        },
{
    let all = with_native(nodes, devinsts);
    let start = Rows { records: Seq::empty(), errors: hid_errors };
    let between = hid_rows(start, ascending(hid.dom()), all, hid);
    lemma_native_rows(between, all, all, hid, i);
    let rows = native_rows(between, all, all, hid);
    let inventory = scanned(nodes, devinsts, Seq::empty(), hid, hid_errors)->Ok_0;
    assert(all[i].devinst == nodes[i].devinst);
    if all[i].status_known {
        if let Some(record) = native_record(all[i], all, hid) {
            lemma_recorded(rows, record, inventory);
        }
    }
}

/// A scan whose list of native interfaces has gaps is refused, with the gaps in
/// its error; every other scan succeeds and keeps the evidence as it is.
pub proof fn only_gaps_refuse_a_scan(
    nodes: Seq<NodeModel>,
    devinsts: Set<u32>,
    xusb_errors: Seq<Seq<char>>,
    hid: Map<u32, AggregateModel>,
    hid_errors: Seq<Seq<char>>,
)
    ensures
        xusb_errors.len() > 0 ==> scanned(nodes, devinsts, xusb_errors, hid, hid_errors) == Err::<
            InventoryModel,
            ErrorModel,
        >(
            ErrorModel::OperationFailed(
                "XUSB interface enumeration was not authoritative: "@ + join(xusb_errors, "; "@),
            ),
        ),
        xusb_errors.len() == 0 ==> (scanned(nodes, devinsts, xusb_errors, hid, hid_errors)
            matches Ok(inventory) && inventory.hid == hid && inventory.nodes.len() == nodes.len()),
{
}

// Evidence.
/// One interface of a joystick, a game pad or a multi-axis controller makes a
/// controller of that usage; a keyboard or a mouse spoils it, and so do a second
/// controller usage and an interface that is itself mixed.
pub proof fn one_controller_interface_is_evidence(usage: u16, other: u16)
    requires
        usage == 4 || usage == 5 || usage == 8,
    ensures
        ({
            let one = with_interface(no_evidence(), 1, usage, false);
            &&& one.usages == seq![(1u16, usage)]
            &&& one.allowed && !one.disallowed && !one.mixed
            &&& with_interface(one, 1, usage, false) == one
            &&& with_interface(one, 1, usage, true).mixed
            &&& with_interface(one, 1, 6, false).disallowed
            &&& with_interface(one, 1, 2, false).disallowed
            &&& (other == 4 || other == 5 || other == 8) && other != usage ==> with_interface(
                one,
                1,
                other,
                false,
            ).mixed
        }),
{
    reveal_with_fuel(with_usage, 3);
    let none = Seq::<(u16, u16)>::empty();
    let one = seq![(1u16, usage)];
    assert(none.push((1u16, usage)) =~= one);
    assert(one.drop_last() =~= none);
    assert(one.last() == (1u16, usage));
    assert(with_usage(one, (1u16, usage)) == one);
    if (other == 4 || other == 5 || other == 8) && other != usage {
        assert(with_usage(one, (1u16, other)).len() == 2);
    }
}

/// A usage that is none of the three makes no controller, and one on another
/// page changes nothing at all.
pub proof fn other_interfaces_are_no_evidence(before: AggregateModel, usage_page: u16, usage: u16)
    requires
        !(usage_page == 1 && (usage == 4 || usage == 5 || usage == 8)),
        before.usages.len() <= 1,
    ensures
        ({
            let after = with_interface(before, usage_page, usage, false);
            &&& after.usages == before.usages
            &&& after.allowed == before.allowed
            &&& after.mixed == before.mixed
            &&& after.disallowed == (before.disallowed || usage_page == 1 && (usage == 2 || usage
                == 6))
        }),
{
}

/// A device whose only collection is the controller that it announces is not
/// mixed; one that announces something else, or whose collection is of another
/// usage, is.
pub proof fn a_single_collection_is_judged(
    root: HidpLinkCollectionNode,
    usage_page: u16,
    usage: u16,
)
    requires
        root.number_of_children == 0,
        root.first_child == 0,
        root.parent == 0,
        root.next_sibling == 0,
    ensures
        classified(seq![root], usage_page, usage) matches Ok(mixed) ==> mixed == !(usage_page == 1
            && (usage == 4 || usage == 5 || usage == 8) && root.link_usage_page == usage_page
            && root.link_usage == usage && root.collection_type <= 6),
{
    crate::link_collections::mixed_means_a_foreign_collection(seq![root], usage_page, usage);
}

} // verus!
