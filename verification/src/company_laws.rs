//! What stands beside a controller, and what that means for it.
use crate::devnode::{composite_parent, hid_function, keyboard_or_mouse, AggregateModel, NodeModel};
use crate::family::{below, find_node, hits, line, nearest, nearest_is_found_if_any, reaches};
use crate::inventory::{hid_record, native_record};
use crate::link_collections::{
    classified, collection_count, inspected, mixed_means_a_foreign_collection,
    HidpLinkCollectionNode,
};
use crate::link_tree::{is_tree, trees_are_accepted};
use crate::platform::ControlCoverage;
use crate::text::{contains_text, ends_with};
use crate::wide_text::normal;
use crate::xusb::{
    companion_name, conflicts, endangers, mixed_company, native, native_by_name, native_test,
    root_of,
};
use vstd::prelude::*;

verus! {

// Families.
proof fn lemma_line_of_parent(node: NodeModel, parent: NodeModel, all: Seq<NodeModel>, k: nat)
    requires
        node.parent matches Some(p) && find_node(all, p) == Some(parent),
    ensures
        line(node, all, k + 1) == line(parent, all, k),
    decreases k,
{
    if k == 0 {
        reveal_with_fuel(line, 2);
    } else {
        lemma_line_of_parent(node, parent, all, (k - 1) as nat);
    }
}

proof fn lemma_line_ends_here(node: NodeModel, all: Seq<NodeModel>, k: nat)
    requires
        node.parent matches Some(p) ==> find_node(all, p) is None,
    ensures
        line(node, all, k + 1) is None,
    decreases k,
{
    if k == 0 {
        reveal_with_fuel(line, 2);
    } else {
        lemma_line_ends_here(node, all, (k - 1) as nat);
    }
}

proof fn lemma_reaches(node: NodeModel, all: Seq<NodeModel>, test: spec_fn(NodeModel) -> bool)
    ensures
        reaches(node, all, test) <==> test(node) || (node.parent matches Some(p) && find_node(
            all,
            p,
        ) matches Some(parent) && reaches(parent, all, test)),
{
    assert(line(node, all, 0) == Some(node));
    if test(node) {
        assert(hits(node, all, test, 0));
    }
    if let Some(p) = node.parent {
        if let Some(parent) = find_node(all, p) {
            if reaches(parent, all, test) {
                let k = choose|k: nat| #[trigger] hits(parent, all, test, k);
                lemma_line_of_parent(node, parent, all, k);
                assert(hits(node, all, test, k + 1));
            }
            if reaches(node, all, test) && !test(node) {
                let k = choose|k: nat| #[trigger] hits(node, all, test, k);
                assert(k > 0);
                lemma_line_of_parent(node, parent, all, (k - 1) as nat);
                assert(hits(parent, all, test, (k - 1) as nat));
            }
        }
    }
    if (node.parent matches Some(p) ==> find_node(all, p) is None) && reaches(node, all, test)
        && !test(node) {
        let k = choose|k: nat| #[trigger] hits(node, all, test, k);
        assert(k > 0);
        lemma_line_ends_here(node, all, (k - 1) as nat);
    }
}

/// A node hangs below another exactly where that is its parent, or where its
/// parent hangs below it.
pub proof fn what_hangs_below(node: NodeModel, devinst: u32, all: Seq<NodeModel>)
    ensures
        below(node, devinst, all) <==> node.parent == Some(devinst) || (node.parent matches Some(p)
            && find_node(all, p) matches Some(parent) && below(parent, devinst, all)),
{
    lemma_reaches(node, all, |n: NodeModel| n.parent == Some(devinst));
}

/// A node that lists the native interface, and neither bundles functions nor is a
/// HID function, is a native function; one that was switched off is still known
/// by its class or its service.
pub proof fn what_a_native_function_is(node: NodeModel)
    ensures
        native(node) <==> node.xusb_interface && !composite_parent(node) && !hid_function(node),
        native(node) ==> native_by_name(node),
        !composite_parent(node) && !hid_function(node) ==> (native_by_name(node)
            <==> node.xusb_interface || {
            let class = normal(node.class_name);
            let service = normal(node.service);
            ||| class == "XUSB"@
            ||| class == "XNA"@
            ||| class == "XNACOMPOSITE"@
            ||| class == "XNA COMPOSITE"@
            ||| service == "XUSB"@
            ||| service == "XUSB21"@
            ||| service == "XUSB22"@
            ||| service == "XUSB23"@
            ||| service == "XUSB24"@
        }),
        composite_parent(node) || hid_function(node) ==> !native_by_name(node),
{
}

/// The native function that a node belongs to is itself if it is one, and
/// otherwise that of its parent.
pub proof fn where_the_native_function_is(
    node: NodeModel,
    all: Seq<NodeModel>,
    by_name: bool,
)
    ensures
        native(node) || by_name && native_by_name(node) ==> root_of(node, all, by_name) == Some(
            node.devinst,
        ),
        !native(node) && !(by_name && native_by_name(node)) ==> root_of(node, all, by_name) == (
        match node.parent {
            Some(p) => match find_node(all, p) {
                Some(parent) => root_of(parent, all, by_name),
                None => None,
            },
            None => None,
        }),
{
    let test = native_test(by_name);
    assert(line(node, all, 0) == Some(node));
    nearest_is_found_if_any(node, all, test);
    lemma_reaches(node, all, test);
    if test(node) {
        assert(crate::family::first_hit(node, all, test, 0));
        crate::family::lemma_found(node, all, test, 0);
    } else if node.parent is Some && find_node(all, node.parent->0) is Some {
        let parent = find_node(all, node.parent->0)->0;
        nearest_is_found_if_any(parent, all, test);
        if reaches(parent, all, test) {
            let k = choose|k: nat| #[trigger] crate::family::first_hit(parent, all, test, k);
            assert(nearest(parent, all, test) is Some);
            crate::family::lemma_found(parent, all, test, k);
            lemma_line_of_parent(node, parent, all, k);
            assert(hits(node, all, test, k + 1));
            assert forall|j: nat| j < k + 1 implies !#[trigger] hits(node, all, test, j) by {
                if j > 0 {
                    lemma_line_of_parent(node, parent, all, (j - 1) as nat);
                    assert(!hits(parent, all, test, (j - 1) as nat));
                }
            }
            assert(crate::family::first_hit(node, all, test, k + 1));
            crate::family::lemma_found(node, all, test, k + 1);
        }
    }
}

/// The name of a HID function points to a native one beside it.
pub proof fn what_a_companion_is_called(node: NodeModel)
    ensures
        contains_text(normal(node.instance), "&IG_00"@) ==> companion_name(node),
        contains_text(normal(node.instance), "\\IG_00"@) ==> companion_name(node),
        ends_with(normal(node.instance), "IG_00"@) ==> companion_name(node),
{
}

// Company.
/// The evidence of a node is a controller and nothing else.
pub open spec fn sure(hid: Map<u32, AggregateModel>, devinst: u32) -> bool {
    hid.contains_key(devinst) && hid[devinst].allowed && !hid[devinst].disallowed
        && !hid[devinst].mixed
}

/// Some HID function of known state below the node surely is a controller.
pub open spec fn carries_a_controller(
    node: NodeModel,
    all: Seq<NodeModel>,
    hid: Map<u32, AggregateModel>,
) -> bool {
    exists|i: int|
        0 <= i < all.len() && (#[trigger] all[i]).devinst != node.devinst && hid_function(all[i])
            && all[i].status_known && below(all[i], node.devinst, all) && sure(hid, all[i].devinst)
}

/// A node may be lost with the native function above it: its state is not known,
/// its evidence is no controller alone, or there is no evidence and it is no HID
/// function that could belong to the controller.
pub open spec fn may_be_lost(
    c: NodeModel,
    all: Seq<NodeModel>,
    hid: Map<u32, AggregateModel>,
    off: bool,
) -> bool {
    ||| !c.status_known
    ||| hid.contains_key(c.devinst) && !sure(hid, c.devinst)
    ||| !hid.contains_key(c.devinst) && !hid_function(c)
    ||| !hid.contains_key(c.devinst) && !off && !carries_a_controller(c, all, hid)
}

/// Switching a native function endangers something exactly where something below
/// it, other than the controller itself, may be lost.
pub proof fn what_a_switch_endangers(
    node: NodeModel,
    all: Seq<NodeModel>,
    hid: Map<u32, AggregateModel>,
    off: bool,
)
    ensures
        endangers(node, all, hid, off) <==> (root_of(node, all, off) matches Some(root)
            && exists|i: int|
            0 <= i < all.len() && (#[trigger] all[i]).devinst != root && all[i].devinst
                != node.devinst && below(all[i], root, all) && may_be_lost(all[i], all, hid, off)),
{
    if let Some(root) = root_of(node, all, off) {
        let test = crate::xusb::unsafe_below(node, root, all, hid, off);
        assert forall|i: int| 0 <= i < all.len() implies (test(#[trigger] all[i]) <==> (
        all[i].devinst != root && all[i].devinst != node.devinst && below(all[i], root, all)
            && may_be_lost(all[i], all, hid, off))) by {
            let c = all[i];
            let proof_of = crate::xusb::proven_below(c, all, hid);
            if crate::xusb::some_node(all, proof_of) {
                let j = choose|j: int| 0 <= j < all.len() && proof_of(#[trigger] all[j]);
                assert(all[j].devinst != c.devinst && sure(hid, all[j].devinst));
                assert(carries_a_controller(c, all, hid));
            }
            if carries_a_controller(c, all, hid) {
                let j = choose|j: int|
                    0 <= j < all.len() && (#[trigger] all[j]).devinst != c.devinst && hid_function(
                        all[j],
                    ) && all[j].status_known && below(all[j], c.devinst, all) && sure(
                        hid,
                        all[j].devinst,
                    );
                assert(proof_of(all[j]));
            }
        }
        if endangers(node, all, hid, off) {
            let i = choose|i: int| 0 <= i < all.len() && test(#[trigger] all[i]);
            assert(may_be_lost(all[i], all, hid, off));
        }
        if exists|i: int|
            0 <= i < all.len() && (#[trigger] all[i]).devinst != root && all[i].devinst
                != node.devinst && below(all[i], root, all) && may_be_lost(all[i], all, hid, off) {
            let i = choose|i: int|
                0 <= i < all.len() && (#[trigger] all[i]).devinst != root && all[i].devinst
                    != node.devinst && below(all[i], root, all) && may_be_lost(
                    all[i],
                    all,
                    hid,
                    off,
                );
            assert(test(all[i]));
        }
    }
}

/// A HID function is in mixed company exactly where another one below the same
/// native function is seen to be something else than a controller.
pub proof fn what_mixed_company_is(
    node: NodeModel,
    all: Seq<NodeModel>,
    hid: Map<u32, AggregateModel>,
)
    ensures
        mixed_company(node, all, hid) <==> (root_of(node, all, false) matches Some(root)
            && exists|i: int|
            0 <= i < all.len() && (#[trigger] all[i]).devinst != node.devinst && hid_function(
                all[i],
            ) && below(all[i], root, all) && hid.contains_key(all[i].devinst) && !sure(
                hid,
                all[i].devinst,
            )),
{
    if let Some(root) = root_of(node, all, false) {
        let test = crate::xusb::mixed_below(node, root, all, hid);
        if mixed_company(node, all, hid) {
            let i = choose|i: int| 0 <= i < all.len() && test(#[trigger] all[i]);
            assert(hid.contains_key(all[i].devinst) && !sure(hid, all[i].devinst));
        }
        if exists|i: int|
            0 <= i < all.len() && (#[trigger] all[i]).devinst != node.devinst && hid_function(
                all[i],
            ) && below(all[i], root, all) && hid.contains_key(all[i].devinst) && !sure(
                hid,
                all[i].devinst,
            ) {
            let i = choose|i: int|
                0 <= i < all.len() && (#[trigger] all[i]).devinst != node.devinst && hid_function(
                    all[i],
                ) && below(all[i], root, all) && hid.contains_key(all[i].devinst) && !sure(
                    hid,
                    all[i].devinst,
                );
            assert(test(all[i]));
        }
    }
}

/// A switched-off native function is in conflict exactly where a keyboard, a
/// mouse or something else than a controller is seen below it.
pub proof fn what_a_conflict_is(
    node: NodeModel,
    all: Seq<NodeModel>,
    hid: Map<u32, AggregateModel>,
)
    ensures
        conflicts(node, all, hid) <==> (root_of(node, all, true) matches Some(root)
            && exists|i: int|
            0 <= i < all.len() && (#[trigger] all[i]).devinst != root && all[i].devinst
                != node.devinst && below(all[i], root, all) && (keyboard_or_mouse(all[i])
                || hid.contains_key(all[i].devinst) && !sure(hid, all[i].devinst))),
{
    if let Some(root) = root_of(node, all, true) {
        let test = crate::xusb::conflict_below(node, root, all, hid);
        if conflicts(node, all, hid) {
            let i = choose|i: int| 0 <= i < all.len() && test(#[trigger] all[i]);
            assert(all[i].devinst != root);
        }
        if exists|i: int|
            0 <= i < all.len() && (#[trigger] all[i]).devinst != root && all[i].devinst
                != node.devinst && below(all[i], root, all) && (keyboard_or_mouse(all[i])
                || hid.contains_key(all[i].devinst) && !sure(hid, all[i].devinst)) {
            let i = choose|i: int|
                0 <= i < all.len() && (#[trigger] all[i]).devinst != root && all[i].devinst
                    != node.devinst && below(all[i], root, all) && (keyboard_or_mouse(all[i])
                    || hid.contains_key(all[i].devinst) && !sure(hid, all[i].devinst));
            assert(test(all[i]));
        }
    }
}

/// A keyboard right below a native function keeps it from being switched off:
/// the function is shown, but not under control.
pub proof fn a_keyboard_keeps_its_native_function(
    node: NodeModel,
    all: Seq<NodeModel>,
    hid: Map<u32, AggregateModel>,
    i: int,
)
    requires
        node.status_known,
        native(node),
        !hid.contains_key(node.devinst),
        0 <= i < all.len(),
        all[i].parent == Some(node.devinst),
        all[i].devinst != node.devinst,
        !hid_function(all[i]),
        !hid.contains_key(all[i].devinst),
    ensures
        native_record(node, all, hid) matches Some(record) && record.identity.coverage
            == ControlCoverage::Uncontrolled && !record.device.capabilities.full_control,
{
    let off = crate::devnode::switched_off(node);
    where_the_native_function_is(node, all, off);
    what_hangs_below(all[i], node.devinst, all);
    what_a_switch_endangers(node, all, hid, off);
    assert(may_be_lost(all[i], all, hid, off));
}

/// A HID function in mixed company is not recorded.
pub proof fn mixed_company_is_not_recorded(
    node: NodeModel,
    evidence: AggregateModel,
    all: Seq<NodeModel>,
    hid: Map<u32, AggregateModel>,
)
    ensures
        mixed_company(node, all, hid) ==> hid_record(node, evidence, all, hid) is None,
{
}

// Collections.
/// A collection that belongs to a controller: it is of a known kind and, where it
/// is an application, a joystick, gamepad or multi-axis controller.
pub open spec fn belongs(node: HidpLinkCollectionNode) -> bool {
    node.collection_type <= 6 && (node.collection_type == 1 ==> node.link_usage_page == 1 && (
    node.link_usage == 4 || node.link_usage == 5 || node.link_usage == 8))
}

/// The collections of a controller are accepted as such exactly where they form a
/// tree whose root is the announced controller and all of which belong to it; a
/// tree with anything else in it is mixed, and what is no tree is refused.
pub proof fn collections_of_a_controller(
    nodes: Seq<HidpLinkCollectionNode>,
    page: u16,
    usage: u16,
)
    ensures
        classified(nodes, page, usage) == Ok::<bool, Seq<char>>(false) <==> is_tree(nodes)
            && page == 1 && (usage == 4 || usage == 5 || usage == 8) && nodes[0].link_usage_page
            == page && nodes[0].link_usage == usage && forall|i: int|
            0 <= i < nodes.len() ==> belongs(#[trigger] nodes[i]),
        classified(nodes, page, usage) is Ok <==> is_tree(nodes),
{
    trees_are_accepted(nodes, page, usage);
    mixed_means_a_foreign_collection(nodes, page, usage);
    if is_tree(nodes) {
        assert forall|i: int| 0 <= i < nodes.len() implies (belongs(#[trigger] nodes[i])
            <==> !crate::link_collections::foreign(nodes[i])) by {}
    }
}

/// An inspection judges the collections that the driver filled in, and fails
/// where the driver failed.
pub proof fn what_an_inspection_says(
    page: u16,
    usage: u16,
    nodes: Seq<HidpLinkCollectionNode>,
    status: i32,
    length: u32,
    mixed: bool,
)
    ensures
        status == 0x110000 && 0 < length <= nodes.len() && classified(
            nodes.take(length as int),
            page,
            usage,
        ) == Ok::<bool, Seq<char>>(mixed) ==> inspected(page, usage, nodes, status, length) == Ok::<
            (u16, u16, bool),
            Seq<char>,
        >((page, usage, mixed)),
        status != 0x110000 || length == 0 || length > nodes.len() ==> inspected(
            page,
            usage,
            nodes,
            status,
            length,
        ) is Err,
        classified(nodes.take(length as int), page, usage) is Err ==> inspected(
            page,
            usage,
            nodes,
            status,
            length,
        ) is Err,
        status == 0x110000 && 0 < length <= 4096 ==> collection_count(status, length as u16)
            == Ok::<u16, Seq<char>>(length as u16),
        status != 0x110000 ==> collection_count(status, length as u16) is Err,
{
}

} // verus!
