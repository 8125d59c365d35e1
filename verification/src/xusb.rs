//! Which nodes belong to a native game-controller function, and whether
//! switching that function off would take anything else with it.
use crate::devnode::{
    composite_parent, controller_only, hid_function, keyboard_or_mouse, AggregateModel,
    HidAggregate, NodeModel, RawDevnode,
};
use crate::family::{below, first_hit, hits, is_descendant_of, line, nearest};
use crate::interfaces::{evidence, lemma_u32_keys};
use crate::sorting::views;
use crate::text::{contains_text, ends_with, has_suffix, has_text, same};
use crate::wide_text::{normal, normalized};
use std::collections::BTreeMap;
use vstd::prelude::*;

verus! {

/// The node is the native function itself: the system lists its interface.
pub open spec fn native(node: NodeModel) -> bool {
    !composite_parent(node) && !hid_function(node) && node.xusb_interface
}

pub fn xusb_direct(node: &RawDevnode) -> (r: bool)
    ensures
        r == native(node@),
{
    !node.is_composite_parent() && !node.is_hid_function() && node.xusb_interface
}

/// The node is known to be a native function though its interface may be gone,
/// as that of a disabled node is.
pub open spec fn native_by_name(node: NodeModel) -> bool {
    let class = normal(node.class_name);
    let service = normal(node.service);
    !composite_parent(node) && !hid_function(node) && (node.xusb_interface || class == "XUSB"@
        || class == "XNA"@ || class == "XNACOMPOSITE"@ || class == "XNA COMPOSITE"@ || service
        == "XUSB"@ || service == "XUSB21"@ || service == "XUSB22"@ || service == "XUSB23"@
        || service == "XUSB24"@)
}

pub fn xusb_recovery_native(node: &RawDevnode) -> (r: bool)
    ensures
        r == native_by_name(node@),
{
    if xusb_direct(node) || node.is_composite_parent() || node.is_hid_function() {
        return xusb_direct(node);
    }
    let class = normalized(node.class_name.as_str());
    let class = class.as_str();
    let service = normalized(node.service.as_str());
    let service = service.as_str();
    same(class, "XUSB") || same(class, "XNA") || same(class, "XNACOMPOSITE") || same(
        class,
        "XNA COMPOSITE",
    ) || same(service, "XUSB") || same(service, "XUSB21") || same(service, "XUSB22") || same(
        service,
        "XUSB23",
    ) || same(service, "XUSB24")
}

/// What the walk to the native function looks for.
pub open spec fn native_test(allow_recovery: bool) -> spec_fn(NodeModel) -> bool {
    |n: NodeModel| native(n) || (allow_recovery && native_by_name(n))
}

/// The number of the native function that a node belongs to.
pub open spec fn root_of(node: NodeModel, all: Seq<NodeModel>, allow_recovery: bool) -> Option<
    u32,
> {
    match nearest(node, all, native_test(allow_recovery)) {
        Some(n) => Some(n.devinst),
        None => None,
    }
}

fn passes(node: &RawDevnode, allow_recovery: bool) -> (r: bool)
    ensures
        r == native_test(allow_recovery)(node@),
{
    xusb_direct(node) || (allow_recovery && xusb_recovery_native(node))
}

pub fn xusb_relation_root_devinst(
    node: &RawDevnode,
    all: &[RawDevnode],
    allow_recovery: bool,
) -> (r: Option<u32>)
    ensures
        r == root_of(node@, views(all@), allow_recovery),
{
    let ghost test = native_test(allow_recovery);
    let ghost mut k: nat = 0;
    let mut visited: Vec<u32> = Vec::new();
    let mut current = node;
    loop
        invariant
            test == native_test(allow_recovery),
            line(node@, views(all@), k) == Some(current@),
            crate::family::trail(visited@, node@, views(all@), k),
            k <= all@.len(),
            forall|j: nat| j < k ==> !#[trigger] hits(node@, views(all@), test, j),
        decreases all@.len() - k,
    {
        if passes(current, allow_recovery) {
            proof {
                assert(hits(node@, views(all@), test, k));
                assert(first_hit(node@, views(all@), test, k));
                crate::family::lemma_found(node@, views(all@), test, k);
            }
            return Some(current.devinst);
        }
        assert(!hits(node@, views(all@), test, k));
        match crate::family::step_up(current, &mut visited, all, Ghost(node@), Ghost(k)) {
            Some(parent) => {
                current = parent;
                proof {
                    k = k + 1;
                }
            },
            None => {
                proof {
                    crate::family::lemma_not_found(node@, views(all@), test, k);
                }
                return None;
            },
        }
    }
}

pub fn exact_xusb_root_devinst(node: &RawDevnode, all: &[RawDevnode]) -> (r: Option<u32>)
    ensures
        r == root_of(node@, views(all@), false),
{
    xusb_relation_root_devinst(node, all, false)
}

/// A native function at the root or below it.
pub open spec fn native_within(root: u32, all: Seq<NodeModel>) -> spec_fn(NodeModel) -> bool {
    |c: NodeModel| native(c) && (c.devinst == root || below(c, root, all))
}

/// The native functions that a node belongs to.
pub open spec fn related(node: NodeModel, all: Seq<NodeModel>) -> Seq<NodeModel> {
    match root_of(node, all, false) {
        Some(root) => all.filter(native_within(root, all)),
        None => Seq::empty(),
    }
}

pub open spec fn ref_views(list: Seq<&RawDevnode>) -> Seq<NodeModel> {
    list.map_values(|n: &RawDevnode| n@)
}

pub fn xusb_related<'a>(node: &RawDevnode, all: &'a [RawDevnode]) -> (r: Vec<&'a RawDevnode>)
    ensures
        ref_views(r@) == related(node@, views(all@)),
{
    let mut out: Vec<&'a RawDevnode> = Vec::new();
    let root: u32 = match exact_xusb_root_devinst(node, all) {
        Some(root) => root,
        None => {
            assert(ref_views(out@) == Seq::<NodeModel>::empty());
            return out;
        },
    };
    let ghost list = views(all@);
    let ghost test = native_within(root, list);
    let mut i: usize = 0;
    proof {
        reveal(Seq::filter);
        assert(list.take(0).len() == 0);
        assert(ref_views(out@) == list.take(0).filter(test));
    }
    while i < all.len()
        invariant
            i <= all@.len(),
            list == views(all@),
            test == native_within(root, list),
            ref_views(out@) == list.take(i as int).filter(test),
        decreases all@.len() - i,
    {
        let candidate = &all[i];
        proof {
            reveal(Seq::filter);
            assert(list.take(i + 1).drop_last() == list.take(i as int));
            assert(list.take(i + 1).last() == candidate@);
        }
        if xusb_direct(candidate) && (candidate.devinst == root || is_descendant_of(
            candidate,
            root,
            all,
        )) {
            let ghost before = ref_views(out@);
            out.push(candidate);
            assert(ref_views(out@) == before.push(candidate@));
        }
        i += 1;
    }
    assert(list.take(i as int) == list);
    out
}

/// The name says that a native function stands beside this HID function.
pub open spec fn companion_name(node: NodeModel) -> bool {
    let instance = normal(node.instance);
    contains_text(instance, "&IG_00"@) || contains_text(instance, "\\IG_00"@) || ends_with(
        instance,
        "IG_00"@,
    )
}

pub fn xusb_companion_hint(node: &RawDevnode) -> (r: bool)
    ensures
        r == companion_name(node@),
{
    let instance = normalized(node.instance.as_str());
    let instance = instance.as_str();
    has_text(instance, "&IG_00") || has_text(instance, "\\IG_00") || has_suffix(instance, "IG_00")
}

pub open spec fn lookup_evidence(hid: Map<u32, AggregateModel>, devinst: u32) -> Option<
    AggregateModel,
> {
    if hid.contains_key(devinst) {
        Some(hid[devinst])
    } else {
        None
    }
}

pub(crate) fn evidence_for(hid: &BTreeMap<u32, HidAggregate>, devinst: u32) -> (r: Option<
    &HidAggregate,
>)
    ensures
        (match r {
            Some(a) => Some(a@),
            None => None,
        }) == lookup_evidence(evidence(hid@), devinst),
{
    proof {
        lemma_u32_keys();
    }
    hid.get(&devinst)
}

/// The evidence is there and is a controller and nothing else.
pub open spec fn proven(hid: Map<u32, AggregateModel>, devinst: u32) -> bool {
    match lookup_evidence(hid, devinst) {
        Some(a) => controller_only(a),
        None => false,
    }
}

/// The evidence is there and is not a controller alone.
pub open spec fn disproven(hid: Map<u32, AggregateModel>, devinst: u32) -> bool {
    match lookup_evidence(hid, devinst) {
        Some(a) => !controller_only(a),
        None => false,
    }
}

fn is_proven(hid: &BTreeMap<u32, HidAggregate>, devinst: u32) -> (r: bool)
    ensures
        r == proven(evidence(hid@), devinst),
{
    match evidence_for(hid, devinst) {
        Some(a) => a.allowed && !a.disallowed && !a.mixed,
        None => false,
    }
}

fn is_disproven(hid: &BTreeMap<u32, HidAggregate>, devinst: u32) -> (r: bool)
    ensures
        r == disproven(evidence(hid@), devinst),
{
    match evidence_for(hid, devinst) {
        Some(a) => !a.allowed || a.disallowed || a.mixed,
        None => false,
    }
}

/// Some listed node satisfies the test.
pub open spec fn some_node(all: Seq<NodeModel>, test: spec_fn(NodeModel) -> bool) -> bool {
    exists|i: int| 0 <= i < all.len() && test(#[trigger] all[i])
}

/// A HID function below the candidate that is proven to be a controller.
pub open spec fn proven_below(
    candidate: NodeModel,
    all: Seq<NodeModel>,
    hid: Map<u32, AggregateModel>,
) -> spec_fn(NodeModel) -> bool {
    |d: NodeModel|
        d.devinst != candidate.devinst && hid_function(d) && d.status_known && below(
            d,
            candidate.devinst,
            all,
        ) && proven(hid, d.devinst)
}

pub fn has_verified_hid_descendant(
    candidate: &RawDevnode,
    all: &[RawDevnode],
    hid: &BTreeMap<u32, HidAggregate>,
) -> (r: bool)
    ensures
        r == some_node(views(all@), proven_below(candidate@, views(all@), evidence(hid@))),
{
    let ghost test = proven_below(candidate@, views(all@), evidence(hid@));
    let mut i: usize = 0;
    while i < all.len()
        invariant
            i <= all@.len(),
            test == proven_below(candidate@, views(all@), evidence(hid@)),
            forall|j: int| 0 <= j < i ==> !test(#[trigger] views(all@)[j]),
        decreases all@.len() - i,
    {
        let d = &all[i];
        assert(views(all@)[i as int] == d@);
        if d.devinst != candidate.devinst && d.is_hid_function() && d.status_known
            && is_descendant_of(d, candidate.devinst, all) && is_proven(hid, d.devinst) {
            assert(test(views(all@)[i as int]));
            return true;
        }
        i += 1;
    }
    false
}

/// Switching the root off would take this node with it, and it is not known to
/// be part of the controller.  Evidence decides whatever the class says; a HID
/// function without evidence may be the transport of a proven one, or may have
/// vanished while the root is disabled.
pub open spec fn unsafe_below(
    node: NodeModel,
    root: u32,
    all: Seq<NodeModel>,
    hid: Map<u32, AggregateModel>,
    allow_unobserved_hid: bool,
) -> spec_fn(NodeModel) -> bool {
    |c: NodeModel|
        c.devinst != root && c.devinst != node.devinst && below(c, root, all) && (
        !c.status_known || (if hid.contains_key(c.devinst) {
            disproven(hid, c.devinst)
        } else {
            !hid_function(c) || (!allow_unobserved_hid && !some_node(
                all,
                proven_below(c, all, hid),
            ))
        }))
}

pub open spec fn endangers(
    node: NodeModel,
    all: Seq<NodeModel>,
    hid: Map<u32, AggregateModel>,
    allow_unobserved_hid: bool,
) -> bool {
    match root_of(node, all, allow_unobserved_hid) {
        Some(root) => some_node(all, unsafe_below(node, root, all, hid, allow_unobserved_hid)),
        None => false,
    }
}

pub fn related_unsafe_xusb_descendant(
    node: &RawDevnode,
    all: &[RawDevnode],
    hid: &BTreeMap<u32, HidAggregate>,
    allow_unobserved_hid: bool,
) -> (r: bool)
    ensures
        r == endangers(node@, views(all@), evidence(hid@), allow_unobserved_hid),
{
    let root: u32 = match xusb_relation_root_devinst(node, all, allow_unobserved_hid) {
        Some(root) => root,
        None => {
            return false;
        },
    };
    let ghost test = unsafe_below(
        node@,
        root,
        views(all@),
        evidence(hid@),
        allow_unobserved_hid,
    );
    let mut i: usize = 0;
    while i < all.len()
        invariant
            i <= all@.len(),
            root_of(node@, views(all@), allow_unobserved_hid) == Some(root),
            test == unsafe_below(
                node@,
                root,
                views(all@),
                evidence(hid@),
                allow_unobserved_hid,
            ),
            forall|j: int| 0 <= j < i ==> !test(#[trigger] views(all@)[j]),
        decreases all@.len() - i,
    {
        let c = &all[i];
        assert(views(all@)[i as int] == c@);
        if c.devinst != root && c.devinst != node.devinst && is_descendant_of(c, root, all) {
            let risky = if !c.status_known {
                true
            } else if evidence_for(hid, c.devinst).is_some() {
                is_disproven(hid, c.devinst)
            } else if c.is_hid_function() {
                !allow_unobserved_hid && !has_verified_hid_descendant(c, all, hid)
            } else {
                true
            };
            if risky {
                assert(test(views(all@)[i as int]));
                return true;
            }
        }
        assert(!test(views(all@)[i as int]));
        i += 1;
    }
    false
}

/// A node below the root that is seen to be something else than a controller.
pub open spec fn conflict_below(
    node: NodeModel,
    root: u32,
    all: Seq<NodeModel>,
    hid: Map<u32, AggregateModel>,
) -> spec_fn(NodeModel) -> bool {
    |c: NodeModel|
        c.devinst != root && c.devinst != node.devinst && below(c, root, all) && (
        keyboard_or_mouse(c) || disproven(hid, c.devinst))
}

pub open spec fn conflicts(
    node: NodeModel,
    all: Seq<NodeModel>,
    hid: Map<u32, AggregateModel>,
) -> bool {
    match root_of(node, all, true) {
        Some(root) => some_node(all, conflict_below(node, root, all, hid)),
        None => false,
    }
}

pub fn related_observed_xusb_conflict(
    node: &RawDevnode,
    all: &[RawDevnode],
    hid: &BTreeMap<u32, HidAggregate>,
) -> (r: bool)
    ensures
        r == conflicts(node@, views(all@), evidence(hid@)),
{
    let root: u32 = match xusb_relation_root_devinst(node, all, true) {
        Some(root) => root,
        None => {
            return false;
        },
    };
    let ghost test = conflict_below(node@, root, views(all@), evidence(hid@));
    let mut i: usize = 0;
    while i < all.len()
        invariant
            i <= all@.len(),
            root_of(node@, views(all@), true) == Some(root),
            test == conflict_below(node@, root, views(all@), evidence(hid@)),
            forall|j: int| 0 <= j < i ==> !test(#[trigger] views(all@)[j]),
        decreases all@.len() - i,
    {
        let c = &all[i];
        assert(views(all@)[i as int] == c@);
        if c.devinst != root && c.devinst != node.devinst && is_descendant_of(c, root, all) && (
        c.is_explicit_keyboard_or_mouse() || is_disproven(hid, c.devinst)) {
            assert(test(views(all@)[i as int]));
            return true;
        }
        i += 1;
    }
    false
}

/// Another HID function below the root that is not a controller alone.
pub open spec fn mixed_below(
    node: NodeModel,
    root: u32,
    all: Seq<NodeModel>,
    hid: Map<u32, AggregateModel>,
) -> spec_fn(NodeModel) -> bool {
    |c: NodeModel|
        c.devinst != node.devinst && hid_function(c) && below(c, root, all) && disproven(
            hid,
            c.devinst,
        )
}

/// An independent HID function has its own boundary: without a native root
/// nothing else counts.
pub open spec fn mixed_company(
    node: NodeModel,
    all: Seq<NodeModel>,
    hid: Map<u32, AggregateModel>,
) -> bool {
    match root_of(node, all, false) {
        Some(root) => some_node(all, mixed_below(node, root, all, hid)),
        None => false,
    }
}

pub fn related_mixed_hid_function(
    node: &RawDevnode,
    all: &[RawDevnode],
    hid: &BTreeMap<u32, HidAggregate>,
) -> (r: bool)
    ensures
        r == mixed_company(node@, views(all@), evidence(hid@)),
{
    let root: u32 = match exact_xusb_root_devinst(node, all) {
        Some(root) => root,
        None => {
            return false;
        },
    };
    let ghost test = mixed_below(node@, root, views(all@), evidence(hid@));
    let mut i: usize = 0;
    while i < all.len()
        invariant
            i <= all@.len(),
            root_of(node@, views(all@), false) == Some(root),
            test == mixed_below(node@, root, views(all@), evidence(hid@)),
            forall|j: int| 0 <= j < i ==> !test(#[trigger] views(all@)[j]),
        decreases all@.len() - i,
    {
        let c = &all[i];
        assert(views(all@)[i as int] == c@);
        if c.devinst != node.devinst && c.is_hid_function() && is_descendant_of(c, root, all)
            && is_disproven(hid, c.devinst) {
            assert(test(views(all@)[i as int]));
            return true;
        }
        i += 1;
    }
    false
}

} // verus!
