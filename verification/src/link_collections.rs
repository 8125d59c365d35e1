//! Classification of the link collections that a HID driver reports.
//!
//! The driver hands out an array whose first element is the top-level
//! collection; children hang on it by index.  A walk over the array accepts it
//! only if the indices form one tree that holds every element once.
use crate::link_tree::{is_tree, trees_are_accepted};
use crate::text::{decimal, decimal_of, joined3, text_result, upper_hex, upper_hex_of};
use vstd::prelude::*;

verus! {

pub const GENERIC_DESKTOP_PAGE: u16 = 0x01;

pub const USAGE_MOUSE: u16 = 0x02;

pub const USAGE_JOYSTICK: u16 = 0x04;

pub const USAGE_GAME_PAD: u16 = 0x05;

pub const USAGE_KEYBOARD: u16 = 0x06;

pub const USAGE_KEYPAD: u16 = 0x07;

pub const USAGE_MULTI_AXIS: u16 = 0x08;

pub const COLLECTION_PHYSICAL: u8 = 0;

pub const COLLECTION_APPLICATION: u8 = 1;

pub const COLLECTION_LOGICAL: u8 = 2;

pub const COLLECTION_REPORT: u8 = 3;

pub const COLLECTION_NAMED_ARRAY: u8 = 4;

pub const COLLECTION_USAGE_SWITCH: u8 = 5;

pub const COLLECTION_USAGE_MODIFIER: u8 = 6;

pub const HIDP_STATUS_SUCCESS: i32 = 0x0011_0000;

/// The most link collections that are read.
pub const MAX_LINK_COLLECTIONS: u16 = 4096;

/// One element of the array.  A zero index stands for no child and no sibling.
#[derive(Clone, Copy, Debug, PartialEq, Eq, Structural)]
pub struct HidpLinkCollectionNode {
    pub link_usage: u16,
    pub link_usage_page: u16,
    pub parent: u16,
    pub number_of_children: u16,
    pub next_sibling: u16,
    pub first_child: u16,
    pub collection_type: u8,
    pub is_alias: u8,
}

/// A joystick, a game pad or a multi-axis controller.
pub open spec fn allowed_usage(usage_page: u16, usage: u16) -> bool {
    usage_page == GENERIC_DESKTOP_PAGE && (usage == USAGE_JOYSTICK || usage == USAGE_GAME_PAD
        || usage == USAGE_MULTI_AXIS)
}

pub fn is_allowed_usage(usage_page: u16, usage: u16) -> (r: bool)
    ensures
        r == allowed_usage(usage_page, usage),
{
    usage_page == GENERIC_DESKTOP_PAGE && (usage == USAGE_JOYSTICK || usage == USAGE_GAME_PAD
        || usage == USAGE_MULTI_AXIS)
}

/// A collection of no known type, or an application of its own that is no
/// controller.  Other groupings belong to the collection that holds them.
pub open spec fn foreign(node: HidpLinkCollectionNode) -> bool {
    ||| node.collection_type > COLLECTION_USAGE_MODIFIER
    ||| node.collection_type == COLLECTION_APPLICATION && !allowed_usage(
        node.link_usage_page,
        node.link_usage,
    )
}

/// The top-level collection is not simply the controller that the device
/// announces.
pub open spec fn foreign_root(root: HidpLinkCollectionNode, usage_page: u16, usage: u16) -> bool {
    ||| !allowed_usage(usage_page, usage)
    ||| root.link_usage_page != usage_page
    ||| root.link_usage != usage
    ||| foreign(root)
    ||| root.link_usage_page == GENERIC_DESKTOP_PAGE && (root.link_usage == USAGE_MOUSE
        || root.link_usage == USAGE_KEYBOARD || root.link_usage == USAGE_KEYPAD)
}

/// How far a walk has come: the elements met, those whose children are still to
/// be followed, and whether a foreign collection was met.
#[verifier::ext_equal]
pub struct Walk {
    pub seen: Set<int>,
    pub pending: Seq<int>,
    pub mixed: bool,
}

/// How many of the first `n` elements were not met.
pub open spec fn unseen(seen: Set<int>, n: nat) -> nat
    decreases n,
{
    if n == 0 {
        0
    } else {
        unseen(seen, (n - 1) as nat) + (if seen.contains(n - 1) {
            0nat
        } else {
            1nat
        })
    }
}

pub proof fn lemma_unseen(seen: Set<int>, child: int, n: nat)
    requires
        !seen.contains(child),
    ensures
        unseen(seen.insert(child), n) == unseen(seen, n) - (if 0 <= child < n {
            1int
        } else {
            0int
        }),
    decreases n,
{
    if n > 0 {
        lemma_unseen(seen, child, (n - 1) as nat);
    }
}

pub open spec fn outside_array(parent: int, child: int) -> Seq<char> {
    "HID link-collection node "@ + decimal(parent as nat) + " points to child index "@ + decimal(
        child as nat,
    ) + " outside the array"@
}

pub open spec fn cyclic_siblings(parent: int) -> Seq<char> {
    "HID link-collection node "@ + decimal(parent as nat) + " has a cyclic sibling list"@
}

pub open spec fn met_twice(child: int) -> Seq<char> {
    "HID link-collection node "@ + decimal(child as nat) + " is reachable more than once"@
}

pub open spec fn wrong_parent(child: int) -> Seq<char> {
    "HID link-collection node "@ + decimal(child as nat)
        + " disagrees with its parent's child link"@
}

pub open spec fn wrong_count(parent: int, announced: u16, linked: nat) -> Seq<char> {
    "HID link-collection node "@ + decimal(parent as nat) + " reports "@ + decimal(
        announced as nat,
    ) + " children but links "@ + decimal(linked)
}

/// Follows the children of one element, from `child` on; `siblings` are those
/// already followed.
pub open spec fn follow(
    nodes: Seq<HidpLinkCollectionNode>,
    parent: int,
    child: int,
    siblings: Seq<int>,
    walk: Walk,
) -> Result<(Seq<int>, Walk), Seq<char>>
    decreases unseen(walk.seen, nodes.len()),
{
    if child == 0 {
        Ok((siblings, walk))
    } else if child < 0 || child >= nodes.len() {
        Err(outside_array(parent, child))
    } else if siblings.contains(child) {
        Err(cyclic_siblings(parent))
    } else if walk.seen.contains(child) {
        Err(met_twice(child))
    } else if nodes[child].parent != parent {
        Err(wrong_parent(child))
    } else {
        proof {
            lemma_unseen(walk.seen, child, nodes.len());
        }
        follow(
            nodes,
            parent,
            nodes[child].next_sibling as int,
            siblings.push(child),
            Walk {
                seen: walk.seen.insert(child),
                pending: walk.pending.push(child),
                mixed: walk.mixed || foreign(nodes[child]),
            },
        )
    }
}

pub proof fn lemma_follow(
    nodes: Seq<HidpLinkCollectionNode>,
    parent: int,
    child: int,
    siblings: Seq<int>,
    walk: Walk,
)
    ensures
        follow(nodes, parent, child, siblings, walk) matches Ok((_, after)) ==> {
            &&& unseen(after.seen, nodes.len()) + after.pending.len() == unseen(
                walk.seen,
                nodes.len(),
            ) + walk.pending.len()
            &&& forall|i: int| #[trigger]
                after.seen.contains(i) ==> walk.seen.contains(i) || 0 < i < nodes.len()
            &&& forall|i: int| #[trigger] walk.seen.contains(i) ==> after.seen.contains(i)
            &&& after.mixed == (walk.mixed || exists|i: int|
                after.seen.contains(i) && !walk.seen.contains(i) && foreign(#[trigger] nodes[i]))
        },
    decreases unseen(walk.seen, nodes.len()),
{
    if 0 < child < nodes.len() && !siblings.contains(child) && !walk.seen.contains(child)
        && nodes[child].parent == parent {
        lemma_unseen(walk.seen, child, nodes.len());
        let next = Walk {
            seen: walk.seen.insert(child),
            pending: walk.pending.push(child),
            mixed: walk.mixed || foreign(nodes[child]),
        };
        lemma_follow(
            nodes,
            parent,
            nodes[child].next_sibling as int,
            siblings.push(child),
            next,
        );
        if let Ok((_, after)) = follow(nodes, parent, child, siblings, walk) {
            assert(next.seen.contains(child));
            assert(after.seen.contains(child));
            if exists|i: int|
                after.seen.contains(i) && !walk.seen.contains(i) && foreign(#[trigger] nodes[i]) {
                let i = choose|i: int|
                    after.seen.contains(i) && !walk.seen.contains(i) && foreign(
                        #[trigger] nodes[i],
                    );
                assert(i == child || !next.seen.contains(i));
            }
            assert forall|i: int| #[trigger] walk.seen.contains(i) implies after.seen.contains(
                i,
            ) by {
                assert(next.seen.contains(i));
            }
        }
    }
}

/// Follows the children of every pending element.
pub open spec fn walked(nodes: Seq<HidpLinkCollectionNode>, walk: Walk) -> Result<Walk, Seq<char>>
    decreases unseen(walk.seen, nodes.len()) + walk.pending.len(),
{
    if walk.pending.len() == 0 {
        Ok(walk)
    } else {
        let parent = walk.pending.last();
        let rest = Walk { pending: walk.pending.drop_last(), ..walk };
        let child = nodes[parent].first_child as int;
        proof {
            lemma_follow(nodes, parent, child, Seq::empty(), rest);
        }
        match follow(nodes, parent, child, Seq::empty(), rest) {
            Err(e) => Err(e),
            Ok((children, after)) => if children.len() != nodes[parent].number_of_children {
                Err(wrong_count(parent, nodes[parent].number_of_children, children.len()))
            } else {
                walked(nodes, after)
            },
        }
    }
}

pub open spec fn root_walk(mixed: bool) -> Walk {
    Walk { seen: Set::empty().insert(0), pending: seq![0], mixed }
}

pub open spec fn all_seen(seen: Set<int>, n: nat) -> bool {
    forall|i: int| 0 <= i < n ==> #[trigger] seen.contains(i)
}

/// Whether the collections are more than one controller, or why the array is
/// refused.
pub open spec fn classified(
    nodes: Seq<HidpLinkCollectionNode>,
    usage_page: u16,
    usage: u16,
) -> Result<bool, Seq<char>> {
    if nodes.len() == 0 {
        Err("HID link-collection array has no top-level collection"@)
    } else if nodes[0].parent != 0 {
        Err("HID link-collection array root has a parent"@)
    } else {
        match walked(nodes, root_walk(foreign_root(nodes[0], usage_page, usage))) {
            Err(e) => Err(e),
            Ok(walk) => if all_seen(walk.seen, nodes.len()) {
                Ok(walk.mixed)
            } else {
                Err("HID link-collection array contains an unreachable node"@)
            },
        }
    }
}

proof fn lemma_walked(nodes: Seq<HidpLinkCollectionNode>, walk: Walk)
    ensures
        walked(nodes, walk) matches Ok(after) ==> {
            &&& forall|i: int| #[trigger]
                after.seen.contains(i) ==> walk.seen.contains(i) || 0 < i < nodes.len()
            &&& forall|i: int| #[trigger] walk.seen.contains(i) ==> after.seen.contains(i)
            &&& after.mixed == (walk.mixed || exists|i: int|
                after.seen.contains(i) && !walk.seen.contains(i) && foreign(#[trigger] nodes[i]))
        },
    decreases unseen(walk.seen, nodes.len()) + walk.pending.len(),
{
    if walk.pending.len() > 0 {
        let parent = walk.pending.last();
        let rest = Walk { pending: walk.pending.drop_last(), ..walk };
        let child = nodes[parent].first_child as int;
        lemma_follow(nodes, parent, child, Seq::empty(), rest);
        if let Ok((children, between)) = follow(nodes, parent, child, Seq::empty(), rest) {
            if children.len() == nodes[parent].number_of_children {
                lemma_walked(nodes, between);
                if let Ok(after) = walked(nodes, walk) {
                    if between.mixed && !walk.mixed {
                        let i = choose|i: int|
                            between.seen.contains(i) && !walk.seen.contains(i) && foreign(
                                #[trigger] nodes[i],
                            );
                        assert(after.seen.contains(i));
                    }
                    if exists|i: int|
                        after.seen.contains(i) && !walk.seen.contains(i) && foreign(
                            #[trigger] nodes[i],
                        ) {
                        let i = choose|i: int|
                            after.seen.contains(i) && !walk.seen.contains(i) && foreign(
                                #[trigger] nodes[i],
                            );
                        if between.seen.contains(i) {
                            assert(between.mixed);
                        }
                    }
                }
            }
        }
    }
}

fn is_foreign(node: &HidpLinkCollectionNode) -> (r: bool)
    ensures
        r == foreign(*node),
{
    node.collection_type > COLLECTION_USAGE_MODIFIER || (node.collection_type
        == COLLECTION_APPLICATION && !is_allowed_usage(node.link_usage_page, node.link_usage))
}

spec fn marked(seen: Seq<bool>) -> Set<int> {
    Set::new(|i: int| 0 <= i < seen.len() && seen[i])
}

spec fn indices(list: Seq<usize>) -> Seq<int> {
    list.map_values(|i: usize| i as int)
}

spec fn walk_of(seen: Seq<bool>, pending: Seq<usize>, mixed: bool) -> Walk {
    Walk { seen: marked(seen), pending: indices(pending), mixed }
}

fn holds(list: &[usize], item: usize) -> (r: bool)
    ensures
        r == indices(list@).contains(item as int),
{
    let mut i: usize = 0;
    while i < list.len()
        invariant
            i <= list@.len(),
            forall|j: int| 0 <= j < i ==> list@[j] != item,
        decreases list@.len() - i,
    {
        if list[i] == item {
            assert(indices(list@)[i as int] == item as int);
            return true;
        }
        i += 1;
    }
    proof {
        if indices(list@).contains(item as int) {
            let k = choose|k: int|
                0 <= k < indices(list@).len() && indices(list@)[k] == item as int;
            assert(list@[k] == item);
        }
    }
    false
}

fn follow_children(
    nodes: &[HidpLinkCollectionNode],
    parent: usize,
    seen: &mut Vec<bool>,
    pending: &mut Vec<usize>,
    mixed: bool,
) -> (r: Result<(usize, bool), String>)
    requires
        parent < nodes@.len(),
        old(seen)@.len() == nodes@.len(),
        forall|i: int| 0 <= i < old(pending)@.len() ==> #[trigger] old(pending)@[i] < nodes@.len(),
    ensures
        final(seen)@.len() == nodes@.len(),
        r is Ok ==> forall|i: int|
            0 <= i < final(pending)@.len() ==> #[trigger] final(pending)@[i] < nodes@.len(),
        match (
            r,
            follow(
                nodes@,
                parent as int,
                nodes@[parent as int].first_child as int,
                Seq::empty(),
                walk_of(old(seen)@, old(pending)@, mixed),
            ),
        ) {
            (Ok((count, after_mixed)), Ok((children, after))) => {
                &&& count == children.len()
                &&& after == walk_of(final(seen)@, final(pending)@, after_mixed)
            },
            (Err(e), Err(m)) => e@ == m,
            _ => false,
        },
{
    let ghost start = walk_of(seen@, pending@, mixed);
    let ghost first = nodes@[parent as int].first_child as int;
    let mut child: usize = nodes[parent].first_child as usize;
    let mut siblings: Vec<usize> = Vec::new();
    let mut found = mixed;
    assert(indices(siblings@) == Seq::<int>::empty());
    while child != 0
        invariant
            parent < nodes@.len(),
            start == walk_of(old(seen)@, old(pending)@, mixed),
            first == nodes@[parent as int].first_child as int,
            seen@.len() == nodes@.len(),
            forall|i: int| 0 <= i < pending@.len() ==> #[trigger] pending@[i] < nodes@.len(),
            follow(nodes@, parent as int, first, Seq::empty(), start) == follow(
                nodes@,
                parent as int,
                child as int,
                indices(siblings@),
                walk_of(seen@, pending@, found),
            ),
        decreases unseen(marked(seen@), nodes@.len()),
    {
        if child >= nodes.len() {
            let mut out = joined3(
                "HID link-collection node ",
                decimal_of(parent as u64).as_str(),
                " points to child index ",
            );
            out.append(decimal_of(child as u64).as_str());
            out.append(" outside the array");
            return Err(out);
        }
        if holds(siblings.as_slice(), child) {
            return Err(
                joined3(
                    "HID link-collection node ",
                    decimal_of(parent as u64).as_str(),
                    " has a cyclic sibling list",
                ),
            );
        }
        if seen[child] {
            return Err(
                joined3(
                    "HID link-collection node ",
                    decimal_of(child as u64).as_str(),
                    " is reachable more than once",
                ),
            );
        }
        if nodes[child].parent as usize != parent {
            return Err(
                joined3(
                    "HID link-collection node ",
                    decimal_of(child as u64).as_str(),
                    " disagrees with its parent's child link",
                ),
            );
        }
        proof {
            let before = walk_of(seen@, pending@, found);
            lemma_unseen(before.seen, child as int, nodes@.len());
            assert(marked(seen@.update(child as int, true)) =~= before.seen.insert(child as int));
            assert(indices(pending@.push(child)) =~= before.pending.push(child as int));
            assert(indices(siblings@.push(child)) =~= indices(siblings@).push(child as int));
        }
        seen.set(child, true);
        if is_foreign(&nodes[child]) {
            found = true;
        }
        pending.push(child);
        siblings.push(child);
        child = nodes[child].next_sibling as usize;
    }
    Ok((siblings.len(), found))
}

fn follow_all(nodes: &[HidpLinkCollectionNode], mixed: bool) -> (r: Result<
    (Vec<bool>, bool),
    String,
>)
    requires
        nodes@.len() > 0,
    ensures
        match (r, walked(nodes@, root_walk(mixed))) {
            (Ok((seen, after_mixed)), Ok(walk)) => {
                &&& seen@.len() == nodes@.len()
                &&& walk.seen == marked(seen@)
                &&& walk.mixed == after_mixed
            },
            (Err(e), Err(m)) => e@ == m,
            _ => false,
        },
{
    let ghost start = root_walk(mixed);
    let mut seen: Vec<bool> = Vec::new();
    let mut i: usize = 0;
    while i < nodes.len()
        invariant
            i <= nodes@.len(),
            seen@.len() == i,
            forall|j: int| 0 <= j < i ==> seen@[j] == (j == 0),
        decreases nodes@.len() - i,
    {
        seen.push(i == 0);
        i += 1;
    }
    let mut pending: Vec<usize> = Vec::new();
    pending.push(0);
    let mut found = mixed;
    assert(marked(seen@) =~= start.seen);
    assert(indices(pending@) =~= start.pending);
    while pending.len() > 0
        invariant
            start == root_walk(mixed),
            seen@.len() == nodes@.len(),
            forall|i: int| 0 <= i < pending@.len() ==> #[trigger] pending@[i] < nodes@.len(),
            walked(nodes@, start) == walked(nodes@, walk_of(seen@, pending@, found)),
        decreases unseen(marked(seen@), nodes@.len()) + pending@.len(),
    {
        let ghost before = walk_of(seen@, pending@, found);
        let parent: usize = pending[pending.len() - 1];
        let ghost popped = pending@.drop_last();
        pending.pop();
        proof {
            assert(before.pending.last() == parent as int);
            assert(indices(popped) =~= before.pending.drop_last());
            lemma_follow(
                nodes@,
                parent as int,
                nodes@[parent as int].first_child as int,
                Seq::empty(),
                walk_of(seen@, pending@, found),
            );
        }
        let (count, after) = match follow_children(nodes, parent, &mut seen, &mut pending, found) {
            Ok(v) => v,
            Err(e) => {
                return Err(e);
            },
        };
        found = after;
        if count != nodes[parent].number_of_children as usize {
            let mut out = joined3(
                "HID link-collection node ",
                decimal_of(parent as u64).as_str(),
                " reports ",
            );
            out.append(decimal_of(nodes[parent].number_of_children as u64).as_str());
            out.append(" children but links ");
            out.append(decimal_of(count as u64).as_str());
            return Err(out);
        }
    }
    assert(walk_of(seen@, pending@, found).pending.len() == 0);
    Ok((seen, found))
}

fn every_one_seen(seen: &[bool]) -> (r: bool)
    ensures
        r == all_seen(marked(seen@), seen@.len()),
{
    let mut i: usize = 0;
    while i < seen.len()
        invariant
            i <= seen@.len(),
            forall|j: int| 0 <= j < i ==> seen@[j],
        decreases seen@.len() - i,
    {
        if !seen[i] {
            assert(!marked(seen@).contains(i as int));
            return false;
        }
        i += 1;
    }
    true
}

pub fn classify_hid_collections(
    nodes: &[HidpLinkCollectionNode],
    usage_page: u16,
    usage: u16,
) -> (r: Result<bool, String>)
    ensures
        text_result(r) == classified(nodes@, usage_page, usage),
        r is Ok <==> is_tree(nodes@),
        r matches Ok(mixed) ==> mixed == (foreign_root(nodes@[0], usage_page, usage) || exists|
            i: int,
        |
            0 < i < nodes@.len() && foreign(#[trigger] nodes@[i])),
{
    proof {
        trees_are_accepted(nodes@, usage_page, usage);
        mixed_means_a_foreign_collection(nodes@, usage_page, usage);
    }
    if nodes.len() == 0 {
        return Err("HID link-collection array has no top-level collection".to_owned());
    }
    let root = nodes[0];
    if root.parent != 0 {
        return Err("HID link-collection array root has a parent".to_owned());
    }
    let mixed = !is_allowed_usage(usage_page, usage) || root.link_usage_page != usage_page
        || root.link_usage != usage || is_foreign(&root) || (root.link_usage_page
        == GENERIC_DESKTOP_PAGE && (root.link_usage == USAGE_MOUSE || root.link_usage
        == USAGE_KEYBOARD || root.link_usage == USAGE_KEYPAD));
    let (seen, mixed) = match follow_all(nodes, mixed) {
        Ok(v) => v,
        Err(e) => {
            return Err(e);
        },
    };
    if every_one_seen(seen.as_slice()) {
        Ok(mixed)
    } else {
        Err("HID link-collection array contains an unreachable node".to_owned())
    }
}

pub open spec fn status_text(call: Seq<char>, status: i32) -> Seq<char> {
    call + " failed with HID status 0x"@ + upper_hex((status as u32) as nat, 8)
}

/// How many link collections are to be read.
pub open spec fn collection_count(status: i32, count: u16) -> Result<u16, Seq<char>> {
    if status != HIDP_STATUS_SUCCESS {
        Err(status_text("HidP_GetCaps"@, status))
    } else if count == 0 || count > MAX_LINK_COLLECTIONS {
        Err("HID preparsed data did not provide a bounded link-collection array"@)
    } else {
        Ok(count)
    }
}

fn describe_status(call: &str, status: i32) -> (r: String)
    ensures
        r@ == status_text(call@, status),
{
    joined3(
        call,
        " failed with HID status 0x",
        upper_hex_of((status as u32) as u64, 8).as_str(),
    )
}

/// `status` and `count` are what the driver answered about its capabilities.
pub fn link_collection_count(status: i32, count: u16) -> (r: Result<u16, String>)
    ensures
        text_result(r) == collection_count(status, count),
{
    if status != HIDP_STATUS_SUCCESS {
        Err(describe_status("HidP_GetCaps", status))
    } else if count == 0 || count > MAX_LINK_COLLECTIONS {
        Err("HID preparsed data did not provide a bounded link-collection array".to_owned())
    } else {
        Ok(count)
    }
}

/// What the inspection of a HID path says of it.
pub open spec fn inspected(
    usage_page: u16,
    usage: u16,
    nodes: Seq<HidpLinkCollectionNode>,
    status: i32,
    length: u32,
) -> Result<(u16, u16, bool), Seq<char>> {
    if status != HIDP_STATUS_SUCCESS || length == 0 || length > nodes.len() {
        Err(status_text("HidP_GetLinkCollectionNodes"@, status))
    } else {
        match classified(nodes.take(length as int), usage_page, usage) {
            Ok(mixed) => Ok((usage_page, usage, mixed)),
            Err(e) => Err(e),
        }
    }
}

/// `nodes` is the buffer that the driver filled, `status` and `length` what it
/// answered.
pub fn inspect_hid_path(
    usage_page: u16,
    usage: u16,
    nodes: &[HidpLinkCollectionNode],
    status: i32,
    length: u32,
) -> (r: Result<(u16, u16, bool), String>)
    ensures
        text_result(r) == inspected(usage_page, usage, nodes@, status, length),
{
    if status != HIDP_STATUS_SUCCESS || length == 0 || length as usize > nodes.len() {
        return Err(describe_status("HidP_GetLinkCollectionNodes", status));
    }
    let filled = vstd::slice::slice_subrange(nodes, 0, length as usize);
    assert(filled@ == nodes@.take(length as int));
    match classify_hid_collections(filled, usage_page, usage) {
        Ok(mixed) => Ok((usage_page, usage, mixed)),
        Err(e) => Err(e),
    }
}

/// An accepted array is mixed exactly if its root is not the announced
/// controller or some other element is foreign.
pub proof fn mixed_means_a_foreign_collection(
    nodes: Seq<HidpLinkCollectionNode>,
    usage_page: u16,
    usage: u16,
)
    ensures
        classified(nodes, usage_page, usage) matches Ok(mixed) ==> mixed == (foreign_root(
            nodes[0],
            usage_page,
            usage,
        ) || exists|i: int| 0 < i < nodes.len() && foreign(#[trigger] nodes[i])),
{
    let walk = root_walk(foreign_root(nodes[0], usage_page, usage));
    lemma_walked(nodes, walk);
    if classified(nodes, usage_page, usage) is Ok {
        let after = walked(nodes, walk)->Ok_0;
        if exists|i: int| 0 < i < nodes.len() && foreign(#[trigger] nodes[i]) {
            let i = choose|i: int| 0 < i < nodes.len() && foreign(#[trigger] nodes[i]);
            assert(after.seen.contains(i));
        }
    }
}

} // verus!
