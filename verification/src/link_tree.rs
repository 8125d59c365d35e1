//! When link collections form one tree, and that the walk over them accepts
//! exactly such arrays.
use crate::link_collections::{
    all_seen, classified, follow, foreign, foreign_root, lemma_follow, lemma_unseen, root_walk,
    unseen, walked, HidpLinkCollectionNode, Walk,
};
use vstd::prelude::*;

verus! {

/// Whether the children of an element are these, in this order: the links lead
/// from the first through all the others and end, each child names the element
/// as its parent, and there are as many as the element says.
pub open spec fn has_children(
    nodes: Seq<HidpLinkCollectionNode>,
    parent: int,
    children: Seq<int>,
) -> bool {
    &&& children.no_duplicates()
    &&& children.len() == nodes[parent].number_of_children
    &&& nodes[parent].first_child == (if children.len() == 0 {
        0
    } else {
        children[0]
    })
    &&& forall|i: int| 0 <= i < children.len() ==> is_child(nodes, parent, children, i)
}

/// Whether the `i`th of the children is in its place.
pub open spec fn is_child(
    nodes: Seq<HidpLinkCollectionNode>,
    parent: int,
    children: Seq<int>,
    i: int,
) -> bool {
    &&& 0 < children[i] < nodes.len()
    &&& nodes[children[i]].parent == parent
    &&& nodes[children[i]].next_sibling == (if i + 1 < children.len() {
        children[i + 1]
    } else {
        0
    })
}

/// Whether the array is the tree with these children and levels: every element
/// has its children, and every one but the first hangs on its parent, one level
/// below it.
pub open spec fn is_tree_of(
    nodes: Seq<HidpLinkCollectionNode>,
    family: Seq<Seq<int>>,
    levels: Seq<nat>,
) -> bool {
    &&& family.len() == nodes.len()
    &&& levels.len() == nodes.len()
    &&& forall|p: int| 0 <= p < nodes.len() ==> has_children(nodes, p, #[trigger] family[p])
    &&& forall|i: int| 0 < i < nodes.len() ==> hangs_on_parent(nodes, family, levels, i)
}

pub open spec fn hangs_on_parent(
    nodes: Seq<HidpLinkCollectionNode>,
    family: Seq<Seq<int>>,
    levels: Seq<nat>,
    i: int,
) -> bool {
    let parent = nodes[i].parent as int;
    &&& parent < nodes.len()
    &&& family[parent].contains(i)
    &&& levels[i] == levels[parent] + 1
}

/// Whether the links of the array form one tree from its first element that
/// holds every element once.
pub open spec fn is_tree(nodes: Seq<HidpLinkCollectionNode>) -> bool {
    &&& nodes.len() > 0
    &&& nodes[0].parent == 0
    &&& exists|family: Seq<Seq<int>>, levels: Seq<nat>| is_tree_of(nodes, family, levels)
}

// An accepted array is a tree.
/// Whether the links lead from `child` through these elements and end.
spec fn chained(
    nodes: Seq<HidpLinkCollectionNode>,
    parent: int,
    child: int,
    more: Seq<int>,
) -> bool {
    &&& child == (if more.len() == 0 {
        0
    } else {
        more[0]
    })
    &&& forall|i: int| 0 <= i < more.len() ==> is_child(nodes, parent, more, i)
}

proof fn lemma_chain(
    nodes: Seq<HidpLinkCollectionNode>,
    parent: int,
    child: int,
    siblings: Seq<int>,
    walk: Walk,
) -> (more: Seq<int>)
    requires
        follow(nodes, parent, child, siblings, walk) is Ok,
    ensures
        ({
            let (children, after) = follow(nodes, parent, child, siblings, walk)->Ok_0;
            &&& children == siblings + more
            &&& chained(nodes, parent, child, more)
            &&& more.no_duplicates()
            &&& forall|i: int| 0 <= i < more.len() ==> !walk.seen.contains(#[trigger] more[i])
            &&& after.pending == walk.pending + more
            &&& forall|x: int| #[trigger]
                after.seen.contains(x) <==> walk.seen.contains(x) || more.contains(x)
        }),
    decreases unseen(walk.seen, nodes.len()),
{
    if child == 0 {
        assert(siblings + Seq::<int>::empty() =~= siblings);
        assert(walk.pending + Seq::<int>::empty() =~= walk.pending);
        Seq::empty()
    } else {
        lemma_unseen(walk.seen, child, nodes.len());
        let next = Walk {
            seen: walk.seen.insert(child),
            pending: walk.pending.push(child),
            mixed: walk.mixed || foreign(nodes[child]),
        };
        let sibling = nodes[child].next_sibling as int;
        let rest = lemma_chain(nodes, parent, sibling, siblings.push(child), next);
        let more = seq![child] + rest;
        assert(siblings.push(child) + rest =~= siblings + more);
        assert(walk.pending.push(child) + rest =~= walk.pending + more);
        assert forall|i: int| 0 <= i < rest.len() implies #[trigger] rest[i] != child by {
            assert(!next.seen.contains(rest[i]));
        }
        assert forall|i: int| 0 <= i < more.len() implies !walk.seen.contains(
            #[trigger] more[i],
        ) by {
            if i > 0 {
                assert(more[i] == rest[i - 1]);
                assert(!next.seen.contains(rest[i - 1]));
            }
        }
        assert forall|i: int| 0 <= i < more.len() implies is_child(nodes, parent, more, i) by {
            if i > 0 {
                assert(is_child(nodes, parent, rest, i - 1));
                assert(more[i] == rest[i - 1]);
                if i + 1 < more.len() {
                    assert(more[i + 1] == rest[i]);
                }
            } else {
                if rest.len() > 0 {
                    assert(more[1] == rest[0]);
                }
            }
        }
        assert(more.no_duplicates()) by {
            assert forall|i: int, j: int| 0 <= i < j < more.len() implies more[i] != more[j] by {
                assert(more[j] == rest[j - 1]);
                if i > 0 {
                    assert(more[i] == rest[i - 1]);
                }
            }
        }
        let after = follow(nodes, parent, child, siblings, walk)->Ok_0.1;
        assert forall|x: int| #[trigger] after.seen.contains(x) <==> walk.seen.contains(x)
            || more.contains(x) by {
            if more.contains(x) {
                let i = choose|i: int| 0 <= i < more.len() && more[i] == x;
                if i > 0 {
                    assert(rest[i - 1] == x);
                }
            }
            if rest.contains(x) {
                let i = choose|i: int| 0 <= i < rest.len() && rest[i] == x;
                assert(more[i + 1] == x);
            }
            if x == child {
                assert(more[0] == x);
            }
            assert(next.seen.contains(x) <==> walk.seen.contains(x) || x == child);
        }
        more
    }
}

/// What a walk has established: the elements met that are not pending have
/// their children, and every one met but the first hangs on such an element.
spec fn established(
    nodes: Seq<HidpLinkCollectionNode>,
    walk: Walk,
    family: Seq<Seq<int>>,
    levels: Seq<nat>,
) -> bool {
    &&& family.len() == nodes.len()
    &&& levels.len() == nodes.len()
    &&& walk.pending.no_duplicates()
    &&& forall|k: int|
        0 <= k < walk.pending.len() ==> walk.seen.contains(#[trigger] walk.pending[k])
    &&& forall|p: int| #[trigger] walk.seen.contains(p) ==> 0 <= p < nodes.len()
    &&& forall|p: int| #[trigger]
        walk.seen.contains(p) && !walk.pending.contains(p) ==> has_children(nodes, p, family[p])
    &&& forall|i: int| #[trigger]
        walk.seen.contains(i) && i != 0 ==> {
            &&& walk.seen.contains(nodes[i].parent as int)
            &&& !walk.pending.contains(nodes[i].parent as int)
            &&& hangs_on_parent(nodes, family, levels, i)
        }
}

/// One element was followed: its children are met for the first time, and are
/// pending in its place.
spec fn widened(walk: Walk, children: Seq<int>, after: Walk) -> bool {
    &&& walk.pending.len() > 0
    &&& walk.pending.no_duplicates()
    &&& children.no_duplicates()
    &&& forall|k: int|
        0 <= k < walk.pending.len() ==> walk.seen.contains(#[trigger] walk.pending[k])
    &&& forall|i: int| 0 <= i < children.len() ==> !walk.seen.contains(#[trigger] children[i])
    &&& after.pending == walk.pending.drop_last() + children
    &&& forall|x: int| #[trigger]
        after.seen.contains(x) <==> walk.seen.contains(x) || children.contains(x)
}

proof fn lemma_widened(walk: Walk, children: Seq<int>, after: Walk)
    requires
        widened(walk, children, after),
    ensures
        walk.seen.contains(walk.pending.last()),
        walk.pending.contains(walk.pending.last()),
        forall|x: int| #[trigger] children.contains(x) ==> !walk.seen.contains(x),
        after.pending.no_duplicates(),
        forall|k: int|
            0 <= k < after.pending.len() ==> after.seen.contains(#[trigger] after.pending[k]),
        forall|x: int| #[trigger]
            after.pending.contains(x) <==> (walk.pending.contains(x) && x != walk.pending.last())
                || children.contains(x),
{
    let parent = walk.pending.last();
    let rest = walk.pending.drop_last();
    assert(walk.pending[walk.pending.len() - 1] == parent);
    assert forall|x: int| #[trigger] rest.contains(x) <==> walk.pending.contains(x) && x
        != parent by {
        if rest.contains(x) {
            let k = choose|k: int| 0 <= k < rest.len() && rest[k] == x;
            assert(walk.pending[k] == x);
        }
        if walk.pending.contains(x) && x != parent {
            let k = choose|k: int| 0 <= k < walk.pending.len() && walk.pending[k] == x;
            assert(rest[k] == x);
        }
    }
    assert forall|x: int| #[trigger] after.pending.contains(x) <==> rest.contains(x)
        || children.contains(x) by {
        if after.pending.contains(x) {
            let k = choose|k: int| 0 <= k < after.pending.len() && after.pending[k] == x;
            if k < rest.len() {
                assert(rest[k] == x);
            } else {
                assert(children[k - rest.len()] == x);
            }
        }
        if rest.contains(x) {
            let k = choose|k: int| 0 <= k < rest.len() && rest[k] == x;
            assert(after.pending[k] == x);
        }
        if children.contains(x) {
            let k = choose|k: int| 0 <= k < children.len() && children[k] == x;
            assert(after.pending[k + rest.len()] == x);
        }
    }
    assert forall|i: int, j: int| 0 <= i < j < after.pending.len() implies after.pending[i]
        != after.pending[j] by {
        if j < rest.len() {
            assert(after.pending[i] == walk.pending[i]);
            assert(after.pending[j] == walk.pending[j]);
        } else if i < rest.len() {
            assert(after.pending[i] == walk.pending[i]);
            assert(walk.seen.contains(walk.pending[i]));
            assert(after.pending[j] == children[j - rest.len()]);
        } else {
            assert(after.pending[i] == children[i - rest.len()]);
            assert(after.pending[j] == children[j - rest.len()]);
        }
    }
    assert forall|k: int| 0 <= k < after.pending.len() implies after.seen.contains(
        #[trigger] after.pending[k],
    ) by {
        if k < rest.len() {
            assert(after.pending[k] == walk.pending[k]);
        } else {
            assert(after.pending[k] == children[k - rest.len()]);
            assert(children.contains(after.pending[k]));
        }
    }
}

proof fn lemma_established(
    nodes: Seq<HidpLinkCollectionNode>,
    walk: Walk,
    children: Seq<int>,
    after: Walk,
    family: Seq<Seq<int>>,
    levels: Seq<nat>,
) -> (next: (Seq<Seq<int>>, Seq<nat>))
    requires
        widened(walk, children, after),
        established(nodes, walk, family, levels),
        has_children(nodes, walk.pending.last(), children),
    ensures
        established(nodes, after, next.0, next.1),
{
    let parent = walk.pending.last();
    let family_after = family.update(parent, children);
    let levels_after = Seq::new(
        nodes.len(),
        |i: int|
            if children.contains(i) {
                levels[parent] + 1
            } else {
                levels[i]
            },
    );
    lemma_widened(walk, children, after);
    assert(0 <= parent < nodes.len());
    assert(!children.contains(parent));
    assert forall|c: int| #[trigger] children.contains(c) implies 0 < c < nodes.len()
        && nodes[c].parent == parent by {
        let k = choose|k: int| 0 <= k < children.len() && children[k] == c;
        assert(is_child(nodes, parent, children, k));
    }
    assert forall|p: int| #[trigger]
        after.seen.contains(p) && !after.pending.contains(p) implies has_children(
        nodes,
        p,
        family_after[p],
    ) by {
        if p != parent {
            assert(walk.seen.contains(p) && !walk.pending.contains(p));
            assert(family_after[p] == family[p]);
        }
    }
    assert forall|i: int| #[trigger] after.seen.contains(i) && i != 0 implies {
        &&& after.seen.contains(nodes[i].parent as int)
        &&& !after.pending.contains(nodes[i].parent as int)
        &&& hangs_on_parent(nodes, family_after, levels_after, i)
    } by {
        if !children.contains(i) {
            assert(walk.seen.contains(i));
            let p = nodes[i].parent as int;
            assert(walk.seen.contains(p) && !walk.pending.contains(p));
            assert(p != parent && !children.contains(p));
            assert(hangs_on_parent(nodes, family, levels, i));
            assert(family_after[p] == family[p]);
        }
    }
    (family_after, levels_after)
}

proof fn lemma_walk_finds_tree(
    nodes: Seq<HidpLinkCollectionNode>,
    walk: Walk,
    family: Seq<Seq<int>>,
    levels: Seq<nat>,
) -> (found: (Seq<Seq<int>>, Seq<nat>))
    requires
        walked(nodes, walk) is Ok,
        all_seen(walked(nodes, walk)->Ok_0.seen, nodes.len()),
        established(nodes, walk, family, levels),
    ensures
        is_tree_of(nodes, found.0, found.1),
    decreases unseen(walk.seen, nodes.len()) + walk.pending.len(),
{
    if walk.pending.len() == 0 {
        assert forall|p: int| 0 <= p < nodes.len() implies has_children(
            nodes,
            p,
            #[trigger] family[p],
        ) by {
            assert(walk.seen.contains(p));
            assert(!walk.pending.contains(p));
        }
        assert forall|i: int| 0 < i < nodes.len() implies hangs_on_parent(
            nodes,
            family,
            levels,
            i,
        ) by {
            assert(walk.seen.contains(i));
        }
        (family, levels)
    } else {
        let parent = walk.pending.last();
        let rest = Walk { pending: walk.pending.drop_last(), ..walk };
        let child = nodes[parent].first_child as int;
        lemma_follow(nodes, parent, child, Seq::empty(), rest);
        let (children, after) = follow(nodes, parent, child, Seq::empty(), rest)->Ok_0;
        let more = lemma_chain(nodes, parent, child, Seq::empty(), rest);
        assert(children =~= more);
        let next = lemma_established(nodes, walk, children, after, family, levels);
        lemma_walk_finds_tree(nodes, after, next.0, next.1)
    }
}

// A tree is accepted.
/// What following the children from the `k`th on brings.
spec fn followed(
    result: Result<(Seq<int>, Walk), Seq<char>>,
    children: Seq<int>,
    k: int,
    walk: Walk,
) -> bool {
    &&& result is Ok
    &&& result->Ok_0.0 == children
    &&& result->Ok_0.1.pending == walk.pending + children.skip(k)
    &&& forall|x: int| #[trigger]
        result->Ok_0.1.seen.contains(x) <==> walk.seen.contains(x) || children.skip(k).contains(x)
}

proof fn lemma_follow_family(
    nodes: Seq<HidpLinkCollectionNode>,
    parent: int,
    children: Seq<int>,
    k: int,
    child: int,
    walk: Walk,
)
    requires
        has_children(nodes, parent, children),
        0 <= k <= children.len(),
        child == (if k < children.len() {
            children[k]
        } else {
            0
        }),
        forall|i: int| k <= i < children.len() ==> !walk.seen.contains(#[trigger] children[i]),
    ensures
        followed(follow(nodes, parent, child, children.take(k), walk), children, k, walk),
    decreases children.len() - k,
{
    let here = children.skip(k);
    if k == children.len() {
        assert(children.take(k) =~= children);
        assert(walk.pending + here =~= walk.pending);
        assert(here.len() == 0);
    } else {
        let rest = children.skip(k + 1);
        assert(is_child(nodes, parent, children, k));
        assert(!children.take(k).contains(child)) by {
            if children.take(k).contains(child) {
                let taken = children.take(k);
                let j = choose|j: int| 0 <= j < taken.len() && taken[j] == child;
                assert(children[j] == children[k]);
            }
        }
        let next = Walk {
            seen: walk.seen.insert(child),
            pending: walk.pending.push(child),
            mixed: walk.mixed || foreign(nodes[child]),
        };
        assert forall|i: int| k + 1 <= i < children.len() implies !next.seen.contains(
            #[trigger] children[i],
        ) by {
            assert(children[i] != children[k]);
        }
        lemma_unseen(walk.seen, child, nodes.len());
        let sibling = nodes[child].next_sibling as int;
        lemma_follow_family(nodes, parent, children, k + 1, sibling, next);
        assert(children.take(k).push(child) =~= children.take(k + 1));
        let found = follow(nodes, parent, child, children.take(k), walk);
        assert(found == follow(nodes, parent, sibling, children.take(k + 1), next));
        assert(next.pending + rest =~= walk.pending + here);
        assert(here[0] == child);
        assert forall|x: int| #[trigger] here.contains(x) == (x == child || rest.contains(x)) by {
            if here.contains(x) {
                let j = choose|j: int| 0 <= j < here.len() && here[j] == x;
                if j > 0 {
                    assert(rest[j - 1] == x);
                }
            }
            if rest.contains(x) {
                let j = choose|j: int| 0 <= j < rest.len() && rest[j] == x;
                assert(here[j + 1] == x);
            }
        }
        assert forall|x: int| #[trigger]
            found->Ok_0.1.seen.contains(x) <==> walk.seen.contains(x) || here.contains(x) by {
            assert(next.seen.contains(x) <==> walk.seen.contains(x) || x == child);
        }
    }
}

/// What a walk over a tree keeps: an element is met exactly after its parent
/// was followed.
spec fn keeps_pace(nodes: Seq<HidpLinkCollectionNode>, walk: Walk, family: Seq<Seq<int>>) -> bool {
    &&& walk.pending.no_duplicates()
    &&& walk.seen.contains(0)
    &&& forall|k: int|
        0 <= k < walk.pending.len() ==> walk.seen.contains(#[trigger] walk.pending[k])
    &&& forall|p: int| #[trigger] walk.seen.contains(p) ==> 0 <= p < nodes.len()
    &&& forall|i: int| #[trigger]
        walk.seen.contains(i) && i != 0 ==> walk.seen.contains(nodes[i].parent as int)
            && !walk.pending.contains(nodes[i].parent as int)
    &&& forall|p: int, c: int|
        walk.seen.contains(p) && !walk.pending.contains(p) && #[trigger] family[p].contains(c)
            ==> walk.seen.contains(c)
}

proof fn lemma_all_met(
    nodes: Seq<HidpLinkCollectionNode>,
    walk: Walk,
    family: Seq<Seq<int>>,
    levels: Seq<nat>,
    i: int,
)
    requires
        is_tree_of(nodes, family, levels),
        keeps_pace(nodes, walk, family),
        walk.pending.len() == 0,
        0 <= i < nodes.len(),
    ensures
        walk.seen.contains(i),
    decreases levels[i],
{
    if i > 0 {
        let parent = nodes[i].parent as int;
        assert(hangs_on_parent(nodes, family, levels, i));
        lemma_all_met(nodes, walk, family, levels, parent);
        assert(!walk.pending.contains(parent));
        assert(family[parent].contains(i));
    }
}

proof fn lemma_pace(
    nodes: Seq<HidpLinkCollectionNode>,
    walk: Walk,
    after: Walk,
    family: Seq<Seq<int>>,
    levels: Seq<nat>,
)
    requires
        is_tree_of(nodes, family, levels),
        keeps_pace(nodes, walk, family),
        widened(walk, family[walk.pending.last()], after),
    ensures
        keeps_pace(nodes, after, family),
{
    let parent = walk.pending.last();
    let children = family[parent];
    lemma_widened(walk, children, after);
    assert(has_children(nodes, parent, children));
    assert forall|c: int| #[trigger] children.contains(c) implies 0 < c < nodes.len()
        && nodes[c].parent == parent by {
        let k = choose|k: int| 0 <= k < children.len() && children[k] == c;
        assert(is_child(nodes, parent, children, k));
    }
    assert(!children.contains(parent));
    assert forall|i: int| #[trigger] after.seen.contains(i) && i != 0 implies after.seen.contains(
        nodes[i].parent as int,
    ) && !after.pending.contains(nodes[i].parent as int) by {
        if !children.contains(i) {
            let p = nodes[i].parent as int;
            assert(walk.seen.contains(i));
            assert(walk.seen.contains(p) && !walk.pending.contains(p));
            assert(!children.contains(p));
        }
    }
    assert forall|p: int, c: int|
        after.seen.contains(p) && !after.pending.contains(p) && #[trigger] family[p].contains(
            c,
        ) implies after.seen.contains(c) by {
        if p != parent {
            assert(walk.seen.contains(p) && !walk.pending.contains(p));
            assert(walk.seen.contains(c));
        }
    }
}

proof fn lemma_tree_is_walked(
    nodes: Seq<HidpLinkCollectionNode>,
    walk: Walk,
    family: Seq<Seq<int>>,
    levels: Seq<nat>,
)
    requires
        is_tree_of(nodes, family, levels),
        keeps_pace(nodes, walk, family),
    ensures
        walked(nodes, walk) matches Ok(after) && all_seen(after.seen, nodes.len()),
    decreases unseen(walk.seen, nodes.len()) + walk.pending.len(),
{
    if walk.pending.len() == 0 {
        assert forall|i: int| 0 <= i < nodes.len() implies #[trigger] walk.seen.contains(i) by {
            lemma_all_met(nodes, walk, family, levels, i);
        }
    } else {
        let parent = walk.pending.last();
        assert(walk.pending[walk.pending.len() - 1] == parent);
        assert(walk.seen.contains(parent));
        let rest = Walk { pending: walk.pending.drop_last(), ..walk };
        let children = family[parent];
        let child = nodes[parent].first_child as int;
        assert(has_children(nodes, parent, children));
        assert forall|i: int| 0 <= i < children.len() implies !walk.seen.contains(
            #[trigger] children[i],
        ) by {
            assert(is_child(nodes, parent, children, i));
            assert(walk.pending.contains(parent));
        }
        lemma_follow_family(nodes, parent, children, 0, child, rest);
        assert(children.take(0) =~= Seq::empty());
        assert(children.skip(0) =~= children);
        lemma_follow(nodes, parent, child, Seq::empty(), rest);
        let after = follow(nodes, parent, child, Seq::empty(), rest)->Ok_0.1;
        lemma_pace(nodes, walk, after, family, levels);
        lemma_tree_is_walked(nodes, after, family, levels);
    }
}

/// An array is accepted exactly if its links form one tree from the first
/// element that holds every element once.
pub proof fn trees_are_accepted(nodes: Seq<HidpLinkCollectionNode>, usage_page: u16, usage: u16)
    ensures
        classified(nodes, usage_page, usage) is Ok <==> is_tree(nodes),
{
    if nodes.len() > 0 && nodes[0].parent == 0 {
        let walk = root_walk(foreign_root(nodes[0], usage_page, usage));
        if classified(nodes, usage_page, usage) is Ok {
            let family = Seq::new(nodes.len(), |i: int| Seq::<int>::empty());
            let levels = Seq::new(nodes.len(), |i: int| 0nat);
            assert(walk.pending[0] == 0);
            assert(walk.pending.contains(0));
            assert(established(nodes, walk, family, levels));
            let found = lemma_walk_finds_tree(nodes, walk, family, levels);
            assert(is_tree_of(nodes, found.0, found.1));
        }
        if is_tree(nodes) {
            let (family, levels) = choose|family: Seq<Seq<int>>, levels: Seq<nat>|
                is_tree_of(nodes, family, levels);
            assert(walk.pending[0] == 0);
            assert(walk.pending.contains(0));
            assert(keeps_pace(nodes, walk, family));
            lemma_tree_is_walked(nodes, walk, family, levels);
        }
    }
}

} // verus!
