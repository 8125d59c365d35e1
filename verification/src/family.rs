//! Parents and descendants of device nodes.
//!
//! A node names its parent by number.  The numbers come from the system, so a
//! parent may be missing from the list and the links may run in a circle.
use crate::devnode::{NodeModel, RawDevnode};
use crate::sorting::views;
use vstd::prelude::*;

verus! {

/// The first node with a number.
pub open spec fn find_node(all: Seq<NodeModel>, devinst: u32) -> Option<NodeModel>
    decreases all.len(),
{
    if all.len() == 0 {
        None
    } else if all[0].devinst == devinst {
        Some(all[0])
    } else {
        find_node(all.skip(1), devinst)
    }
}

pub proof fn lemma_find_node(all: Seq<NodeModel>, devinst: u32)
    ensures
        match find_node(all, devinst) {
            Some(node) => node.devinst == devinst && exists|i: int|
                0 <= i < all.len() && #[trigger] all[i] == node,
            None => forall|i: int| 0 <= i < all.len() ==> (#[trigger] all[i]).devinst != devinst,
        },
    decreases all.len(),
{
    if all.len() > 0 && all[0].devinst != devinst {
        let rest = all.skip(1);
        lemma_find_node(rest, devinst);
        match find_node(rest, devinst) {
            Some(node) => {
                let i = choose|i: int| 0 <= i < rest.len() && #[trigger] rest[i] == node;
                assert(all[i + 1] == node);
            },
            None => {
                assert forall|i: int| 0 <= i < all.len() implies (#[trigger] all[i]).devinst
                    != devinst by {
                    if i > 0 {
                        assert(rest[i - 1] == all[i]);
                    }
                }
            },
        }
    }
}

/// The view of an optional node.
pub open spec fn opt_node(node: Option<&RawDevnode>) -> Option<NodeModel> {
    match node {
        Some(n) => Some(n@),
        None => None,
    }
}

pub fn node_by_devinst<'a>(all: &'a [RawDevnode], devinst: u32) -> (r: Option<&'a RawDevnode>)
    ensures
        opt_node(r) == find_node(views(all@), devinst),
{
    let mut i: usize = 0;
    assert(views(all@).skip(0) == views(all@));
    while i < all.len()
        invariant
            i <= all@.len(),
            find_node(views(all@).skip(i as int), devinst) == find_node(views(all@), devinst),
        decreases all@.len() - i,
    {
        assert(views(all@).skip(i as int)[0] == all@[i as int]@);
        if all[i].devinst == devinst {
            return Some(&all[i]);
        }
        assert(views(all@).skip(i as int).skip(1) == views(all@).skip(i + 1));
        i += 1;
    }
    assert(views(all@).skip(i as int).len() == 0);
    None
}

/// The node itself, its parent, the parent of that, and so on.
pub open spec fn line(node: NodeModel, all: Seq<NodeModel>, k: nat) -> Option<NodeModel>
    decreases k,
{
    if k == 0 {
        Some(node)
    } else {
        match line(node, all, (k - 1) as nat) {
            Some(n) => match n.parent {
                Some(devinst) => find_node(all, devinst),
                None => None,
            },
            None => None,
        }
    }
}

pub open spec fn hits(
    node: NodeModel,
    all: Seq<NodeModel>,
    test: spec_fn(NodeModel) -> bool,
    k: nat,
) -> bool {
    match line(node, all, k) {
        Some(n) => test(n),
        None => false,
    }
}

/// Someone in the line of the node passes the test.
pub open spec fn reaches(
    node: NodeModel,
    all: Seq<NodeModel>,
    test: spec_fn(NodeModel) -> bool,
) -> bool {
    exists|k: nat| #[trigger] hits(node, all, test, k)
}

pub open spec fn first_hit(
    node: NodeModel,
    all: Seq<NodeModel>,
    test: spec_fn(NodeModel) -> bool,
    k: nat,
) -> bool {
    hits(node, all, test, k) && forall|j: nat| j < k ==> !#[trigger] hits(node, all, test, j)
}

/// The nearest in the line of the node that passes the test.
pub open spec fn nearest(
    node: NodeModel,
    all: Seq<NodeModel>,
    test: spec_fn(NodeModel) -> bool,
) -> Option<NodeModel> {
    if exists|k: nat| #[trigger] first_hit(node, all, test, k) {
        line(node, all, choose|k: nat| #[trigger] first_hit(node, all, test, k))
    } else {
        None
    }
}

/// There is a nearest exactly where there is any.
pub proof fn nearest_is_found_if_any(
    node: NodeModel,
    all: Seq<NodeModel>,
    test: spec_fn(NodeModel) -> bool,
)
    ensures
        nearest(node, all, test) is Some <==> reaches(node, all, test),
        nearest(node, all, test) matches Some(n) ==> test(n),
{
    if reaches(node, all, test) {
        let k = choose|k: nat| #[trigger] hits(node, all, test, k);
        lemma_first_hit_below(node, all, test, k);
    }
}

proof fn lemma_first_hit_below(
    node: NodeModel,
    all: Seq<NodeModel>,
    test: spec_fn(NodeModel) -> bool,
    k: nat,
)
    requires
        hits(node, all, test, k),
    ensures
        exists|j: nat| #[trigger] first_hit(node, all, test, j),
    decreases k,
{
    if exists|j: nat| j < k && #[trigger] hits(node, all, test, j) {
        let j = choose|j: nat| j < k && #[trigger] hits(node, all, test, j);
        lemma_first_hit_below(node, all, test, j);
    } else {
        assert(first_hit(node, all, test, k));
    }
}

pub proof fn lemma_found(
    node: NodeModel,
    all: Seq<NodeModel>,
    test: spec_fn(NodeModel) -> bool,
    k: nat,
)
    requires
        first_hit(node, all, test, k),
    ensures
        reaches(node, all, test),
        nearest(node, all, test) == line(node, all, k),
{
    let j = choose|j: nat| #[trigger] first_hit(node, all, test, j);
    assert(first_hit(node, all, test, j));
    if j < k {
        assert(!hits(node, all, test, j));
    }
    if k < j {
        assert(!hits(node, all, test, k));
    }
}

proof fn lemma_line_ends(node: NodeModel, all: Seq<NodeModel>, k: nat, m: nat)
    requires
        line(node, all, k) is None,
        k <= m,
    ensures
        line(node, all, m) is None,
    decreases m,
{
    if k < m {
        lemma_line_ends(node, all, k, (m - 1) as nat);
    }
}

proof fn lemma_line_repeats(node: NodeModel, all: Seq<NodeModel>, a: nat, b: nat, i: nat)
    requires
        line(node, all, a) == line(node, all, b),
    ensures
        line(node, all, a + i) == line(node, all, b + i),
    decreases i,
{
    if i > 0 {
        lemma_line_repeats(node, all, a, b, (i - 1) as nat);
    }
}

proof fn lemma_circle_member(
    node: NodeModel,
    all: Seq<NodeModel>,
    test: spec_fn(NodeModel) -> bool,
    a: nat,
    b: nat,
    m: nat,
)
    requires
        a < b,
        line(node, all, a) == line(node, all, b),
        forall|j: nat| j < b ==> !#[trigger] hits(node, all, test, j),
    ensures
        !hits(node, all, test, m),
    decreases m,
{
    if m >= b {
        lemma_line_repeats(node, all, a, b, (m - b) as nat);
        lemma_circle_member(node, all, test, a, b, (m - b + a) as nat);
    }
}

/// The walk ended, by running out or by coming back to where it was.
pub proof fn lemma_not_found(
    node: NodeModel,
    all: Seq<NodeModel>,
    test: spec_fn(NodeModel) -> bool,
    k: nat,
)
    requires
        forall|j: nat| j <= k ==> !#[trigger] hits(node, all, test, j),
        line(node, all, k + 1) is None || exists|a: nat|
            a <= k && #[trigger] line(node, all, a) == line(node, all, k + 1),
    ensures
        !reaches(node, all, test),
        nearest(node, all, test) is None,
{
    assert forall|m: nat| !#[trigger] hits(node, all, test, m) by {
        if m > k {
            if line(node, all, k + 1) is None {
                lemma_line_ends(node, all, k + 1, m);
            } else {
                let a = choose|a: nat|
                    a <= k && #[trigger] line(node, all, a) == line(node, all, k + 1);
                lemma_circle_member(node, all, test, a, k + 1, m);
            }
        }
    }
    nearest_is_found_if_any(node, all, test);
}

/// The numbers of those in the line, without the node itself.
pub open spec fn trail(visited: Seq<u32>, node: NodeModel, all: Seq<NodeModel>, k: nat) -> bool {
    &&& visited.len() == k
    &&& visited.no_duplicates()
    &&& forall|j: int|
        0 <= j < k ==> line(node, all, (j + 1) as nat) == find_node(all, #[trigger] visited[j])
            && find_node(all, visited[j]) is Some
}

proof fn lemma_trail_bound(visited: Seq<u32>, node: NodeModel, all: Seq<NodeModel>, k: nat)
    requires
        trail(visited, node, all, k),
    ensures
        k <= all.len(),
{
    let numbers = all.map_values(|n: NodeModel| n.devinst);
    visited.unique_seq_to_set();
    numbers.lemma_cardinality_of_set();
    assert forall|d: u32| visited.to_set().contains(d) implies numbers.to_set().contains(d) by {
        let j = choose|j: int| 0 <= j < visited.len() && visited[j] == d;
        assert(find_node(all, visited[j]) is Some);
        lemma_find_node(all, d);
        let node = find_node(all, d)->0;
        let i = choose|i: int| 0 <= i < all.len() && #[trigger] all[i] == node;
        assert(numbers[i] == d);
    }
    vstd::set_lib::lemma_len_subset(visited.to_set(), numbers.to_set());
}

fn was_visited(visited: &[u32], devinst: u32) -> (r: bool)
    ensures
        r == visited@.contains(devinst),
{
    let mut i: usize = 0;
    while i < visited.len()
        invariant
            i <= visited@.len(),
            forall|j: int| 0 <= j < i ==> visited@[j] != devinst,
        decreases visited@.len() - i,
    {
        if visited[i] == devinst {
            return true;
        }
        i += 1;
    }
    false
}

/// The parent of `from`, if it is listed and was not visited before.
pub(crate) fn step_up<'a>(
    from: &RawDevnode,
    visited: &mut Vec<u32>,
    all: &'a [RawDevnode],
    Ghost(node): Ghost<NodeModel>,
    Ghost(k): Ghost<nat>,
) -> (r: Option<&'a RawDevnode>)
    requires
        line(node, views(all@), k) == Some(from@),
        trail(old(visited)@, node, views(all@), k),
    ensures
        match r {
            Some(parent) => {
                &&& line(node, views(all@), k + 1) == Some(parent@)
                &&& trail(final(visited)@, node, views(all@), k + 1)
                &&& k + 1 <= all@.len()
            },
            None => line(node, views(all@), k + 1) is None || exists|a: nat|
                a <= k && #[trigger] line(node, views(all@), a) == line(
                    node,
                    views(all@),
                    k + 1,
                ),
        },
{
    let devinst: u32 = match from.parent {
        Some(devinst) => devinst,
        None => {
            return None;
        },
    };
    if was_visited(visited.as_slice(), devinst) {
        proof {
            let j = choose|j: int| 0 <= j < visited@.len() && visited@[j] == devinst;
            assert(line(node, views(all@), (j + 1) as nat) == line(node, views(all@), k + 1));
        }
        return None;
    }
    let parent = node_by_devinst(all, devinst)?;
    let ghost before = visited@;
    visited.push(devinst);
    proof {
        assert(visited@.no_duplicates()) by {
            assert forall|i: int, j: int|
                0 <= i < visited@.len() && 0 <= j < visited@.len() && i != j implies visited@[i]
                != visited@[j] by {
                if i < before.len() {
                    assert(before[i] == visited@[i]);
                }
                if j < before.len() {
                    assert(before[j] == visited@[j]);
                }
            }
        }
        assert forall|j: int| 0 <= j < k + 1 implies line(node, views(all@), (j + 1) as nat)
            == find_node(views(all@), #[trigger] visited@[j]) && find_node(
            views(all@),
            visited@[j],
        ) is Some by {
            if j < k {
                assert(before[j] == visited@[j]);
            }
        }
        lemma_trail_bound(visited@, node, views(all@), k + 1);
    }
    Some(parent)
}

/// Following parents from the node leads to the number.
pub open spec fn below(node: NodeModel, devinst: u32, all: Seq<NodeModel>) -> bool {
    reaches(node, all, |n: NodeModel| n.parent == Some(devinst))
}

pub fn is_descendant_of(
    candidate: &RawDevnode,
    ancestor_devinst: u32,
    all: &[RawDevnode],
) -> (r: bool)
    ensures
        r == below(candidate@, ancestor_devinst, views(all@)),
{
    let ghost test = |n: NodeModel| n.parent == Some(ancestor_devinst);
    let ghost mut k: nat = 0;
    let mut visited: Vec<u32> = Vec::new();
    let mut current = candidate;
    loop
        invariant
            test == (|n: NodeModel| n.parent == Some(ancestor_devinst)),
            line(candidate@, views(all@), k) == Some(current@),
            trail(visited@, candidate@, views(all@), k),
            k <= all@.len(),
            forall|j: nat| j < k ==> !#[trigger] hits(candidate@, views(all@), test, j),
        decreases all@.len() - k,
    {
        match current.parent {
            Some(devinst) => if devinst == ancestor_devinst {
                assert(hits(candidate@, views(all@), test, k));
                return true;
            },
            None => {},
        }
        assert(!hits(candidate@, views(all@), test, k));
        match step_up(current, &mut visited, all, Ghost(candidate@), Ghost(k)) {
            Some(parent) => {
                current = parent;
                proof {
                    k = k + 1;
                }
            },
            None => {
                proof {
                    lemma_not_found(candidate@, views(all@), test, k);
                }
                return false;
            },
        }
    }
}

/// Being below is transitive, where the node in between is listed under its
/// number.
pub proof fn below_is_transitive(a: NodeModel, b: NodeModel, devinst: u32, all: Seq<NodeModel>)
    requires
        below(a, b.devinst, all),
        find_node(all, b.devinst) == Some(b),
        below(b, devinst, all),
    ensures
        below(a, devinst, all),
{
    let to_b = |n: NodeModel| n.parent == Some(b.devinst);
    let to_d = |n: NodeModel| n.parent == Some(devinst);
    let i = choose|i: nat| #[trigger] hits(a, all, to_b, i);
    let j = choose|j: nat| #[trigger] hits(b, all, to_d, j);
    assert(line(a, all, i + 1) == Some(b));
    lemma_line_joined(a, b, all, i + 1, j);
    assert(hits(a, all, to_d, i + 1 + j));
}

proof fn lemma_line_joined(a: NodeModel, b: NodeModel, all: Seq<NodeModel>, i: nat, j: nat)
    requires
        line(a, all, i) == Some(b),
    ensures
        line(a, all, i + j) == line(b, all, j),
    decreases j,
{
    if j > 0 {
        lemma_line_joined(a, b, all, i, (j - 1) as nat);
    }
}

} // verus!
