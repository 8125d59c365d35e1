//! What holds of every inventory that a scan builds.
use crate::devnode::{
    composite_parent, controller_only, evidence_ok, hid_function, switched_off, AggregateModel,
    NodeModel,
};
use crate::interfaces::ascending;
use crate::inventory::{
    found, hid_record, hid_row, hid_rows, last_node, native_record, native_row, native_rows,
    record_order, scanned, with_native, without_repeats, FoundModel, InventoryModel, Rows,
};
use crate::link_collections::allowed_usage;
use crate::locate::{find_instance, find_record, located, shape_ok};
use crate::platform::{ControlCoverage, ControllerProtocol, ErrorModel};
use crate::sorting::{
    lemma_same_members, orders, ranked, sorted_by, sorting_keeps_items, sorting_ranks,
};
use crate::text::{
    lemma_lt_asymmetric, lemma_lt_irreflexive, lemma_lt_total, lemma_lt_transitive, lt,
};
use crate::wide_text::normal;
use crate::xusb::{companion_name, endangers, native, related};
use vstd::prelude::*;

verus! {

/// The record is that of a listed node.
pub open spec fn of_listed_node(
    record: FoundModel,
    nodes: Seq<NodeModel>,
    hid: Map<u32, AggregateModel>,
) -> bool {
    &&& nodes.contains(record.node)
    &&& ({
        ||| hid.contains_key(record.node.devinst) && hid_record(
            record.node,
            hid[record.node.devinst],
            nodes,
            hid,
        ) == Some(record)
        ||| native_record(record.node, nodes, hid) == Some(record)
    })
}

spec fn all_listed(
    records: Seq<FoundModel>,
    nodes: Seq<NodeModel>,
    hid: Map<u32, AggregateModel>,
) -> bool {
    forall|i: int|
        0 <= i < records.len() ==> of_listed_node(#[trigger] records[i], nodes, hid)
}

proof fn lemma_last_node(nodes: Seq<NodeModel>, devinst: u32)
    ensures
        last_node(nodes, devinst) matches Some(node) ==> nodes.contains(node) && node.devinst
            == devinst,
    decreases nodes.len(),
{
    if nodes.len() > 0 {
        if nodes.last().devinst == devinst {
            assert(nodes[nodes.len() - 1] == nodes.last());
        } else {
            lemma_last_node(nodes.drop_last(), devinst);
            if last_node(nodes, devinst) is Some {
                let node = last_node(nodes, devinst)->0;
                let k = choose|k: int|
                    0 <= k < nodes.drop_last().len() && nodes.drop_last()[k] == node;
                assert(nodes[k] == node);
            }
        }
    }
}

proof fn lemma_hid_rows_listed(
    rows: Rows,
    keys: Seq<u32>,
    nodes: Seq<NodeModel>,
    hid: Map<u32, AggregateModel>,
)
    requires
        all_listed(rows.records, nodes, hid),
        forall|i: int| 0 <= i < keys.len() ==> hid.contains_key(#[trigger] keys[i]),
    ensures
        all_listed(hid_rows(rows, keys, nodes, hid).records, nodes, hid),
    decreases keys.len(),
{
    if keys.len() > 0 {
        let head = keys.drop_last();
        assert forall|i: int| 0 <= i < head.len() implies hid.contains_key(#[trigger] head[i]) by {
            assert(head[i] == keys[i]);
        }
        lemma_hid_rows_listed(rows, head, nodes, hid);
        let before = hid_rows(rows, head, nodes, hid);
        let after = hid_row(before, keys.last(), nodes, hid);
        lemma_last_node(nodes, keys.last());
        assert(hid.contains_key(keys[keys.len() - 1]));
        assert forall|i: int| 0 <= i < after.records.len() implies of_listed_node(
            #[trigger] after.records[i],
            nodes,
            hid,
        ) by {
            if i < before.records.len() {
                assert(after.records[i] == before.records[i]);
            }
        }
    }
}

proof fn lemma_native_rows_listed(
    rows: Rows,
    list: Seq<NodeModel>,
    nodes: Seq<NodeModel>,
    hid: Map<u32, AggregateModel>,
)
    requires
        all_listed(rows.records, nodes, hid),
        forall|i: int| 0 <= i < list.len() ==> nodes.contains(#[trigger] list[i]),
    ensures
        all_listed(native_rows(rows, list, nodes, hid).records, nodes, hid),
    decreases list.len(),
{
    if list.len() > 0 {
        let head = list.drop_last();
        assert forall|i: int| 0 <= i < head.len() implies nodes.contains(#[trigger] head[i]) by {
            assert(head[i] == list[i]);
        }
        lemma_native_rows_listed(rows, head, nodes, hid);
        let before = native_rows(rows, head, nodes, hid);
        let after = native_row(before, list.last(), nodes, hid);
        assert(nodes.contains(list[list.len() - 1]));
        assert forall|i: int| 0 <= i < after.records.len() implies of_listed_node(
            #[trigger] after.records[i],
            nodes,
            hid,
        ) by {
            if i < before.records.len() {
                assert(after.records[i] == before.records[i]);
            }
        }
    }
}

proof fn lemma_repeats_members(records: Seq<FoundModel>, i: int)
    requires
        0 <= i < without_repeats(records).len(),
    ensures
        records.contains(without_repeats(records)[i]),
    decreases records.len(),
{
    if records.len() > 0 {
        let head = without_repeats(records.drop_last());
        let after = without_repeats(records);
        if i < head.len() {
            assert(after[i] == head[i]);
            lemma_repeats_members(records.drop_last(), i);
            let k = choose|k: int|
                0 <= k < records.drop_last().len() && records.drop_last()[k] == head[i];
            assert(records[k] == after[i]);
        } else {
            assert(after[i] == records[records.len() - 1]);
        }
    }
}

/// Every record of a scan is that of a listed node.
pub proof fn records_are_of_listed_nodes(
    nodes: Seq<NodeModel>,
    devinsts: Set<u32>,
    xusb_errors: Seq<Seq<char>>,
    hid: Map<u32, AggregateModel>,
    hid_errors: Seq<Seq<char>>,
    inventory: InventoryModel,
    i: int,
)
    requires
        hid.dom().finite(),
        scanned(nodes, devinsts, xusb_errors, hid, hid_errors) == Ok::<
            InventoryModel,
            ErrorModel,
        >(inventory),
        0 <= i < inventory.records.len(),
    ensures
        of_listed_node(inventory.records[i], inventory.nodes, inventory.hid),
{
    let all = with_native(nodes, devinsts);
    let keys = ascending(hid.dom());
    let start = Rows { records: Seq::empty(), errors: hid_errors };
    lemma_ascending_exists(hid.dom());
    assert forall|k: int| 0 <= k < keys.len() implies hid.contains_key(#[trigger] keys[k]) by {
        assert(keys.to_set().contains(keys[k]));
    }
    lemma_hid_rows_listed(start, keys, all, hid);
    let between = hid_rows(start, keys, all, hid);
    lemma_native_rows_listed(between, all, all, hid);
    let rows = native_rows(between, all, all, hid);
    let sorted = sorted_by(rows.records, record_order());
    sorting_keeps_items(rows.records, record_order());
    lemma_repeats_members(sorted, i);
    let record = without_repeats(sorted)[i];
    let k = choose|k: int| 0 <= k < sorted.len() && sorted[k] == record;
    lemma_same_members(sorted, rows.records, k);
    let j = choose|j: int| 0 <= j < rows.records.len() && rows.records[j] == sorted[k];
    assert(of_listed_node(rows.records[j], all, hid));
}

/// A finite set of numbers has an ascending list.
pub proof fn lemma_ascending_exists(keys: Set<u32>)
    requires
        keys.finite(),
    ensures
        crate::interfaces::rising(ascending(keys)),
        ascending(keys).to_set() == keys,
{
    let list = lemma_rising_list(keys);
    crate::interfaces::lemma_ascending(list, keys);
}

proof fn lemma_rising_list(keys: Set<u32>) -> (list: Seq<u32>)
    requires
        keys.finite(),
    ensures
        crate::interfaces::rising(list),
        list.to_set() == keys,
    decreases keys.len(),
{
    if keys.len() == 0 {
        let list = Seq::<u32>::empty();
        assert(list.to_set() =~= keys);
        list
    } else {
        let top = lemma_maximum(keys);
        let head = lemma_rising_list(keys.remove(top));
        let list = head.push(top);
        assert(crate::interfaces::rising(list)) by {
            assert forall|i: int, j: int| 0 <= i < j < list.len() implies (#[trigger] list[i])
                < #[trigger] list[j] by {
                assert(head.to_set().contains(head[i]));
                if j < head.len() {
                    assert(list[i] == head[i] && list[j] == head[j]);
                }
            }
        }
        assert(list.to_set() =~= keys) by {
            assert forall|d: u32| list.to_set().contains(d) == keys.contains(d) by {
                if d == top {
                    assert(list[head.len() as int] == top);
                } else {
                    if list.contains(d) {
                        let k = choose|k: int| 0 <= k < list.len() && list[k] == d;
                        assert(head[k] == d);
                        assert(head.to_set().contains(d));
                    }
                    if keys.contains(d) {
                        assert(keys.remove(top).contains(d));
                        assert(head.to_set().contains(d));
                        let k = choose|k: int| 0 <= k < head.len() && head[k] == d;
                        assert(list[k] == d);
                    }
                }
            }
        }
        list
    }
}

proof fn lemma_maximum(keys: Set<u32>) -> (top: u32)
    requires
        keys.finite(),
        keys.len() > 0,
    ensures
        keys.contains(top),
        forall|d: u32| #[trigger] keys.contains(d) ==> d <= top,
    decreases keys.len(),
{
    let x = keys.choose();
    let rest = keys.remove(x);
    if rest.len() == 0 {
        assert forall|d: u32| #[trigger] keys.contains(d) implies d <= x by {
            if d != x {
                assert(rest.contains(d));
            }
        }
        x
    } else {
        let y = lemma_maximum(rest);
        let top = if x < y {
            y
        } else {
            x
        };
        assert forall|d: u32| #[trigger] keys.contains(d) implies d <= top by {
            if d != x {
                assert(rest.contains(d));
            }
        }
        top
    }
}

spec fn strictly_ordered(records: Seq<FoundModel>) -> bool {
    forall|i: int, j: int|
        0 <= i < j < records.len() ==> lt(
            (#[trigger] records[i]).identity.stable_id,
            (#[trigger] records[j]).identity.stable_id,
        )
}

proof fn lemma_record_order()
    ensures
        orders(record_order()),
{
    let before = record_order();
    assert forall|a: FoundModel, b: FoundModel| #[trigger] before(a, b) implies !before(b, a) by {
        lemma_lt_asymmetric(a.identity.stable_id, b.identity.stable_id);
    }
    assert forall|a: FoundModel, b: FoundModel, c: FoundModel|
        (#[trigger] before(a, b)) && !(#[trigger] before(c, b)) implies before(a, c) by {
        lemma_lt_total(b.identity.stable_id, c.identity.stable_id);
        if lt(b.identity.stable_id, c.identity.stable_id) {
            lemma_lt_transitive(
                a.identity.stable_id,
                b.identity.stable_id,
                c.identity.stable_id,
            );
        }
    }
}

proof fn lemma_repeats_ordered(records: Seq<FoundModel>)
    requires
        ranked(records, record_order()),
    ensures
        strictly_ordered(without_repeats(records)),
        records.len() > 0 ==> without_repeats(records).len() > 0 && without_repeats(
            records,
        ).last().identity.stable_id == records.last().identity.stable_id,
    decreases records.len(),
{
    if records.len() > 0 {
        let front = records.drop_last();
        assert(ranked(front, record_order())) by {
            assert forall|i: int, j: int| 0 <= i < j < front.len() implies !record_order()(
                #[trigger] front[j],
                #[trigger] front[i],
            ) by {
                assert(front[i] == records[i] && front[j] == records[j]);
            }
        }
        lemma_repeats_ordered(front);
        let head = without_repeats(front);
        let after = without_repeats(records);
        let last = records.last();
        if head.len() > 0 && head.last().identity.stable_id != last.identity.stable_id {
            // The last kept one does not come after the new one, so it comes before.
            assert(front.len() > 0);
            let prior = front.last();
            assert(prior == records[records.len() - 2]);
            assert(!record_order()(records[records.len() - 1], records[records.len() - 2]));
            lemma_lt_total(prior.identity.stable_id, last.identity.stable_id);
            assert(lt(head.last().identity.stable_id, last.identity.stable_id));
            assert forall|i: int, j: int| 0 <= i < j < after.len() implies lt(
                (#[trigger] after[i]).identity.stable_id,
                (#[trigger] after[j]).identity.stable_id,
            ) by {
                if j < head.len() {
                    assert(after[i] == head[i] && after[j] == head[j]);
                } else {
                    assert(after[i] == head[i]);
                    if i < head.len() - 1 {
                        assert(lt(
                            head[i].identity.stable_id,
                            head[head.len() - 1].identity.stable_id,
                        ));
                        lemma_lt_transitive(
                            head[i].identity.stable_id,
                            head.last().identity.stable_id,
                            last.identity.stable_id,
                        );
                    }
                }
            }
        }
    }
}

/// The records of a scan come in the order of their identifiers, and no
/// identifier occurs twice.
pub proof fn records_are_ordered_and_distinct(
    nodes: Seq<NodeModel>,
    devinsts: Set<u32>,
    xusb_errors: Seq<Seq<char>>,
    hid: Map<u32, AggregateModel>,
    hid_errors: Seq<Seq<char>>,
    inventory: InventoryModel,
    i: int,
    j: int,
)
    requires
        scanned(nodes, devinsts, xusb_errors, hid, hid_errors) == Ok::<
            InventoryModel,
            ErrorModel,
        >(inventory),
        0 <= i < j < inventory.records.len(),
    ensures
        lt(inventory.records[i].identity.stable_id, inventory.records[j].identity.stable_id),
        inventory.records[i].identity.stable_id != inventory.records[j].identity.stable_id,
{
    let all = with_native(nodes, devinsts);
    let start = Rows { records: Seq::empty(), errors: hid_errors };
    let rows = native_rows(hid_rows(start, ascending(hid.dom()), all, hid), all, all, hid);
    lemma_record_order();
    sorting_ranks(rows.records, record_order());
    lemma_repeats_ordered(sorted_by(rows.records, record_order()));
    let records = without_repeats(sorted_by(rows.records, record_order()));
    assert(lt(records[i].identity.stable_id, records[j].identity.stable_id));
    lemma_lt_irreflexive(records[i].identity.stable_id);
}

/// The identity of a record has a shape that is accepted when it comes back.
pub proof fn recorded_identities_are_accepted(
    record: FoundModel,
    nodes: Seq<NodeModel>,
    hid: Map<u32, AggregateModel>,
)
    requires
        of_listed_node(record, nodes, hid),
        record.node.instance.len() > 0,
        hid.contains_key(record.node.devinst) ==> evidence_ok(hid[record.node.devinst]),
    ensures
        shape_ok(record.identity),
        record.device.id == record.identity.stable_id,
        record.device.verified == Some(record.identity),
{
    reveal_strlit("windows");
    reveal_strlit("windows-controller-");
    reveal_strlit("windows-fingerprint-");
    if native_record(record.node, nodes, hid) != Some(record) {
        let aggregate = hid[record.node.devinst];
        assert(allowed_usage(aggregate.usages[0].0, aggregate.usages[0].1));
    }
}

/// A record promises full control only of a known HID function that is a
/// controller alone, has no native companion and does not look as if it had
/// one, or of a native function on which nothing else hangs.
pub proof fn full_control_is_promised_only_where_it_is_safe(
    record: FoundModel,
    nodes: Seq<NodeModel>,
    hid: Map<u32, AggregateModel>,
)
    requires
        of_listed_node(record, nodes, hid),
        record.identity.coverage == ControlCoverage::Full,
    ensures
        record.node.status_known,
        !composite_parent(record.node),
        record.identity.protocol == ControllerProtocol::HidGamepad ==> {
            &&& hid_function(record.node)
            &&& !companion_name(record.node)
            &&& related(record.node, nodes).len() == 0
            &&& hid.contains_key(record.node.devinst)
            &&& controller_only(hid[record.node.devinst])
        },
        record.identity.protocol == ControllerProtocol::Xusb ==> {
            &&& native(record.node)
            &&& !endangers(record.node, nodes, hid, switched_off(record.node))
        },
        record.device.capabilities.full_control,
{
}

proof fn lemma_find_record(records: Seq<FoundModel>, i: int)
    requires
        0 <= i < records.len(),
        forall|j: int|
            0 <= j < i ==> (#[trigger] records[j]).identity.stable_id
                != records[i].identity.stable_id,
    ensures
        find_record(records, records[i].identity.stable_id) == Some(records[i]),
    decreases i,
{
    if i > 0 {
        let rest = records.skip(1);
        assert(records[0].identity.stable_id != records[i].identity.stable_id);
        assert(rest[i - 1] == records[i]);
        assert forall|j: int| 0 <= j < i - 1 implies (#[trigger] rest[j]).identity.stable_id
            != rest[i - 1].identity.stable_id by {
            assert(rest[j] == records[j + 1]);
        }
        lemma_find_record(rest, i - 1);
    }
}

/// What a scan recorded is found again in it by its identity, unless the node
/// of a fully controlled one is switched off and has to be reconstructed.
pub proof fn recorded_identities_are_located(
    nodes: Seq<NodeModel>,
    devinsts: Set<u32>,
    xusb_errors: Seq<Seq<char>>,
    hid: Map<u32, AggregateModel>,
    hid_errors: Seq<Seq<char>>,
    inventory: InventoryModel,
    i: int,
)
    requires
        scanned(nodes, devinsts, xusb_errors, hid, hid_errors) == Ok::<
            InventoryModel,
            ErrorModel,
        >(inventory),
        0 <= i < inventory.records.len(),
        shape_ok(inventory.records[i].identity),
        find_instance(inventory.nodes, normal(inventory.records[i].identity.instance_id)) is Some,
        inventory.records[i].identity.coverage == ControlCoverage::Full ==> !switched_off(
            find_instance(
                inventory.nodes,
                normal(inventory.records[i].identity.instance_id),
            )->0,
        ),
    ensures
        located(inventory, inventory.records[i].identity) == Ok::<FoundModel, ErrorModel>(
            inventory.records[i],
        ),
{
    assert forall|j: int| 0 <= j < i implies (#[trigger] inventory.records[j]).identity.stable_id
        != inventory.records[i].identity.stable_id by {
        records_are_ordered_and_distinct(
            nodes,
            devinsts,
            xusb_errors,
            hid,
            hid_errors,
            inventory,
            j,
            i,
        );
    }
    lemma_find_record(inventory.records, i);
}

} // verus!
