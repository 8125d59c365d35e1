//! What the rows that are shown say of the devices and of the records.
use crate::controller::{
    device_order, device_rows, find_record, has_row, pending_row, refreshed, row_order, shown,
    with_pending, DataModel, RowModel,
};
use crate::platform::{
    error_message, ControlCoverage, DeviceModel, ErrorModel, RecordModel, ReportModel,
};
use crate::sorting::{lemma_same_members, sorted_by, sorting_keeps_items};
use vstd::prelude::*;

verus! {

/// There is a recovery record of this identifier.
pub open spec fn on_record(data: DataModel, id: Seq<char>) -> bool {
    exists|k: int| 0 <= k < data.disabled.len() && (#[trigger] data.disabled[k]).id == id
}

/// A device of this identifier is present.
pub open spec fn present(devices: Seq<DeviceModel>, id: Seq<char>) -> bool {
    exists|k: int| 0 <= k < devices.len() && (#[trigger] devices[k]).id == id
}

/// The row says of a present device what the device says of itself.
pub open spec fn tells_of_device(row: RowModel, device: DeviceModel, data: DataModel) -> bool {
    &&& row.id == device.id
    &&& row.name == device.name
    &&& row.connection == device.connection
    &&& row.enabled == device.enabled
    &&& row.selected == data.selected.contains(device.id)
    &&& device.problem_code is Some ==> row.problem_code == device.problem_code
    &&& device.problem_code is None ==> match device.coverage {
        ControlCoverage::HidOnly => row.problem_code == Some(1001i32),
        ControlCoverage::Uncontrolled => row.problem_code == Some(1002i32),
        ControlCoverage::Full => row.problem_code == (if device.enabled && on_record(
            data,
            device.id,
        ) {
            Some(1004i32)
        } else {
            None
        }),
    }
}

/// The row says of a record that its device waits to be recovered.
pub open spec fn tells_of_record(row: RowModel, record: RecordModel, data: DataModel) -> bool {
    &&& row.id == record.id
    &&& row.name == record.name + " (app-disabled; recovery pending)"@
    &&& row.connection == record.connection
    &&& !row.enabled
    &&& row.selected == data.selected.contains(record.id)
    &&& row.problem_code == Some(1003i32)
}

proof fn lemma_on_record(data: DataModel, id: Seq<char>)
    ensures
        find_record(data.disabled, id) is Some <==> on_record(data, id),
{
    lemma_found_iff(data.disabled, id);
}

proof fn lemma_found_iff(records: Seq<RecordModel>, id: Seq<char>)
    ensures
        find_record(records, id) is Some <==> (exists|k: int|
            0 <= k < records.len() && (#[trigger] records[k]).id == id),
    decreases records.len(),
{
    if records.len() > 0 {
        let rest = records.drop_first();
        lemma_found_iff(rest, id);
        if find_record(rest, id) is Some {
            let k = choose|k: int| 0 <= k < rest.len() && (#[trigger] rest[k]).id == id;
            assert(records[k + 1].id == id);
        }
        if exists|k: int| 0 <= k < records.len() && (#[trigger] records[k]).id == id {
            let k = choose|k: int| 0 <= k < records.len() && (#[trigger] records[k]).id == id;
            if k > 0 {
                assert(rest[k - 1].id == id);
            }
        }
    }
}

/// The rows before the sort: first those of the devices, then those of records.
spec fn unsorted(data: DataModel, devices: Seq<DeviceModel>) -> Seq<RowModel> {
    with_pending(data, device_rows(data, sorted_by(devices, device_order())), data.disabled)
}

proof fn lemma_pending(data: DataModel, rows: Seq<RowModel>, records: Seq<RecordModel>)
    ensures
        rows.len() <= with_pending(data, rows, records).len() <= rows.len() + records.len(),
        forall|i: int|
            0 <= i < rows.len() ==> #[trigger] with_pending(data, rows, records)[i] == rows[i],
        forall|j: int|
            rows.len() <= j < with_pending(data, rows, records).len() ==> exists|k: int|
                0 <= k < records.len() && #[trigger] pending_row(data, records[k])
                    == #[trigger] with_pending(data, rows, records)[j] && !has_row(
                    rows,
                    records[k].id,
                ),
        forall|k: int|
            0 <= k < records.len() ==> has_row(
                with_pending(data, rows, records),
                (#[trigger] records[k]).id,
            ),
        (forall|i: int, j: int|
            0 <= i < j < rows.len() ==> (#[trigger] rows[i]).id != (#[trigger] rows[j]).id) ==> (
        forall|i: int, j: int|
            0 <= i < j < with_pending(data, rows, records).len() ==> (#[trigger] with_pending(
                data,
                rows,
                records,
            )[i]).id != (#[trigger] with_pending(data, rows, records)[j]).id),
        (forall|k: int| 0 <= k < records.len() ==> has_row(rows, (#[trigger] records[k]).id))
            ==> with_pending(data, rows, records) == rows,
    decreases records.len(),
{
    let after = with_pending(data, rows, records);
    if records.len() > 0 {
        let head = records.drop_last();
        let last = records.last();
        let before = with_pending(data, rows, head);
        lemma_pending(data, rows, head);
        assert(records[records.len() - 1] == last);
        let grew = !has_row(before, last.id);
        assert forall|j: int| rows.len() <= j < after.len() implies exists|k: int|
            0 <= k < records.len() && #[trigger] pending_row(data, records[k]) == #[trigger] after[j]
                && !has_row(rows, records[k].id) by {
            if j < before.len() {
                assert(after[j] == before[j]);
                let k = choose|k: int|
                    0 <= k < head.len() && #[trigger] pending_row(data, head[k]) == before[j]
                        && !has_row(rows, head[k].id);
                assert(records[k] == head[k]);
                assert(pending_row(data, records[k]) == after[j]);
            } else {
                assert(after[j] == pending_row(data, records[records.len() - 1]));
                if has_row(rows, last.id) {
                    let i = choose|i: int| 0 <= i < rows.len() && (#[trigger] rows[i]).id == last.id;
                    assert(before[i].id == last.id);
                }
            }
        }
        assert forall|k: int| 0 <= k < records.len() implies has_row(
            after,
            (#[trigger] records[k]).id,
        ) by {
            if k < head.len() {
                assert(records[k] == head[k]);
                let i = choose|i: int|
                    0 <= i < before.len() && (#[trigger] before[i]).id == head[k].id;
                assert(after[i].id == records[k].id);
            } else if grew {
                assert(after[before.len() as int].id == last.id);
            }
        }
        if forall|i: int, j: int|
            0 <= i < j < rows.len() ==> (#[trigger] rows[i]).id != (#[trigger] rows[j]).id {
            assert forall|i: int, j: int| 0 <= i < j < after.len() implies (#[trigger] after[i]).id
                != (#[trigger] after[j]).id by {
                assert(after[i] == before[i]);
                if j < before.len() {
                    assert(after[j] == before[j]);
                } else {
                    assert(before[i].id != last.id);
                }
            }
        }
        if forall|k: int| 0 <= k < records.len() ==> has_row(rows, (#[trigger] records[k]).id) {
            assert forall|k: int| 0 <= k < head.len() implies has_row(
                rows,
                (#[trigger] head[k]).id,
            ) by {
                assert(head[k] == records[k]);
            }
        }
    }
}

proof fn lemma_unsorted(data: DataModel, devices: Seq<DeviceModel>)
    ensures
        shown(data, devices).devices.to_multiset() == unsorted(data, devices).to_multiset(),
        shown(data, devices).devices.len() == unsorted(data, devices).len(),
        sorted_by(devices, device_order()).to_multiset() == devices.to_multiset(),
        sorted_by(devices, device_order()).len() == devices.len(),
{
    sorting_keeps_items(devices, device_order());
    sorting_keeps_items(unsorted(data, devices), row_order());
}

/// Each present device has a row with its identifier, its name, its connection
/// and its state; the row is marked selected where the device is, and carries
/// the problem of the device or what stands in the way of controlling it.
pub proof fn a_device_is_shown_as_it_is(data: DataModel, devices: Seq<DeviceModel>, i: int)
    requires
        0 <= i < devices.len(),
    ensures
        exists|j: int|
            0 <= j < shown(data, devices).devices.len() && tells_of_device(
                #[trigger] shown(data, devices).devices[j],
                devices[i],
                data,
            ),
{
    let sorted = sorted_by(devices, device_order());
    let rows = device_rows(data, sorted);
    let all = unsorted(data, devices);
    let end = shown(data, devices).devices;
    lemma_unsorted(data, devices);
    lemma_pending(data, rows, data.disabled);
    lemma_same_members(devices, sorted, i);
    let k = choose|k: int| 0 <= k < sorted.len() && sorted[k] == devices[i];
    lemma_on_record(data, devices[i].id);
    assert(all[k] == rows[k]);
    assert(tells_of_device(rows[k], devices[i], data));
    lemma_same_members(all, end, k);
    let j = choose|j: int| 0 <= j < end.len() && end[j] == all[k];
    assert(tells_of_device(end[j], devices[i], data));
}

/// Nothing else is shown: a row is that of a present device, or that of a
/// record whose device is not present.
pub proof fn only_devices_and_records_are_shown(
    data: DataModel,
    devices: Seq<DeviceModel>,
    j: int,
)
    requires
        0 <= j < shown(data, devices).devices.len(),
    ensures
        ({
            let row = shown(data, devices).devices[j];
            ||| exists|i: int|
                0 <= i < devices.len() && tells_of_device(row, #[trigger] devices[i], data)
            ||| !present(devices, row.id) && exists|k: int|
                0 <= k < data.disabled.len() && tells_of_record(
                    row,
                    #[trigger] data.disabled[k],
                    data,
                )
        }),
{
    let sorted = sorted_by(devices, device_order());
    let rows = device_rows(data, sorted);
    let all = unsorted(data, devices);
    let end = shown(data, devices).devices;
    lemma_unsorted(data, devices);
    lemma_pending(data, rows, data.disabled);
    lemma_same_members(end, all, j);
    let n = choose|n: int| 0 <= n < all.len() && all[n] == end[j];
    if n < rows.len() {
        lemma_same_members(sorted, devices, n);
        let i = choose|i: int| 0 <= i < devices.len() && devices[i] == sorted[n];
        lemma_on_record(data, devices[i].id);
        assert(all[n] == rows[n]);
        assert(tells_of_device(end[j], devices[i], data));
    } else {
        let k = choose|k: int|
            0 <= k < data.disabled.len() && #[trigger] pending_row(data, data.disabled[k]) == all[n]
                && !has_row(rows, data.disabled[k].id);
        assert(tells_of_record(end[j], data.disabled[k], data));
        if present(devices, end[j].id) {
            let i = choose|i: int| 0 <= i < devices.len() && (#[trigger] devices[i]).id == end[j].id;
            lemma_same_members(devices, sorted, i);
            let s = choose|s: int| 0 <= s < sorted.len() && sorted[s] == devices[i];
            assert(rows[s].id == data.disabled[k].id);
        }
    }
}

/// A record whose device is not present has a row that says so: its identifier,
/// its name with the remark, its connection, and that it is off.
pub proof fn a_missing_device_is_shown_as_pending(
    data: DataModel,
    devices: Seq<DeviceModel>,
    k: int,
)
    requires
        0 <= k < data.disabled.len(),
        !present(devices, data.disabled[k].id),
        forall|n: int|
            0 <= n < data.disabled.len() && n != k ==> (#[trigger] data.disabled[n]).id
                != data.disabled[k].id,
    ensures
        exists|j: int|
            0 <= j < shown(data, devices).devices.len() && tells_of_record(
                #[trigger] shown(data, devices).devices[j],
                data.disabled[k],
                data,
            ),
{
    let sorted = sorted_by(devices, device_order());
    let rows = device_rows(data, sorted);
    let all = unsorted(data, devices);
    let end = shown(data, devices).devices;
    lemma_unsorted(data, devices);
    lemma_pending(data, rows, data.disabled);
    let id = data.disabled[k].id;
    let n = choose|n: int| 0 <= n < all.len() && (#[trigger] all[n]).id == id;
    lemma_same_members(all, end, n);
    let j = choose|j: int| 0 <= j < end.len() && end[j] == all[n];
    only_devices_and_records_are_shown(data, devices, j);
    let row = end[j];
    if exists|i: int| 0 <= i < devices.len() && tells_of_device(row, #[trigger] devices[i], data) {
        let i = choose|i: int|
            0 <= i < devices.len() && tells_of_device(row, #[trigger] devices[i], data);
        assert(devices[i].id == id);
    } else {
        let m = choose|m: int|
            0 <= m < data.disabled.len() && tells_of_record(row, #[trigger] data.disabled[m], data);
        assert(data.disabled[m].id == id);
        assert(m == k);
    }
}

/// Where the identifiers of the devices differ, those of the rows do too: no
/// device is shown twice, whether it is present or waits to be recovered.
pub proof fn no_device_is_shown_twice(data: DataModel, devices: Seq<DeviceModel>, a: int, b: int)
    requires
        forall|i: int, j: int|
            0 <= i < j < devices.len() ==> (#[trigger] devices[i]).id != (#[trigger] devices[j]).id,
        0 <= a < b < shown(data, devices).devices.len(),
    ensures
        shown(data, devices).devices[a].id != shown(data, devices).devices[b].id,
{
    let sorted = sorted_by(devices, device_order());
    let rows = device_rows(data, sorted);
    let all = unsorted(data, devices);
    let end = shown(data, devices).devices;
    lemma_unsorted(data, devices);
    lemma_pending(data, rows, data.disabled);
    lemma_still_distinct(devices, sorted, |d: DeviceModel| d.id);
    assert forall|i: int, j: int| 0 <= i < j < rows.len() implies (#[trigger] rows[i]).id != (
    #[trigger] rows[j]).id by {
        assert(rows[i].id == sorted[i].id && rows[j].id == sorted[j].id);
    }
    lemma_still_distinct(all, end, |r: RowModel| r.id);
}

/// Items with different names have different names in any order.
proof fn lemma_still_distinct<A>(one: Seq<A>, other: Seq<A>, name: spec_fn(A) -> Seq<char>)
    requires
        one.to_multiset() == other.to_multiset(),
        forall|i: int, j: int|
            0 <= i < j < one.len() ==> name(#[trigger] one[i]) != name(#[trigger] one[j]),
    ensures
        forall|i: int, j: int|
            0 <= i < j < other.len() ==> name(#[trigger] other[i]) != name(#[trigger] other[j]),
{
    assert(one.no_duplicates());
    one.lemma_multiset_has_no_duplicates();
    other.lemma_multiset_has_no_duplicates_conv();
    assert forall|i: int, j: int| 0 <= i < j < other.len() implies name(#[trigger] other[i])
        != name(#[trigger] other[j]) by {
        lemma_same_members(other, one, i);
        lemma_same_members(other, one, j);
        let a = choose|a: int| 0 <= a < one.len() && one[a] == other[i];
        let b = choose|b: int| 0 <= b < one.len() && one[b] == other[j];
        assert(other[i] != other[j]);
        if a < b {
            assert(name(one[a]) != name(one[b]));
        } else {
            assert(name(one[b]) != name(one[a]));
        }
    }
}

/// There are as many rows as devices where each record is that of a present
/// device, and never fewer.
pub proof fn rows_are_counted(data: DataModel, devices: Seq<DeviceModel>)
    ensures
        devices.len() <= shown(data, devices).devices.len() <= devices.len() + data.disabled.len(),
        (forall|k: int|
            0 <= k < data.disabled.len() ==> present(devices, (#[trigger] data.disabled[k]).id))
            ==> shown(data, devices).devices.len() == devices.len(),
{
    let sorted = sorted_by(devices, device_order());
    let rows = device_rows(data, sorted);
    lemma_unsorted(data, devices);
    lemma_pending(data, rows, data.disabled);
    if forall|k: int|
        0 <= k < data.disabled.len() ==> present(devices, (#[trigger] data.disabled[k]).id) {
        assert forall|k: int| 0 <= k < data.disabled.len() implies has_row(
            rows,
            (#[trigger] data.disabled[k]).id,
        ) by {
            let i = choose|i: int|
                0 <= i < devices.len() && (#[trigger] devices[i]).id == data.disabled[k].id;
            lemma_same_members(devices, sorted, i);
            let s = choose|s: int| 0 <= s < sorted.len() && sorted[s] == devices[i];
            assert(rows[s].id == data.disabled[k].id);
        }
    }
}

/// A look at the controllers shows the devices that were listed, the shortcut
/// as it is, and the errors that are remembered before those of the look; where
/// nothing could be listed, no device is taken to be present.
pub proof fn a_look_shows_what_was_listed(
    data: DataModel,
    report: Result<ReportModel, ErrorModel>,
)
    ensures
        refreshed(data, report).shortcut == data.shortcut,
        refreshed(data, report).shortcut_available == data.shortcut_available,
        match report {
            Ok(r) => {
                &&& refreshed(data, report).devices == shown(data, r.devices).devices
                &&& refreshed(data, report).errors == data.errors + r.errors
            },
            Err(e) => {
                &&& refreshed(data, report).devices == shown(data, Seq::empty()).devices
                &&& refreshed(data, report).errors == data.errors.push(error_message(e))
            },
        },
{
}

} // verus!
