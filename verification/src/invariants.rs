//! What every command of the service keeps, and what one step undoes of
//! another.
use crate::controller::{
    all_valid_ids, bad_record, cleared, device_rows, disk_of, find_device, find_record, has_row,
    loaded, pushed, records_problem, row_order, shown, valid_id, with_pending, DataModel, RowModel,
    MAX_ERRORS, MAX_RECOVERY_RECORDS, MAX_SELECTIONS,
};
use crate::names::{
    insert_reverses_remove, lemma_name_set, lemma_ordered_list_is_set, lemma_with_name,
    lemma_with_present, lemma_without_missing, lemma_without_name, names_in_order,
    remove_reverses_insert, with_name, without_name,
};
use crate::platform::{
    record_of, same_device, valid, ControlCoverage, DeviceModel, ErrorModel, RecordModel,
    ReportModel, VerifiedModel,
};
use crate::service::{
    calmed, device_step, noted, record_begun, record_ended, records_of_others, records_without,
    removal_ended, restore_step, seen_enabled, selection_begun, selection_ended, DeviceEventModel,
    DeviceNextModel, RestoreEventModel, RestoreSummary,
};
use crate::sorting::{lemma_same_members, orders, ranked, sorted_by, sorting_keeps_items, sorting_ranks};
use crate::text::{lemma_lt_asymmetric, lemma_lt_total, lemma_lt_transitive, lt, trimmed};
use vstd::prelude::*;

verus! {

/// Errors are bounded, none is empty and none comes twice.
pub open spec fn errors_ok(errors: Seq<Seq<char>>) -> bool {
    &&& errors.len() <= MAX_ERRORS
    &&& forall|i: int| 0 <= i < errors.len() ==> (#[trigger] errors[i]).len() > 0
    &&& forall|i: int, j: int|
        0 <= i < j < errors.len() ==> #[trigger] errors[i] != #[trigger] errors[j]
}

/// Records are bounded, well formed, and no identifier comes twice.
pub open spec fn records_ok(records: Seq<RecordModel>) -> bool {
    &&& records.len() <= MAX_RECOVERY_RECORDS
    &&& forall|i: int| 0 <= i < records.len() ==> !bad_record(#[trigger] records[i])
    &&& forall|i: int, j: int|
        0 <= i < j < records.len() ==> (#[trigger] records[i]).id != (#[trigger] records[j]).id
}

pub open spec fn selection_ok(selected: Seq<Seq<char>>) -> bool {
    names_in_order(selected) && selected.len() <= MAX_SELECTIONS && all_valid_ids(selected)
}

/// The data of the service at any time.
pub open spec fn data_ok(data: DataModel) -> bool {
    &&& selection_ok(data.selected)
    &&& records_ok(data.disabled)
    &&& trimmed(data.shortcut).len() > 0
    &&& errors_ok(data.errors)
}

/// A platform gives each verified device the identifier of its identity.
pub open spec fn report_ok(report: Result<ReportModel, ErrorModel>) -> bool {
    report matches Ok(r) ==> forall|i: int|
        0 <= i < r.devices.len() ==> ((#[trigger] r.devices[i]).verified matches Some(v)
            ==> v.stable_id == r.devices[i].id)
}

// Errors.
/// Remembering an error keeps the list bounded and without repetition.
pub proof fn pushing_keeps_errors_ok(errors: Seq<Seq<char>>, message: Seq<char>)
    requires
        errors_ok(errors),
    ensures
        errors_ok(pushed(errors, message)),
        message.len() > 0 ==> pushed(errors, message).contains(message),
{
    let after = pushed(errors, message);
    if message.len() > 0 && !errors.contains(message) {
        let all = errors.push(message);
        let cut = if all.len() > MAX_ERRORS {
            all.len() - MAX_ERRORS
        } else {
            0
        };
        assert(after == all.skip(cut));
        assert forall|i: int, j: int| 0 <= i < j < all.len() implies #[trigger] all[i]
            != #[trigger] all[j] by {
            if j == errors.len() {
                assert(errors.contains(errors[i]));
            }
        }
        assert forall|i: int| 0 <= i < after.len() implies (#[trigger] after[i]).len() > 0 by {
            assert(after[i] == all[i + cut]);
        }
        assert forall|i: int, j: int| 0 <= i < j < after.len() implies #[trigger] after[i]
            != #[trigger] after[j] by {
            assert(after[i] == all[i + cut]);
            assert(after[j] == all[j + cut]);
        }
        assert(after[after.len() - 1] == message);
    }
}

proof fn lemma_cleared_members(errors: Seq<Seq<char>>, id: Seq<char>)
    ensures
        cleared(errors, id).len() <= errors.len(),
        forall|i: int|
            0 <= i < cleared(errors, id).len() ==> errors.contains(#[trigger] cleared(errors, id)[i]),
    decreases errors.len(),
{
    if errors.len() > 0 {
        let head = errors.drop_last();
        lemma_cleared_members(head, id);
        let after = cleared(errors, id);
        assert forall|i: int| 0 <= i < after.len() implies errors.contains(#[trigger] after[i]) by {
            if i < cleared(head, id).len() {
                assert(head.contains(cleared(head, id)[i]));
                let k = choose|k: int| 0 <= k < head.len() && head[k] == cleared(head, id)[i];
                assert(errors[k] == after[i]);
            } else {
                assert(errors[errors.len() - 1] == after[i]);
            }
        }
    }
}

pub proof fn clearing_keeps_errors_ok(errors: Seq<Seq<char>>, id: Seq<char>)
    requires
        errors_ok(errors),
    ensures
        errors_ok(cleared(errors, id)),
    decreases errors.len(),
{
    if errors.len() > 0 {
        let head = errors.drop_last();
        let last = errors.last();
        assert(errors_ok(head)) by {
            assert forall|i: int| 0 <= i < head.len() implies (#[trigger] head[i]).len() > 0 by {
                assert(head[i] == errors[i]);
            }
            assert forall|i: int, j: int| 0 <= i < j < head.len() implies #[trigger] head[i]
                != #[trigger] head[j] by {
                assert(head[i] == errors[i]);
                assert(head[j] == errors[j]);
            }
        }
        clearing_keeps_errors_ok(head, id);
        lemma_cleared_members(head, id);
        let kept = cleared(head, id);
        let after = cleared(errors, id);
        assert(errors[errors.len() - 1] == last);
        assert forall|i: int, j: int| 0 <= i < j < after.len() implies #[trigger] after[i]
            != #[trigger] after[j] by {
            if j == kept.len() {
                assert(head.contains(kept[i]));
                let k = choose|k: int| 0 <= k < head.len() && head[k] == kept[i];
                assert(errors[k] != errors[errors.len() - 1]);
            } else {
                assert(after[i] == kept[i]);
                assert(after[j] == kept[j]);
            }
        }
    }
}

// Records.
proof fn lemma_find_absent(records: Seq<RecordModel>, id: Seq<char>)
    requires
        find_record(records, id) is None,
    ensures
        forall|i: int| 0 <= i < records.len() ==> (#[trigger] records[i]).id != id,
    decreases records.len(),
{
    if records.len() > 0 {
        let rest = records.drop_first();
        lemma_find_absent(rest, id);
        assert forall|i: int| 0 <= i < records.len() implies (#[trigger] records[i]).id != id by {
            if i > 0 {
                assert(records[i] == rest[i - 1]);
            }
        }
    }
}

proof fn lemma_find_none(records: Seq<RecordModel>, id: Seq<char>)
    requires
        forall|i: int| 0 <= i < records.len() ==> (#[trigger] records[i]).id != id,
    ensures
        find_record(records, id) is None,
    decreases records.len(),
{
    if records.len() > 0 {
        let rest = records.drop_first();
        assert forall|i: int| 0 <= i < rest.len() implies (#[trigger] rest[i]).id != id by {
            assert(rest[i] == records[i + 1]);
        }
        lemma_find_none(rest, id);
    }
}

proof fn lemma_others(records: Seq<RecordModel>, identity: VerifiedModel)
    ensures
        records_of_others(records, identity).len() <= records.len(),
        records_ok(records) ==> records_ok(records_of_others(records, identity)),
        forall|r: RecordModel| #[trigger]
            records_of_others(records, identity).contains(r) <==> records.contains(r)
                && !same_device(r.identity, identity),
        records_of_others(records, identity).len() == records.len() ==> records_of_others(
            records,
            identity,
        ) == records,
    decreases records.len(),
{
    let after = records_of_others(records, identity);
    if records.len() > 0 {
        let head = records.drop_last();
        let last = records.last();
        lemma_others(head, identity);
        let kept = records_of_others(head, identity);
        assert(records[records.len() - 1] == last);
        assert forall|r: RecordModel| #[trigger] records.contains(r) <==> head.contains(r) || r
            == last by {
            if records.contains(r) {
                let k = choose|k: int| 0 <= k < records.len() && records[k] == r;
                if k < head.len() {
                    assert(head[k] == r);
                }
            }
            if head.contains(r) {
                let k = choose|k: int| 0 <= k < head.len() && head[k] == r;
                assert(records[k] == r);
            }
        }
        if records_ok(records) {
            assert(records_ok(head)) by {
                assert forall|i: int| 0 <= i < head.len() implies !bad_record(
                    #[trigger] head[i],
                ) by {
                    assert(head[i] == records[i]);
                }
                assert forall|i: int, j: int| 0 <= i < j < head.len() implies (
                #[trigger] head[i]).id != (#[trigger] head[j]).id by {
                    assert(head[i] == records[i]);
                    assert(head[j] == records[j]);
                }
            }
        }
        if !same_device(last.identity, identity) {
            assert(after == kept.push(last));
            assert forall|r: RecordModel| #[trigger]
                after.contains(r) <==> records.contains(r) && !same_device(
                    r.identity,
                    identity,
                ) by {
                if after.contains(r) {
                    let k = choose|k: int| 0 <= k < after.len() && after[k] == r;
                    if k < kept.len() {
                        assert(kept[k] == r);
                        assert(kept.contains(r));
                    }
                }
                if kept.contains(r) {
                    let k = choose|k: int| 0 <= k < kept.len() && kept[k] == r;
                    assert(after[k] == r);
                }
                assert(after[kept.len() as int] == last);
            }
            if records_ok(records) {
                assert(records_ok(after)) by {
                    assert forall|i: int| 0 <= i < after.len() implies !bad_record(
                        #[trigger] after[i],
                    ) by {
                        if i < kept.len() {
                            assert(after[i] == kept[i]);
                        } else {
                            assert(!bad_record(records[records.len() - 1]));
                        }
                    }
                    assert forall|i: int, j: int| 0 <= i < j < after.len() implies (
                    #[trigger] after[i]).id != (#[trigger] after[j]).id by {
                        if j == kept.len() {
                            assert(kept.contains(kept[i]));
                            let k = choose|k: int| 0 <= k < head.len() && head[k] == kept[i];
                            assert(records[k].id != records[records.len() - 1].id);
                        } else {
                            assert(after[i] == kept[i]);
                            assert(after[j] == kept[j]);
                        }
                    }
                }
            }
            if after.len() == records.len() {
                assert(head.push(last) == records);
            }
        }
    } else {
        assert forall|r: RecordModel| #[trigger]
            after.contains(r) <==> records.contains(r) && !same_device(r.identity, identity) by {}
    }
}

proof fn lemma_without_absent(
    records: Seq<RecordModel>,
    id: Seq<char>,
    identity: VerifiedModel,
)
    requires
        forall|i: int| 0 <= i < records.len() ==> (#[trigger] records[i]).id != id,
    ensures
        records_without(records, id, identity) == records,
    decreases records.len(),
{
    if records.len() > 0 {
        let head = records.drop_last();
        assert forall|i: int| 0 <= i < head.len() implies (#[trigger] head[i]).id != id by {
            assert(head[i] == records[i]);
        }
        lemma_without_absent(head, id, identity);
        assert(records[records.len() - 1].id != id);
        assert(head.push(records.last()) == records);
    }
}

/// A recovery record whose saving failed leaves no trace among the records.
pub proof fn failed_record_is_rolled_back(
    data: DataModel,
    record: RecordModel,
    error: Seq<char>,
)
    requires
        record_begun(data, record).1 == Ok::<bool, Seq<char>>(true),
    ensures
        record_ended(record_begun(data, record).0, record, Err(error)).0.disabled == data.disabled,
{
    lemma_find_absent(data.disabled, record.id);
    lemma_without_absent(data.disabled, record.id, record.identity);
    let grown = data.disabled.push(record);
    assert(grown.drop_last() == data.disabled);
}

/// A removal whose saving failed brings all records back.
pub proof fn failed_removal_is_rolled_back(
    data: DataModel,
    identity: VerifiedModel,
    before: Seq<RecordModel>,
    error: Seq<char>,
)
    ensures
        removal_ended(data, identity, before, Err(error)).0.disabled == before,
{
}

/// A selection whose saving failed is what it was before.
pub proof fn failed_selection_is_rolled_back(
    data: DataModel,
    id: Seq<char>,
    selected: bool,
    report: Result<ReportModel, ErrorModel>,
    error: Seq<char>,
)
    requires
        names_in_order(data.selected),
        selection_begun(data, id, selected, report).1 is Ok,
    ensures
        ({
            let (begun, was) = selection_begun(data, id, selected, report);
            selection_ended(begun, id, was->Ok_0, Err(error)).0.selected == data.selected
        }),
{
    let was = data.selected.contains(id);
    if selected {
        if was {
            lemma_with_present(data.selected, id);
        } else {
            remove_reverses_insert(data.selected, id);
        }
    } else {
        if was {
            insert_reverses_remove(data.selected, id);
        } else {
            lemma_without_missing(data.selected, id);
        }
    }
}

pub proof fn lemma_records_no_problem(records: Seq<RecordModel>)
    requires
        records_ok(records),
    ensures
        records_problem(records) is None,
    decreases records.len(),
{
    if records.len() > 0 {
        let head = records.drop_last();
        assert(records_ok(head)) by {
            assert forall|i: int| 0 <= i < head.len() implies !bad_record(#[trigger] head[i]) by {
                assert(head[i] == records[i]);
            }
            assert forall|i: int, j: int| 0 <= i < j < head.len() implies (#[trigger] head[i]).id
                != (#[trigger] head[j]).id by {
                assert(head[i] == records[i]);
                assert(head[j] == records[j]);
            }
        }
        lemma_records_no_problem(head);
        let last = records[records.len() - 1];
        assert(!bad_record(last));
        assert forall|i: int| 0 <= i < head.len() implies (#[trigger] head[i]).id != last.id by {
            assert(head[i] == records[i]);
        }
        lemma_find_none(head, last.id);
    }
}

pub proof fn lemma_problem_free_records(records: Seq<RecordModel>)
    requires
        records_problem(records) is None,
        records.len() <= MAX_RECOVERY_RECORDS,
    ensures
        records_ok(records),
    decreases records.len(),
{
    if records.len() > 0 {
        let head = records.drop_last();
        lemma_problem_free_records(head);
        lemma_find_absent(head, records.last().id);
        assert forall|i: int| 0 <= i < records.len() implies !bad_record(
            #[trigger] records[i],
        ) by {
            if i < head.len() {
                assert(records[i] == head[i]);
            }
        }
        assert forall|i: int, j: int| 0 <= i < j < records.len() implies (#[trigger] records[i]).id
            != (#[trigger] records[j]).id by {
            assert(records[i] == head[i]);
            if j < head.len() {
                assert(records[j] == head[j]);
            }
        }
    }
}

/// The state file that is written can be read again and gives back what was
/// kept: the selection, the records and the shortcut.
pub proof fn load_inverts_save(data: DataModel)
    requires
        data_ok(data),
    ensures
        loaded(disk_of(data)) == Ok::<DataModel, Seq<char>>(
            DataModel { shortcut_available: false, errors: Seq::empty(), ..data },
        ),
{
    lemma_ordered_list_is_set(data.selected);
    lemma_records_no_problem(data.disabled);
}

/// Whatever state file is accepted, the data satisfy the invariant.
pub proof fn loaded_data_are_ok(disk: crate::controller::DiskModel)
    requires
        loaded(disk) is Ok,
    ensures
        data_ok(loaded(disk)->Ok_0),
{
    let data = loaded(disk)->Ok_0;
    lemma_name_set(disk.selected);
    assert(all_valid_ids(data.selected)) by {
        assert forall|i: int| 0 <= i < data.selected.len() implies valid_id(
            #[trigger] data.selected[i],
        ) by {
            assert(data.selected.contains(data.selected[i]));
            let k = choose|k: int| 0 <= k < disk.selected.len() && disk.selected[k]
                == data.selected[i];
            assert(valid_id(disk.selected[k]));
        }
    }
    lemma_problem_free_records(disk.disabled);
    reveal_strlit("Ctrl+Shift+F10");
    if trimmed(disk.shortcut).len() == 0 {
        lemma_standard_shortcut();
    }
}

proof fn lemma_standard_shortcut()
    ensures
        trimmed("Ctrl+Shift+F10"@).len() > 0,
{
    reveal_strlit("Ctrl+Shift+F10");
    let text = "Ctrl+Shift+F10"@;
    assert(text[0] == 'C');
    assert(text.last() == '0');
    assert(!crate::text::is_space('C'));
    assert(!crate::text::is_space('0'));
    assert(crate::text::trim_front(text, crate::text::spaces()) == text);
    assert(crate::text::trim_back(text, crate::text::spaces()) == text);
}

// Every step keeps the invariant.
proof fn lemma_noted_ok(data: DataModel, message: Seq<char>)
    requires
        data_ok(data),
    ensures
        data_ok(noted(data, message)),
{
    pushing_keeps_errors_ok(data.errors, message);
}

proof fn lemma_calmed_ok(data: DataModel, id: Seq<char>)
    requires
        data_ok(data),
    ensures
        data_ok(calmed(data, id)),
{
    clearing_keeps_errors_ok(data.errors, id);
}

proof fn lemma_found_device(devices: Seq<DeviceModel>, id: Seq<char>)
    ensures
        find_device(devices, id) matches Some(device) ==> device.id == id && devices.contains(
            device,
        ),
    decreases devices.len(),
{
    if devices.len() > 0 {
        let rest = devices.drop_first();
        lemma_found_device(rest, id);
        assert(devices[0] == devices.first());
        if let Some(device) = find_device(rest, id) {
            let k = choose|k: int| 0 <= k < rest.len() && rest[k] == device;
            if devices[0].id != id {
                assert(devices[k + 1] == device);
            }
        }
    }
}

/// Selecting keeps the invariant.
pub proof fn selecting_keeps_data_ok(
    data: DataModel,
    id: Seq<char>,
    selected: bool,
    report: Result<ReportModel, ErrorModel>,
)
    requires
        data_ok(data),
    ensures
        data_ok(selection_begun(data, id, selected, report).0),
{
    lemma_noted_ok(data, "controller selection limit reached"@);
    lemma_with_name(data.selected, id);
    lemma_without_name(data.selected, id);
    if valid_id(id) {
        let added = with_name(data.selected, id);
        assert(all_valid_ids(added)) by {
            assert forall|i: int| 0 <= i < added.len() implies valid_id(#[trigger] added[i]) by {
                assert(added.contains(added[i]));
                if added[i] != id {
                    let k = choose|k: int| 0 <= k < data.selected.len() && data.selected[k]
                        == added[i];
                    assert(valid_id(data.selected[k]));
                }
            }
        }
        let removed = without_name(data.selected, id);
        assert(all_valid_ids(removed)) by {
            assert forall|i: int| 0 <= i < removed.len() implies valid_id(
                #[trigger] removed[i],
            ) by {
                assert(removed.contains(removed[i]));
                let k = choose|k: int| 0 <= k < data.selected.len() && data.selected[k]
                    == removed[i];
                assert(valid_id(data.selected[k]));
            }
        }
    }
}

proof fn lemma_record_begun_ok(data: DataModel, record: RecordModel)
    requires
        data_ok(data),
        record.id == record.identity.stable_id,
    ensures
        data_ok(record_begun(data, record).0),
{
    lemma_noted_ok(data, "refusing to persist an invalid controller identity"@);
    lemma_noted_ok(
        data,
        record.id + ": an existing recovery record has a different verified identity"@,
    );
    lemma_noted_ok(
        data,
        "recovery record limit reached; refusing to disable another controller"@,
    );
    if record_begun(data, record).1 == Ok::<bool, Seq<char>>(true) {
        lemma_find_absent(data.disabled, record.id);
        let grown = data.disabled.push(record);
        assert(records_ok(grown)) by {
            assert forall|i: int, j: int| 0 <= i < j < grown.len() implies (#[trigger] grown[i]).id
                != (#[trigger] grown[j]).id by {
                if j == data.disabled.len() {
                    assert(grown[i] == data.disabled[i]);
                }
            }
        }
    }
}

/// What an event carries must come from the step before it: the records to go
/// back to are good ones.
pub open spec fn event_ok(event: DeviceEventModel) -> bool {
    match event {
        DeviceEventModel::Enumerated { report, now: _ } => report_ok(report),
        DeviceEventModel::RemovalSaved { identity: _, before, report: _, result: _ } => records_ok(
            before,
        ),
        _ => true,
    }
}

/// Switching a device keeps the invariant, step by step.
pub proof fn switching_keeps_data_ok(
    data: DataModel,
    id: Seq<char>,
    enabled: bool,
    event: DeviceEventModel,
)
    requires
        data_ok(data),
        event_ok(event),
    ensures
        data_ok(device_step(data, id, enabled, event).0),
{
    let after = device_step(data, id, enabled, event).0;
    assert forall|m: Seq<char>| data_ok(#[trigger] noted(data, m)) by {
        lemma_noted_ok(data, m);
    }
    lemma_calmed_ok(data, id);
    match event {
        DeviceEventModel::Enumerated { report, now } => {
            if let Ok(r) = report {
                lemma_found_device(r.devices, id);
                if let Some(device) = find_device(r.devices, id) {
                    let k = choose|k: int| 0 <= k < r.devices.len() && r.devices[k] == device;
                    assert(r.devices[k].verified == device.verified);
                    if let Ok(record) = record_of(device, now) {
                        lemma_record_begun_ok(data, record);
                    }
                }
            }
        },
        DeviceEventModel::Looked { identity, recovery, report, enumeration } => {
            lemma_others(data.disabled, identity);
            let others = DataModel {
                disabled: records_of_others(data.disabled, identity),
                ..data
            };
            lemma_calmed_ok(others, id);
        },
        DeviceEventModel::RemovalSaved { identity, before, report, result } => {
            let restored = DataModel { disabled: before, ..data };
            assert forall|m: Seq<char>| data_ok(#[trigger] noted(restored, m)) by {
                lemma_noted_ok(restored, m);
            }
        },
        DeviceEventModel::RecordSaved { record, identity, result } => {
            lemma_records_without_ok(data.disabled, record.id, record.identity);
            let shrunk = DataModel {
                disabled: records_without(data.disabled, record.id, record.identity),
                ..data
            };
            assert forall|m: Seq<char>| data_ok(#[trigger] noted(shrunk, m)) by {
                lemma_noted_ok(shrunk, m);
            }
        },
        _ => {},
    }
}

proof fn lemma_records_without_ok(
    records: Seq<RecordModel>,
    id: Seq<char>,
    identity: VerifiedModel,
)
    requires
        records_ok(records),
    ensures
        records_ok(records_without(records, id, identity)),
        records_without(records, id, identity).len() <= records.len(),
        forall|i: int|
            0 <= i < records_without(records, id, identity).len() ==> records.contains(
                #[trigger] records_without(records, id, identity)[i],
            ),
    decreases records.len(),
{
    if records.len() > 0 {
        let head = records.drop_last();
        let last = records.last();
        assert(records_ok(head)) by {
            assert forall|i: int| 0 <= i < head.len() implies !bad_record(#[trigger] head[i]) by {
                assert(head[i] == records[i]);
            }
            assert forall|i: int, j: int| 0 <= i < j < head.len() implies (#[trigger] head[i]).id
                != (#[trigger] head[j]).id by {
                assert(head[i] == records[i]);
                assert(head[j] == records[j]);
            }
        }
        lemma_records_without_ok(head, id, identity);
        let kept = records_without(head, id, identity);
        let after = records_without(records, id, identity);
        assert(records[records.len() - 1] == last);
        assert forall|i: int| 0 <= i < after.len() implies records.contains(#[trigger] after[i]) by {
            if i < kept.len() {
                assert(head.contains(kept[i]));
                let k = choose|k: int| 0 <= k < head.len() && head[k] == kept[i];
                assert(records[k] == after[i]);
            }
        }
        assert forall|i: int| 0 <= i < after.len() implies !bad_record(#[trigger] after[i]) by {
            if i < kept.len() {
                assert(after[i] == kept[i]);
            }
        }
        assert forall|i: int, j: int| 0 <= i < j < after.len() implies (#[trigger] after[i]).id
            != (#[trigger] after[j]).id by {
            if j == kept.len() {
                assert(head.contains(kept[i]));
                let k = choose|k: int| 0 <= k < head.len() && head[k] == kept[i];
                assert(records[k].id != records[records.len() - 1].id);
            } else {
                assert(after[i] == kept[i]);
                assert(after[j] == kept[j]);
            }
        }
    }
}

/// Restoring keeps the invariant, step by step.
pub proof fn restoring_keeps_data_ok(
    data: DataModel,
    summary: RestoreSummary,
    record: RecordModel,
    event: RestoreEventModel,
)
    requires
        data_ok(data),
        event matches RestoreEventModel::RemovalSaved { identity: _, before, gone: _, result: _ }
            ==> records_ok(before),
    ensures
        data_ok(restore_step(data, summary, record, event).0),
{
    assert forall|m: Seq<char>| data_ok(#[trigger] noted(data, m)) by {
        lemma_noted_ok(data, m);
    }
    lemma_calmed_ok(data, record.id);
    assert forall|v: VerifiedModel|
        data_ok(
            #[trigger] calmed(
                DataModel { disabled: records_of_others(data.disabled, v), ..data },
                record.id,
            ),
        ) && records_ok(records_of_others(data.disabled, v)) by {
        lemma_others(data.disabled, v);
        lemma_calmed_ok(
            DataModel { disabled: records_of_others(data.disabled, v), ..data },
            record.id,
        );
    }
    match event {
        RestoreEventModel::Looked { verified, enumeration } => {
            lemma_others(data.disabled, verified);
        },
        RestoreEventModel::Resolved(result) => {
            lemma_others(data.disabled, record.identity);
        },
        RestoreEventModel::RemovalSaved { identity, before, gone, result } => {
            let restored = DataModel { disabled: before, ..data };
            assert forall|m: Seq<char>, n: Seq<char>|
                data_ok(#[trigger] noted(noted(restored, m), n)) by {
                lemma_noted_ok(restored, m);
                lemma_noted_ok(noted(restored, m), n);
            }
        },
        _ => {},
    }
}

// Crash safety.
/// A device is disabled only under a recovery record: the step that asks for
/// the record to be saved has taken it in, and the step that asks for the
/// device to be disabled right away has found it there.
pub proof fn disabling_is_on_record(
    data: DataModel,
    id: Seq<char>,
    report: Result<ReportModel, ErrorModel>,
    now: u64,
)
    ensures
        ({
            let (after, next) = device_step(
                data,
                id,
                false,
                DeviceEventModel::Enumerated { report, now },
            );
            match next {
                DeviceNextModel::SaveRecord { record, identity } => {
                    &&& after.disabled.contains(record)
                    &&& record.id == id
                    &&& record.identity == identity
                    &&& valid(identity)
                    &&& identity.coverage == ControlCoverage::Full
                },
                DeviceNextModel::Disable { identity } => {
                    &&& find_record(after.disabled, id) matches Some(record) && same_device(
                        record.identity,
                        identity,
                    )
                    &&& identity.coverage == ControlCoverage::Full
                },
                DeviceNextModel::Done(result) => result is Err,
                _ => false,
            }
        }),
{
    if let Ok(r) = report {
        lemma_found_device(r.devices, id);
        if let Some(device) = find_device(r.devices, id) {
            if let Ok(record) = record_of(device, now) {
                let grown = data.disabled.push(record);
                assert(grown[data.disabled.len() as int] == record);
            }
        }
    }
}

/// Once the record is saved the device is disabled, and the data stay as they
/// are; where saving failed, it is not.
pub proof fn saved_record_allows_disabling(
    data: DataModel,
    id: Seq<char>,
    record: RecordModel,
    identity: VerifiedModel,
    saved: Result<(), Seq<char>>,
)
    ensures
        ({
            let (after, next) = device_step(
                data,
                id,
                false,
                DeviceEventModel::RecordSaved { record, identity, result: saved },
            );
            match saved {
                Ok(_) => after == data && next == (DeviceNextModel::Disable { identity }),
                Err(e) => next == DeviceNextModel::Done(Err(e)),
            }
        }),
{
}

/// Whatever disabling ends with, the record of the device is retained.
pub proof fn disabling_retains_the_record(
    data: DataModel,
    id: Seq<char>,
    result: Result<Seq<crate::platform::OutcomeModel>, ErrorModel>,
)
    ensures
        device_step(data, id, false, DeviceEventModel::Disabled(result)).0.disabled
            == data.disabled,
{
}

/// While a device is being enabled, records go only after a fresh enumeration
/// showed it enabled and unchanged, and only its own.
pub proof fn enabling_retains_records_until_seen(
    data: DataModel,
    id: Seq<char>,
    event: DeviceEventModel,
)
    requires
        !(event is RecordSaved),
        !(event is RemovalSaved),
    ensures
        ({
            let after = device_step(data, id, true, event).0;
            forall|r: RecordModel|
                #[trigger] data.disabled.contains(r) && !after.disabled.contains(r) ==> (event
                    matches DeviceEventModel::Looked { identity, recovery, report: _, enumeration }
                    && recovery && seen_enabled(enumeration, id, identity) && same_device(
                    r.identity,
                    identity,
                ))
        }),
{
    if let DeviceEventModel::Looked { identity, recovery, report, enumeration } = event {
        lemma_others(data.disabled, identity);
    }
}

/// While records are restored, one goes only after its device was seen enabled
/// and unchanged, or the platform reported it gone.
pub proof fn restoring_retains_records_until_safe(
    data: DataModel,
    summary: RestoreSummary,
    record: RecordModel,
    event: RestoreEventModel,
)
    requires
        !(event is RemovalSaved),
    ensures
        ({
            let after = restore_step(data, summary, record, event).0;
            forall|r: RecordModel|
                #[trigger] data.disabled.contains(r) && !after.disabled.contains(r) ==> match event {
                    RestoreEventModel::Looked { verified, enumeration } => seen_enabled(
                        enumeration,
                        record.id,
                        verified,
                    ) && same_device(r.identity, verified),
                    RestoreEventModel::Resolved(result) => (result matches Err(e)
                        && e is RecoveryGone) && same_device(r.identity, record.identity),
                    _ => false,
                }
        }),
{
    match event {
        RestoreEventModel::Looked { verified, enumeration } => {
            lemma_others(data.disabled, verified);
        },
        RestoreEventModel::Resolved(result) => {
            lemma_others(data.disabled, record.identity);
        },
        _ => {},
    }
}

/// Each record that was tried is counted once, as restored or as failed.
pub proof fn each_record_is_counted_once(
    data: DataModel,
    summary: RestoreSummary,
    record: RecordModel,
    event: RestoreEventModel,
)
    requires
        summary.succeeded < usize::MAX,
        summary.failed < usize::MAX,
    ensures
        ({
            let (_, after, next) = restore_step(data, summary, record, event);
            after.succeeded + after.failed == summary.succeeded + summary.failed + if next is Done {
                1int
            } else {
                0int
            }
        }),
{
}

// What is shown.
proof fn lemma_row_order()
    ensures
        orders(row_order()),
{
    let before = row_order();
    assert forall|a: RowModel, b: RowModel| #[trigger] before(a, b) implies !before(b, a) by {
        lemma_lt_asymmetric(a.id, b.id);
    }
    assert forall|a: RowModel, b: RowModel, c: RowModel|
        (#[trigger] before(a, b)) && !(#[trigger] before(c, b)) implies before(a, c) by {
        lemma_lt_total(b.id, c.id);
        if lt(b.id, c.id) {
            lemma_lt_transitive(a.id, b.id, c.id);
        }
    }
}

/// Devices are shown in the order of their identifiers.
pub proof fn shown_devices_are_in_order(data: DataModel, devices: Seq<DeviceModel>)
    ensures
        ranked(shown(data, devices).devices, row_order()),
{
    lemma_row_order();
    sorting_ranks(
        with_pending(
            data,
            device_rows(data, sorted_by(devices, crate::controller::device_order())),
            data.disabled,
        ),
        row_order(),
    );
}

proof fn lemma_pending_rows(data: DataModel, rows: Seq<RowModel>, records: Seq<RecordModel>)
    ensures
        forall|i: int| 0 <= i < rows.len() ==> has_row(
            with_pending(data, rows, records),
            (#[trigger] rows[i]).id,
        ),
        forall|i: int| 0 <= i < records.len() ==> has_row(
            with_pending(data, rows, records),
            (#[trigger] records[i]).id,
        ),
    decreases records.len(),
{
    let after = with_pending(data, rows, records);
    if records.len() == 0 {
        assert forall|i: int| 0 <= i < rows.len() implies has_row(
            after,
            (#[trigger] rows[i]).id,
        ) by {
            assert(after[i].id == rows[i].id);
        }
    } else {
        let head = records.drop_last();
        let before = with_pending(data, rows, head);
        lemma_pending_rows(data, rows, head);
        assert forall|id: Seq<char>| has_row(before, id) implies #[trigger] has_row(after, id) by {
            let k = choose|k: int| 0 <= k < before.len() && (#[trigger] before[k]).id == id;
            assert(after[k] == before[k]);
        }
        assert(has_row(after, records.last().id)) by {
            if !has_row(before, records.last().id) {
                assert(after[before.len() as int].id == records.last().id);
            }
        }
        assert forall|i: int| 0 <= i < records.len() implies has_row(
            after,
            (#[trigger] records[i]).id,
        ) by {
            if i < head.len() {
                assert(records[i] == head[i]);
            }
        }
    }
}

/// Every present device and every device with a recovery record is shown.
pub proof fn every_device_is_shown(data: DataModel, devices: Seq<DeviceModel>)
    ensures
        forall|i: int|
            0 <= i < devices.len() ==> has_row(
                shown(data, devices).devices,
                (#[trigger] devices[i]).id,
            ),
        forall|i: int|
            0 <= i < data.disabled.len() ==> has_row(
                shown(data, devices).devices,
                (#[trigger] data.disabled[i]).id,
            ),
{
    let order = crate::controller::device_order();
    let sorted = sorted_by(devices, order);
    let rows = device_rows(data, sorted);
    let all = with_pending(data, rows, data.disabled);
    let end = shown(data, devices).devices;
    sorting_keeps_items(devices, order);
    sorting_keeps_items(all, row_order());
    lemma_pending_rows(data, rows, data.disabled);
    assert forall|id: Seq<char>| has_row(all, id) implies #[trigger] has_row(end, id) by {
        let k = choose|k: int| 0 <= k < all.len() && (#[trigger] all[k]).id == id;
        lemma_same_members(all, end, k);
        let j = choose|j: int| 0 <= j < end.len() && end[j] == all[k];
        assert(end[j].id == id);
    }
    assert forall|i: int| 0 <= i < devices.len() implies has_row(
        end,
        (#[trigger] devices[i]).id,
    ) by {
        lemma_same_members(devices, sorted, i);
        let j = choose|j: int| 0 <= j < sorted.len() && sorted[j] == devices[i];
        assert(rows[j].id == devices[i].id);
    }
}

} // verus!
