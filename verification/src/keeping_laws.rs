//! What is selected, and what a state file gives back.
use crate::controller::{
    bad_record, disk_read, find_device, find_record, loaded, valid_id, DataModel, DiskModel,
    StateFile,
};
use crate::invariants::{lemma_problem_free_records, lemma_records_no_problem};
use crate::names::{lemma_name_set, lemma_with_name, lemma_without_name, names_in_order};
use crate::platform::{error_message, DeviceModel, ErrorModel, RecordModel, ReportModel};
use crate::row_laws::{on_record, present};
use crate::service::{selected_absent, selected_present, selection_begun, selection_ended};
use crate::service_laws::{
    a_new_error_is_remembered, lemma_no_device, no_device, same_but_errors, whole,
};
use crate::text::{decimal, trimmed, utf8_len};
use vstd::prelude::*;

verus! {

/// An identifier that a command may name: not empty, not too long, and without
/// a zero in it.
pub open spec fn namable(id: Seq<char>) -> bool {
    &&& id.len() > 0
    &&& utf8_len(id) <= 1024
    &&& forall|i: int| 0 <= i < id.len() ==> #[trigger] id[i] != '\0'
}

proof fn lemma_namable(id: Seq<char>)
    ensures
        valid_id(id) <==> namable(id),
{
    if namable(id) && id.contains('\0') {
        let i = choose|i: int| 0 <= i < id.len() && id[i] == '\0';
        assert(id[i] != '\0');
    }
    if valid_id(id) {
        assert forall|i: int| 0 <= i < id.len() implies #[trigger] id[i] != '\0' by {
            assert(id.contains(id[i]));
        }
    }
}

proof fn lemma_known(data: DataModel, devices: Seq<DeviceModel>, id: Seq<char>)
    ensures
        find_device(devices, id) is Some <==> present(devices, id),
        find_record(data.disabled, id) is Some <==> on_record(data, id),
{
    lemma_no_device(devices, id);
    lemma_found(data.disabled, id);
    if present(devices, id) {
        let k = choose|k: int| 0 <= k < devices.len() && (#[trigger] devices[k]).id == id;
        assert(devices[k].id == id);
    }
}

proof fn lemma_found(records: Seq<RecordModel>, id: Seq<char>)
    ensures
        find_record(records, id) is Some <==> (exists|k: int|
            0 <= k < records.len() && (#[trigger] records[k]).id == id),
    decreases records.len(),
{
    if records.len() > 0 {
        let rest = records.drop_first();
        lemma_found(rest, id);
        if find_record(rest, id) is Some {
            let k = choose|k: int| 0 <= k < rest.len() && (#[trigger] rest[k]).id == id;
            assert(records[k + 1].id == id);
        }
        if exists|k: int| 0 <= k < records.len() && (#[trigger] records[k]).id == id {
            let k = choose|k: int| 0 <= k < records.len() && (#[trigger] records[k]).id == id;
            if k > 0 {
                assert(rest[k - 1].id == id);
            }
        }
    }
}

// Selecting.
/// A device that is present or on record can be selected and deselected, one at
/// a time: the selection gains or loses its identifier and nothing else, and the
/// outcome says whether it was selected before.
pub proof fn a_known_device_is_selected(
    data: DataModel,
    id: Seq<char>,
    selected: bool,
    report: ReportModel,
)
    requires
        names_in_order(data.selected),
        namable(id),
        present(report.devices, id) || on_record(data, id),
        selected ==> data.selected.len() < 1024 || data.selected.contains(id),
    ensures
        ({
            let (after, outcome) = selection_begun(data, id, selected, Ok(report));
            &&& outcome == Ok::<bool, Seq<char>>(data.selected.contains(id))
            &&& after == (DataModel { selected: after.selected, ..data })
            &&& names_in_order(after.selected)
            &&& forall|x: Seq<char>| #[trigger]
                after.selected.contains(x) <==> (if x == id {
                    selected
                } else {
                    data.selected.contains(x)
                })
        }),
{
    lemma_namable(id);
    lemma_known(data, report.devices, id);
    lemma_with_name(data.selected, id);
    lemma_without_name(data.selected, id);
}

/// What cannot be selected: an identifier that is no name, a device that is
/// neither present nor on record, and one more than there is room for.  Nothing
/// is selected then.
pub proof fn what_is_not_selected(
    data: DataModel,
    id: Seq<char>,
    selected: bool,
    report: Result<ReportModel, ErrorModel>,
)
    ensures
        ({
            let (after, outcome) = selection_begun(data, id, selected, report);
            &&& !namable(id) ==> after == data && outcome == Err::<bool, Seq<char>>(
                "invalid controller id"@,
            )
            &&& namable(id) ==> (report matches Err(e) ==> after == data && outcome == Err::<
                bool,
                Seq<char>,
            >(error_message(e)))
            &&& namable(id) ==> (report matches Ok(r) ==> {
                &&& !present(r.devices, id) && !on_record(data, id) ==> after == data && outcome
                    == Err::<bool, Seq<char>>(
                    "controller "@ + id + " is not present in the verified inventory"@,
                )
                &&& (present(r.devices, id) || on_record(data, id)) && selected
                    && data.selected.len() >= 1024 && !data.selected.contains(id) ==> outcome
                    == Err::<bool, Seq<char>>("controller selection limit reached"@)
                    && same_but_errors(after, data) && after.errors.contains(
                    "controller selection limit reached"@,
                )
            })
        }),
{
    reveal_strlit("controller selection limit reached");
    lemma_namable(id);
    if let Ok(r) = report {
        lemma_known(data, r.devices, id);
    }
    a_new_error_is_remembered(data.errors, "controller selection limit reached"@);
}

/// A selection that was saved stands; one that was not goes back, and the error
/// is remembered and reported.
pub proof fn a_saved_selection_stands(
    data: DataModel,
    id: Seq<char>,
    was_selected: bool,
    error: Seq<char>,
)
    requires
        names_in_order(data.selected),
    ensures
        selection_ended(data, id, was_selected, Ok(())) == (data, Ok::<(), Seq<char>>(())),
        ({
            let (after, outcome) = selection_ended(data, id, was_selected, Err(error));
            &&& outcome == Err::<(), Seq<char>>(error)
            &&& after.disabled == data.disabled
            &&& after.shortcut == data.shortcut
            &&& after.shortcut_available == data.shortcut_available
            &&& error.len() > 0 ==> after.errors.contains(error)
            &&& forall|x: Seq<char>| #[trigger]
                after.selected.contains(x) <==> (if x == id {
                    was_selected
                } else {
                    data.selected.contains(x)
                })
        }),
{
    lemma_with_name(data.selected, id);
    lemma_without_name(data.selected, id);
    a_new_error_is_remembered(data.errors, error);
}

/// The identifiers of the selected devices: of the present ones, in their
/// order, and then of the records whose device is not present.
pub proof fn the_selected_are_listed(data: DataModel, devices: Seq<DeviceModel>)
    ensures
        selected_present(data, devices) == devices.filter(
            |d: DeviceModel| data.selected.contains(d.id),
        ).map_values(|d: DeviceModel| d.id),
        selected_absent(data, devices, data.disabled) == data.disabled.filter(
            |r: RecordModel| data.selected.contains(r.id) && no_device(devices, r.id),
        ).map_values(|r: RecordModel| r.id),
{
    lemma_selected_present(data, devices);
    lemma_selected_absent(data, devices, data.disabled);
}

proof fn lemma_selected_present(data: DataModel, devices: Seq<DeviceModel>)
    ensures
        selected_present(data, devices) == devices.filter(
            |d: DeviceModel| data.selected.contains(d.id),
        ).map_values(|d: DeviceModel| d.id),
    decreases devices.len(),
{
    reveal(Seq::filter);
    let test = |d: DeviceModel| data.selected.contains(d.id);
    let name = |d: DeviceModel| d.id;
    if devices.len() > 0 {
        lemma_selected_present(data, devices.drop_last());
        let head = devices.drop_last().filter(test);
        assert(head.push(devices.last()).map_values(name) =~= head.map_values(name).push(
            devices.last().id,
        ));
    } else {
        assert(devices.filter(test).map_values(name) =~= Seq::empty());
    }
}

proof fn lemma_selected_absent(
    data: DataModel,
    devices: Seq<DeviceModel>,
    records: Seq<RecordModel>,
)
    ensures
        selected_absent(data, devices, records) == records.filter(
            |r: RecordModel| data.selected.contains(r.id) && no_device(devices, r.id),
        ).map_values(|r: RecordModel| r.id),
    decreases records.len(),
{
    reveal(Seq::filter);
    let test = |r: RecordModel| data.selected.contains(r.id) && no_device(devices, r.id);
    let name = |r: RecordModel| r.id;
    if records.len() > 0 {
        lemma_selected_absent(data, devices, records.drop_last());
        lemma_no_device(devices, records.last().id);
        let head = records.drop_last().filter(test);
        assert(head.push(records.last()).map_values(name) =~= head.map_values(name).push(
            records.last().id,
        ));
    } else {
        assert(records.filter(test).map_values(name) =~= Seq::empty());
    }
}

// The state file.
/// A record as it is written: of the known form, whole, and under the
/// identifier of its identity.
pub open spec fn sound_record(record: RecordModel) -> bool {
    record.schema == 1 && whole(record.identity) && record.id == record.identity.stable_id
}

/// A state file as it is written.
pub open spec fn sound_file(disk: DiskModel) -> bool {
    &&& disk.schema == 1
    &&& disk.selected.len() <= 1024
    &&& disk.disabled.len() <= 256
    &&& forall|i: int| 0 <= i < disk.selected.len() ==> namable(#[trigger] disk.selected[i])
    &&& forall|i: int| 0 <= i < disk.disabled.len() ==> sound_record(#[trigger] disk.disabled[i])
    &&& forall|i: int, j: int|
        0 <= i < j < disk.disabled.len() ==> (#[trigger] disk.disabled[i]).id != (
        #[trigger] disk.disabled[j]).id
}

/// A state file is accepted exactly if it is one as it is written; the selection
/// then has its members, the records are its records, and the shortcut is its
/// own unless that is blank.
pub proof fn a_sound_state_file_is_accepted(disk: DiskModel)
    ensures
        loaded(disk) is Ok <==> sound_file(disk),
        loaded(disk) matches Ok(data) ==> {
            &&& data.disabled == disk.disabled
            &&& names_in_order(data.selected)
            &&& forall|x: Seq<char>| #[trigger]
                data.selected.contains(x) <==> disk.selected.contains(x)
            &&& data.shortcut == (if trimmed(disk.shortcut).len() == 0 {
                "Ctrl+Shift+F10"@
            } else {
                disk.shortcut
            })
            &&& !data.shortcut_available
            &&& data.errors.len() == 0
        },
{
    lemma_name_set(disk.selected);
    assert forall|i: int| 0 <= i < disk.selected.len() implies namable(#[trigger] disk.selected[i])
        == valid_id(disk.selected[i]) by {
        lemma_namable(disk.selected[i]);
    }
    if loaded(disk) is Ok {
        lemma_problem_free_records(disk.disabled);
        assert forall|i: int| 0 <= i < disk.disabled.len() implies sound_record(
            #[trigger] disk.disabled[i],
        ) by {
            assert(!bad_record(disk.disabled[i]));
        }
    }
    if sound_file(disk) {
        assert forall|i: int| 0 <= i < disk.disabled.len() implies !bad_record(
            #[trigger] disk.disabled[i],
        ) by {
            assert(sound_record(disk.disabled[i]));
        }
        lemma_records_no_problem(disk.disabled);
    }
}

/// The first thing wrong with a state file is what is said of it.
pub proof fn an_unsound_state_file_is_named(disk: DiskModel)
    ensures
        disk.schema != 1 ==> loaded(disk) == Err::<DataModel, Seq<char>>(
            "controller state schema "@ + decimal(disk.schema as nat)
                + " is not supported (expected "@ + decimal(1) + ")"@,
        ),
        disk.schema == 1 && disk.selected.len() > 1024 ==> loaded(disk) == Err::<
            DataModel,
            Seq<char>,
        >("controller selection state exceeds the supported limit"@),
        disk.schema == 1 && disk.selected.len() <= 1024 && disk.disabled.len() > 256 ==> loaded(
            disk,
        ) == Err::<DataModel, Seq<char>>(
            "controller recovery state exceeds the supported limit"@,
        ),
{
}

/// Without a state file nothing is selected and nothing is disabled; one that
/// cannot be read or understood is reported, with its path.
pub proof fn a_missing_state_file_is_empty(path: Seq<char>, file: StateFile)
    ensures
        file is Missing ==> (disk_read(path, file) matches Ok(disk) && sound_file(disk)
            && disk.selected.len() == 0 && disk.disabled.len() == 0 && disk.shortcut
            == "Ctrl+Shift+F10"@),
        file matches StateFile::Parsed(disk) ==> disk_read(path, file) == Ok::<
            DiskModel,
            Seq<char>,
        >(disk@),
        file matches StateFile::Malformed(e) ==> disk_read(path, file) == Err::<
            DiskModel,
            Seq<char>,
        >("cannot parse "@ + path + ": "@ + e@),
        file matches StateFile::Unreadable(e) ==> disk_read(path, file) == Err::<
            DiskModel,
            Seq<char>,
        >("cannot read "@ + path + ": "@ + e@),
{
}

} // verus!
