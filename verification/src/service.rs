//! The commands of the controller service, step by step.
//!
//! Disabling writes the recovery record first and touches the device second; a
//! record goes only once its device was seen enabled again, or is gone.
use crate::controller::{
    cleared, copy_records, device_with_id, find_device, find_record, pushed, record_with_id,
    valid_id, validate_command_id, ControllerData, DataModel, MAX_RECOVERY_RECORDS, MAX_SELECTIONS,
};
use crate::names::{with_name, without_name};
use crate::platform::{
    error_message, platform_result, record_of, same_device, valid, verified_of, ControlCoverage,
    DeviceModel, EnumerationReport, ErrorModel, MutationReport, OutcomeModel, PersistedDisabled,
    PlatformDevice, PlatformError, RecordModel, ReportModel, VerifiedDevice, VerifiedModel,
    RECOVERY_SCHEMA,
};
use crate::sorting::views;
use crate::text::{decimal, decimal_of, joined, joined3, same, text_result, texts};
use vstd::prelude::*;

verus! {

/// The data with one more error.
pub open spec fn noted(data: DataModel, message: Seq<char>) -> DataModel {
    DataModel { errors: pushed(data.errors, message), ..data }
}

// Selecting.
/// A selection is changed in memory first; the outcome says whether the device
/// was selected before.
pub open spec fn selection_begun(
    data: DataModel,
    id: Seq<char>,
    selected: bool,
    report: Result<ReportModel, ErrorModel>,
) -> (DataModel, Result<bool, Seq<char>>) {
    if !valid_id(id) {
        (data, Err("invalid controller id"@))
    } else {
        match report {
            Err(e) => (data, Err(error_message(e))),
            Ok(r) => if find_device(r.devices, id) is None && find_record(
                data.disabled,
                id,
            ) is None {
                (data, Err("controller "@ + id + " is not present in the verified inventory"@))
            } else {
                let was = data.selected.contains(id);
                if selected && data.selected.len() >= MAX_SELECTIONS && !was {
                    let message = "controller selection limit reached"@;
                    (noted(data, message), Err(message))
                } else if selected {
                    (DataModel { selected: with_name(data.selected, id), ..data }, Ok(was))
                } else {
                    (DataModel { selected: without_name(data.selected, id), ..data }, Ok(was))
                }
            },
        }
    }
}

/// Where saving failed, the selection goes back to what it was.
pub open spec fn selection_ended(
    data: DataModel,
    id: Seq<char>,
    was_selected: bool,
    saved: Result<(), Seq<char>>,
) -> (DataModel, Result<(), Seq<char>>) {
    match saved {
        Ok(_) => (data, Ok(())),
        Err(e) => (
            noted(
                DataModel {
                    selected: if was_selected {
                        with_name(data.selected, id)
                    } else {
                        without_name(data.selected, id)
                    },
                    ..data
                },
                e,
            ),
            Err(e),
        ),
    }
}

/// Starts a change of selection; `Ok` asks for the data to be saved.
pub fn set_selected(
    data: &mut ControllerData,
    id: &str,
    selected: bool,
    report: &Result<EnumerationReport, PlatformError>,
) -> (r: Result<bool, String>)
    requires
        old(data).wf(),
    ensures
        final(data).wf(),
        (final(data)@, text_result(r)) == selection_begun(
            old(data)@,
            id@,
            selected,
            platform_result(*report),
        ),
{
    validate_command_id(id)?;
    let report = match report {
        Ok(report) => report,
        Err(error) => {
            return Err(error.describe());
        },
    };
    let is_current = device_with_id(&report.devices, id).is_some();
    let has_recovery = record_with_id(&data.disabled, id).is_some();
    if !is_current && !has_recovery {
        return Err(joined3("controller ", id, " is not present in the verified inventory"));
    }
    let was_selected = data.selected.contains(id);
    if selected {
        assert(data.selected@.len() == data.selected.names@.len());
        if data.selected.names.len() >= MAX_SELECTIONS && !was_selected {
            data.record_error("controller selection limit reached".to_owned());
            return Err("controller selection limit reached".to_owned());
        }
        data.selected.insert(id.to_owned());
    } else {
        data.selected.remove(id);
    }
    Ok(was_selected)
}

/// Ends a change of selection, given how saving went.
pub fn selection_saved(
    data: &mut ControllerData,
    id: &str,
    was_selected: bool,
    saved: Result<(), String>,
) -> (r: Result<(), String>)
    requires
        old(data).wf(),
    ensures
        final(data).wf(),
        (final(data)@, text_result(r)) == selection_ended(
            old(data)@,
            id@,
            was_selected,
            text_result(saved),
        ),
{
    match saved {
        Ok(_) => Ok(()),
        Err(error) => {
            if was_selected {
                data.selected.insert(id.to_owned());
            } else {
                data.selected.remove(id);
            }
            data.record_error(error.clone());
            Err(error)
        },
    }
}

/// The selected devices: the present ones first, then those that only a
/// recovery record speaks of.
pub open spec fn selected_present(data: DataModel, devices: Seq<DeviceModel>) -> Seq<Seq<char>>
    decreases devices.len(),
{
    if devices.len() == 0 {
        Seq::empty()
    } else {
        let head = selected_present(data, devices.drop_last());
        if data.selected.contains(devices.last().id) {
            head.push(devices.last().id)
        } else {
            head
        }
    }
}

pub open spec fn selected_absent(
    data: DataModel,
    devices: Seq<DeviceModel>,
    records: Seq<RecordModel>,
) -> Seq<Seq<char>>
    decreases records.len(),
{
    if records.len() == 0 {
        Seq::empty()
    } else {
        let head = selected_absent(data, devices, records.drop_last());
        let id = records.last().id;
        if data.selected.contains(id) && find_device(devices, id) is None {
            head.push(id)
        } else {
            head
        }
    }
}

pub fn selected_ids(data: &ControllerData, devices: &Vec<PlatformDevice>) -> (r: Vec<String>)
    requires
        data.wf(),
    ensures
        texts(r@) == selected_present(data@, views(devices@)) + selected_absent(
            data@,
            views(devices@),
            data@.disabled,
        ),
{
    let ghost present = views(devices@);
    let mut out: Vec<String> = Vec::new();
    let mut i: usize = 0;
    assert(present.take(0).len() == 0);
    assert(texts(out@) == Seq::<Seq<char>>::empty());
    while i < devices.len()
        invariant
            i <= devices@.len(),
            data.wf(),
            present == views(devices@),
            texts(out@) == selected_present(data@, present.take(i as int)),
        decreases devices@.len() - i,
    {
        assert(present.take(i + 1).drop_last() == present.take(i as int));
        assert(present.take(i + 1).last() == devices@[i as int]@);
        if data.selected.contains(devices[i].id.as_str()) {
            let ghost held = texts(out@);
            out.push(devices[i].id.as_str().to_owned());
            assert(texts(out@) == held.push(devices@[i as int]@.id));
        }
        i += 1;
    }
    assert(present.take(i as int) == present);
    let ghost first = texts(out@);
    let ghost records = views(data.disabled@);
    let mut k: usize = 0;
    assert(records.take(0).len() == 0);
    assert(first + Seq::<Seq<char>>::empty() == first);
    while k < data.disabled.len()
        invariant
            k <= data.disabled@.len(),
            data.wf(),
            present == views(devices@),
            records == views(data.disabled@),
            texts(out@) == first + selected_absent(data@, present, records.take(k as int)),
        decreases data.disabled@.len() - k,
    {
        let record = &data.disabled[k];
        assert(records.take(k + 1).drop_last() == records.take(k as int));
        assert(records.take(k + 1).last() == record@);
        if data.selected.contains(record.id.as_str()) && device_with_id(
            devices,
            record.id.as_str(),
        ).is_none() {
            let ghost held = texts(out@);
            let ghost tail = selected_absent(data@, present, records.take(k as int));
            out.push(record.id.as_str().to_owned());
            assert(texts(out@) == held.push(record@.id));
            assert((first + tail).push(record@.id) == first + tail.push(record@.id));
        }
        k += 1;
    }
    assert(records.take(k as int) == records);
    out
}

/// The result of enumerating before all selected devices are switched: a
/// failed enumeration is remembered and ends the command.
pub fn set_selected_enabled(
    data: &mut ControllerData,
    report: &Result<EnumerationReport, PlatformError>,
) -> (r: Result<Vec<String>, String>)
    requires
        old(data).wf(),
    ensures
        final(data).wf(),
        match platform_result(*report) {
            Ok(model) => {
                &&& final(data)@ == old(data)@
                &&& r matches Ok(ids) && texts(ids@) == selected_present(
                    old(data)@,
                    model.devices,
                ) + selected_absent(old(data)@, model.devices, old(data)@.disabled)
            },
            Err(e) => {
                &&& final(data)@ == noted(old(data)@, error_message(e))
                &&& r matches Err(message) && message@ == error_message(e)
            },
        },
{
    match report {
        Ok(report) => Ok(selected_ids(data, &report.devices)),
        Err(error) => {
            let message = error.describe();
            data.record_error(message.clone());
            Err(message)
        },
    }
}

// Recovery records.
/// Takes a record in; the outcome says whether the data have to be saved.
pub open spec fn record_begun(data: DataModel, record: RecordModel) -> (
    DataModel,
    Result<bool, Seq<char>>,
) {
    if record.schema != RECOVERY_SCHEMA || !valid(record.identity) {
        let message = "refusing to persist an invalid controller identity"@;
        (noted(data, message), Err(message))
    } else {
        match find_record(data.disabled, record.id) {
            Some(existing) => if !same_device(existing.identity, record.identity) {
                let message = record.id
                    + ": an existing recovery record has a different verified identity"@;
                (noted(data, message), Err(message))
            } else {
                (data, Ok(false))
            },
            None => if data.disabled.len() >= MAX_RECOVERY_RECORDS {
                let message =
                    "recovery record limit reached; refusing to disable another controller"@;
                (noted(data, message), Err(message))
            } else {
                (DataModel { disabled: data.disabled.push(record), ..data }, Ok(true))
            },
        }
    }
}

/// The records without those of one device under one identifier.
pub open spec fn records_without(
    records: Seq<RecordModel>,
    id: Seq<char>,
    identity: VerifiedModel,
) -> Seq<RecordModel>
    decreases records.len(),
{
    if records.len() == 0 {
        records
    } else if records.last().id == id && same_device(records.last().identity, identity) {
        records_without(records.drop_last(), id, identity)
    } else {
        records_without(records.drop_last(), id, identity).push(records.last())
    }
}

/// Where saving failed, the record goes again.
pub open spec fn record_ended(
    data: DataModel,
    record: RecordModel,
    saved: Result<(), Seq<char>>,
) -> (DataModel, Result<(), Seq<char>>) {
    match saved {
        Ok(_) => (data, Ok(())),
        Err(e) => (
            noted(
                DataModel {
                    disabled: records_without(data.disabled, record.id, record.identity),
                    ..data
                },
                e,
            ),
            Err(e),
        ),
    }
}

/// The records without those of one device.
pub open spec fn records_of_others(
    records: Seq<RecordModel>,
    identity: VerifiedModel,
) -> Seq<RecordModel>
    decreases records.len(),
{
    if records.len() == 0 {
        records
    } else if same_device(records.last().identity, identity) {
        records_of_others(records.drop_last(), identity)
    } else {
        records_of_others(records.drop_last(), identity).push(records.last())
    }
}

/// Where saving failed, the records come back.
pub open spec fn removal_ended(
    data: DataModel,
    identity: VerifiedModel,
    before: Seq<RecordModel>,
    saved: Result<(), Seq<char>>,
) -> (DataModel, Result<(), Seq<char>>) {
    match saved {
        Ok(_) => (data, Ok(())),
        Err(e) => {
            let message = identity.stable_id
                + " was enabled, but its recovery record could not be removed: "@ + e;
            (noted(DataModel { disabled: before, ..data }, message), Err(message))
        },
    }
}

fn persist_recovery(data: &mut ControllerData, record: &PersistedDisabled) -> (r: Result<
    bool,
    String,
>)
    requires
        old(data).wf(),
    ensures
        final(data).wf(),
        (final(data)@, text_result(r)) == record_begun(old(data)@, record@),
{
    if record.schema != RECOVERY_SCHEMA || !record.identity.is_valid() {
        data.record_error("refusing to persist an invalid controller identity".to_owned());
        return Err("refusing to persist an invalid controller identity".to_owned());
    }
    match record_with_id(&data.disabled, record.id.as_str()) {
        Some(existing) => {
            if !existing.identity.same_hardware(&record.identity) {
                let message = joined(
                    record.id.as_str(),
                    ": an existing recovery record has a different verified identity",
                );
                data.record_error(message.clone());
                return Err(message);
            }
            return Ok(false);
        },
        None => {},
    }
    assert(views(data.disabled@).len() == data.disabled@.len());
    if data.disabled.len() >= MAX_RECOVERY_RECORDS {
        let message =
            "recovery record limit reached; refusing to disable another controller".to_owned();
        data.record_error(message.clone());
        return Err(message);
    }
    let ghost before = views(data.disabled@);
    data.disabled.push(record.copy());
    assert(views(data.disabled@) == before.push(record@));
    Ok(true)
}

fn recovery_persisted(
    data: &mut ControllerData,
    record: &PersistedDisabled,
    saved: Result<(), String>,
) -> (r: Result<(), String>)
    requires
        old(data).wf(),
    ensures
        final(data).wf(),
        (final(data)@, text_result(r)) == record_ended(old(data)@, record@, text_result(saved)),
{
    match saved {
        Ok(_) => Ok(()),
        Err(error) => {
            let ghost all = views(data.disabled@);
            let mut kept: Vec<PersistedDisabled> = Vec::new();
            let mut i: usize = 0;
            assert(all.take(0).len() == 0);
            assert(views(kept@) == Seq::<RecordModel>::empty());
            while i < data.disabled.len()
                invariant
                    i <= data.disabled@.len(),
                    *data == *old(data),
                    all == views(data.disabled@),
                    views(kept@) == records_without(
                        all.take(i as int),
                        record@.id,
                        record@.identity,
                    ),
                decreases data.disabled@.len() - i,
            {
                let existing = &data.disabled[i];
                assert(all.take(i + 1).drop_last() == all.take(i as int));
                assert(all.take(i + 1).last() == existing@);
                if !(same(existing.id.as_str(), record.id.as_str())
                    && existing.identity.same_hardware(&record.identity)) {
                    let ghost held = views(kept@);
                    kept.push(existing.copy());
                    assert(views(kept@) == held.push(existing@));
                }
                i += 1;
            }
            assert(all.take(i as int) == all);
            data.disabled = kept;
            data.record_error(error.clone());
            Err(error)
        },
    }
}

/// Drops the records of a device; gives back the records of before where there
/// was one.
fn remove_recovery(data: &mut ControllerData, identity: &VerifiedDevice) -> (r: Option<
    Vec<PersistedDisabled>,
>)
    requires
        old(data).wf(),
    ensures
        final(data).wf(),
        final(data)@ == (DataModel {
            disabled: records_of_others(old(data)@.disabled, identity@),
            ..old(data)@
        }),
        match r {
            Some(before) => views(before@) == old(data)@.disabled && records_of_others(
                old(data)@.disabled,
                identity@,
            ).len() != old(data)@.disabled.len(),
            None => records_of_others(old(data)@.disabled, identity@).len()
                == old(data)@.disabled.len(),
        },
{
    let before = copy_records(&data.disabled);
    let ghost all = views(data.disabled@);
    let mut kept: Vec<PersistedDisabled> = Vec::new();
    let mut i: usize = 0;
    assert(all.take(0).len() == 0);
    assert(views(kept@) == Seq::<RecordModel>::empty());
    while i < data.disabled.len()
        invariant
            i <= data.disabled@.len(),
            *data == *old(data),
            all == views(data.disabled@),
            views(kept@) == records_of_others(all.take(i as int), identity@),
        decreases data.disabled@.len() - i,
    {
        let existing = &data.disabled[i];
        assert(all.take(i + 1).drop_last() == all.take(i as int));
        assert(all.take(i + 1).last() == existing@);
        if !existing.identity.same_hardware(identity) {
            let ghost held = views(kept@);
            kept.push(existing.copy());
            assert(views(kept@) == held.push(existing@));
        }
        i += 1;
    }
    assert(all.take(i as int) == all);
    let unchanged = kept.len() == before.len();
    assert(views(kept@).len() == kept@.len());
    data.disabled = kept;
    if unchanged {
        None
    } else {
        Some(before)
    }
}

fn removal_saved(
    data: &mut ControllerData,
    identity: &VerifiedDevice,
    before: Vec<PersistedDisabled>,
    saved: Result<(), String>,
) -> (r: Result<(), String>)
    requires
        old(data).wf(),
    ensures
        final(data).wf(),
        (final(data)@, text_result(r)) == removal_ended(
            old(data)@,
            identity@,
            views(before@),
            text_result(saved),
        ),
{
    match saved {
        Ok(_) => Ok(()),
        Err(error) => {
            data.disabled = before;
            let message = joined3(
                identity.stable_id(),
                " was enabled, but its recovery record could not be removed: ",
                error.as_str(),
            );
            data.record_error(message.clone());
            Err(message)
        },
    }
}

/// Whether a fresh enumeration shows the device enabled and unchanged.
pub open spec fn seen_enabled(
    enumeration: Result<ReportModel, ErrorModel>,
    id: Seq<char>,
    expected: VerifiedModel,
) -> bool {
    match enumeration {
        Err(_) => false,
        Ok(report) => match find_device(report.devices, id) {
            None => false,
            Some(device) => device.enabled && (verified_of(device) matches Ok(identity)
                && same_device(identity, expected)),
        },
    }
}

pub fn confirm_enabled(
    enumeration: &Result<EnumerationReport, PlatformError>,
    id: &str,
    expected: &VerifiedDevice,
) -> (r: bool)
    ensures
        r == seen_enabled(platform_result(*enumeration), id@, expected@),
{
    match enumeration {
        Err(_) => false,
        Ok(report) => match device_with_id(&report.devices, id) {
            None => false,
            Some(device) => {
                if !device.state.enabled {
                    return false;
                }
                match device.verified() {
                    Ok(identity) => identity.same_hardware(expected),
                    Err(_) => false,
                }
            },
        },
    }
}

// Switching one device.
/// What happened while a device is being switched.
#[derive(Debug)]
pub enum DeviceEvent {
    /// A fresh enumeration, and the time in seconds.
    Enumerated { report: Result<EnumerationReport, PlatformError>, now: u64 },
    /// The platform looked up the device of a recovery record.
    Resolved { record: PersistedDisabled, result: Result<VerifiedDevice, PlatformError> },
    /// The platform enabled the device, or could not.
    Enabled {
        identity: VerifiedDevice,
        recovery: bool,
        result: Result<MutationReport, PlatformError>,
    },
    /// A fresh enumeration after the device was enabled.
    Looked {
        identity: VerifiedDevice,
        recovery: bool,
        report: MutationReport,
        enumeration: Result<EnumerationReport, PlatformError>,
    },
    /// The data without the record were saved, or could not be.
    RemovalSaved {
        identity: VerifiedDevice,
        before: Vec<PersistedDisabled>,
        report: MutationReport,
        result: Result<(), String>,
    },
    /// The data with the record were saved, or could not be.
    RecordSaved {
        record: PersistedDisabled,
        identity: VerifiedDevice,
        result: Result<(), String>,
    },
    /// The platform disabled the device, or could not.
    Disabled(Result<MutationReport, PlatformError>),
}

/// What has to be done next.
#[derive(Debug)]
pub enum DeviceNext {
    Resolve { record: PersistedDisabled },
    Enable { identity: VerifiedDevice, recovery: bool },
    Look { identity: VerifiedDevice, recovery: bool, report: MutationReport },
    SaveRemoval {
        identity: VerifiedDevice,
        before: Vec<PersistedDisabled>,
        report: MutationReport,
    },
    SaveRecord { record: PersistedDisabled, identity: VerifiedDevice },
    Disable { identity: VerifiedDevice },
    Done(Result<MutationReport, String>),
}

pub enum DeviceEventModel {
    Enumerated { report: Result<ReportModel, ErrorModel>, now: u64 },
    Resolved { record: RecordModel, result: Result<VerifiedModel, ErrorModel> },
    Enabled {
        identity: VerifiedModel,
        recovery: bool,
        result: Result<Seq<OutcomeModel>, ErrorModel>,
    },
    Looked {
        identity: VerifiedModel,
        recovery: bool,
        report: Seq<OutcomeModel>,
        enumeration: Result<ReportModel, ErrorModel>,
    },
    RemovalSaved {
        identity: VerifiedModel,
        before: Seq<RecordModel>,
        report: Seq<OutcomeModel>,
        result: Result<(), Seq<char>>,
    },
    RecordSaved { record: RecordModel, identity: VerifiedModel, result: Result<(), Seq<char>> },
    Disabled(Result<Seq<OutcomeModel>, ErrorModel>),
}

pub enum DeviceNextModel {
    Resolve { record: RecordModel },
    Enable { identity: VerifiedModel, recovery: bool },
    Look { identity: VerifiedModel, recovery: bool, report: Seq<OutcomeModel> },
    SaveRemoval {
        identity: VerifiedModel,
        before: Seq<RecordModel>,
        report: Seq<OutcomeModel>,
    },
    SaveRecord { record: RecordModel, identity: VerifiedModel },
    Disable { identity: VerifiedModel },
    Done(Result<Seq<OutcomeModel>, Seq<char>>),
}

pub open spec fn report_result(r: Result<MutationReport, String>) -> Result<
    Seq<OutcomeModel>,
    Seq<char>,
> {
    match r {
        Ok(report) => Ok(report@),
        Err(e) => Err(e@),
    }
}

impl View for DeviceEvent {
    type V = DeviceEventModel;

    open spec fn view(&self) -> DeviceEventModel {
        match self {
            DeviceEvent::Enumerated { report, now } => DeviceEventModel::Enumerated {
                report: platform_result(*report),
                now: *now,
            },
            DeviceEvent::Resolved { record, result } => DeviceEventModel::Resolved {
                record: record@,
                result: platform_result(*result),
            },
            DeviceEvent::Enabled { identity, recovery, result } => DeviceEventModel::Enabled {
                identity: identity@,
                recovery: *recovery,
                result: platform_result(*result),
            },
            DeviceEvent::Looked { identity, recovery, report, enumeration } =>
                DeviceEventModel::Looked {
                    identity: identity@,
                    recovery: *recovery,
                    report: report@,
                    enumeration: platform_result(*enumeration),
                },
            DeviceEvent::RemovalSaved { identity, before, report, result } =>
                DeviceEventModel::RemovalSaved {
                    identity: identity@,
                    before: views(before@),
                    report: report@,
                    result: text_result(*result),
                },
            DeviceEvent::RecordSaved { record, identity, result } =>
                DeviceEventModel::RecordSaved {
                    record: record@,
                    identity: identity@,
                    result: text_result(*result),
                },
            DeviceEvent::Disabled(result) => DeviceEventModel::Disabled(platform_result(*result)),
        }
    }
}

impl View for DeviceNext {
    type V = DeviceNextModel;

    open spec fn view(&self) -> DeviceNextModel {
        match self {
            DeviceNext::Resolve { record } => DeviceNextModel::Resolve { record: record@ },
            DeviceNext::Enable { identity, recovery } => DeviceNextModel::Enable {
                identity: identity@,
                recovery: *recovery,
            },
            DeviceNext::Look { identity, recovery, report } => DeviceNextModel::Look {
                identity: identity@,
                recovery: *recovery,
                report: report@,
            },
            DeviceNext::SaveRemoval { identity, before, report } => DeviceNextModel::SaveRemoval {
                identity: identity@,
                before: views(before@),
                report: report@,
            },
            DeviceNext::SaveRecord { record, identity } => DeviceNextModel::SaveRecord {
                record: record@,
                identity: identity@,
            },
            DeviceNext::Disable { identity } => DeviceNextModel::Disable { identity: identity@ },
            DeviceNext::Done(result) => DeviceNextModel::Done(report_result(*result)),
        }
    }
}

/// The command ends with an error that is remembered.
pub open spec fn remembered(data: DataModel, message: Seq<char>) -> (DataModel, DeviceNextModel) {
    (noted(data, message), DeviceNextModel::Done(Err(message)))
}

/// The command ends with an error that is only reported.
pub open spec fn reported(data: DataModel, message: Seq<char>) -> (DataModel, DeviceNextModel) {
    (data, DeviceNextModel::Done(Err(message)))
}

/// Why a device must not be disabled.
pub open spec fn uncovered_message(id: Seq<char>, coverage: ControlCoverage) -> Seq<char> {
    match coverage {
        ControlCoverage::HidOnly => id
            + ": only the HID collection is controllable; the XInput/XUSB path remains live"@,
        ControlCoverage::Uncontrolled => id
            + ": controller input path is not safely controllable; refusing disable"@,
        ControlCoverage::Full => id + ": controller cannot be safely controlled"@,
    }
}

/// Enabling starts from the recovery record where there is one, otherwise from
/// the present device.
pub open spec fn enable_begun(
    data: DataModel,
    id: Seq<char>,
    devices: Seq<DeviceModel>,
) -> (DataModel, DeviceNextModel) {
    match find_record(data.disabled, id) {
        Some(record) => if record.schema != RECOVERY_SCHEMA || !valid(record.identity) {
            remembered(data, id + ": invalid persisted recovery record"@)
        } else {
            (data, DeviceNextModel::Resolve { record })
        },
        None => match find_device(devices, id) {
            Some(device) => match verified_of(device) {
                Err(e) => reported(data, error_message(e)),
                Ok(identity) => (data, DeviceNextModel::Enable { identity, recovery: false }),
            },
            None => remembered(
                data,
                id + ": controller is not present in the verified inventory"@,
            ),
        },
    }
}

/// Disabling needs a present, verified and fully covered device, and its
/// recovery record.
pub open spec fn disable_begun(
    data: DataModel,
    id: Seq<char>,
    devices: Seq<DeviceModel>,
    now: u64,
) -> (DataModel, DeviceNextModel) {
    match find_device(devices, id) {
        None => reported(
            data,
            id + ": controller is not present; refusing an unverified disable request"@,
        ),
        Some(device) => match verified_of(device) {
            Err(e) => reported(data, error_message(e)),
            Ok(identity) => if identity.coverage != ControlCoverage::Full
                || !device.capabilities.full_control {
                remembered(data, uncovered_message(id, identity.coverage))
            } else {
                match record_of(device, now) {
                    Err(e) => reported(data, error_message(e)),
                    Ok(record) => match record_begun(data, record) {
                        (after, Err(e)) => (after, DeviceNextModel::Done(Err(e))),
                        (after, Ok(true)) => (
                            after,
                            DeviceNextModel::SaveRecord { record, identity },
                        ),
                        (after, Ok(false)) => (after, DeviceNextModel::Disable { identity }),
                    },
                }
            },
        },
    }
}

pub open spec fn calmed(data: DataModel, id: Seq<char>) -> DataModel {
    DataModel { errors: cleared(data.errors, id), ..data }
}

pub open spec fn confirmed_off(report: Seq<OutcomeModel>) -> bool {
    report.len() > 0 && report[0].confirmed_enabled == Some(false)
}

pub open spec fn device_step(
    data: DataModel,
    id: Seq<char>,
    enabled: bool,
    event: DeviceEventModel,
) -> (DataModel, DeviceNextModel) {
    match event {
        DeviceEventModel::Enumerated { report, now } => match report {
            Err(e) => reported(data, error_message(e)),
            Ok(r) => if enabled {
                enable_begun(data, id, r.devices)
            } else {
                disable_begun(data, id, r.devices, now)
            },
        },
        DeviceEventModel::Resolved { record, result } => match result {
            Err(e) => reported(data, error_message(e)),
            Ok(fresh) => if !same_device(fresh, record.identity) {
                remembered(
                    data,
                    id
                        + ": persisted recovery identity no longer matches a fresh native resolve"@,
                )
            } else {
                (data, DeviceNextModel::Enable { identity: fresh, recovery: true })
            },
        },
        DeviceEventModel::Enabled { identity, recovery, result } => match result {
            Err(e) => reported(data, error_message(e)),
            Ok(report) => (data, DeviceNextModel::Look { identity, recovery, report }),
        },
        DeviceEventModel::Looked { identity, recovery, report, enumeration } => if !seen_enabled(
            enumeration,
            id,
            identity,
        ) {
            remembered(data, id + ": enable was not confirmed by a fresh enumeration"@)
        } else if recovery && records_of_others(data.disabled, identity).len()
            != data.disabled.len() {
            (
                DataModel { disabled: records_of_others(data.disabled, identity), ..data },
                DeviceNextModel::SaveRemoval { identity, before: data.disabled, report },
            )
        } else if recovery {
            (
                calmed(
                    DataModel { disabled: records_of_others(data.disabled, identity), ..data },
                    id,
                ),
                DeviceNextModel::Done(Ok(report)),
            )
        } else {
            (calmed(data, id), DeviceNextModel::Done(Ok(report)))
        },
        DeviceEventModel::RemovalSaved { identity, before, report, result } => match removal_ended(
            data,
            identity,
            before,
            result,
        ) {
            (after, Err(e)) => (after, DeviceNextModel::Done(Err(e))),
            (after, Ok(_)) => (calmed(after, id), DeviceNextModel::Done(Ok(report))),
        },
        DeviceEventModel::RecordSaved { record, identity, result } => match record_ended(
            data,
            record,
            result,
        ) {
            (after, Err(e)) => (after, DeviceNextModel::Done(Err(e))),
            (after, Ok(_)) => (after, DeviceNextModel::Disable { identity }),
        },
        DeviceEventModel::Disabled(result) => match result {
            Err(e) => remembered(
                data,
                id + ": "@ + error_message(e) + "; recovery record retained"@,
            ),
            Ok(report) => if confirmed_off(report) {
                (calmed(data, id), DeviceNextModel::Done(Ok(report)))
            } else {
                remembered(
                    data,
                    id
                        + ": disable call returned without confirmed disabled state; recovery record retained"@,
                )
            },
        },
    }
}

fn end_remembered(data: &mut ControllerData, message: String) -> (r: DeviceNext)
    requires
        old(data).wf(),
    ensures
        final(data).wf(),
        (final(data)@, r@) == remembered(old(data)@, message@),
{
    data.record_error(message.clone());
    DeviceNext::Done(Err(message))
}

fn begin_enable(data: &mut ControllerData, id: &str, devices: &Vec<PlatformDevice>) -> (r:
    DeviceNext)
    requires
        old(data).wf(),
    ensures
        final(data).wf(),
        (final(data)@, r@) == enable_begun(old(data)@, id@, views(devices@)),
{
    let recovery = match record_with_id(&data.disabled, id) {
        Some(record) => Some(record.copy()),
        None => None,
    };
    match recovery {
        Some(record) => {
            if record.schema != RECOVERY_SCHEMA || !record.identity.is_valid() {
                return end_remembered(data, joined(id, ": invalid persisted recovery record"));
            }
            DeviceNext::Resolve { record }
        },
        None => match device_with_id(devices, id) {
            Some(device) => match device.verified() {
                Err(error) => DeviceNext::Done(Err(error.describe())),
                Ok(identity) => DeviceNext::Enable { identity: identity.copy(), recovery: false },
            },
            None => end_remembered(
                data,
                joined(id, ": controller is not present in the verified inventory"),
            ),
        },
    }
}

fn begin_disable(
    data: &mut ControllerData,
    id: &str,
    devices: &Vec<PlatformDevice>,
    now: u64,
) -> (r: DeviceNext)
    requires
        old(data).wf(),
    ensures
        final(data).wf(),
        (final(data)@, r@) == disable_begun(old(data)@, id@, views(devices@), now),
{
    let device = match device_with_id(devices, id) {
        Some(device) => device,
        None => {
            return DeviceNext::Done(
                Err(
                    joined(
                        id,
                        ": controller is not present; refusing an unverified disable request",
                    ),
                ),
            );
        },
    };
    let identity = match device.verified() {
        Ok(identity) => identity.copy(),
        Err(error) => {
            return DeviceNext::Done(Err(error.describe()));
        },
    };
    if identity.coverage != ControlCoverage::Full || !device.capabilities.full_control {
        let reason: &str = match identity.coverage {
            ControlCoverage::HidOnly =>
                ": only the HID collection is controllable; the XInput/XUSB path remains live",
            ControlCoverage::Uncontrolled =>
                ": controller input path is not safely controllable; refusing disable",
            ControlCoverage::Full => ": controller cannot be safely controlled",
        };
        return end_remembered(data, joined(id, reason));
    }
    let record = match device.recovery_record(now) {
        Ok(record) => record,
        Err(error) => {
            return DeviceNext::Done(Err(error.describe()));
        },
    };
    match persist_recovery(data, &record) {
        Err(message) => DeviceNext::Done(Err(message)),
        Ok(save) => {
            if save {
                DeviceNext::SaveRecord { record, identity }
            } else {
                DeviceNext::Disable { identity }
            }
        },
    }
}

/// Switches one device on or off: what has to be done next after what just
/// happened.
pub fn perform_device(
    data: &mut ControllerData,
    id: &str,
    enabled: bool,
    event: DeviceEvent,
) -> (r: DeviceNext)
    requires
        old(data).wf(),
    ensures
        final(data).wf(),
        (final(data)@, r@) == device_step(old(data)@, id@, enabled, event@),
{
    match event {
        DeviceEvent::Enumerated { report, now } => match report {
            Err(error) => DeviceNext::Done(Err(error.describe())),
            Ok(report) => {
                if enabled {
                    begin_enable(data, id, &report.devices)
                } else {
                    begin_disable(data, id, &report.devices, now)
                }
            },
        },
        DeviceEvent::Resolved { record, result } => match result {
            Err(error) => DeviceNext::Done(Err(error.describe())),
            Ok(fresh) => {
                if !fresh.same_hardware(&record.identity) {
                    return end_remembered(
                        data,
                        joined(
                            id,
                            ": persisted recovery identity no longer matches a fresh native resolve",
                        ),
                    );
                }
                DeviceNext::Enable { identity: fresh, recovery: true }
            },
        },
        DeviceEvent::Enabled { identity, recovery, result } => match result {
            Err(error) => DeviceNext::Done(Err(error.describe())),
            Ok(report) => DeviceNext::Look { identity, recovery, report },
        },
        DeviceEvent::Looked { identity, recovery, report, enumeration } => {
            if !confirm_enabled(&enumeration, id, &identity) {
                return end_remembered(
                    data,
                    joined(id, ": enable was not confirmed by a fresh enumeration"),
                );
            }
            if recovery {
                match remove_recovery(data, &identity) {
                    Some(before) => {
                        return DeviceNext::SaveRemoval { identity, before, report };
                    },
                    None => {},
                }
            }
            data.clear_device_errors(id);
            DeviceNext::Done(Ok(report))
        },
        DeviceEvent::RemovalSaved { identity, before, report, result } => {
            match removal_saved(data, &identity, before, result) {
                Err(message) => DeviceNext::Done(Err(message)),
                Ok(_) => {
                    data.clear_device_errors(id);
                    DeviceNext::Done(Ok(report))
                },
            }
        },
        DeviceEvent::RecordSaved { record, identity, result } => {
            match recovery_persisted(data, &record, result) {
                Err(message) => DeviceNext::Done(Err(message)),
                Ok(_) => DeviceNext::Disable { identity },
            }
        },
        DeviceEvent::Disabled(result) => match result {
            Err(error) => {
                let mut message: String = joined3(id, ": ", error.describe().as_str());
                message.append("; recovery record retained");
                end_remembered(data, message)
            },
            Ok(report) => {
                let confirmed = if report.outcomes.len() > 0 {
                    assert(report@[0] == report.outcomes@[0]@);
                    match report.outcomes[0].confirmed_enabled {
                        Some(state) => !state,
                        None => false,
                    }
                } else {
                    false
                };
                if !confirmed {
                    return end_remembered(
                        data,
                        joined(
                            id,
                            ": disable call returned without confirmed disabled state; recovery record retained",
                        ),
                    );
                }
                data.clear_device_errors(id);
                DeviceNext::Done(Ok(report))
            },
        },
    }
}

// Restoring everything that was disabled.
#[derive(Clone, Copy, Debug, PartialEq, Eq, Structural)]
pub struct RestoreSummary {
    pub succeeded: usize,
    pub failed: usize,
}

impl Default for RestoreSummary {
    fn default() -> (r: Self)
        ensures
            r == (RestoreSummary { succeeded: 0, failed: 0 }),
    {
        RestoreSummary { succeeded: 0, failed: 0 }
    }
}

/// What happened while one record is being restored.
#[derive(Debug)]
pub enum RestoreEvent {
    Resolved(Result<VerifiedDevice, PlatformError>),
    Enabled { verified: VerifiedDevice, result: Result<MutationReport, PlatformError> },
    Looked { verified: VerifiedDevice, enumeration: Result<EnumerationReport, PlatformError> },
    RemovalSaved {
        identity: VerifiedDevice,
        before: Vec<PersistedDisabled>,
        gone: Option<String>,
        result: Result<(), String>,
    },
}

#[derive(Debug)]
pub enum RestoreNext {
    Enable { verified: VerifiedDevice },
    Look { verified: VerifiedDevice },
    SaveRemoval { identity: VerifiedDevice, before: Vec<PersistedDisabled>, gone: Option<String> },
    Done,
}

pub enum RestoreEventModel {
    Resolved(Result<VerifiedModel, ErrorModel>),
    Enabled { verified: VerifiedModel, result: Result<Seq<OutcomeModel>, ErrorModel> },
    Looked { verified: VerifiedModel, enumeration: Result<ReportModel, ErrorModel> },
    RemovalSaved {
        identity: VerifiedModel,
        before: Seq<RecordModel>,
        gone: Option<Seq<char>>,
        result: Result<(), Seq<char>>,
    },
}

pub enum RestoreNextModel {
    Enable { verified: VerifiedModel },
    Look { verified: VerifiedModel },
    SaveRemoval { identity: VerifiedModel, before: Seq<RecordModel>, gone: Option<Seq<char>> },
    Done,
}

impl View for RestoreEvent {
    type V = RestoreEventModel;

    open spec fn view(&self) -> RestoreEventModel {
        match self {
            RestoreEvent::Resolved(result) => RestoreEventModel::Resolved(
                platform_result(*result),
            ),
            RestoreEvent::Enabled { verified, result } => RestoreEventModel::Enabled {
                verified: verified@,
                result: platform_result(*result),
            },
            RestoreEvent::Looked { verified, enumeration } => RestoreEventModel::Looked {
                verified: verified@,
                enumeration: platform_result(*enumeration),
            },
            RestoreEvent::RemovalSaved { identity, before, gone, result } =>
                RestoreEventModel::RemovalSaved {
                    identity: identity@,
                    before: views(before@),
                    gone: crate::text::opt_text(*gone),
                    result: text_result(*result),
                },
        }
    }
}

impl View for RestoreNext {
    type V = RestoreNextModel;

    open spec fn view(&self) -> RestoreNextModel {
        match self {
            RestoreNext::Enable { verified } => RestoreNextModel::Enable { verified: verified@ },
            RestoreNext::Look { verified } => RestoreNextModel::Look { verified: verified@ },
            RestoreNext::SaveRemoval { identity, before, gone } => RestoreNextModel::SaveRemoval {
                identity: identity@,
                before: views(before@),
                gone: crate::text::opt_text(*gone),
            },
            RestoreNext::Done => RestoreNextModel::Done,
        }
    }
}

pub open spec fn one_more_failed(summary: RestoreSummary) -> RestoreSummary {
    RestoreSummary { failed: (summary.failed + 1) as usize, ..summary }
}

pub open spec fn one_more_succeeded(summary: RestoreSummary) -> RestoreSummary {
    RestoreSummary { succeeded: (summary.succeeded + 1) as usize, ..summary }
}

/// One record failed; its error is remembered under its identifier.
pub open spec fn restore_failed(
    data: DataModel,
    summary: RestoreSummary,
    id: Seq<char>,
    message: Seq<char>,
) -> (DataModel, RestoreSummary, RestoreNextModel) {
    (noted(data, id + ": "@ + message), one_more_failed(summary), RestoreNextModel::Done)
}

/// The record of a restored device goes: at once where there is none any more,
/// otherwise after the data were saved.
pub open spec fn restore_removal(
    data: DataModel,
    summary: RestoreSummary,
    id: Seq<char>,
    identity: VerifiedModel,
    gone: Option<Seq<char>>,
) -> (DataModel, RestoreSummary, RestoreNextModel) {
    let others = records_of_others(data.disabled, identity);
    let after = DataModel { disabled: others, ..data };
    if others.len() != data.disabled.len() {
        (
            after,
            summary,
            RestoreNextModel::SaveRemoval { identity, before: data.disabled, gone },
        )
    } else {
        (calmed(after, id), one_more_succeeded(summary), RestoreNextModel::Done)
    }
}

pub open spec fn restore_step(
    data: DataModel,
    summary: RestoreSummary,
    record: RecordModel,
    event: RestoreEventModel,
) -> (DataModel, RestoreSummary, RestoreNextModel) {
    let id = record.id;
    match event {
        RestoreEventModel::Resolved(result) => match result {
            Ok(identity) => if same_device(identity, record.identity) {
                (data, summary, RestoreNextModel::Enable { verified: identity })
            } else {
                restore_failed(
                    data,
                    summary,
                    id,
                    "fresh identity does not match the persisted recovery record; record retained"@,
                )
            },
            Err(ErrorModel::RecoveryGone(message)) => restore_removal(
                data,
                summary,
                id,
                record.identity,
                Some(message),
            ),
            Err(e) => restore_failed(
                data,
                summary,
                id,
                error_message(e) + "; recovery record retained"@,
            ),
        },
        RestoreEventModel::Enabled { verified, result } => match result {
            Ok(_) => (data, summary, RestoreNextModel::Look { verified }),
            Err(e) => restore_failed(
                data,
                summary,
                id,
                error_message(e) + "; recovery record retained"@,
            ),
        },
        RestoreEventModel::Looked { verified, enumeration } => if seen_enabled(
            enumeration,
            id,
            verified,
        ) {
            restore_removal(data, summary, id, verified, None)
        } else {
            restore_failed(
                data,
                summary,
                id,
                "enable was not confirmed by a fresh enumeration; recovery record retained"@,
            )
        },
        RestoreEventModel::RemovalSaved { identity, before, gone, result } => match removal_ended(
            data,
            identity,
            before,
            result,
        ) {
            (after, Ok(_)) => (
                calmed(after, id),
                one_more_succeeded(summary),
                RestoreNextModel::Done,
            ),
            (after, Err(e)) => restore_failed(
                after,
                summary,
                id,
                match gone {
                    Some(message) => message + "; the recovery record could not be removed: "@ + e,
                    None => e,
                },
            ),
        },
    }
}

fn end_failed(
    data: &mut ControllerData,
    summary: &mut RestoreSummary,
    id: &str,
    message: &str,
) -> (r: RestoreNext)
    requires
        old(data).wf(),
        old(summary).failed < usize::MAX,
    ensures
        final(data).wf(),
        (final(data)@, *final(summary), r@) == restore_failed(
            old(data)@,
            *old(summary),
            id@,
            message@,
        ),
{
    summary.failed = summary.failed + 1;
    data.record_failure(id, message);
    RestoreNext::Done
}

fn begin_removal(
    data: &mut ControllerData,
    summary: &mut RestoreSummary,
    id: &str,
    identity: &VerifiedDevice,
    gone: Option<String>,
) -> (r: RestoreNext)
    requires
        old(data).wf(),
        old(summary).succeeded < usize::MAX,
    ensures
        final(data).wf(),
        (final(data)@, *final(summary), r@) == restore_removal(
            old(data)@,
            *old(summary),
            id@,
            identity@,
            crate::text::opt_text(gone),
        ),
{
    match remove_recovery(data, identity) {
        Some(before) => RestoreNext::SaveRemoval { identity: identity.copy(), before, gone },
        None => {
            data.clear_device_errors(id);
            summary.succeeded = summary.succeeded + 1;
            RestoreNext::Done
        },
    }
}

/// Restores one record: what has to be done next after what just happened.
pub fn restore_disabled_inner(
    data: &mut ControllerData,
    summary: &mut RestoreSummary,
    record: &PersistedDisabled,
    event: RestoreEvent,
) -> (r: RestoreNext)
    requires
        old(data).wf(),
        old(summary).succeeded < usize::MAX,
        old(summary).failed < usize::MAX,
    ensures
        final(data).wf(),
        (final(data)@, *final(summary), r@) == restore_step(
            old(data)@,
            *old(summary),
            record@,
            event@,
        ),
{
    let id = record.id.as_str();
    match event {
        RestoreEvent::Resolved(result) => match result {
            Ok(identity) => {
                if identity.same_hardware(&record.identity) {
                    RestoreNext::Enable { verified: identity }
                } else {
                    end_failed(
                        data,
                        summary,
                        id,
                        "fresh identity does not match the persisted recovery record; record retained",
                    )
                }
            },
            Err(error) => match error {
                PlatformError::RecoveryGone(message) => begin_removal(
                    data,
                    summary,
                    id,
                    &record.identity,
                    Some(message),
                ),
                other => end_failed(
                    data,
                    summary,
                    id,
                    joined(other.describe().as_str(), "; recovery record retained").as_str(),
                ),
            },
        },
        RestoreEvent::Enabled { verified, result } => match result {
            Ok(_) => RestoreNext::Look { verified },
            Err(error) => end_failed(
                data,
                summary,
                id,
                joined(error.describe().as_str(), "; recovery record retained").as_str(),
            ),
        },
        RestoreEvent::Looked { verified, enumeration } => {
            if confirm_enabled(&enumeration, id, &verified) {
                begin_removal(data, summary, id, &verified, None)
            } else {
                end_failed(
                    data,
                    summary,
                    id,
                    "enable was not confirmed by a fresh enumeration; recovery record retained",
                )
            }
        },
        RestoreEvent::RemovalSaved { identity, before, gone, result } => {
            match removal_saved(data, &identity, before, result) {
                Ok(_) => {
                    data.clear_device_errors(id);
                    summary.succeeded = summary.succeeded + 1;
                    RestoreNext::Done
                },
                Err(error) => {
                    let message: String = match gone {
                        Some(reason) => joined3(
                            reason.as_str(),
                            "; the recovery record could not be removed: ",
                            error.as_str(),
                        ),
                        None => error,
                    };
                    end_failed(data, summary, id, message.as_str())
                },
            }
        },
    }
}

/// Shutting down is held up by a record that could not be restored.
pub fn restore_for_shutdown(summary: RestoreSummary) -> (r: Result<RestoreSummary, String>)
    ensures
        text_result(r) == (if summary.failed == 0 {
            Ok::<RestoreSummary, Seq<char>>(summary)
        } else {
            Err(
                decimal(summary.failed as nat)
                    + " controller recovery operation(s) failed; disabled-device records were retained"@,
            )
        }),
{
    if summary.failed != 0 {
        return Err(
            joined(
                decimal_of(summary.failed as u64).as_str(),
                " controller recovery operation(s) failed; disabled-device records were retained",
            ),
        );
    }
    Ok(summary)
}

} // verus!
