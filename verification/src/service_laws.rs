//! What a command of the service comes to, from its first step to its last.
use crate::controller::{cleared, error_of, find_device, find_record, pushed, DataModel};
use crate::platform::{
    error_message, ControlCoverage, DeviceModel, ErrorModel, OutcomeModel, RecordModel,
    ReportModel, VerifiedModel,
};
use crate::service::{
    device_step, records_of_others, restore_step, DeviceEventModel, DeviceNextModel,
    RestoreEventModel, RestoreNextModel, RestoreSummary,
};
use vstd::prelude::*;

verus! {

/// The errors that do not begin with an identifier, a colon and a space.
pub open spec fn errors_of_others(errors: Seq<Seq<char>>, id: Seq<char>) -> Seq<Seq<char>> {
    errors.filter(|e: Seq<char>| !(id + ": "@).is_prefix_of(e))
}

/// The records of other identities.
pub open spec fn other_records(records: Seq<RecordModel>, identity: VerifiedModel) -> Seq<
    RecordModel,
> {
    records.filter(|r: RecordModel| r.identity != identity)
}

/// Nothing of the identity is left out.
pub open spec fn whole(identity: VerifiedModel) -> bool {
    &&& identity.platform.len() > 0
    &&& identity.stable_id.len() > 0
    &&& identity.instance_id.len() > 0
    &&& identity.fingerprint.len() > 0
}

/// The first device of an identifier stands at `i`.
pub open spec fn first_device(devices: Seq<DeviceModel>, id: Seq<char>, i: int) -> bool {
    &&& 0 <= i < devices.len()
    &&& devices[i].id == id
    &&& forall|j: int| 0 <= j < i ==> (#[trigger] devices[j]).id != id
}

/// The first record of an identifier stands at `i`.
pub open spec fn first_record(records: Seq<RecordModel>, id: Seq<char>, i: int) -> bool {
    &&& 0 <= i < records.len()
    &&& records[i].id == id
    &&& forall|j: int| 0 <= j < i ==> (#[trigger] records[j]).id != id
}

pub open spec fn no_record(records: Seq<RecordModel>, id: Seq<char>) -> bool {
    forall|j: int| 0 <= j < records.len() ==> (#[trigger] records[j]).id != id
}

pub open spec fn no_device(devices: Seq<DeviceModel>, id: Seq<char>) -> bool {
    forall|j: int| 0 <= j < devices.len() ==> (#[trigger] devices[j]).id != id
}

/// The enumeration lists the device under its identifier, enabled and with this
/// very identity.
pub open spec fn lists_enabled(
    enumeration: Result<ReportModel, ErrorModel>,
    id: Seq<char>,
    identity: VerifiedModel,
) -> bool {
    enumeration matches Ok(r) && exists|i: int|
        #[trigger] first_device(r.devices, id, i) && r.devices[i].enabled && r.devices[i].verified
            == Some(identity)
}

// The lists.
proof fn lemma_error_of(error: Seq<char>, id: Seq<char>)
    ensures
        error_of(error, id) <==> (id + ": "@).is_prefix_of(error),
{
    let colon = ": "@;
    let whole = id + colon;
    let n = id.len() as int;
    if error_of(error, id) {
        assert(whole =~= error.subrange(0, whole.len() as int)) by {
            assert forall|k: int| 0 <= k < whole.len() implies whole[k] == error[k] by {
                if k < n {
                    assert(error.take(n)[k] == id[k]);
                } else {
                    assert(error.skip(n).take(colon.len() as int)[k - n] == colon[k - n]);
                }
            }
        }
    }
    if whole.is_prefix_of(error) {
        let front = error.subrange(0, whole.len() as int);
        assert(error.take(n) =~= id) by {
            assert forall|k: int| 0 <= k < n implies error[k] == id[k] by {
                assert(front[k] == whole[k]);
            }
        }
        assert(error.skip(n).take(colon.len() as int) =~= colon) by {
            assert forall|k: int| 0 <= k < colon.len() implies error[n + k] == colon[k] by {
                assert(front[n + k] == whole[n + k]);
            }
        }
    }
}

proof fn lemma_cleared(errors: Seq<Seq<char>>, id: Seq<char>)
    ensures
        cleared(errors, id) == errors_of_others(errors, id),
    decreases errors.len(),
{
    reveal(Seq::filter);
    if errors.len() > 0 {
        lemma_cleared(errors.drop_last(), id);
        lemma_error_of(errors.last(), id);
    }
}

proof fn lemma_others(records: Seq<RecordModel>, identity: VerifiedModel)
    requires
        whole(identity),
    ensures
        records_of_others(records, identity) == other_records(records, identity),
        records_of_others(records, identity).len() <= records.len(),
        records_of_others(records, identity).len() == records.len() <==> forall|i: int|
            0 <= i < records.len() ==> (#[trigger] records[i]).identity != identity,
    decreases records.len(),
{
    reveal(Seq::filter);
    if records.len() > 0 {
        let head = records.drop_last();
        lemma_others(head, identity);
        assert(records[records.len() - 1] == records.last());
        assert(forall|i: int| 0 <= i < head.len() ==> #[trigger] head[i] == records[i]);
        if forall|i: int| 0 <= i < records.len() ==> (#[trigger] records[i]).identity != identity {
            assert forall|i: int| 0 <= i < head.len() implies (#[trigger] head[i]).identity
                != identity by {
                assert(records[i].identity != identity);
            }
        }
        if records_of_others(records, identity).len() == records.len() {
            assert forall|i: int| 0 <= i < records.len() implies (#[trigger] records[i]).identity
                != identity by {
                if i < head.len() {
                    assert(head[i].identity != identity);
                }
            }
        }
    }
}

pub proof fn lemma_first_device(devices: Seq<DeviceModel>, id: Seq<char>, i: int)
    requires
        first_device(devices, id, i),
    ensures
        find_device(devices, id) == Some(devices[i]),
    decreases devices.len(),
{
    if i > 0 {
        let rest = devices.drop_first();
        assert(devices[0].id != id);
        assert forall|j: int| 0 <= j < i - 1 implies (#[trigger] rest[j]).id != id by {
            assert(rest[j] == devices[j + 1]);
        }
        lemma_first_device(rest, id, i - 1);
    }
}

pub proof fn lemma_no_device(devices: Seq<DeviceModel>, id: Seq<char>)
    ensures
        find_device(devices, id) is None <==> no_device(devices, id),
        find_device(devices, id) is Some ==> exists|i: int| #[trigger] first_device(devices, id, i),
    decreases devices.len(),
{
    if devices.len() > 0 {
        let rest = devices.drop_first();
        lemma_no_device(rest, id);
        if devices[0].id == id {
            assert(first_device(devices, id, 0));
        } else if find_device(rest, id) is Some {
            let i = choose|i: int| #[trigger] first_device(rest, id, i);
            assert forall|j: int| 0 <= j < i + 1 implies (#[trigger] devices[j]).id != id by {
                if j > 0 {
                    assert(rest[j - 1] == devices[j]);
                }
            }
            assert(rest[i] == devices[i + 1]);
            assert(first_device(devices, id, i + 1));
        } else {
            assert forall|j: int| 0 <= j < devices.len() implies (#[trigger] devices[j]).id != id by {
                if j > 0 {
                    assert(rest[j - 1] == devices[j]);
                }
            }
        }
    }
}

pub proof fn lemma_first_record(records: Seq<RecordModel>, id: Seq<char>, i: int)
    requires
        first_record(records, id, i),
    ensures
        find_record(records, id) == Some(records[i]),
    decreases records.len(),
{
    if i > 0 {
        let rest = records.drop_first();
        assert(records[0].id != id);
        assert forall|j: int| 0 <= j < i - 1 implies (#[trigger] rest[j]).id != id by {
            assert(rest[j] == records[j + 1]);
        }
        lemma_first_record(rest, id, i - 1);
    }
}

pub proof fn lemma_no_record(records: Seq<RecordModel>, id: Seq<char>)
    requires
        no_record(records, id),
    ensures
        find_record(records, id) is None,
    decreases records.len(),
{
    if records.len() > 0 {
        let rest = records.drop_first();
        assert(records[0].id != id);
        assert forall|j: int| 0 <= j < rest.len() implies (#[trigger] rest[j]).id != id by {
            assert(rest[j] == records[j + 1]);
        }
        lemma_no_record(rest, id);
    }
}

proof fn lemma_lists_enabled(
    enumeration: Result<ReportModel, ErrorModel>,
    id: Seq<char>,
    identity: VerifiedModel,
)
    requires
        whole(identity),
    ensures
        crate::service::seen_enabled(enumeration, id, identity) <==> lists_enabled(
            enumeration,
            id,
            identity,
        ),
{
    if let Ok(r) = enumeration {
        lemma_no_device(r.devices, id);
        if find_device(r.devices, id) is Some {
            let i = choose|i: int| #[trigger] first_device(r.devices, id, i);
            lemma_first_device(r.devices, id, i);
            assert forall|k: int| #[trigger] first_device(r.devices, id, k) implies k == i by {
                lemma_first_device(r.devices, id, k);
                if k < i {
                    assert(r.devices[k].id != id);
                } else if i < k {
                    assert(r.devices[i].id != id);
                }
            }
        } else {
            assert forall|k: int| !#[trigger] first_device(r.devices, id, k) by {
                if first_device(r.devices, id, k) {
                    lemma_first_device(r.devices, id, k);
                }
            }
        }
    }
}

/// A new error is remembered behind the others, and at the bound the oldest
/// makes room; one that is empty or known changes nothing.
pub proof fn a_new_error_is_remembered(errors: Seq<Seq<char>>, message: Seq<char>)
    ensures
        message.len() == 0 || errors.contains(message) ==> pushed(errors, message) == errors,
        message.len() > 0 && !errors.contains(message) && errors.len() < 64 ==> pushed(
            errors,
            message,
        ) == errors.push(message),
        message.len() > 0 && !errors.contains(message) && errors.len() == 64 ==> pushed(
            errors,
            message,
        ) == errors.skip(1).push(message),
        message.len() > 0 ==> pushed(errors, message).contains(message),
{
    let all = errors.push(message);
    if errors.len() == 64 {
        assert(all.skip(1) =~= errors.skip(1).push(message));
    }
    if message.len() > 0 && !errors.contains(message) {
        let after = pushed(errors, message);
        assert(after.len() > 0);
        assert(after[after.len() - 1] == message);
    }
}

/// Data that differ at most in what is remembered of errors.
pub open spec fn same_but_errors(a: DataModel, b: DataModel) -> bool {
    &&& a.selected == b.selected
    &&& a.disabled == b.disabled
    &&& a.shortcut == b.shortcut
    &&& a.shortcut_available == b.shortcut_available
}

// Enabling.
/// Once the removal of the record is saved, enabling ends with the report that
/// it carried; the records stay as they are, and of the errors those that begin
/// with the identifier go.
pub proof fn a_saved_removal_ends_the_command(
    data: DataModel,
    id: Seq<char>,
    enabled: bool,
    identity: VerifiedModel,
    before: Seq<RecordModel>,
    report: Seq<OutcomeModel>,
)
    ensures
        ({
            let (after, next) = device_step(
                data,
                id,
                enabled,
                DeviceEventModel::RemovalSaved { identity, before, report, result: Ok(()) },
            );
            &&& next == DeviceNextModel::Done(Ok(report))
            &&& same_but_errors(after, data)
            &&& after.errors == errors_of_others(data.errors, id)
            &&& forall|i: int|
                0 <= i < after.errors.len() ==> !(id + ": "@).is_prefix_of(
                    #[trigger] after.errors[i],
                )
        }),
{
    broadcast use vstd::seq_lib::group_filter_ensures;

    lemma_cleared(data.errors, id);
}

/// A removal that could not be saved brings the records back, and ends with an
/// error that says so and is remembered.
pub proof fn an_unsaved_removal_is_an_error(
    data: DataModel,
    id: Seq<char>,
    enabled: bool,
    identity: VerifiedModel,
    before: Seq<RecordModel>,
    report: Seq<OutcomeModel>,
    error: Seq<char>,
)
    ensures
        ({
            let (after, next) = device_step(
                data,
                id,
                enabled,
                DeviceEventModel::RemovalSaved { identity, before, report, result: Err(error) },
            );
            let message = identity.stable_id
                + " was enabled, but its recovery record could not be removed: "@ + error;
            &&& next == DeviceNextModel::Done(Err(message))
            &&& same_but_errors(after, DataModel { disabled: before, ..data })
            &&& after.errors.contains(message)
        }),
{
    reveal_strlit(" was enabled, but its recovery record could not be removed: ");
    let message = identity.stable_id
        + " was enabled, but its recovery record could not be removed: "@ + error;
    a_new_error_is_remembered(data.errors, message);
}

/// Enabling a device of which there is a record: the record is resolved, the
/// identity that comes back is enabled and looked at, and once it is seen
/// enabled its records go and the rest is saved.
pub proof fn a_recorded_device_is_enabled(
    data: DataModel,
    id: Seq<char>,
    k: int,
    first: ReportModel,
    now: u64,
    report: Seq<OutcomeModel>,
    enumeration: Result<ReportModel, ErrorModel>,
)
    requires
        first_record(data.disabled, id, k),
        data.disabled[k].schema == 1,
        whole(data.disabled[k].identity),
        lists_enabled(enumeration, id, data.disabled[k].identity),
    ensures
        ({
            let record = data.disabled[k];
            let identity = record.identity;
            &&& device_step(data, id, true, DeviceEventModel::Enumerated { report: Ok(first), now })
                == (data, DeviceNextModel::Resolve { record })
            &&& device_step(
                data,
                id,
                true,
                DeviceEventModel::Resolved { record, result: Ok(identity) },
            ) == (data, DeviceNextModel::Enable { identity, recovery: true })
            &&& device_step(
                data,
                id,
                true,
                DeviceEventModel::Enabled { identity, recovery: true, result: Ok(report) },
            ) == (data, DeviceNextModel::Look { identity, recovery: true, report })
            &&& device_step(
                data,
                id,
                true,
                DeviceEventModel::Looked { identity, recovery: true, report, enumeration },
            ) == (
                DataModel { disabled: other_records(data.disabled, identity), ..data },
                DeviceNextModel::SaveRemoval { identity, before: data.disabled, report },
            )
        }),
{
    let identity = data.disabled[k].identity;
    lemma_first_record(data.disabled, id, k);
    lemma_lists_enabled(enumeration, id, identity);
    lemma_others(data.disabled, identity);
    assert(data.disabled[k].identity == identity);
}

/// Enabling a present device of which there is no record: it is enabled and
/// looked at, and once it is seen enabled the command ends with its report; the
/// records stay as they are.
pub proof fn a_device_without_record_is_enabled(
    data: DataModel,
    id: Seq<char>,
    i: int,
    first: ReportModel,
    now: u64,
    identity: VerifiedModel,
    report: Seq<OutcomeModel>,
    enumeration: Result<ReportModel, ErrorModel>,
)
    requires
        no_record(data.disabled, id),
        first_device(first.devices, id, i),
        first.devices[i].verified == Some(identity),
        whole(identity),
        lists_enabled(enumeration, id, identity),
    ensures
        ({
            &&& device_step(data, id, true, DeviceEventModel::Enumerated { report: Ok(first), now })
                == (data, DeviceNextModel::Enable { identity, recovery: false })
            &&& device_step(
                data,
                id,
                true,
                DeviceEventModel::Enabled { identity, recovery: false, result: Ok(report) },
            ) == (data, DeviceNextModel::Look { identity, recovery: false, report })
            &&& device_step(
                data,
                id,
                true,
                DeviceEventModel::Looked { identity, recovery: false, report, enumeration },
            ) == (
                DataModel { errors: errors_of_others(data.errors, id), ..data },
                DeviceNextModel::Done(Ok(report)),
            )
        }),
{
    lemma_no_record(data.disabled, id);
    lemma_first_device(first.devices, id, i);
    lemma_lists_enabled(enumeration, id, identity);
    lemma_cleared(data.errors, id);
}

/// A device that is not seen enabled under its identity was not enabled: the
/// command fails, the error is remembered, and the records stay.
pub proof fn an_unseen_device_was_not_enabled(
    data: DataModel,
    id: Seq<char>,
    identity: VerifiedModel,
    recovery: bool,
    report: Seq<OutcomeModel>,
    enumeration: Result<ReportModel, ErrorModel>,
)
    requires
        whole(identity),
        !lists_enabled(enumeration, id, identity),
    ensures
        ({
            let (after, next) = device_step(
                data,
                id,
                true,
                DeviceEventModel::Looked { identity, recovery, report, enumeration },
            );
            let message = id + ": enable was not confirmed by a fresh enumeration"@;
            &&& next == DeviceNextModel::Done(Err(message))
            &&& same_but_errors(after, data)
            &&& after.errors.contains(message)
        }),
{
    reveal_strlit(": enable was not confirmed by a fresh enumeration");
    lemma_lists_enabled(enumeration, id, identity);
    a_new_error_is_remembered(
        data.errors,
        id + ": enable was not confirmed by a fresh enumeration"@,
    );
}

/// What cannot be enabled: a broken record, and a device that is neither on
/// record nor present.
pub proof fn enabling_needs_a_record_or_a_device(
    data: DataModel,
    id: Seq<char>,
    first: ReportModel,
    now: u64,
)
    ensures
        ({
            let (after, next) = device_step(
                data,
                id,
                true,
                DeviceEventModel::Enumerated { report: Ok(first), now },
            );
            let broken = id + ": invalid persisted recovery record"@;
            let absent = id + ": controller is not present in the verified inventory"@;
            &&& forall|k: int|
                #[trigger] first_record(data.disabled, id, k) && (data.disabled[k].schema != 1
                    || !whole(data.disabled[k].identity)) ==> next == DeviceNextModel::Done(
                    Err(broken),
                ) && same_but_errors(after, data) && after.errors.contains(broken)
            &&& no_record(data.disabled, id) && no_device(first.devices, id) ==> next
                == DeviceNextModel::Done(Err(absent)) && same_but_errors(after, data)
                && after.errors.contains(absent)
        }),
{
    reveal_strlit(": invalid persisted recovery record");
    reveal_strlit(": controller is not present in the verified inventory");
    let broken = id + ": invalid persisted recovery record"@;
    let absent = id + ": controller is not present in the verified inventory"@;
    a_new_error_is_remembered(data.errors, broken);
    a_new_error_is_remembered(data.errors, absent);
    assert forall|k: int| #[trigger] first_record(data.disabled, id, k) implies find_record(
        data.disabled,
        id,
    ) == Some(data.disabled[k]) by {
        lemma_first_record(data.disabled, id, k);
    }
    lemma_no_device(first.devices, id);
    if no_record(data.disabled, id) {
        lemma_no_record(data.disabled, id);
    }
}

/// An identity that is not the one on record is not enabled.
pub proof fn another_identity_is_not_enabled(
    data: DataModel,
    id: Seq<char>,
    record: RecordModel,
    fresh: VerifiedModel,
)
    requires
        fresh != record.identity,
    ensures
        ({
            let (after, next) = device_step(
                data,
                id,
                true,
                DeviceEventModel::Resolved { record, result: Ok(fresh) },
            );
            let message = id
                + ": persisted recovery identity no longer matches a fresh native resolve"@;
            &&& next == DeviceNextModel::Done(Err(message))
            &&& same_but_errors(after, data)
            &&& after.errors.contains(message)
        }),
{
    reveal_strlit(": persisted recovery identity no longer matches a fresh native resolve");
    a_new_error_is_remembered(
        data.errors,
        id + ": persisted recovery identity no longer matches a fresh native resolve"@,
    );
}

/// What the platform refuses is reported in its words; the data stay.
pub proof fn a_platform_error_is_reported(
    data: DataModel,
    id: Seq<char>,
    enabled: bool,
    now: u64,
    record: RecordModel,
    identity: VerifiedModel,
    recovery: bool,
    error: ErrorModel,
)
    ensures
        device_step(data, id, enabled, DeviceEventModel::Enumerated { report: Err(error), now })
            == (data, DeviceNextModel::Done(Err(error_message(error)))),
        device_step(data, id, enabled, DeviceEventModel::Resolved { record, result: Err(error) })
            == (data, DeviceNextModel::Done(Err(error_message(error)))),
        device_step(
            data,
            id,
            enabled,
            DeviceEventModel::Enabled { identity, recovery, result: Err(error) },
        ) == (data, DeviceNextModel::Done(Err(error_message(error)))),
{
}

// Disabling.
/// What a recovery record says of a device.
pub open spec fn recovery_record_of(device: DeviceModel, identity: VerifiedModel, now: u64) -> RecordModel {
    RecordModel {
        schema: 1,
        id: device.id,
        name: device.name,
        connection: device.connection,
        identity,
        requested_at: now,
    }
}

/// A device that may be switched off: verified, and under full control.
pub open spec fn may_be_disabled(device: DeviceModel, identity: VerifiedModel) -> bool {
    &&& device.verified == Some(identity)
    &&& whole(identity)
    &&& identity.coverage == ControlCoverage::Full
    &&& device.capabilities.full_control
}

/// Disabling a present device of which there is no record: its record is taken
/// in and saved, the device is disabled, and once that is confirmed the command
/// ends with the report; the record stays, and the errors of the device go.
pub proof fn a_device_is_disabled(
    data: DataModel,
    id: Seq<char>,
    i: int,
    first: ReportModel,
    now: u64,
    identity: VerifiedModel,
    report: Seq<OutcomeModel>,
)
    requires
        first_device(first.devices, id, i),
        may_be_disabled(first.devices[i], identity),
        no_record(data.disabled, id),
        data.disabled.len() < 256,
        report.len() > 0,
        report[0].confirmed_enabled == Some(false),
    ensures
        ({
            let record = recovery_record_of(first.devices[i], identity, now);
            let grown = DataModel { disabled: data.disabled.push(record), ..data };
            &&& device_step(
                data,
                id,
                false,
                DeviceEventModel::Enumerated { report: Ok(first), now },
            ) == (grown, DeviceNextModel::SaveRecord { record, identity })
            &&& device_step(
                grown,
                id,
                false,
                DeviceEventModel::RecordSaved { record, identity, result: Ok(()) },
            ) == (grown, DeviceNextModel::Disable { identity })
            &&& device_step(grown, id, false, DeviceEventModel::Disabled(Ok(report))) == (
                DataModel { errors: errors_of_others(data.errors, id), ..grown },
                DeviceNextModel::Done(Ok(report)),
            )
        }),
{
    lemma_first_device(first.devices, id, i);
    lemma_no_record(data.disabled, id);
    lemma_cleared(data.errors, id);
}

/// A device that is on record under the same identity is disabled right away;
/// one that is on record under another identity is not.
pub proof fn a_recorded_device_is_disabled_again(
    data: DataModel,
    id: Seq<char>,
    i: int,
    k: int,
    first: ReportModel,
    now: u64,
    identity: VerifiedModel,
)
    requires
        first_device(first.devices, id, i),
        may_be_disabled(first.devices[i], identity),
        first_record(data.disabled, id, k),
    ensures
        ({
            let (after, next) = device_step(
                data,
                id,
                false,
                DeviceEventModel::Enumerated { report: Ok(first), now },
            );
            let message = id + ": an existing recovery record has a different verified identity"@;
            if data.disabled[k].identity == identity {
                after == data && next == (DeviceNextModel::Disable { identity })
            } else {
                &&& next == DeviceNextModel::Done(Err(message))
                &&& same_but_errors(after, data)
                &&& after.errors.contains(message)
            }
        }),
{
    reveal_strlit(": an existing recovery record has a different verified identity");
    lemma_first_device(first.devices, id, i);
    lemma_first_record(data.disabled, id, k);
    a_new_error_is_remembered(
        data.errors,
        id + ": an existing recovery record has a different verified identity"@,
    );
}

/// Why a device is not disabled: it is not present, it is not verified, it is
/// not under full control, or there is no room for its record.  Nothing is
/// asked of the platform and no record is written.
pub proof fn what_is_not_disabled(
    data: DataModel,
    id: Seq<char>,
    i: int,
    first: ReportModel,
    now: u64,
)
    ensures
        ({
            let (after, next) = device_step(
                data,
                id,
                false,
                DeviceEventModel::Enumerated { report: Ok(first), now },
            );
            &&& no_device(first.devices, id) ==> after == data && next == DeviceNextModel::Done(
                Err(id + ": controller is not present; refusing an unverified disable request"@),
            )
            &&& first_device(first.devices, id, i) ==> {
                let device = first.devices[i];
                &&& device.verified is None || !whole(device.verified->0) ==> after == data && next
                    == DeviceNextModel::Done(Err("device verification failed: "@ + id))
                &&& device.verified is Some && whole(device.verified->0) && (
                device.verified->0.coverage != ControlCoverage::Full
                    || !device.capabilities.full_control) ==> {
                    let message = match device.verified->0.coverage {
                        ControlCoverage::HidOnly => id
                            + ": only the HID collection is controllable; the XInput/XUSB path remains live"@,
                        ControlCoverage::Uncontrolled => id
                            + ": controller input path is not safely controllable; refusing disable"@,
                        ControlCoverage::Full => id + ": controller cannot be safely controlled"@,
                    };
                    &&& next == DeviceNextModel::Done(Err(message))
                    &&& same_but_errors(after, data)
                    &&& after.errors.contains(message)
                }
                &&& device.verified is Some && may_be_disabled(device, device.verified->0)
                    && no_record(data.disabled, id) && data.disabled.len() >= 256 ==> {
                    let message =
                        "recovery record limit reached; refusing to disable another controller"@;
                    &&& next == DeviceNextModel::Done(Err(message))
                    &&& same_but_errors(after, data)
                    &&& after.errors.contains(message)
                }
            }
        }),
{
    reveal_strlit("recovery record limit reached; refusing to disable another controller");
    reveal_strlit(": controller cannot be safely controlled");
    reveal_strlit(": controller input path is not safely controllable; refusing disable");
    reveal_strlit(
        ": only the HID collection is controllable; the XInput/XUSB path remains live",
    );
    lemma_no_device(first.devices, id);
    if first_device(first.devices, id, i) {
        lemma_first_device(first.devices, id, i);
    }
    if no_record(data.disabled, id) {
        lemma_no_record(data.disabled, id);
    }
    a_new_error_is_remembered(
        data.errors,
        id + ": only the HID collection is controllable; the XInput/XUSB path remains live"@,
    );
    a_new_error_is_remembered(
        data.errors,
        id + ": controller input path is not safely controllable; refusing disable"@,
    );
    a_new_error_is_remembered(data.errors, id + ": controller cannot be safely controlled"@);
    a_new_error_is_remembered(
        data.errors,
        "recovery record limit reached; refusing to disable another controller"@,
    );
}

/// Disabling that failed or was not confirmed ends with an error that is
/// remembered; the record is retained.
pub proof fn an_unconfirmed_disable_is_an_error(
    data: DataModel,
    id: Seq<char>,
    result: Result<Seq<OutcomeModel>, ErrorModel>,
)
    requires
        result matches Ok(report) ==> report.len() == 0 || report[0].confirmed_enabled != Some(
            false,
        ),
    ensures
        ({
            let (after, next) = device_step(data, id, false, DeviceEventModel::Disabled(result));
            let message = match result {
                Err(e) => id + ": "@ + error_message(e) + "; recovery record retained"@,
                Ok(_) => id
                    + ": disable call returned without confirmed disabled state; recovery record retained"@,
            };
            &&& next == DeviceNextModel::Done(Err(message))
            &&& same_but_errors(after, data)
            &&& after.errors.contains(message)
        }),
{
    reveal_strlit("; recovery record retained");
    reveal_strlit(
        ": disable call returned without confirmed disabled state; recovery record retained",
    );
    let message = match result {
        Err(e) => id + ": "@ + error_message(e) + "; recovery record retained"@,
        Ok(_) => id
            + ": disable call returned without confirmed disabled state; recovery record retained"@,
    };
    a_new_error_is_remembered(data.errors, message);
}

/// A device that was disabled and is enabled again leaves the records as they
/// were before.
pub proof fn enabling_takes_back_the_record(
    data: DataModel,
    id: Seq<char>,
    i: int,
    first: ReportModel,
    now: u64,
    identity: VerifiedModel,
    report: Seq<OutcomeModel>,
    enumeration: Result<ReportModel, ErrorModel>,
)
    requires
        first_device(first.devices, id, i),
        may_be_disabled(first.devices[i], identity),
        no_record(data.disabled, id),
        data.disabled.len() < 256,
        forall|j: int|
            0 <= j < data.disabled.len() ==> (#[trigger] data.disabled[j]).identity != identity,
        lists_enabled(enumeration, id, identity),
    ensures
        ({
            let disabled = device_step(
                data,
                id,
                false,
                DeviceEventModel::Enumerated { report: Ok(first), now },
            ).0;
            device_step(
                disabled,
                id,
                true,
                DeviceEventModel::Looked { identity, recovery: true, report, enumeration },
            ).0 == data
        }),
{
    lemma_first_device(first.devices, id, i);
    lemma_no_record(data.disabled, id);
    lemma_lists_enabled(enumeration, id, identity);
    let record = recovery_record_of(first.devices[i], identity, now);
    let grown = data.disabled.push(record);
    lemma_others(data.disabled, identity);
    lemma_others(grown, identity);
    assert(grown.drop_last() =~= data.disabled);
    assert(grown.last() == record);
    lemma_all_others(data.disabled, identity);
    assert(records_of_others(grown, identity) =~= data.disabled);
    assert(records_of_others(grown, identity).len() != grown.len());
}

proof fn lemma_all_others(records: Seq<RecordModel>, identity: VerifiedModel)
    requires
        forall|j: int| 0 <= j < records.len() ==> (#[trigger] records[j]).identity != identity,
    ensures
        records_of_others(records, identity) == records,
    decreases records.len(),
{
    if records.len() > 0 {
        let head = records.drop_last();
        assert forall|j: int| 0 <= j < head.len() implies (#[trigger] head[j]).identity
            != identity by {
            assert(head[j] == records[j]);
        }
        lemma_all_others(head, identity);
        assert(records[records.len() - 1] == records.last());
        assert(head.push(records.last()) =~= records);
    }
}

// Restoring.
/// A record whose device can be enabled is restored: the identity on record is
/// enabled and looked at, its records go, and once that is saved it is counted
/// as restored and its errors go.
pub proof fn a_record_is_restored(
    data: DataModel,
    summary: RestoreSummary,
    k: int,
    report: Seq<OutcomeModel>,
    enumeration: Result<ReportModel, ErrorModel>,
)
    requires
        0 <= k < data.disabled.len(),
        whole(data.disabled[k].identity),
        lists_enabled(enumeration, data.disabled[k].id, data.disabled[k].identity),
        summary.succeeded < usize::MAX,
    ensures
        ({
            let record = data.disabled[k];
            let identity = record.identity;
            let rest = DataModel { disabled: other_records(data.disabled, identity), ..data };
            &&& restore_step(data, summary, record, RestoreEventModel::Resolved(Ok(identity))) == (
                data,
                summary,
                RestoreNextModel::Enable { verified: identity },
            )
            &&& restore_step(
                data,
                summary,
                record,
                RestoreEventModel::Enabled { verified: identity, result: Ok(report) },
            ) == (data, summary, RestoreNextModel::Look { verified: identity })
            &&& restore_step(
                data,
                summary,
                record,
                RestoreEventModel::Looked { verified: identity, enumeration },
            ) == (
                rest,
                summary,
                RestoreNextModel::SaveRemoval { identity, before: data.disabled, gone: None },
            )
            &&& restore_step(
                rest,
                summary,
                record,
                RestoreEventModel::RemovalSaved {
                    identity,
                    before: data.disabled,
                    gone: None,
                    result: Ok(()),
                },
            ) == (
                DataModel { errors: errors_of_others(data.errors, record.id), ..rest },
                RestoreSummary {
                    succeeded: (summary.succeeded + 1) as usize,
                    failed: summary.failed,
                },
                RestoreNextModel::Done,
            )
        }),
{
    let identity = data.disabled[k].identity;
    lemma_lists_enabled(enumeration, data.disabled[k].id, identity);
    lemma_others(data.disabled, identity);
    lemma_cleared(data.errors, data.disabled[k].id);
    assert(data.disabled[k].identity == identity);
}

/// A record whose device is gone for good goes too, and counts as restored once
/// that is saved.
pub proof fn a_record_of_a_gone_device_goes(
    data: DataModel,
    summary: RestoreSummary,
    k: int,
    message: Seq<char>,
)
    requires
        0 <= k < data.disabled.len(),
        whole(data.disabled[k].identity),
        summary.succeeded < usize::MAX,
    ensures
        ({
            let record = data.disabled[k];
            let identity = record.identity;
            let rest = DataModel { disabled: other_records(data.disabled, identity), ..data };
            &&& restore_step(
                data,
                summary,
                record,
                RestoreEventModel::Resolved(Err(ErrorModel::RecoveryGone(message))),
            ) == (
                rest,
                summary,
                RestoreNextModel::SaveRemoval {
                    identity,
                    before: data.disabled,
                    gone: Some(message),
                },
            )
            &&& restore_step(
                rest,
                summary,
                record,
                RestoreEventModel::RemovalSaved {
                    identity,
                    before: data.disabled,
                    gone: Some(message),
                    result: Ok(()),
                },
            ) == (
                DataModel { errors: errors_of_others(data.errors, record.id), ..rest },
                RestoreSummary {
                    succeeded: (summary.succeeded + 1) as usize,
                    failed: summary.failed,
                },
                RestoreNextModel::Done,
            )
        }),
{
    let identity = data.disabled[k].identity;
    lemma_others(data.disabled, identity);
    lemma_cleared(data.errors, data.disabled[k].id);
    assert(data.disabled[k].identity == identity);
}

/// The restore of a record failed: it is counted as failed, the records are
/// these, and the error is remembered under the identifier of the record.
pub open spec fn restore_failed_with(
    outcome: (DataModel, RestoreSummary, RestoreNextModel),
    data: DataModel,
    summary: RestoreSummary,
    id: Seq<char>,
    message: Seq<char>,
) -> bool {
    &&& same_but_errors(outcome.0, data)
    &&& outcome.0.errors.contains(id + ": "@ + message)
    &&& outcome.1.succeeded == summary.succeeded
    &&& outcome.1.failed == summary.failed + 1
    &&& outcome.2 == RestoreNextModel::Done
}

/// What keeps a record from being restored: another identity, an error of the
/// platform other than that the device is gone, or a device that is not seen
/// enabled.  The record is retained.
pub proof fn a_record_is_retained(
    data: DataModel,
    summary: RestoreSummary,
    record: RecordModel,
    fresh: VerifiedModel,
    error: ErrorModel,
    enumeration: Result<ReportModel, ErrorModel>,
)
    requires
        summary.failed < usize::MAX,
    ensures
        fresh != record.identity ==> restore_failed_with(
            restore_step(data, summary, record, RestoreEventModel::Resolved(Ok(fresh))),
            data,
            summary,
            record.id,
            "fresh identity does not match the persisted recovery record; record retained"@,
        ),
        !(error is RecoveryGone) ==> restore_failed_with(
            restore_step(data, summary, record, RestoreEventModel::Resolved(Err(error))),
            data,
            summary,
            record.id,
            error_message(error) + "; recovery record retained"@,
        ),
        restore_failed_with(
            restore_step(
                data,
                summary,
                record,
                RestoreEventModel::Enabled { verified: fresh, result: Err(error) },
            ),
            data,
            summary,
            record.id,
            error_message(error) + "; recovery record retained"@,
        ),
        whole(fresh) && !lists_enabled(enumeration, record.id, fresh) ==> restore_failed_with(
            restore_step(
                data,
                summary,
                record,
                RestoreEventModel::Looked { verified: fresh, enumeration },
            ),
            data,
            summary,
            record.id,
            "enable was not confirmed by a fresh enumeration; recovery record retained"@,
        ),
{
    reveal_strlit(": ");
    let id = record.id;
    a_new_error_is_remembered(
        data.errors,
        id + ": "@
            + "fresh identity does not match the persisted recovery record; record retained"@,
    );
    a_new_error_is_remembered(
        data.errors,
        id + ": "@ + (error_message(error) + "; recovery record retained"@),
    );
    a_new_error_is_remembered(
        data.errors,
        id + ": "@
            + "enable was not confirmed by a fresh enumeration; recovery record retained"@,
    );
    if whole(fresh) {
        lemma_lists_enabled(enumeration, id, fresh);
    }
}

/// A removal that could not be saved brings the records back, and the record
/// counts as failed.
pub proof fn an_unsaved_restore_failed(
    data: DataModel,
    summary: RestoreSummary,
    record: RecordModel,
    identity: VerifiedModel,
    before: Seq<RecordModel>,
    gone: Option<Seq<char>>,
    error: Seq<char>,
)
    requires
        summary.failed < usize::MAX,
    ensures
        ({
            let reason = identity.stable_id
                + " was enabled, but its recovery record could not be removed: "@ + error;
            restore_failed_with(
                restore_step(
                    data,
                    summary,
                    record,
                    RestoreEventModel::RemovalSaved { identity, before, gone, result: Err(error) },
                ),
                DataModel { disabled: before, ..data },
                summary,
                record.id,
                match gone {
                    Some(message) => message + "; the recovery record could not be removed: "@
                        + reason,
                    None => reason,
                },
            )
        }),
{
    reveal_strlit(": ");
    let reason = identity.stable_id
        + " was enabled, but its recovery record could not be removed: "@ + error;
    let message = match gone {
        Some(message) => message + "; the recovery record could not be removed: "@ + reason,
        None => reason,
    };
    a_new_error_is_remembered(pushed(data.errors, reason), record.id + ": "@ + message);
}

} // verus!
