//! What the privileged helper comes to, from a request to its end.
use crate::discovery::unbound_controller;
use crate::fingerprint::{
    approved_driver, identity_check, parsed_fields, FunctionBus, FunctionModel, IdentityModel,
};
use crate::function::{
    bind_step, gone_paths, number_field, unbind_step, unbound_function, FileMetadata, Operation,
    StepModel, UnboundModel,
};
use crate::helper::{gate_state, mode_of, parsed_request, GateReading, ModeModel, RequestModel};
use crate::identity::token;
use crate::input::ControllerModel;
use crate::journal::{
    found, holds, journal_added, journal_records, journal_removed, journal_text,
    records_read_are_ok, without, written,
};
use crate::linux::device_of;
use crate::linux_helper::{
    call_of, helper_answer, listed_identity, recovery_lookup, recovery_probed, resolved,
    LookupModel,
};
use crate::linux_laws::{first_controller, lemma_first_exact};
use crate::ordered::lookup;
use crate::paths::{file_name, path_within};
use crate::platform::{ControlCoverage, DeviceModel, ErrorModel, VerifiedModel};
use crate::recovery::{
    bound_check, disable_step, enable_step, recovery_step, restore_step, AuthorizationView,
    DisableEventModel, DisableNextModel, EnableEventModel, EnableNextModel, EventModel, NextModel,
    ObservationModel, RestoreNextModel,
};
use crate::removal::{clear_step, ensure_step, ClearEvent, ClearNextModel, EnsureEvent, EnsureNextModel};
use crate::service_laws::whole;
use crate::text::trimmed;
use vstd::prelude::*;

verus! {

// What is on record.
/// The function is the one that the fingerprint of the identity records: on the
/// same bus, under the same name, and with an approved driver.
pub open spec fn recorded_function(
    function: FunctionModel,
    identity: IdentityModel,
    driver: Seq<char>,
) -> bool {
    &&& approved_driver(driver)
    &&& parsed_fields(identity.fingerprint) matches Some(fields) && {
        &&& lookup(fields, "bus"@) == Some(
            if function.bus == FunctionBus::Hid {
                "hid"@
            } else {
                "usb"@
            },
        )
        &&& lookup(fields, "function"@) == Some(function.id)
        &&& lookup(fields, "driver"@) == Some(driver)
    }
}

/// The function still is what it was: a HID function has the usage on record, a
/// USB interface is authorized where it belongs.
pub open spec fn still_the_same(
    function: FunctionModel,
    identity: IdentityModel,
    usage: Result<(u16, u16), Seq<char>>,
    authorization: AuthorizationView,
) -> bool {
    if function.bus == FunctionBus::Hid {
        parsed_fields(identity.fingerprint) matches Some(fields) && (usage matches Ok(u)
            && number_field(fields, "usage_page"@) == Some(u.0 as nat) && number_field(
            fields,
            "usage"@,
        ) == Some(u.1 as nat))
    } else {
        authorization.canonical matches Ok(path) && (authorization.devices_root matches Ok(root)
            && path_within(path, root)) && file_name(path) == Some(function.id) && (
        authorization.authorized matches Ok(text) && trimmed(text) == "1"@)
    }
}

/// A controller that may be taken off its driver, or that counts as put back:
/// the one on record, under full control, alone in its function, and bound to
/// the driver on record.
pub open spec fn safely_bound(
    controller: ControllerModel,
    identity: IdentityModel,
    observation: ObservationModel,
) -> bool {
    &&& controller.identity == identity
    &&& controller.can_full_control
    &&& !controller.mixed_unrelated
    &&& controller.function matches Some(function) && (function.driver matches Some(driver)
        && recorded_function(function, identity, driver)) && still_the_same(
        function,
        identity,
        observation.usage,
        observation.authorization,
    )
}

proof fn lemma_drivers_are_texts(driver: Seq<char>)
    requires
        approved_driver(driver),
    ensures
        driver.len() > 0,
{
    reveal_strlit("hid-generic");
    reveal_strlit("hid-playstation");
    reveal_strlit("sony");
    reveal_strlit("xpad");
    reveal_strlit("xpadneo");
    reveal_strlit("hid-nintendo");
    reveal_strlit("hid-steam");
    reveal_strlit("usbhid");
}

proof fn lemma_buses_differ()
    ensures
        "hid"@ != "usb"@,
{
    reveal_strlit("hid");
    reveal_strlit("usb");
    assert("hid"@[0] == 'h');
    assert("usb"@[0] == 'u');
}

/// What is safely bound passes the check, and nothing else does.
pub proof fn what_counts_as_safely_bound(
    controller: ControllerModel,
    identity: IdentityModel,
    observation: ObservationModel,
)
    ensures
        bound_check(controller, identity, observation) is Ok <==> safely_bound(
            controller,
            identity,
            observation,
        ),
{
    lemma_buses_differ();
    if let Some(function) = controller.function {
        if let Some(driver) = function.driver {
            if approved_driver(driver) {
                lemma_drivers_are_texts(driver);
            }
        }
    }
}

/// The step that takes a function off its driver writes to that driver, or
/// withdraws the authorization of an Xbox interface; the step that puts it back
/// does the reverse with the driver that is known.
pub proof fn what_the_steps_do(function: FunctionModel, driver: Seq<char>)
    requires
        approved_driver(driver),
    ensures
        function.driver == Some(driver) ==> unbind_step(function) == Ok::<StepModel, Seq<char>>(
            if function.bus == FunctionBus::Usb && driver == "xpad"@ {
                StepModel::Authorize { enabled: false }
            } else {
                StepModel::Write { driver, operation: Operation::Unbind }
            },
        ),
        function.driver is None && function.expected_driver == Some(driver) ==> bind_step(function)
            == Ok::<StepModel, Seq<char>>(
            if function.bus == FunctionBus::Usb && driver == "xpad"@ {
                StepModel::Authorize { enabled: true }
            } else {
                StepModel::Write { driver, operation: Operation::Bind }
            },
        ),
{
}

// Disabling.
/// A disable runs its course: with no removal under way the machine is looked
/// at, the record of the bound controller is written and read back, its function
/// is taken off the driver, and once it is seen unbound the helper ends well.
pub proof fn a_disable_runs_its_course(
    identity: IdentityModel,
    observation: ObservationModel,
    i: int,
    list: Seq<IdentityModel>,
    attempts: usize,
    reading: UnboundModel,
    unbound: FunctionModel,
)
    requires
        first_controller(observation.controllers, identity, i),
        safely_bound(observation.controllers[i], identity, observation),
        list.contains(identity),
        unbound_function(identity, reading) == Ok::<FunctionModel, Seq<char>>(unbound),
        unbound.driver is None,
    ensures
        ({
            let function = observation.controllers[i].function->0;
            let driver = function.driver->0;
            &&& disable_step(identity, DisableEventModel::GateRead(Ok(false)))
                == DisableNextModel::Observe
            &&& disable_step(identity, DisableEventModel::Observed(observation)) == (
            DisableNextModel::AddRecord { function })
            &&& disable_step(identity, DisableEventModel::RecordAdded { function, result: Ok(()) })
                == (DisableNextModel::ReadJournal { function })
            &&& disable_step(
                identity,
                DisableEventModel::JournalRead { function, records: Ok(list) },
            ) == (DisableNextModel::Unbind {
                step: if function.bus == FunctionBus::Usb && driver == "xpad"@ {
                    StepModel::Authorize { enabled: false }
                } else {
                    StepModel::Write { driver, operation: Operation::Unbind }
                },
                function,
            })
            &&& disable_step(identity, DisableEventModel::UnbindTried(Ok(()))) == (
            DisableNextModel::Poll { attempts_left: 20 })
            &&& disable_step(
                identity,
                DisableEventModel::Polled { attempts_left: attempts, reading },
            ) == DisableNextModel::Exit((0i32, "ok"@))
        }),
{
    lemma_first_exact(observation.controllers, identity, i);
    what_counts_as_safely_bound(observation.controllers[i], identity, observation);
    let function = observation.controllers[i].function->0;
    what_the_steps_do(function, function.driver->0);
}

/// A disable ends without touching the kernel where a removal is under way, the
/// controller is not there or not safely bound, or its record is not confirmed.
pub proof fn what_is_not_disabled(
    identity: IdentityModel,
    observation: ObservationModel,
    i: int,
    function: FunctionModel,
    list: Seq<IdentityModel>,
    error: Seq<char>,
)
    ensures
        disable_step(identity, DisableEventModel::GateRead(Ok(true))) == DisableNextModel::Exit(
            (5i32, "controller disable is blocked while package removal is in progress"@),
        ),
        disable_step(identity, DisableEventModel::GateRead(Err(error))) == DisableNextModel::Exit(
            (5i32, error),
        ),
        (forall|j: int|
            0 <= j < observation.controllers.len() ==> (
            #[trigger] observation.controllers[j]).identity != identity) ==> disable_step(
            identity,
            DisableEventModel::Observed(observation),
        ) == DisableNextModel::Exit(
            (
                3i32,
                "fresh Linux input enumeration did not match the requested controller identity"@,
            ),
        ),
        first_controller(observation.controllers, identity, i) && !safely_bound(
            observation.controllers[i],
            identity,
            observation,
        ) ==> (disable_step(identity, DisableEventModel::Observed(observation))
            matches DisableNextModel::Exit(end) && end.0 == 3),
        disable_step(
            identity,
            DisableEventModel::RecordAdded { function, result: Err(error) },
        ) == DisableNextModel::Exit(
            (5i32, "cannot durably record controller recovery intent: "@ + error),
        ),
        !list.contains(identity) ==> disable_step(
            identity,
            DisableEventModel::JournalRead { function, records: Ok(list) },
        ) == DisableNextModel::Exit(
            (
                5i32,
                "durable controller recovery intent was not confirmed; no kernel mutation performed"@,
            ),
        ),
{
    if forall|j: int|
        0 <= j < observation.controllers.len() ==> (#[trigger] observation.controllers[j]).identity
            != identity {
        crate::linux_laws::lemma_none_exact(observation.controllers, identity);
    }
    if first_controller(observation.controllers, identity, i) {
        lemma_first_exact(observation.controllers, identity, i);
        what_counts_as_safely_bound(observation.controllers[i], identity, observation);
    }
}

/// As long as the function is still bound it is looked at again, twenty times in
/// all; then the helper fails, and the record stays.
pub proof fn an_unconfirmed_disable_fails(
    identity: IdentityModel,
    attempts: usize,
    reading: UnboundModel,
)
    requires
        unbound_function(identity, reading) matches Ok(f) ==> f.driver is Some,
    ensures
        attempts > 1 ==> disable_step(
            identity,
            DisableEventModel::Polled { attempts_left: attempts, reading },
        ) == (DisableNextModel::Poll { attempts_left: (attempts - 1) as usize }),
        attempts <= 1 ==> (disable_step(
            identity,
            DisableEventModel::Polled { attempts_left: attempts, reading },
        ) matches DisableNextModel::Exit(end) && end.0 == 5),
{
}

// Recovering.
/// An unbound controller that may be put back: the one on record, alone, and
/// expecting the driver on record.
pub open spec fn safely_unbound(controller: ControllerModel, identity: IdentityModel) -> bool {
    &&& controller.identity == identity
    &&& !controller.mixed_unrelated
    &&& controller.function matches Some(function) && function.driver is None && (
    function.expected_driver matches Some(driver) && recorded_function(function, identity, driver))
}

/// A recovery of an unbound function runs its course: nothing live has the
/// identity, the function is read by its name and given to its driver, the
/// controller is awaited and looked at once more, its record is removed, and the
/// recovery ends well.
pub proof fn an_unbound_function_is_recovered(
    identity: IdentityModel,
    first: ObservationModel,
    reading: UnboundModel,
    controller: ControllerModel,
    attempts: usize,
    later: ObservationModel,
    i: int,
)
    requires
        forall|j: int|
            0 <= j < first.controllers.len() ==> (#[trigger] first.controllers[j]).identity.stable_id
                != identity.stable_id,
        unbound_controller(identity, reading) == Ok::<ControllerModel, Seq<char>>(controller),
        safely_unbound(controller, identity),
        first_controller(later.controllers, identity, i),
        safely_bound(later.controllers[i], identity, later),
    ensures
        ({
            let function = controller.function->0;
            let driver = function.expected_driver->0;
            &&& recovery_step(
                identity,
                EventModel::Observed { clear_gone: false, observation: first },
            ) == NextModel::ReadUnbound
            &&& recovery_step(identity, EventModel::UnboundRead(reading)) == (NextModel::Bind {
                step: if function.bus == FunctionBus::Usb && driver == "xpad"@ {
                    StepModel::Authorize { enabled: true }
                } else {
                    StepModel::Write { driver, operation: Operation::Bind }
                },
                function,
            })
            &&& recovery_step(identity, EventModel::BindTried(Ok(()))) == (NextModel::Await {
                attempts_left: 20,
            })
            &&& recovery_step(
                identity,
                EventModel::Awaited { attempts_left: attempts, observation: later },
            ) == NextModel::Confirm
            &&& recovery_step(identity, EventModel::Confirmed(later)) == (NextModel::RemoveRecord {
                gone: false,
            })
            &&& recovery_step(
                identity,
                EventModel::RecordRemoved { gone: false, result: Ok(()) },
            ) == NextModel::Done(Ok(()))
        }),
{
    lemma_buses_differ();
    assert forall|j: int| 0 <= j < first.controllers.len() implies (
    #[trigger] first.controllers[j]).identity != identity by {
        assert(first.controllers[j].identity.stable_id != identity.stable_id);
    }
    crate::linux_laws::lemma_none_exact(first.controllers, identity);
    lemma_first_exact(later.controllers, identity, i);
    what_counts_as_safely_bound(later.controllers[i], identity, later);
    let function = controller.function->0;
    lemma_drivers_are_texts(function.expected_driver->0);
    what_the_steps_do(function, function.expected_driver->0);
}

/// A controller that is safely bound already only loses its record.
pub proof fn a_bound_controller_is_recovered(
    identity: IdentityModel,
    observation: ObservationModel,
    i: int,
    clear_gone: bool,
)
    requires
        first_controller(observation.controllers, identity, i),
        safely_bound(observation.controllers[i], identity, observation),
    ensures
        recovery_step(identity, EventModel::Observed { clear_gone, observation }) == (
        NextModel::RemoveRecord { gone: false }),
{
    lemma_first_exact(observation.controllers, identity, i);
    what_counts_as_safely_bound(observation.controllers[i], identity, observation);
}

/// Where a record of a vanished function may be cleared, it is probed whether
/// anything is left of it; if nothing is, the record goes, and only then.
pub proof fn a_gone_function_loses_its_record(
    identity: IdentityModel,
    observation: ObservationModel,
    paths: Seq<Seq<char>>,
    missing: Seq<bool>,
)
    requires
        forall|j: int|
            0 <= j < observation.controllers.len() ==> (
            #[trigger] observation.controllers[j]).identity.stable_id != identity.stable_id,
        gone_paths(identity) == Some(paths),
        missing.len() == paths.len(),
    ensures
        recovery_step(identity, EventModel::Observed { clear_gone: true, observation }) == (
        NextModel::ProbeGone { stable_mismatch: false }),
        (forall|k: int| 0 <= k < missing.len() ==> #[trigger] missing[k]) ==> recovery_step(
            identity,
            EventModel::Probed { stable_mismatch: false, missing },
        ) == (NextModel::RemoveRecord { gone: true }),
        (exists|k: int| 0 <= k < missing.len() && !#[trigger] missing[k]) ==> recovery_step(
            identity,
            EventModel::Probed { stable_mismatch: false, missing },
        ) == NextModel::ReadUnbound,
        recovery_step(identity, EventModel::RecordRemoved { gone: true, result: Ok(()) })
            == NextModel::Done(Ok(())),
{
    assert forall|j: int| 0 <= j < observation.controllers.len() implies (
    #[trigger] observation.controllers[j]).identity != identity by {
        assert(observation.controllers[j].identity.stable_id != identity.stable_id);
    }
    crate::linux_laws::lemma_none_exact(observation.controllers, identity);
}

/// A controller that is not there yet is awaited, twenty times in all; then the
/// recovery fails.
pub proof fn an_absent_controller_is_awaited(
    identity: IdentityModel,
    observation: ObservationModel,
    attempts: usize,
)
    requires
        forall|j: int|
            0 <= j < observation.controllers.len() ==> (
            #[trigger] observation.controllers[j]).identity.stable_id != identity.stable_id,
    ensures
        attempts > 1 ==> recovery_step(
            identity,
            EventModel::Awaited { attempts_left: attempts, observation },
        ) == (NextModel::Await { attempts_left: (attempts - 1) as usize }),
        attempts <= 1 ==> (recovery_step(
            identity,
            EventModel::Awaited { attempts_left: attempts, observation },
        ) matches NextModel::Done(r) && r is Err),
{
    assert forall|j: int| 0 <= j < observation.controllers.len() implies (
    #[trigger] observation.controllers[j]).identity != identity by {
        assert(observation.controllers[j].identity.stable_id != identity.stable_id);
    }
    crate::linux_laws::lemma_none_exact(observation.controllers, identity);
}

// Enabling.
/// An enable recovers the record of the journal under the stable identifier;
/// without one, a controller that is safely bound counts as enabled.
pub proof fn an_enable_runs_its_course(
    requested: IdentityModel,
    list: Seq<IdentityModel>,
    k: int,
    observation: ObservationModel,
    i: int,
    error: Seq<char>,
)
    ensures
        0 <= k < list.len() && list[k].stable_id == requested.stable_id && (forall|j: int|
            0 <= j < k ==> (#[trigger] list[j]).stable_id != requested.stable_id) ==> enable_step(
            requested,
            EnableEventModel::JournalRead(Ok(list)),
        ) == EnableNextModel::Recover(list[k]),
        (forall|j: int|
            0 <= j < list.len() ==> (#[trigger] list[j]).stable_id != requested.stable_id)
            && identity_check(requested) is Ok ==> enable_step(
            requested,
            EnableEventModel::JournalRead(Ok(list)),
        ) == EnableNextModel::Observe,
        enable_step(requested, EnableEventModel::Recovered(Ok(()))) == EnableNextModel::Exit(
            (0i32, "ok"@),
        ),
        enable_step(requested, EnableEventModel::Recovered(Err(error))) == EnableNextModel::Exit(
            (5i32, error),
        ),
        first_controller(observation.controllers, requested, i) && safely_bound(
            observation.controllers[i],
            requested,
            observation,
        ) ==> enable_step(requested, EnableEventModel::Observed(observation))
            == EnableNextModel::Exit((0i32, "ok"@)),
        first_controller(observation.controllers, requested, i) && !safely_bound(
            observation.controllers[i],
            requested,
            observation,
        ) ==> (enable_step(requested, EnableEventModel::Observed(observation))
            matches EnableNextModel::Exit(end) && end.0 == 3),
{
    if 0 <= k < list.len() && list[k].stable_id == requested.stable_id && (forall|j: int|
        0 <= j < k ==> (#[trigger] list[j]).stable_id != requested.stable_id) {
        lemma_found_at(list, requested.stable_id, k);
    }
    if forall|j: int|
        0 <= j < list.len() ==> (#[trigger] list[j]).stable_id != requested.stable_id {
        lemma_not_found(list, requested.stable_id);
    }
    if first_controller(observation.controllers, requested, i) {
        lemma_first_exact(observation.controllers, requested, i);
        what_counts_as_safely_bound(observation.controllers[i], requested, observation);
    }
}

proof fn lemma_found_at(list: Seq<IdentityModel>, id: Seq<char>, k: int)
    requires
        0 <= k < list.len(),
        list[k].stable_id == id,
        forall|j: int| 0 <= j < k ==> (#[trigger] list[j]).stable_id != id,
    ensures
        found(list, id) == Some(list[k]),
    decreases list.len(),
{
    if k > 0 {
        let rest = list.drop_first();
        assert(list[0].stable_id != id);
        assert forall|j: int| 0 <= j < k - 1 implies (#[trigger] rest[j]).stable_id != id by {
            assert(rest[j] == list[j + 1]);
        }
        lemma_found_at(rest, id, k - 1);
    }
}

proof fn lemma_not_found(list: Seq<IdentityModel>, id: Seq<char>)
    requires
        forall|j: int| 0 <= j < list.len() ==> (#[trigger] list[j]).stable_id != id,
    ensures
        found(list, id) is None,
    decreases list.len(),
{
    if list.len() > 0 {
        let rest = list.drop_first();
        assert(list[0].stable_id != id);
        assert forall|j: int| 0 <= j < rest.len() implies (#[trigger] rest[j]).stable_id != id by {
            assert(rest[j] == list[j + 1]);
        }
        lemma_not_found(rest, id);
    }
}

/// A restore of the journal recovers its records one after the other and ends
/// well behind the last; the first failure ends it, under the identifier of its
/// record.
pub proof fn a_restore_goes_through_the_journal(
    list: Seq<IdentityModel>,
    n: int,
    error: Seq<char>,
)
    requires
        0 <= n <= list.len(),
    ensures
        n < list.len() ==> restore_step(Ok(list), n, Ok(())) == RestoreNextModel::Recover(n),
        n == list.len() ==> restore_step(Ok(list), n, Ok(())) == RestoreNextModel::Exit(
            (0i32, "ok"@),
        ),
        n > 0 ==> restore_step(Ok(list), n, Err(error)) == RestoreNextModel::Exit(
            (5i32, list[n - 1].stable_id + ": "@ + error),
        ),
        restore_step(Err(error), n, Ok(())) == RestoreNextModel::Exit((5i32, error)),
{
}

// The journal.
/// An acceptable identity is added behind the records of a readable journal; one
/// that stands there already changes nothing, and another one under the same
/// identifier is a conflict.
pub proof fn an_identity_is_added_to_the_journal(
    contents: Seq<char>,
    records: Seq<IdentityModel>,
    identity: IdentityModel,
)
    requires
        journal_records(contents) == Ok::<Seq<IdentityModel>, Seq<char>>(records),
        identity_check(identity) is Ok,
    ensures
        !holds(records, identity.stable_id) ==> journal_added(contents, identity) == Ok::<
            Option<Seq<char>>,
            Seq<char>,
        >(
            Some(
                journal_text(records) + identity.stable_id + "\t"@ + identity.instance_id + "\t"@
                    + identity.fingerprint + "\n"@,
            ),
        ),
        records.contains(identity) ==> journal_added(contents, identity) == Ok::<
            Option<Seq<char>>,
            Seq<char>,
        >(None),
        holds(records, identity.stable_id) && !records.contains(identity) ==> journal_added(
            contents,
            identity,
        ) == Err::<Option<Seq<char>>, Seq<char>>("Linux recovery journal identity conflict"@),
{
    records_read_are_ok(contents);
    if holds(records, identity.stable_id) {
        lemma_held(records, identity);
    } else {
        lemma_not_held(records, identity);
    }
}

proof fn lemma_held(records: Seq<IdentityModel>, identity: IdentityModel)
    requires
        holds(records, identity.stable_id),
        forall|i: int, j: int|
            0 <= i < j < records.len() ==> (#[trigger] records[i]).stable_id != (
            #[trigger] records[j]).stable_id,
    ensures
        found(records, identity.stable_id) matches Some(known) && (records.contains(identity)
            <==> known == identity),
{
    let id = identity.stable_id;
    let k = choose|k: int| 0 <= k < records.len() && (#[trigger] records[k]).stable_id == id;
    assert forall|j: int| 0 <= j < k implies (#[trigger] records[j]).stable_id != id by {
        assert(records[j].stable_id != records[k].stable_id);
    }
    lemma_found_at(records, id, k);
    if records.contains(identity) {
        let m = choose|m: int| 0 <= m < records.len() && records[m] == identity;
        if m < k {
            assert(records[m].stable_id != records[k].stable_id);
        } else if k < m {
            assert(records[k].stable_id != records[m].stable_id);
        }
    }
}

proof fn lemma_not_held(records: Seq<IdentityModel>, identity: IdentityModel)
    requires
        !holds(records, identity.stable_id),
        identity_check(identity) is Ok,
        forall|i: int| 0 <= i < records.len() ==> identity_check(#[trigger] records[i]) is Ok,
    ensures
        found(records, identity.stable_id) is None,
        !records.contains(identity),
        written(records.push(identity)) == Ok::<Seq<char>, Seq<char>>(
            journal_text(records) + identity.stable_id + "\t"@ + identity.instance_id + "\t"@
                + identity.fingerprint + "\n"@,
        ),
{
    lemma_not_found(records, identity.stable_id);
    let all = records.push(identity);
    assert forall|i: int| 0 <= i < all.len() implies identity_check(#[trigger] all[i]) is Ok by {
        if i < records.len() {
            assert(all[i] == records[i]);
        }
    }
    lemma_all_sound(all);
    lemma_journal_text(records, identity);
    if records.contains(identity) {
        let m = choose|m: int| 0 <= m < records.len() && records[m] == identity;
        assert(records[m].stable_id == identity.stable_id);
    }
}

proof fn lemma_journal_text(records: Seq<IdentityModel>, identity: IdentityModel)
    ensures
        journal_text(records.push(identity)) == journal_text(records) + identity.stable_id + "\t"@
            + identity.instance_id + "\t"@ + identity.fingerprint + "\n"@,
{
    let all = records.push(identity);
    assert(all.drop_last() =~= records);
    assert(all.last() == identity);
    assert(journal_text(all) =~= journal_text(records) + identity.stable_id + "\t"@
        + identity.instance_id + "\t"@ + identity.fingerprint + "\n"@);
}

proof fn lemma_all_sound(records: Seq<IdentityModel>)
    requires
        forall|i: int| 0 <= i < records.len() ==> identity_check(#[trigger] records[i]) is Ok,
    ensures
        written(records) == Ok::<Seq<char>, Seq<char>>(journal_text(records)),
{
    lemma_none_unsound(records);
}

proof fn lemma_none_unsound(records: Seq<IdentityModel>)
    requires
        forall|i: int| 0 <= i < records.len() ==> identity_check(#[trigger] records[i]) is Ok,
    ensures
        crate::journal::first_invalid(records) is None,
    decreases records.len(),
{
    if records.len() > 0 {
        let rest = records.drop_first();
        assert(identity_check(records[0]) is Ok);
        assert forall|i: int| 0 <= i < rest.len() implies identity_check(#[trigger] rest[i]) is Ok by {
            assert(rest[i] == records[i + 1]);
        }
        lemma_none_unsound(rest);
    }
}

/// An identity is removed from the journal by its stable identifier; one that is
/// not there changes nothing.
pub proof fn an_identity_is_removed_from_the_journal(
    contents: Seq<char>,
    records: Seq<IdentityModel>,
    identity: IdentityModel,
)
    requires
        journal_records(contents) == Ok::<Seq<IdentityModel>, Seq<char>>(records),
        identity_check(identity) is Ok,
    ensures
        !holds(records, identity.stable_id) ==> journal_removed(contents, identity) == Ok::<
            Option<Seq<char>>,
            Seq<char>,
        >(None),
        holds(records, identity.stable_id) ==> journal_removed(contents, identity) == Ok::<
            Option<Seq<char>>,
            Seq<char>,
        >(
            Some(
                journal_text(
                    records.filter(|r: IdentityModel| r.stable_id != identity.stable_id),
                ),
            ),
        ),
{
    records_read_are_ok(contents);
    lemma_without(records, identity.stable_id);
    lemma_all_sound(without(records, identity.stable_id));
}

proof fn lemma_without(records: Seq<IdentityModel>, id: Seq<char>)
    requires
        forall|i: int| 0 <= i < records.len() ==> identity_check(#[trigger] records[i]) is Ok,
    ensures
        without(records, id) == records.filter(|r: IdentityModel| r.stable_id != id),
        forall|i: int|
            0 <= i < without(records, id).len() ==> identity_check(
                #[trigger] without(records, id)[i],
            ) is Ok,
    decreases records.len(),
{
    reveal(Seq::filter);
    if records.len() > 0 {
        let head = records.drop_last();
        assert forall|i: int| 0 <= i < head.len() implies identity_check(#[trigger] head[i]) is Ok by {
            assert(head[i] == records[i]);
        }
        lemma_without(head, id);
        assert(records[records.len() - 1] == records.last());
    }
}

// The removal marker.
/// A marker as it is set: a regular file of root that root alone can read and
/// write.
pub open spec fn sound_marker(m: FileMetadata) -> bool {
    m.is_file && m.uid == 0 && m.mode & 0o777 == 0o600
}

/// Setting the marker runs its course: it is created or opened, it and its
/// directory go to disk, and then it is set.
pub proof fn a_marker_is_set(m: FileMetadata)
    requires
        sound_marker(m),
    ensures
        ensure_step(EnsureEvent::Exists) == EnsureNextModel::Open,
        ensure_step(EnsureEvent::Opened(Ok(m))) == EnsureNextModel::SyncFile,
        ensure_step(EnsureEvent::FileSynced(Ok(()))) == EnsureNextModel::SyncDirectory,
        ensure_step(EnsureEvent::DirectorySynced(Ok(()))) == EnsureNextModel::Done(Ok(())),
        gate_state(GateReading::Opened(Ok(m))) == Ok::<bool, Seq<char>>(true),
        gate_state(GateReading::Missing) == Ok::<bool, Seq<char>>(false),
{
    let mode = m.mode;
    assert(mode & 0o777 == 0o600 ==> mode & 0o022 == 0) by (bit_vector);
}

/// Clearing the marker runs its course: a sound one is removed, its removal goes
/// to disk, and then it is cleared; one that is missing is cleared already.
pub proof fn a_marker_is_cleared(m: FileMetadata)
    requires
        sound_marker(m),
    ensures
        clear_step(ClearEvent::Missing) == ClearNextModel::Done(Ok(())),
        clear_step(ClearEvent::Opened(Ok(m))) == ClearNextModel::Remove,
        clear_step(ClearEvent::Removed(Ok(()))) == ClearNextModel::SyncDirectory,
        clear_step(ClearEvent::DirectorySynced(Ok(()))) == ClearNextModel::Done(Ok(())),
{
    let mode = m.mode;
    assert(mode & 0o777 == 0o600 ==> mode & 0o022 == 0) by (bit_vector);
}

/// A marker that is not sound is neither taken for one nor removed.
pub proof fn an_unsound_marker_is_an_error(m: FileMetadata)
    requires
        !sound_marker(m),
    ensures
        ensure_step(EnsureEvent::Opened(Ok(m))) matches EnsureNextModel::Done(r) && r is Err,
        clear_step(ClearEvent::Opened(Ok(m))) matches ClearNextModel::Done(r) && r is Err,
        gate_state(GateReading::Opened(Ok(m))) is Err,
{
}

// Requests.
/// What the helper is started for: as root it takes the three maintenance flags
/// from the package manager, and requests to disable an acceptable identity or
/// to enable one of a well-formed identifier.
pub proof fn what_the_helper_is_started_for(
    args: Seq<Seq<char>>,
    through_pkexec: bool,
    request: RequestModel,
)
    ensures
        mode_of(false, args, through_pkexec) is Err,
        mode_of(true, seq!["--prepare-removal"@], false) == Ok::<ModeModel, (i32, Seq<char>)>(
            ModeModel::PrepareRemoval,
        ),
        mode_of(true, seq!["--clear-removal-gate"@], false) == Ok::<ModeModel, (i32, Seq<char>)>(
            ModeModel::ClearRemovalGate,
        ),
        mode_of(true, seq!["--restore-journal"@], false) == Ok::<ModeModel, (i32, Seq<char>)>(
            ModeModel::RestoreJournal,
        ),
        args.len() > 1 && parsed_request(args) == Ok::<RequestModel, Seq<char>>(request) ==> {
            let identity = IdentityModel {
                platform: request.platform,
                stable_id: request.stable_id,
                instance_id: request.instance_id,
                fingerprint: request.fingerprint,
            };
            &&& request.action == "disable"@ && identity_check(identity) is Ok ==> mode_of(
                true,
                args,
                through_pkexec,
            ) == Ok::<ModeModel, (i32, Seq<char>)>(ModeModel::Disable(identity))
            &&& request.action == "enable"@ && request.platform == "linux"@ && token(
                request.stable_id,
                "linux-controller-"@,
            ) ==> mode_of(true, args, through_pkexec) == Ok::<ModeModel, (i32, Seq<char>)>(
                ModeModel::Enable(identity),
            )
        },
{
    reveal_strlit("--prepare-removal");
    reveal_strlit("--clear-removal-gate");
    reveal_strlit("--restore-journal");
    reveal_strlit("enable");
    reveal_strlit("disable");
    assert("--prepare-removal"@.len() == 17);
    assert("--clear-removal-gate"@.len() == 20);
    assert("--restore-journal"@.len() == 17);
    assert("--prepare-removal"@[2] == 'p');
    assert("--restore-journal"@[2] == 'r');
    assert("enable"@.len() != "disable"@.len());
}

/// How the end of the helper is understood: success is success, a refused
/// authorization is told from a failure, and what it said is reported, its error
/// output first.
pub proof fn the_end_of_the_helper_is_understood(
    code: Option<i32>,
    status: Seq<char>,
    errors: Option<Seq<char>>,
    output: Option<Seq<char>>,
)
    ensures
        helper_answer(true, code, status, errors, output) is Ok,
        ({
            let said = if errors is Some {
                errors->0
            } else if output is Some {
                output->0
            } else {
                "helper exited with status "@ + status
            };
            helper_answer(false, code, status, errors, output) == Err::<(), ErrorModel>(
                if code == Some(126i32) || code == Some(127i32) {
                    ErrorModel::PermissionDenied(said)
                } else {
                    ErrorModel::OperationFailed(said)
                },
            )
        }),
{
}

/// The helper is called wherever it and the program that runs it are trusted,
/// with the action and the parts of the identity behind their flags.
pub proof fn a_trusted_helper_is_called(helper: Seq<char>, enabled: bool, identity: IdentityModel)
    ensures
        ({
            let action = if enabled {
                "enable"@
            } else {
                "disable"@
            };
            call_of(action, identity, Some(helper), true) matches Ok(args) && args.len() == 10
                && args[0] == helper && args[1] == "--"@ + action && args[2] == "--platform"@
                && args[3] == "linux"@ && args[4] == "--stable-id"@ && args[5] == identity.stable_id
                && args[6] == "--instance-id"@ && args[7] == identity.instance_id && args[8]
                == "--fingerprint"@ && args[9] == identity.fingerprint
        }),
        call_of("enable"@, identity, None, true) matches Err(e) && e is PermissionDenied,
        call_of("enable"@, identity, Some(helper), false) matches Err(e) && e is PermissionDenied,
{
}

// Resolving.
proof fn lemma_listed(devices: Seq<DeviceModel>, id: Seq<char>, i: int)
    requires
        crate::service_laws::first_device(devices, id, i),
    ensures
        listed_identity(devices, id) == devices[i].verified,
    decreases devices.len(),
{
    if i > 0 {
        let rest = devices.skip(1);
        assert(devices[0].id != id);
        assert forall|j: int| 0 <= j < i - 1 implies (#[trigger] rest[j]).id != id by {
            assert(rest[j] == devices[j + 1]);
        }
        assert(rest[i - 1] == devices[i]);
        lemma_listed(rest, id, i - 1);
    }
}

/// An identifier is resolved to the verified identity of the first device that
/// is listed under it, and a recovery to it where it is the one on record.
pub proof fn a_listed_device_is_resolved(
    id: Seq<char>,
    devices: Seq<DeviceModel>,
    i: int,
    identity: VerifiedModel,
    expected: VerifiedModel,
)
    requires
        crate::service_laws::first_device(devices, id, i),
        devices[i].verified == Some(identity),
    ensures
        token(id, "linux-controller-"@) ==> resolved(id, devices) == Ok::<
            VerifiedModel,
            ErrorModel,
        >(identity),
        id == expected.stable_id && expected.platform == "linux"@ && crate::linux::native_check(
            expected,
        ) is Ok && whole(expected) ==> (if identity == expected {
            recovery_lookup(id, expected, devices) == LookupModel::Resolved(expected)
        } else {
            recovery_lookup(id, expected, devices) is Failed
        }),
{
    lemma_listed(devices, id, i);
}

/// A recovery of an unbound function resolves to the identity on record where
/// the function shows it under full control; one that is certainly gone is
/// reported as gone, and one that cannot be read is left to the helper.
pub proof fn an_unbound_function_is_resolved(
    id: Seq<char>,
    expected: VerifiedModel,
    controller: ControllerModel,
    error: Seq<char>,
)
    requires
        whole(expected),
    ensures
        controller.can_full_control && device_of(
            controller,
            ControlCoverage::Full,
            false,
            true,
        ).verified == Some(expected) ==> recovery_probed(
            id,
            expected,
            Ok(controller),
            true,
            false,
        ) == Ok::<VerifiedModel, ErrorModel>(expected),
        recovery_probed(id, expected, Ok(controller), false, false) matches Err(e) && e
            is PermissionDenied,
        recovery_probed(id, expected, Err(error), true, true) == Err::<VerifiedModel, ErrorModel>(
            ErrorModel::RecoveryGone(
                id + ": no matching disabled HID/USB function or transport remains"@,
            ),
        ),
        recovery_probed(id, expected, Err(error), true, false) == Ok::<VerifiedModel, ErrorModel>(
            expected,
        ),
{
}

} // verus!
