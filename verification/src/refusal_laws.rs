//! When the privileged helper gives up, and what it says then.
use crate::discovery::unbound_controller;
use crate::fingerprint::{identity_check, FunctionModel, IdentityModel};
use crate::function::{gone_paths, UnboundModel};
use crate::helper::{gate_state, mode_of, parsed_request, GateReading, ModeModel};
use crate::journal::{holds, journal_added, journal_records, journal_removed, rows};
use crate::linux_laws::{first_controller, lemma_first_exact, lemma_none_exact};
use crate::recovery::{
    disable_step, enable_step, recovery_step, DisableEventModel, DisableNextModel,
    EnableEventModel, EnableNextModel, EventModel, NextModel, ObservationModel,
};
use crate::removal::{clear_step, ensure_step, ClearEvent, ClearNextModel, EnsureEvent, EnsureNextModel};
use crate::root_laws::{safely_bound, safely_unbound, what_counts_as_safely_bound};
use crate::text::{join, lines, split, split_inverts_join, utf8_len};
use vstd::prelude::*;

verus! {

/// The recovery ended with an error.
pub open spec fn gave_up(next: NextModel) -> bool {
    next matches NextModel::Done(result) && result is Err
}

/// No controller is the one on record, but one has its identifier.
pub open spec fn only_alike(observation: ObservationModel, identity: IdentityModel) -> bool {
    &&& forall|j: int|
        0 <= j < observation.controllers.len() ==> (#[trigger] observation.controllers[j]).identity
            != identity
    &&& exists|j: int|
        0 <= j < observation.controllers.len() && (
        #[trigger] observation.controllers[j]).identity.stable_id == identity.stable_id
}

/// No controller has the identifier.
pub open spec fn none_alike(observation: ObservationModel, identity: IdentityModel) -> bool {
    forall|j: int|
        0 <= j < observation.controllers.len() ==> (
        #[trigger] observation.controllers[j]).identity.stable_id != identity.stable_id
}

proof fn lemma_none_alike(observation: ObservationModel, identity: IdentityModel)
    requires
        none_alike(observation, identity),
    ensures
        crate::recovery::first_exact(observation.controllers, identity) is None,
        !crate::recovery::has_stable(observation.controllers, identity),
{
    assert forall|j: int| 0 <= j < observation.controllers.len() implies (
    #[trigger] observation.controllers[j]).identity != identity by {
        assert(observation.controllers[j].identity.stable_id != identity.stable_id);
    }
    lemma_none_exact(observation.controllers, identity);
}

/// A failed step ends a recovery, and the record stays.
pub proof fn a_failed_step_ends_the_recovery(
    identity: IdentityModel,
    reading: UnboundModel,
    error: Seq<char>,
    gone: bool,
)
    ensures
        recovery_step(identity, EventModel::BindTried(Err(error))) == NextModel::Done(
            Err(error + "; recovery journal retained"@),
        ),
        unbound_controller(identity, reading) == Err::<crate::input::ControllerModel, Seq<char>>(
            error,
        ) ==> recovery_step(identity, EventModel::UnboundRead(reading)) == NextModel::Done(
            Err(error + "; recovery journal retained"@),
        ),
        unbound_controller(identity, reading) matches Ok(c) ==> (!safely_unbound(c, identity)
            && c.identity == identity ==> gave_up(
            recovery_step(identity, EventModel::UnboundRead(reading)),
        )),
        gave_up(
            recovery_step(identity, EventModel::RecordRemoved { gone, result: Err(error) }),
        ),
{
    if let Ok(c) = unbound_controller(identity, reading) {
        reveal_strlit("hid");
        reveal_strlit("usb");
        assert("hid"@[0] == 'h');
        assert("usb"@[0] == 'u');
    }
}

/// Another controller under the same identifier ends a recovery, unless it may be
/// that the one on record is gone; then that is found out first.
pub proof fn another_controller_ends_the_recovery(
    identity: IdentityModel,
    observation: ObservationModel,
    attempts: usize,
    paths: Seq<Seq<char>>,
    missing: Seq<bool>,
)
    requires
        only_alike(observation, identity),
        gone_paths(identity) == Some(paths),
        missing.len() == paths.len(),
    ensures
        gave_up(
            recovery_step(identity, EventModel::Observed { clear_gone: false, observation }),
        ),
        recovery_step(identity, EventModel::Observed { clear_gone: true, observation }) == (
        NextModel::ProbeGone { stable_mismatch: true }),
        (exists|k: int| 0 <= k < missing.len() && !#[trigger] missing[k]) ==> gave_up(
            recovery_step(identity, EventModel::Probed { stable_mismatch: true, missing }),
        ),
        (forall|k: int| 0 <= k < missing.len() ==> #[trigger] missing[k]) ==> recovery_step(
            identity,
            EventModel::Probed { stable_mismatch: true, missing },
        ) == (NextModel::RemoveRecord { gone: true }),
        gave_up(
            recovery_step(
                identity,
                EventModel::Awaited { attempts_left: attempts, observation },
            ),
        ),
        gave_up(recovery_step(identity, EventModel::Confirmed(observation))),
{
    lemma_none_exact(observation.controllers, identity);
}

/// A controller that came back in doubt, or was gone at the last look, ends a
/// recovery with an error.
pub proof fn a_doubtful_controller_ends_the_recovery(
    identity: IdentityModel,
    observation: ObservationModel,
    i: int,
    attempts: usize,
)
    ensures
        first_controller(observation.controllers, identity, i) && !safely_bound(
            observation.controllers[i],
            identity,
            observation,
        ) ==> gave_up(
            recovery_step(
                identity,
                EventModel::Awaited { attempts_left: attempts, observation },
            ),
        ) && gave_up(recovery_step(identity, EventModel::Confirmed(observation))),
        none_alike(observation, identity) ==> gave_up(
            recovery_step(identity, EventModel::Confirmed(observation)),
        ),
{
    if first_controller(observation.controllers, identity, i) {
        lemma_first_exact(observation.controllers, identity, i);
        what_counts_as_safely_bound(observation.controllers[i], identity, observation);
    }
    if none_alike(observation, identity) {
        lemma_none_alike(observation, identity);
    }
}

/// A disable whose record cannot be read back, or whose function cannot be taken
/// off its driver, ends with an error; another controller under the identifier is
/// not disabled.
pub proof fn a_failed_step_ends_the_disable(
    identity: IdentityModel,
    function: FunctionModel,
    observation: ObservationModel,
    list: Seq<IdentityModel>,
    error: Seq<char>,
)
    ensures
        disable_step(
            identity,
            DisableEventModel::JournalRead { function, records: Err(error) },
        ) == DisableNextModel::Exit(
            (5i32, "cannot confirm controller recovery intent: "@ + error),
        ),
        disable_step(identity, DisableEventModel::UnbindTried(Err(error)))
            == DisableNextModel::Exit(
            (4i32, "controller unbind failed; recovery journal retained: "@ + error),
        ),
        list.contains(identity) && function.driver is None ==> (disable_step(
            identity,
            DisableEventModel::JournalRead { function, records: Ok(list) },
        ) matches DisableNextModel::Exit(end) && end.0 == 4),
        only_alike(observation, identity) ==> (disable_step(
            identity,
            DisableEventModel::Observed(observation),
        ) matches DisableNextModel::Exit(end) && end.0 == 3),
{
    if only_alike(observation, identity) {
        lemma_none_exact(observation.controllers, identity);
    }
}

/// An enable without a readable journal, or of a controller that neither the
/// journal nor the machine knows, ends with an error.
pub proof fn what_is_not_enabled(
    requested: IdentityModel,
    list: Seq<IdentityModel>,
    observation: ObservationModel,
    error: Seq<char>,
)
    ensures
        enable_step(requested, EnableEventModel::JournalRead(Err(error))) == EnableNextModel::Exit(
            (5i32, error),
        ),
        crate::journal::found(list, requested.stable_id) is None && identity_check(requested)
            is Err ==> (enable_step(requested, EnableEventModel::JournalRead(Ok(list)))
            matches EnableNextModel::Exit(end) && end.0 == 3),
        none_alike(observation, requested) || only_alike(observation, requested) ==> enable_step(
            requested,
            EnableEventModel::Observed(observation),
        ) == EnableNextModel::Exit(
            (3i32, "controller identity is not present in the root recovery journal"@),
        ),
{
    if none_alike(observation, requested) {
        lemma_none_alike(observation, requested);
    }
    if only_alike(observation, requested) {
        lemma_none_exact(observation.controllers, requested);
    }
}

// The removal marker.
/// A failure while the marker is set or cleared is an error; where its removal may
/// not have reached the disk it is set again, and disables stay blocked.
pub proof fn a_failed_marker_is_an_error(error: String, result: Result<(), String>)
    ensures
        ensure_step(EnsureEvent::NotCreated(error)) matches EnsureNextModel::Done(r) && r is Err,
        ensure_step(EnsureEvent::NotOpened(error)) matches EnsureNextModel::Done(r) && r is Err,
        ensure_step(EnsureEvent::FileSynced(Err(error))) matches EnsureNextModel::Done(r) && r
            is Err,
        ensure_step(EnsureEvent::DirectorySynced(Err(error))) == EnsureNextModel::Done(
            Err(error@),
        ),
        clear_step(ClearEvent::NotOpened(error)) matches ClearNextModel::Done(r) && r is Err,
        clear_step(ClearEvent::Removed(Err(error))) matches ClearNextModel::Done(r) && r is Err,
        clear_step(ClearEvent::DirectorySynced(Err(error))) == (ClearNextModel::Ensure {
            error: error@,
        }),
        clear_step(ClearEvent::Ensured { error, result }) matches ClearNextModel::Done(r) && r
            is Err,
        gate_state(GateReading::Failed(error)) is Err,
        gate_state(GateReading::Opened(Err(error))) is Err,
{
}

// Requests.
/// What the helper refuses: anyone but root, maintenance on behalf of a user, and
/// requests that are malformed or about an identity that is not acceptable.
pub proof fn what_the_helper_refuses(args: Seq<Seq<char>>, through_pkexec: bool, error: Seq<char>)
    ensures
        mode_of(false, args, through_pkexec) == Err::<ModeModel, (i32, Seq<char>)>(
            (4i32, "the Linux input helper must run as root through polkit"@),
        ),
        mode_of(true, seq!["--prepare-removal"@], true) matches Err(end) && end.0 == 4,
        mode_of(true, seq!["--clear-removal-gate"@], true) matches Err(end) && end.0 == 4,
        mode_of(true, seq!["--restore-journal"@], true) matches Err(end) && end.0 == 4,
        args.len() > 1 && parsed_request(args) == Err::<crate::helper::RequestModel, Seq<char>>(
            error,
        ) ==> mode_of(true, args, through_pkexec) == Err::<ModeModel, (i32, Seq<char>)>(
            (2i32, error),
        ),
        args.len() > 1 && (parsed_request(args) matches Ok(request) && request.action
            == "disable"@ && identity_check(
            IdentityModel {
                platform: request.platform,
                stable_id: request.stable_id,
                instance_id: request.instance_id,
                fingerprint: request.fingerprint,
            },
        ) is Err) ==> (mode_of(true, args, through_pkexec) matches Err(end) && end.0 == 2),
{
    reveal_strlit("enable");
    reveal_strlit("disable");
    assert("enable"@.len() != "disable"@.len());
}

// The journal.
/// A journal is read row by row: a row of three fields that make an acceptable
/// identity is taken up unless its identifier came before.
pub proof fn a_journal_is_read_row_by_row(
    list: Seq<Seq<char>>,
    records: Seq<IdentityModel>,
    identity: IdentityModel,
)
    requires
        rows(list) == Ok::<Seq<IdentityModel>, Seq<char>>(records),
        identity.platform == "linux"@,
        !identity.stable_id.contains('\t'),
        !identity.instance_id.contains('\t'),
        !identity.fingerprint.contains('\t'),
    ensures
        ({
            let row = identity.stable_id + seq!['\t'] + identity.instance_id + seq!['\t']
                + identity.fingerprint;
            &&& identity_check(identity) is Ok && !holds(records, identity.stable_id) ==> rows(
                list.push(row),
            ) == Ok::<Seq<IdentityModel>, Seq<char>>(records.push(identity))
            &&& holds(records, identity.stable_id) ==> rows(list.push(row)) is Err
            &&& identity_check(identity) is Err ==> rows(list.push(row)) is Err
        }),
{
    let row = identity.stable_id + seq!['\t'] + identity.instance_id + seq!['\t']
        + identity.fingerprint;
    let parts = seq![identity.stable_id, identity.instance_id, identity.fingerprint];
    reveal_with_fuel(join, 4);
    assert(parts.drop_last() =~= seq![identity.stable_id, identity.instance_id]);
    assert(parts.drop_last().drop_last() =~= seq![identity.stable_id]);
    assert(join(parts, seq!['\t']) =~= row);
    split_inverts_join(parts, '\t');
    assert(list.push(row).drop_last() =~= list);
    assert(list.push(row).last() == row);
}

/// A journal with a row that has not three fields, or one beyond its bound, is
/// refused as a whole, and nothing is added to it or removed from it.
pub proof fn a_broken_journal_is_refused(
    contents: Seq<char>,
    identity: IdentityModel,
    list: Seq<Seq<char>>,
    row: Seq<char>,
)
    ensures
        utf8_len(contents) > 1048576 ==> journal_records(contents) is Err,
        utf8_len(contents) <= 1048576 ==> journal_records(contents) == rows(lines(contents)),
        split(row, '\t').len() != 3 ==> rows(list.push(row)) is Err,
        rows(list) is Err ==> rows(list.push(row)) is Err,
        journal_records(contents) is Err ==> journal_added(contents, identity) is Err
            && journal_removed(contents, identity) is Err,
        identity_check(identity) is Err ==> journal_added(contents, identity) is Err
            && journal_removed(contents, identity) is Err,
        rows(Seq::empty()) == Ok::<Seq<IdentityModel>, Seq<char>>(Seq::empty()),
{
    assert(list.push(row).drop_last() =~= list);
    assert(list.push(row).last() == row);
}

} // verus!
