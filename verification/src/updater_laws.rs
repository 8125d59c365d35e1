//! What an update comes to, from a check to the end of its installation.
use crate::text::{trimmed, utf8_len};
use crate::updater::{
    artifact_check, bounded, check_answer, checked, config_check, failure_text, fitting,
    install_begun, install_course, CheckOutcome, DownloadOutcome, ErrorPhase, InstallEvent,
    InstallNextModel, PendingModel, PendingUpdate, PluginError, Progress, RuntimeModel, StageModel,
    UpdateModel, UpdateStatus, UpdaterConfig,
};
use vstd::prelude::*;

verus! {

// What is accepted.
/// An update that may be fetched and installed: it comes over HTTPS and has a
/// signature of a sensible size.
pub open spec fn fit(update: PendingModel) -> bool {
    update.scheme == "https"@ && trimmed(update.signature).len() > 0 && utf8_len(update.signature)
        <= 16384
}

/// Exactly the fit updates are accepted.
pub proof fn fit_updates_are_accepted(update: PendingModel)
    ensures
        artifact_check(update) is Ok <==> fit(update),
        update.scheme != "https"@ ==> artifact_check(update) == Err::<(), Seq<char>>(
            "Update artifact URL is not HTTPS; refusing to download it"@,
        ),
{
}

/// A build is configured for updates exactly where it names the one place that
/// they come from and has a key of a sensible size.
pub proof fn what_a_build_needs_for_updates(config: UpdaterConfig)
    ensures
        config_check(None) is Err,
        config_check(Some(config)) is Ok <==> {
            &&& config.endpoints matches Some(list) && list@.len() == 1 && (list@[0] matches Some(
                endpoint,
            ) && endpoint@
                == "https://github.com/wakemeup0/controwly/releases/latest/download/latest.json"@)
            &&& config.pubkey matches Some(key) && trimmed(key@).len() > 0 && utf8_len(key@)
                <= 16384
        },
{
}

// Texts.
/// A text within its bound is shown as it is.
pub proof fn a_short_text_is_shown_whole(s: Seq<char>, max_bytes: nat)
    requires
        utf8_len(s) <= max_bytes,
    ensures
        bounded(s, max_bytes) == s,
{
}

/// A longer one is cut as late as its bound allows, and three dots follow.
pub proof fn a_long_text_is_cut(s: Seq<char>, max_bytes: nat)
    requires
        utf8_len(s) > max_bytes >= 3,
    ensures
        exists|k: int|
            0 <= k < s.len() && bounded(s, max_bytes) == #[trigger] s.take(k) + "..."@ && utf8_len(
                s.take(k),
            ) <= max_bytes - 3 && utf8_len(s.take(k + 1)) > max_bytes - 3,
{
    let k = lemma_cut(s, (max_bytes - 3) as nat);
    assert(bounded(s, max_bytes) == s.take(k) + "..."@);
}

proof fn lemma_cut(s: Seq<char>, max_bytes: nat) -> (k: int)
    requires
        utf8_len(s) > max_bytes,
    ensures
        0 <= k < s.len(),
        fitting(s, max_bytes) == s.take(k),
        utf8_len(s.take(k)) <= max_bytes,
        utf8_len(s.take(k + 1)) > max_bytes,
    decreases s.len(),
{
    if s.len() == 0 {
        reveal_with_fuel(vstd::utf8::encode_utf8, 2);
        assert(utf8_len(s) == 0);
    }
    reveal_with_fuel(fitting, 2);
    let head = s.drop_last();
    assert(head =~= s.take(s.len() - 1));
    assert(s.take(s.len() as int) =~= s);
    if utf8_len(head) <= max_bytes {
        s.len() - 1
    } else {
        let k = lemma_cut(head, max_bytes);
        assert(head.take(k) =~= s.take(k));
        assert(head.take(k + 1) =~= s.take(k + 1));
        k
    }
}

/// What a failure says: what concerns the whole release sounds the same in every
/// phase, a broken package is a failed installation once the check is over, and
/// a release that a check does not find counts as a service out of reach.
pub proof fn what_a_failure_says(phase: ErrorPhase)
    ensures
        failure_text(phase, PluginError::Signature)
            == "Update signature verification failed; the package was not installed. Contact the release maintainer."@,
        failure_text(phase, PluginError::InsecureTransport)
            == "Update configuration rejected: the updater endpoint must use HTTPS."@,
        failure_text(phase, PluginError::Network)
            == "Update service is unavailable or offline. Check the connection and try again."@,
        failure_text(phase, PluginError::Metadata)
            == "Update metadata is invalid or has no signed artifact for this platform. Contact the release maintainer."@,
        failure_text(phase, PluginError::NotConfigured)
            == "Updater is not configured for this build or platform. Use a signed release build."@,
        failure_text(ErrorPhase::Check, PluginError::ReleaseNotFound) == failure_text(
            phase,
            PluginError::Network,
        ),
        phase != ErrorPhase::Check ==> failure_text(phase, PluginError::ReleaseNotFound)
            == failure_text(phase, PluginError::Other),
        phase != ErrorPhase::Check ==> failure_text(phase, PluginError::Package) == failure_text(
            ErrorPhase::Install,
            PluginError::Other,
        ),
        failure_text(ErrorPhase::Check, PluginError::Package) == failure_text(
            ErrorPhase::Check,
            PluginError::Other,
        ),
        failure_text(ErrorPhase::Check, PluginError::Other)
            == "Update check failed. Check the connection and try again."@,
        failure_text(ErrorPhase::Download, PluginError::Other)
            == "Update download failed; the current version was kept. Check the connection and try again."@,
        failure_text(ErrorPhase::Install, PluginError::Other)
            == "Update installation failed; the current version was kept. Try again later or contact support."@,
{
}

// Checks.
/// A failure is shown within its bound and leaves nothing to install.
pub open spec fn shows_failure(after: RuntimeModel, message: Seq<char>) -> bool {
    &&& after.pending is None
    &&& after.state == UpdateModel {
        status: UpdateStatus::Error,
        version: None,
        downloaded: 0,
        total: None,
        error: Some(bounded(message, 512)),
    }
}

/// A check that found a fit update offers it under its version; one that found
/// none says so; all else is an error.
pub proof fn what_a_check_shows(update: PendingUpdate, message: String, error: PluginError)
    ensures
        fit(update@) ==> checked(CheckOutcome::Found(update)) == (RuntimeModel {
            state: UpdateModel {
                status: UpdateStatus::Available,
                version: Some(bounded(update@.version, 512)),
                downloaded: 0,
                total: None,
                error: None,
            },
            pending: Some(update@),
        }),
        !fit(update@) ==> checked(CheckOutcome::Found(update)).state.status == UpdateStatus::Error
            && checked(CheckOutcome::Found(update)).pending is None,
        checked(CheckOutcome::Current) == (RuntimeModel {
            state: UpdateModel {
                status: UpdateStatus::Current,
                version: None,
                downloaded: 0,
                total: None,
                error: None,
            },
            pending: None,
        }),
        shows_failure(checked(CheckOutcome::Refused(message)), message@),
        shows_failure(
            checked(CheckOutcome::Failed(error)),
            failure_text(ErrorPhase::Check, error),
        ),
{
    fit_updates_are_accepted(update@);
}

/// A check answers with the shown state unless that is an error.
pub proof fn a_check_answers_with_its_state(after: RuntimeModel, message: Seq<char>)
    ensures
        after.state.error is None ==> check_answer(after) == Ok::<UpdateModel, Seq<char>>(
            after.state,
        ),
        shows_failure(after, message) ==> check_answer(after) == Err::<UpdateModel, Seq<char>>(
            bounded(message, 512),
        ),
{
}

// Installations.
/// An update stands ready: it was offered and is fit.
pub open spec fn ready(before: RuntimeModel) -> bool {
    before.state.status == UpdateStatus::Available && (before.pending matches Some(update) && fit(
        update,
    ))
}

/// A request and the pieces that were fetched after it.
pub open spec fn pieces(events: Seq<InstallEvent>) -> bool {
    &&& events.len() > 0
    &&& events[0] is Requested
    &&& forall|i: int| 0 < i < events.len() ==> (#[trigger] events[i]) is Fetched
}

/// The length of all pieces.
pub open spec fn length_of(events: Seq<InstallEvent>) -> nat
    decreases events.len(),
{
    if events.len() == 0 {
        0
    } else {
        length_of(events.drop_last()) + (match events.last() {
            InstallEvent::Fetched { length, .. } => length as nat,
            _ => 0,
        })
    }
}

/// The length that was announced last.
pub open spec fn announced(events: Seq<InstallEvent>) -> Option<u64>
    decreases events.len(),
{
    if events.len() == 0 {
        None
    } else {
        match events.last() {
            InstallEvent::Fetched { content_length: Some(n), .. } => Some(n),
            _ => announced(events.drop_last()),
        }
    }
}

/// What was fetched, as far as it can be counted.
pub open spec fn counted(events: Seq<InstallEvent>) -> u64 {
    if length_of(events) <= u64::MAX {
        length_of(events) as u64
    } else {
        u64::MAX
    }
}

/// The state of an installation that is under way.
pub open spec fn under_way(
    before: RuntimeModel,
    status: UpdateStatus,
    fetched: Seq<InstallEvent>,
) -> RuntimeModel {
    RuntimeModel {
        state: UpdateModel {
            status,
            version: Some(bounded(before.pending->0.version, 512)),
            downloaded: counted(fetched),
            total: announced(fetched),
            error: None,
        },
        pending: before.pending,
    }
}

/// Where an update stands ready a request starts the download, and what is shown
/// adds up the pieces.
pub proof fn fetched_pieces_add_up(before: RuntimeModel, events: Seq<InstallEvent>)
    requires
        ready(before),
        pieces(events),
    ensures
        install_course(before, events).runtime == under_way(
            before,
            UpdateStatus::Downloading,
            events,
        ),
        install_course(before, events).next == (if events.len() == 1 {
            InstallNextModel::Download
        } else {
            InstallNextModel::Continue
        }),
        install_course(before, events).stage == (StageModel::Downloading {
            version: bounded(before.pending->0.version, 512),
            progress: Progress { downloaded: counted(events), total: announced(events) },
        }),
    decreases events.len(),
{
    fit_updates_are_accepted(before.pending->0);
    let head = events.drop_last();
    if events.len() == 1 {
        reveal_with_fuel(install_course, 2);
        reveal_with_fuel(length_of, 2);
        reveal_with_fuel(announced, 2);
        assert(events.last() == events[0]);
    } else {
        assert(events[events.len() - 1] is Fetched);
        assert(events.last() is Fetched);
        assert(head[0] == events[0]);
        assert forall|i: int| 0 < i < head.len() implies (#[trigger] head[i]) is Fetched by {
            assert(events[i] is Fetched);
        }
        fetched_pieces_add_up(before, head);
    }
}

/// An installation runs its course: once the download is complete the controllers
/// are restored, the installer is started, and when it succeeds the installation
/// ends well.
pub proof fn an_installation_runs_its_course(before: RuntimeModel, events: Seq<InstallEvent>)
    requires
        ready(before),
        pieces(events),
    ensures
        ({
            let fetched = events.push(InstallEvent::Downloaded(DownloadOutcome::Done));
            let restored = fetched.push(InstallEvent::Restored(true));
            let installed = restored.push(InstallEvent::Installed(None));
            &&& install_course(before, fetched).next == InstallNextModel::Restore
            &&& install_course(before, restored).next == InstallNextModel::Install
            &&& install_course(before, restored).runtime == under_way(
                before,
                UpdateStatus::Installing,
                events,
            )
            &&& install_course(before, installed).next == InstallNextModel::Done(Ok(()))
            &&& install_course(before, installed).runtime == under_way(
                before,
                UpdateStatus::Installing,
                events,
            )
        }),
{
    let fetched = events.push(InstallEvent::Downloaded(DownloadOutcome::Done));
    let restored = fetched.push(InstallEvent::Restored(true));
    let installed = restored.push(InstallEvent::Installed(None));
    fetched_pieces_add_up(before, events);
    assert(fetched.drop_last() =~= events);
    assert(restored.drop_last() =~= fetched);
    assert(installed.drop_last() =~= restored);
    assert(fetched.last() == InstallEvent::Downloaded(DownloadOutcome::Done));
    assert(restored.last() == InstallEvent::Restored(true));
    assert(installed.last() == InstallEvent::Installed(None));
    assert(install_course(before, fetched).stage is Restoring);
    assert(install_course(before, restored).stage is Installing);
}

/// A failure on the way ends the installation with its message: a download that
/// fails or takes too long, controllers that are not restored, an installer that
/// fails.
pub proof fn a_failure_ends_the_installation(
    before: RuntimeModel,
    events: Seq<InstallEvent>,
    error: PluginError,
)
    requires
        ready(before),
        pieces(events),
    ensures
        ({
            let fetched = events.push(InstallEvent::Downloaded(DownloadOutcome::Done));
            let restored = fetched.push(InstallEvent::Restored(true));
            &&& ends_with(
                before,
                events.push(InstallEvent::Downloaded(DownloadOutcome::Failed(error))),
                failure_text(ErrorPhase::Download, error),
            )
            &&& ends_with(
                before,
                events.push(InstallEvent::Downloaded(DownloadOutcome::TimedOut)),
                "Update download timed out; check the connection and try again"@,
            )
            &&& ends_with(
                before,
                fetched.push(InstallEvent::Restored(false)),
                "Update blocked: disabled controllers could not be restored; recovery records were retained. Restore them and try again."@,
            )
            &&& ends_with(
                before,
                restored.push(InstallEvent::Installed(Some(error))),
                failure_text(ErrorPhase::Install, error),
            )
        }),
{
    let fetched = events.push(InstallEvent::Downloaded(DownloadOutcome::Done));
    let restored = fetched.push(InstallEvent::Restored(true));
    an_installation_runs_its_course(before, events);
    fetched_pieces_add_up(before, events);
    assert(fetched.drop_last() =~= events);
    assert(restored.drop_last() =~= fetched);
    let a = events.push(InstallEvent::Downloaded(DownloadOutcome::Failed(error)));
    let b = events.push(InstallEvent::Downloaded(DownloadOutcome::TimedOut));
    let c = fetched.push(InstallEvent::Restored(false));
    let d = restored.push(InstallEvent::Installed(Some(error)));
    assert(a.drop_last() =~= events);
    assert(b.drop_last() =~= events);
    assert(c.drop_last() =~= fetched);
    assert(d.drop_last() =~= restored);
    assert(install_course(before, fetched).stage is Restoring);
    assert(install_course(before, restored).stage is Installing);
}

/// The installation ended with the message, which is shown.
pub open spec fn ends_with(
    before: RuntimeModel,
    events: Seq<InstallEvent>,
    message: Seq<char>,
) -> bool {
    let course = install_course(before, events);
    &&& course.next == InstallNextModel::Done(Err(bounded(message, 512)))
    &&& shows_failure(course.runtime, message)
}

/// Where nothing stands ready a request is refused and changes nothing; an update
/// that is no longer fit is given up.
pub proof fn a_request_needs_a_ready_update(before: RuntimeModel)
    ensures
        before.pending is None || before.state.status != UpdateStatus::Available ==> install_begun(
            before,
        ) == (
            before,
            Err::<Seq<char>, Seq<char>>(
                "No verified update is ready to install; check for updates first"@,
            ),
        ),
        install_begun(before).1 is Ok <==> ready(before),
        before.state.status == UpdateStatus::Available && before.pending is Some && !ready(before)
            ==> install_begun(before).0.pending is None && install_begun(before).0.state.status
            == UpdateStatus::Error,
{
    if before.pending is Some {
        fit_updates_are_accepted(before.pending->0);
    }
}

} // verus!
