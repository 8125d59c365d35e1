//! How the program starts, is operated, reports and ends.
use crate::controller::RowModel;
use crate::function::FileMetadata;
use crate::linux_helper::{
    launch_note, settings_programs, trusted_executable, user_executable, watched,
    ExecutableReading, LaunchOutcome, Watch,
};
use crate::platform::{
    error_message, record_of, recovered_identity, same_device, verified_of, DeviceModel,
    ErrorModel, RecordModel, VerifiedModel,
};
use crate::shell::{
    action_of, any_selected_on, data_root, instance_message, lock_owner, lock_step, mutex_verdict,
    owner_step, restore_end, run_end, CreateOutcome, DataRoot, InstanceModel, LockModel,
    MenuAction, RestoreOutcome, RunOutcome, System,
};
use crate::service_laws::whole;
use crate::text::{decimal, parsed, trimmed};
use vstd::prelude::*;

verus! {

// The lock.
/// A lock is taken by whoever creates it.  Who finds it on the first attempt looks
/// for its owner, and takes the place of one that is gone; on a later attempt the
/// program runs already.
pub proof fn how_the_lock_is_taken(attempt: u8, error: String)
    ensures
        lock_step(attempt, CreateOutcome::Created) == LockModel::Hold,
        lock_step(0, CreateOutcome::Exists) == LockModel::ProbeOwner,
        attempt > 0 ==> lock_step(attempt, CreateOutcome::Exists) == LockModel::Refuse(
            InstanceModel::Busy,
        ),
        lock_step(attempt, CreateOutcome::Failed(error)) == LockModel::Refuse(
            InstanceModel::Io(error@),
        ),
        owner_step(false) == LockModel::Replace,
        owner_step(true) == LockModel::Refuse(InstanceModel::Busy),
{
}

/// A lock without a number, or with the number nothing, names no owner.
pub proof fn what_names_no_owner(contents: Seq<char>)
    ensures
        lock_owner(None) is None,
        parsed(trimmed(contents), 10, 0xffff_ffff) is None ==> lock_owner(Some(contents)) is None,
        parsed(trimmed(contents), 10, 0xffff_ffff) == Some(0nat) ==> lock_owner(Some(contents))
            is None,
        parsed(trimmed(contents), 10, 0xffff_ffff) matches Some(pid) ==> pid > 0 ==> lock_owner(
            Some(contents),
        ) == Some(pid),
{
}

/// A mutex of the system is held unless it could not be made or was there before.
pub proof fn how_a_mutex_is_held(error: u32)
    ensures
        error != 183 ==> mutex_verdict(false, error) == Ok::<(), InstanceModel>(()),
        mutex_verdict(false, 183) == Err::<(), InstanceModel>(InstanceModel::Busy),
        mutex_verdict(true, error) matches Err(e) && e is Native,
{
}

// Operating.
/// The shortcut switches everything selected off while any of it is on.
pub proof fn what_the_shortcut_asks(rows: Seq<RowModel>, i: int)
    ensures
        0 <= i < rows.len() && rows[i].selected && rows[i].enabled ==> any_selected_on(rows),
        (forall|j: int| 0 <= j < rows.len() ==> !((#[trigger] rows[j]).selected && rows[j].enabled))
            ==> !any_selected_on(rows),
{
}

/// What the entries of the menu do.
pub proof fn what_the_menu_does(id: Seq<char>)
    ensures
        action_of("show"@) == MenuAction::Show,
        action_of("enable-selected"@) == MenuAction::SwitchSelected(true),
        action_of("disable-selected"@) == MenuAction::SwitchSelected(false),
        action_of("restore-disabled"@) == MenuAction::Restore,
        action_of("restore-and-quit"@) == MenuAction::RestoreAndQuit,
        action_of("quit-keep-state"@) == MenuAction::QuitKeepState,
        action_of(id) == MenuAction::RestoreAndQuit <==> id == "restore-and-quit"@,
        action_of(id) == MenuAction::QuitKeepState <==> id == "quit-keep-state"@,
{
    reveal_strlit("show");
    reveal_strlit("enable-selected");
    reveal_strlit("disable-selected");
    reveal_strlit("restore-disabled");
    reveal_strlit("restore-and-quit");
    reveal_strlit("quit-keep-state");
    assert("show"@.len() == 4);
    assert("enable-selected"@.len() == 15 && "enable-selected"@[0] == 'e');
    assert("disable-selected"@.len() == 16 && "disable-selected"@[0] == 'd');
    assert("restore-disabled"@.len() == 16 && "restore-disabled"@[8] == 'd');
    assert("restore-and-quit"@.len() == 16 && "restore-and-quit"@[8] == 'a' && "restore-and-quit"@[0]
        == 'r');
    assert("disable-selected"@[0] != "restore-disabled"@[0]);
    assert("quit-keep-state"@.len() == 15 && "quit-keep-state"@[0] == 'q');
}

/// Where the data are: on Windows in the application data, on Linux in the data
/// directory of the user, which has a fixed place at home where it is not named.
pub proof fn where_the_data_are(app_data: bool, xdg_data: bool, home: bool)
    ensures
        data_root(System::Windows, true, xdg_data, home) == Ok::<DataRoot, Seq<char>>(
            DataRoot::AppData,
        ),
        data_root(System::Windows, false, xdg_data, home) is Err,
        data_root(System::Linux, app_data, true, home) == Ok::<DataRoot, Seq<char>>(
            DataRoot::XdgData,
        ),
        data_root(System::Linux, app_data, false, true) == Ok::<DataRoot, Seq<char>>(
            DataRoot::HomeShare,
        ),
        data_root(System::Linux, app_data, false, false) is Err,
        data_root(System::Other, app_data, xdg_data, home) is Err,
{
}

// Ending.
/// How a run ends: well, or with a number for each way in which it failed, and
/// with what failed.
pub proof fn how_a_run_ends(message: String)
    ensures
        run_end(RunOutcome::Ended) == (0i32, None::<Seq<char>>),
        run_end(RunOutcome::NoDataDirectory(message)) == (
            2i32,
            Some("Controwly cannot determine its data directory: "@ + message@),
        ),
        run_end(RunOutcome::Failed(message)) == (
            3i32,
            Some("Controwly terminated with an application error: "@ + message@),
        ),
{
}

/// How a restore from the command line ends.
pub proof fn how_a_restore_ends(message: String, error: crate::shell::InstanceError, count: u64)
    ensures
        restore_end(RestoreOutcome::Restored(count)) == (
            0i32,
            "Controwly restore completed: "@ + decimal(count as nat)
                + " device record(s) restored"@,
        ),
        restore_end(RestoreOutcome::NoDataDirectory(message)) == (
            2i32,
            "Controwly restore failed: cannot determine data directory: "@ + message@,
        ),
        restore_end(RestoreOutcome::Locked(error)) == (
            3i32,
            "Controwly restore failed: "@ + instance_message(error@),
        ),
        restore_end(RestoreOutcome::NoController(message)) == (
            4i32,
            "Controwly restore failed: "@ + message@,
        ),
        restore_end(RestoreOutcome::Failed(message)) == (
            5i32,
            "Controwly restore failed: "@ + message@,
        ),
        instance_message(InstanceModel::Busy) == "another Controwly instance is already running"@,
        instance_message(InstanceModel::Io(message@)) == "cannot acquire Controwly instance lock: "@
            + message@,
        instance_message(InstanceModel::Native(message@))
            == "cannot acquire native Controwly instance lock: "@ + message@,
{
}

// Devices and errors.
/// A device is verified by an identity that is whole, and its record holds what
/// is known of it.
pub proof fn what_verifies_a_device(device: DeviceModel, requested_at: u64)
    ensures
        device.verified matches Some(identity) ==> whole(identity) ==> verified_of(device) == Ok::<
            VerifiedModel,
            ErrorModel,
        >(identity) && record_of(device, requested_at) == Ok::<RecordModel, ErrorModel>(
            RecordModel {
                schema: 1,
                id: device.id,
                name: device.name,
                connection: device.connection,
                identity,
                requested_at,
            },
        ),
        (device.verified matches Some(identity) ==> !whole(identity)) ==> verified_of(device)
            == Err::<VerifiedModel, ErrorModel>(ErrorModel::VerificationFailed(device.id))
            && record_of(device, requested_at) is Err,
{
}

/// A fresh identity is taken for a recovery where it is the one on record, in
/// every part; an error stays what it is.
pub proof fn what_a_recovery_takes(
    id: Seq<char>,
    fresh: VerifiedModel,
    expected: VerifiedModel,
    error: ErrorModel,
)
    ensures
        whole(expected) ==> recovered_identity(id, Ok(expected), expected) == Ok::<
            VerifiedModel,
            ErrorModel,
        >(expected),
        fresh != expected || !whole(fresh) ==> (recovered_identity(id, Ok(fresh), expected)
            matches Err(e) && e is IdentityMismatch),
        recovered_identity(id, Err(error), expected) == Err::<VerifiedModel, ErrorModel>(error),
        whole(expected) ==> same_device(expected, expected),
        fresh != expected ==> !same_device(fresh, expected),
{
}

/// What is said of an error before its own words.
pub proof fn what_is_said_of_an_error(m: Seq<char>)
    ensures
        error_message(ErrorModel::Unsupported(m)) == "unsupported platform: "@ + m,
        error_message(ErrorModel::PermissionDenied(m)) == "permission denied: "@ + m,
        error_message(ErrorModel::NotFound(m)) == "device not found: "@ + m,
        error_message(ErrorModel::RecoveryGone(m))
            == "app-disabled device is gone and has no persistent OS state: "@ + m,
        error_message(ErrorModel::IdentityMismatch(m)) == "device identity changed: "@ + m,
        error_message(ErrorModel::OperationFailed(m)) == "device operation failed: "@ + m,
        error_message(ErrorModel::VerificationFailed(m)) == "device verification failed: "@ + m,
        error_message(ErrorModel::LaunchFailed(m)) == "could not open Bluetooth settings: "@ + m,
{
}

// Programs.
/// A file or directory that belongs to root and that nobody else may write.
pub open spec fn roots_own(m: FileMetadata) -> bool {
    m.uid == 0 && m.mode & 0o022 == 0
}

/// An executable is trusted where its path starts at the root, it can be run, and
/// it and every directory above it are root's own.
pub proof fn what_is_trusted(reading: ExecutableReading, m: Option<FileMetadata>)
    ensures
        trusted_executable(reading) <==> {
            &&& crate::text::starts_with(reading.path@, "/"@)
            &&& reading.file matches Some(f) && f.is_file && roots_own(f) && f.mode & 0o111 != 0
            &&& forall|i: int|
                0 <= i < reading.ancestors@.len() ==> (#[trigger] reading.ancestors@[i]
                    matches Some(d) && d.is_dir && roots_own(d))
        },
        user_executable(m) <==> (m matches Some(f) && f.is_file && f.mode & 0o111 != 0),
{
    if forall|i: int|
        0 <= i < reading.ancestors@.len() ==> (#[trigger] reading.ancestors@[i] matches Some(d)
            && d.is_dir && roots_own(d)) {
        assert forall|i: int|
            0 <= i < reading.ancestors@.len() implies crate::linux_helper::trusted_directory(
            #[trigger] reading.ancestors@[i],
        ) by {}
    }
    if trusted_executable(reading) {
        assert forall|i: int| 0 <= i < reading.ancestors@.len() implies (
        #[trigger] reading.ancestors@[i] matches Some(d) && d.is_dir && roots_own(d)) by {
            assert(crate::linux_helper::trusted_directory(reading.ancestors@[i]));
        }
    }
}

/// A settings program has come up once it ended well or still runs at the fifth
/// look; what went wrong otherwise is noted under its name.
pub proof fn when_a_settings_program_has_come_up(
    looks: u32,
    success: bool,
    status: String,
    program: Seq<char>,
)
    ensures
        looks < 5 ==> watched(looks, Watch::Running) is None,
        looks >= 5 ==> watched(looks, Watch::Running) == Some(LaunchOutcome::Accepted),
        watched(looks, Watch::Ended { success: true, status }) == Some(LaunchOutcome::Accepted),
        watched(looks, Watch::Ended { success: false, status }) == Some(
            LaunchOutcome::Failed(status),
        ),
        watched(looks, Watch::Failed(status)) == Some(LaunchOutcome::Unwatched(status)),
        launch_note(program, LaunchOutcome::Accepted) is None,
        launch_note(program, LaunchOutcome::Failed(status)) == Some(
            program + ": exited with status "@ + status@,
        ),
        launch_note(program, LaunchOutcome::Unwatched(status)) == Some(
            program + ": cannot inspect launcher: "@ + status@,
        ),
        launch_note(program, LaunchOutcome::NotStarted(status)) == Some(program + ": "@ + status@),
        settings_programs().len() == 5,
        settings_programs()[0] == ("/usr/bin/blueman-manager"@, None::<Seq<char>>),
        settings_programs()[1] == ("/usr/bin/gnome-control-center"@, Some("bluetooth"@)),
        settings_programs()[2] == ("/usr/bin/kcmshell6"@, Some("kcm_bluetooth"@)),
        settings_programs()[3] == ("/usr/bin/kcmshell5"@, Some("kcm_bluetooth"@)),
        settings_programs()[4] == ("/usr/bin/systemsettings"@, Some("kcm_bluetooth"@)),
{
}

} // verus!
