use controwly::controller::{ControllerDevice, ControllerState};
use controwly::shell::{
    acquire, after_probe, close_requested, default_data_dir, handle_shortcut, menu_action, mutex_outcome, owner_is_alive,
    owner_process, process_path, register_shortcut, run, run_restore_cli, setup_tray,
    wants_restore, worker_lost, CloseAction, CreateOutcome, DataRoot, InstanceError, LockStep, MenuAction,
    RestoreOutcome, RunOutcome, System,
};

fn row(id: &str, enabled: bool, selected: bool) -> ControllerDevice {
    ControllerDevice {
        id: id.to_owned(),
        name: "Pad".to_owned(),
        connection: "USB".to_owned(),
        enabled,
        selected,
        problem_code: None,
    }
}

fn state(devices: Vec<ControllerDevice>) -> ControllerState {
    ControllerState {
        devices,
        shortcut: "Ctrl+Alt+J".to_owned(),
        shortcut_available: true,
        errors: Vec::new(),
    }
}

#[test]
fn the_lock_is_taken_or_looked_into_once() {
    assert!(matches!(acquire(0, CreateOutcome::Created), LockStep::Hold));
    assert!(matches!(acquire(1, CreateOutcome::Created), LockStep::Hold));
    assert!(matches!(acquire(0, CreateOutcome::Exists), LockStep::ProbeOwner));
    assert!(matches!(
        acquire(1, CreateOutcome::Exists),
        LockStep::Refuse(InstanceError::Busy)
    ));
    match acquire(0, CreateOutcome::Failed("read-only".to_owned())) {
        LockStep::Refuse(error) => assert_eq!(
            error.describe(),
            "cannot acquire Controwly instance lock: read-only"
        ),
        other => panic!("{other:?}"),
    }
    assert_eq!(
        InstanceError::Busy.describe(),
        "another Controwly instance is already running"
    );
    assert_eq!(
        InstanceError::Native("mutex".to_owned()).describe(),
        "cannot acquire native Controwly instance lock: mutex"
    );
}

#[test]
fn a_running_owner_keeps_its_lock_file() {
    assert!(matches!(after_probe(true), LockStep::Refuse(InstanceError::Busy)));
    assert!(matches!(after_probe(false), LockStep::Replace));
    let own = Some(format!("{}\n", 4_294_967_295u64));
    assert_eq!(owner_process(&own), Some(4_294_967_295));
    assert_eq!(process_path(4242), "/proc/4242");
    assert!(owner_is_alive(&own, true));
    assert!(!owner_is_alive(&own, false));
    for unknown in [None, Some("0"), Some(""), Some("4294967296"), Some("12 13"), Some("x")] {
        let contents = unknown.map(|text| text.to_owned());
        assert_eq!(owner_process(&contents), None);
        assert!(owner_is_alive(&contents, false));
    }
}

#[test]
fn the_shortcut_switches_off_what_is_on() {
    assert!(handle_shortcut(&state(Vec::new())));
    assert!(handle_shortcut(&state(vec![row("a", false, true), row("b", true, false)])));
    assert!(!handle_shortcut(&state(vec![row("a", false, true), row("b", true, true)])));
    assert_eq!(
        register_shortcut("Ctrl+Alt+J", "taken"),
        "Global shortcut Ctrl+Alt+J is unavailable: taken. Choose another application or use the buttons."
    );
}

#[test]
fn menu_entries_stand_for_actions() {
    assert_eq!(menu_action("show"), MenuAction::Show);
    assert_eq!(menu_action("enable-selected"), MenuAction::SwitchSelected(true));
    assert_eq!(menu_action("disable-selected"), MenuAction::SwitchSelected(false));
    assert_eq!(menu_action("restore-disabled"), MenuAction::Restore);
    assert_eq!(menu_action("restore-and-quit"), MenuAction::RestoreAndQuit);
    assert_eq!(menu_action("quit-keep-state"), MenuAction::QuitKeepState);
    assert_eq!(menu_action("Show"), MenuAction::Nothing);
    assert_eq!(
        setup_tray("no bus"),
        "System tray is unavailable: no bus. The window will stay open on close; use explicit restore or keep-state quit."
    );
    assert_eq!(close_requested(true), CloseAction::Hide);
    assert_eq!(close_requested(false), CloseAction::Ask);
}

#[test]
fn each_ending_has_its_exit_code() {
    assert_eq!(run(RunOutcome::Ended), (0, None));
    assert_eq!(
        run(RunOutcome::NoDataDirectory("HOME".to_owned())),
        (2, Some("Controwly cannot determine its data directory: HOME".to_owned()))
    );
    assert_eq!(
        run(RunOutcome::Failed("display".to_owned())),
        (3, Some("Controwly terminated with an application error: display".to_owned()))
    );
    let cases = [
        (
            RestoreOutcome::NoDataDirectory("HOME".to_owned()),
            2,
            "Controwly restore failed: cannot determine data directory: HOME",
        ),
        (
            RestoreOutcome::Locked(InstanceError::Busy),
            3,
            "Controwly restore failed: another Controwly instance is already running",
        ),
        (RestoreOutcome::NoController("state".to_owned()), 4, "Controwly restore failed: state"),
        (RestoreOutcome::Failed("pad".to_owned()), 5, "Controwly restore failed: pad"),
        (
            RestoreOutcome::Restored(12),
            0,
            "Controwly restore completed: 12 device record(s) restored",
        ),
    ];
    for (outcome, code, text) in cases {
        assert_eq!(run_restore_cli(outcome), (code, text.to_owned()));
    }
    assert_eq!(worker_lost("panic"), "controller worker terminated during restore: panic");
}

#[test]
fn a_restore_is_asked_for_by_its_flag() {
    let args = |list: &[&str]| -> Vec<String> { list.iter().map(|a| a.to_string()).collect() };
    assert!(wants_restore(&args(&["controwly", "--restore-and-exit"])));
    assert!(!wants_restore(&args(&["controwly", "--restore"])));
    assert!(!wants_restore(&[]));
}

#[test]
fn the_data_directory_follows_the_system() {
    assert_eq!(default_data_dir(System::Windows, true, true, true), Ok(DataRoot::AppData));
    assert_eq!(
        default_data_dir(System::Windows, false, true, true),
        Err("APPDATA is not set".to_owned())
    );
    assert_eq!(default_data_dir(System::Linux, true, true, true), Ok(DataRoot::XdgData));
    assert_eq!(default_data_dir(System::Linux, true, false, true), Ok(DataRoot::HomeShare));
    assert_eq!(
        default_data_dir(System::Linux, true, false, false),
        Err("neither XDG_DATA_HOME nor HOME is set".to_owned())
    );
    assert_eq!(
        default_data_dir(System::Other, true, true, true),
        Err("controller management is unsupported on this operating system".to_owned())
    );
}

#[test]
fn the_named_mutex_is_ours_or_refused() {
    assert!(mutex_outcome(false, 0).is_ok());
    assert!(mutex_outcome(false, 5).is_ok());
    assert!(matches!(mutex_outcome(false, 183), Err(InstanceError::Busy)));
    let refused = mutex_outcome(true, 5).expect_err("no handle");
    assert_eq!(
        refused.describe(),
        "cannot acquire native Controwly instance lock: CreateMutexW failed with Win32 error 5"
    );
    assert!(matches!(mutex_outcome(true, 183), Err(InstanceError::Native(_))));
}
