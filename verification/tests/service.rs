use controwly::controller::{
    default_shortcut, load_disk_state, lost_state, make_state, push_error, refresh_state,
    validate_command_id, ControllerData, DiskState, StateFile, MAX_ERRORS, MAX_RECOVERY_RECORDS,
    MAX_SELECTIONS, PROBLEM_PARTIAL_HID, PROBLEM_RECOVERY_IDENTITY, PROBLEM_RECOVERY_PENDING,
    PROBLEM_UNCONTROLLED_XINPUT,
};
use controwly::platform::{
    resolve_verified_for_recovery, ControlCoverage, ControllerProtocol, DeviceCapabilities,
    DeviceId, DeviceState, EnumerationReport, MutationReport, PersistedDisabled, PlatformDevice,
    PlatformError, VerifiedDevice, RECOVERY_SCHEMA,
};
use controwly::service::{
    confirm_enabled, perform_device, restore_disabled_inner, restore_for_shutdown, selected_ids,
    selection_saved, set_selected, set_selected_enabled, DeviceEvent, DeviceNext, RestoreEvent,
    RestoreNext, RestoreSummary,
};

fn identity(id: &str) -> VerifiedDevice {
    VerifiedDevice {
        platform: "linux".to_owned(),
        stable_id: id.to_owned(),
        instance_id: format!("instance-{id}"),
        fingerprint: format!("fingerprint-{id}"),
        protocol: ControllerProtocol::HidGamepad,
        coverage: ControlCoverage::Full,
        usage_page: 1,
        usage: 5,
    }
}

fn device(id: &str, enabled: bool) -> PlatformDevice {
    let mut capabilities = DeviceCapabilities::default();
    capabilities.full_control = true;
    PlatformDevice {
        id: DeviceId(id.to_owned()),
        name: format!("Pad {id}"),
        connection: "USB".to_owned(),
        state: DeviceState { enabled },
        capabilities,
        coverage: ControlCoverage::Full,
        problem_code: None,
        verified: Some(identity(id)),
    }
}

fn record(id: &str) -> PersistedDisabled {
    PersistedDisabled {
        schema: RECOVERY_SCHEMA,
        id: DeviceId(id.to_owned()),
        name: format!("Pad {id}"),
        connection: "USB".to_owned(),
        identity: identity(id),
        requested_at: 7,
    }
}

fn report(devices: Vec<PlatformDevice>) -> Result<EnumerationReport, PlatformError> {
    Ok(EnumerationReport { devices, errors: Vec::new() })
}

fn disk(selected: &[&str], disabled: Vec<PersistedDisabled>) -> DiskState {
    DiskState {
        schema: RECOVERY_SCHEMA,
        selected: selected.iter().map(|id| id.to_string()).collect(),
        disabled,
        shortcut: "Ctrl+Alt+K".to_owned(),
    }
}

fn data(selected: &[&str], disabled: Vec<PersistedDisabled>) -> ControllerData {
    ControllerData::from_disk(disk(selected, disabled)).expect("a valid state")
}

fn lost() -> PlatformError {
    PlatformError::NotFound("pad".to_owned())
}

fn done(next: DeviceNext) -> Result<MutationReport, String> {
    match next {
        DeviceNext::Done(result) => result,
        other => panic!("{other:?}"),
    }
}

fn ids(records: &[PersistedDisabled]) -> Vec<&str> {
    records.iter().map(|record| record.id.as_str()).collect()
}

#[test]
fn loading_gives_back_what_was_saved() {
    let first = data(&["b", "a", "b"], vec![record("a"), record("c")]);
    let saved = first.to_disk();
    assert_eq!(saved.schema, RECOVERY_SCHEMA);
    assert_eq!(saved.selected, ["a", "b"]);
    assert_eq!(saved.shortcut, "Ctrl+Alt+K");
    let second = ControllerData::from_disk(saved).expect("what was saved is loaded");
    assert_eq!(second.selected.list(), first.selected.list());
    assert_eq!(ids(&second.disabled), ["a", "c"]);
    assert!(!second.shortcut_available);
    assert!(second.errors.is_empty());
}

#[test]
fn an_empty_shortcut_is_the_standard_one() {
    let mut state = disk(&[], Vec::new());
    state.shortcut = " \t".to_owned();
    let loaded = ControllerData::from_disk(state).expect("a valid state");
    assert_eq!(loaded.shortcut, default_shortcut());
}

#[test]
fn broken_states_are_refused() {
    let refusal = |state: DiskState| ControllerData::from_disk(state).expect_err("refused");
    let mut other = disk(&[], Vec::new());
    other.schema = 9;
    assert_eq!(
        refusal(other),
        "controller state schema 9 is not supported (expected 1)"
    );
    let mut many = disk(&[], Vec::new());
    many.selected = vec!["a".to_owned(); MAX_SELECTIONS + 1];
    assert_eq!(refusal(many), "controller selection state exceeds the supported limit");
    let mut records = Vec::new();
    for n in 0..=MAX_RECOVERY_RECORDS {
        records.push(record(&format!("pad{n}")));
    }
    assert_eq!(
        refusal(disk(&[], records)),
        "controller recovery state exceeds the supported limit"
    );
    assert_eq!(refusal(disk(&[""], Vec::new())), "invalid controller id");
    let mut invalid = record("a");
    invalid.identity.fingerprint.clear();
    assert_eq!(
        refusal(disk(&[], vec![invalid])),
        "controller state contains an invalid recovery identity"
    );
    let mut stranger = record("a");
    stranger.id = DeviceId("b".to_owned());
    assert_eq!(
        refusal(disk(&[], vec![stranger])),
        "controller state contains an invalid recovery identity"
    );
    assert_eq!(
        refusal(disk(&[], vec![record("a"), record("a")])),
        "controller state contains duplicate recovery id a"
    );
}

#[test]
fn identifiers_of_commands_are_bounded() {
    assert_eq!(validate_command_id(&"é".repeat(512)), Ok(()));
    for bad in ["", "a\0b", &"é".repeat(513)] {
        assert_eq!(validate_command_id(bad), Err("invalid controller id".to_owned()));
    }
}

#[test]
fn only_the_newest_errors_are_kept() {
    let mut errors = Vec::new();
    for n in 0..MAX_ERRORS + 2 {
        push_error(&mut errors, format!("e{n}"));
    }
    push_error(&mut errors, String::new());
    push_error(&mut errors, "e5".to_owned());
    assert_eq!(errors.len(), MAX_ERRORS);
    assert_eq!(errors[0], "e2");
    assert_eq!(errors[MAX_ERRORS - 1], "e65");
}

#[test]
fn errors_of_one_device_are_cleared() {
    let mut held = data(&[], Vec::new());
    held.record_failure("a", "broken");
    held.record_error("a: also broken".to_owned());
    held.record_error("ab: other device".to_owned());
    assert_eq!(held.errors, ["a: broken", "a: also broken", "ab: other device"]);
    held.clear_device_errors("a");
    assert_eq!(held.errors, ["ab: other device"]);
    held.set_shortcut_available(true, None);
    assert!(held.shortcut_available);
    held.set_shortcut_available(false, Some("taken".to_owned()));
    assert!(!held.shortcut_available);
    assert_eq!(held.errors, ["ab: other device", "taken"]);
}

#[test]
fn shown_devices_come_in_order_with_pending_ones() {
    let held = data(&["b"], vec![record("b"), record("d")]);
    let mut partial = device("c", true);
    partial.coverage = ControlCoverage::HidOnly;
    let mut foreign = device("a", true);
    foreign.coverage = ControlCoverage::Uncontrolled;
    let mut broken = device("e", false);
    broken.coverage = ControlCoverage::Uncontrolled;
    broken.problem_code = Some(22);
    let state = make_state(&held, vec![broken, partial, device("b", true), foreign]);
    let shown: Vec<(&str, bool, bool, Option<i32>)> = state
        .devices
        .iter()
        .map(|row| (row.id.as_str(), row.enabled, row.selected, row.problem_code))
        .collect();
    assert_eq!(
        shown,
        [
            ("a", true, false, Some(PROBLEM_UNCONTROLLED_XINPUT)),
            ("b", true, true, Some(PROBLEM_RECOVERY_IDENTITY)),
            ("c", true, false, Some(PROBLEM_PARTIAL_HID)),
            ("d", false, false, Some(PROBLEM_RECOVERY_PENDING)),
            ("e", false, false, Some(22)),
        ]
    );
    assert_eq!(state.devices[3].name, "Pad d (app-disabled; recovery pending)");
    assert_eq!(state.shortcut, "Ctrl+Alt+K");
}

#[test]
fn a_refresh_shows_what_the_platform_reports() {
    let mut held = data(&[], Vec::new());
    held.record_error("old".to_owned());
    let mut fresh = EnumerationReport { devices: vec![device("a", true)], errors: Vec::new() };
    fresh.errors.push("new".to_owned());
    let state = refresh_state(&held, Ok(fresh));
    assert_eq!(state.errors, ["old", "new"]);
    assert_eq!(state.devices.len(), 1);
    let failed = refresh_state(&held, Err(lost()));
    assert_eq!(failed.errors, ["old", "device not found: pad"]);
    assert!(failed.devices.is_empty());
}

#[test]
fn selecting_needs_a_known_controller() {
    let mut held = data(&[], vec![record("gone")]);
    let present = report(vec![device("a", true)]);
    assert_eq!(set_selected(&mut held, "a", true, &present), Ok(false));
    assert_eq!(set_selected(&mut held, "a", true, &present), Ok(true));
    assert_eq!(set_selected(&mut held, "gone", true, &present), Ok(false));
    assert_eq!(held.selected.list(), ["a", "gone"]);
    assert_eq!(set_selected(&mut held, "a", false, &present), Ok(true));
    assert_eq!(
        set_selected(&mut held, "x", true, &present),
        Err("controller x is not present in the verified inventory".to_owned())
    );
    assert_eq!(
        set_selected(&mut held, "", true, &present),
        Err("invalid controller id".to_owned())
    );
    assert_eq!(
        set_selected(&mut held, "a", true, &Err(lost())),
        Err("device not found: pad".to_owned())
    );
    assert_eq!(held.selected.list(), ["gone"]);
}

#[test]
fn the_number_of_selections_is_bounded() {
    let mut full = disk(&[], Vec::new());
    for n in 0..MAX_SELECTIONS {
        full.selected.push(format!("s{n}"));
    }
    let mut held = ControllerData::from_disk(full).expect("at the limit");
    assert_eq!(
        set_selected(&mut held, "a", true, &report(vec![device("a", true)])),
        Err("controller selection limit reached".to_owned())
    );
    assert_eq!(held.errors, ["controller selection limit reached"]);
    let known = report(vec![device("s7", true)]);
    assert_eq!(set_selected(&mut held, "s7", true, &known), Ok(true));
}

#[test]
fn a_selection_that_was_not_saved_is_taken_back() {
    let mut held = data(&["b"], Vec::new());
    let present = report(vec![device("a", true), device("b", true)]);
    let was = set_selected(&mut held, "a", true, &present).expect("selected");
    assert_eq!(
        selection_saved(&mut held, "a", was, Err("disk full".to_owned())),
        Err("disk full".to_owned())
    );
    assert_eq!(held.selected.list(), ["b"]);
    let was = set_selected(&mut held, "b", false, &present).expect("deselected");
    assert!(selection_saved(&mut held, "b", was, Err("disk full".to_owned())).is_err());
    assert_eq!(held.selected.list(), ["b"]);
    let was = set_selected(&mut held, "b", false, &present).expect("deselected");
    assert_eq!(selection_saved(&mut held, "b", was, Ok(())), Ok(()));
    assert!(held.selected.list().is_empty());
    assert_eq!(held.errors, ["disk full"]);
}

#[test]
fn selected_controllers_are_switched_present_ones_first() {
    let mut held = data(&["c", "b", "gone"], vec![record("gone"), record("b"), record("z")]);
    let devices = vec![device("c", true), device("a", true), device("b", false)];
    assert_eq!(selected_ids(&held, &devices), ["c", "b", "gone"]);
    assert_eq!(
        set_selected_enabled(&mut held, &report(devices)),
        Ok(vec!["c".to_owned(), "b".to_owned(), "gone".to_owned()])
    );
    assert!(set_selected_enabled(&mut held, &Err(lost())).is_err());
}

#[test]
fn disabling_is_recorded_before_it_is_done() {
    let mut held = data(&[], Vec::new());
    held.record_failure("a", "old");
    let event = DeviceEvent::Enumerated { report: report(vec![device("a", true)]), now: 99 };
    let next = perform_device(&mut held, "a", false, event);
    let (saved, target) = match next {
        DeviceNext::SaveRecord { record, identity } => (record, identity),
        other => panic!("{other:?}"),
    };
    assert_eq!(saved.requested_at, 99);
    assert_eq!(ids(&held.disabled), ["a"]);
    let event = DeviceEvent::RecordSaved { record: saved, identity: target, result: Ok(()) };
    let next = perform_device(&mut held, "a", false, event);
    assert!(matches!(&next, DeviceNext::Disable { identity: of } if *of == identity("a")));
    let report = MutationReport::confirmed(DeviceId("a".to_owned()), false, true);
    let next = perform_device(&mut held, "a", false, DeviceEvent::Disabled(Ok(report)));
    assert!(done(next).is_ok());
    assert_eq!(ids(&held.disabled), ["a"]);
    assert!(held.errors.is_empty());
}

#[test]
fn a_record_that_was_not_saved_is_taken_back() {
    let mut held = data(&[], vec![record("other")]);
    let event = DeviceEvent::Enumerated { report: report(vec![device("a", true)]), now: 1 };
    let (saved, target) = match perform_device(&mut held, "a", false, event) {
        DeviceNext::SaveRecord { record, identity } => (record, identity),
        other => panic!("{other:?}"),
    };
    assert_eq!(ids(&held.disabled), ["other", "a"]);
    let event = DeviceEvent::RecordSaved {
        record: saved,
        identity: target,
        result: Err("disk full".to_owned()),
    };
    assert_eq!(
        done(perform_device(&mut held, "a", false, event)).err(),
        Some("disk full".to_owned())
    );
    assert_eq!(ids(&held.disabled), ["other"]);
    assert_eq!(held.errors, ["disk full"]);
}

#[test]
fn a_record_on_file_allows_another_try() {
    let mut held = data(&[], vec![record("a")]);
    let event = DeviceEvent::Enumerated { report: report(vec![device("a", true)]), now: 1 };
    let next = perform_device(&mut held, "a", false, event);
    assert!(matches!(next, DeviceNext::Disable { .. }));
    let mut changed = device("a", true);
    if let Some(identity) = &mut changed.verified {
        identity.fingerprint = "another".to_owned();
    }
    let event = DeviceEvent::Enumerated { report: report(vec![changed]), now: 1 };
    assert_eq!(
        done(perform_device(&mut held, "a", false, event)).err(),
        Some("a: an existing recovery record has a different verified identity".to_owned())
    );
}

#[test]
fn disables_are_refused_where_they_are_not_safe() {
    let mut held = data(&[], Vec::new());
    let mut refusal = |devices: Vec<PlatformDevice>| -> String {
        let event = DeviceEvent::Enumerated { report: report(devices), now: 1 };
        done(perform_device(&mut held, "a", false, event)).expect_err("refused")
    };
    assert_eq!(
        refusal(Vec::new()),
        "a: controller is not present; refusing an unverified disable request"
    );
    let mut unverified = device("a", true);
    unverified.verified = None;
    assert_eq!(refusal(vec![unverified]), "device verification failed: a");
    let covered = |coverage: ControlCoverage| -> PlatformDevice {
        let mut device = device("a", true);
        if let Some(identity) = &mut device.verified {
            identity.coverage = coverage;
        }
        device.capabilities.full_control = false;
        device
    };
    assert_eq!(
        refusal(vec![covered(ControlCoverage::HidOnly)]),
        "a: only the HID collection is controllable; the XInput/XUSB path remains live"
    );
    assert_eq!(
        refusal(vec![covered(ControlCoverage::Uncontrolled)]),
        "a: controller input path is not safely controllable; refusing disable"
    );
    assert_eq!(
        refusal(vec![covered(ControlCoverage::Full)]),
        "a: controller cannot be safely controlled"
    );
    assert!(held.disabled.is_empty());
}

#[test]
fn the_number_of_records_is_bounded() {
    let mut records = Vec::new();
    for n in 0..MAX_RECOVERY_RECORDS {
        records.push(record(&format!("pad{n}")));
    }
    let mut held = data(&[], records);
    let event = DeviceEvent::Enumerated { report: report(vec![device("a", true)]), now: 1 };
    assert_eq!(
        done(perform_device(&mut held, "a", false, event)).err(),
        Some("recovery record limit reached; refusing to disable another controller".to_owned())
    );
}

#[test]
fn a_failed_disable_keeps_its_record() {
    let mut held = data(&[], vec![record("a")]);
    let next = perform_device(&mut held, "a", false, DeviceEvent::Disabled(Err(lost())));
    assert_eq!(
        done(next).err(),
        Some("a: device not found: pad; recovery record retained".to_owned())
    );
    let unconfirmed = MutationReport { outcomes: Vec::new() };
    let next = perform_device(&mut held, "a", false, DeviceEvent::Disabled(Ok(unconfirmed)));
    assert_eq!(
        done(next).err(),
        Some("a: disable call returned without confirmed disabled state; recovery record retained".to_owned())
    );
    assert_eq!(ids(&held.disabled), ["a"]);
    assert_eq!(held.errors.len(), 2);
}

#[test]
fn enabling_removes_the_record_once_it_was_seen() {
    let mut held = data(&[], vec![record("a"), record("b")]);
    let event = DeviceEvent::Enumerated { report: report(vec![device("a", false)]), now: 1 };
    let found = match perform_device(&mut held, "a", true, event) {
        DeviceNext::Resolve { record } => record,
        other => panic!("{other:?}"),
    };
    let event = DeviceEvent::Resolved { record: found, result: Ok(identity("a")) };
    let next = perform_device(&mut held, "a", true, event);
    assert!(matches!(next, DeviceNext::Enable { recovery: true, .. }));
    let report_on = MutationReport::confirmed(DeviceId("a".to_owned()), true, true);
    let event = DeviceEvent::Enabled {
        identity: identity("a"),
        recovery: true,
        result: Ok(report_on.clone()),
    };
    let next = perform_device(&mut held, "a", true, event);
    assert!(matches!(next, DeviceNext::Look { recovery: true, .. }));
    assert_eq!(ids(&held.disabled), ["a", "b"]);
    let event = DeviceEvent::Looked {
        identity: identity("a"),
        recovery: true,
        report: report_on,
        enumeration: report(vec![device("a", true)]),
    };
    let (before, report_on) = match perform_device(&mut held, "a", true, event) {
        DeviceNext::SaveRemoval { before, report, .. } => (before, report),
        other => panic!("{other:?}"),
    };
    assert_eq!(ids(&held.disabled), ["b"]);
    let event = DeviceEvent::RemovalSaved {
        identity: identity("a"),
        before,
        report: report_on,
        result: Err("disk full".to_owned()),
    };
    assert_eq!(
        done(perform_device(&mut held, "a", true, event)).err(),
        Some("a was enabled, but its recovery record could not be removed: disk full".to_owned())
    );
    assert_eq!(ids(&held.disabled), ["a", "b"]);
}

#[test]
fn enabling_without_a_record_needs_no_file() {
    let mut held = data(&[], Vec::new());
    let event = DeviceEvent::Enumerated { report: report(vec![device("a", false)]), now: 1 };
    let next = perform_device(&mut held, "a", true, event);
    assert!(matches!(next, DeviceNext::Enable { recovery: false, .. }));
    let event = DeviceEvent::Looked {
        identity: identity("a"),
        recovery: false,
        report: MutationReport::confirmed(DeviceId("a".to_owned()), true, true),
        enumeration: report(vec![device("a", true)]),
    };
    assert!(done(perform_device(&mut held, "a", true, event)).is_ok());
    let event = DeviceEvent::Enumerated { report: report(Vec::new()), now: 1 };
    assert_eq!(
        done(perform_device(&mut held, "a", true, event)).err(),
        Some("a: controller is not present in the verified inventory".to_owned())
    );
    let event = DeviceEvent::Enumerated { report: Err(lost()), now: 1 };
    assert_eq!(
        done(perform_device(&mut held, "a", true, event)).err(),
        Some("device not found: pad".to_owned())
    );
}

#[test]
fn enabling_is_not_believed_without_a_look() {
    let mut held = data(&[], vec![record("a")]);
    for enumeration in [Err(lost()), report(Vec::new()), report(vec![device("a", false)])] {
        let event = DeviceEvent::Looked {
            identity: identity("a"),
            recovery: true,
            report: MutationReport::confirmed(DeviceId("a".to_owned()), true, true),
            enumeration,
        };
        assert_eq!(
            done(perform_device(&mut held, "a", true, event)).err(),
            Some("a: enable was not confirmed by a fresh enumeration".to_owned())
        );
    }
    let mut fresh = identity("a");
    fresh.instance_id = "another".to_owned();
    let event = DeviceEvent::Resolved { record: record("a"), result: Ok(fresh) };
    assert_eq!(
        done(perform_device(&mut held, "a", true, event)).err(),
        Some("a: persisted recovery identity no longer matches a fresh native resolve".to_owned())
    );
    let event =
        DeviceEvent::Enabled { identity: identity("a"), recovery: true, result: Err(lost()) };
    assert!(done(perform_device(&mut held, "a", true, event)).is_err());
    assert_eq!(ids(&held.disabled), ["a"]);
}

#[test]
fn a_confirmed_enable_is_of_the_expected_device() {
    assert!(confirm_enabled(&report(vec![device("a", true)]), "a", &identity("a")));
    assert!(!confirm_enabled(&report(vec![device("a", true)]), "a", &identity("b")));
    assert!(!confirm_enabled(&report(vec![device("a", false)]), "a", &identity("a")));
    assert!(!confirm_enabled(&Err(lost()), "a", &identity("a")));
}

#[test]
fn a_restore_counts_each_record_once() {
    let mut held = data(&[], vec![record("a"), record("b")]);
    let mut summary = RestoreSummary { succeeded: 0, failed: 0 };
    let of = record("a");
    let event = RestoreEvent::Resolved(Ok(identity("a")));
    let next = restore_disabled_inner(&mut held, &mut summary, &of, event);
    assert!(matches!(next, RestoreNext::Enable { .. }));
    let event = RestoreEvent::Enabled {
        verified: identity("a"),
        result: Ok(MutationReport::confirmed(DeviceId("a".to_owned()), true, true)),
    };
    let next = restore_disabled_inner(&mut held, &mut summary, &of, event);
    assert!(matches!(next, RestoreNext::Look { .. }));
    let event = RestoreEvent::Looked {
        verified: identity("a"),
        enumeration: report(vec![device("a", true)]),
    };
    let before = match restore_disabled_inner(&mut held, &mut summary, &of, event) {
        RestoreNext::SaveRemoval { before, gone: None, .. } => before,
        other => panic!("{other:?}"),
    };
    assert_eq!(ids(&held.disabled), ["b"]);
    assert_eq!(summary, RestoreSummary { succeeded: 0, failed: 0 });
    let event =
        RestoreEvent::RemovalSaved { identity: identity("a"), before, gone: None, result: Ok(()) };
    let next = restore_disabled_inner(&mut held, &mut summary, &of, event);
    assert!(matches!(next, RestoreNext::Done));
    assert_eq!(summary, RestoreSummary { succeeded: 1, failed: 0 });
    let of = record("b");
    let event = RestoreEvent::Resolved(Err(lost()));
    let next = restore_disabled_inner(&mut held, &mut summary, &of, event);
    assert!(matches!(next, RestoreNext::Done));
    assert_eq!(summary, RestoreSummary { succeeded: 1, failed: 1 });
    assert_eq!(ids(&held.disabled), ["b"]);
    assert_eq!(held.errors, ["b: device not found: pad; recovery record retained"]);
}

#[test]
fn the_record_of_a_vanished_device_is_removed() {
    let mut held = data(&[], vec![record("a")]);
    let mut summary = RestoreSummary { succeeded: 0, failed: 0 };
    let of = record("a");
    let gone = PlatformError::RecoveryGone("unplugged".to_owned());
    let next =
        restore_disabled_inner(&mut held, &mut summary, &of, RestoreEvent::Resolved(Err(gone)));
    let (before, gone) = match next {
        RestoreNext::SaveRemoval { before, gone, .. } => (before, gone),
        other => panic!("{other:?}"),
    };
    assert!(held.disabled.is_empty());
    assert_eq!(gone.as_deref(), Some("unplugged"));
    let event = RestoreEvent::RemovalSaved {
        identity: identity("a"),
        before,
        gone,
        result: Err("disk full".to_owned()),
    };
    restore_disabled_inner(&mut held, &mut summary, &of, event);
    assert_eq!(summary, RestoreSummary { succeeded: 0, failed: 1 });
    assert_eq!(ids(&held.disabled), ["a"]);
    assert_eq!(
        held.errors[1],
        "a: unplugged; the recovery record could not be removed: a was enabled, but its recovery record could not be removed: disk full"
    );
}

#[test]
fn a_restore_keeps_records_of_doubtful_devices() {
    let mut held = data(&[], vec![record("a")]);
    let mut summary = RestoreSummary { succeeded: 0, failed: 0 };
    let of = record("a");
    let mut other = identity("a");
    other.usage = 4;
    restore_disabled_inner(&mut held, &mut summary, &of, RestoreEvent::Resolved(Ok(other)));
    let event = RestoreEvent::Enabled { verified: identity("a"), result: Err(lost()) };
    restore_disabled_inner(&mut held, &mut summary, &of, event);
    let event = RestoreEvent::Looked { verified: identity("a"), enumeration: Err(lost()) };
    restore_disabled_inner(&mut held, &mut summary, &of, event);
    assert_eq!(summary, RestoreSummary { succeeded: 0, failed: 3 });
    assert_eq!(ids(&held.disabled), ["a"]);
    assert_eq!(
        held.errors,
        [
            "a: fresh identity does not match the persisted recovery record; record retained",
            "a: device not found: pad; recovery record retained",
            "a: enable was not confirmed by a fresh enumeration; recovery record retained",
        ]
    );
}

#[test]
fn shutdown_waits_for_a_complete_restore() {
    let complete = RestoreSummary { succeeded: 3, failed: 0 };
    assert_eq!(restore_for_shutdown(complete), Ok(complete));
    assert!(restore_for_shutdown(RestoreSummary { succeeded: 3, failed: 1 }).is_err());
}

#[test]
fn recovery_accepts_only_the_identity_on_record() {
    let id = DeviceId("a".to_owned());
    let resolved = resolve_verified_for_recovery(&id, Ok(identity("a")), &identity("a"));
    assert_eq!(resolved.ok(), Some(identity("a")));
    let mut other = identity("a");
    other.fingerprint = "another".to_owned();
    assert!(matches!(
        resolve_verified_for_recovery(&id, Ok(other), &identity("a")),
        Err(PlatformError::IdentityMismatch(_))
    ));
    assert!(matches!(
        resolve_verified_for_recovery(&id, Err(lost()), &identity("a")),
        Err(PlatformError::NotFound(_))
    ));
}

#[test]
fn hardware_is_the_same_only_if_every_part_is() {
    assert!(identity("a").same_hardware(&identity("a")));
    assert!(!identity("a").same_hardware(&identity("b")));
    let mut empty = identity("a");
    empty.platform.clear();
    assert!(!empty.is_valid());
    assert!(!empty.same_hardware(&empty.copy()));
    let kept = device("a", true).recovery_record(5).map(|record| record.requested_at);
    assert_eq!(kept.ok(), Some(5));
    assert!(device("a", true).verified().is_ok());
}

#[test]
fn platform_errors_are_told() {
    let m = || "x".to_owned();
    let cases = [
        (PlatformError::Unsupported(m()), "unsupported platform: x"),
        (PlatformError::PermissionDenied(m()), "permission denied: x"),
        (PlatformError::NotFound(m()), "device not found: x"),
        (
            PlatformError::RecoveryGone(m()),
            "app-disabled device is gone and has no persistent OS state: x",
        ),
        (PlatformError::IdentityMismatch(m()), "device identity changed: x"),
        (PlatformError::OperationFailed(m()), "device operation failed: x"),
        (PlatformError::VerificationFailed(m()), "device verification failed: x"),
        (PlatformError::LaunchFailed(m()), "could not open Bluetooth settings: x"),
    ];
    for (error, text) in cases {
        assert_eq!(error.describe(), text);
    }
}

#[test]
fn a_state_file_is_read_or_begun() {
    let path = "/data/controller-state.json";
    let disk = load_disk_state(path, StateFile::Missing).unwrap();
    assert_eq!(disk.schema, RECOVERY_SCHEMA);
    assert!(disk.selected.is_empty() && disk.disabled.is_empty());
    assert_eq!(disk.shortcut, "Ctrl+Shift+F10");
    let written = DiskState {
        schema: RECOVERY_SCHEMA,
        selected: vec!["pad".to_owned()],
        disabled: Vec::new(),
        shortcut: "F9".to_owned(),
    };
    let disk = load_disk_state(path, StateFile::Parsed(written)).unwrap();
    assert_eq!((disk.selected, disk.shortcut.as_str()), (vec!["pad".to_owned()], "F9"));
    assert_eq!(
        load_disk_state(path, StateFile::Malformed("EOF".to_owned())).unwrap_err(),
        "cannot parse /data/controller-state.json: EOF"
    );
    assert_eq!(
        load_disk_state(path, StateFile::Unreadable("denied".to_owned())).unwrap_err(),
        "cannot read /data/controller-state.json: denied"
    );
}

#[test]
fn a_lost_worker_is_shown() {
    let state = lost_state("panicked");
    assert!(state.devices.is_empty() && !state.shortcut_available);
    assert_eq!(state.shortcut, default_shortcut());
    assert_eq!(
        state.errors,
        vec!["controller worker terminated while refreshing state: panicked".to_owned()]
    );
}

#[test]
fn a_restore_of_all_records_keeps_those_that_failed() {
    let mut held = data(&[], vec![record("a"), record("b"), record("c")]);
    let mut summary = RestoreSummary { succeeded: 0, failed: 0 };
    for of in [record("a"), record("b"), record("c")] {
        let gone = of.id.as_str() == "b";
        let answer = if gone {
            PlatformError::RecoveryGone("unplugged".to_owned())
        } else {
            lost()
        };
        let event = RestoreEvent::Resolved(Err(answer));
        match restore_disabled_inner(&mut held, &mut summary, &of, event) {
            RestoreNext::SaveRemoval { identity, before, gone } => {
                let event = RestoreEvent::RemovalSaved { identity, before, gone, result: Ok(()) };
                restore_disabled_inner(&mut held, &mut summary, &of, event);
            }
            next => assert!(matches!(next, RestoreNext::Done)),
        }
    }
    assert_eq!(summary, RestoreSummary { succeeded: 1, failed: 2 });
    assert_eq!(ids(&held.disabled), ["a", "c"]);
}
