use controwly::updater::{
    bounded_text, busy_error, plugin_error_message, validate_update_artifact,
    validate_updater_config, CheckOutcome, DownloadOutcome, ErrorPhase, InstallEvent, InstallNext,
    InstallStage, PendingUpdate, PluginError, Progress, UpdateState, UpdateStatus, UpdaterConfig, UpdaterRuntime, MAX_ERROR_BYTES,
    MAX_PUBLIC_KEY_BYTES,
};

const ENDPOINT: &str =
    "https://github.com/wakemeup0/controwly/releases/latest/download/latest.json";

fn config(endpoints: Option<Vec<Option<&str>>>, pubkey: Option<&str>) -> Option<UpdaterConfig> {
    Some(UpdaterConfig {
        endpoints: endpoints.map(|list| {
            list.into_iter().map(|endpoint| endpoint.map(|text| text.to_owned())).collect()
        }),
        pubkey: pubkey.map(|text| text.to_owned()),
    })
}

fn refusal(config: &Option<UpdaterConfig>) -> String {
    validate_updater_config(config).expect_err("the configuration is refused")
}

fn update(version: &str) -> PendingUpdate {
    PendingUpdate {
        version: version.to_owned(),
        scheme: "https".to_owned(),
        signature: "RWQ".to_owned(),
    }
}

#[test]
fn long_text_is_cut_at_a_character() {
    assert_eq!(bounded_text("short", 8), "short");
    assert_eq!(bounded_text("abcdefghi", 8), "abcde...");
    assert_eq!(bounded_text("abcdéfghi", 8), "abcd...");
    assert_eq!(bounded_text("éé", 3), "...");
    assert_eq!(bounded_text("abcd", 2), "...");
    for max in [3usize, 4, 9, 10] {
        assert!(bounded_text("ä longer text 😀😀", max).len() <= max);
    }
}

#[test]
fn only_the_canonical_endpoint_with_a_key_is_accepted() {
    let good = config(Some(vec![Some(ENDPOINT)]), Some("key"));
    assert_eq!(validate_updater_config(&good), Ok(()));
    assert_eq!(refusal(&None), "Updater is not configured for this build");
    assert_eq!(
        refusal(&config(None, Some("key"))),
        "Updater has no configured HTTPS endpoint"
    );
    assert_eq!(
        refusal(&config(Some(vec![]), Some("key"))),
        "Updater must use exactly one canonical HTTPS endpoint"
    );
    assert_eq!(
        refusal(&config(Some(vec![Some(ENDPOINT), Some(ENDPOINT)]), Some("key"))),
        "Updater must use exactly one canonical HTTPS endpoint"
    );
    assert_eq!(
        refusal(&config(Some(vec![None]), Some("key"))),
        "Updater endpoint configuration is invalid"
    );
    assert_eq!(
        refusal(&config(Some(vec![Some("https://example.com/latest.json")]), Some("key"))),
        "Updater endpoint is not the Controwly GitHub release endpoint"
    );
    assert_eq!(
        refusal(&config(Some(vec![Some(ENDPOINT)]), None)),
        "Updater signing public key is not configured"
    );
    assert_eq!(
        refusal(&config(Some(vec![Some(ENDPOINT)]), Some(" \t"))),
        "Updater signing public key is not configured"
    );
    let long = "k".repeat(MAX_PUBLIC_KEY_BYTES + 1);
    assert_eq!(
        refusal(&config(Some(vec![Some(ENDPOINT)]), Some(&long))),
        "Updater signing public key is too large"
    );
    let limit = "k".repeat(MAX_PUBLIC_KEY_BYTES);
    let fitting = config(Some(vec![Some(ENDPOINT)]), Some(&limit));
    assert_eq!(validate_updater_config(&fitting), Ok(()));
}

#[test]
fn artifacts_need_https_and_a_signature() {
    assert_eq!(validate_update_artifact(&update("1.2.0")), Ok(()));
    let mut plain = update("1.2.0");
    plain.scheme = "http".to_owned();
    assert_eq!(
        validate_update_artifact(&plain),
        Err("Update artifact URL is not HTTPS; refusing to download it".to_owned())
    );
    let mut unsigned = update("1.2.0");
    unsigned.signature = "  ".to_owned();
    assert_eq!(
        validate_update_artifact(&unsigned),
        Err("Update has no signature; refusing to install an unsigned artifact".to_owned())
    );
    let mut large = update("1.2.0");
    large.signature = "s".repeat(MAX_PUBLIC_KEY_BYTES + 1);
    assert_eq!(
        validate_update_artifact(&large),
        Err("Update signature is too large; refusing to process it".to_owned())
    );
}

#[test]
fn failures_are_told_by_phase() {
    let check = "Update check failed. Check the connection and try again.";
    let install = "Update installation failed; the current version was kept. Try again later or contact support.";
    let offline = "Update service is unavailable or offline. Check the connection and try again.";
    assert_eq!(plugin_error_message(ErrorPhase::Check, PluginError::Other), check);
    assert_eq!(
        plugin_error_message(ErrorPhase::Download, PluginError::Other),
        "Update download failed; the current version was kept. Check the connection and try again."
    );
    assert_eq!(plugin_error_message(ErrorPhase::Download, PluginError::Package), install);
    assert_eq!(plugin_error_message(ErrorPhase::Install, PluginError::Package), install);
    assert_eq!(plugin_error_message(ErrorPhase::Check, PluginError::Package), check);
    assert_eq!(plugin_error_message(ErrorPhase::Check, PluginError::ReleaseNotFound), offline);
    assert_eq!(plugin_error_message(ErrorPhase::Install, PluginError::ReleaseNotFound), install);
    assert_eq!(plugin_error_message(ErrorPhase::Install, PluginError::Network), offline);
    for phase in [ErrorPhase::Check, ErrorPhase::Download, ErrorPhase::Install] {
        assert_eq!(
            plugin_error_message(phase, PluginError::Signature),
            "Update signature verification failed; the package was not installed. Contact the release maintainer."
        );
        assert_eq!(
            plugin_error_message(phase, PluginError::InsecureTransport),
            "Update configuration rejected: the updater endpoint must use HTTPS."
        );
        assert_eq!(
            plugin_error_message(phase, PluginError::Metadata),
            "Update metadata is invalid or has no signed artifact for this platform. Contact the release maintainer."
        );
        assert_eq!(
            plugin_error_message(phase, PluginError::NotConfigured),
            "Updater is not configured for this build or platform. Use a signed release build."
        );
    }
    assert_eq!(
        busy_error("installation"),
        "Another updater operation is already in progress; installation was not started"
    );
}

#[test]
fn an_update_is_found_fetched_and_installed() {
    let mut runtime = UpdaterRuntime::new();
    assert_eq!(runtime.state, UpdateState::idle());
    runtime.begin_check();
    assert_eq!(runtime.state, UpdateState::checking());
    let found = runtime.finish_check(CheckOutcome::Found(update("1.2.0")));
    assert_eq!(found, Ok(UpdateState::available("1.2.0".to_owned())));
    assert_eq!(runtime.begin_install(), Ok("1.2.0".to_owned()));
    let mut progress = Progress::start();
    progress.chunk(40, Some(100));
    assert!(!progress.is_due(99));
    assert!(progress.is_due(100));
    runtime.note_progress("1.2.0", progress);
    assert_eq!(
        runtime.state,
        UpdateState::downloading("1.2.0".to_owned(), 40, Some(100))
    );
    progress.chunk(60, None);
    assert_eq!(progress, Progress { downloaded: 100, total: Some(100) });
    assert!(progress.is_due(0));
    assert_eq!(runtime.finish_download("1.2.0", progress, DownloadOutcome::Done), Ok(()));
    assert_eq!(
        runtime.state,
        UpdateState::installing("1.2.0".to_owned(), 100, Some(100))
    );
    assert_eq!(runtime.after_restore(true), Ok(()));
    assert_eq!(runtime.finish_install(None), Ok(()));
    assert_eq!(runtime.state.status, UpdateStatus::Installing);
}

#[test]
fn an_installation_needs_an_offer() {
    let nothing = "No verified update is ready to install; check for updates first";
    let mut runtime = UpdaterRuntime::new();
    assert_eq!(runtime.begin_install(), Err(nothing.to_owned()));
    assert_eq!(runtime.state, UpdateState::idle());
    assert_eq!(runtime.finish_check(CheckOutcome::Current), Ok(UpdateState::current()));
    assert_eq!(runtime.begin_install(), Err(nothing.to_owned()));
    assert!(runtime.finish_check(CheckOutcome::Found(update("2"))).is_ok());
    assert!(runtime.begin_install().is_ok());
    assert_eq!(runtime.begin_install(), Err(nothing.to_owned()));
    runtime.pending = None;
    runtime.state = UpdateState::available("2".to_owned());
    assert_eq!(runtime.begin_install(), Err(nothing.to_owned()));
    let mut spoiled = update("2");
    spoiled.scheme = "ftp".to_owned();
    runtime.pending = Some(spoiled);
    assert!(runtime.begin_install().is_err());
    assert!(runtime.pending.is_none());
    assert_eq!(runtime.state.status, UpdateStatus::Error);
}

#[test]
fn a_failed_update_has_to_be_checked_again() {
    let mut runtime = UpdaterRuntime::new();
    let refused = runtime.finish_check(CheckOutcome::Refused("x".repeat(600)));
    let shown = format!("{}...", "x".repeat(MAX_ERROR_BYTES - 3));
    assert_eq!(refused, Err(shown.clone()));
    assert_eq!(runtime.state, UpdateState::error(shown));
    let mut insecure = update("2");
    insecure.scheme = "http".to_owned();
    assert!(runtime.finish_check(CheckOutcome::Found(insecure)).is_err());
    assert!(runtime.finish_check(CheckOutcome::Failed(PluginError::Network)).is_err());
    assert!(runtime.pending.is_none());

    assert!(runtime.finish_check(CheckOutcome::Found(update("2"))).is_ok());
    assert!(runtime.begin_install().is_ok());
    assert_eq!(
        runtime.finish_download("2", Progress::start(), DownloadOutcome::TimedOut),
        Err("Update download timed out; check the connection and try again".to_owned())
    );
    assert!(runtime.pending.is_none());

    assert!(runtime.finish_check(CheckOutcome::Found(update("2"))).is_ok());
    assert!(runtime.begin_install().is_ok());
    let failed = DownloadOutcome::Failed(PluginError::Signature);
    assert!(runtime.finish_download("2", Progress::start(), failed).is_err());
    assert_eq!(
        runtime.after_restore(false),
        Err("Update blocked: disabled controllers could not be restored; recovery records were retained. Restore them and try again.".to_owned())
    );
    assert!(runtime.finish_install(Some(PluginError::Other)).is_err());
    assert_eq!(runtime.set_error("gone"), "gone");
    assert_eq!(runtime.state, UpdateState::error("gone".to_owned()));
}

#[test]
fn progress_never_overflows() {
    let mut progress = Progress { downloaded: u64::MAX - 1, total: None };
    progress.chunk(5, None);
    assert_eq!(progress, Progress { downloaded: u64::MAX, total: None });
    assert!(!progress.is_due(0));
}

fn offered() -> UpdaterRuntime {
    let mut runtime = UpdaterRuntime::new();
    assert!(runtime.finish_check(CheckOutcome::Found(update("2"))).is_ok());
    runtime
}

/// What has to be done after the last of the events.
fn after(runtime: &mut UpdaterRuntime, events: &[InstallEvent]) -> InstallNext {
    let mut stage = InstallStage::Waiting;
    let mut last = InstallNext::Continue;
    for event in events {
        let (reached, next) = runtime.install_step(stage, *event);
        stage = reached;
        last = next;
    }
    last
}

#[test]
fn the_installer_starts_after_download_and_restore() {
    let fetched = InstallEvent::Fetched { length: 4, content_length: Some(8) };
    let done = InstallEvent::Downloaded(DownloadOutcome::Done);
    let restored = InstallEvent::Restored(true);
    let mut runtime = offered();
    assert!(matches!(after(&mut runtime, &[InstallEvent::Requested]), InstallNext::Download));
    let mut runtime = offered();
    let events = [InstallEvent::Requested, fetched, fetched];
    assert!(matches!(after(&mut runtime, &events), InstallNext::Continue));
    assert_eq!((runtime.state.downloaded, runtime.state.total), (8, Some(8)));
    let events = [InstallEvent::Requested, fetched, done];
    assert!(matches!(after(&mut offered(), &events), InstallNext::Restore));
    let events = [InstallEvent::Requested, fetched, done, restored];
    assert!(matches!(after(&mut offered(), &events), InstallNext::Install));
    let events = [InstallEvent::Requested, done, restored, InstallEvent::Installed(None)];
    assert!(matches!(after(&mut offered(), &events), InstallNext::Done(Ok(()))));
    for events in [
        vec![InstallEvent::Requested, restored],
        vec![done, restored],
        vec![InstallEvent::Requested, restored, done],
        vec![InstallEvent::Requested, InstallEvent::Downloaded(DownloadOutcome::TimedOut), restored],
    ] {
        assert!(matches!(after(&mut offered(), &events), InstallNext::Done(Err(_))));
    }
}

#[test]
fn an_unfinished_restore_installs_nothing() {
    let mut runtime = offered();
    let done = InstallEvent::Downloaded(DownloadOutcome::Done);
    let events = [InstallEvent::Requested, done, InstallEvent::Restored(false)];
    let next = after(&mut runtime, &events);
    assert!(
        matches!(next, InstallNext::Done(Err(message)) if message.starts_with("Update blocked:"))
    );
    assert!(runtime.pending.is_none());
    assert_eq!(runtime.state.status, UpdateStatus::Error);
    let mut idle = UpdaterRuntime::new();
    let next = after(&mut idle, &[InstallEvent::Requested]);
    assert!(matches!(next, InstallNext::Done(Err(_))));
    assert_eq!(idle.state, UpdateState::idle());
    let mut runtime = offered();
    let failed = InstallEvent::Installed(Some(PluginError::Package));
    let events = [InstallEvent::Requested, done, InstallEvent::Restored(true), failed];
    assert!(matches!(after(&mut runtime, &events), InstallNext::Done(Err(_))));
    assert_eq!(runtime.state.status, UpdateStatus::Error);
}
