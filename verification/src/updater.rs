//! The dialogue about updates: what is shown, what is refused, and when an
//! update may be installed.
use crate::text::{
    byte_len, chars_of, joined, joined3, opt_text, same, string_of, text_result, trim_ends, trimmed,
    utf8_len, view_result, Cut,
};
use vstd::prelude::*;
use vstd::utf8::{encode_scalar, encode_utf8};

verus! {

pub const MAX_PUBLIC_KEY_BYTES: usize = 16384;

pub const MAX_ERROR_BYTES: usize = 512;

/// The pause between two shown states of a download, in milliseconds.
pub const PROGRESS_EVENT_INTERVAL_MS: u64 = 100;

// States.
#[derive(Clone, Copy, Debug, PartialEq, Eq, Structural)]
pub enum UpdateStatus {
    Idle,
    Checking,
    Current,
    Available,
    Downloading,
    Installing,
    Error,
}

#[derive(Clone, Debug, PartialEq, Eq)]
pub struct UpdateState {
    pub status: UpdateStatus,
    pub version: Option<String>,
    pub downloaded: u64,
    pub total: Option<u64>,
    pub error: Option<String>,
}

pub struct UpdateModel {
    pub status: UpdateStatus,
    pub version: Option<Seq<char>>,
    pub downloaded: u64,
    pub total: Option<u64>,
    pub error: Option<Seq<char>>,
}

impl View for UpdateState {
    type V = UpdateModel;

    open spec fn view(&self) -> UpdateModel {
        UpdateModel {
            status: self.status,
            version: opt_text(self.version),
            downloaded: self.downloaded,
            total: self.total,
            error: opt_text(self.error),
        }
    }
}

/// A state that says nothing but where the dialogue is.
pub open spec fn plain(status: UpdateStatus) -> UpdateModel {
    UpdateModel { status, version: None, downloaded: 0, total: None, error: None }
}

pub open spec fn about_version(
    status: UpdateStatus,
    version: Seq<char>,
    downloaded: u64,
    total: Option<u64>,
) -> UpdateModel {
    UpdateModel { status, version: Some(version), downloaded, total, error: None }
}

pub open spec fn failed_state(message: Seq<char>) -> UpdateModel {
    UpdateModel {
        status: UpdateStatus::Error,
        version: None,
        downloaded: 0,
        total: None,
        error: Some(message),
    }
}

impl UpdateState {
    pub fn idle() -> (r: Self)
        ensures
            r@ == plain(UpdateStatus::Idle),
    {
        UpdateState {
            status: UpdateStatus::Idle,
            version: None,
            downloaded: 0,
            total: None,
            error: None,
        }
    }

    pub fn checking() -> (r: Self)
        ensures
            r@ == plain(UpdateStatus::Checking),
    {
        UpdateState {
            status: UpdateStatus::Checking,
            version: None,
            downloaded: 0,
            total: None,
            error: None,
        }
    }

    pub fn current() -> (r: Self)
        ensures
            r@ == plain(UpdateStatus::Current),
    {
        UpdateState {
            status: UpdateStatus::Current,
            version: None,
            downloaded: 0,
            total: None,
            error: None,
        }
    }

    pub fn available(version: String) -> (r: Self)
        ensures
            r@ == about_version(UpdateStatus::Available, version@, 0, None),
    {
        UpdateState {
            status: UpdateStatus::Available,
            version: Some(version),
            downloaded: 0,
            total: None,
            error: None,
        }
    }

    pub fn downloading(version: String, downloaded: u64, total: Option<u64>) -> (r: Self)
        ensures
            r@ == about_version(UpdateStatus::Downloading, version@, downloaded, total),
    {
        UpdateState {
            status: UpdateStatus::Downloading,
            version: Some(version),
            downloaded,
            total,
            error: None,
        }
    }

    pub fn installing(version: String, downloaded: u64, total: Option<u64>) -> (r: Self)
        ensures
            r@ == about_version(UpdateStatus::Installing, version@, downloaded, total),
    {
        UpdateState {
            status: UpdateStatus::Installing,
            version: Some(version),
            downloaded,
            total,
            error: None,
        }
    }

    pub fn error(message: String) -> (r: Self)
        ensures
            r@ == failed_state(message@),
    {
        UpdateState {
            status: UpdateStatus::Error,
            version: None,
            downloaded: 0,
            total: None,
            error: Some(message),
        }
    }

    pub fn copy(&self) -> (r: Self)
        ensures
            r == *self,
    {
        UpdateState {
            status: self.status,
            version: crate::text::copy_opt(&self.version),
            downloaded: self.downloaded,
            total: self.total,
            error: crate::text::copy_opt(&self.error),
        }
    }
}

// Texts.
/// The longest beginning of a text that fits into so many bytes.
pub open spec fn fitting(s: Seq<char>, max_bytes: nat) -> Seq<char>
    decreases s.len(),
{
    if s.len() == 0 || utf8_len(s) <= max_bytes {
        s
    } else {
        fitting(s.drop_last(), max_bytes)
    }
}

pub open spec fn bounded(s: Seq<char>, max_bytes: nat) -> Seq<char> {
    if utf8_len(s) <= max_bytes {
        s
    } else {
        fitting(
            s,
            if max_bytes < 3 {
                0
            } else {
                (max_bytes - 3) as nat
            },
        ) + "..."@
    }
}

proof fn lemma_utf8_joined(a: Seq<char>, b: Seq<char>)
    ensures
        encode_utf8(a + b) == encode_utf8(a) + encode_utf8(b),
    decreases a.len(),
{
    if a.len() == 0 {
        assert(a + b == b);
        assert(encode_utf8(a) + encode_utf8(b) == encode_utf8(b));
    } else {
        lemma_utf8_joined(a.drop_first(), b);
        assert((a + b).drop_first() == a.drop_first() + b);
        assert((a + b)[0] == a[0]);
        assert(encode_utf8(a + b) == encode_scalar(a[0] as u32) + (encode_utf8(a.drop_first())
            + encode_utf8(b)));
        assert(encode_utf8(a) + encode_utf8(b) == encode_scalar(a[0] as u32) + (encode_utf8(
            a.drop_first(),
        ) + encode_utf8(b)));
    }
}

proof fn lemma_prefix_bytes(s: Seq<char>, i: int, j: int)
    requires
        0 <= i <= j <= s.len(),
    ensures
        utf8_len(s.take(i)) <= utf8_len(s.take(j)),
{
    assert(s.take(j) == s.take(i) + s.subrange(i, j));
    lemma_utf8_joined(s.take(i), s.subrange(i, j));
}

proof fn lemma_fitting_at(s: Seq<char>, max_bytes: nat, at: int)
    requires
        0 <= at <= s.len(),
        at == 0 || utf8_len(s.take(at)) <= max_bytes,
        at < s.len() ==> utf8_len(s.take(at + 1)) > max_bytes,
    ensures
        fitting(s, max_bytes) == s.take(at),
    decreases s.len(),
{
    if at == s.len() {
        assert(s.take(at) == s);
    } else {
        lemma_prefix_bytes(s, at + 1, s.len() as int);
        assert(s.take(s.len() as int) == s);
        let head = s.drop_last();
        assert(head.take(at) == s.take(at));
        if at < head.len() {
            assert(head.take(at + 1) == s.take(at + 1));
        }
        lemma_fitting_at(head, max_bytes, at);
    }
}

/// The text, cut at a character and marked as cut where it has too many bytes.
pub fn bounded_text(value: &str, max_bytes: usize) -> (r: String)
    ensures
        r@ == bounded(value@, max_bytes as nat),
{
    if byte_len(value) <= max_bytes {
        return value.to_owned();
    }
    let limit: usize = if max_bytes < 3 {
        0
    } else {
        max_bytes - 3
    };
    let chars = chars_of(value);
    let mut used: usize = 0;
    let mut i: usize = 0;
    assert(value@.take(0).len() == 0);
    while i < chars.len()
        invariant_except_break
            i <= chars@.len(),
            chars@ == value@,
            used == utf8_len(value@.take(i as int)),
            used <= limit,
        ensures
            i <= chars@.len(),
            chars@ == value@,
            utf8_len(value@.take(i as int)) <= limit,
            i < chars@.len() ==> utf8_len(value@.take(i + 1)) > limit,
        decreases chars@.len() - i,
    {
        let one = vstd::slice::slice_subrange(chars.as_slice(), i, i + 1);
        let size: usize = byte_len(string_of(one).as_str());
        proof {
            assert(value@.take(i + 1) == value@.take(i as int) + one@);
            lemma_utf8_joined(value@.take(i as int), one@);
        }
        if size > limit - used {
            break ;
        }
        used += size;
        i += 1;
    }
    let head = vstd::slice::slice_subrange(chars.as_slice(), 0, i);
    proof {
        lemma_fitting_at(value@, limit as nat, i as int);
        assert(head@ == value@.take(i as int));
    }
    joined(string_of(head).as_str(), "...")
}

/// A bounded text keeps its bound, and a text that fits is kept as it is.
pub proof fn bounded_text_fits(s: Seq<char>, max_bytes: nat)
    requires
        max_bytes >= 3,
    ensures
        utf8_len(bounded(s, max_bytes)) <= max_bytes,
        utf8_len(s) <= max_bytes ==> bounded(s, max_bytes) == s,
{
    if utf8_len(s) > max_bytes {
        let head = fitting(s, (max_bytes - 3) as nat);
        lemma_fitting_fits(s, (max_bytes - 3) as nat);
        lemma_utf8_joined(head, "..."@);
        reveal_strlit("...");
        vstd::utf8::is_ascii_chars_encode_utf8("..."@);
    }
}

proof fn lemma_fitting_fits(s: Seq<char>, max_bytes: nat)
    ensures
        utf8_len(fitting(s, max_bytes)) <= max_bytes,
    decreases s.len(),
{
    if s.len() > 0 && utf8_len(s) > max_bytes {
        lemma_fitting_fits(s.drop_last(), max_bytes);
    }
}

pub open spec fn busy_text(operation: Seq<char>) -> Seq<char> {
    "Another updater operation is already in progress; "@ + operation + " was not started"@
}

pub fn busy_error(operation: &str) -> (r: String)
    ensures
        r@ == busy_text(operation@),
{
    joined3(
        "Another updater operation is already in progress; ",
        operation,
        " was not started",
    )
}

// Failures.
#[derive(Clone, Copy, Debug, PartialEq, Eq, Structural)]
pub enum ErrorPhase {
    Check,
    Download,
    Install,
}

/// What went wrong in the program that fetches and installs updates.
#[derive(Clone, Copy, Debug, PartialEq, Eq, Structural)]
pub enum PluginError {
    /// The signature is not that of the package.
    Signature,
    InsecureTransport,
    Network,
    ReleaseNotFound,
    /// The description of the release cannot be used.
    Metadata,
    /// This build or platform has no updates.
    NotConfigured,
    /// The package could not be installed.
    Package,
    Other,
}

pub open spec fn failure_text(phase: ErrorPhase, error: PluginError) -> Seq<char> {
    match error {
        PluginError::Signature =>
            "Update signature verification failed; the package was not installed. Contact the release maintainer."@,
        PluginError::InsecureTransport =>
            "Update configuration rejected: the updater endpoint must use HTTPS."@,
        PluginError::Network => offline_text(),
        PluginError::Metadata =>
            "Update metadata is invalid or has no signed artifact for this platform. Contact the release maintainer."@,
        PluginError::NotConfigured =>
            "Updater is not configured for this build or platform. Use a signed release build."@,
        PluginError::ReleaseNotFound => if phase == ErrorPhase::Check {
            offline_text()
        } else {
            phase_text(phase)
        },
        PluginError::Package => if phase == ErrorPhase::Download {
            phase_text(ErrorPhase::Install)
        } else {
            phase_text(phase)
        },
        PluginError::Other => phase_text(phase),
    }
}

pub open spec fn offline_text() -> Seq<char> {
    "Update service is unavailable or offline. Check the connection and try again."@
}

pub open spec fn phase_text(phase: ErrorPhase) -> Seq<char> {
    match phase {
        ErrorPhase::Check => "Update check failed. Check the connection and try again."@,
        ErrorPhase::Download =>
            "Update download failed; the current version was kept. Check the connection and try again."@,
        ErrorPhase::Install =>
            "Update installation failed; the current version was kept. Try again later or contact support."@,
    }
}

fn tell_phase(phase: ErrorPhase) -> (r: String)
    ensures
        r@ == phase_text(phase),
{
    match phase {
        ErrorPhase::Check => "Update check failed. Check the connection and try again.".to_owned(),
        ErrorPhase::Download =>
            "Update download failed; the current version was kept. Check the connection and try again.".to_owned(),
        ErrorPhase::Install =>
            "Update installation failed; the current version was kept. Try again later or contact support.".to_owned(),
    }
}

fn tell_offline() -> (r: String)
    ensures
        r@ == offline_text(),
{
    "Update service is unavailable or offline. Check the connection and try again.".to_owned()
}

pub fn plugin_error_message(phase: ErrorPhase, error: PluginError) -> (r: String)
    ensures
        r@ == failure_text(phase, error),
{
    match error {
        PluginError::Signature =>
            "Update signature verification failed; the package was not installed. Contact the release maintainer.".to_owned(),
        PluginError::InsecureTransport =>
            "Update configuration rejected: the updater endpoint must use HTTPS.".to_owned(),
        PluginError::Network => tell_offline(),
        PluginError::Metadata =>
            "Update metadata is invalid or has no signed artifact for this platform. Contact the release maintainer.".to_owned(),
        PluginError::NotConfigured =>
            "Updater is not configured for this build or platform. Use a signed release build.".to_owned(),
        PluginError::ReleaseNotFound => if phase == ErrorPhase::Check {
            tell_offline()
        } else {
            tell_phase(phase)
        },
        PluginError::Package => if phase == ErrorPhase::Download {
            tell_phase(ErrorPhase::Install)
        } else {
            tell_phase(phase)
        },
        PluginError::Other => tell_phase(phase),
    }
}

// The configuration.
/// What the build says about updates; a value that is no text is `None`.
#[derive(Clone, Debug)]
pub struct UpdaterConfig {
    pub endpoints: Option<Vec<Option<String>>>,
    pub pubkey: Option<String>,
}

pub open spec fn canonical_endpoint() -> Seq<char> {
    "https://github.com/wakemeup0/controwly/releases/latest/download/latest.json"@
}

pub open spec fn endpoint_problem(endpoints: Option<Vec<Option<String>>>) -> Option<Seq<char>> {
    match endpoints {
        None => Some("Updater has no configured HTTPS endpoint"@),
        Some(list) => if list@.len() != 1 {
            Some("Updater must use exactly one canonical HTTPS endpoint"@)
        } else {
            match list@[0] {
                None => Some("Updater endpoint configuration is invalid"@),
                Some(endpoint) => if endpoint@ != canonical_endpoint() {
                    Some("Updater endpoint is not the Controwly GitHub release endpoint"@)
                } else {
                    None
                },
            }
        },
    }
}

pub open spec fn key_problem(pubkey: Option<String>) -> Option<Seq<char>> {
    match pubkey {
        None => Some("Updater signing public key is not configured"@),
        Some(key) => if trimmed(key@).len() == 0 {
            Some("Updater signing public key is not configured"@)
        } else if utf8_len(key@) > MAX_PUBLIC_KEY_BYTES {
            Some("Updater signing public key is too large"@)
        } else {
            None
        },
    }
}

/// Updates come from one place only, and only with a key to check them.
pub open spec fn config_check(config: Option<UpdaterConfig>) -> Result<(), Seq<char>> {
    match config {
        None => Err("Updater is not configured for this build"@),
        Some(config) => match (endpoint_problem(config.endpoints), key_problem(config.pubkey)) {
            (Some(problem), _) => Err(problem),
            (None, Some(problem)) => Err(problem),
            (None, None) => Ok(()),
        },
    }
}

pub fn validate_updater_config(config: &Option<UpdaterConfig>) -> (r: Result<(), String>)
    ensures
        text_result(r) == config_check(*config),
{
    let config = match config {
        Some(config) => config,
        None => {
            return Err("Updater is not configured for this build".to_owned());
        },
    };
    let endpoints = match &config.endpoints {
        Some(endpoints) => endpoints,
        None => {
            return Err("Updater has no configured HTTPS endpoint".to_owned());
        },
    };
    if endpoints.len() != 1 {
        return Err("Updater must use exactly one canonical HTTPS endpoint".to_owned());
    }
    match &endpoints[0] {
        None => {
            return Err("Updater endpoint configuration is invalid".to_owned());
        },
        Some(endpoint) => {
            if !same(
                endpoint.as_str(),
                "https://github.com/wakemeup0/controwly/releases/latest/download/latest.json",
            ) {
                return Err(
                    "Updater endpoint is not the Controwly GitHub release endpoint".to_owned(),
                );
            }
        },
    }
    match &config.pubkey {
        None => Err("Updater signing public key is not configured".to_owned()),
        Some(key) => {
            if trim_ends(key.as_str(), Cut::Space).as_str().is_empty() {
                Err("Updater signing public key is not configured".to_owned())
            } else if byte_len(key.as_str()) > MAX_PUBLIC_KEY_BYTES {
                Err("Updater signing public key is too large".to_owned())
            } else {
                Ok(())
            }
        },
    }
}

/// The one endpoint that is accepted uses HTTPS.
pub proof fn the_accepted_endpoint_is_secure(config: UpdaterConfig)
    requires
        config_check(Some(config)) is Ok,
    ensures
        config.endpoints matches Some(list) && list@.len() == 1 && (list@[0] matches Some(endpoint)
            && crate::text::starts_with(endpoint@, "https://"@)),
{
    reveal_strlit("https://");
    reveal_strlit("https://github.com/wakemeup0/controwly/releases/latest/download/latest.json");
    assert(canonical_endpoint().take("https://"@.len() as int) == "https://"@);
}

// The update.
/// What is known of an update that can be fetched.
#[derive(Clone, Debug)]
pub struct PendingUpdate {
    pub version: String,
    pub scheme: String,
    pub signature: String,
}

pub struct PendingModel {
    pub version: Seq<char>,
    pub scheme: Seq<char>,
    pub signature: Seq<char>,
}

impl View for PendingUpdate {
    type V = PendingModel;

    open spec fn view(&self) -> PendingModel {
        PendingModel {
            version: self.version@,
            scheme: self.scheme@,
            signature: self.signature@,
        }
    }
}

pub open spec fn artifact_check(update: PendingModel) -> Result<(), Seq<char>> {
    if update.scheme != "https"@ {
        Err("Update artifact URL is not HTTPS; refusing to download it"@)
    } else if trimmed(update.signature).len() == 0 {
        Err("Update has no signature; refusing to install an unsigned artifact"@)
    } else if utf8_len(update.signature) > MAX_PUBLIC_KEY_BYTES {
        Err("Update signature is too large; refusing to process it"@)
    } else {
        Ok(())
    }
}

pub fn validate_update_artifact(update: &PendingUpdate) -> (r: Result<(), String>)
    ensures
        text_result(r) == artifact_check(update@),
{
    if !same(update.scheme.as_str(), "https") {
        return Err("Update artifact URL is not HTTPS; refusing to download it".to_owned());
    }
    if trim_ends(update.signature.as_str(), Cut::Space).as_str().is_empty() {
        return Err(
            "Update has no signature; refusing to install an unsigned artifact".to_owned(),
        );
    }
    if byte_len(update.signature.as_str()) > MAX_PUBLIC_KEY_BYTES {
        return Err("Update signature is too large; refusing to process it".to_owned());
    }
    Ok(())
}

// The dialogue.
/// The shown state, and the update that may be installed.
#[derive(Debug)]
pub struct UpdaterRuntime {
    pub state: UpdateState,
    pub pending: Option<PendingUpdate>,
}

pub struct RuntimeModel {
    pub state: UpdateModel,
    pub pending: Option<PendingModel>,
}

impl View for UpdaterRuntime {
    type V = RuntimeModel;

    open spec fn view(&self) -> RuntimeModel {
        RuntimeModel {
            state: self.state@,
            pending: crate::fingerprint::opt_view(self.pending),
        }
    }
}

/// How a check ended.
#[derive(Debug)]
pub enum CheckOutcome {
    /// The configuration was refused.
    Refused(String),
    Failed(PluginError),
    Current,
    Found(PendingUpdate),
}

/// How a download ended.
#[derive(Clone, Copy, Debug, PartialEq, Eq, Structural)]
pub enum DownloadOutcome {
    Done,
    Failed(PluginError),
    TimedOut,
}

/// What was fetched so far.
#[derive(Clone, Copy, Debug, PartialEq, Eq, Structural)]
pub struct Progress {
    pub downloaded: u64,
    pub total: Option<u64>,
}

/// An update that failed: the message is shown and nothing can be installed.
pub open spec fn failed_runtime(message: Seq<char>) -> RuntimeModel {
    RuntimeModel {
        state: failed_state(bounded(message, MAX_ERROR_BYTES as nat)),
        pending: None,
    }
}

pub open spec fn checked(outcome: CheckOutcome) -> RuntimeModel {
    match outcome {
        CheckOutcome::Refused(message) => failed_runtime(message@),
        CheckOutcome::Failed(error) => failed_runtime(failure_text(ErrorPhase::Check, error)),
        CheckOutcome::Current => RuntimeModel {
            state: plain(UpdateStatus::Current),
            pending: None,
        },
        CheckOutcome::Found(update) => match artifact_check(update@) {
            Err(message) => failed_runtime(message),
            Ok(_) => RuntimeModel {
                state: about_version(
                    UpdateStatus::Available,
                    bounded(update@.version, MAX_ERROR_BYTES as nat),
                    0,
                    None,
                ),
                pending: Some(update@),
            },
        },
    }
}

/// What a command answers: the new state, or the shown error.
pub open spec fn check_answer(after: RuntimeModel) -> Result<UpdateModel, Seq<char>> {
    match after.state.error {
        Some(message) => Err(message),
        None => Ok(after.state),
    }
}

pub open spec fn nothing_ready() -> Seq<char> {
    "No verified update is ready to install; check for updates first"@
}

/// An installation begins only with an update that a check found and that is
/// still fit to be fetched.
pub open spec fn install_begun(before: RuntimeModel) -> (RuntimeModel, Result<Seq<char>, Seq<char>>) {
    match before.pending {
        None => (before, Err(nothing_ready())),
        Some(update) => if before.state.status != UpdateStatus::Available {
            (before, Err(nothing_ready()))
        } else {
            match artifact_check(update) {
                Err(message) => (
                    failed_runtime(message),
                    Err(bounded(message, MAX_ERROR_BYTES as nat)),
                ),
                Ok(_) => {
                    let version = bounded(update.version, MAX_ERROR_BYTES as nat);
                    (
                        RuntimeModel {
                            state: about_version(UpdateStatus::Downloading, version, 0, None),
                            ..before
                        },
                        Ok(version),
                    )
                },
            }
        },
    }
}

pub open spec fn download_message(outcome: DownloadOutcome) -> Option<Seq<char>> {
    match outcome {
        DownloadOutcome::Done => None,
        DownloadOutcome::Failed(error) => Some(failure_text(ErrorPhase::Download, error)),
        DownloadOutcome::TimedOut => Some(
            "Update download timed out; check the connection and try again"@,
        ),
    }
}

pub open spec fn blocked_text() -> Seq<char> {
    "Update blocked: disabled controllers could not be restored; recovery records were retained. Restore them and try again."@
}

/// What was fetched after one more piece; the count stops at its bound.
pub open spec fn fetched(before: Progress, length: u64, content_length: Option<u64>) -> Progress {
    Progress {
        downloaded: if before.downloaded + length <= u64::MAX {
            (before.downloaded + length) as u64
        } else {
            u64::MAX
        },
        total: if content_length is Some {
            content_length
        } else {
            before.total
        },
    }
}

impl Progress {
    pub fn start() -> (r: Self)
        ensures
            r == (Progress { downloaded: 0, total: None }),
    {
        Progress { downloaded: 0, total: None }
    }

    /// One more piece was fetched.
    pub fn chunk(&mut self, length: u64, content_length: Option<u64>)
        ensures
            *final(self) == fetched(*old(self), length, content_length),
    {
        self.downloaded = self.downloaded.saturating_add(length);
        if content_length.is_some() {
            self.total = content_length;
        }
    }

    /// Whether the state is shown now, so long after it was last shown.
    pub fn is_due(&self, elapsed_ms: u64) -> (r: bool)
        ensures
            r == (elapsed_ms >= PROGRESS_EVENT_INTERVAL_MS || (self.total matches Some(total)
                && self.downloaded >= total)),
    {
        elapsed_ms >= PROGRESS_EVENT_INTERVAL_MS || match self.total {
            Some(total) => self.downloaded >= total,
            None => false,
        }
    }
}

impl UpdaterRuntime {
    pub fn new() -> (r: Self)
        ensures
            r@ == (RuntimeModel { state: plain(UpdateStatus::Idle), pending: None }),
    {
        UpdaterRuntime { state: UpdateState::idle(), pending: None }
    }

    /// Shows an error and gives the update up; the shown message is returned.
    pub fn set_error(&mut self, message: &str) -> (r: String)
        ensures
            final(self)@ == failed_runtime(message@),
            r@ == bounded(message@, MAX_ERROR_BYTES as nat),
    {
        self.pending = None;
        let message = bounded_text(message, MAX_ERROR_BYTES);
        self.state = UpdateState::error(message.clone());
        message
    }

    pub fn begin_check(&mut self)
        ensures
            final(self)@ == (RuntimeModel { state: plain(UpdateStatus::Checking), pending: None }),
    {
        self.pending = None;
        self.state = UpdateState::checking();
    }

    pub fn finish_check(&mut self, outcome: CheckOutcome) -> (r: Result<UpdateState, String>)
        ensures
            final(self)@ == checked(outcome),
            view_result(r) == check_answer(final(self)@),
    {
        match outcome {
            CheckOutcome::Refused(message) => Err(self.set_error(message.as_str())),
            CheckOutcome::Failed(error) => {
                let message = plugin_error_message(ErrorPhase::Check, error);
                Err(self.set_error(message.as_str()))
            },
            CheckOutcome::Current => {
                self.pending = None;
                self.state = UpdateState::current();
                Ok(self.state.copy())
            },
            CheckOutcome::Found(update) => {
                match validate_update_artifact(&update) {
                    Ok(_) => {},
                    Err(message) => {
                        return Err(self.set_error(message.as_str()));
                    },
                }
                let version = bounded_text(update.version.as_str(), MAX_ERROR_BYTES);
                self.pending = Some(update);
                self.state = UpdateState::available(version);
                Ok(self.state.copy())
            },
        }
    }

    /// Begins an installation; the version that is fetched is returned.
    pub fn begin_install(&mut self) -> (r: Result<String, String>)
        ensures
            (final(self)@, view_result(r)) == install_begun(old(self)@),
    {
        let version = match &self.pending {
            Some(update) => {
                if self.state.status != UpdateStatus::Available {
                    return Err(
                        "No verified update is ready to install; check for updates first".to_owned(),
                    );
                }
                match validate_update_artifact(update) {
                    Ok(_) => bounded_text(update.version.as_str(), MAX_ERROR_BYTES),
                    Err(message) => {
                        return Err(self.set_error(message.as_str()));
                    },
                }
            },
            None => {
                return Err(
                    "No verified update is ready to install; check for updates first".to_owned(),
                );
            },
        };
        self.state = UpdateState::downloading(version.clone(), 0, None);
        Ok(version)
    }

    pub fn note_progress(&mut self, version: &str, progress: Progress)
        ensures
            final(self)@ == (RuntimeModel {
                state: about_version(
                    UpdateStatus::Downloading,
                    version@,
                    progress.downloaded,
                    progress.total,
                ),
                ..old(self)@
            }),
    {
        self.state = UpdateState::downloading(
            version.to_owned(),
            progress.downloaded,
            progress.total,
        );
    }

    pub fn finish_download(
        &mut self,
        version: &str,
        progress: Progress,
        outcome: DownloadOutcome,
    ) -> (r: Result<(), String>)
        ensures
            match download_message(outcome) {
                None => r is Ok && final(self)@ == (RuntimeModel {
                    state: about_version(
                        UpdateStatus::Installing,
                        version@,
                        progress.downloaded,
                        progress.total,
                    ),
                    ..old(self)@
                }),
                Some(message) => final(self)@ == failed_runtime(message) && (r matches Err(e)
                    && e@ == bounded(message, MAX_ERROR_BYTES as nat)),
            },
    {
        match outcome {
            DownloadOutcome::Done => {
                self.state = UpdateState::installing(
                    version.to_owned(),
                    progress.downloaded,
                    progress.total,
                );
                Ok(())
            },
            DownloadOutcome::Failed(error) => {
                let message = plugin_error_message(ErrorPhase::Download, error);
                Err(self.set_error(message.as_str()))
            },
            DownloadOutcome::TimedOut => Err(
                self.set_error("Update download timed out; check the connection and try again"),
            ),
        }
    }

    /// The controllers must be restored before anything is installed.
    pub fn after_restore(&mut self, restored: bool) -> (r: Result<(), String>)
        ensures
            restored ==> r is Ok && final(self)@ == old(self)@,
            !restored ==> final(self)@ == failed_runtime(blocked_text()) && (r matches Err(e) && e@
                == bounded(blocked_text(), MAX_ERROR_BYTES as nat)),
    {
        if restored {
            return Ok(());
        }
        Err(
            self.set_error(
                "Update blocked: disabled controllers could not be restored; recovery records were retained. Restore them and try again.",
            ),
        )
    }

    pub fn finish_install(&mut self, failure: Option<PluginError>) -> (r: Result<(), String>)
        ensures
            match failure {
                None => r is Ok && final(self)@ == old(self)@,
                Some(error) => final(self)@ == failed_runtime(
                    failure_text(ErrorPhase::Install, error),
                ) && (r matches Err(e) && e@ == bounded(
                    failure_text(ErrorPhase::Install, error),
                    MAX_ERROR_BYTES as nat,
                )),
            },
    {
        match failure {
            None => Ok(()),
            Some(error) => {
                let message = plugin_error_message(ErrorPhase::Install, error);
                Err(self.set_error(message.as_str()))
            },
        }
    }
}

// The order of an installation.
/// How far an installation has come.
#[derive(Debug)]
pub enum InstallStage {
    Waiting,
    Downloading { version: String, progress: Progress },
    Restoring,
    Installing,
    Ended,
}

/// What happened while an update is installed.
#[derive(Clone, Copy, Debug)]
pub enum InstallEvent {
    Requested,
    /// One more piece was fetched.
    Fetched { length: u64, content_length: Option<u64> },
    Downloaded(DownloadOutcome),
    /// Whether all controllers were restored.
    Restored(bool),
    Installed(Option<PluginError>),
}

#[derive(Debug)]
pub enum InstallNext {
    Download,
    /// Let the download go on.
    Continue,
    /// Restore the controllers, and keep them from being changed.
    Restore,
    /// Start the installer.
    Install,
    Done(Result<(), String>),
}

pub enum StageModel {
    Waiting,
    Downloading { version: Seq<char>, progress: Progress },
    Restoring,
    Installing,
    Ended,
}

pub enum InstallNextModel {
    Download,
    Continue,
    Restore,
    Install,
    Done(Result<(), Seq<char>>),
}

impl View for InstallStage {
    type V = StageModel;

    open spec fn view(&self) -> StageModel {
        match self {
            InstallStage::Waiting => StageModel::Waiting,
            InstallStage::Downloading { version, progress } => StageModel::Downloading {
                version: version@,
                progress: *progress,
            },
            InstallStage::Restoring => StageModel::Restoring,
            InstallStage::Installing => StageModel::Installing,
            InstallStage::Ended => StageModel::Ended,
        }
    }
}

impl View for InstallNext {
    type V = InstallNextModel;

    open spec fn view(&self) -> InstallNextModel {
        match self {
            InstallNext::Download => InstallNextModel::Download,
            InstallNext::Continue => InstallNextModel::Continue,
            InstallNext::Restore => InstallNextModel::Restore,
            InstallNext::Install => InstallNextModel::Install,
            InstallNext::Done(r) => InstallNextModel::Done(text_result(*r)),
        }
    }
}

/// An installation with its state, its stage and what has to be done next.
pub struct Course {
    pub runtime: RuntimeModel,
    pub stage: StageModel,
    pub next: InstallNextModel,
}

/// An installation that failed with the message.
pub open spec fn broken_off(message: Seq<char>) -> Course {
    Course {
        runtime: failed_runtime(message),
        stage: StageModel::Ended,
        next: InstallNextModel::Done(Err(bounded(message, MAX_ERROR_BYTES as nat))),
    }
}

/// One step of an installation.  What does not belong to its stage ends it.
pub open spec fn install_stepped(
    runtime: RuntimeModel,
    stage: StageModel,
    event: InstallEvent,
) -> Course {
    match (stage, event) {
        (StageModel::Waiting, InstallEvent::Requested) => match install_begun(runtime) {
            (after, Ok(version)) => Course {
                runtime: after,
                stage: StageModel::Downloading {
                    version,
                    progress: Progress { downloaded: 0, total: None },
                },
                next: InstallNextModel::Download,
            },
            (after, Err(e)) => Course {
                runtime: after,
                stage: StageModel::Ended,
                next: InstallNextModel::Done(Err(e)),
            },
        },
        (
            StageModel::Downloading { version, progress },
            InstallEvent::Fetched { length, content_length },
        ) => {
            let more = fetched(progress, length, content_length);
            Course {
                runtime: RuntimeModel {
                    state: about_version(
                        UpdateStatus::Downloading,
                        version,
                        more.downloaded,
                        more.total,
                    ),
                    ..runtime
                },
                stage: StageModel::Downloading { version, progress: more },
                next: InstallNextModel::Continue,
            }
        },
        (StageModel::Downloading { version, progress }, InstallEvent::Downloaded(outcome)) =>
            match download_message(outcome) {
                None => Course {
                    runtime: RuntimeModel {
                        state: about_version(
                            UpdateStatus::Installing,
                            version,
                            progress.downloaded,
                            progress.total,
                        ),
                        ..runtime
                    },
                    stage: StageModel::Restoring,
                    next: InstallNextModel::Restore,
                },
                Some(message) => broken_off(message),
            },
        (StageModel::Restoring, InstallEvent::Restored(restored)) => if restored {
            Course { runtime, stage: StageModel::Installing, next: InstallNextModel::Install }
        } else {
            broken_off(blocked_text())
        },
        (StageModel::Installing, InstallEvent::Installed(failure)) => match failure {
            None => Course {
                runtime,
                stage: StageModel::Ended,
                next: InstallNextModel::Done(Ok(())),
            },
            Some(error) => broken_off(failure_text(ErrorPhase::Install, error)),
        },
        _ => Course {
            runtime,
            stage: StageModel::Ended,
            next: InstallNextModel::Done(Err(nothing_ready())),
        },
    }
}

impl UpdaterRuntime {
    /// One step of an installation: what has to be done after what just
    /// happened.
    pub fn install_step(&mut self, stage: InstallStage, event: InstallEvent) -> (r: (
        InstallStage,
        InstallNext,
    ))
        ensures
            (Course { runtime: final(self)@, stage: r.0@, next: r.1@ }) == install_stepped(
                old(self)@,
                stage@,
                event,
            ),
    {
        let result: Result<(), String> = match (stage, event) {
            (InstallStage::Waiting, InstallEvent::Requested) => match self.begin_install() {
                Ok(version) => {
                    let progress = Progress::start();
                    return (InstallStage::Downloading { version, progress }, InstallNext::Download);
                },
                Err(e) => Err(e),
            },
            (
                InstallStage::Downloading { version, progress },
                InstallEvent::Fetched { length, content_length },
            ) => {
                let mut more = progress;
                more.chunk(length, content_length);
                self.note_progress(version.as_str(), more);
                return (
                    InstallStage::Downloading { version, progress: more },
                    InstallNext::Continue,
                );
            },
            (InstallStage::Downloading { version, progress }, InstallEvent::Downloaded(outcome)) =>
                match self.finish_download(version.as_str(), progress, outcome) {
                    Ok(_) => {
                        return (InstallStage::Restoring, InstallNext::Restore);
                    },
                    Err(e) => Err(e),
                },
            (InstallStage::Restoring, InstallEvent::Restored(restored)) => match self.after_restore(
                restored,
            ) {
                Ok(_) => {
                    return (InstallStage::Installing, InstallNext::Install);
                },
                Err(e) => Err(e),
            },
            (InstallStage::Installing, InstallEvent::Installed(failure)) => self.finish_install(
                failure,
            ),
            _ => Err("No verified update is ready to install; check for updates first".to_owned()),
        };
        (InstallStage::Ended, InstallNext::Done(result))
    }
}

/// An installation after all that happened to it, from its request on.
pub open spec fn install_course(before: RuntimeModel, events: Seq<InstallEvent>) -> Course
    decreases events.len(),
{
    if events.len() == 0 {
        Course {
            runtime: before,
            stage: StageModel::Waiting,
            next: InstallNextModel::Continue,
        }
    } else {
        let so_far = install_course(before, events.drop_last());
        install_stepped(so_far.runtime, so_far.stage, events.last())
    }
}

// Laws.
/// An update is offered only if it is there and fit to be fetched, and an error
/// leaves nothing to install and a message within its bound.
pub open spec fn runtime_ok(runtime: RuntimeModel) -> bool {
    &&& runtime.state.status == UpdateStatus::Available ==> (runtime.pending matches Some(update)
        && artifact_check(update) is Ok)
    &&& runtime.state.status == UpdateStatus::Error ==> runtime.pending is None && (
    runtime.state.error matches Some(message) && utf8_len(message) <= MAX_ERROR_BYTES)
}

/// Checks and failures keep the dialogue in order.
pub proof fn checks_and_failures_keep_the_dialogue_in_order(
    outcome: CheckOutcome,
    message: Seq<char>,
)
    ensures
        runtime_ok(RuntimeModel { state: plain(UpdateStatus::Idle), pending: None }),
        runtime_ok(RuntimeModel { state: plain(UpdateStatus::Checking), pending: None }),
        runtime_ok(checked(outcome)),
        runtime_ok(failed_runtime(message)),
{
    bounded_text_fits(message, MAX_ERROR_BYTES as nat);
    match outcome {
        CheckOutcome::Refused(m) => {
            bounded_text_fits(m@, MAX_ERROR_BYTES as nat);
        },
        CheckOutcome::Failed(error) => {
            bounded_text_fits(failure_text(ErrorPhase::Check, error), MAX_ERROR_BYTES as nat);
        },
        CheckOutcome::Current => {},
        CheckOutcome::Found(update) => {
            if artifact_check(update@) is Err {
                bounded_text_fits(artifact_check(update@)->Err_0, MAX_ERROR_BYTES as nat);
            }
        },
    }
}

/// A check installs nothing: it ends with a current version, an offer or an
/// error.
pub proof fn a_check_only_offers(outcome: CheckOutcome)
    ensures
        checked(outcome).state.status == UpdateStatus::Current || checked(outcome).state.status
            == UpdateStatus::Available || checked(outcome).state.status == UpdateStatus::Error,
{
}

/// An installation begins only with an offered update that is fit to be fetched;
/// from any other state nothing changes.
pub proof fn installing_needs_an_offer(before: RuntimeModel)
    requires
        runtime_ok(before),
    ensures
        runtime_ok(install_begun(before).0),
        install_begun(before).1 is Ok <==> before.state.status == UpdateStatus::Available,
        install_begun(before).1 is Err ==> install_begun(before).0 == before,
        install_begun(before).1 is Ok ==> install_begun(before).0.pending == before.pending,
{
}

/// After a failure nothing can be installed until another check.
pub proof fn a_failure_needs_another_check(message: Seq<char>)
    ensures
        install_begun(failed_runtime(message)) == (
            failed_runtime(message),
            Err::<Seq<char>, Seq<char>>(nothing_ready()),
        ),
{
}

/// Events that are a request and any number of fetched pieces.
pub open spec fn requested_and_fetched(events: Seq<InstallEvent>) -> bool {
    &&& events.len() > 0
    &&& events[0] is Requested
    &&& forall|i: int| 0 < i < events.len() ==> (#[trigger] events[i]) is Fetched
}

/// Events that lead to a finished download.
pub open spec fn download_finished(events: Seq<InstallEvent>) -> bool {
    &&& events.len() > 0
    &&& requested_and_fetched(events.drop_last())
    &&& events.last() == InstallEvent::Downloaded(DownloadOutcome::Done)
}

/// Events that lead to restored controllers after a finished download.
pub open spec fn restored_after_download(events: Seq<InstallEvent>) -> bool {
    &&& events.len() > 0
    &&& download_finished(events.drop_last())
    &&& events.last() == InstallEvent::Restored(true)
}

proof fn lemma_install_stage(before: RuntimeModel, events: Seq<InstallEvent>)
    ensures
        ({
            let course = install_course(before, events);
            &&& course.stage is Waiting <==> events.len() == 0
            &&& course.stage is Downloading <==> install_begun(before).1 is Ok
                && requested_and_fetched(events)
            &&& course.stage is Restoring <==> install_begun(before).1 is Ok && download_finished(
                events,
            )
            &&& course.stage is Installing <==> install_begun(before).1 is Ok
                && restored_after_download(events)
            &&& course.next is Install <==> course.stage is Installing
            &&& course.next is Download ==> install_begun(before).1 is Ok
            &&& !(course.stage is Waiting) && !(course.stage is Ended) ==> course.runtime.pending
                == before.pending
        }),
    decreases events.len(),
{
    if events.len() > 0 {
        let head = events.drop_last();
        lemma_install_stage(before, head);
        if head.len() > 0 {
            assert(head[0] == events[0]);
            if requested_and_fetched(head) && events.last() is Fetched {
                assert forall|i: int| 0 < i < events.len() implies (#[trigger] events[i])
                    is Fetched by {
                    if i < head.len() {
                        assert(head[i] == events[i]);
                    }
                }
            }
            if requested_and_fetched(events) {
                assert(events[events.len() - 1] is Fetched);
                assert forall|i: int| 0 < i < head.len() implies (#[trigger] head[i]) is Fetched by {
                    assert(events[i] is Fetched);
                }
            }
        }
    }
}

/// The installer is started exactly where an offered update was fetched to its
/// end and then all controllers were restored, in this order.
pub proof fn the_installer_waits_for_download_and_restore(
    before: RuntimeModel,
    events: Seq<InstallEvent>,
)
    ensures
        install_course(before, events).next is Install <==> install_begun(before).1 is Ok
            && restored_after_download(events),
{
    lemma_install_stage(before, events);
}

/// Without an offered update nothing is fetched: the request fails, and so does
/// whatever follows it.
pub proof fn nothing_is_fetched_without_an_offer(before: RuntimeModel, events: Seq<InstallEvent>)
    requires
        before.pending is None || before.state.status != UpdateStatus::Available,
        events.len() > 0,
    ensures
        install_course(before, events).next matches InstallNextModel::Done(r) && r is Err,
        install_course(before, events).runtime == before,
    decreases events.len(),
{
    let head = events.drop_last();
    lemma_install_stage(before, head);
    if head.len() == 0 {
        assert(install_course(before, head).stage is Waiting);
        assert(install_course(before, head).runtime == before);
    } else {
        nothing_is_fetched_without_an_offer(before, head);
        assert(install_begun(before).1 is Err);
        assert(install_course(before, head).stage is Ended);
    }
}

/// Controllers that could not be restored end the installation: nothing is
/// installed, the update is given up and the error is shown.
pub proof fn an_unfinished_restore_ends_the_installation(
    before: RuntimeModel,
    events: Seq<InstallEvent>,
)
    requires
        install_begun(before).1 is Ok,
        download_finished(events),
    ensures
        ({
            let course = install_course(before, events.push(InstallEvent::Restored(false)));
            &&& course == broken_off(blocked_text())
            &&& course.next matches InstallNextModel::Done(r) && r is Err
            &&& course.runtime.pending is None
            &&& course.runtime.state.status == UpdateStatus::Error
        }),
{
    lemma_install_stage(before, events);
    assert(events.push(InstallEvent::Restored(false)).drop_last() =~= events);
}

} // verus!
