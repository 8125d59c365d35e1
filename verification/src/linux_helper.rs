//! How the privileged helper is trusted, called and understood, and how a
//! recovery and the settings page are resolved on Linux.
use crate::capability::str_text;
use crate::fingerprint::{opt_view, Identity, IdentityModel};
use crate::function::{root_only, FileMetadata};
use crate::helper::{bad_argument, no_slots, parsed_request, slots_from, RequestModel, Slots};
use crate::identity::{token, valid_stable_id};
use crate::input::{controller_result, Controller, ControllerModel};
use crate::linux::{
    coverage_for, coverage_of, device_of, native_check, native_identity, platform_device,
};
use crate::platform::{
    platform_result, same_device, unit_result, ControlCoverage, DeviceId, DeviceModel, ErrorModel,
    PlatformDevice, PlatformError, VerifiedDevice, VerifiedModel,
};
use crate::sorting::views;
use crate::text::{
    has_prefix, join, join_list, joined, joined3, lossy_form, lossy_utf8, opt_text, printable,
    printable_of, same, starts_with, string_of, texts, trim_ends, trimmed, Cut,
};
use vstd::prelude::*;

verus! {

/// The most bytes of the helper's output that are shown.
pub const MAX_SHOWN_OUTPUT: usize = 512;

// Trust in executables.
/// What the system says about an executable and the directories above it.
#[derive(Debug)]
pub struct ExecutableReading {
    pub path: String,
    pub file: Option<FileMetadata>,
    /// From the directory of the file up to the root directory.
    pub ancestors: Vec<Option<FileMetadata>>,
}

pub open spec fn trusted_directory(metadata: Option<FileMetadata>) -> bool {
    match metadata {
        Some(m) => m.is_dir && root_only(m),
        None => false,
    }
}

/// Owned by root, executable, writable by nobody else, and so are the
/// directories above it.
pub open spec fn trusted_executable(reading: ExecutableReading) -> bool {
    &&& starts_with(reading.path@, "/"@)
    &&& (match reading.file {
        Some(m) => m.is_file && root_only(m) && m.mode & 0o111 != 0,
        None => false,
    })
    &&& forall|i: int|
        0 <= i < reading.ancestors@.len() ==> trusted_directory(#[trigger] reading.ancestors@[i])
}

pub fn trusted_root_executable(reading: &ExecutableReading) -> (r: bool)
    ensures
        r == trusted_executable(*reading),
{
    if !has_prefix(reading.path.as_str(), "/") {
        return false;
    }
    match reading.file {
        Some(m) => if !m.is_file || m.uid != 0 || m.mode & 0o111 == 0 || m.mode & 0o022 != 0 {
            return false;
        },
        None => {
            return false;
        },
    }
    let mut i: usize = 0;
    while i < reading.ancestors.len()
        invariant
            i <= reading.ancestors@.len(),
            forall|j: int|
                0 <= j < i ==> trusted_directory(#[trigger] reading.ancestors@[j]),
        decreases reading.ancestors@.len() - i,
    {
        let trusted = match reading.ancestors[i] {
            Some(m) => m.is_dir && m.uid == 0 && m.mode & 0o022 == 0,
            None => false,
        };
        if !trusted {
            assert(!trusted_directory(reading.ancestors@[i as int]));
            return false;
        }
        i += 1;
    }
    true
}

/// `libexec` and `lib` are what the system says about the two places of the
/// helper.
pub fn helper_path(libexec: &ExecutableReading, lib: &ExecutableReading) -> (r: Option<
    &'static str,
>)
    ensures
        match r {
            Some(path) => {
                ||| path@ == "/usr/libexec/controwly-linux-input-helper"@ && helper_at(
                    *libexec,
                    path@,
                )
                ||| path@ == "/usr/lib/controwly/controwly-linux-input-helper"@ && helper_at(
                    *lib,
                    path@,
                ) && !helper_at(*libexec, "/usr/libexec/controwly-linux-input-helper"@)
            },
            None => !helper_at(*libexec, "/usr/libexec/controwly-linux-input-helper"@)
                && !helper_at(*lib, "/usr/lib/controwly/controwly-linux-input-helper"@),
        },
{
    if same(libexec.path.as_str(), "/usr/libexec/controwly-linux-input-helper")
        && trusted_root_executable(libexec) {
        Some("/usr/libexec/controwly-linux-input-helper")
    } else if same(lib.path.as_str(), "/usr/lib/controwly/controwly-linux-input-helper")
        && trusted_root_executable(lib) {
        Some("/usr/lib/controwly/controwly-linux-input-helper")
    } else {
        None
    }
}

/// The reading is about the path, and the executable there is trusted.
pub open spec fn helper_at(reading: ExecutableReading, path: Seq<char>) -> bool {
    reading.path@ == path && trusted_executable(reading)
}

pub fn trusted_pkexec(reading: &ExecutableReading) -> (r: bool)
    ensures
        r == helper_at(*reading, "/usr/bin/pkexec"@),
{
    same(reading.path.as_str(), "/usr/bin/pkexec") && trusted_root_executable(reading)
}

pub open spec fn user_executable(metadata: Option<FileMetadata>) -> bool {
    match metadata {
        Some(m) => m.is_file && m.mode & 0o111 != 0,
        None => false,
    }
}

pub fn trusted_user_executable(metadata: &Option<FileMetadata>) -> (r: bool)
    ensures
        r == user_executable(*metadata),
{
    match metadata {
        Some(m) => m.is_file && m.mode & 0o111 != 0,
        None => false,
    }
}

// Calling the helper.
/// The arguments for the program that runs the helper with privileges.
pub open spec fn helper_arguments(
    helper: Seq<char>,
    action: Seq<char>,
    identity: IdentityModel,
) -> Seq<Seq<char>> {
    seq![
        helper,
        "--"@ + action,
        "--platform"@,
        "linux"@,
        "--stable-id"@,
        identity.stable_id,
        "--instance-id"@,
        identity.instance_id,
        "--fingerprint"@,
        identity.fingerprint,
    ]
}

pub open spec fn call_of(
    action: Seq<char>,
    identity: IdentityModel,
    helper: Option<Seq<char>>,
    pkexec: bool,
) -> Result<Seq<Seq<char>>, ErrorModel> {
    match helper {
        None => Err(
            ErrorModel::PermissionDenied(
                "trusted Linux input helper is not installed; install the packaged polkit helper rather than granting the GUI root"@,
            ),
        ),
        Some(helper) => if !pkexec {
            Err(
                ErrorModel::PermissionDenied(
                    "pkexec is unavailable or not trusted; an active polkit authorization agent is required"@,
                ),
            )
        } else if action != "disable"@ && action != "enable"@ {
            Err(ErrorModel::OperationFailed("internal helper action rejected"@))
        } else {
            Ok(helper_arguments(helper, action, identity))
        },
    }
}

pub open spec fn arguments_result(r: Result<Vec<String>, PlatformError>) -> Result<
    Seq<Seq<char>>,
    ErrorModel,
> {
    match r {
        Ok(list) => Ok(texts(list@)),
        Err(e) => Err(e@),
    }
}

/// What the helper is asked to do.
pub open spec fn action_word(enabled: bool) -> Seq<char> {
    if enabled {
        "enable"@
    } else {
        "disable"@
    }
}

pub fn helper_action(enabled: bool) -> (r: &'static str)
    ensures
        r@ == (if enabled {
            "enable"@
        } else {
            "disable"@
        }),
{
    if enabled {
        "enable"
    } else {
        "disable"
    }
}

/// The call that asks the helper to act, or why it is not made.
pub fn invoke_helper(
    action: &str,
    identity: &Identity,
    helper: Option<&str>,
    pkexec: bool,
) -> (r: Result<Vec<String>, PlatformError>)
    ensures
        arguments_result(r) == call_of(
            action@,
            identity@,
            match helper {
                Some(path) => Some(path@),
                None => None,
            },
            pkexec,
        ),
{
    let path = match helper {
        Some(path) => path,
        None => {
            return Err(
                PlatformError::PermissionDenied(
                    "trusted Linux input helper is not installed; install the packaged polkit helper rather than granting the GUI root".to_owned(),
                ),
            );
        },
    };
    if !pkexec {
        return Err(
            PlatformError::PermissionDenied(
                "pkexec is unavailable or not trusted; an active polkit authorization agent is required".to_owned(),
            ),
        );
    }
    if !same(action, "disable") && !same(action, "enable") {
        return Err(PlatformError::OperationFailed("internal helper action rejected".to_owned()));
    }
    let mut list: Vec<String> = Vec::new();
    list.push(path.to_owned());
    list.push(joined("--", action));
    list.push("--platform".to_owned());
    list.push("linux".to_owned());
    list.push("--stable-id".to_owned());
    list.push(identity.stable_id.clone());
    list.push("--instance-id".to_owned());
    list.push(identity.instance_id.clone());
    list.push("--fingerprint".to_owned());
    list.push(identity.fingerprint.clone());
    assert(texts(list@) == helper_arguments(path@, action@, identity@));
    Ok(list)
}

/// The helper reads back the request that was made of it.
pub proof fn the_helper_understands_the_call(
    helper: Seq<char>,
    action: Seq<char>,
    identity: IdentityModel,
)
    requires
        action == "disable"@ || action == "enable"@,
        identity.platform == "linux"@,
        !bad_argument(identity.stable_id),
        !bad_argument(identity.instance_id),
        !bad_argument(identity.fingerprint),
    ensures
        parsed_request(helper_arguments(helper, action, identity).skip(1)) == Ok::<
            RequestModel,
            Seq<char>,
        >(
            RequestModel {
                action,
                platform: identity.platform,
                stable_id: identity.stable_id,
                instance_id: identity.instance_id,
                fingerprint: identity.fingerprint,
            },
        ),
{
    reveal_strlit("--");
    reveal_strlit("disable");
    reveal_strlit("enable");
    reveal_strlit("--disable");
    reveal_strlit("--enable");
    reveal_strlit("--platform");
    reveal_strlit("--stable-id");
    reveal_strlit("--instance-id");
    reveal_strlit("--fingerprint");
    reveal_strlit("linux");
    let args = helper_arguments(helper, action, identity).skip(1);
    assert("--"@ + "disable"@ =~= "--disable"@);
    assert("--"@ + "enable"@ =~= "--enable"@);
    assert("--disable"@.len() == 9 && "--enable"@.len() == 8);
    assert("disable"@.len() != "enable"@.len());
    assert(args[0] == "--"@ + action);
    assert(args[1] == "--platform"@ && args[2] == "linux"@);
    assert(args[3] == "--stable-id"@ && args[4] == identity.stable_id);
    assert(args[5] == "--instance-id"@ && args[6] == identity.instance_id);
    assert(args[7] == "--fingerprint"@ && args[8] == identity.fingerprint);
    assert(args.len() == 9);
    assert("--platform"@.len() == 10 && "--stable-id"@.len() == 11 && "--instance-id"@.len() == 13
        && "--fingerprint"@.len() == 13);
    assert("--instance-id"@[2] == 'i' && "--fingerprint"@[2] == 'f');
    assert(!bad_argument("linux"@)) by {
        vstd::utf8::is_ascii_chars_encode_utf8("linux"@);
    }
    let first = Slots { action: Some(action), ..no_slots() };
    let second = Slots { platform: Some("linux"@), ..first };
    let third = Slots { stable_id: Some(identity.stable_id), ..second };
    let fourth = Slots { instance_id: Some(identity.instance_id), ..third };
    let fifth = Slots { fingerprint: Some(identity.fingerprint), ..fourth };
    assert(slots_from(args, 9, fifth) == Ok::<Slots, Seq<char>>(fifth));
    assert(slots_from(args, 7, fourth) == slots_from(args, 9, fifth));
    assert(slots_from(args, 5, third) == slots_from(args, 7, fourth));
    assert(slots_from(args, 3, second) == slots_from(args, 5, third));
    assert(slots_from(args, 1, first) == slots_from(args, 3, second));
    assert(slots_from(args, 0, no_slots()) == slots_from(args, 1, first));
}

// The helper's answer.
/// What is shown of a text, if anything is left.
pub open spec fn shown_text(s: Seq<char>) -> Option<Seq<char>> {
    let cleaned = trimmed(printable(s));
    if cleaned.len() == 0 {
        None
    } else {
        Some(cleaned)
    }
}

pub fn show_text(text: &str) -> (r: Option<String>)
    ensures
        opt_text(r) == shown_text(text@),
{
    let kept = printable_of(text);
    let cleaned = trim_ends(string_of(kept.as_slice()).as_str(), Cut::Space);
    if cleaned.as_str().is_empty() {
        None
    } else {
        Some(cleaned)
    }
}

/// The first bytes of an output.
pub open spec fn first_bytes(bytes: Seq<u8>) -> Seq<u8> {
    if bytes.len() < MAX_SHOWN_OUTPUT {
        bytes
    } else {
        bytes.take(MAX_SHOWN_OUTPUT as int)
    }
}

pub open spec fn output_text(bytes: Seq<u8>) -> Option<Seq<char>> {
    if bytes.len() == 0 {
        None
    } else {
        shown_text(lossy_form(first_bytes(bytes)))
    }
}

pub fn bounded_output(bytes: &[u8]) -> (r: Option<String>)
    ensures
        opt_text(r) == output_text(bytes@),
{
    if bytes.len() == 0 {
        return None;
    }
    let end: usize = if bytes.len() < MAX_SHOWN_OUTPUT {
        bytes.len()
    } else {
        MAX_SHOWN_OUTPUT
    };
    let head = vstd::slice::slice_subrange(bytes, 0, end);
    assert(head@ == first_bytes(bytes@));
    show_text(lossy_utf8(head).as_str())
}

/// How the helper ended.
#[derive(Debug)]
pub struct HelperOutput {
    pub success: bool,
    pub code: Option<i32>,
    /// The status in words.
    pub status: String,
    pub stdout: Vec<u8>,
    pub stderr: Vec<u8>,
}

/// `errors` and `output` are what is shown of the two streams.
pub open spec fn helper_answer(
    success: bool,
    code: Option<i32>,
    status: Seq<char>,
    errors: Option<Seq<char>>,
    output: Option<Seq<char>>,
) -> Result<(), ErrorModel> {
    let message = match (errors, output) {
        (Some(text), _) => text,
        (None, Some(text)) => text,
        (None, None) => "helper exited with status "@ + status,
    };
    if success {
        Ok(())
    } else if code == Some(126i32) || code == Some(127i32) {
        Err(ErrorModel::PermissionDenied(message))
    } else {
        Err(ErrorModel::OperationFailed(message))
    }
}

pub fn judge_helper(
    success: bool,
    code: Option<i32>,
    status: &str,
    errors: Option<String>,
    output: Option<String>,
) -> (r: Result<(), PlatformError>)
    ensures
        unit_result(r) == helper_answer(
            success,
            code,
            status@,
            opt_text(errors),
            opt_text(output),
        ),
{
    if success {
        return Ok(());
    }
    let message = match errors {
        Some(text) => text,
        None => match output {
            Some(text) => text,
            None => joined("helper exited with status ", status),
        },
    };
    let denied = match code {
        Some(code) => code == 126 || code == 127,
        None => false,
    };
    if denied {
        Err(PlatformError::PermissionDenied(message))
    } else {
        Err(PlatformError::OperationFailed(message))
    }
}

/// What the helper's end means.
pub fn helper_result(output: &HelperOutput) -> (r: Result<(), PlatformError>)
    ensures
        unit_result(r) == helper_answer(
            output.success,
            output.code,
            output.status@,
            output_text(output.stderr@),
            output_text(output.stdout@),
        ),
{
    let errors = bounded_output(output.stderr.as_slice());
    let shown = bounded_output(output.stdout.as_slice());
    judge_helper(output.success, output.code, output.status.as_str(), errors, shown)
}

/// What is reported when the helper could not be started.
pub fn helper_not_started(error: &str) -> (r: PlatformError)
    ensures
        r@ == ErrorModel::LaunchFailed("/usr/bin/pkexec: "@ + error@),
{
    PlatformError::LaunchFailed(joined("/usr/bin/pkexec: ", error))
}

// Resolving.
/// The identity of the first device under an identifier.
pub open spec fn listed_identity(devices: Seq<DeviceModel>, id: Seq<char>) -> Option<VerifiedModel>
    decreases devices.len(),
{
    if devices.len() == 0 {
        None
    } else if devices[0].id == id {
        devices[0].verified
    } else {
        listed_identity(devices.skip(1), id)
    }
}

fn identity_listed(devices: &[PlatformDevice], id: &str) -> (r: Option<VerifiedDevice>)
    ensures
        opt_view(r) == listed_identity(views(devices@), id@),
{
    let mut i: usize = 0;
    assert(views(devices@).skip(0) == views(devices@));
    while i < devices.len()
        invariant
            i <= devices@.len(),
            listed_identity(views(devices@).skip(i as int), id@) == listed_identity(
                views(devices@),
                id@,
            ),
        decreases devices@.len() - i,
    {
        assert(views(devices@).skip(i as int)[0] == devices@[i as int]@);
        if same(devices[i].id.as_str(), id) {
            return match &devices[i].verified {
                Some(identity) => Some(identity.copy()),
                None => None,
            };
        }
        assert(views(devices@).skip(i as int).skip(1) == views(devices@).skip(i + 1));
        i += 1;
    }
    assert(views(devices@).skip(i as int).len() == 0);
    None
}

pub open spec fn resolved(id: Seq<char>, devices: Seq<DeviceModel>) -> Result<
    VerifiedModel,
    ErrorModel,
> {
    if !token(id, "linux-controller-"@) {
        Err(ErrorModel::VerificationFailed("malformed Linux controller ID"@))
    } else {
        match listed_identity(devices, id) {
            Some(identity) => Ok(identity),
            None => Err(
                ErrorModel::NotFound(
                    id + ": controller is not present in the verified inventory"@,
                ),
            ),
        }
    }
}

/// Whether an identifier can be that of a controller at all.
pub fn admit_id(id: &DeviceId) -> (r: Result<(), PlatformError>)
    ensures
        unit_result(r) == (if token(id@, "linux-controller-"@) {
            Ok::<(), ErrorModel>(())
        } else {
            Err(ErrorModel::VerificationFailed("malformed Linux controller ID"@))
        }),
{
    if valid_stable_id(id.as_str()) {
        Ok(())
    } else {
        Err(PlatformError::VerificationFailed("malformed Linux controller ID".to_owned()))
    }
}

/// The verified identity that an enumeration lists under an identifier.
pub fn resolve_verified(id: &DeviceId, devices: &[PlatformDevice]) -> (r: Result<
    VerifiedDevice,
    PlatformError,
>)
    ensures
        platform_result(r) == resolved(id@, views(devices@)),
{
    match admit_id(id) {
        Ok(_) => {},
        Err(error) => {
            return Err(error);
        },
    }
    match identity_listed(devices, id.as_str()) {
        Some(identity) => Ok(identity),
        None => Err(
            PlatformError::NotFound(
                joined(
                    id.as_str(),
                    ": controller is not present in the verified inventory",
                ),
            ),
        ),
    }
}

/// How a recovery finds its identity.
#[derive(Debug)]
pub enum RecoveryLookup {
    Resolved(VerifiedDevice),
    /// Nothing is listed; the unbound function is to be read.
    Probe(Identity),
    Failed(PlatformError),
}

pub enum LookupModel {
    Resolved(VerifiedModel),
    Probe(IdentityModel),
    Failed(ErrorModel),
}

impl View for RecoveryLookup {
    type V = LookupModel;

    open spec fn view(&self) -> LookupModel {
        match self {
            RecoveryLookup::Resolved(v) => LookupModel::Resolved(v@),
            RecoveryLookup::Probe(i) => LookupModel::Probe(i@),
            RecoveryLookup::Failed(e) => LookupModel::Failed(e@),
        }
    }
}

/// Whether a recovery may look for its identity, and what it then looks for.
pub open spec fn recovery_admitted(id: Seq<char>, expected: VerifiedModel) -> Result<
    IdentityModel,
    ErrorModel,
> {
    if id != expected.stable_id || expected.platform != "linux"@ {
        Err(
            ErrorModel::IdentityMismatch(
                "Linux recovery ID and persisted platform identity do not match"@,
            ),
        )
    } else {
        native_check(expected)
    }
}

pub fn admit_recovery(id: &DeviceId, expected: &VerifiedDevice) -> (r: Result<
    Identity,
    PlatformError,
>)
    ensures
        platform_result(r) == recovery_admitted(id@, expected@),
{
    if !same(id.as_str(), expected.stable_id.as_str()) || !same(
        expected.platform.as_str(),
        "linux",
    ) {
        return Err(
            PlatformError::IdentityMismatch(
                "Linux recovery ID and persisted platform identity do not match".to_owned(),
            ),
        );
    }
    native_identity(expected)
}

pub open spec fn recovery_lookup(
    id: Seq<char>,
    expected: VerifiedModel,
    devices: Seq<DeviceModel>,
) -> LookupModel {
    match recovery_admitted(id, expected) {
        Err(e) => LookupModel::Failed(e),
        Ok(native) => match listed_identity(devices, id) {
            Some(fresh) => if same_device(fresh, expected) {
                LookupModel::Resolved(fresh)
            } else {
                LookupModel::Failed(
                    ErrorModel::IdentityMismatch(
                        "fresh Linux recovery identity does not match the persisted identity"@,
                    ),
                )
            },
            None => LookupModel::Probe(native),
        },
    }
}

pub fn resolve_verified_for_recovery(
    id: &DeviceId,
    expected: &VerifiedDevice,
    devices: &[PlatformDevice],
) -> (r: RecoveryLookup)
    ensures
        r@ == recovery_lookup(id@, expected@, views(devices@)),
{
    let native = match admit_recovery(id, expected) {
        Ok(native) => native,
        Err(error) => {
            return RecoveryLookup::Failed(error);
        },
    };
    match identity_listed(devices, id.as_str()) {
        Some(fresh) => if fresh.same_hardware(expected) {
            RecoveryLookup::Resolved(fresh)
        } else {
            RecoveryLookup::Failed(
                PlatformError::IdentityMismatch(
                    "fresh Linux recovery identity does not match the persisted identity".to_owned(),
                ),
            )
        },
        None => RecoveryLookup::Probe(native),
    }
}

/// What a recovery makes of the unbound function.  Where it can neither be read
/// nor is certainly gone, the identity on record is handed on: the helper alone
/// can accept it then.
pub open spec fn recovery_probed(
    id: Seq<char>,
    expected: VerifiedModel,
    probe: Result<ControllerModel, Seq<char>>,
    helper_available: bool,
    gone: bool,
) -> Result<VerifiedModel, ErrorModel> {
    match probe {
        Ok(controller) => {
            let coverage = coverage_of(controller, helper_available);
            let candidate = device_of(controller, coverage, false, helper_available).verified->0;
            if coverage == ControlCoverage::Uncontrolled {
                Err(
                    ErrorModel::PermissionDenied(
                        "trusted Linux helper is unavailable for recovery"@,
                    ),
                )
            } else if same_device(candidate, expected) {
                Ok(candidate)
            } else {
                Err(
                    ErrorModel::IdentityMismatch(
                        "unbound Linux function does not match the persisted recovery identity"@,
                    ),
                )
            }
        },
        Err(_) => if gone {
            Err(
                ErrorModel::RecoveryGone(
                    id + ": no matching disabled HID/USB function or transport remains"@,
                ),
            )
        } else {
            Ok(expected)
        },
    }
}

/// `probe` is the controller of the unbound function, or why it could not be
/// read; `gone` says whether the function is certainly gone.
pub fn recover_unbound(
    id: &DeviceId,
    expected: &VerifiedDevice,
    probe: Result<Controller, String>,
    helper_available: bool,
    gone: bool,
) -> (r: Result<VerifiedDevice, PlatformError>)
    ensures
        platform_result(r) == recovery_probed(
            id@,
            expected@,
            controller_result(probe),
            helper_available,
            gone,
        ),
{
    match probe {
        Ok(controller) => {
            let coverage = coverage_for(&controller, helper_available);
            if coverage == ControlCoverage::Uncontrolled {
                return Err(
                    PlatformError::PermissionDenied(
                        "trusted Linux helper is unavailable for recovery".to_owned(),
                    ),
                );
            }
            let device = platform_device(&controller, coverage, false, helper_available);
            match device.verified {
                Some(candidate) => if candidate.same_hardware(expected) {
                    Ok(candidate)
                } else {
                    Err(
                        PlatformError::IdentityMismatch(
                            "unbound Linux function does not match the persisted recovery identity".to_owned(),
                        ),
                    )
                },
                None => Err(PlatformError::VerificationFailed(id.as_str().to_owned())),
            }
        },
        Err(_) => {
            if gone {
                return Err(
                    PlatformError::RecoveryGone(
                        joined(
                            id.as_str(),
                            ": no matching disabled HID/USB function or transport remains",
                        ),
                    ),
                );
            }
            Ok(expected.copy())
        },
    }
}

/// A recovery is resolved to the identity on record or not at all.
pub proof fn recovery_resolves_the_identity_on_record(
    id: Seq<char>,
    expected: VerifiedModel,
    devices: Seq<DeviceModel>,
    probe: Result<ControllerModel, Seq<char>>,
    helper_available: bool,
    gone: bool,
)
    ensures
        recovery_lookup(id, expected, devices) matches LookupModel::Resolved(identity) ==> identity
            == expected,
        recovery_probed(id, expected, probe, helper_available, gone) matches Ok(identity)
            ==> identity == expected,
{
}

// The settings page.
/// The programs that show the settings, and what they are told to show.
pub open spec fn settings_programs() -> Seq<(Seq<char>, Option<Seq<char>>)> {
    seq![
        ("/usr/bin/blueman-manager"@, None),
        ("/usr/bin/gnome-control-center"@, Some("bluetooth"@)),
        ("/usr/bin/kcmshell6"@, Some("kcm_bluetooth"@)),
        ("/usr/bin/kcmshell5"@, Some("kcm_bluetooth"@)),
        ("/usr/bin/systemsettings"@, Some("kcm_bluetooth"@)),
    ]
}

/// The program that is tried next, after so many.
pub fn settings_program(tried: usize) -> (r: Option<(&'static str, Option<&'static str>)>)
    ensures
        match r {
            Some((program, page)) => tried < settings_programs().len() && settings_programs()[
                tried as int
            ] == (program@, str_text(page)),
            None => tried >= settings_programs().len(),
        },
{
    if tried == 0 {
        Some(("/usr/bin/blueman-manager", None))
    } else if tried == 1 {
        Some(("/usr/bin/gnome-control-center", Some("bluetooth")))
    } else if tried == 2 {
        Some(("/usr/bin/kcmshell6", Some("kcm_bluetooth")))
    } else if tried == 3 {
        Some(("/usr/bin/kcmshell5", Some("kcm_bluetooth")))
    } else if tried == 4 {
        Some(("/usr/bin/systemsettings", Some("kcm_bluetooth")))
    } else {
        None
    }
}

/// How a started settings program did.
#[derive(Debug)]
pub enum LaunchOutcome {
    /// It ended well, or it still runs after a while.
    Accepted,
    /// It ended with the status.
    Failed(String),
    /// It could not be watched.
    Unwatched(String),
    /// It could not be started.
    NotStarted(String),
}

/// How often a started settings program is looked at.
pub const LAUNCH_LOOKS: u32 = 5;

/// What one look at a started settings program shows.
#[derive(Debug)]
pub enum Watch {
    Running,
    Ended { success: bool, status: String },
    Failed(String),
}

/// What is known of a settings program after so many looks, this one included;
/// nothing as long as it has to be looked at again.
pub open spec fn watched(looks: u32, watch: Watch) -> Option<LaunchOutcome> {
    match watch {
        Watch::Running => if looks < LAUNCH_LOOKS {
            None
        } else {
            Some(LaunchOutcome::Accepted)
        },
        Watch::Ended { success, status } => if success {
            Some(LaunchOutcome::Accepted)
        } else {
            Some(LaunchOutcome::Failed(status))
        },
        Watch::Failed(error) => Some(LaunchOutcome::Unwatched(error)),
    }
}

/// A program that fails at once must not hide the ones after it; one that runs
/// for a while has come up.
pub fn watch_launcher(looks: u32, watch: Watch) -> (r: Option<LaunchOutcome>)
    ensures
        r == watched(looks, watch),
{
    match watch {
        Watch::Running => if looks < LAUNCH_LOOKS {
            None
        } else {
            Some(LaunchOutcome::Accepted)
        },
        Watch::Ended { success, status } => if success {
            Some(LaunchOutcome::Accepted)
        } else {
            Some(LaunchOutcome::Failed(status))
        },
        Watch::Failed(error) => Some(LaunchOutcome::Unwatched(error)),
    }
}

pub open spec fn launch_note(program: Seq<char>, outcome: LaunchOutcome) -> Option<Seq<char>> {
    match outcome {
        LaunchOutcome::Accepted => None,
        LaunchOutcome::Failed(status) => Some(program + ": exited with status "@ + status@),
        LaunchOutcome::Unwatched(error) => Some(program + ": cannot inspect launcher: "@ + error@),
        LaunchOutcome::NotStarted(error) => Some(program + ": "@ + error@),
    }
}

/// What is noted of a settings program that did not come up.
pub fn launcher_failure(program: &str, outcome: &LaunchOutcome) -> (r: Option<String>)
    ensures
        opt_text(r) == launch_note(program@, *outcome),
{
    match outcome {
        LaunchOutcome::Accepted => None,
        LaunchOutcome::Failed(status) => Some(
            joined3(program, ": exited with status ", status.as_str()),
        ),
        LaunchOutcome::Unwatched(error) => Some(
            joined3(program, ": cannot inspect launcher: ", error.as_str()),
        ),
        LaunchOutcome::NotStarted(error) => Some(joined3(program, ": ", error.as_str())),
    }
}

/// What is reported when no settings program came up.
pub fn no_settings_program(failures: &[String]) -> (r: PlatformError)
    ensures
        r@ == ErrorModel::LaunchFailed(
            if failures@.len() == 0 {
                "install Blueman, GNOME Control Center, or KDE Bluetooth settings"@
            } else {
                join(texts(failures@), "; "@)
            },
        ),
{
    if failures.len() == 0 {
        PlatformError::LaunchFailed(
            "install Blueman, GNOME Control Center, or KDE Bluetooth settings".to_owned(),
        )
    } else {
        PlatformError::LaunchFailed(join_list(failures, "; "))
    }
}

} // verus!
