//! What every platform reports: devices, their verified identities, recovery
//! records and errors.
use crate::fingerprint::opt_view;
use crate::sorting::views;
use crate::text::{joined, opt_text, same, texts};
use vstd::prelude::*;

verus! {

pub const RECOVERY_SCHEMA: u32 = 1;

/// The opaque identifier of a device.
#[derive(Clone, Debug, PartialEq, Eq, Hash)]
pub struct DeviceId(pub String);

impl View for DeviceId {
    type V = Seq<char>;

    open spec fn view(&self) -> Seq<char> {
        self.0@
    }
}

impl DeviceId {
    pub fn as_str(&self) -> (r: &str)
        ensures
            r@ == self@,
    {
        self.0.as_str()
    }

    pub fn copy(&self) -> (r: Self)
        ensures
            r == *self,
    {
        DeviceId(self.0.clone())
    }
}

#[derive(Clone, Copy, Debug, PartialEq, Eq, Structural)]
pub struct DeviceCapabilities {
    pub hid: bool,
    pub gamepad: bool,
    pub joystick: bool,
    pub xinput: bool,
    pub usb: bool,
    pub bluetooth: bool,
    pub full_control: bool,
}

pub open spec fn no_capabilities() -> DeviceCapabilities {
    DeviceCapabilities {
        hid: false,
        gamepad: false,
        joystick: false,
        xinput: false,
        usb: false,
        bluetooth: false,
        full_control: false,
    }
}

impl Default for DeviceCapabilities {
    fn default() -> (r: Self)
        ensures
            r == no_capabilities(),
    {
        DeviceCapabilities {
            hid: false,
            gamepad: false,
            joystick: false,
            xinput: false,
            usb: false,
            bluetooth: false,
            full_control: false,
        }
    }
}

#[derive(Clone, Copy, Debug, PartialEq, Eq, Structural)]
pub struct DeviceState {
    pub enabled: bool,
}

/// How much of a controller's input can be switched off.
#[derive(Clone, Copy, Debug, PartialEq, Eq, Structural)]
pub enum ControlCoverage {
    Full,
    HidOnly,
    Uncontrolled,
}

#[derive(Clone, Copy, Debug, PartialEq, Eq, Structural)]
pub enum ControllerProtocol {
    HidGamepad,
    Xusb,
}

/// The identity of a device as a fresh enumeration verified it.
#[derive(Clone, Debug, PartialEq, Eq)]
pub struct VerifiedDevice {
    /// The platform that verified the device.
    pub platform: String,
    pub stable_id: String,
    /// The native device node or kernel function.
    pub instance_id: String,
    /// The immutable hardware properties.
    pub fingerprint: String,
    pub protocol: ControllerProtocol,
    pub coverage: ControlCoverage,
    pub usage_page: u16,
    pub usage: u16,
}

pub struct VerifiedModel {
    pub platform: Seq<char>,
    pub stable_id: Seq<char>,
    pub instance_id: Seq<char>,
    pub fingerprint: Seq<char>,
    pub protocol: ControllerProtocol,
    pub coverage: ControlCoverage,
    pub usage_page: u16,
    pub usage: u16,
}

impl View for VerifiedDevice {
    type V = VerifiedModel;

    open spec fn view(&self) -> VerifiedModel {
        VerifiedModel {
            platform: self.platform@,
            stable_id: self.stable_id@,
            instance_id: self.instance_id@,
            fingerprint: self.fingerprint@,
            protocol: self.protocol,
            coverage: self.coverage,
            usage_page: self.usage_page,
            usage: self.usage,
        }
    }
}

/// Nothing of the identity is missing.
pub open spec fn valid(device: VerifiedModel) -> bool {
    &&& device.platform.len() > 0
    &&& device.stable_id.len() > 0
    &&& device.instance_id.len() > 0
    &&& device.fingerprint.len() > 0
}

/// Two valid identities that agree in everything.
pub open spec fn same_device(a: VerifiedModel, b: VerifiedModel) -> bool {
    valid(a) && valid(b) && a == b
}

impl Default for VerifiedDevice {
    fn default() -> (r: Self)
        ensures
            r@ == (VerifiedModel {
                platform: Seq::empty(),
                stable_id: Seq::empty(),
                instance_id: Seq::empty(),
                fingerprint: Seq::empty(),
                protocol: ControllerProtocol::HidGamepad,
                coverage: ControlCoverage::Uncontrolled,
                usage_page: 0,
                usage: 0,
            }),
    {
        VerifiedDevice {
            platform: String::new(),
            stable_id: String::new(),
            instance_id: String::new(),
            fingerprint: String::new(),
            protocol: ControllerProtocol::HidGamepad,
            coverage: ControlCoverage::Uncontrolled,
            usage_page: 0,
            usage: 0,
        }
    }
}

impl VerifiedDevice {
    pub fn is_valid(&self) -> (r: bool)
        ensures
            r == valid(self@),
    {
        !self.platform.as_str().is_empty() && !self.stable_id.as_str().is_empty()
            && !self.instance_id.as_str().is_empty() && !self.fingerprint.as_str().is_empty()
    }

    pub fn stable_id(&self) -> (r: &str)
        ensures
            r@ == self@.stable_id,
    {
        self.stable_id.as_str()
    }

    pub fn same_hardware(&self, other: &Self) -> (r: bool)
        ensures
            r == same_device(self@, other@),
    {
        self.is_valid() && other.is_valid() && same(
            self.platform.as_str(),
            other.platform.as_str(),
        ) && same(self.stable_id.as_str(), other.stable_id.as_str()) && same(
            self.instance_id.as_str(),
            other.instance_id.as_str(),
        ) && same(self.fingerprint.as_str(), other.fingerprint.as_str()) && self.protocol
            == other.protocol && self.coverage == other.coverage && self.usage_page
            == other.usage_page && self.usage == other.usage
    }

    pub fn copy(&self) -> (r: Self)
        ensures
            r == *self,
    {
        VerifiedDevice {
            platform: self.platform.clone(),
            stable_id: self.stable_id.clone(),
            instance_id: self.instance_id.clone(),
            fingerprint: self.fingerprint.clone(),
            protocol: self.protocol,
            coverage: self.coverage,
            usage_page: self.usage_page,
            usage: self.usage,
        }
    }
}

/// Being the same hardware is an equivalence between valid identities.
pub proof fn same_hardware_is_an_equivalence(a: VerifiedModel, b: VerifiedModel, c: VerifiedModel)
    ensures
        same_device(a, a) == valid(a),
        same_device(a, b) == same_device(b, a),
        same_device(a, b) && same_device(b, c) ==> same_device(a, c),
{
}

/// A device of an enumeration.
#[derive(Clone, Debug)]
pub struct PlatformDevice {
    pub id: DeviceId,
    pub name: String,
    pub connection: String,
    pub state: DeviceState,
    pub capabilities: DeviceCapabilities,
    pub coverage: ControlCoverage,
    pub problem_code: Option<i32>,
    /// Set only by a fresh native enumeration.
    pub verified: Option<VerifiedDevice>,
}

pub struct DeviceModel {
    pub id: Seq<char>,
    pub name: Seq<char>,
    pub connection: Seq<char>,
    pub enabled: bool,
    pub capabilities: DeviceCapabilities,
    pub coverage: ControlCoverage,
    pub problem_code: Option<i32>,
    pub verified: Option<VerifiedModel>,
}

impl View for PlatformDevice {
    type V = DeviceModel;

    open spec fn view(&self) -> DeviceModel {
        DeviceModel {
            id: self.id@,
            name: self.name@,
            connection: self.connection@,
            enabled: self.state.enabled,
            capabilities: self.capabilities,
            coverage: self.coverage,
            problem_code: self.problem_code,
            verified: opt_view(self.verified),
        }
    }
}

/// The record of a device that the application disabled.
#[derive(Clone, Debug)]
pub struct PersistedDisabled {
    pub schema: u32,
    pub id: DeviceId,
    pub name: String,
    pub connection: String,
    pub identity: VerifiedDevice,
    pub requested_at: u64,
}

pub struct RecordModel {
    pub schema: u32,
    pub id: Seq<char>,
    pub name: Seq<char>,
    pub connection: Seq<char>,
    pub identity: VerifiedModel,
    pub requested_at: u64,
}

impl View for PersistedDisabled {
    type V = RecordModel;

    open spec fn view(&self) -> RecordModel {
        RecordModel {
            schema: self.schema,
            id: self.id@,
            name: self.name@,
            connection: self.connection@,
            identity: self.identity@,
            requested_at: self.requested_at,
        }
    }
}

impl PersistedDisabled {
    pub fn id(&self) -> (r: &DeviceId)
        ensures
            *r == self.id,
    {
        &self.id
    }

    pub fn identity(&self) -> (r: &VerifiedDevice)
        ensures
            *r == self.identity,
    {
        &self.identity
    }

    pub fn copy(&self) -> (r: Self)
        ensures
            r == *self,
    {
        PersistedDisabled {
            schema: self.schema,
            id: self.id.copy(),
            name: self.name.clone(),
            connection: self.connection.clone(),
            identity: self.identity.copy(),
            requested_at: self.requested_at,
        }
    }
}

#[derive(Clone, Debug)]
pub struct EnumerationReport {
    pub devices: Vec<PlatformDevice>,
    pub errors: Vec<String>,
}

pub struct ReportModel {
    pub devices: Seq<DeviceModel>,
    pub errors: Seq<Seq<char>>,
}

impl View for EnumerationReport {
    type V = ReportModel;

    open spec fn view(&self) -> ReportModel {
        ReportModel { devices: views(self.devices@), errors: texts(self.errors@) }
    }
}

#[derive(Clone, Debug)]
pub struct DeviceOutcome {
    pub id: DeviceId,
    pub requested_enabled: bool,
    pub confirmed_enabled: Option<bool>,
    pub changed: bool,
    pub error: Option<String>,
}

pub struct OutcomeModel {
    pub id: Seq<char>,
    pub requested_enabled: bool,
    pub confirmed_enabled: Option<bool>,
    pub changed: bool,
    pub error: Option<Seq<char>>,
}

impl View for DeviceOutcome {
    type V = OutcomeModel;

    open spec fn view(&self) -> OutcomeModel {
        OutcomeModel {
            id: self.id@,
            requested_enabled: self.requested_enabled,
            confirmed_enabled: self.confirmed_enabled,
            changed: self.changed,
            error: opt_text(self.error),
        }
    }
}

#[derive(Clone, Debug)]
pub struct MutationReport {
    pub outcomes: Vec<DeviceOutcome>,
}

impl View for MutationReport {
    type V = Seq<OutcomeModel>;

    open spec fn view(&self) -> Seq<OutcomeModel> {
        views(self.outcomes@)
    }
}

pub open spec fn confirmed_report(id: Seq<char>, enabled: bool, changed: bool) -> Seq<
    OutcomeModel,
> {
    seq![
        OutcomeModel {
            id,
            requested_enabled: enabled,
            confirmed_enabled: Some(enabled),
            changed,
            error: None,
        },
    ]
}

impl MutationReport {
    pub fn confirmed(id: DeviceId, requested_enabled: bool, changed: bool) -> (r: Self)
        ensures
            r@ == confirmed_report(id@, requested_enabled, changed),
    {
        let mut outcomes: Vec<DeviceOutcome> = Vec::new();
        let outcome = DeviceOutcome {
            id,
            requested_enabled,
            confirmed_enabled: Some(requested_enabled),
            changed,
            error: None,
        };
        outcomes.push(outcome);
        let r = MutationReport { outcomes };
        assert(r@ == seq![outcome@]);
        r
    }
}

#[derive(Clone, Debug)]
pub enum PlatformError {
    Unsupported(String),
    PermissionDenied(String),
    NotFound(String),
    /// The device is gone and the system keeps no disabled state of it.
    RecoveryGone(String),
    IdentityMismatch(String),
    OperationFailed(String),
    VerificationFailed(String),
    LaunchFailed(String),
}

pub enum ErrorModel {
    Unsupported(Seq<char>),
    PermissionDenied(Seq<char>),
    NotFound(Seq<char>),
    RecoveryGone(Seq<char>),
    IdentityMismatch(Seq<char>),
    OperationFailed(Seq<char>),
    VerificationFailed(Seq<char>),
    LaunchFailed(Seq<char>),
}

impl View for PlatformError {
    type V = ErrorModel;

    open spec fn view(&self) -> ErrorModel {
        match self {
            PlatformError::Unsupported(m) => ErrorModel::Unsupported(m@),
            PlatformError::PermissionDenied(m) => ErrorModel::PermissionDenied(m@),
            PlatformError::NotFound(m) => ErrorModel::NotFound(m@),
            PlatformError::RecoveryGone(m) => ErrorModel::RecoveryGone(m@),
            PlatformError::IdentityMismatch(m) => ErrorModel::IdentityMismatch(m@),
            PlatformError::OperationFailed(m) => ErrorModel::OperationFailed(m@),
            PlatformError::VerificationFailed(m) => ErrorModel::VerificationFailed(m@),
            PlatformError::LaunchFailed(m) => ErrorModel::LaunchFailed(m@),
        }
    }
}

/// What is shown of an error.
pub open spec fn error_message(error: ErrorModel) -> Seq<char> {
    match error {
        ErrorModel::Unsupported(m) => "unsupported platform: "@ + m,
        ErrorModel::PermissionDenied(m) => "permission denied: "@ + m,
        ErrorModel::NotFound(m) => "device not found: "@ + m,
        ErrorModel::RecoveryGone(m) =>
            "app-disabled device is gone and has no persistent OS state: "@ + m,
        ErrorModel::IdentityMismatch(m) => "device identity changed: "@ + m,
        ErrorModel::OperationFailed(m) => "device operation failed: "@ + m,
        ErrorModel::VerificationFailed(m) => "device verification failed: "@ + m,
        ErrorModel::LaunchFailed(m) => "could not open Bluetooth settings: "@ + m,
    }
}

impl PlatformError {
    pub fn describe(&self) -> (r: String)
        ensures
            r@ == error_message(self@),
    {
        match self {
            PlatformError::Unsupported(m) => joined("unsupported platform: ", m.as_str()),
            PlatformError::PermissionDenied(m) => joined("permission denied: ", m.as_str()),
            PlatformError::NotFound(m) => joined("device not found: ", m.as_str()),
            PlatformError::RecoveryGone(m) => joined(
                "app-disabled device is gone and has no persistent OS state: ",
                m.as_str(),
            ),
            PlatformError::IdentityMismatch(m) => joined("device identity changed: ", m.as_str()),
            PlatformError::OperationFailed(m) => joined("device operation failed: ", m.as_str()),
            PlatformError::VerificationFailed(m) => joined(
                "device verification failed: ",
                m.as_str(),
            ),
            PlatformError::LaunchFailed(m) => joined(
                "could not open Bluetooth settings: ",
                m.as_str(),
            ),
        }
    }
}

/// A result of a platform, with views in place of its values.
pub open spec fn platform_result<T: View>(r: Result<T, PlatformError>) -> Result<
    T::V,
    ErrorModel,
> {
    match r {
        Ok(v) => Ok(v@),
        Err(e) => Err(e@),
    }
}

/// A result of a platform that holds nothing but its error.
pub open spec fn unit_result(r: Result<(), PlatformError>) -> Result<(), ErrorModel> {
    match r {
        Ok(_) => Ok(()),
        Err(e) => Err(e@),
    }
}

pub open spec fn verified_of(device: DeviceModel) -> Result<VerifiedModel, ErrorModel> {
    match device.verified {
        Some(identity) => if valid(identity) {
            Ok(identity)
        } else {
            Err(ErrorModel::VerificationFailed(device.id))
        },
        None => Err(ErrorModel::VerificationFailed(device.id)),
    }
}

pub open spec fn record_of(device: DeviceModel, requested_at: u64) -> Result<
    RecordModel,
    ErrorModel,
> {
    match verified_of(device) {
        Err(e) => Err(e),
        Ok(identity) => Ok(
            RecordModel {
                schema: RECOVERY_SCHEMA,
                id: device.id,
                name: device.name,
                connection: device.connection,
                identity,
                requested_at,
            },
        ),
    }
}

impl PlatformDevice {
    pub fn copy(&self) -> (r: Self)
        ensures
            r == *self,
    {
        PlatformDevice {
            id: self.id.copy(),
            name: self.name.clone(),
            connection: self.connection.clone(),
            state: self.state,
            capabilities: self.capabilities,
            coverage: self.coverage,
            problem_code: self.problem_code,
            verified: match &self.verified {
                Some(identity) => Some(identity.copy()),
                None => None,
            },
        }
    }

    pub fn verified(&self) -> (r: Result<&VerifiedDevice, PlatformError>)
        ensures
            (match r {
                Ok(identity) => Ok(identity@),
                Err(e) => Err(e@),
            }) == verified_of(self@),
    {
        match &self.verified {
            Some(identity) => if identity.is_valid() {
                Ok(identity)
            } else {
                Err(PlatformError::VerificationFailed(self.id.as_str().to_owned()))
            },
            None => Err(PlatformError::VerificationFailed(self.id.as_str().to_owned())),
        }
    }

    pub fn recovery_record(&self, requested_at: u64) -> (r: Result<
        PersistedDisabled,
        PlatformError,
    >)
        ensures
            platform_result(r) == record_of(self@, requested_at),
    {
        let identity = match self.verified() {
            Ok(identity) => identity,
            Err(error) => {
                return Err(error);
            },
        };
        Ok(
            PersistedDisabled {
                schema: RECOVERY_SCHEMA,
                id: self.id.copy(),
                name: self.name.clone(),
                connection: self.connection.clone(),
                identity: identity.copy(),
                requested_at,
            },
        )
    }
}

/// A fresh identity for a recovery: it must be the one on record.
pub open spec fn recovered_identity(
    id: Seq<char>,
    fresh: Result<VerifiedModel, ErrorModel>,
    expected: VerifiedModel,
) -> Result<VerifiedModel, ErrorModel> {
    match fresh {
        Err(e) => Err(e),
        Ok(identity) => if same_device(identity, expected) {
            Ok(identity)
        } else {
            Err(
                ErrorModel::IdentityMismatch(
                    id + ": fresh recovery identity does not match the persisted identity"@,
                ),
            )
        },
    }
}

pub fn resolve_verified_for_recovery(
    id: &DeviceId,
    fresh: Result<VerifiedDevice, PlatformError>,
    expected: &VerifiedDevice,
) -> (r: Result<VerifiedDevice, PlatformError>)
    ensures
        platform_result(r) == recovered_identity(id@, platform_result(fresh), expected@),
{
    match fresh {
        Err(error) => Err(error),
        Ok(identity) => {
            if identity.same_hardware(expected) {
                Ok(identity)
            } else {
                Err(
                    PlatformError::IdentityMismatch(
                        joined(
                            id.as_str(),
                            ": fresh recovery identity does not match the persisted identity",
                        ),
                    ),
                )
            }
        },
    }
}

} // verus!
