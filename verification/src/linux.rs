//! Switching controllers on and off on Linux.
//!
//! A controller is switched off by unbinding its kernel function, which a
//! privileged helper does.  Nothing here falls back to an input grab: that
//! would leave other ways to the device open and only look like a disable.
use crate::discovery::{Discovered, Discovery};
use crate::fingerprint::{
    approved_driver, identity_check, opt_view, parse_fingerprint, parsed_fields, safe_driver,
    validate_identity, FunctionIdentity, FunctionModel, Identity, IdentityModel,
};
use crate::function::{function_result, number_field};
use crate::input::{controller_result, Controller, ControllerModel};
use crate::ordered::{lookup, put, without, Ordered, Properties};
use crate::platform::{
    confirmed_report, platform_result, unit_result, valid, ControlCoverage, ControllerProtocol,
    DeviceCapabilities, DeviceId, DeviceModel, DeviceOutcome, DeviceState, EnumerationReport,
    ErrorModel, MutationReport, OutcomeModel, PlatformDevice, PlatformError, ReportModel,
    VerifiedDevice, VerifiedModel,
};
use crate::recovery::first_exact;
use crate::sorting::{lemma_sorted_views, precedence, sort, sorted_by, views};
use crate::text::{debug_form, debug_text, joined, joined3, parse_number, same, texts};
use vstd::prelude::*;

verus! {

pub const PROBLEM_HELPER_MISSING: i32 = 7201;

pub const PROBLEM_PARTIAL_FUNCTION: i32 = 7202;

pub const PROBLEM_USAGE_EVIDENCE: i32 = 7203;

/// How often an unbound function is looked for.
pub const MAX_UNBOUND_LOOKS: u8 = 10;

/// How often a bound function is looked for.
pub const MAX_BOUND_LOOKS: u8 = 20;

pub open spec fn limits_text() -> Seq<char> {
    "Linux control covers only the validated controller HID/USB function; separate sibling functions are intentionally left alone"@
}

fn limits() -> (r: &'static str)
    ensures
        r@ == limits_text(),
{
    "Linux control covers only the validated controller HID/USB function; separate sibling functions are intentionally left alone"
}

// Identities.
pub open spec fn xbox_driver(driver: Seq<char>) -> bool {
    driver == "xpad"@ || driver == "xpadneo"@
}

fn is_xbox_driver(driver: &str) -> (r: bool)
    ensures
        r == xbox_driver(driver@),
{
    same(driver, "xpad") || same(driver, "xpadneo")
}

pub open spec fn or_zero(n: Option<nat>) -> nat {
    match n {
        Some(n) => n,
        None => 0,
    }
}

pub open spec fn native_of(identity: VerifiedModel) -> IdentityModel {
    IdentityModel {
        platform: identity.platform,
        stable_id: identity.stable_id,
        instance_id: identity.instance_id,
        fingerprint: identity.fingerprint,
    }
}

/// The protocol that the fields of a fingerprint stand for.
pub open spec fn recorded_protocol(fields: Seq<(Seq<char>, Seq<char>)>) -> ControllerProtocol {
    match lookup(fields, "driver"@) {
        Some(driver) => if xbox_driver(driver) {
            ControllerProtocol::Xusb
        } else {
            ControllerProtocol::HidGamepad
        },
        None => ControllerProtocol::HidGamepad,
    }
}

/// The kernel identity of a verified one: it must be well formed, and the
/// protocol and the usage must be those of its fingerprint.
pub open spec fn native_check(identity: VerifiedModel) -> Result<IdentityModel, ErrorModel> {
    let native = native_of(identity);
    match identity_check(native) {
        Err(e) => Err(ErrorModel::VerificationFailed(e)),
        Ok(_) => match parsed_fields(native.fingerprint) {
            None => Err(ErrorModel::VerificationFailed("malformed Linux identity fingerprint"@)),
            Some(fields) => if identity.protocol != recorded_protocol(fields)
                || identity.usage_page != or_zero(number_field(fields, "usage_page"@))
                || identity.usage != or_zero(number_field(fields, "usage"@)) {
                Err(
                    ErrorModel::IdentityMismatch(
                        "controller protocol or HID usage evidence changed"@,
                    ),
                )
            } else {
                Ok(native)
            },
        },
    }
}

fn number_of(fields: &Properties, key: &str) -> (r: u64)
    requires
        fields.wf(),
    ensures
        r == or_zero(number_field(fields@, key@)),
        r <= 0xffff,
{
    match fields.find(key) {
        Some(text) => match parse_number(text, 10, 0xffff) {
            Some(n) => n,
            None => 0,
        },
        None => 0,
    }
}

pub fn native_identity(identity: &VerifiedDevice) -> (r: Result<Identity, PlatformError>)
    ensures
        platform_result(r) == native_check(identity@),
{
    let native = Identity {
        platform: identity.platform.clone(),
        stable_id: identity.stable_id.clone(),
        instance_id: identity.instance_id.clone(),
        fingerprint: identity.fingerprint.clone(),
    };
    match validate_identity(&native) {
        Ok(_) => {},
        Err(error) => {
            return Err(PlatformError::VerificationFailed(error));
        },
    }
    let fields = match parse_fingerprint(native.fingerprint.as_str()) {
        Some(fields) => fields,
        None => {
            return Err(
                PlatformError::VerificationFailed(
                    "malformed Linux identity fingerprint".to_owned(),
                ),
            );
        },
    };
    let xbox = match fields.find("driver") {
        Some(driver) => is_xbox_driver(driver),
        None => false,
    };
    let protocol = if xbox {
        ControllerProtocol::Xusb
    } else {
        ControllerProtocol::HidGamepad
    };
    if identity.protocol != protocol || identity.usage_page as u64 != number_of(
        &fields,
        "usage_page",
    ) || identity.usage as u64 != number_of(&fields, "usage") {
        return Err(
            PlatformError::IdentityMismatch(
                "controller protocol or HID usage evidence changed".to_owned(),
            ),
        );
    }
    Ok(native)
}

// Devices.
pub open spec fn coverage_of(controller: ControllerModel, helper_available: bool) -> ControlCoverage {
    if helper_available && controller.can_full_control {
        ControlCoverage::Full
    } else {
        ControlCoverage::Uncontrolled
    }
}

pub fn coverage_for(controller: &Controller, helper_available: bool) -> (r: ControlCoverage)
    ensures
        r == coverage_of(controller@, helper_available),
{
    if helper_available && controller.can_full_control {
        ControlCoverage::Full
    } else {
        ControlCoverage::Uncontrolled
    }
}

/// The driver that is bound, or the one that was.
pub open spec fn known_driver(function: Option<FunctionModel>) -> Option<Seq<char>> {
    match function {
        Some(f) => if f.driver is Some {
            f.driver
        } else {
            f.expected_driver
        },
        None => None,
    }
}

/// The function is an Xbox interface.
pub open spec fn xbox_function(function: Option<FunctionModel>) -> bool {
    match known_driver(function) {
        Some(driver) => xbox_driver(driver),
        None => false,
    }
}

fn is_xbox(function: &Option<FunctionIdentity>) -> (r: bool)
    ensures
        r == xbox_function(opt_view(*function)),
{
    match function {
        Some(f) => match &f.driver {
            Some(driver) => is_xbox_driver(driver.as_str()),
            None => match &f.expected_driver {
                Some(driver) => is_xbox_driver(driver.as_str()),
                None => false,
            },
        },
        None => false,
    }
}

/// The usage that a fingerprint records, where it records both parts.
pub open spec fn recorded_usage(fingerprint: Seq<char>) -> (nat, nat) {
    match parsed_fields(fingerprint) {
        Some(fields) => match (
            number_field(fields, "usage_page"@),
            number_field(fields, "usage"@),
        ) {
            (Some(page), Some(usage)) => (page, usage),
            _ => (0, 0),
        },
        None => (0, 0),
    }
}

fn usage_of(fingerprint: &str) -> (r: (u16, u16))
    ensures
        (r.0 as nat, r.1 as nat) == recorded_usage(fingerprint@),
{
    match parse_fingerprint(fingerprint) {
        Some(fields) => {
            let page: Option<u64> = match fields.find("usage_page") {
                Some(text) => parse_number(text, 10, 0xffff),
                None => None,
            };
            let usage: Option<u64> = match fields.find("usage") {
                Some(text) => parse_number(text, 10, 0xffff),
                None => None,
            };
            match (page, usage) {
                (Some(page), Some(usage)) => (page as u16, usage as u16),
                _ => (0, 0),
            }
        },
        None => (0, 0),
    }
}

/// A joystick, a game pad or a multi-axis controller.
pub open spec fn usage_is_evidence(page: nat, usage: nat) -> bool {
    page == 1 && (usage == 4 || usage == 5 || usage == 8)
}

pub open spec fn shown_problem(
    controller: ControllerModel,
    coverage: ControlCoverage,
    helper_available: bool,
    evidence: bool,
) -> Option<i32> {
    if !evidence {
        Some(PROBLEM_USAGE_EVIDENCE)
    } else if !helper_available {
        Some(PROBLEM_HELPER_MISSING)
    } else if coverage != ControlCoverage::Full && controller.problem_code is None {
        Some(PROBLEM_PARTIAL_FUNCTION)
    } else {
        controller.problem_code
    }
}

pub open spec fn device_of(
    controller: ControllerModel,
    coverage: ControlCoverage,
    enabled: bool,
    helper_available: bool,
) -> DeviceModel {
    let usage = recorded_usage(controller.identity.fingerprint);
    let evidence = usage_is_evidence(usage.0, usage.1);
    let xbox = xbox_function(controller.function);
    DeviceModel {
        id: controller.identity.stable_id,
        name: controller.name,
        connection: controller.connection,
        enabled,
        capabilities: DeviceCapabilities {
            hid: true,
            gamepad: evidence,
            joystick: evidence,
            xinput: xbox,
            usb: controller.connection == "usb"@,
            bluetooth: controller.connection == "bluetooth"@,
            full_control: coverage == ControlCoverage::Full && evidence,
        },
        coverage,
        problem_code: shown_problem(controller, coverage, helper_available, evidence),
        verified: Some(
            VerifiedModel {
                platform: controller.identity.platform,
                stable_id: controller.identity.stable_id,
                instance_id: controller.identity.instance_id,
                fingerprint: controller.identity.fingerprint,
                protocol: if xbox {
                    ControllerProtocol::Xusb
                } else {
                    ControllerProtocol::HidGamepad
                },
                coverage,
                usage_page: usage.0 as u16,
                usage: usage.1 as u16,
            },
        ),
    }
}

pub fn platform_device(
    controller: &Controller,
    coverage: ControlCoverage,
    enabled: bool,
    helper_available: bool,
) -> (r: PlatformDevice)
    ensures
        r@ == device_of(controller@, coverage, enabled, helper_available),
{
    let xbox = is_xbox(&controller.function);
    let (usage_page, usage) = usage_of(controller.identity.fingerprint.as_str());
    let evidence = usage_page == 1 && (usage == 4 || usage == 5 || usage == 8);
    let usb = same(controller.connection.as_str(), "usb");
    let bluetooth = same(controller.connection.as_str(), "bluetooth");
    let problem_code: Option<i32> = if !evidence {
        Some(PROBLEM_USAGE_EVIDENCE)
    } else if !helper_available {
        Some(PROBLEM_HELPER_MISSING)
    } else if coverage != ControlCoverage::Full && controller.problem_code.is_none() {
        Some(PROBLEM_PARTIAL_FUNCTION)
    } else {
        controller.problem_code
    };
    let protocol = if xbox {
        ControllerProtocol::Xusb
    } else {
        ControllerProtocol::HidGamepad
    };
    PlatformDevice {
        id: DeviceId(controller.identity.stable_id.clone()),
        name: controller.name.clone(),
        connection: controller.connection.clone(),
        state: DeviceState { enabled },
        capabilities: DeviceCapabilities {
            hid: true,
            gamepad: evidence,
            joystick: evidence,
            xinput: xbox,
            usb,
            bluetooth,
            full_control: coverage == ControlCoverage::Full && evidence,
        },
        coverage,
        problem_code,
        verified: Some(
            VerifiedDevice {
                platform: controller.identity.platform.clone(),
                stable_id: controller.identity.stable_id.clone(),
                instance_id: controller.identity.instance_id.clone(),
                fingerprint: controller.identity.fingerprint.clone(),
                protocol,
                coverage,
                usage_page,
                usage,
            },
        ),
    }
}

pub open spec fn warning_for(controller: ControllerModel) -> Seq<char> {
    if xbox_function(controller.function) {
        "Linux unbound the validated Xbox USB controller interface; direct libusb access to the USB parent is outside this coverage"@
    } else {
        limits_text()
    }
}

pub fn mutation_warning(controller: &Controller) -> (r: &'static str)
    ensures
        r@ == warning_for(controller@),
{
    if is_xbox(&controller.function) {
        "Linux unbound the validated Xbox USB controller interface; direct libusb access to the USB parent is outside this coverage"
    } else {
        limits()
    }
}

/// Why a controller cannot be controlled.
pub open spec fn problem_text(controller: ControllerModel) -> Seq<char> {
    if controller.mixed_unrelated {
        "the input function also exposes an unrelated keyboard/mouse capability"@
    } else {
        match controller.function {
            Some(function) => match function.driver {
                Some(driver) => "kernel driver "@ + debug_form(driver)
                    + " is not in the trusted controller allow-list"@,
                None => "controller function has no bound kernel driver"@,
            },
            None => "no stable HID or USB controller function was found"@,
        }
    }
}

pub fn control_problem(controller: &Controller) -> (r: String)
    ensures
        r@ == problem_text(controller@),
{
    if controller.mixed_unrelated {
        return "the input function also exposes an unrelated keyboard/mouse capability".to_owned();
    }
    match &controller.function {
        Some(function) => match &function.driver {
            Some(driver) => joined3(
                "kernel driver ",
                debug_text(driver.as_str()).as_str(),
                " is not in the trusted controller allow-list",
            ),
            None => "controller function has no bound kernel driver".to_owned(),
        },
        None => "no stable HID or USB controller function was found".to_owned(),
    }
}

// Enumeration.
/// What is kept of a controller whose function this process had unbound.
#[derive(Clone, Debug)]
pub struct DisabledController {
    pub controller: Controller,
}

impl View for DisabledController {
    type V = ControllerModel;

    open spec fn view(&self) -> ControllerModel {
        self.controller@
    }
}

#[derive(Clone, Debug)]
pub struct LinuxPlatform {
    /// The functions that this process had unbound: they have no input devices,
    /// but their controllers are still shown.
    pub disabled: Ordered<DisabledController>,
}

impl View for LinuxPlatform {
    type V = Seq<(Seq<char>, ControllerModel)>;

    open spec fn view(&self) -> Seq<(Seq<char>, ControllerModel)> {
        self.disabled@
    }
}

/// A driver is bound to the function, as far as one can be.
pub open spec fn bound(controller: ControllerModel) -> bool {
    match controller.function {
        Some(function) => function.driver is Some,
        None => true,
    }
}

/// An approved driver is bound to the function.
pub open spec fn bound_and_approved(controller: ControllerModel) -> bool {
    match controller.function {
        Some(function) => match function.driver {
            Some(driver) => approved_driver(driver),
            None => false,
        },
        None => false,
    }
}

fn is_bound(controller: &Controller) -> (r: bool)
    ensures
        r == bound(controller@),
{
    match &controller.function {
        Some(function) => function.driver.is_some(),
        None => true,
    }
}

fn is_bound_and_approved(controller: &Controller) -> (r: bool)
    ensures
        r == bound_and_approved(controller@),
{
    match &controller.function {
        Some(function) => match &function.driver {
            Some(driver) => safe_driver(driver.as_str()),
            None => false,
        },
        None => false,
    }
}

/// What is still kept when a controller is seen: nothing of the very same one
/// that came back under an approved driver.
pub open spec fn kept_after(
    disabled: Seq<(Seq<char>, ControllerModel)>,
    controller: ControllerModel,
) -> Seq<(Seq<char>, ControllerModel)> {
    let key = controller.identity.stable_id;
    match lookup(disabled, key) {
        Some(kept) => if kept.identity == controller.identity && bound_and_approved(controller) {
            without(disabled, key)
        } else {
            disabled
        },
        None => disabled,
    }
}

pub open spec fn kept_after_all(
    disabled: Seq<(Seq<char>, ControllerModel)>,
    controllers: Seq<ControllerModel>,
) -> Seq<(Seq<char>, ControllerModel)>
    decreases controllers.len(),
{
    if controllers.len() == 0 {
        disabled
    } else {
        kept_after(kept_after_all(disabled, controllers.drop_last()), controllers.last())
    }
}

pub open spec fn live_row(controller: ControllerModel, helper_available: bool) -> DeviceModel {
    device_of(
        controller,
        coverage_of(controller, helper_available),
        bound(controller),
        helper_available,
    )
}

pub open spec fn live_rows(controllers: Seq<ControllerModel>, helper_available: bool) -> Seq<
    DeviceModel,
> {
    controllers.map_values(|c: ControllerModel| live_row(c, helper_available))
}

/// What is noted of a controller that cannot be controlled.
pub open spec fn with_notes(
    errors: Seq<Seq<char>>,
    controllers: Seq<ControllerModel>,
    helper_available: bool,
) -> Seq<Seq<char>>
    decreases controllers.len(),
{
    if controllers.len() == 0 {
        errors
    } else {
        let before = with_notes(errors, controllers.drop_last(), helper_available);
        let controller = controllers.last();
        if !helper_available {
            before.push(
                controller.name
                    + ": Linux controller helper is not installed as a trusted root-owned executable; refusing an incomplete evdev-only disable"@,
            )
        } else if coverage_of(controller, helper_available) != ControlCoverage::Full {
            before.push(
                controller.name + ": controller function is not safely controllable ("@
                    + limits_text() + ")"@,
            )
        } else {
            before
        }
    }
}

/// A controller is live under an identifier.
pub open spec fn seen(controllers: Seq<ControllerModel>, key: Seq<char>) -> bool {
    exists|i: int|
        0 <= i < controllers.len() && (#[trigger] controllers[i]).identity.stable_id == key
}

/// The rows of what is kept and not live.
pub open spec fn kept_rows(
    kept: Seq<(Seq<char>, ControllerModel)>,
    controllers: Seq<ControllerModel>,
    helper_available: bool,
) -> Seq<DeviceModel>
    decreases kept.len(),
{
    if kept.len() == 0 {
        Seq::empty()
    } else {
        let before = kept_rows(kept.drop_last(), controllers, helper_available);
        let (key, controller) = kept.last();
        if seen(controllers, key) {
            before
        } else {
            before.push(
                device_of(
                    controller,
                    coverage_of(controller, helper_available),
                    false,
                    helper_available,
                ),
            )
        }
    }
}

pub open spec fn enumerated(
    disabled: Seq<(Seq<char>, ControllerModel)>,
    discovery: Discovered,
    helper_available: bool,
) -> ReportModel {
    ReportModel {
        devices: sorted_by(
            live_rows(discovery.controllers, helper_available) + kept_rows(
                kept_after_all(disabled, discovery.controllers),
                discovery.controllers,
                helper_available,
            ),
            crate::controller::device_order(),
        ),
        errors: with_notes(discovery.errors, discovery.controllers, helper_available),
    }
}

fn is_seen(controllers: &[Controller], key: &str) -> (r: bool)
    ensures
        r == seen(views(controllers@), key@),
{
    let mut i: usize = 0;
    while i < controllers.len()
        invariant
            i <= controllers@.len(),
            forall|j: int|
                0 <= j < i ==> (#[trigger] views(controllers@)[j]).identity.stable_id != key@,
        decreases controllers@.len() - i,
    {
        assert(views(controllers@)[i as int] == controllers@[i as int]@);
        if same(controllers[i].identity.stable_id.as_str(), key) {
            return true;
        }
        i += 1;
    }
    false
}

impl LinuxPlatform {
    pub open spec fn wf(&self) -> bool {
        self.disabled.wf()
    }

    pub fn new() -> (r: Self)
        ensures
            r.wf(),
            r@ == Seq::<(Seq<char>, ControllerModel)>::empty(),
    {
        LinuxPlatform { disabled: Ordered::new() }
    }

    fn forget_returned(&mut self, controller: &Controller)
        requires
            old(self).wf(),
        ensures
            final(self).wf(),
            final(self)@ == kept_after(old(self)@, controller@),
    {
        let key = controller.identity.stable_id.as_str();
        let returned = match self.disabled.get(key) {
            Some(entry) => entry.controller.identity.equals(&controller.identity)
                && is_bound_and_approved(controller),
            None => false,
        };
        if returned {
            self.disabled.remove(key);
        }
    }

    /// The devices of a fresh discovery, with what this process had unbound.
    /// A live function is the authority on its own state.
    pub fn enumerate_internal(&mut self, discovery: &Discovery, helper_available: bool) -> (r:
        EnumerationReport)
        requires
            old(self).wf(),
        ensures
            final(self).wf(),
            final(self)@ == kept_after_all(old(self)@, discovery@.controllers),
            r@ == enumerated(old(self)@, discovery@, helper_available),
    {
        let ghost start = self@;
        let ghost list = discovery@.controllers;
        let mut devices: Vec<PlatformDevice> = Vec::new();
        let mut errors = crate::text::copy_list(discovery.errors.as_slice());
        let mut i: usize = 0;
        assert(list.take(0).len() == 0);
        assert(views(devices@) == live_rows(list.take(0), helper_available));
        while i < discovery.controllers.len()
            invariant
                i <= discovery.controllers@.len(),
                list == discovery@.controllers,
                self.wf(),
                self@ == kept_after_all(start, list.take(i as int)),
                views(devices@) == live_rows(list.take(i as int), helper_available),
                texts(errors@) == with_notes(
                    discovery@.errors,
                    list.take(i as int),
                    helper_available,
                ),
            decreases discovery.controllers@.len() - i,
        {
            let controller = &discovery.controllers[i];
            let ghost rows = views(devices@);
            let ghost notes = texts(errors@);
            proof {
                assert(list.take(i + 1).drop_last() == list.take(i as int));
                assert(list.take(i + 1).last() == controller@);
            }
            self.forget_returned(controller);
            let coverage = coverage_for(controller, helper_available);
            if !helper_available {
                let note = joined(
                    controller.name.as_str(),
                    ": Linux controller helper is not installed as a trusted root-owned executable; refusing an incomplete evdev-only disable",
                );
                errors.push(note);
                assert(texts(errors@) == notes.push(note@));
            } else if coverage != ControlCoverage::Full {
                let mut note = joined3(
                    controller.name.as_str(),
                    ": controller function is not safely controllable (",
                    limits(),
                );
                note.append(")");
                errors.push(note);
                assert(texts(errors@) == notes.push(note@));
            }
            let device = platform_device(
                controller,
                coverage,
                is_bound(controller),
                helper_available,
            );
            devices.push(device);
            proof {
                assert(views(devices@) == rows.push(device@));
                assert(live_rows(list.take(i + 1), helper_available) == live_rows(
                    list.take(i as int),
                    helper_available,
                ).push(live_row(controller@, helper_available)));
            }
            i += 1;
        }
        assert(list.take(i as int) == list);
        let ghost live = live_rows(list, helper_available);
        let ghost kept = self@;
        let mut k: usize = 0;
        assert(kept.take(0).len() == 0);
        assert(live + Seq::<DeviceModel>::empty() == live);
        while k < self.disabled.entries.len()
            invariant
                k <= self.disabled.entries@.len(),
                kept == self@,
                list == discovery@.controllers,
                self.wf(),
                views(devices@) == live + kept_rows(
                    kept.take(k as int),
                    list,
                    helper_available,
                ),
            decreases self.disabled.entries@.len() - k,
        {
            let entry = &self.disabled.entries[k];
            let ghost rows = views(devices@);
            proof {
                assert(kept.take(k + 1).drop_last() == kept.take(k as int));
                assert(kept.take(k + 1).last() == (entry.0@, entry.1@));
            }
            if !is_seen(discovery.controllers.as_slice(), entry.0.as_str()) {
                let controller = &entry.1.controller;
                let coverage = coverage_for(controller, helper_available);
                let device = platform_device(controller, coverage, false, helper_available);
                devices.push(device);
                proof {
                    assert(views(devices@) == rows.push(device@));
                    let before = kept_rows(kept.take(k as int), list, helper_available);
                    assert((live + before).push(device@) == live + before.push(device@));
                }
            }
            k += 1;
        }
        assert(kept.take(k as int) == kept);
        proof {
            lemma_sorted_views(
                devices@,
                precedence::<PlatformDevice>(),
                crate::controller::device_order(),
            );
        }
        let devices = sort(devices);
        EnumerationReport { devices, errors }
    }
}

/// A live controller is shown in the state of its function, whatever was kept of
/// it; what is kept and not live is shown as switched off.
pub proof fn live_state_is_shown(
    disabled: Seq<(Seq<char>, ControllerModel)>,
    discovery: Discovered,
    helper_available: bool,
    i: int,
)
    requires
        0 <= i < discovery.controllers.len(),
    ensures
        enumerated(disabled, discovery, helper_available).devices.contains(
            live_row(discovery.controllers[i], helper_available),
        ),
        live_row(discovery.controllers[i], helper_available).enabled == bound(
            discovery.controllers[i],
        ),
{
    let rows = live_rows(discovery.controllers, helper_available) + kept_rows(
        kept_after_all(disabled, discovery.controllers),
        discovery.controllers,
        helper_available,
    );
    let order = crate::controller::device_order();
    crate::sorting::sorting_keeps_items(rows, order);
    assert(rows[i] == live_row(discovery.controllers[i], helper_available));
    crate::sorting::lemma_same_members(rows, sorted_by(rows, order), i);
}

/// Without the helper no controller promises control.
pub proof fn no_control_without_the_helper(controller: ControllerModel)
    ensures
        coverage_of(controller, false) == ControlCoverage::Uncontrolled,
        !live_row(controller, false).capabilities.full_control,
{
}

// The current controller.
/// What is known of the controller that an identity stands for.
#[derive(Debug)]
pub enum CurrentStep {
    Found(Controller),
    /// Nothing live has the identity; the unbound function is to be read.
    Probe(Identity),
    Failed(PlatformError),
}

pub enum CurrentStepModel {
    Found(ControllerModel),
    Probe(IdentityModel),
    Failed(ErrorModel),
}

impl View for CurrentStep {
    type V = CurrentStepModel;

    open spec fn view(&self) -> CurrentStepModel {
        match self {
            CurrentStep::Found(c) => CurrentStepModel::Found(c@),
            CurrentStep::Probe(i) => CurrentStepModel::Probe(i@),
            CurrentStep::Failed(e) => CurrentStepModel::Failed(e@),
        }
    }
}

pub open spec fn kept_exactly(
    disabled: Seq<(Seq<char>, ControllerModel)>,
    native: IdentityModel,
) -> bool {
    match lookup(disabled, native.stable_id) {
        Some(kept) => kept.identity == native,
        None => false,
    }
}

pub open spec fn current_step(
    disabled: Seq<(Seq<char>, ControllerModel)>,
    identity: VerifiedModel,
    controllers: Seq<ControllerModel>,
) -> CurrentStepModel {
    match native_check(identity) {
        Err(e) => CurrentStepModel::Failed(e),
        Ok(native) => match first_exact(controllers, native) {
            Some(at) => CurrentStepModel::Found(controllers[at]),
            None => if kept_exactly(disabled, native) || identity.coverage
                != ControlCoverage::Uncontrolled {
                CurrentStepModel::Probe(native)
            } else {
                CurrentStepModel::Failed(ErrorModel::NotFound(identity.stable_id))
            },
        },
    }
}

/// The controller of an unbound function, as the probe found it.
pub open spec fn probed(
    identity: VerifiedModel,
    probe: Result<ControllerModel, Seq<char>>,
) -> Result<ControllerModel, ErrorModel> {
    match probe {
        Ok(controller) => Ok(controller),
        Err(e) => Err(ErrorModel::IdentityMismatch(identity.stable_id + ": "@ + e)),
    }
}

pub fn probed_controller(identity: &VerifiedDevice, probe: Result<Controller, String>) -> (r:
    Result<Controller, PlatformError>)
    ensures
        platform_result(r) == probed(identity@, controller_result(probe)),
{
    match probe {
        Ok(controller) => Ok(controller),
        Err(message) => Err(
            PlatformError::IdentityMismatch(
                joined3(identity.stable_id.as_str(), ": ", message.as_str()),
            ),
        ),
    }
}

// Switching.
/// What a switch does next.
#[derive(Debug)]
pub enum LinuxChange {
    Done(MutationReport),
    /// The helper is asked to act on the function.
    Invoke(Identity),
}

pub enum LinuxChangeModel {
    Done(Seq<OutcomeModel>),
    Invoke(IdentityModel),
}

impl View for LinuxChange {
    type V = LinuxChangeModel;

    open spec fn view(&self) -> LinuxChangeModel {
        match self {
            LinuxChange::Done(report) => LinuxChangeModel::Done(report@),
            LinuxChange::Invoke(identity) => LinuxChangeModel::Invoke(identity@),
        }
    }
}

pub open spec fn disable_change(
    disabled: Seq<(Seq<char>, ControllerModel)>,
    identity: VerifiedModel,
    controller: ControllerModel,
) -> Result<LinuxChangeModel, ErrorModel> {
    match native_check(identity) {
        Err(e) => Err(e),
        Ok(native) => if !controller.can_full_control {
            Err(
                ErrorModel::OperationFailed(
                    controller.name + ": "@ + problem_text(controller),
                ),
            )
        } else if lookup(disabled, identity.stable_id) is Some {
            Ok(LinuxChangeModel::Done(confirmed_report(identity.stable_id, false, false)))
        } else {
            Ok(LinuxChangeModel::Invoke(native))
        },
    }
}

/// `controller` is what is live under the identity, if anything is.
pub open spec fn enable_change(
    identity: VerifiedModel,
    controller: Option<ControllerModel>,
) -> Result<LinuxChangeModel, ErrorModel> {
    match native_check(identity) {
        Err(e) => Err(e),
        Ok(native) => if identity.coverage == ControlCoverage::Uncontrolled {
            Err(ErrorModel::Unsupported(uncovered_text()))
        } else {
            match controller {
                Some(c) => if !c.can_full_control {
                    Err(
                        ErrorModel::IdentityMismatch(
                            identity.stable_id
                                + ": current controller function is not safely controllable"@,
                        ),
                    )
                } else {
                    Ok(LinuxChangeModel::Invoke(native))
                },
                None => Ok(LinuxChangeModel::Invoke(native)),
            }
        },
    }
}

pub open spec fn uncovered_text() -> Seq<char> {
    "this Linux device was not enumerated with function-control coverage"@
}

pub open spec fn switch_admitted(identity: VerifiedModel) -> Result<(), ErrorModel> {
    if identity.platform != "linux"@ || !valid(identity) {
        Err(ErrorModel::VerificationFailed("malformed or cross-platform controller identity"@))
    } else {
        Ok(())
    }
}

/// Whether a switch may look for its controller.
pub fn admit_switch(identity: &VerifiedDevice) -> (r: Result<(), PlatformError>)
    ensures
        unit_result(r) == switch_admitted(identity@),
{
    if !same(identity.platform.as_str(), "linux") || !identity.is_valid() {
        return Err(
            PlatformError::VerificationFailed(
                "malformed or cross-platform controller identity".to_owned(),
            ),
        );
    }
    Ok(())
}

pub open spec fn coverage_changed(identity: VerifiedModel) -> ErrorModel {
    ErrorModel::IdentityMismatch(identity.stable_id + ": controller coverage changed"@)
}

/// What a switch does once its controller was looked for.  An identity that is
/// on record may be handed to the helper while nothing live has it; the helper
/// alone can accept it then.
pub open spec fn switch_change(
    disabled: Seq<(Seq<char>, ControllerModel)>,
    identity: VerifiedModel,
    enabled: bool,
    current: Result<ControllerModel, ErrorModel>,
    helper_available: bool,
) -> Result<LinuxChangeModel, ErrorModel> {
    match switch_admitted(identity) {
        Err(e) => Err(e),
        Ok(_) => match current {
            Ok(controller) => if identity.coverage != coverage_of(controller, helper_available) {
                Err(coverage_changed(identity))
            } else if enabled {
                enable_change(identity, Some(controller))
            } else {
                disable_change(disabled, identity, controller)
            },
            Err(e) => if enabled && (e is NotFound || e is IdentityMismatch) {
                if identity.coverage == ControlCoverage::Uncontrolled {
                    Err(ErrorModel::Unsupported(uncovered_text()))
                } else {
                    enable_change(identity, None)
                }
            } else {
                Err(e)
            },
        },
    }
}

pub open spec fn outcome_with(
    id: Seq<char>,
    enabled: bool,
    error: Option<Seq<char>>,
) -> Seq<OutcomeModel> {
    seq![
        OutcomeModel {
            id,
            requested_enabled: enabled,
            confirmed_enabled: Some(enabled),
            changed: true,
            error,
        },
    ]
}

impl LinuxPlatform {
    pub fn current_controller(&self, identity: &VerifiedDevice, discovery: &Discovery) -> (r:
        CurrentStep)
        requires
            self.wf(),
        ensures
            r@ == current_step(self@, identity@, discovery@.controllers),
    {
        let native = match native_identity(identity) {
            Ok(native) => native,
            Err(error) => {
                return CurrentStep::Failed(error);
            },
        };
        match crate::recovery::current_controller(discovery, &native) {
            crate::recovery::CurrentController::Exact(at) => {
                assert(discovery@.controllers[at as int] == discovery.controllers@[at as int]@);
                return CurrentStep::Found(discovery.controllers[at].copy());
            },
            _ => {},
        }
        let kept = match self.disabled.get(native.stable_id.as_str()) {
            Some(entry) => entry.controller.identity.equals(&native),
            None => false,
        };
        if kept || identity.coverage != ControlCoverage::Uncontrolled {
            return CurrentStep::Probe(native);
        }
        CurrentStep::Failed(PlatformError::NotFound(identity.stable_id.clone()))
    }

    /// Decides on switching a controller off.
    pub fn disable(&self, identity: &VerifiedDevice, controller: &Controller) -> (r: Result<
        LinuxChange,
        PlatformError,
    >)
        requires
            self.wf(),
        ensures
            platform_result(r) == disable_change(self@, identity@, controller@),
    {
        let native = match native_identity(identity) {
            Ok(native) => native,
            Err(error) => {
                return Err(error);
            },
        };
        if !controller.can_full_control {
            return Err(
                PlatformError::OperationFailed(
                    joined3(
                        controller.name.as_str(),
                        ": ",
                        control_problem(controller).as_str(),
                    ),
                ),
            );
        }
        if self.disabled.get(identity.stable_id.as_str()).is_some() {
            return Ok(
                LinuxChange::Done(
                    MutationReport::confirmed(DeviceId(identity.stable_id.clone()), false, false),
                ),
            );
        }
        Ok(LinuxChange::Invoke(native))
    }

    /// Decides on switching a controller on.
    pub fn enable(&self, identity: &VerifiedDevice, controller: &Option<Controller>) -> (r: Result<
        LinuxChange,
        PlatformError,
    >)
        ensures
            platform_result(r) == enable_change(identity@, opt_view(*controller)),
    {
        let native = match native_identity(identity) {
            Ok(native) => native,
            Err(error) => {
                return Err(error);
            },
        };
        if identity.coverage == ControlCoverage::Uncontrolled {
            return Err(
                PlatformError::Unsupported(
                    "this Linux device was not enumerated with function-control coverage".to_owned(),
                ),
            );
        }
        match controller {
            Some(c) => if !c.can_full_control {
                return Err(
                    PlatformError::IdentityMismatch(
                        joined(
                            identity.stable_id.as_str(),
                            ": current controller function is not safely controllable",
                        ),
                    ),
                );
            },
            None => {},
        }
        Ok(LinuxChange::Invoke(native))
    }

    /// `current` is the controller that was looked for, or why there is none.
    pub fn set_enabled(
        &self,
        identity: &VerifiedDevice,
        enabled: bool,
        current: Result<Controller, PlatformError>,
        helper_available: bool,
    ) -> (r: Result<LinuxChange, PlatformError>)
        requires
            self.wf(),
        ensures
            platform_result(r) == switch_change(
                self@,
                identity@,
                enabled,
                platform_result(current),
                helper_available,
            ),
    {
        match admit_switch(identity) {
            Ok(_) => {},
            Err(error) => {
                return Err(error);
            },
        }
        match current {
            Ok(controller) => {
                if identity.coverage != coverage_for(&controller, helper_available) {
                    return Err(
                        PlatformError::IdentityMismatch(
                            joined(
                                identity.stable_id.as_str(),
                                ": controller coverage changed",
                            ),
                        ),
                    );
                }
                if enabled {
                    self.enable(identity, &Some(controller))
                } else {
                    self.disable(identity, &controller)
                }
            },
            Err(error) => {
                let absent = match &error {
                    PlatformError::NotFound(_) => true,
                    PlatformError::IdentityMismatch(_) => true,
                    _ => false,
                };
                if !enabled || !absent {
                    return Err(error);
                }
                if identity.coverage == ControlCoverage::Uncontrolled {
                    return Err(
                        PlatformError::Unsupported(
                            "this Linux device was not enumerated with function-control coverage".to_owned(),
                        ),
                    );
                }
                self.enable(identity, &None)
            },
        }
    }

    /// Ends a disable; `unbound` says whether the function was seen unbound.
    pub fn finish_disable(
        &mut self,
        identity: &VerifiedDevice,
        controller: &Controller,
        unbound: bool,
    ) -> (r: Result<MutationReport, PlatformError>)
        requires
            old(self).wf(),
        ensures
            final(self).wf(),
            final(self)@ == (if unbound {
                put(old(self)@, identity@.stable_id, controller@)
            } else {
                old(self)@
            }),
            platform_result(r) == (if unbound {
                Ok(outcome_with(identity@.stable_id, false, Some(warning_for(controller@))))
            } else {
                Err(
                    ErrorModel::VerificationFailed(
                        identity@.stable_id
                            + ": helper returned but the validated function is still bound"@,
                    ),
                )
            }),
    {
        if !unbound {
            return Err(
                PlatformError::VerificationFailed(
                    joined(
                        identity.stable_id.as_str(),
                        ": helper returned but the validated function is still bound",
                    ),
                ),
            );
        }
        self.disabled.insert(
            identity.stable_id.clone(),
            DisabledController { controller: controller.copy() },
        );
        let outcome = DeviceOutcome {
            id: DeviceId(identity.stable_id.clone()),
            requested_enabled: false,
            confirmed_enabled: Some(false),
            changed: true,
            error: Some(mutation_warning(controller).to_owned()),
        };
        let mut outcomes: Vec<DeviceOutcome> = Vec::new();
        outcomes.push(outcome);
        let report = MutationReport { outcomes };
        assert(report@ == seq![outcome@]);
        Ok(report)
    }

    /// Ends an enable; `bound` says whether the controller was seen again.
    pub fn finish_enable(&mut self, identity: &VerifiedDevice, bound: bool) -> (r: Result<
        MutationReport,
        PlatformError,
    >)
        requires
            old(self).wf(),
        ensures
            final(self).wf(),
            final(self)@ == (if bound {
                without(old(self)@, identity@.stable_id)
            } else {
                old(self)@
            }),
            platform_result(r) == (if bound {
                Ok(confirmed_report(identity@.stable_id, true, true))
            } else {
                Err(
                    ErrorModel::VerificationFailed(
                        identity@.stable_id
                            + ": helper returned but the controller function did not reappear"@,
                    ),
                )
            }),
    {
        if !bound {
            return Err(
                PlatformError::VerificationFailed(
                    joined(
                        identity.stable_id.as_str(),
                        ": helper returned but the controller function did not reappear",
                    ),
                ),
            );
        }
        self.disabled.remove(identity.stable_id.as_str());
        Ok(MutationReport::confirmed(DeviceId(identity.stable_id.clone()), true, true))
    }
}

/// The helper is asked to switch a controller off only if it is the live or
/// probed one, can be controlled entirely, and the helper was there.
pub proof fn disabling_needs_a_controllable_function(
    disabled: Seq<(Seq<char>, ControllerModel)>,
    identity: VerifiedModel,
    current: Result<ControllerModel, ErrorModel>,
    helper_available: bool,
)
    ensures
        switch_change(disabled, identity, false, current, helper_available) matches Ok(
            LinuxChangeModel::Invoke(native),
        ) ==> {
            &&& native == native_of(identity)
            &&& current matches Ok(controller) && controller.can_full_control
                && identity.coverage == coverage_of(controller, helper_available)
            &&& identity_check(native) is Ok
        },
{
}

/// Switching on again takes back what switching off kept.
pub proof fn enabling_reverses_disabling(
    disabled: Seq<(Seq<char>, ControllerModel)>,
    id: Seq<char>,
    controller: ControllerModel,
)
    requires
        crate::ordered::in_order(disabled),
        lookup(disabled, id) is None,
    ensures
        without(put(disabled, id, controller), id) == disabled,
{
    crate::ordered::taking_out_reverses_putting_in(disabled, id, controller);
}

// Waiting.
/// The function was found and no driver is bound to it.
pub open spec fn unbound_shown(function: Result<FunctionModel, Seq<char>>) -> bool {
    match function {
        Ok(f) => f.driver is None,
        Err(_) => false,
    }
}

pub fn wait_for_unbound(function: &Result<FunctionIdentity, String>) -> (r: bool)
    ensures
        r == unbound_shown(function_result(*function)),
{
    match function {
        Ok(f) => f.driver.is_none(),
        Err(_) => false,
    }
}

/// The identity is live, under an approved driver and fully controllable.
pub open spec fn bound_shown(controllers: Seq<ControllerModel>, identity: IdentityModel) -> bool {
    exists|i: int|
        0 <= i < controllers.len() && (#[trigger] controllers[i]).identity == identity
            && controllers[i].can_full_control && bound_and_approved(controllers[i])
}

pub fn wait_for_bound(discovery: &Discovery, identity: &Identity) -> (r: bool)
    ensures
        r == bound_shown(discovery@.controllers, identity@),
{
    let ghost list = discovery@.controllers;
    let mut i: usize = 0;
    while i < discovery.controllers.len()
        invariant
            i <= discovery.controllers@.len(),
            list == discovery@.controllers,
            forall|j: int|
                0 <= j < i ==> !((#[trigger] list[j]).identity == identity@
                    && list[j].can_full_control && bound_and_approved(list[j])),
        decreases discovery.controllers@.len() - i,
    {
        let controller = &discovery.controllers[i];
        assert(list[i as int] == controller@);
        if controller.identity.equals(identity) && controller.can_full_control
            && is_bound_and_approved(controller) {
            return true;
        }
        i += 1;
    }
    false
}

} // verus!
