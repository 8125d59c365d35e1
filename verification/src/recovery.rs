//! Disabling, enabling and restoring controller functions, step by step.
//!
//! A recovery record is written before a function is taken from its driver,
//! and it is removed only once the function is back or has left the machine.
use crate::discovery::{controller_from_unbound, unbound_controller, Discovery};
use crate::fingerprint::{
    approved_driver, bus_text, identity_check, parse_fingerprint, parsed_fields, safe_driver,
    validate_identity, FunctionBus, FunctionIdentity, FunctionModel, Identity, IdentityModel,
};
use crate::function::{
    bind, bind_step, error_text, find_unbound_function, function_is_definitively_gone,
    gone_paths, unbind, unbind_step, unbound_function,
    usage_check, verify_hid_descriptor_identity, BindingStep, FunctionError, StepModel,
    UnboundModel, UnboundReading,
};
use crate::helper::{exit_ok, ok_exit, HelperExit};
use crate::input::{Controller, ControllerModel};
use crate::journal::{find_record, found};
use crate::ordered::{lookup, text_of};
use crate::sorting::views;
use crate::paths::{file_name, file_name_is, is_within, path_within};
use crate::text::{
    joined, joined3, opt_text, same, text_result, trim_ends, trimmed, view_result, Cut,
};
use vstd::prelude::*;

verus! {

// The fresh state of a controller.
/// Which controller of a fresh discovery an identity stands for.
#[derive(Clone, Copy, Debug, PartialEq, Eq, Structural)]
pub enum CurrentController {
    /// The controller at this place has exactly the identity.
    Exact(usize),
    /// A controller has the stable identifier but not the identity.
    StableMismatch,
    Absent,
}

pub enum CurrentModel {
    Exact(int),
    StableMismatch,
    Absent,
}

impl View for CurrentController {
    type V = CurrentModel;

    open spec fn view(&self) -> CurrentModel {
        match self {
            CurrentController::Exact(at) => CurrentModel::Exact(*at as int),
            CurrentController::StableMismatch => CurrentModel::StableMismatch,
            CurrentController::Absent => CurrentModel::Absent,
        }
    }
}

/// The place of the first controller with exactly the identity.
pub open spec fn first_exact(controllers: Seq<ControllerModel>, identity: IdentityModel) -> Option<
    int,
>
    decreases controllers.len(),
{
    if controllers.len() == 0 {
        None
    } else if controllers[0].identity == identity {
        Some(0)
    } else {
        match first_exact(controllers.drop_first(), identity) {
            Some(at) => Some(at + 1),
            None => None,
        }
    }
}

pub open spec fn has_stable(controllers: Seq<ControllerModel>, identity: IdentityModel) -> bool {
    exists|i: int|
        0 <= i < controllers.len() && (#[trigger] controllers[i]).identity.stable_id
            == identity.stable_id
}

/// The controller of the discovery that an identity stands for.
pub open spec fn current_of(
    controllers: Seq<ControllerModel>,
    identity: IdentityModel,
) -> CurrentModel {
    match first_exact(controllers, identity) {
        Some(at) => CurrentModel::Exact(at),
        None => if has_stable(controllers, identity) {
            CurrentModel::StableMismatch
        } else {
            CurrentModel::Absent
        },
    }
}

proof fn lemma_first_exact(controllers: Seq<ControllerModel>, identity: IdentityModel)
    ensures
        first_exact(controllers, identity) matches Some(at) ==> 0 <= at < controllers.len()
            && controllers[at].identity == identity,
    decreases controllers.len(),
{
    if controllers.len() > 0 {
        lemma_first_exact(controllers.drop_first(), identity);
    }
}

pub fn current_controller(discovery: &Discovery, identity: &Identity) -> (r: CurrentController)
    ensures
        r@ == current_of(discovery@.controllers, identity@),
        r matches CurrentController::Exact(at) ==> at < discovery.controllers@.len(),
{
    let ghost all = discovery@.controllers;
    let mut stable_mismatch = false;
    let mut i: usize = 0;
    assert(all.skip(0) == all);
    while i < discovery.controllers.len()
        invariant
            i <= discovery.controllers@.len(),
            all == views(discovery.controllers@),
            all == discovery@.controllers,
            first_exact(all, identity@) == (match first_exact(all.skip(i as int), identity@) {
                Some(at) => Some(at + i),
                None => None,
            }),
            stable_mismatch <==> exists|j: int|
                0 <= j < i && (#[trigger] all[j]).identity.stable_id == identity@.stable_id,
        decreases discovery.controllers@.len() - i,
    {
        let candidate = &discovery.controllers[i].identity;
        assert(all.skip(i as int)[0] == all[i as int]);
        assert(all.skip(i as int).drop_first() == all.skip(i + 1));
        assert(all[i as int].identity == candidate@);
        if same(candidate.stable_id.as_str(), identity.stable_id.as_str()) {
            if candidate.equals(identity) {
                return CurrentController::Exact(i);
            }
            stable_mismatch = true;
        }
        i += 1;
    }
    if stable_mismatch {
        CurrentController::StableMismatch
    } else {
        CurrentController::Absent
    }
}

// What was read of a bound function.
/// The authorization of a USB interface as it is read now.
#[derive(Debug)]
pub struct AuthorizationReading {
    pub canonical: Result<String, String>,
    pub devices_root: Result<String, String>,
    pub authorized: Result<String, String>,
}

/// What a fresh look brought: the discovery, and for the function in question
/// its HID usage and its USB authorization.
#[derive(Debug)]
pub struct Observation {
    pub discovery: Discovery,
    pub usage: Result<(u16, u16), String>,
    pub authorization: AuthorizationReading,
}

pub struct AuthorizationView {
    pub canonical: Result<Seq<char>, Seq<char>>,
    pub devices_root: Result<Seq<char>, Seq<char>>,
    pub authorized: Result<Seq<char>, Seq<char>>,
}

pub struct ObservationModel {
    pub controllers: Seq<ControllerModel>,
    pub usage: Result<(u16, u16), Seq<char>>,
    pub authorization: AuthorizationView,
}

impl View for AuthorizationReading {
    type V = AuthorizationView;

    open spec fn view(&self) -> AuthorizationView {
        AuthorizationView {
            canonical: view_result(self.canonical),
            devices_root: view_result(self.devices_root),
            authorized: view_result(self.authorized),
        }
    }
}

impl View for Observation {
    type V = ObservationModel;

    open spec fn view(&self) -> ObservationModel {
        ObservationModel {
            controllers: self.discovery@.controllers,
            usage: text_result(self.usage),
            authorization: self.authorization@,
        }
    }
}

/// Whether a USB interface is authorized, by what was read of it.
pub open spec fn authorized_check(name: Seq<char>, reading: AuthorizationView) -> Result<
    (),
    Seq<char>,
> {
    match (reading.canonical, reading.devices_root) {
        (Err(e), _) => Err("cannot verify USB interface authorization: "@ + e),
        (_, Err(e)) => Err("cannot verify USB sysfs root: "@ + e),
        (Ok(canonical), Ok(root)) => if !path_within(canonical, root) || file_name(canonical)
            != Some(name) {
            Err("USB interface path escaped the fixed sysfs root"@)
        } else {
            match reading.authorized {
                Err(e) => Err("cannot read USB interface authorization: "@ + e),
                Ok(text) => if trimmed(text) != "1"@ {
                    Err("USB interface is not freshly authorized"@)
                } else {
                    Ok(())
                },
            }
        },
    }
}

pub fn verify_usb_authorized(name: &str, reading: &AuthorizationReading) -> (r: Result<(), String>)
    ensures
        text_result(r) == authorized_check(name@, reading@),
{
    let canonical = match &reading.canonical {
        Ok(path) => path.as_str(),
        Err(error) => {
            return Err(joined("cannot verify USB interface authorization: ", error.as_str()));
        },
    };
    let root = match &reading.devices_root {
        Ok(path) => path.as_str(),
        Err(error) => {
            return Err(joined("cannot verify USB sysfs root: ", error.as_str()));
        },
    };
    if !is_within(canonical, root) || !file_name_is(canonical, name) {
        return Err("USB interface path escaped the fixed sysfs root".to_owned());
    }
    match &reading.authorized {
        Err(error) => Err(joined("cannot read USB interface authorization: ", error.as_str())),
        Ok(text) => {
            if !same(trim_ends(text.as_str(), Cut::Space).as_str(), "1") {
                Err("USB interface is not freshly authorized".to_owned())
            } else {
                Ok(())
            }
        },
    }
}

/// Whether a function is the one on record, bound or unbound as required.
pub open spec fn function_check(
    function: FunctionModel,
    identity: IdentityModel,
    require_bound: bool,
    usage: Result<(u16, u16), Seq<char>>,
    authorization: AuthorizationView,
) -> Result<(), Seq<char>> {
    match parsed_fields(identity.fingerprint) {
        None => Err("authoritative recovery fingerprint is malformed"@),
        Some(fields) => {
            let bus = lookup(fields, "bus"@);
            let name = lookup(fields, "function"@);
            let driver = lookup(fields, "driver"@);
            if bus != Some("hid"@) && bus != Some("usb"@) {
                Err("authoritative recovery fingerprint has an unsupported function bus"@)
            } else if name is None {
                Err("authoritative recovery fingerprint has no function identity"@)
            } else if Some(bus_text(function.bus)) != bus || Some(function.id) != name {
                Err("fresh kernel function does not match the authoritative recovery record"@)
            } else if text_of(fields, "driver"@).len() == 0 {
                Err("authoritative recovery fingerprint has no approved driver"@)
            } else if !approved_driver(text_of(fields, "driver"@)) {
                Err("authoritative recovery record names an unapproved driver"@)
            } else if require_bound && function.driver != driver {
                Err("fresh controller driver does not match the authoritative recovery record"@)
            } else if !require_bound && function.driver is Some {
                Err("refusing to bind a function that is already bound"@)
            } else if !require_bound && function.expected_driver != driver {
                Err("unbound function driver does not match the authoritative recovery record"@)
            } else if require_bound && function.bus == FunctionBus::Hid {
                usage_check(fields, usage)
            } else if require_bound && function.bus == FunctionBus::Usb {
                authorized_check(function.id, authorization)
            } else {
                Ok(())
            }
        },
    }
}

fn driver_is(driver: &Option<String>, expected: &str) -> (r: bool)
    ensures
        r == (opt_text(*driver) == Some(expected@)),
{
    match driver {
        Some(d) => same(d.as_str(), expected),
        None => false,
    }
}

pub fn verify_function(
    function: &FunctionIdentity,
    identity: &Identity,
    require_bound: bool,
    usage: &Result<(u16, u16), String>,
    authorization: &AuthorizationReading,
) -> (r: Result<(), String>)
    ensures
        text_result(r) == function_check(
            function@,
            identity@,
            require_bound,
            text_result(*usage),
            authorization@,
        ),
{
    let fields = match parse_fingerprint(identity.fingerprint.as_str()) {
        Some(fields) => fields,
        None => {
            return Err("authoritative recovery fingerprint is malformed".to_owned());
        },
    };
    proof {
        reveal_strlit("hid");
        reveal_strlit("usb");
        assert("hid"@[0] != "usb"@[0]);
    }
    let expected_bus: FunctionBus = match fields.find("bus") {
        Some(bus) => if same(bus, "hid") {
            FunctionBus::Hid
        } else if same(bus, "usb") {
            FunctionBus::Usb
        } else {
            return Err(
                "authoritative recovery fingerprint has an unsupported function bus".to_owned(),
            );
        },
        None => {
            return Err(
                "authoritative recovery fingerprint has an unsupported function bus".to_owned(),
            );
        },
    };
    let expected_function = match fields.find("function") {
        Some(name) => name,
        None => {
            return Err("authoritative recovery fingerprint has no function identity".to_owned());
        },
    };
    if function.bus != expected_bus || !same(function.id.as_str(), expected_function) {
        return Err(
            "fresh kernel function does not match the authoritative recovery record".to_owned(),
        );
    }
    if !fields.has("driver") {
        return Err("authoritative recovery fingerprint has no approved driver".to_owned());
    }
    let expected_driver = fields.text("driver");
    if !safe_driver(expected_driver) {
        return Err("authoritative recovery record names an unapproved driver".to_owned());
    }
    if require_bound {
        if !driver_is(&function.driver, expected_driver) {
            return Err(
                "fresh controller driver does not match the authoritative recovery record".to_owned(),
            );
        }
        match function.bus {
            FunctionBus::Hid => verify_hid_descriptor_identity(&fields, usage),
            FunctionBus::Usb => verify_usb_authorized(function.id.as_str(), authorization),
        }
    } else {
        if function.driver.is_some() {
            return Err("refusing to bind a function that is already bound".to_owned());
        }
        if !driver_is(&function.expected_driver, expected_driver) {
            return Err(
                "unbound function driver does not match the authoritative recovery record".to_owned(),
            );
        }
        Ok(())
    }
}

pub open spec fn bound_check(
    controller: ControllerModel,
    identity: IdentityModel,
    observation: ObservationModel,
) -> Result<(), Seq<char>> {
    if controller.identity != identity {
        Err("fresh controller identity does not match the authoritative recovery record"@)
    } else if !controller.can_full_control || controller.mixed_unrelated {
        Err("bound controller function is no longer safely isolated"@)
    } else {
        match controller.function {
            None => Err("bound controller has no validated function"@),
            Some(function) => function_check(
                function,
                identity,
                true,
                observation.usage,
                observation.authorization,
            ),
        }
    }
}

pub fn verify_bound_controller(
    controller: &Controller,
    identity: &Identity,
    observation: &Observation,
) -> (r: Result<(), String>)
    ensures
        text_result(r) == bound_check(controller@, identity@, observation@),
{
    if !controller.identity.equals(identity) {
        return Err(
            "fresh controller identity does not match the authoritative recovery record".to_owned(),
        );
    }
    if !controller.can_full_control || controller.mixed_unrelated {
        return Err("bound controller function is no longer safely isolated".to_owned());
    }
    match &controller.function {
        None => Err("bound controller has no validated function".to_owned()),
        Some(function) => verify_function(
            function,
            identity,
            true,
            &observation.usage,
            &observation.authorization,
        ),
    }
}

pub open spec fn unread_authorization() -> AuthorizationView {
    AuthorizationView {
        canonical: Err(Seq::empty()),
        devices_root: Err(Seq::empty()),
        authorized: Err(Seq::empty()),
    }
}

/// The checks of a controller whose function is bound to no driver; neither
/// its HID usage nor its authorization is consulted.
pub open spec fn unbound_check(controller: ControllerModel, identity: IdentityModel) -> Result<
    (),
    Seq<char>,
> {
    if controller.identity != identity {
        Err("fresh unbound controller identity does not match the authoritative recovery record"@)
    } else if controller.mixed_unrelated {
        Err("unbound controller has an unrelated keyboard or mouse sibling"@)
    } else {
        match controller.function {
            None => Err("unbound controller has no validated function"@),
            Some(function) => function_check(
                function,
                identity,
                false,
                Err(Seq::empty()),
                unread_authorization(),
            ),
        }
    }
}

pub fn verify_unbound_controller(controller: &Controller, identity: &Identity) -> (r: Result<
    (),
    String,
>)
    ensures
        text_result(r) == unbound_check(controller@, identity@),
{
    if !controller.identity.equals(identity) {
        return Err(
            "fresh unbound controller identity does not match the authoritative recovery record".to_owned(),
        );
    }
    if controller.mixed_unrelated {
        return Err("unbound controller has an unrelated keyboard or mouse sibling".to_owned());
    }
    match &controller.function {
        None => Err("unbound controller has no validated function".to_owned()),
        Some(function) => {
            let usage: Result<(u16, u16), String> = Err(String::new());
            let authorization = AuthorizationReading {
                canonical: Err(String::new()),
                devices_root: Err(String::new()),
                authorized: Err(String::new()),
            };
            verify_function(function, identity, false, &usage, &authorization)
        },
    }
}

// Recovering one record.
pub const BOUND_ATTEMPTS: usize = 20;

/// What happened while a record is being recovered.
#[derive(Debug)]
pub enum RecoveryEvent {
    /// The first look; whether a record of a vanished function may be cleared.
    Observed { clear_gone: bool, observation: Observation },
    /// For each path of the function, whether nothing stands there.
    Probed { stable_mismatch: bool, missing: Vec<bool> },
    /// The function was looked up by its name.
    UnboundRead(UnboundReading),
    /// The function was bound, or could not be.
    BindTried(Result<(), FunctionError>),
    /// A look after the binding, and how many more may follow.
    Awaited { attempts_left: usize, observation: Observation },
    /// The last look before the record is removed.
    Confirmed(Observation),
    /// The record was removed, or could not be.
    RecordRemoved { gone: bool, result: Result<(), String> },
}

/// What has to be done next.
#[derive(Debug)]
pub enum RecoveryNext {
    /// Find out whether the function has left the machine.
    ProbeGone { stable_mismatch: bool },
    /// Look the function up by its name.
    ReadUnbound,
    /// Give the function to its driver.
    Bind { step: BindingStep, function: FunctionIdentity },
    /// Wait, then look again.
    Await { attempts_left: usize },
    /// Look once more.
    Confirm,
    /// Remove the record from the journal.
    RemoveRecord { gone: bool },
    Done(Result<(), String>),
}

pub enum EventModel {
    Observed { clear_gone: bool, observation: ObservationModel },
    Probed { stable_mismatch: bool, missing: Seq<bool> },
    UnboundRead(UnboundModel),
    BindTried(Result<(), Seq<char>>),
    Awaited { attempts_left: usize, observation: ObservationModel },
    Confirmed(ObservationModel),
    RecordRemoved { gone: bool, result: Result<(), Seq<char>> },
}

pub enum NextModel {
    ProbeGone { stable_mismatch: bool },
    ReadUnbound,
    Bind { step: StepModel, function: FunctionModel },
    Await { attempts_left: usize },
    Confirm,
    RemoveRecord { gone: bool },
    Done(Result<(), Seq<char>>),
}

impl View for RecoveryEvent {
    type V = EventModel;

    open spec fn view(&self) -> EventModel {
        match self {
            RecoveryEvent::Observed { clear_gone, observation } => EventModel::Observed {
                clear_gone: *clear_gone,
                observation: observation@,
            },
            RecoveryEvent::Probed { stable_mismatch, missing } => EventModel::Probed {
                stable_mismatch: *stable_mismatch,
                missing: missing@,
            },
            RecoveryEvent::UnboundRead(reading) => EventModel::UnboundRead(reading@),
            RecoveryEvent::BindTried(result) => EventModel::BindTried(error_text(*result)),
            RecoveryEvent::Awaited { attempts_left, observation } => EventModel::Awaited {
                attempts_left: *attempts_left,
                observation: observation@,
            },
            RecoveryEvent::Confirmed(observation) => EventModel::Confirmed(observation@),
            RecoveryEvent::RecordRemoved { gone, result } => EventModel::RecordRemoved {
                gone: *gone,
                result: text_result(*result),
            },
        }
    }
}

impl View for RecoveryNext {
    type V = NextModel;

    open spec fn view(&self) -> NextModel {
        match self {
            RecoveryNext::ProbeGone { stable_mismatch } => NextModel::ProbeGone {
                stable_mismatch: *stable_mismatch,
            },
            RecoveryNext::ReadUnbound => NextModel::ReadUnbound,
            RecoveryNext::Bind { step, function } => NextModel::Bind {
                step: step@,
                function: function@,
            },
            RecoveryNext::Await { attempts_left } => NextModel::Await {
                attempts_left: *attempts_left,
            },
            RecoveryNext::Confirm => NextModel::Confirm,
            RecoveryNext::RemoveRecord { gone } => NextModel::RemoveRecord { gone: *gone },
            RecoveryNext::Done(result) => NextModel::Done(text_result(*result)),
        }
    }
}

pub open spec fn failed(message: Seq<char>) -> NextModel {
    NextModel::Done(Err(message))
}

pub open spec fn mismatch_message() -> Seq<char> {
    "fresh controller uses the stable key but does not match the authoritative recovery record"@
}

/// A controller on record was found: bound, its record can go; unbound, it has
/// to be bound first.
pub open spec fn found_bound(
    controller: ControllerModel,
    identity: IdentityModel,
    observation: ObservationModel,
) -> NextModel {
    match controller.function {
        None => failed(
            "validated recovery controller has no function; recovery journal retained"@,
        ),
        Some(function) => if function.driver is Some {
            match bound_check(controller, identity, observation) {
                Err(e) => failed(e),
                Ok(_) => NextModel::RemoveRecord { gone: false },
            }
        } else {
            found_unbound(controller, identity)
        },
    }
}

/// An unbound controller is bound only after its checks.
pub open spec fn found_unbound(controller: ControllerModel, identity: IdentityModel) -> NextModel {
    match unbound_check(controller, identity) {
        Err(e) => failed(e),
        Ok(_) => match bind_step(controller.function->0) {
            Err(e) => failed(e + "; recovery journal retained"@),
            Ok(step) => NextModel::Bind { step, function: controller.function->0 },
        },
    }
}

pub open spec fn recovery_step(identity: IdentityModel, event: EventModel) -> NextModel {
    match event {
        EventModel::Observed { clear_gone, observation } => match current_of(
            observation.controllers,
            identity,
        ) {
            CurrentModel::Exact(at) => found_bound(
                observation.controllers[at],
                identity,
                observation,
            ),
            CurrentModel::StableMismatch => if clear_gone {
                NextModel::ProbeGone { stable_mismatch: true }
            } else {
                failed(mismatch_message())
            },
            CurrentModel::Absent => if clear_gone {
                NextModel::ProbeGone { stable_mismatch: false }
            } else {
                NextModel::ReadUnbound
            },
        },
        EventModel::Probed { stable_mismatch, missing } => {
            let gone = gone_paths(identity) matches Some(paths) && missing.len() == paths.len()
                && forall|i: int| 0 <= i < missing.len() ==> #[trigger] missing[i];
            if gone {
                NextModel::RemoveRecord { gone: true }
            } else if stable_mismatch {
                failed(mismatch_message())
            } else {
                NextModel::ReadUnbound
            }
        },
        EventModel::UnboundRead(reading) => match unbound_controller(identity, reading) {
            Err(e) => failed(e + "; recovery journal retained"@),
            Ok(controller) => found_unbound(controller, identity),
        },
        EventModel::BindTried(result) => match result {
            Err(e) => failed(e + "; recovery journal retained"@),
            Ok(_) => NextModel::Await { attempts_left: BOUND_ATTEMPTS },
        },
        EventModel::Awaited { attempts_left, observation } => match current_of(
            observation.controllers,
            identity,
        ) {
            CurrentModel::Exact(at) => match bound_check(
                observation.controllers[at],
                identity,
                observation,
            ) {
                Err(e) => failed(e),
                Ok(_) => NextModel::Confirm,
            },
            CurrentModel::StableMismatch => failed(
                "fresh rebound controller does not match the authoritative recovery record; recovery journal retained"@,
            ),
            CurrentModel::Absent => if attempts_left > 1 {
                NextModel::Await { attempts_left: (attempts_left - 1) as usize }
            } else {
                failed(
                    "kernel did not confirm that the validated controller function was rebound; recovery journal retained"@,
                )
            },
        },
        EventModel::Confirmed(observation) => match current_of(observation.controllers, identity) {
            CurrentModel::Exact(at) => match bound_check(
                observation.controllers[at],
                identity,
                observation,
            ) {
                Err(e) => failed(e),
                Ok(_) => NextModel::RemoveRecord { gone: false },
            },
            CurrentModel::StableMismatch => failed(
                "rebound controller uses the stable key but does not match the authoritative recovery record; recovery journal retained"@,
            ),
            CurrentModel::Absent => failed(
                "kernel did not expose the rebound controller; recovery journal retained"@,
            ),
        },
        EventModel::RecordRemoved { gone, result } => match result {
            Ok(_) => NextModel::Done(Ok(())),
            Err(e) => if gone {
                failed(
                    "gone recovery record removal outcome is uncertain; retry restoration: "@ + e,
                )
            } else {
                failed(
                    "controller is enabled and safe, but recovery record removal outcome is uncertain; retry: "@
                        + e,
                )
            },
        },
    }
}

fn give_up(message: &str) -> (r: RecoveryNext)
    ensures
        r@ == failed(message@),
{
    RecoveryNext::Done(Err(message.to_owned()))
}

fn next_unbound(controller: &Controller, identity: &Identity) -> (r: RecoveryNext)
    ensures
        r@ == found_unbound(controller@, identity@),
{
    match verify_unbound_controller(controller, identity) {
        Err(message) => RecoveryNext::Done(Err(message)),
        Ok(_) => match &controller.function {
            None => give_up("unbound controller has no validated function"),
            Some(function) => match bind(function) {
                Err(error) => RecoveryNext::Done(
                    Err(joined(error.message.as_str(), "; recovery journal retained")),
                ),
                Ok(step) => RecoveryNext::Bind { step, function: function.copy() },
            },
        },
    }
}

fn next_bound(controller: &Controller, identity: &Identity, observation: &Observation) -> (r:
    RecoveryNext)
    ensures
        r@ == found_bound(controller@, identity@, observation@),
{
    match &controller.function {
        None => give_up("validated recovery controller has no function; recovery journal retained"),
        Some(function) => {
            if function.driver.is_some() {
                match verify_bound_controller(controller, identity, observation) {
                    Err(message) => RecoveryNext::Done(Err(message)),
                    Ok(_) => RecoveryNext::RemoveRecord { gone: false },
                }
            } else {
                next_unbound(controller, identity)
            }
        },
    }
}

/// Recovers one record: what has to be done next after what just happened.
pub fn recover_record(identity: &Identity, event: RecoveryEvent) -> (r: RecoveryNext)
    ensures
        r@ == recovery_step(identity@, event@),
{
    match event {
        RecoveryEvent::Observed { clear_gone, observation } => {
            match current_controller(&observation.discovery, identity) {
                CurrentController::Exact(at) => {
                    let controller = &observation.discovery.controllers[at];
                    assert(observation@.controllers[at as int] == controller@);
                    next_bound(controller, identity, &observation)
                },
                CurrentController::StableMismatch => {
                    if clear_gone {
                        RecoveryNext::ProbeGone { stable_mismatch: true }
                    } else {
                        give_up(
                            "fresh controller uses the stable key but does not match the authoritative recovery record",
                        )
                    }
                },
                CurrentController::Absent => {
                    if clear_gone {
                        RecoveryNext::ProbeGone { stable_mismatch: false }
                    } else {
                        RecoveryNext::ReadUnbound
                    }
                },
            }
        },
        RecoveryEvent::Probed { stable_mismatch, missing } => {
            if function_is_definitively_gone(identity, missing.as_slice()) {
                RecoveryNext::RemoveRecord { gone: true }
            } else if stable_mismatch {
                give_up(
                    "fresh controller uses the stable key but does not match the authoritative recovery record",
                )
            } else {
                RecoveryNext::ReadUnbound
            }
        },
        RecoveryEvent::UnboundRead(reading) => match controller_from_unbound(identity, &reading) {
            Err(message) => RecoveryNext::Done(
                Err(joined(message.as_str(), "; recovery journal retained")),
            ),
            Ok(controller) => next_unbound(&controller, identity),
        },
        RecoveryEvent::BindTried(result) => match result {
            Err(error) => RecoveryNext::Done(
                Err(joined(error.message.as_str(), "; recovery journal retained")),
            ),
            Ok(_) => RecoveryNext::Await { attempts_left: BOUND_ATTEMPTS },
        },
        RecoveryEvent::Awaited { attempts_left, observation } => {
            match current_controller(&observation.discovery, identity) {
                CurrentController::Exact(at) => {
                    let controller = &observation.discovery.controllers[at];
                    assert(observation@.controllers[at as int] == controller@);
                    match verify_bound_controller(controller, identity, &observation) {
                        Err(message) => RecoveryNext::Done(Err(message)),
                        Ok(_) => RecoveryNext::Confirm,
                    }
                },
                CurrentController::StableMismatch => give_up(
                    "fresh rebound controller does not match the authoritative recovery record; recovery journal retained",
                ),
                CurrentController::Absent => {
                    if attempts_left > 1 {
                        RecoveryNext::Await { attempts_left: attempts_left - 1 }
                    } else {
                        give_up(
                            "kernel did not confirm that the validated controller function was rebound; recovery journal retained",
                        )
                    }
                },
            }
        },
        RecoveryEvent::Confirmed(observation) => {
            match current_controller(&observation.discovery, identity) {
                CurrentController::Exact(at) => {
                    let controller = &observation.discovery.controllers[at];
                    assert(observation@.controllers[at as int] == controller@);
                    match verify_bound_controller(controller, identity, &observation) {
                        Err(message) => RecoveryNext::Done(Err(message)),
                        Ok(_) => RecoveryNext::RemoveRecord { gone: false },
                    }
                },
                CurrentController::StableMismatch => give_up(
                    "rebound controller uses the stable key but does not match the authoritative recovery record; recovery journal retained",
                ),
                CurrentController::Absent => give_up(
                    "kernel did not expose the rebound controller; recovery journal retained",
                ),
            }
        },
        RecoveryEvent::RecordRemoved { gone, result } => match result {
            Ok(_) => RecoveryNext::Done(Ok(())),
            Err(error) => {
                if gone {
                    RecoveryNext::Done(
                        Err(
                            joined(
                                "gone recovery record removal outcome is uncertain; retry restoration: ",
                                error.as_str(),
                            ),
                        ),
                    )
                } else {
                    RecoveryNext::Done(
                        Err(
                            joined(
                                "controller is enabled and safe, but recovery record removal outcome is uncertain; retry: ",
                                error.as_str(),
                            ),
                        ),
                    )
                }
            },
        },
    }
}

// Disabling.
pub const UNBOUND_ATTEMPTS: usize = 20;

/// What happened while a controller is being disabled.
#[derive(Debug)]
pub enum DisableEvent {
    /// Whether the removal gate blocks disables.
    GateRead(Result<bool, String>),
    /// A fresh look at the machine.
    Observed(Observation),
    /// The recovery record was written, or could not be.
    RecordAdded { function: FunctionIdentity, result: Result<(), String> },
    /// The journal was read again.
    JournalRead { function: FunctionIdentity, records: Result<Vec<Identity>, String> },
    /// The function was unbound, or could not be.
    UnbindTried(Result<(), FunctionError>),
    /// The function was looked up, and how many more looks may follow.
    Polled { attempts_left: usize, reading: UnboundReading },
}

/// What has to be done next.
#[derive(Debug)]
pub enum DisableNext {
    Observe,
    /// Write the recovery record.
    AddRecord { function: FunctionIdentity },
    /// Read the journal again.
    ReadJournal { function: FunctionIdentity },
    /// Take the function from its driver.
    Unbind { step: BindingStep, function: FunctionIdentity },
    /// Look the function up by its name; wait in between.
    Poll { attempts_left: usize },
    Exit(HelperExit),
}

pub enum DisableEventModel {
    GateRead(Result<bool, Seq<char>>),
    Observed(ObservationModel),
    RecordAdded { function: FunctionModel, result: Result<(), Seq<char>> },
    JournalRead { function: FunctionModel, records: Result<Seq<IdentityModel>, Seq<char>> },
    UnbindTried(Result<(), Seq<char>>),
    Polled { attempts_left: usize, reading: UnboundModel },
}

pub enum DisableNextModel {
    Observe,
    AddRecord { function: FunctionModel },
    ReadJournal { function: FunctionModel },
    Unbind { step: StepModel, function: FunctionModel },
    Poll { attempts_left: usize },
    Exit((i32, Seq<char>)),
}

pub open spec fn records_view(r: Result<Vec<Identity>, String>) -> Result<
    Seq<IdentityModel>,
    Seq<char>,
> {
    match r {
        Ok(records) => Ok(views(records@)),
        Err(e) => Err(e@),
    }
}

impl View for DisableEvent {
    type V = DisableEventModel;

    open spec fn view(&self) -> DisableEventModel {
        match self {
            DisableEvent::GateRead(result) => DisableEventModel::GateRead(text_result(*result)),
            DisableEvent::Observed(observation) => DisableEventModel::Observed(observation@),
            DisableEvent::RecordAdded { function, result } => DisableEventModel::RecordAdded {
                function: function@,
                result: text_result(*result),
            },
            DisableEvent::JournalRead { function, records } => DisableEventModel::JournalRead {
                function: function@,
                records: records_view(*records),
            },
            DisableEvent::UnbindTried(result) => DisableEventModel::UnbindTried(
                error_text(*result),
            ),
            DisableEvent::Polled { attempts_left, reading } => DisableEventModel::Polled {
                attempts_left: *attempts_left,
                reading: reading@,
            },
        }
    }
}

impl View for DisableNext {
    type V = DisableNextModel;

    open spec fn view(&self) -> DisableNextModel {
        match self {
            DisableNext::Observe => DisableNextModel::Observe,
            DisableNext::AddRecord { function } => DisableNextModel::AddRecord {
                function: function@,
            },
            DisableNext::ReadJournal { function } => DisableNextModel::ReadJournal {
                function: function@,
            },
            DisableNext::Unbind { step, function } => DisableNextModel::Unbind {
                step: step@,
                function: function@,
            },
            DisableNext::Poll { attempts_left } => DisableNextModel::Poll {
                attempts_left: *attempts_left,
            },
            DisableNext::Exit(exit) => DisableNextModel::Exit(exit@),
        }
    }
}

pub open spec fn disable_step(identity: IdentityModel, event: DisableEventModel) -> DisableNextModel {
    match event {
        DisableEventModel::GateRead(result) => match result {
            Err(e) => DisableNextModel::Exit((5i32, e)),
            Ok(active) => if active {
                DisableNextModel::Exit(
                    (
                        5i32,
                        "controller disable is blocked while package removal is in progress"@,
                    ),
                )
            } else {
                DisableNextModel::Observe
            },
        },
        DisableEventModel::Observed(observation) => match current_of(
            observation.controllers,
            identity,
        ) {
            CurrentModel::Exact(at) => {
                let controller = observation.controllers[at];
                match bound_check(controller, identity, observation) {
                    Err(e) => DisableNextModel::Exit((3i32, e)),
                    Ok(_) => DisableNextModel::AddRecord { function: controller.function->0 },
                }
            },
            _ => DisableNextModel::Exit(
                (
                    3i32,
                    "fresh Linux input enumeration did not match the requested controller identity"@,
                ),
            ),
        },
        DisableEventModel::RecordAdded { function, result } => match result {
            Err(e) => DisableNextModel::Exit(
                (5i32, "cannot durably record controller recovery intent: "@ + e),
            ),
            Ok(_) => DisableNextModel::ReadJournal { function },
        },
        DisableEventModel::JournalRead { function, records } => match records {
            Err(e) => DisableNextModel::Exit(
                (5i32, "cannot confirm controller recovery intent: "@ + e),
            ),
            Ok(list) => if !list.contains(identity) {
                DisableNextModel::Exit(
                    (
                        5i32,
                        "durable controller recovery intent was not confirmed; no kernel mutation performed"@,
                    ),
                )
            } else {
                match unbind_step(function) {
                    Err(e) => DisableNextModel::Exit(
                        (4i32, "controller unbind failed; recovery journal retained: "@ + e),
                    ),
                    Ok(step) => DisableNextModel::Unbind { step, function },
                }
            },
        },
        DisableEventModel::UnbindTried(result) => match result {
            Err(e) => DisableNextModel::Exit(
                (4i32, "controller unbind failed; recovery journal retained: "@ + e),
            ),
            Ok(_) => DisableNextModel::Poll { attempts_left: UNBOUND_ATTEMPTS },
        },
        DisableEventModel::Polled { attempts_left, reading } => {
            if unbound_function(identity, reading) matches Ok(function) && function.driver is None {
                DisableNextModel::Exit(ok_exit())
            } else if attempts_left > 1 {
                DisableNextModel::Poll { attempts_left: (attempts_left - 1) as usize }
            } else {
                DisableNextModel::Exit(
                    (
                        5i32,
                        "kernel did not confirm that the validated controller function was unbound; recovery journal retained"@,
                    ),
                )
            }
        },
    }
}

fn leave(code: i32, message: &str) -> (r: HelperExit)
    ensures
        r@ == (code, message@),
{
    HelperExit { code, message: message.to_owned() }
}

fn is_recorded(records: &Vec<Identity>, identity: &Identity) -> (r: bool)
    ensures
        r == views(records@).contains(identity@),
{
    let ghost all = views(records@);
    let mut i: usize = 0;
    while i < records.len()
        invariant
            i <= records@.len(),
            all == views(records@),
            forall|j: int| 0 <= j < i ==> #[trigger] all[j] != identity@,
        decreases records@.len() - i,
    {
        assert(all[i as int] == records@[i as int]@);
        if records[i].equals(identity) {
            return true;
        }
        i += 1;
    }
    false
}

/// Disables a controller: what has to be done next after what just happened.
pub fn disable(identity: &Identity, event: DisableEvent) -> (r: DisableNext)
    ensures
        r@ == disable_step(identity@, event@),
{
    match event {
        DisableEvent::GateRead(result) => match result {
            Err(message) => DisableNext::Exit(HelperExit { code: 5, message }),
            Ok(active) => {
                if active {
                    DisableNext::Exit(
                        leave(
                            5,
                            "controller disable is blocked while package removal is in progress",
                        ),
                    )
                } else {
                    DisableNext::Observe
                }
            },
        },
        DisableEvent::Observed(observation) => {
            match current_controller(&observation.discovery, identity) {
                CurrentController::Exact(at) => {
                    let controller = &observation.discovery.controllers[at];
                    assert(observation@.controllers[at as int] == controller@);
                    match verify_bound_controller(controller, identity, &observation) {
                        Err(message) => DisableNext::Exit(HelperExit { code: 3, message }),
                        Ok(_) => match &controller.function {
                            None => DisableNext::Exit(
                                leave(3, "controller has no validated HID or USB function"),
                            ),
                            Some(function) => DisableNext::AddRecord { function: function.copy() },
                        },
                    }
                },
                _ => DisableNext::Exit(
                    leave(
                        3,
                        "fresh Linux input enumeration did not match the requested controller identity",
                    ),
                ),
            }
        },
        DisableEvent::RecordAdded { function, result } => match result {
            Err(error) => DisableNext::Exit(
                HelperExit {
                    code: 5,
                    message: joined(
                        "cannot durably record controller recovery intent: ",
                        error.as_str(),
                    ),
                },
            ),
            Ok(_) => DisableNext::ReadJournal { function },
        },
        DisableEvent::JournalRead { function, records } => match records {
            Err(error) => DisableNext::Exit(
                HelperExit {
                    code: 5,
                    message: joined("cannot confirm controller recovery intent: ", error.as_str()),
                },
            ),
            Ok(list) => {
                if !is_recorded(&list, identity) {
                    return DisableNext::Exit(
                        leave(
                            5,
                            "durable controller recovery intent was not confirmed; no kernel mutation performed",
                        ),
                    );
                }
                match unbind(&function) {
                    Err(error) => DisableNext::Exit(
                        HelperExit {
                            code: 4,
                            message: joined(
                                "controller unbind failed; recovery journal retained: ",
                                error.message.as_str(),
                            ),
                        },
                    ),
                    Ok(step) => DisableNext::Unbind { step, function },
                }
            },
        },
        DisableEvent::UnbindTried(result) => match result {
            Err(error) => DisableNext::Exit(
                HelperExit {
                    code: 4,
                    message: joined(
                        "controller unbind failed; recovery journal retained: ",
                        error.message.as_str(),
                    ),
                },
            ),
            Ok(_) => DisableNext::Poll { attempts_left: UNBOUND_ATTEMPTS },
        },
        DisableEvent::Polled { attempts_left, reading } => {
            match find_unbound_function(identity, &reading) {
                Ok(function) => {
                    if function.driver.is_none() {
                        return DisableNext::Exit(exit_ok());
                    }
                },
                Err(_) => {},
            }
            if attempts_left > 1 {
                DisableNext::Poll { attempts_left: attempts_left - 1 }
            } else {
                DisableNext::Exit(
                    leave(
                        5,
                        "kernel did not confirm that the validated controller function was unbound; recovery journal retained",
                    ),
                )
            }
        },
    }
}

// Enabling.
/// What happened while a controller is being enabled.
#[derive(Debug)]
pub enum EnableEvent {
    JournalRead(Result<Vec<Identity>, String>),
    Recovered(Result<(), String>),
    Observed(Observation),
}

#[derive(Debug)]
pub enum EnableNext {
    /// Recover this record of the journal; a vanished function keeps it.
    Recover(Identity),
    Observe,
    Exit(HelperExit),
}

pub enum EnableEventModel {
    JournalRead(Result<Seq<IdentityModel>, Seq<char>>),
    Recovered(Result<(), Seq<char>>),
    Observed(ObservationModel),
}

pub enum EnableNextModel {
    Recover(IdentityModel),
    Observe,
    Exit((i32, Seq<char>)),
}

impl View for EnableEvent {
    type V = EnableEventModel;

    open spec fn view(&self) -> EnableEventModel {
        match self {
            EnableEvent::JournalRead(records) => EnableEventModel::JournalRead(
                records_view(*records),
            ),
            EnableEvent::Recovered(result) => EnableEventModel::Recovered(text_result(*result)),
            EnableEvent::Observed(observation) => EnableEventModel::Observed(observation@),
        }
    }
}

impl View for EnableNext {
    type V = EnableNextModel;

    open spec fn view(&self) -> EnableNextModel {
        match self {
            EnableNext::Recover(identity) => EnableNextModel::Recover(identity@),
            EnableNext::Observe => EnableNextModel::Observe,
            EnableNext::Exit(exit) => EnableNextModel::Exit(exit@),
        }
    }
}

/// The record of the journal decides, whatever the request says beyond its
/// stable identifier.  Without a record, only a controller that is bound
/// already counts as enabled, and nothing is changed.
pub open spec fn enable_step(requested: IdentityModel, event: EnableEventModel) -> EnableNextModel {
    match event {
        EnableEventModel::JournalRead(records) => match records {
            Err(e) => EnableNextModel::Exit((5i32, e)),
            Ok(list) => match found(list, requested.stable_id) {
                Some(record) => EnableNextModel::Recover(record),
                None => match identity_check(requested) {
                    Err(e) => EnableNextModel::Exit((3i32, e)),
                    Ok(_) => EnableNextModel::Observe,
                },
            },
        },
        EnableEventModel::Recovered(result) => match result {
            Err(e) => EnableNextModel::Exit((5i32, e)),
            Ok(_) => EnableNextModel::Exit(ok_exit()),
        },
        EnableEventModel::Observed(observation) => match current_of(
            observation.controllers,
            requested,
        ) {
            CurrentModel::Exact(at) => match bound_check(
                observation.controllers[at],
                requested,
                observation,
            ) {
                Err(e) => EnableNextModel::Exit((3i32, e)),
                Ok(_) => EnableNextModel::Exit(ok_exit()),
            },
            _ => EnableNextModel::Exit(
                (3i32, "controller identity is not present in the root recovery journal"@),
            ),
        },
    }
}

/// Enables a controller: what has to be done next after what just happened.
pub fn enable(requested: &Identity, event: EnableEvent) -> (r: EnableNext)
    ensures
        r@ == enable_step(requested@, event@),
{
    match event {
        EnableEvent::JournalRead(records) => match records {
            Err(message) => EnableNext::Exit(HelperExit { code: 5, message }),
            Ok(list) => match find_record(&list, requested.stable_id.as_str()) {
                Some(record) => EnableNext::Recover(record.copy()),
                None => match validate_identity(requested) {
                    Err(message) => EnableNext::Exit(HelperExit { code: 3, message }),
                    Ok(_) => EnableNext::Observe,
                },
            },
        },
        EnableEvent::Recovered(result) => match result {
            Err(message) => EnableNext::Exit(HelperExit { code: 5, message }),
            Ok(_) => EnableNext::Exit(exit_ok()),
        },
        EnableEvent::Observed(observation) => {
            match current_controller(&observation.discovery, requested) {
                CurrentController::Exact(at) => {
                    let controller = &observation.discovery.controllers[at];
                    assert(observation@.controllers[at as int] == controller@);
                    match verify_bound_controller(controller, requested, &observation) {
                        Err(message) => EnableNext::Exit(HelperExit { code: 3, message }),
                        Ok(_) => EnableNext::Exit(exit_ok()),
                    }
                },
                _ => EnableNext::Exit(
                    leave(3, "controller identity is not present in the root recovery journal"),
                ),
            }
        },
    }
}

// Restoring the whole journal.
#[derive(Debug)]
pub enum RestoreNext {
    /// Recover the record at this place; a vanished function loses it.
    Recover(usize),
    Exit(HelperExit),
}

pub enum RestoreNextModel {
    Recover(int),
    Exit((i32, Seq<char>)),
}

impl View for RestoreNext {
    type V = RestoreNextModel;

    open spec fn view(&self) -> RestoreNextModel {
        match self {
            RestoreNext::Recover(at) => RestoreNextModel::Recover(*at as int),
            RestoreNext::Exit(exit) => RestoreNextModel::Exit(exit@),
        }
    }
}

/// The records are recovered in order.  The first failure ends it, so that an
/// uncertain journal is not written again.
pub open spec fn restore_step(
    records: Result<Seq<IdentityModel>, Seq<char>>,
    recovered: int,
    last: Result<(), Seq<char>>,
) -> RestoreNextModel {
    match records {
        Err(e) => RestoreNextModel::Exit((5i32, e)),
        Ok(list) => match last {
            Err(e) => if 0 < recovered <= list.len() {
                RestoreNextModel::Exit((5i32, list[recovered - 1].stable_id + ": "@ + e))
            } else {
                RestoreNextModel::Exit((5i32, e))
            },
            Ok(_) => if 0 <= recovered < list.len() {
                RestoreNextModel::Recover(recovered)
            } else {
                RestoreNextModel::Exit(ok_exit())
            },
        },
    }
}

/// Restores the journal: given how many records were tried and how the last
/// one went, the next record or the end.
pub fn restore_journal(
    records: &Result<Vec<Identity>, String>,
    recovered: usize,
    last: &Result<(), String>,
) -> (r: RestoreNext)
    ensures
        r@ == restore_step(records_view(*records), recovered as int, text_result(*last)),
{
    match records {
        Err(message) => RestoreNext::Exit(HelperExit { code: 5, message: message.clone() }),
        Ok(list) => match last {
            Err(error) => {
                if 0 < recovered && recovered <= list.len() {
                    assert(views(list@)[recovered - 1] == list@[recovered - 1]@);
                    RestoreNext::Exit(
                        HelperExit {
                            code: 5,
                            message: joined3(
                                list[recovered - 1].stable_id.as_str(),
                                ": ",
                                error.as_str(),
                            ),
                        },
                    )
                } else {
                    RestoreNext::Exit(HelperExit { code: 5, message: error.clone() })
                }
            },
            Ok(_) => {
                if recovered < list.len() {
                    RestoreNext::Recover(recovered)
                } else {
                    RestoreNext::Exit(exit_ok())
                }
            },
        },
    }
}

// Laws of recovery.
/// A function is given to a driver only where it is the function on record,
/// bound to nothing, alone in its group, and the driver is approved and the
/// one on record.
pub proof fn binding_needs_verification(identity: IdentityModel, event: EventModel)
    requires
        recovery_step(identity, event) is Bind,
    ensures
        ({
            let function = recovery_step(identity, event)->function;
            &&& function.driver is None
            &&& parsed_fields(identity.fingerprint) matches Some(fields) && {
                &&& lookup(fields, "function"@) == Some(function.id)
                &&& lookup(fields, "bus"@) == Some(bus_text(function.bus))
                &&& function.expected_driver == lookup(fields, "driver"@)
                &&& approved_driver(text_of(fields, "driver"@))
            }
        }),
{
}

/// A record leaves the journal only after its controller was seen bound and
/// verified, or after nothing stood any more where its function was.
pub proof fn records_are_retained_until_safe(identity: IdentityModel, event: EventModel)
    requires
        recovery_step(identity, event) is RemoveRecord,
    ensures
        match event {
            EventModel::Observed { clear_gone: _, observation } => exists|i: int|
                0 <= i < observation.controllers.len() && bound_check(
                    #[trigger] observation.controllers[i],
                    identity,
                    observation,
                ) is Ok,
            EventModel::Confirmed(observation) => exists|i: int|
                0 <= i < observation.controllers.len() && bound_check(
                    #[trigger] observation.controllers[i],
                    identity,
                    observation,
                ) is Ok,
            EventModel::Probed { stable_mismatch: _, missing } => gone_paths(identity) is Some
                && forall|i: int| 0 <= i < missing.len() ==> #[trigger] missing[i],
            _ => false,
        },
{
    match event {
        EventModel::Observed { clear_gone: _, observation } => {
            lemma_first_exact(observation.controllers, identity);
        },
        EventModel::Confirmed(observation) => {
            lemma_first_exact(observation.controllers, identity);
        },
        _ => {},
    }
}

/// A function is taken from its driver only after the record of its identity
/// was read back from the journal, and the driver is approved.
pub proof fn unbinding_needs_a_record(identity: IdentityModel, event: DisableEventModel)
    requires
        disable_step(identity, event) is Unbind,
    ensures
        event matches DisableEventModel::JournalRead { function, records } && {
            &&& records matches Ok(list) && list.contains(identity)
            &&& function.driver matches Some(driver) && approved_driver(driver)
            &&& disable_step(identity, event)->Unbind_function == function
        },
{
}

/// While the removal gate is up, a disable ends before anything is looked at.
pub proof fn gate_blocks_disable(identity: IdentityModel)
    ensures
        disable_step(identity, DisableEventModel::GateRead(Ok(true))) is Exit,
        disable_step(identity, DisableEventModel::GateRead(Ok(true)))->Exit_0.0 == 5,
{
}

/// Enabling without a record reports success only for a controller that is
/// bound and verified, and changes nothing.
pub proof fn enable_without_record_changes_nothing(
    requested: IdentityModel,
    event: EnableEventModel,
)
    requires
        event is Observed,
    ensures
        enable_step(requested, event) is Exit,
{
}

} // verus!
