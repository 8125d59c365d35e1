//! The course of a switch on Linux, from the request to its report.
use crate::discovery::{Discovered, Discovery};
use crate::fingerprint::{identity_check, opt_view, FunctionIdentity, FunctionModel, Identity, IdentityModel};
use crate::function::function_result;
use crate::input::{controller_result, Controller, ControllerModel};
use crate::linux::{
    admit_switch, bound_shown, current_step, native_of, outcome_with, probed, probed_controller,
    switch_admitted, switch_change, unbound_shown, wait_for_bound, wait_for_unbound, warning_for,
    CurrentStep, CurrentStepModel, LinuxChange, LinuxChangeModel, LinuxPlatform, MAX_BOUND_LOOKS,
    MAX_UNBOUND_LOOKS,
};
use crate::linux_helper::{action_word, helper_action};
use crate::ordered::{put, without};
use crate::platform::{
    confirmed_report, platform_result, unit_result, ErrorModel, MutationReport, OutcomeModel,
    PlatformError, VerifiedDevice, VerifiedModel,
};
use vstd::prelude::*;

verus! {

/// How far a switch has come.
#[derive(Debug)]
pub enum Stage {
    /// The controller is looked for among the live ones.
    Looking,
    /// The unbound function is read.
    Probing,
    /// The helper was asked to act on the controller, if one was found.
    Asked(Option<Controller>),
    /// The helper acted; so many looks were made for the new state.
    Waiting(Option<Controller>, u8),
}

pub enum StageModel {
    Looking,
    Probing,
    Asked(Option<ControllerModel>),
    Waiting(Option<ControllerModel>, u8),
}

impl View for Stage {
    type V = StageModel;

    open spec fn view(&self) -> StageModel {
        match self {
            Stage::Looking => StageModel::Looking,
            Stage::Probing => StageModel::Probing,
            Stage::Asked(c) => StageModel::Asked(opt_view(*c)),
            Stage::Waiting(c, looks) => StageModel::Waiting(opt_view(*c), *looks),
        }
    }
}

/// What just happened.  The flag says whether the helper is there to be asked.
#[derive(Debug)]
pub enum SwitchEvent {
    Requested,
    Discovered(Discovery, bool),
    Probed(Result<Controller, String>, bool),
    Answered(Result<(), PlatformError>),
    FunctionRead(Result<FunctionIdentity, String>),
}

pub enum SwitchEventModel {
    Requested,
    Discovered(Discovered, bool),
    Probed(Result<ControllerModel, Seq<char>>, bool),
    Answered(Result<(), ErrorModel>),
    FunctionRead(Result<FunctionModel, Seq<char>>),
}

impl View for SwitchEvent {
    type V = SwitchEventModel;

    open spec fn view(&self) -> SwitchEventModel {
        match self {
            SwitchEvent::Requested => SwitchEventModel::Requested,
            SwitchEvent::Discovered(d, helper) => SwitchEventModel::Discovered(d@, *helper),
            SwitchEvent::Probed(r, helper) => SwitchEventModel::Probed(
                controller_result(*r),
                *helper,
            ),
            SwitchEvent::Answered(r) => SwitchEventModel::Answered(unit_result(*r)),
            SwitchEvent::FunctionRead(r) => SwitchEventModel::FunctionRead(function_result(*r)),
        }
    }
}

/// What is done next.
#[derive(Debug)]
pub enum SwitchNext {
    Discover,
    Probe(Identity),
    /// Ask the helper for the action on the function.
    Ask(&'static str, Identity),
    /// Look for the new state: at the function for a disable, at the live
    /// controllers for an enable.
    Look,
    /// Wait a moment, then look.
    PauseAndLook,
    Done(Result<MutationReport, PlatformError>),
}

pub enum SwitchNextModel {
    Discover,
    Probe(IdentityModel),
    Ask(Seq<char>, IdentityModel),
    Look,
    PauseAndLook,
    Done(Result<Seq<OutcomeModel>, ErrorModel>),
}

impl View for SwitchNext {
    type V = SwitchNextModel;

    open spec fn view(&self) -> SwitchNextModel {
        match self {
            SwitchNext::Discover => SwitchNextModel::Discover,
            SwitchNext::Probe(i) => SwitchNextModel::Probe(i@),
            SwitchNext::Ask(action, i) => SwitchNextModel::Ask(action@, i@),
            SwitchNext::Look => SwitchNextModel::Look,
            SwitchNext::PauseAndLook => SwitchNextModel::PauseAndLook,
            SwitchNext::Done(r) => SwitchNextModel::Done(platform_result(*r)),
        }
    }
}

pub type Kept = Seq<(Seq<char>, ControllerModel)>;

/// The event is one that the stage waits for.
pub open spec fn expected(stage: StageModel, event: SwitchEventModel, enabled: bool) -> bool {
    match stage {
        StageModel::Looking => event is Requested || event is Discovered,
        StageModel::Probing => event is Probed,
        StageModel::Asked(controller) => event is Answered && (enabled || controller is Some),
        StageModel::Waiting(controller, _) => if enabled {
            event is Discovered
        } else {
            event is FunctionRead && controller is Some
        },
    }
}

/// The decision, once the controller was looked for.
pub open spec fn decided(
    stage: StageModel,
    kept: Kept,
    current: Result<ControllerModel, ErrorModel>,
    identity: VerifiedModel,
    enabled: bool,
    helper_available: bool,
) -> (StageModel, Kept, SwitchNextModel) {
    match switch_change(kept, identity, enabled, current, helper_available) {
        Err(e) => (stage, kept, SwitchNextModel::Done(Err(e))),
        Ok(LinuxChangeModel::Done(report)) => (stage, kept, SwitchNextModel::Done(Ok(report))),
        Ok(LinuxChangeModel::Invoke(native)) => (
            StageModel::Asked(
                match current {
                    Ok(controller) => Some(controller),
                    Err(_) => None,
                },
            ),
            kept,
            SwitchNextModel::Ask(action_word(enabled), native),
        ),
    }
}

/// One look for the new state.
pub open spec fn looked(
    controller: Option<ControllerModel>,
    looks: u8,
    seen: bool,
    kept: Kept,
    identity: VerifiedModel,
    enabled: bool,
) -> (StageModel, Kept, SwitchNextModel) {
    let stage = StageModel::Waiting(controller, looks);
    let most = if enabled {
        MAX_BOUND_LOOKS
    } else {
        MAX_UNBOUND_LOOKS
    };
    if seen && enabled {
        (
            stage,
            without(kept, identity.stable_id),
            SwitchNextModel::Done(Ok(confirmed_report(identity.stable_id, true, true))),
        )
    } else if seen {
        (
            stage,
            put(kept, identity.stable_id, controller->0),
            SwitchNextModel::Done(
                Ok(outcome_with(identity.stable_id, false, Some(warning_for(controller->0)))),
            ),
        )
    } else if looks + 1 < most {
        (
            StageModel::Waiting(controller, (looks + 1) as u8),
            kept,
            SwitchNextModel::PauseAndLook,
        )
    } else if enabled {
        (
            stage,
            kept,
            SwitchNextModel::Done(
                Err(
                    ErrorModel::VerificationFailed(
                        identity.stable_id
                            + ": helper returned but the controller function did not reappear"@,
                    ),
                ),
            ),
        )
    } else {
        (
            stage,
            kept,
            SwitchNextModel::Done(
                Err(
                    ErrorModel::VerificationFailed(
                        identity.stable_id
                            + ": helper returned but the validated function is still bound"@,
                    ),
                ),
            ),
        )
    }
}

pub open spec fn switch_step(
    stage: StageModel,
    kept: Kept,
    event: SwitchEventModel,
    identity: VerifiedModel,
    enabled: bool,
) -> (StageModel, Kept, SwitchNextModel) {
    match (stage, event) {
        (StageModel::Looking, SwitchEventModel::Requested) => match switch_admitted(identity) {
            Err(e) => (stage, kept, SwitchNextModel::Done(Err(e))),
            Ok(_) => (stage, kept, SwitchNextModel::Discover),
        },
        (StageModel::Looking, SwitchEventModel::Discovered(discovery, helper)) =>
            match current_step(kept, identity, discovery.controllers) {
                CurrentStepModel::Found(controller) => decided(
                    stage,
                    kept,
                    Ok(controller),
                    identity,
                    enabled,
                    helper,
                ),
                CurrentStepModel::Probe(native) => (
                    StageModel::Probing,
                    kept,
                    SwitchNextModel::Probe(native),
                ),
                CurrentStepModel::Failed(e) => decided(
                    stage,
                    kept,
                    Err(e),
                    identity,
                    enabled,
                    helper,
                ),
            },
        (StageModel::Probing, SwitchEventModel::Probed(probe, helper)) => decided(
            stage,
            kept,
            probed(identity, probe),
            identity,
            enabled,
            helper,
        ),
        (StageModel::Asked(_), SwitchEventModel::Answered(Err(e))) => (
            stage,
            kept,
            SwitchNextModel::Done(Err(e)),
        ),
        (StageModel::Asked(controller), SwitchEventModel::Answered(Ok(_))) => (
            StageModel::Waiting(controller, 0),
            kept,
            SwitchNextModel::Look,
        ),
        (StageModel::Waiting(controller, looks), SwitchEventModel::FunctionRead(function)) =>
            looked(controller, looks, unbound_shown(function), kept, identity, enabled),
        (StageModel::Waiting(controller, looks), SwitchEventModel::Discovered(discovery, _)) =>
            looked(
                controller,
                looks,
                bound_shown(discovery.controllers, native_of(identity)),
                kept,
                identity,
                enabled,
            ),
        _ => (stage, kept, SwitchNextModel::Discover),
    }
}

fn copy_controller(current: &Result<Controller, PlatformError>) -> (r: Option<Controller>)
    ensures
        opt_view(r) == (match platform_result(*current) {
            Ok(controller) => Some(controller),
            Err(_) => None,
        }),
{
    match current {
        Ok(controller) => Some(controller.copy()),
        Err(_) => None,
    }
}

impl LinuxPlatform {
    fn decide(
        &self,
        stage: Stage,
        current: Result<Controller, PlatformError>,
        identity: &VerifiedDevice,
        enabled: bool,
        helper_available: bool,
    ) -> (r: (Stage, SwitchNext))
        requires
            self.wf(),
        ensures
            (r.0@, self@, r.1@) == decided(
                stage@,
                self@,
                platform_result(current),
                identity@,
                enabled,
                helper_available,
            ),
    {
        let controller = copy_controller(&current);
        match self.set_enabled(identity, enabled, current, helper_available) {
            Ok(LinuxChange::Done(report)) => (stage, SwitchNext::Done(Ok(report))),
            Ok(LinuxChange::Invoke(native)) => (
                Stage::Asked(controller),
                SwitchNext::Ask(helper_action(enabled), native),
            ),
            Err(error) => (stage, SwitchNext::Done(Err(error))),
        }
    }

    fn look(
        &mut self,
        controller: Option<Controller>,
        looks: u8,
        seen: bool,
        identity: &VerifiedDevice,
        enabled: bool,
    ) -> (r: (Stage, SwitchNext))
        requires
            old(self).wf(),
            enabled || controller is Some,
        ensures
            final(self).wf(),
            (r.0@, final(self)@, r.1@) == looked(
                opt_view(controller),
                looks,
                seen,
                old(self)@,
                identity@,
                enabled,
            ),
    {
        let most: u8 = if enabled {
            MAX_BOUND_LOOKS
        } else {
            MAX_UNBOUND_LOOKS
        };
        if !seen && looks < most - 1 {
            return (Stage::Waiting(controller, looks + 1), SwitchNext::PauseAndLook);
        }
        if enabled {
            let report = self.finish_enable(identity, seen);
            return (Stage::Waiting(controller, looks), SwitchNext::Done(report));
        }
        match controller {
            Some(c) => {
                let report = self.finish_disable(identity, &c, seen);
                (Stage::Waiting(Some(c), looks), SwitchNext::Done(report))
            },
            None => (Stage::Waiting(None, looks), SwitchNext::Look),
        }
    }

    /// One step of a switch: takes what just happened, and says what to do next.
    pub fn advance(
        &mut self,
        stage: Stage,
        event: SwitchEvent,
        identity: &VerifiedDevice,
        enabled: bool,
    ) -> (r: (Stage, SwitchNext))
        requires
            old(self).wf(),
            expected(stage@, event@, enabled),
        ensures
            final(self).wf(),
            (r.0@, final(self)@, r.1@) == switch_step(
                stage@,
                old(self)@,
                event@,
                identity@,
                enabled,
            ),
    {
        match (stage, event) {
            (Stage::Looking, SwitchEvent::Requested) => match admit_switch(identity) {
                Ok(_) => (Stage::Looking, SwitchNext::Discover),
                Err(error) => (Stage::Looking, SwitchNext::Done(Err(error))),
            },
            (Stage::Looking, SwitchEvent::Discovered(discovery, helper)) =>
                match self.current_controller(identity, &discovery) {
                    CurrentStep::Found(controller) => self.decide(
                        Stage::Looking,
                        Ok(controller),
                        identity,
                        enabled,
                        helper,
                    ),
                    CurrentStep::Probe(native) => (Stage::Probing, SwitchNext::Probe(native)),
                    CurrentStep::Failed(error) => self.decide(
                        Stage::Looking,
                        Err(error),
                        identity,
                        enabled,
                        helper,
                    ),
                },
            (Stage::Probing, SwitchEvent::Probed(probe, helper)) => {
                let current = probed_controller(identity, probe);
                self.decide(Stage::Probing, current, identity, enabled, helper)
            },
            (Stage::Asked(controller), SwitchEvent::Answered(Err(error))) => (
                Stage::Asked(controller),
                SwitchNext::Done(Err(error)),
            ),
            (Stage::Asked(controller), SwitchEvent::Answered(Ok(_))) => (
                Stage::Waiting(controller, 0),
                SwitchNext::Look,
            ),
            (Stage::Waiting(controller, looks), SwitchEvent::FunctionRead(function)) => {
                let seen = wait_for_unbound(&function);
                self.look(controller, looks, seen, identity, enabled)
            },
            (Stage::Waiting(controller, looks), SwitchEvent::Discovered(discovery, _)) => {
                let native = Identity {
                    platform: identity.platform.clone(),
                    stable_id: identity.stable_id.clone(),
                    instance_id: identity.instance_id.clone(),
                    fingerprint: identity.fingerprint.clone(),
                };
                let seen = wait_for_bound(&discovery, &native);
                self.look(controller, looks, seen, identity, enabled)
            },
            (stage, _) => (stage, SwitchNext::Discover),
        }
    }
}

// Laws.
/// What a stage has established about the switch.
pub open spec fn stage_ok(stage: StageModel, identity: VerifiedModel, enabled: bool) -> bool {
    match stage {
        StageModel::Looking => true,
        StageModel::Probing => true,
        StageModel::Asked(controller) => {
            &&& identity_check(native_of(identity)) is Ok
            &&& controller matches Some(c) ==> c.can_full_control
            &&& !enabled ==> controller is Some
        },
        StageModel::Waiting(controller, looks) => {
            &&& controller matches Some(c) ==> c.can_full_control
            &&& !enabled ==> controller is Some
            &&& looks < if enabled {
                MAX_BOUND_LOOKS
            } else {
                MAX_UNBOUND_LOOKS
            }
        },
    }
}

/// Every step keeps what the stages have established, so that the event a stage
/// waits for can always be taken.
pub proof fn each_step_keeps_what_was_established(
    stage: StageModel,
    kept: Kept,
    event: SwitchEventModel,
    identity: VerifiedModel,
    enabled: bool,
)
    requires
        stage_ok(stage, identity, enabled),
        expected(stage, event, enabled),
    ensures
        stage_ok(switch_step(stage, kept, event, identity, enabled).0, identity, enabled),
{
}

/// The helper is asked for the action of the request and only about its
/// well-formed identity, and to switch off only a controller that can be
/// controlled entirely.
pub proof fn the_helper_is_asked_only_what_is_safe(
    stage: StageModel,
    kept: Kept,
    event: SwitchEventModel,
    identity: VerifiedModel,
    enabled: bool,
)
    requires
        stage_ok(stage, identity, enabled),
        expected(stage, event, enabled),
    ensures
        switch_step(stage, kept, event, identity, enabled).2 matches SwitchNextModel::Ask(
            action,
            native,
        ) ==> {
            &&& action == action_word(enabled)
            &&& native == native_of(identity)
            &&& identity_check(native) is Ok
            &&& !enabled ==> (switch_step(stage, kept, event, identity, enabled).0 matches
                StageModel::Asked(Some(c)) && c.can_full_control)
        },
{
}

/// What is kept changes only when the new state was seen.
pub proof fn what_is_kept_changes_only_when_seen(
    stage: StageModel,
    kept: Kept,
    event: SwitchEventModel,
    identity: VerifiedModel,
    enabled: bool,
)
    requires
        expected(stage, event, enabled),
        switch_step(stage, kept, event, identity, enabled).1 != kept,
    ensures
        enabled ==> (event matches SwitchEventModel::Discovered(discovery, _) && bound_shown(
            discovery.controllers,
            native_of(identity),
        )),
        !enabled ==> (event matches SwitchEventModel::FunctionRead(function) && unbound_shown(
            function,
        )),
{
}

} // verus!
