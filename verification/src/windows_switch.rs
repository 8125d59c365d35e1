//! The course of a switch on Windows, from the request to its report.
//!
//! Two looks at the system, one right after the other, must locate the same
//! function before its property is changed; the new state counts only once a
//! fresh look shows it.
use crate::devnode::{RawDevnode, ERROR_NO_MORE_ITEMS};
use crate::inventory::{ControllerRecord, FoundModel, Inventory, InventoryModel};
use crate::locate::{locate_identity, located};
use crate::platform::{
    platform_result, ControlCoverage, DeviceModel, ErrorModel, MutationReport, OutcomeModel,
    PlatformError, VerifiedDevice, VerifiedModel,
};
use crate::windows::{
    admit_change, apply_property_change, change_admitted, change_planned, change_result,
    confirm_state, node_needs_restart, plan_change, restart_pending, shows, snapshots_after,
    target_missing, target_step, ChangeModel, ChangePlan, Confirmation, TargetModel, TargetStep,
    WindowsPlatform, MAX_CONFIRMATIONS,
};
use crate::wide_text::{error_text, format_error_code};
use vstd::prelude::*;

verus! {

/// The number by which the system switches a node on.
pub const DICS_ENABLE: u32 = 1;

/// The number by which the system switches a node off.
pub const DICS_DISABLE: u32 = 2;

pub open spec fn change_number(enabled: bool) -> u32 {
    if enabled {
        DICS_ENABLE
    } else {
        DICS_DISABLE
    }
}

pub fn state_change(enabled: bool) -> (r: u32)
    ensures
        r == (if enabled {
            1u32
        } else {
            2u32
        }),
{
    if enabled {
        DICS_ENABLE
    } else {
        DICS_DISABLE
    }
}

/// How far a switch has come.
#[derive(Debug)]
pub enum Stage {
    /// Nothing was located yet.
    Looking,
    /// The first look located the controller.
    Relooking(ControllerRecord),
    /// Both looks agree; the function is sought among all nodes.
    Changing(ControllerRecord, Inventory),
    /// The property was changed; so many looks were made for the new state.
    Confirming(ControllerRecord, u8),
    /// The new state was not seen.
    Deferred(ControllerRecord),
}

pub enum StageModel {
    Looking,
    Relooking(FoundModel),
    Changing(FoundModel, InventoryModel),
    Confirming(FoundModel, u8),
    Deferred(FoundModel),
}

impl View for Stage {
    type V = StageModel;

    open spec fn view(&self) -> StageModel {
        match self {
            Stage::Looking => StageModel::Looking,
            Stage::Relooking(first) => StageModel::Relooking(first@),
            Stage::Changing(current, inventory) => StageModel::Changing(current@, inventory@),
            Stage::Confirming(current, looks) => StageModel::Confirming(current@, *looks),
            Stage::Deferred(current) => StageModel::Deferred(current@),
        }
    }
}

/// What just happened.
#[derive(Debug)]
pub enum SwitchEvent {
    Requested,
    /// The system was scanned.
    Scanned(Result<Inventory, PlatformError>),
    /// A node was met while all nodes are listed again.
    Met(Result<RawDevnode, String>),
    /// The list ended; `said` is the system's text for the error.
    ListEnded(u32, Vec<u16>),
    /// The property was changed, or why not.
    Changed(Result<(), PlatformError>),
}

pub enum SwitchEventModel {
    Requested,
    Scanned(Result<InventoryModel, ErrorModel>),
    Met(Result<crate::devnode::NodeModel, Seq<char>>),
    ListEnded(u32, Seq<u16>),
    Changed(Result<(), ErrorModel>),
}

impl View for SwitchEvent {
    type V = SwitchEventModel;

    open spec fn view(&self) -> SwitchEventModel {
        match self {
            SwitchEvent::Requested => SwitchEventModel::Requested,
            SwitchEvent::Scanned(r) => SwitchEventModel::Scanned(platform_result(*r)),
            SwitchEvent::Met(r) => SwitchEventModel::Met(crate::text::view_result(*r)),
            SwitchEvent::ListEnded(error, said) => SwitchEventModel::ListEnded(*error, said@),
            SwitchEvent::Changed(r) => SwitchEventModel::Changed(
                crate::platform::unit_result(*r),
            ),
        }
    }
}

/// What is done next.
#[derive(Debug)]
pub enum SwitchNext {
    Scan,
    /// Wait a moment, then scan.
    PauseAndScan,
    /// Read the next of all nodes.
    Meet,
    /// Change the property of the node that was just met, by this number.
    Change(u32),
    Done(Result<MutationReport, PlatformError>),
}

pub enum SwitchNextModel {
    Scan,
    PauseAndScan,
    Meet,
    Change(u32),
    Done(Result<Seq<OutcomeModel>, ErrorModel>),
}

impl View for SwitchNext {
    type V = SwitchNextModel;

    open spec fn view(&self) -> SwitchNextModel {
        match self {
            SwitchNext::Scan => SwitchNextModel::Scan,
            SwitchNext::PauseAndScan => SwitchNextModel::PauseAndScan,
            SwitchNext::Meet => SwitchNextModel::Meet,
            SwitchNext::Change(number) => SwitchNextModel::Change(*number),
            SwitchNext::Done(r) => SwitchNextModel::Done(platform_result(*r)),
        }
    }
}

pub type Snapshots = Seq<(Seq<char>, DeviceModel)>;

/// The event is one that the stage waits for.
pub open spec fn expected(stage: StageModel, event: SwitchEventModel) -> bool {
    match stage {
        StageModel::Looking => event is Requested || event is Scanned,
        StageModel::Relooking(_) => event is Scanned,
        StageModel::Changing(_, _) => event is Met || event is ListEnded || event is Changed,
        StageModel::Confirming(_, _) => event is Scanned,
        StageModel::Deferred(_) => event is Scanned,
    }
}

pub open spec fn failed(
    stage: StageModel,
    disabled: Snapshots,
    error: ErrorModel,
) -> (StageModel, Snapshots, SwitchNextModel) {
    (stage, disabled, SwitchNextModel::Done(Err(error)))
}

/// The second look: what it located is compared with the first.
pub open spec fn after_second_look(
    first: FoundModel,
    inventory: InventoryModel,
    disabled: Snapshots,
    identity: VerifiedModel,
    enabled: bool,
) -> (StageModel, Snapshots, SwitchNextModel) {
    let stage = StageModel::Relooking(first);
    match located(inventory, identity) {
        Err(e) => failed(stage, disabled, e),
        Ok(current) => match change_planned(first, current, identity, enabled) {
            Err(e) => failed(stage, disabled, e),
            Ok(ChangeModel::Done(report)) => (stage, disabled, SwitchNextModel::Done(Ok(report))),
            Ok(ChangeModel::Change(_)) => (
                StageModel::Changing(current, inventory),
                disabled,
                SwitchNextModel::Meet,
            ),
        },
    }
}

pub open spec fn after_met(
    current: FoundModel,
    inventory: InventoryModel,
    met: Result<crate::devnode::NodeModel, Seq<char>>,
    disabled: Snapshots,
    identity: VerifiedModel,
    enabled: bool,
) -> (StageModel, Snapshots, SwitchNextModel) {
    let stage = StageModel::Changing(current, inventory);
    match met {
        Err(_) => (stage, disabled, SwitchNextModel::Meet),
        Ok(node) => match target_step(
            node,
            identity,
            current.node.devinst,
            inventory.nodes,
            inventory.hid,
            enabled,
        ) {
            TargetModel::Pass => (stage, disabled, SwitchNextModel::Meet),
            TargetModel::Change => (
                stage,
                disabled,
                SwitchNextModel::Change(change_number(enabled)),
            ),
            TargetModel::Refuse(e) => failed(stage, disabled, e),
        },
    }
}

pub open spec fn after_confirming_look(
    current: FoundModel,
    looks: u8,
    scan: Result<InventoryModel, ErrorModel>,
    disabled: Snapshots,
    identity: VerifiedModel,
    enabled: bool,
) -> (StageModel, Snapshots, SwitchNextModel) {
    let seen = match scan {
        Ok(inventory) => shows(inventory, identity, enabled),
        Err(_) => false,
    };
    if seen {
        (
            StageModel::Confirming(current, looks),
            snapshots_after(disabled, identity, enabled, current.device, true),
            SwitchNextModel::Done(change_result(identity, enabled, true, false)),
        )
    } else if looks + 1 < MAX_CONFIRMATIONS {
        (
            StageModel::Confirming(current, (looks + 1) as u8),
            disabled,
            SwitchNextModel::PauseAndScan,
        )
    } else {
        (StageModel::Deferred(current), disabled, SwitchNextModel::PauseAndScan)
    }
}

pub open spec fn switch_step(
    stage: StageModel,
    disabled: Snapshots,
    event: SwitchEventModel,
    identity: VerifiedModel,
    enabled: bool,
) -> (StageModel, Snapshots, SwitchNextModel) {
    match (stage, event) {
        (StageModel::Looking, SwitchEventModel::Requested) => match change_admitted(
            identity,
            enabled,
        ) {
            Err(e) => failed(stage, disabled, e),
            Ok(_) => (stage, disabled, SwitchNextModel::Scan),
        },
        (StageModel::Looking, SwitchEventModel::Scanned(Ok(inventory))) => match located(
            inventory,
            identity,
        ) {
            Err(e) => failed(stage, disabled, e),
            Ok(first) => (StageModel::Relooking(first), disabled, SwitchNextModel::Scan),
        },
        (StageModel::Relooking(first), SwitchEventModel::Scanned(Ok(inventory))) =>
            after_second_look(first, inventory, disabled, identity, enabled),
        (StageModel::Changing(current, inventory), SwitchEventModel::Met(met)) => after_met(
            current,
            inventory,
            met,
            disabled,
            identity,
            enabled,
        ),
        (StageModel::Changing(_, _), SwitchEventModel::ListEnded(error, said)) => if error
            == ERROR_NO_MORE_ITEMS {
            failed(
                stage,
                disabled,
                ErrorModel::NotFound(
                    identity.stable_id
                        + ": exact function devnode disappeared before property change"@,
                ),
            )
        } else {
            failed(
                stage,
                disabled,
                ErrorModel::OperationFailed(error_text("SetupDiEnumDeviceInfo"@, error, said)),
            )
        },
        (StageModel::Changing(current, _), SwitchEventModel::Changed(Ok(_))) => (
            StageModel::Confirming(current, 0),
            disabled,
            SwitchNextModel::Scan,
        ),
        (StageModel::Changing(_, _), SwitchEventModel::Changed(Err(e))) => failed(
            stage,
            disabled,
            e,
        ),
        (StageModel::Confirming(current, looks), SwitchEventModel::Scanned(scan)) =>
            after_confirming_look(current, looks, scan, disabled, identity, enabled),
        (StageModel::Deferred(current), SwitchEventModel::Scanned(scan)) => (
            stage,
            disabled,
            SwitchNextModel::Done(
                change_result(
                    identity,
                    enabled,
                    false,
                    match scan {
                        Ok(inventory) => restart_pending(inventory, identity),
                        Err(_) => false,
                    },
                ),
            ),
        ),
        (_, SwitchEventModel::Scanned(Err(e))) => failed(stage, disabled, e),
        _ => (stage, disabled, SwitchNextModel::Scan),
    }
}

fn inventory_of(scan: Result<Inventory, PlatformError>) -> (r: Option<Inventory>)
    ensures
        r == (match scan {
            Ok(inventory) => Some(inventory),
            Err(_) => None,
        }),
{
    match scan {
        Ok(inventory) => Some(inventory),
        Err(_) => None,
    }
}

fn look_first(
    inventory: Inventory,
    identity: &VerifiedDevice,
) -> (r: (Stage, SwitchNext))
    ensures
        match located(inventory@, identity@) {
            Err(e) => r.0@ is Looking && r.1@ == SwitchNextModel::Done(Err(e)),
            Ok(first) => r.0@ == StageModel::Relooking(first) && r.1@ is Scan,
        },
{
    match locate_identity(&inventory, identity) {
        Ok(first) => (Stage::Relooking(first), SwitchNext::Scan),
        Err(error) => (Stage::Looking, SwitchNext::Done(Err(error))),
    }
}

fn look_again(
    first: ControllerRecord,
    inventory: Inventory,
    identity: &VerifiedDevice,
    enabled: bool,
) -> (r: (Stage, SwitchNext))
    ensures
        forall|disabled: Snapshots|
            (r.0@, disabled, r.1@) == #[trigger] after_second_look(
                first@,
                inventory@,
                disabled,
                identity@,
                enabled,
            ),
{
    let current = match locate_identity(&inventory, identity) {
        Ok(current) => current,
        Err(error) => {
            return (Stage::Relooking(first), SwitchNext::Done(Err(error)));
        },
    };
    match plan_change(&first, &current, identity, enabled) {
        Ok(ChangePlan::Done(report)) => (Stage::Relooking(first), SwitchNext::Done(Ok(report))),
        Ok(ChangePlan::Change(_)) => (Stage::Changing(current, inventory), SwitchNext::Meet),
        Err(error) => (Stage::Relooking(first), SwitchNext::Done(Err(error))),
    }
}

fn meet(
    current: ControllerRecord,
    inventory: Inventory,
    met: Result<RawDevnode, String>,
    identity: &VerifiedDevice,
    enabled: bool,
) -> (r: (Stage, SwitchNext))
    ensures
        forall|disabled: Snapshots|
            (r.0@, disabled, r.1@) == #[trigger] after_met(
                current@,
                inventory@,
                crate::text::view_result(met),
                disabled,
                identity@,
                enabled,
            ),
{
    let next = match met {
        Err(_) => SwitchNext::Meet,
        Ok(node) => match apply_property_change(
            node,
            identity,
            current.node.devinst,
            inventory.nodes.as_slice(),
            &inventory.hid,
            enabled,
        ) {
            TargetStep::Pass => SwitchNext::Meet,
            TargetStep::Change => SwitchNext::Change(state_change(enabled)),
            TargetStep::Refuse(error) => SwitchNext::Done(Err(error)),
        },
    };
    (Stage::Changing(current, inventory), next)
}

impl WindowsPlatform {
    fn look_for_change(
        &mut self,
        current: ControllerRecord,
        looks: u8,
        scan: Result<Inventory, PlatformError>,
        identity: &VerifiedDevice,
        enabled: bool,
    ) -> (r: (Stage, SwitchNext))
        requires
            old(self).wf(),
        ensures
            final(self).wf(),
            (r.0@, final(self)@, r.1@) == after_confirming_look(
                current@,
                looks,
                platform_result(scan),
                old(self)@,
                identity@,
                enabled,
            ),
    {
        let inventory = inventory_of(scan);
        match confirm_state(&inventory, identity, enabled, looks) {
            Confirmation::Confirmed => {
                let report = self.finish_change(identity, enabled, &current.device, true, false);
                (Stage::Confirming(current, looks), SwitchNext::Done(report))
            },
            Confirmation::Again(looks) => (
                Stage::Confirming(current, looks),
                SwitchNext::PauseAndScan,
            ),
            Confirmation::GaveUp => (Stage::Deferred(current), SwitchNext::PauseAndScan),
        }
    }

    /// One step of a switch: takes what just happened, and says what to do next.
    pub fn set_enabled(
        &mut self,
        stage: Stage,
        event: SwitchEvent,
        identity: &VerifiedDevice,
        enabled: bool,
    ) -> (r: (Stage, SwitchNext))
        requires
            old(self).wf(),
            expected(stage@, event@),
        ensures
            final(self).wf(),
            (r.0@, final(self)@, r.1@) == switch_step(
                stage@,
                old(self)@,
                event@,
                identity@,
                enabled,
            ),
    {
        match (stage, event) {
            (Stage::Looking, SwitchEvent::Requested) => match admit_change(identity, enabled) {
                Ok(_) => (Stage::Looking, SwitchNext::Scan),
                Err(error) => (Stage::Looking, SwitchNext::Done(Err(error))),
            },
            (Stage::Looking, SwitchEvent::Scanned(Ok(inventory))) => look_first(
                inventory,
                identity,
            ),
            (Stage::Relooking(first), SwitchEvent::Scanned(Ok(inventory))) => {
                let r = look_again(first, inventory, identity, enabled);
                proof {
                    let m = after_second_look(
                        first@,
                        inventory@,
                        self@,
                        identity@,
                        enabled,
                    );
                    assert((r.0@, self@, r.1@) == m);
                }
                r
            },
            (Stage::Changing(current, inventory), SwitchEvent::Met(met)) => {
                let r = meet(current, inventory, met, identity, enabled);
                proof {
                    let m = after_met(
                        current@,
                        inventory@,
                        crate::text::view_result(met),
                        self@,
                        identity@,
                        enabled,
                    );
                    assert((r.0@, self@, r.1@) == m);
                }
                r
            },
            (Stage::Changing(current, inventory), SwitchEvent::ListEnded(error, said)) => {
                let failure = if error == ERROR_NO_MORE_ITEMS {
                    target_missing(identity)
                } else {
                    PlatformError::OperationFailed(
                        format_error_code("SetupDiEnumDeviceInfo", error, said.as_slice()),
                    )
                };
                (Stage::Changing(current, inventory), SwitchNext::Done(Err(failure)))
            },
            (Stage::Changing(current, _), SwitchEvent::Changed(Ok(_))) => (
                Stage::Confirming(current, 0),
                SwitchNext::Scan,
            ),
            (Stage::Changing(current, inventory), SwitchEvent::Changed(Err(error))) => (
                Stage::Changing(current, inventory),
                SwitchNext::Done(Err(error)),
            ),
            (Stage::Confirming(current, looks), SwitchEvent::Scanned(scan)) =>
                self.look_for_change(current, looks, scan, identity, enabled),
            (Stage::Deferred(current), SwitchEvent::Scanned(scan)) => {
                let inventory = inventory_of(scan);
                let restart = node_needs_restart(&inventory, identity);
                let report = self.finish_change(
                    identity,
                    enabled,
                    &current.device,
                    false,
                    restart,
                );
                (Stage::Deferred(current), SwitchNext::Done(report))
            },
            (stage, SwitchEvent::Scanned(Err(error))) => (stage, SwitchNext::Done(Err(error))),
            (stage, _) => (stage, SwitchNext::Scan),
        }
    }
}

// Laws.
/// What a stage has established about the switch.
pub open spec fn stage_ok(stage: StageModel, identity: VerifiedModel, enabled: bool) -> bool {
    match stage {
        StageModel::Looking => true,
        StageModel::Relooking(first) => first.identity == identity,
        StageModel::Changing(current, _) => {
            &&& change_admitted(identity, enabled) is Ok
            &&& current.identity == identity
            &&& current.node.status_known
            &&& !enabled ==> identity.coverage == ControlCoverage::Full
                && current.device.capabilities.full_control
        },
        StageModel::Confirming(current, looks) => current.identity == identity && looks
            < MAX_CONFIRMATIONS,
        StageModel::Deferred(current) => current.identity == identity,
    }
}

/// Every step keeps what the stages have established: whatever is located is the
/// identity of the request, and a controller is switched off only under full
/// control.
pub proof fn each_step_keeps_what_was_established(
    stage: StageModel,
    disabled: Snapshots,
    event: SwitchEventModel,
    identity: VerifiedModel,
    enabled: bool,
)
    requires
        stage_ok(stage, identity, enabled),
        expected(stage, event),
    ensures
        stage_ok(switch_step(stage, disabled, event, identity, enabled).0, identity, enabled),
{
}

/// The property is changed as the request says, only after both looks, and only
/// of the node that was just met and is the target; what is kept changes only with a confirmed end.
pub proof fn a_change_needs_both_looks_and_the_target(
    stage: StageModel,
    disabled: Snapshots,
    event: SwitchEventModel,
    identity: VerifiedModel,
    enabled: bool,
)
    requires
        expected(stage, event),
    ensures
        switch_step(stage, disabled, event, identity, enabled).2 matches SwitchNextModel::Change(
            number,
        ) ==> number == change_number(enabled) && (stage matches
            StageModel::Changing(current, inventory) && (event matches SwitchEventModel::Met(Ok(
            node,
        )) && target_step(
            node,
            identity,
            current.node.devinst,
            inventory.nodes,
            inventory.hid,
            enabled,
        ) is Change)),
        switch_step(stage, disabled, event, identity, enabled).1 != disabled ==> (stage is Confirming
            && (event matches SwitchEventModel::Scanned(Ok(inventory)) && shows(
            inventory,
            identity,
            enabled,
        ))),
{
}

/// A switch that is reported as made was seen in a fresh look.
pub proof fn a_reported_change_was_seen(
    stage: StageModel,
    disabled: Snapshots,
    event: SwitchEventModel,
    identity: VerifiedModel,
    enabled: bool,
)
    requires
        expected(stage, event),
        stage is Confirming || stage is Deferred,
        switch_step(stage, disabled, event, identity, enabled).2 matches SwitchNextModel::Done(
            Ok(_),
        ),
    ensures
        event matches SwitchEventModel::Scanned(Ok(inventory)) && shows(
            inventory,
            identity,
            enabled,
        ),
{
}

} // verus!
