//! What a switch on Linux comes to, and what an enumeration shows there.
use crate::discovery::Discovered;
use crate::fingerprint::{
    approved_driver, identity_check, parsed_fields, FunctionModel, IdentityModel,
};
use crate::function::number_field;
use crate::input::ControllerModel;
use crate::linux::{
    coverage_of, device_of, enumerated, kept_after, kept_after_all, kept_rows, live_rows,
    native_check, native_of, recorded_protocol, recorded_usage, switch_change, with_notes,
    LinuxChangeModel,
};
use crate::linux_switch::{switch_step, Kept, StageModel, SwitchEventModel, SwitchNextModel};
use crate::ordered::{
    in_order, lemma_lookup_absent, lemma_lookup_put, lookup, put, without,
};
use crate::platform::{ControlCoverage, ControllerProtocol, ErrorModel, OutcomeModel, VerifiedModel};
use crate::recovery::first_exact;
use crate::service_laws::whole;
use crate::sorting::{lemma_same_members, sorted_by, sorting_keeps_items};
use crate::text::lemma_lt_irreflexive;
use vstd::prelude::*;

verus! {

// Lookups.
pub proof fn lemma_without_lookup<A>(entries: Seq<(Seq<char>, A)>, key: Seq<char>, other: Seq<char>)
    requires
        in_order(entries),
    ensures
        in_order(without(entries, key)),
        lookup(without(entries, key), other) == if other == key {
            None
        } else {
            lookup(entries, other)
        },
        forall|i: int|
            0 <= i < without(entries, key).len() ==> entries.contains(
                #[trigger] without(entries, key)[i],
            ),
    decreases entries.len(),
{
    let after = without(entries, key);
    if entries.len() > 0 {
        let rest = entries.drop_first();
        assert(in_order(rest)) by {
            assert forall|i: int, j: int| 0 <= i < j < rest.len() implies crate::text::lt(
                (#[trigger] rest[i]).0,
                (#[trigger] rest[j]).0,
            ) by {
                assert(rest[i] == entries[i + 1]);
                assert(rest[j] == entries[j + 1]);
            }
        }
        lemma_without_lookup(rest, key, other);
        if entries[0].0 == key {
            assert forall|i: int| 0 <= i < rest.len() implies (#[trigger] rest[i]).0 != key by {
                assert(rest[i] == entries[i + 1]);
                assert(crate::text::lt(entries[0].0, entries[i + 1].0));
                lemma_lt_irreflexive(key);
            }
            lemma_lookup_absent(rest, key);
            assert forall|i: int| 0 <= i < after.len() implies entries.contains(
                #[trigger] after[i],
            ) by {
                assert(after[i] == entries[i + 1]);
            }
        } else {
            let tail = without(rest, key);
            assert(after.drop_first() =~= tail);
            assert(after[0] == entries[0]);
            assert forall|i: int| 0 <= i < after.len() implies entries.contains(
                #[trigger] after[i],
            ) by {
                if i > 0 {
                    assert(after[i] == tail[i - 1]);
                    let k = choose|k: int| 0 <= k < rest.len() && rest[k] == tail[i - 1];
                    assert(entries[k + 1] == after[i]);
                }
            }
            assert(in_order(after)) by {
                assert forall|i: int, j: int| 0 <= i < j < after.len() implies crate::text::lt(
                    (#[trigger] after[i]).0,
                    (#[trigger] after[j]).0,
                ) by {
                    assert(after[j] == tail[j - 1]);
                    if i == 0 {
                        let k = choose|k: int| 0 <= k < rest.len() && rest[k] == tail[j - 1];
                        assert(entries[k + 1] == rest[k]);
                    } else {
                        assert(after[i] == tail[i - 1]);
                    }
                }
            }
        }
    }
}

pub proof fn lemma_first_exact(controllers: Seq<ControllerModel>, identity: IdentityModel, i: int)
    requires
        first_controller(controllers, identity, i),
    ensures
        first_exact(controllers, identity) == Some(i),
    decreases controllers.len(),
{
    if i > 0 {
        let rest = controllers.drop_first();
        assert(controllers[0].identity != identity);
        assert forall|j: int| 0 <= j < i - 1 implies (#[trigger] rest[j]).identity != identity by {
            assert(rest[j] == controllers[j + 1]);
        }
        lemma_first_exact(rest, identity, i - 1);
    }
}

pub proof fn lemma_none_exact(controllers: Seq<ControllerModel>, identity: IdentityModel)
    requires
        forall|j: int|
            0 <= j < controllers.len() ==> (#[trigger] controllers[j]).identity != identity,
    ensures
        first_exact(controllers, identity) is None,
    decreases controllers.len(),
{
    if controllers.len() > 0 {
        let rest = controllers.drop_first();
        assert(controllers[0].identity != identity);
        assert forall|j: int| 0 <= j < rest.len() implies (#[trigger] rest[j]).identity
            != identity by {
            assert(rest[j] == controllers[j + 1]);
        }
        lemma_none_exact(rest, identity);
    }
}

/// The first controller with exactly the identity stands at `i`.
pub open spec fn first_controller(
    controllers: Seq<ControllerModel>,
    identity: IdentityModel,
    i: int,
) -> bool {
    &&& 0 <= i < controllers.len()
    &&& controllers[i].identity == identity
    &&& forall|j: int| 0 <= j < i ==> (#[trigger] controllers[j]).identity != identity
}

/// The identity in its four texts.
pub open spec fn texts_of(identity: VerifiedModel) -> IdentityModel {
    IdentityModel {
        platform: identity.platform,
        stable_id: identity.stable_id,
        instance_id: identity.instance_id,
        fingerprint: identity.fingerprint,
    }
}

/// A verified identity is accepted exactly if its texts are well formed and the
/// protocol and the usage are those that its fingerprint records.
pub proof fn what_makes_an_identity_native(identity: VerifiedModel)
    ensures
        identity_check(texts_of(identity)) matches Err(e) ==> native_check(identity) == Err::<
            IdentityModel,
            ErrorModel,
        >(ErrorModel::VerificationFailed(e)),
        identity_check(texts_of(identity)) is Ok ==> (parsed_fields(identity.fingerprint)
            matches Some(fields) ==> (number_field(fields, "usage_page"@) matches Some(page) ==> (
        number_field(fields, "usage"@) matches Some(usage) ==> (native_check(identity) is Ok
            <==> identity.usage_page == page && identity.usage == usage && identity.protocol
            == recorded_protocol(fields))))),
        native_check(identity) matches Ok(native) ==> native == texts_of(identity),
{
}

/// The protocol of an identity is that of its driver: the two Xbox drivers speak
/// XInput, all others are HID gamepads.
pub proof fn the_driver_tells_the_protocol(fields: Seq<(Seq<char>, Seq<char>)>)
    ensures
        lookup(fields, "driver"@) == Some("xpad"@) || lookup(fields, "driver"@) == Some("xpadneo"@)
            ==> recorded_protocol(fields) == ControllerProtocol::Xusb,
        lookup(fields, "driver"@) != Some("xpad"@) && lookup(fields, "driver"@) != Some(
            "xpadneo"@,
        ) ==> recorded_protocol(fields) == ControllerProtocol::HidGamepad,
{
}

/// An identity that a switch may act on: of this platform, whole, accepted, and
/// under full control when it was enumerated.
pub open spec fn may_be_switched(identity: VerifiedModel) -> bool {
    &&& identity.platform == "linux"@
    &&& whole(identity)
    &&& native_check(identity) is Ok
    &&& identity.coverage == ControlCoverage::Full
}

// Switching off.
/// Switching off a live controller under full control: it is looked for, the
/// helper is asked to disable it, and once its function is seen unbound the
/// controller is kept and the change is reported as confirmed.
pub proof fn a_live_controller_is_switched_off(
    kept: Kept,
    identity: VerifiedModel,
    discovery: Discovered,
    i: int,
    looks: u8,
    function: FunctionModel,
)
    requires
        may_be_switched(identity),
        first_controller(discovery.controllers, texts_of(identity), i),
        discovery.controllers[i].can_full_control,
        lookup(kept, identity.stable_id) is None,
        function.driver is None,
    ensures
        ({
            let controller = discovery.controllers[i];
            let id = identity.stable_id;
            let (stage, after, next) = switch_step(
                StageModel::Waiting(Some(controller), looks),
                kept,
                SwitchEventModel::FunctionRead(Ok(function)),
                identity,
                false,
            );
            &&& switch_step(StageModel::Looking, kept, SwitchEventModel::Requested, identity, false)
                == (StageModel::Looking, kept, SwitchNextModel::Discover)
            &&& switch_step(
                StageModel::Looking,
                kept,
                SwitchEventModel::Discovered(discovery, true),
                identity,
                false,
            ) == (
                StageModel::Asked(Some(controller)),
                kept,
                SwitchNextModel::Ask("disable"@, texts_of(identity)),
            )
            &&& switch_step(
                StageModel::Asked(Some(controller)),
                kept,
                SwitchEventModel::Answered(Ok(())),
                identity,
                false,
            ) == (StageModel::Waiting(Some(controller), 0), kept, SwitchNextModel::Look)
            &&& next matches SwitchNextModel::Done(Ok(report)) && report.len() == 1 && report[0].id
                == id && !report[0].requested_enabled && report[0].confirmed_enabled == Some(false)
                && report[0].changed
            &&& forall|key: Seq<char>| #[trigger]
                lookup(after, key) == (if key == id {
                    Some(controller)
                } else {
                    lookup(kept, key)
                })
        }),
{
    lemma_first_exact(discovery.controllers, texts_of(identity), i);
    let controller = discovery.controllers[i];
    assert forall|key: Seq<char>| #[trigger]
        lookup(put(kept, identity.stable_id, controller), key) == (if key == identity.stable_id {
            Some(controller)
        } else {
            lookup(kept, key)
        }) by {
        lemma_lookup_put(kept, identity.stable_id, controller, key);
    }
}

/// A controller that is kept as switched off is so already: that is reported,
/// without a change.
pub proof fn a_kept_controller_is_off_already(
    kept: Kept,
    identity: VerifiedModel,
    controller: ControllerModel,
)
    requires
        may_be_switched(identity),
        controller.can_full_control,
        lookup(kept, identity.stable_id) is Some,
    ensures
        switch_change(kept, identity, false, Ok(controller), true) matches Ok(
            LinuxChangeModel::Done(report),
        ) && report == seq![
            OutcomeModel {
                id: identity.stable_id,
                requested_enabled: false,
                confirmed_enabled: Some(false),
                changed: false,
                error: None,
            },
        ],
{
}

/// As long as the function is still bound it is looked at again, ten times in
/// all; then the switch fails, and nothing is kept.
pub proof fn an_unconfirmed_switch_off_fails(
    kept: Kept,
    identity: VerifiedModel,
    controller: ControllerModel,
    looks: u8,
    function: Result<FunctionModel, Seq<char>>,
)
    requires
        function matches Ok(f) ==> f.driver is Some,
    ensures
        ({
            let (stage, after, next) = switch_step(
                StageModel::Waiting(Some(controller), looks),
                kept,
                SwitchEventModel::FunctionRead(function),
                identity,
                false,
            );
            &&& after == kept
            &&& looks < 9 ==> stage == StageModel::Waiting(Some(controller), (looks + 1) as u8)
                && next == SwitchNextModel::PauseAndLook
            &&& looks >= 9 ==> next == SwitchNextModel::Done(
                Err(
                    ErrorModel::VerificationFailed(
                        identity.stable_id
                            + ": helper returned but the validated function is still bound"@,
                    ),
                ),
            )
        }),
{
}

// Switching on.
/// The controller is live with this very identity, under full control and an
/// approved driver.
pub open spec fn live_again(controllers: Seq<ControllerModel>, identity: IdentityModel) -> bool {
    exists|i: int|
        0 <= i < controllers.len() && (#[trigger] controllers[i]).identity == identity
            && controllers[i].can_full_control && (controllers[i].function matches Some(f) && (
        f.driver matches Some(d) && approved_driver(d)))
}

/// Switching on a controller whose function is unbound: the function is probed,
/// the helper is asked to enable it, and once the controller is live again it is
/// no longer kept and the change is reported as confirmed.
pub proof fn an_unbound_controller_is_switched_on(
    kept: Kept,
    identity: VerifiedModel,
    discovery: Discovered,
    controller: ControllerModel,
    looks: u8,
    later: Discovered,
)
    requires
        may_be_switched(identity),
        in_order(kept),
        forall|j: int|
            0 <= j < discovery.controllers.len() ==> (#[trigger] discovery.controllers[j]).identity
                != texts_of(identity),
        controller.can_full_control,
        live_again(later.controllers, texts_of(identity)),
    ensures
        ({
            let id = identity.stable_id;
            let (stage, after, next) = switch_step(
                StageModel::Waiting(Some(controller), looks),
                kept,
                SwitchEventModel::Discovered(later, true),
                identity,
                true,
            );
            &&& switch_step(
                StageModel::Looking,
                kept,
                SwitchEventModel::Discovered(discovery, true),
                identity,
                true,
            ) == (StageModel::Probing, kept, SwitchNextModel::Probe(texts_of(identity)))
            &&& switch_step(
                StageModel::Probing,
                kept,
                SwitchEventModel::Probed(Ok(controller), true),
                identity,
                true,
            ) == (
                StageModel::Asked(Some(controller)),
                kept,
                SwitchNextModel::Ask("enable"@, texts_of(identity)),
            )
            &&& switch_step(
                StageModel::Asked(Some(controller)),
                kept,
                SwitchEventModel::Answered(Ok(())),
                identity,
                true,
            ) == (StageModel::Waiting(Some(controller), 0), kept, SwitchNextModel::Look)
            &&& next == SwitchNextModel::Done(
                Ok(
                    seq![
                        OutcomeModel {
                            id,
                            requested_enabled: true,
                            confirmed_enabled: Some(true),
                            changed: true,
                            error: None,
                        },
                    ],
                ),
            )
            &&& forall|key: Seq<char>| #[trigger]
                lookup(after, key) == (if key == id {
                    None
                } else {
                    lookup(kept, key)
                })
        }),
{
    lemma_none_exact(discovery.controllers, texts_of(identity));
    assert forall|key: Seq<char>| #[trigger]
        lookup(without(kept, identity.stable_id), key) == (if key == identity.stable_id {
            None
        } else {
            lookup(kept, key)
        }) by {
        lemma_without_lookup(kept, identity.stable_id, key);
    }
    let list = later.controllers;
    let i = choose|i: int|
        0 <= i < list.len() && (#[trigger] list[i]).identity == texts_of(identity)
            && list[i].can_full_control && (list[i].function matches Some(f) && (f.driver matches Some(
            d,
        ) && approved_driver(d)));
    assert(list[i].identity == native_of(identity));
}

/// A function that cannot be probed may still be enabled: the helper is asked
/// about the identity on record, and it alone can accept it.
pub proof fn the_helper_may_know_more(
    kept: Kept,
    identity: VerifiedModel,
    error: ErrorModel,
    helper: bool,
)
    requires
        may_be_switched(identity),
    ensures
        error is NotFound || error is IdentityMismatch ==> switch_change(
            kept,
            identity,
            true,
            Err(error),
            helper,
        ) == Ok::<LinuxChangeModel, ErrorModel>(LinuxChangeModel::Invoke(texts_of(identity))),
        !(error is NotFound || error is IdentityMismatch) ==> switch_change(
            kept,
            identity,
            true,
            Err(error),
            helper,
        ) == Err::<LinuxChangeModel, ErrorModel>(error),
        switch_change(kept, identity, false, Err(error), helper) == Err::<
            LinuxChangeModel,
            ErrorModel,
        >(error),
{
}

/// As long as the controller is not live again it is looked for, twenty times in
/// all; then the switch fails, and what is kept stays.
pub proof fn an_unconfirmed_switch_on_fails(
    kept: Kept,
    identity: VerifiedModel,
    controller: Option<ControllerModel>,
    looks: u8,
    later: Discovered,
    helper: bool,
)
    requires
        !live_again(later.controllers, texts_of(identity)),
    ensures
        ({
            let (stage, after, next) = switch_step(
                StageModel::Waiting(controller, looks),
                kept,
                SwitchEventModel::Discovered(later, helper),
                identity,
                true,
            );
            &&& after == kept
            &&& looks < 19 ==> stage == StageModel::Waiting(controller, (looks + 1) as u8) && next
                == SwitchNextModel::PauseAndLook
            &&& looks >= 19 ==> next == SwitchNextModel::Done(
                Err(
                    ErrorModel::VerificationFailed(
                        identity.stable_id
                            + ": helper returned but the controller function did not reappear"@,
                    ),
                ),
            )
        }),
{
    let list = later.controllers;
    if crate::linux::bound_shown(list, native_of(identity)) {
        let i = choose|i: int|
            0 <= i < list.len() && (#[trigger] list[i]).identity == native_of(identity)
                && list[i].can_full_control && crate::linux::bound_and_approved(list[i]);
        assert(list[i].identity == texts_of(identity));
    }
}

/// What the helper refuses is reported, and nothing that is kept changes.
pub proof fn a_refusal_of_the_helper_is_reported(
    kept: Kept,
    identity: VerifiedModel,
    controller: Option<ControllerModel>,
    enabled: bool,
    error: ErrorModel,
)
    ensures
        switch_step(
            StageModel::Asked(controller),
            kept,
            SwitchEventModel::Answered(Err(error)),
            identity,
            enabled,
        ) == (StageModel::Asked(controller), kept, SwitchNextModel::Done(Err(error))),
{
}

/// A controller whose coverage is not what it was enumerated with is not
/// switched, and neither is one that is not under full control.
pub proof fn a_changed_coverage_is_refused(
    kept: Kept,
    identity: VerifiedModel,
    enabled: bool,
    controller: ControllerModel,
    helper: bool,
)
    requires
        identity.platform == "linux"@,
        whole(identity),
        (identity.coverage == ControlCoverage::Full) != (helper && controller.can_full_control),
    ensures
        switch_change(kept, identity, enabled, Ok(controller), helper) == Err::<
            LinuxChangeModel,
            ErrorModel,
        >(ErrorModel::IdentityMismatch(identity.stable_id + ": controller coverage changed"@)),
{
}

// What is shown.
/// What is shown of a controller: its identifier, its name, its connection and
/// its identity, the state it is in, and what stands in the way of control.
pub proof fn a_controller_is_shown_as_it_is(
    controller: ControllerModel,
    helper_available: bool,
    enabled: bool,
)
    ensures
        ({
            let coverage = coverage_of(controller, helper_available);
            let device = device_of(controller, coverage, enabled, helper_available);
            let usage = recorded_usage(controller.identity.fingerprint);
            let evidence = usage.0 == 1 && (usage.1 == 4 || usage.1 == 5 || usage.1 == 8);
            &&& coverage == (if helper_available && controller.can_full_control {
                ControlCoverage::Full
            } else {
                ControlCoverage::Uncontrolled
            })
            &&& device.id == controller.identity.stable_id
            &&& device.name == controller.name
            &&& device.connection == controller.connection
            &&& device.enabled == enabled
            &&& device.coverage == coverage
            &&& device.capabilities.hid
            &&& device.capabilities.gamepad == evidence
            &&& device.capabilities.joystick == evidence
            &&& device.capabilities.usb == (controller.connection == "usb"@)
            &&& device.capabilities.bluetooth == (controller.connection == "bluetooth"@)
            &&& device.capabilities.full_control == (helper_available
                && controller.can_full_control && evidence)
            &&& device.verified matches Some(v) && texts_of(v) == controller.identity && v.coverage
                == coverage && (v.protocol == ControllerProtocol::Xusb
                <==> device.capabilities.xinput)
            &&& device.problem_code == (if !evidence {
                Some(7203i32)
            } else if !helper_available {
                Some(7201i32)
            } else if controller.problem_code is None && !controller.can_full_control {
                Some(7202i32)
            } else {
                controller.problem_code
            })
        }),
{
}

proof fn lemma_kept_after(kept: Kept, controllers: Seq<ControllerModel>, key: Seq<char>)
    requires
        in_order(kept),
    ensures
        in_order(kept_after_all(kept, controllers)),
        lookup(kept_after_all(kept, controllers), key) == lookup(kept, key) || (lookup(
            kept_after_all(kept, controllers),
            key,
        ) is None && exists|i: int|
            0 <= i < controllers.len() && (#[trigger] controllers[i]).identity.stable_id == key),
    decreases controllers.len(),
{
    if controllers.len() > 0 {
        let head = controllers.drop_last();
        let before = kept_after_all(kept, head);
        let last = controllers.last();
        lemma_kept_after(kept, head, key);
        lemma_without_lookup(before, last.identity.stable_id, key);
        assert(controllers[controllers.len() - 1] == last);
        if exists|i: int| 0 <= i < head.len() && (#[trigger] head[i]).identity.stable_id == key {
            let i = choose|i: int|
                0 <= i < head.len() && (#[trigger] head[i]).identity.stable_id == key;
            assert(controllers[i] == head[i]);
        }
    }
}

proof fn lemma_kept_rows(
    kept: Kept,
    controllers: Seq<ControllerModel>,
    helper_available: bool,
    i: int,
)
    requires
        0 <= i < kept.len(),
        forall|j: int|
            0 <= j < controllers.len() ==> (#[trigger] controllers[j]).identity.stable_id
                != kept[i].0,
    ensures
        kept_rows(kept, controllers, helper_available).contains(
            device_of(
                kept[i].1,
                coverage_of(kept[i].1, helper_available),
                false,
                helper_available,
            ),
        ),
    decreases kept.len(),
{
    let head = kept.drop_last();
    let before = kept_rows(head, controllers, helper_available);
    let after = kept_rows(kept, controllers, helper_available);
    let row = device_of(
        kept[i].1,
        coverage_of(kept[i].1, helper_available),
        false,
        helper_available,
    );
    if i < head.len() {
        assert(head[i] == kept[i]);
        lemma_kept_rows(head, controllers, helper_available, i);
        let k = choose|k: int| 0 <= k < before.len() && before[k] == row;
        assert(after[k] == row);
    } else {
        assert(kept[i] == kept.last());
        assert(after[before.len() as int] == row);
    }
}

proof fn lemma_kept_row_from(
    kept: Kept,
    controllers: Seq<ControllerModel>,
    helper_available: bool,
    k: int,
)
    requires
        0 <= k < kept_rows(kept, controllers, helper_available).len(),
    ensures
        !kept_rows(kept, controllers, helper_available)[k].enabled,
        exists|i: int|
            0 <= i < kept.len() && kept_rows(kept, controllers, helper_available)[k].id == (
            #[trigger] kept[i]).1.identity.stable_id,
    decreases kept.len(),
{
    let head = kept.drop_last();
    let before = kept_rows(head, controllers, helper_available);
    if k < before.len() {
        lemma_kept_row_from(head, controllers, helper_available, k);
        let i = choose|i: int|
            0 <= i < head.len() && before[k].id == (#[trigger] head[i]).1.identity.stable_id;
        assert(kept[i] == head[i]);
    } else {
        assert(kept[kept.len() - 1] == kept.last());
    }
}

/// A controller that was switched off and is not live is still shown, as off.
pub proof fn what_is_switched_off_is_still_shown(
    kept: Kept,
    discovery: Discovered,
    helper_available: bool,
    key: Seq<char>,
    controller: ControllerModel,
)
    requires
        in_order(kept),
        lookup(kept, key) == Some(controller),
        forall|j: int|
            0 <= j < discovery.controllers.len() ==> (
            #[trigger] discovery.controllers[j]).identity.stable_id != key,
    ensures
        exists|n: int|
            0 <= n < enumerated(kept, discovery, helper_available).devices.len() && ({
                let device = #[trigger] enumerated(kept, discovery, helper_available).devices[n];
                &&& device.id == controller.identity.stable_id
                &&& device.name == controller.name
                &&& device.connection == controller.connection
                &&& !device.enabled
            }),
{
    let list = discovery.controllers;
    let left = kept_after_all(kept, list);
    lemma_kept_after(kept, list, key);
    lemma_lookup_at(left, key);
    let i = choose|i: int| 0 <= i < left.len() && #[trigger] left[i] == (key, controller);
    lemma_kept_rows(left, list, helper_available, i);
    let tail = kept_rows(left, list, helper_available);
    let rows = live_rows(list, helper_available) + tail;
    let row = device_of(controller, coverage_of(controller, helper_available), false, helper_available);
    let t = choose|t: int| 0 <= t < tail.len() && tail[t] == row;
    let k = list.len() + t;
    assert(rows[k] == row);
    let order = crate::controller::device_order();
    sorting_keeps_items(rows, order);
    lemma_same_members(rows, sorted_by(rows, order), k);
    let all = enumerated(kept, discovery, helper_available).devices;
    let n = choose|n: int| 0 <= n < all.len() && all[n] == rows[k];
    assert(all[n].id == controller.identity.stable_id);
}

proof fn lemma_lookup_at<A>(entries: Seq<(Seq<char>, A)>, key: Seq<char>)
    requires
        lookup(entries, key) is Some,
    ensures
        exists|i: int|
            0 <= i < entries.len() && #[trigger] entries[i] == (key, lookup(entries, key)->0),
    decreases entries.len(),
{
    if entries[0].0 == key {
        assert(entries[0] == (key, lookup(entries, key)->0));
    } else {
        let rest = entries.drop_first();
        lemma_lookup_at(rest, key);
        let i = choose|i: int|
            0 <= i < rest.len() && #[trigger] rest[i] == (key, lookup(rest, key)->0);
        assert(entries[i + 1] == rest[i]);
    }
}

/// Nothing else is shown: a row is that of a live controller, on where a driver
/// is bound or no function is known, or that of one that is kept, and off.
pub proof fn only_live_and_kept_controllers_are_shown(
    kept: Kept,
    discovery: Discovered,
    helper_available: bool,
    n: int,
)
    requires
        0 <= n < enumerated(kept, discovery, helper_available).devices.len(),
    ensures
        ({
            let device = enumerated(kept, discovery, helper_available).devices[n];
            ||| exists|i: int|
                0 <= i < discovery.controllers.len() && device.id == (
                #[trigger] discovery.controllers[i]).identity.stable_id && device.name
                    == discovery.controllers[i].name && device.enabled == (
                discovery.controllers[i].function matches Some(f) ==> f.driver is Some)
            ||| !device.enabled && exists|k: int|
                0 <= k < kept_after_all(kept, discovery.controllers).len() && device.id == (
                #[trigger] kept_after_all(kept, discovery.controllers)[k]).1.identity.stable_id
        }),
{
    let list = discovery.controllers;
    let live = live_rows(list, helper_available);
    let left = kept_after_all(kept, list);
    let tail = kept_rows(left, list, helper_available);
    let rows = live + tail;
    let order = crate::controller::device_order();
    sorting_keeps_items(rows, order);
    lemma_same_members(sorted_by(rows, order), rows, n);
    let k = choose|k: int| 0 <= k < rows.len() && rows[k] == sorted_by(rows, order)[n];
    if k < live.len() {
        assert(rows[k] == live[k]);
        assert(live[k].id == list[k].identity.stable_id);
    } else {
        assert(rows[k] == tail[k - live.len()]);
        lemma_kept_row_from(left, list, helper_available, k - live.len());
    }
}

/// What came back under an approved driver is no longer kept as switched off;
/// anything else that is seen leaves what is kept as it is.
pub proof fn what_came_back_is_no_longer_kept(kept: Kept, controller: ControllerModel)
    requires
        in_order(kept),
    ensures
        ({
            let key = controller.identity.stable_id;
            let after = kept_after(kept, controller);
            let back = controller.function matches Some(f) && (f.driver matches Some(d)
                && approved_driver(d));
            &&& (lookup(kept, key) matches Some(c) && c.identity == controller.identity) && back
                ==> lookup(after, key) is None
            &&& !((lookup(kept, key) matches Some(c) && c.identity == controller.identity) && back)
                ==> after == kept
        }),
{
    lemma_without_lookup(kept, controller.identity.stable_id, controller.identity.stable_id);
}

/// Each controller that is not under full control is noted, by its name.
pub proof fn an_uncontrolled_controller_is_noted(
    errors: Seq<Seq<char>>,
    controllers: Seq<ControllerModel>,
    helper_available: bool,
    i: int,
)
    requires
        0 <= i < controllers.len(),
        !helper_available || !controllers[i].can_full_control,
    ensures
        with_notes(errors, controllers, helper_available).contains(
            if !helper_available {
                controllers[i].name
                    + ": Linux controller helper is not installed as a trusted root-owned executable; refusing an incomplete evdev-only disable"@
            } else {
                controllers[i].name + ": controller function is not safely controllable ("@
                    + "Linux control covers only the validated controller HID/USB function; separate sibling functions are intentionally left alone"@
                    + ")"@
            },
        ),
    decreases controllers.len(),
{
    let head = controllers.drop_last();
    let before = with_notes(errors, head, helper_available);
    let after = with_notes(errors, controllers, helper_available);
    if i < head.len() {
        assert(head[i] == controllers[i]);
        an_uncontrolled_controller_is_noted(errors, head, helper_available, i);
        let note = if !helper_available {
            controllers[i].name
                + ": Linux controller helper is not installed as a trusted root-owned executable; refusing an incomplete evdev-only disable"@
        } else {
            controllers[i].name + ": controller function is not safely controllable ("@
                + "Linux control covers only the validated controller HID/USB function; separate sibling functions are intentionally left alone"@
                + ")"@
        };
        let k = choose|k: int| 0 <= k < before.len() && before[k] == note;
        assert(after[k] == note);
    } else {
        assert(controllers[i] == controllers.last());
        assert(after[before.len() as int] == after.last());
    }
}

/// Where every controller is under full control, nothing is noted.
pub proof fn controlled_controllers_are_not_noted(
    errors: Seq<Seq<char>>,
    controllers: Seq<ControllerModel>,
)
    requires
        forall|i: int|
            0 <= i < controllers.len() ==> (#[trigger] controllers[i]).can_full_control,
    ensures
        with_notes(errors, controllers, true) == errors,
    decreases controllers.len(),
{
    if controllers.len() > 0 {
        let head = controllers.drop_last();
        assert forall|i: int| 0 <= i < head.len() implies (#[trigger] head[i]).can_full_control by {
            assert(head[i] == controllers[i]);
        }
        controlled_controllers_are_not_noted(errors, head);
        assert(controllers[controllers.len() - 1] == controllers.last());
    }
}

} // verus!
