//! Which controllers a discovery finds among the input devices.
use crate::capability::{bitmap_broken, bitmap_codes, keyboard_from, mouse_from, touchpad_from, usage_from};
use crate::discovery::{
    by_stable_id, device_errors, device_usage, discovered, discovery_of, discovery_step,
    event_number, group_key, group_with, judged, node_of, unbound_controller, DeviceModel,
    DiscoveryModel, ReadingModel,
};
use crate::fingerprint::{approved_driver, rendered, FunctionBus, FunctionModel, IdentityModel};
use crate::function::{unbound_function, UnboundModel};
use crate::identity::display;
use crate::input::{
    any_gamepad, any_unrelated, connection_of, controller_of, function_token, gamepad_name,
    group_fields, ControllerModel, GroupModel, NodeModel,
};
use crate::ordered::{lemma_lookup_put, lookup, put};
use crate::sorting::{lemma_same_members, sorting_keeps_items};
use crate::text::{decimal, parse_inverts_decimal, starts_with, utf8_len};
use vstd::prelude::*;

verus! {

// Capabilities.
/// A key that a keyboard has: typing, modifier, function, keypad and navigation
/// keys.
pub open spec fn types(device: DeviceModel) -> bool {
    exists|c: u16| #[trigger] bitmap_codes(device.keys).contains(c) && (1 <= c <= 0x6f || 0x7d <= c
        <= 0x7f)
}

/// A touch surface: two multitouch axes and the finger tool.
pub open spec fn touches(device: DeviceModel) -> bool {
    bitmap_codes(device.abs).contains(0x35) && bitmap_codes(device.abs).contains(0x36)
        && bitmap_codes(device.keys).contains(0x145)
}

/// A pointer: relative motion, or mouse buttons on what is no touch surface.
pub open spec fn points(device: DeviceModel) -> bool {
    ||| bitmap_codes(device.rel).contains(0)
    ||| bitmap_codes(device.rel).contains(1)
    ||| !touches(device) && exists|c: u16| #[trigger]
        bitmap_codes(device.keys).contains(c) && 0x110 <= c <= 0x114
}

/// Joystick buttons, or gamepad buttons together with an axis.
pub open spec fn plays(device: DeviceModel) -> bool {
    ||| exists|c: u16| #[trigger] bitmap_codes(device.keys).contains(c) && 0x120 <= c < 0x140
    ||| (exists|c: u16| #[trigger]
        bitmap_codes(device.keys).contains(c) && (0x130 <= c < 0x150 || 0x220 <= c <= 0x223)) && (
    exists|c: u16| #[trigger] bitmap_codes(device.abs).contains(c))
}

/// The device reports keys or absolute axes.
pub open spec fn reports(device: DeviceModel) -> bool {
    bitmap_codes(device.ev).contains(1) || bitmap_codes(device.ev).contains(3)
}

/// What a device is follows from the codes that it can send: which keys make a
/// keyboard, which motions and buttons a pointer, which axes a touch surface,
/// and which buttons a controller.
pub proof fn codes_tell_what_a_device_is(device: DeviceModel)
    ensures
        keyboard_from(bitmap_codes(device.keys)) <==> types(device),
        touchpad_from(bitmap_codes(device.keys), bitmap_codes(device.abs)) <==> touches(device),
        mouse_from(
            bitmap_codes(device.keys),
            bitmap_codes(device.abs),
            bitmap_codes(device.rel),
        ) <==> points(device),
        usage_from(bitmap_codes(device.keys), bitmap_codes(device.abs)) is Some <==> plays(device),
{
    let keys = bitmap_codes(device.keys);
    if types(device) {
        let c = choose|c: u16| #[trigger]
            keys.contains(c) && (1 <= c <= 0x6f || 0x7d <= c <= 0x7f);
        assert(keys.contains(c) && crate::capability::typing_code(c));
    }
    if keyboard_from(keys) {
        let c = choose|c: u16| #[trigger] keys.contains(c) && crate::capability::typing_code(c);
        assert(keys.contains(c));
    }
    if exists|c: u16| #[trigger] keys.contains(c) && crate::capability::mouse_button(c) {
        let c = choose|c: u16| #[trigger] keys.contains(c) && crate::capability::mouse_button(c);
        assert(keys.contains(c) && 0x110 <= c <= 0x114);
    }
    if exists|c: u16| #[trigger] keys.contains(c) && 0x110 <= c <= 0x114 {
        let c = choose|c: u16| #[trigger] keys.contains(c) && 0x110 <= c <= 0x114;
        assert(crate::capability::mouse_button(c));
    }
    if exists|c: u16| #[trigger] keys.contains(c) && 0x120 <= c < 0x140 {
        let c = choose|c: u16| #[trigger] keys.contains(c) && 0x120 <= c < 0x140;
        assert(crate::capability::joystick_code(c));
    }
    if exists|c: u16| #[trigger] keys.contains(c) && crate::capability::joystick_code(c) {
        let c = choose|c: u16| #[trigger] keys.contains(c) && crate::capability::joystick_code(c);
        assert(keys.contains(c) && 0x120 <= c < 0x140);
    }
    if exists|c: u16| #[trigger]
        keys.contains(c) && (0x130 <= c < 0x150 || 0x220 <= c <= 0x223) {
        let c = choose|c: u16| #[trigger]
            keys.contains(c) && (0x130 <= c < 0x150 || 0x220 <= c <= 0x223);
        assert(crate::capability::gamepad_code(c));
    }
    if exists|c: u16| #[trigger] keys.contains(c) && crate::capability::gamepad_code(c) {
        let c = choose|c: u16| #[trigger] keys.contains(c) && crate::capability::gamepad_code(c);
        assert(keys.contains(c) && (0x130 <= c < 0x150 || 0x220 <= c <= 0x223));
    }
}

/// A device with gamepad buttons and an axis is a gamepad, one with joystick
/// buttons alone a joystick.
pub proof fn buttons_tell_gamepad_from_joystick(keys: Set<u16>, abs: Set<u16>, button: u16, axis: u16)
    requires
        keys.contains(button),
    ensures
        (0x130 <= button < 0x150 || 0x220 <= button <= 0x223) && abs.contains(axis) ==> usage_from(
            keys,
            abs,
        ) == Some((1u16, 5u16)),
        0x120 <= button < 0x130 && (forall|c: u16| #[trigger]
            keys.contains(c) ==> !(0x130 <= c < 0x150 || 0x220 <= c <= 0x223)) ==> usage_from(
            keys,
            abs,
        ) == Some((1u16, 4u16)),
        (forall|c: u16| #[trigger]
            keys.contains(c) ==> !(0x120 <= c < 0x150 || 0x220 <= c <= 0x223)) ==> usage_from(
            keys,
            abs,
        ) is None,
{
    assert(crate::capability::joystick_code(button) <==> 0x120 <= button < 0x140);
    assert(crate::capability::gamepad_code(button) <==> (0x130 <= button < 0x150 || 0x220 <= button
        <= 0x223));
    if forall|c: u16| #[trigger]
        keys.contains(c) ==> !(0x130 <= c < 0x150 || 0x220 <= c <= 0x223) {
        assert(!(exists|c: u16| #[trigger] keys.contains(c) && crate::capability::gamepad_code(c)));
    }
    if forall|c: u16| #[trigger]
        keys.contains(c) ==> !(0x120 <= c < 0x150 || 0x220 <= c <= 0x223) {
        assert(!(exists|c: u16| #[trigger] keys.contains(c) && crate::capability::gamepad_code(c)));
        assert(!(exists|c: u16| #[trigger] keys.contains(c) && crate::capability::joystick_code(
            c,
        )));
    }
}

// Groups.
/// A node that is neither a keyboard nor a pointer.
pub open spec fn innocent(node: NodeModel) -> bool {
    !node.is_keyboard && !node.is_mouse
}

/// What a group amounts to, where it is judged a controller.
pub open spec fn stands_for(controller: ControllerModel, group: GroupModel) -> bool {
    let approved = group.function matches Some(f) && (f.driver matches Some(d) && approved_driver(
        d,
    ));
    &&& controller.function == group.function
    &&& !controller.mixed_unrelated
    &&& controller.can_full_control == approved
    &&& controller.problem_code == (if group.function is None {
        Some(7101i32)
    } else if !approved {
        Some(7103i32)
    } else {
        None
    })
    &&& controller.identity.platform == "linux"@
    &&& exists|n: int|
        0 <= n < group.nodes.len() && (#[trigger] group.nodes[n]).is_gamepad && controller.name
            == display(group.nodes[n].name) && forall|k: int|
            0 <= k < n ==> !(#[trigger] group.nodes[k]).is_gamepad
}

proof fn lemma_gamepad_name(nodes: Seq<NodeModel>, name: Seq<char>)
    requires
        exists|n: int| 0 <= n < nodes.len() && (#[trigger] nodes[n]).is_gamepad,
    ensures
        exists|n: int|
            0 <= n < nodes.len() && (#[trigger] nodes[n]).is_gamepad && gamepad_name(nodes, name)
                == nodes[n].name && forall|k: int|
                0 <= k < n ==> !(#[trigger] nodes[k]).is_gamepad,
    decreases nodes.len(),
{
    if nodes[0].is_gamepad {
        assert(gamepad_name(nodes, name) == nodes[0].name);
    } else {
        let rest = nodes.drop_first();
        let n = choose|n: int| 0 <= n < nodes.len() && (#[trigger] nodes[n]).is_gamepad;
        assert(rest[n - 1] == nodes[n]);
        lemma_gamepad_name(rest, name);
        let r = choose|r: int|
            0 <= r < rest.len() && (#[trigger] rest[r]).is_gamepad && gamepad_name(rest, name)
                == rest[r].name && forall|k: int| 0 <= k < r ==> !(#[trigger] rest[k]).is_gamepad;
        assert(nodes[r + 1] == rest[r]);
        assert forall|k: int| 0 <= k < r + 1 implies !(#[trigger] nodes[k]).is_gamepad by {
            if k > 0 {
                assert(nodes[k] == rest[k - 1]);
            }
        }
        assert(nodes[r + 1].is_gamepad && gamepad_name(nodes, name) == nodes[r + 1].name);
    }
}

proof fn lemma_judged(groups: Seq<(Seq<char>, GroupModel)>, i: int)
    requires
        0 <= i < groups.len(),
        any_gamepad(groups[i].1.nodes),
        !any_unrelated(groups[i].1.nodes),
    ensures
        controller_of(groups[i].1) matches Ok(c) ==> judged(groups).0.contains(c),
        controller_of(groups[i].1) matches Err(e) ==> judged(groups).1.contains(e),
    decreases groups.len(),
{
    let head = groups.drop_last();
    let (before, errors) = judged(head);
    let (after, more) = judged(groups);
    if i < head.len() {
        assert(head[i] == groups[i]);
        lemma_judged(head, i);
        match controller_of(groups[i].1) {
            Ok(c) => {
                let k = choose|k: int| 0 <= k < before.len() && before[k] == c;
                assert(after[k] == c);
            },
            Err(e) => {
                let k = choose|k: int| 0 <= k < errors.len() && errors[k] == e;
                assert(more[k] == e);
            },
        }
    } else {
        assert(groups[i] == groups.last());
        match controller_of(groups[i].1) {
            Ok(c) => {
                assert(after[before.len() as int] == c);
            },
            Err(e) => {
                assert(more[errors.len() as int] == e);
            },
        }
    }
}

proof fn lemma_judged_from(groups: Seq<(Seq<char>, GroupModel)>, j: int)
    requires
        0 <= j < judged(groups).0.len(),
    ensures
        exists|i: int|
            0 <= i < groups.len() && any_gamepad((#[trigger] groups[i]).1.nodes) && !any_unrelated(
                groups[i].1.nodes,
            ) && controller_of(groups[i].1) == Ok::<ControllerModel, Seq<char>>(
                judged(groups).0[j],
            ),
    decreases groups.len(),
{
    let head = groups.drop_last();
    let before = judged(head).0;
    if j < before.len() {
        lemma_judged_from(head, j);
        let i = choose|i: int|
            0 <= i < head.len() && any_gamepad((#[trigger] head[i]).1.nodes) && !any_unrelated(
                head[i].1.nodes,
            ) && controller_of(head[i].1) == Ok::<ControllerModel, Seq<char>>(before[j]);
        assert(groups[i] == head[i]);
    } else {
        assert(groups[groups.len() - 1] == groups.last());
    }
}

/// A group with a gamepad, a usage and neither a keyboard nor a pointer yields
/// a controller, whatever touch surfaces it has, unless its fingerprint is too
/// long, which is reported.
pub proof fn a_controller_group_is_found(readings: Seq<ReadingModel>, i: int, usage: (u16, u16))
    requires
        0 <= i < discovery_of(readings).groups.len(),
        discovery_of(readings).groups[i].1.usage == Some(usage),
        exists|n: int|
            0 <= n < discovery_of(readings).groups[i].1.nodes.len() && (#[trigger] discovery_of(
                readings,
            ).groups[i].1.nodes[n]).is_gamepad,
        forall|n: int|
            0 <= n < discovery_of(readings).groups[i].1.nodes.len() ==> innocent(
                #[trigger] discovery_of(readings).groups[i].1.nodes[n],
            ),
    ensures
        ({
            let group = discovery_of(readings).groups[i].1;
            let found = discovered(readings);
            if utf8_len(rendered(group_fields(group, usage))) <= 2048 {
                exists|j: int|
                    0 <= j < found.controllers.len() && stands_for(
                        #[trigger] found.controllers[j],
                        group,
                    )
            } else {
                exists|k: int|
                    0 <= k < found.errors.len() && #[trigger] found.errors[k] == gamepad_name(
                        group.nodes,
                        group.name,
                    ) + ": identity fingerprint is too long"@
            }
        }),
{
    let m = discovery_of(readings);
    let group = m.groups[i].1;
    let found = discovered(readings);
    let (controllers, errors) = judged(m.groups);
    lemma_judged(m.groups, i);
    lemma_gamepad_name(group.nodes, group.name);
    match controller_of(group) {
        Ok(c) => {
            sorting_keeps_items(controllers, by_stable_id());
            let k = choose|k: int| 0 <= k < controllers.len() && controllers[k] == c;
            lemma_same_members(controllers, found.controllers, k);
            let j = choose|j: int|
                0 <= j < found.controllers.len() && found.controllers[j] == controllers[k];
            assert(stands_for(found.controllers[j], group));
        },
        Err(e) => {
            let k = choose|k: int| 0 <= k < errors.len() && errors[k] == e;
            assert(found.errors[m.errors.len() + k] == e);
        },
    }
}

/// Each controller that is found is that of a group with a gamepad and with
/// neither a keyboard nor a pointer.
pub proof fn a_found_controller_has_a_group(readings: Seq<ReadingModel>, j: int)
    requires
        0 <= j < discovered(readings).controllers.len(),
    ensures
        exists|i: int|
            0 <= i < discovery_of(readings).groups.len() && stands_for(
                discovered(readings).controllers[j],
                (#[trigger] discovery_of(readings).groups[i]).1,
            ) && forall|n: int|
                0 <= n < discovery_of(readings).groups[i].1.nodes.len() ==> innocent(
                    #[trigger] discovery_of(readings).groups[i].1.nodes[n],
                ),
{
    let m = discovery_of(readings);
    let controllers = judged(m.groups).0;
    let found = discovered(readings).controllers;
    sorting_keeps_items(controllers, by_stable_id());
    lemma_same_members(found, controllers, j);
    let k = choose|k: int| 0 <= k < controllers.len() && controllers[k] == found[j];
    lemma_judged_from(m.groups, k);
    let i = choose|i: int|
        0 <= i < m.groups.len() && any_gamepad((#[trigger] m.groups[i]).1.nodes) && !any_unrelated(
            m.groups[i].1.nodes,
        ) && controller_of(m.groups[i].1) == Ok::<ControllerModel, Seq<char>>(controllers[k]);
    lemma_gamepad_name(m.groups[i].1.nodes, m.groups[i].1.name);
    assert(stands_for(found[j], m.groups[i].1));
}

// Readings.
/// Two input devices belong to the same kernel function.
pub open spec fn same_function(a: DeviceModel, b: DeviceModel) -> bool {
    a.function matches Some(f) && (b.function matches Some(g) && f.bus == g.bus && f.id == g.id)
}

proof fn lemma_keys(a: DeviceModel, b: DeviceModel)
    requires
        a.function is Some,
    ensures
        group_key(a) == group_key(b) <==> same_function(a, b),
{
    reveal_strlit("hid");
    reveal_strlit("usb");
    reveal_strlit(":");
    reveal_strlit("fallback:");
    let f = a.function->0;
    let x = function_token(a.function);
    assert(x[0] == 'h' || x[0] == 'u');
    match b.function {
        Some(g) => {
            let y = function_token(b.function);
            if x == y {
                assert(x[0] == y[0]);
                assert(f.bus == g.bus);
                assert(x.skip(4) =~= f.id);
                assert(y.skip(4) =~= g.id);
            }
        },
        None => {
            assert(group_key(b)[0] == 'f');
        },
    }
}

/// A device that shows a controller: by the report descriptor of its HID
/// function, or else by its buttons and axes.
pub open spec fn shows_controller(device: DeviceModel) -> bool {
    match device.function {
        Some(f) => if f.bus == FunctionBus::Hid {
            device.descriptor_usage is Some
        } else {
            plays(device)
        },
        None => plays(device),
    }
}

/// No reading of the function is that of a keyboard or of a pointer, all name
/// the function alike, and where it is a HID function its descriptor shows a
/// controller each time.
pub open spec fn undisturbed(readings: Seq<ReadingModel>, device: DeviceModel) -> bool {
    forall|q: int|
        0 <= q < readings.len() ==> ((#[trigger] readings[q]).device matches Ok(d) ==> (
        same_function(device, d) ==> d.function == device.function && !types(d) && !points(d) && (
        device.function->0.bus == FunctionBus::Hid ==> d.descriptor_usage is Some)))
}

/// A reading of the function that shows a controller.
pub open spec fn shown_by(reading: ReadingModel, device: DeviceModel) -> bool {
    reading.device matches Ok(d) && same_function(device, d) && reports(d) && shows_controller(d)
}

spec fn good_group(group: GroupModel, device: DeviceModel, shown: bool) -> bool {
    &&& group.function == device.function
    &&& forall|n: int| 0 <= n < group.nodes.len() ==> innocent(#[trigger] group.nodes[n])
    &&& shown ==> group.usage is Some && exists|n: int|
        0 <= n < group.nodes.len() && (#[trigger] group.nodes[n]).is_gamepad
}

spec fn good_so_far(m: DiscoveryModel, device: DeviceModel, shown: bool) -> bool {
    let key = group_key(device);
    &&& lookup(m.groups, key) matches Some(group) ==> good_group(group, device, shown)
    &&& shown ==> lookup(m.groups, key) is Some
    &&& lookup(m.usages, key) matches Some(usage) ==> (device.function->0.bus == FunctionBus::Hid
        ==> usage is Some)
}

proof fn lemma_step(
    m: DiscoveryModel,
    reading: ReadingModel,
    device: DeviceModel,
    shown: bool,
)
    requires
        device.function is Some,
        good_so_far(m, device, shown),
        reading.device matches Ok(d) ==> (same_function(device, d) ==> d.function
            == device.function && !types(d) && !points(d) && (device.function->0.bus
            == FunctionBus::Hid ==> d.descriptor_usage is Some)),
    ensures
        good_so_far(discovery_step(m, reading), device, shown || shown_by(reading, device)),
{
    let key = group_key(device);
    let after = discovery_step(m, reading);
    if let Ok(d) = reading.device {
        if reports(d) {
            lemma_keys(device, d);
            codes_tell_what_a_device_is(d);
            let usage = device_usage(m.usages, d);
            let grown = group_with(m.groups, d, usage);
            let node = node_of(d, usage);
            lemma_lookup_put(m.groups, group_key(d), grown, key);
            if d.function is Some {
                lemma_lookup_put(
                    m.usages,
                    function_token(d.function),
                    d.descriptor_usage,
                    key,
                );
            }
            if same_function(device, d) {
                assert(group_key(d) == key);
                assert(function_token(d.function) == key);
                assert(innocent(node));
                assert(lookup(after.groups, key) == Some(grown));
                assert(grown.nodes.last() == node);
                assert(grown.nodes[grown.nodes.len() - 1] == node);
                if let Some(group) = lookup(m.groups, key) {
                    assert forall|n: int| 0 <= n < grown.nodes.len() implies innocent(
                        #[trigger] grown.nodes[n],
                    ) by {
                        if n < group.nodes.len() {
                            assert(grown.nodes[n] == group.nodes[n]);
                        }
                    }
                    if shown {
                        let n = choose|n: int|
                            0 <= n < group.nodes.len() && (#[trigger] group.nodes[n]).is_gamepad;
                        assert(grown.nodes[n].is_gamepad);
                    }
                }
                if shown_by(reading, device) {
                    assert(usage is Some);
                    assert(grown.nodes[grown.nodes.len() - 1].is_gamepad);
                }
            }
        }
    }
}

proof fn lemma_readings(readings: Seq<ReadingModel>, device: DeviceModel)
    requires
        device.function is Some,
        undisturbed(readings, device),
    ensures
        good_so_far(
            discovery_of(readings),
            device,
            exists|r: int| 0 <= r < readings.len() && shown_by(#[trigger] readings[r], device),
        ),
    decreases readings.len(),
{
    if readings.len() > 0 {
        let head = readings.drop_last();
        assert forall|q: int| 0 <= q < head.len() implies ((#[trigger] head[q]).device matches Ok(
            d,
        ) ==> (same_function(device, d) ==> d.function == device.function && !types(d) && !points(
            d,
        ) && (device.function->0.bus == FunctionBus::Hid ==> d.descriptor_usage is Some))) by {
            assert(head[q] == readings[q]);
        }
        lemma_readings(head, device);
        let last = readings.last();
        assert(readings[readings.len() - 1] == last);
        let before = exists|r: int| 0 <= r < head.len() && shown_by(#[trigger] head[r], device);
        let now = exists|r: int|
            0 <= r < readings.len() && shown_by(#[trigger] readings[r], device);
        lemma_step(discovery_of(head), last, device, before);
        if before {
            let r = choose|r: int| 0 <= r < head.len() && shown_by(#[trigger] head[r], device);
            assert(readings[r] == head[r]);
        }
        if now {
            let r = choose|r: int|
                0 <= r < readings.len() && shown_by(#[trigger] readings[r], device);
            if r < head.len() {
                assert(head[r] == readings[r]);
            }
        }
        assert(now == (before || shown_by(last, device)));
    }
}

proof fn lemma_lookup_at<A>(entries: Seq<(Seq<char>, A)>, key: Seq<char>)
    requires
        lookup(entries, key) is Some,
    ensures
        exists|i: int|
            0 <= i < entries.len() && #[trigger] entries[i] == (key, lookup(entries, key)->0),
    decreases entries.len(),
{
    if entries[0].0 == key {
        assert(entries[0] == (key, lookup(entries, key)->0));
    } else {
        let rest = entries.drop_first();
        lemma_lookup_at(rest, key);
        let i = choose|i: int|
            0 <= i < rest.len() && #[trigger] rest[i] == (key, lookup(rest, key)->0);
        assert(entries[i + 1] == rest[i]);
    }
}

/// A kernel function of which some input device shows a controller and none is
/// a keyboard or a pointer is found, whatever touch surfaces it has; only a
/// fingerprint that is too long keeps it out, and then that is reported.
pub proof fn an_undisturbed_controller_is_found(
    readings: Seq<ReadingModel>,
    r: int,
    device: DeviceModel,
)
    requires
        0 <= r < readings.len(),
        readings[r].device == Ok::<DeviceModel, Seq<char>>(device),
        device.function is Some,
        reports(device),
        shows_controller(device),
        undisturbed(readings, device),
    ensures
        ({
            let found = discovered(readings);
            ||| exists|j: int|
                0 <= j < found.controllers.len() && (#[trigger] found.controllers[j]).function
                    == device.function && !found.controllers[j].mixed_unrelated
            ||| exists|k: int, name: Seq<char>|
                0 <= k < found.errors.len() && #[trigger] found.errors[k] == #[trigger] (name
                    + ": identity fingerprint is too long"@)
        }),
{
    let m = discovery_of(readings);
    let key = group_key(device);
    lemma_readings(readings, device);
    assert(shown_by(readings[r], device));
    lemma_lookup_at(m.groups, key);
    let i = choose|i: int|
        0 <= i < m.groups.len() && #[trigger] m.groups[i] == (key, lookup(m.groups, key)->0);
    let group = m.groups[i].1;
    let usage = group.usage->0;
    a_controller_group_is_found(readings, i, usage);
    let found = discovered(readings);
    if utf8_len(rendered(group_fields(group, usage))) <= 2048 {
        let j = choose|j: int|
            0 <= j < found.controllers.len() && stands_for(#[trigger] found.controllers[j], group);
        assert(found.controllers[j].function == device.function);
    } else {
        let name = gamepad_name(group.nodes, group.name);
        let k = choose|k: int|
            0 <= k < found.errors.len() && #[trigger] found.errors[k] == name
                + ": identity fingerprint is too long"@;
        assert(found.errors[k] == name + ": identity fingerprint is too long"@);
    }
}

spec fn vetoed_so_far(m: DiscoveryModel, key: Seq<char>) -> bool {
    lookup(m.groups, key) matches Some(group) && exists|n: int|
        0 <= n < group.nodes.len() && !innocent(#[trigger] group.nodes[n])
}

proof fn lemma_veto_step(m: DiscoveryModel, reading: ReadingModel, key: Seq<char>)
    ensures
        vetoed_so_far(m, key) ==> vetoed_so_far(discovery_step(m, reading), key),
        reading.device matches Ok(d) ==> (reports(d) && group_key(d) == key && (types(d) || points(
            d,
        )) ==> vetoed_so_far(discovery_step(m, reading), key)),
{
    if let Ok(d) = reading.device {
        if reports(d) {
            codes_tell_what_a_device_is(d);
            let usage = device_usage(m.usages, d);
            let grown = group_with(m.groups, d, usage);
            lemma_lookup_put(m.groups, group_key(d), grown, key);
            assert(grown.nodes[grown.nodes.len() - 1] == node_of(d, usage));
            if vetoed_so_far(m, key) && group_key(d) == key {
                let group = lookup(m.groups, key)->0;
                let n = choose|n: int|
                    0 <= n < group.nodes.len() && !innocent(#[trigger] group.nodes[n]);
                assert(grown.nodes[n] == group.nodes[n]);
            }
        }
    }
}

proof fn lemma_vetoed(readings: Seq<ReadingModel>, q: int, d: DeviceModel)
    requires
        0 <= q < readings.len(),
        readings[q].device == Ok::<DeviceModel, Seq<char>>(d),
        reports(d),
        types(d) || points(d),
    ensures
        vetoed_so_far(discovery_of(readings), group_key(d)),
    decreases readings.len(),
{
    let head = readings.drop_last();
    lemma_veto_step(discovery_of(head), readings.last(), group_key(d));
    if q < head.len() {
        assert(head[q] == readings[q]);
        lemma_vetoed(head, q, d);
    } else {
        assert(readings[q] == readings.last());
    }
}

/// A keyboard or a pointer among the input devices of a function vetoes it: the
/// group of the function has it, and a group with one is no controller.
pub proof fn a_keyboard_or_pointer_vetoes_its_function(
    readings: Seq<ReadingModel>,
    q: int,
    d: DeviceModel,
)
    requires
        0 <= q < readings.len(),
        readings[q].device == Ok::<DeviceModel, Seq<char>>(d),
        reports(d),
        types(d) || points(d),
    ensures
        lookup(discovery_of(readings).groups, group_key(d)) matches Some(group) && any_unrelated(
            group.nodes,
        ) && (controller_of(group) matches Ok(c) ==> c.mixed_unrelated && !c.can_full_control
            && c.problem_code == Some(7102i32)),
{
    lemma_vetoed(readings, q, d);
    let group = lookup(discovery_of(readings).groups, group_key(d))->0;
    let n = choose|n: int| 0 <= n < group.nodes.len() && !innocent(#[trigger] group.nodes[n]);
    assert(group.nodes[n].is_keyboard || group.nodes[n].is_mouse);
}

// Errors.
proof fn lemma_errors_grow(m: DiscoveryModel, reading: ReadingModel)
    ensures
        m.errors.len() <= discovery_step(m, reading).errors.len(),
        forall|k: int|
            0 <= k < m.errors.len() ==> #[trigger] discovery_step(m, reading).errors[k]
                == m.errors[k],
{
}

proof fn lemma_error_kept(readings: Seq<ReadingModel>, q: int, error: Seq<char>)
    requires
        0 <= q < readings.len(),
        exists|k: int|
            discovery_of(readings.take(q)).errors.len() <= k < discovery_of(
                readings.take(q + 1),
            ).errors.len() && #[trigger] discovery_of(readings.take(q + 1)).errors[k] == error,
    ensures
        discovery_of(readings).errors.contains(error),
    decreases readings.len(),
{
    let head = readings.drop_last();
    if q == head.len() {
        assert(readings.take(q + 1) =~= readings);
    } else {
        assert(head.take(q) =~= readings.take(q));
        assert(head.take(q + 1) =~= readings.take(q + 1));
        lemma_error_kept(head, q, error);
        lemma_errors_grow(discovery_of(head), readings.last());
        let before = discovery_of(head).errors;
        let k = choose|k: int| 0 <= k < before.len() && before[k] == error;
        assert(discovery_of(readings).errors[k] == error);
    }
}

/// An input device that could not be read is reported by its name, and so is a
/// capability bitmap that cannot be understood.
pub proof fn what_cannot_be_read_is_reported(readings: Seq<ReadingModel>, q: int)
    requires
        0 <= q < readings.len(),
    ensures
        readings[q].device matches Err(e) ==> discovered(readings).errors.contains(
            readings[q].event_name + ": cannot resolve input device: "@ + e,
        ),
        readings[q].device matches Ok(d) ==> {
            &&& bitmap_broken(d.keys) ==> discovered(readings).errors.contains(
                d.path + "/capabilities/key"@ + ": malformed capability bitmap"@,
            )
            &&& bitmap_broken(d.abs) ==> discovered(readings).errors.contains(
                d.path + "/capabilities/abs"@ + ": malformed capability bitmap"@,
            )
            &&& bitmap_broken(d.rel) ==> discovered(readings).errors.contains(
                d.path + "/capabilities/rel"@ + ": malformed capability bitmap"@,
            )
            &&& bitmap_broken(d.ev) ==> discovered(readings).errors.contains(
                d.path + "/capabilities/ev"@ + ": malformed capability bitmap"@,
            )
        },
{
    let m = discovery_of(readings.take(q));
    let after = discovery_of(readings.take(q + 1));
    assert(readings.take(q + 1).drop_last() =~= readings.take(q));
    assert(readings.take(q + 1).last() == readings[q]);
    let all = discovery_of(readings).errors;
    let found = discovered(readings).errors;
    assert forall|e: Seq<char>| #[trigger] all.contains(e) implies found.contains(e) by {
        let k = choose|k: int| 0 <= k < all.len() && all[k] == e;
        assert(found[k] == e);
    }
    match readings[q].device {
        Err(e) => {
            let message = readings[q].event_name + ": cannot resolve input device: "@ + e;
            assert(after.errors[m.errors.len() as int] == message);
            lemma_error_kept(readings, q, message);
        },
        Ok(d) => {
            lemma_bitmap_errors(m.errors, d);
            assert(after.errors == device_errors(m.errors, d));
            if bitmap_broken(d.keys) {
                lemma_error_kept(
                    readings,
                    q,
                    d.path + "/capabilities/key"@ + ": malformed capability bitmap"@,
                );
            }
            if bitmap_broken(d.abs) {
                lemma_error_kept(
                    readings,
                    q,
                    d.path + "/capabilities/abs"@ + ": malformed capability bitmap"@,
                );
            }
            if bitmap_broken(d.rel) {
                lemma_error_kept(
                    readings,
                    q,
                    d.path + "/capabilities/rel"@ + ": malformed capability bitmap"@,
                );
            }
            if bitmap_broken(d.ev) {
                lemma_error_kept(
                    readings,
                    q,
                    d.path + "/capabilities/ev"@ + ": malformed capability bitmap"@,
                );
            }
        },
    }
}

proof fn lemma_bitmap_errors(errors: Seq<Seq<char>>, d: DeviceModel)
    ensures
        bitmap_broken(d.keys) ==> exists|k: int|
            errors.len() <= k < device_errors(errors, d).len() && #[trigger] device_errors(
                errors,
                d,
            )[k] == d.path + "/capabilities/key"@ + ": malformed capability bitmap"@,
        bitmap_broken(d.abs) ==> exists|k: int|
            errors.len() <= k < device_errors(errors, d).len() && #[trigger] device_errors(
                errors,
                d,
            )[k] == d.path + "/capabilities/abs"@ + ": malformed capability bitmap"@,
        bitmap_broken(d.rel) ==> exists|k: int|
            errors.len() <= k < device_errors(errors, d).len() && #[trigger] device_errors(
                errors,
                d,
            )[k] == d.path + "/capabilities/rel"@ + ": malformed capability bitmap"@,
        bitmap_broken(d.ev) ==> exists|k: int|
            errors.len() <= k < device_errors(errors, d).len() && #[trigger] device_errors(
                errors,
                d,
            )[k] == d.path + "/capabilities/ev"@ + ": malformed capability bitmap"@,
{
    let e1 = crate::discovery::reported(errors, d.keys, d.path + "/capabilities/key"@);
    let e2 = crate::discovery::reported(e1, d.abs, d.path + "/capabilities/abs"@);
    let e3 = crate::discovery::reported(e2, d.rel, d.path + "/capabilities/rel"@);
    let e4 = crate::discovery::reported(e3, d.ev, d.path + "/capabilities/ev"@);
    assert(e4 == device_errors(errors, d));
    if bitmap_broken(d.keys) {
        assert(e4[errors.len() as int] == d.path + "/capabilities/key"@
            + ": malformed capability bitmap"@);
    }
    if bitmap_broken(d.abs) {
        assert(e4[e1.len() as int] == d.path + "/capabilities/abs"@
            + ": malformed capability bitmap"@);
    }
    if bitmap_broken(d.rel) {
        assert(e4[e2.len() as int] == d.path + "/capabilities/rel"@
            + ": malformed capability bitmap"@);
    }
    if bitmap_broken(d.ev) {
        assert(e4[e3.len() as int] == d.path + "/capabilities/ev"@
            + ": malformed capability bitmap"@);
    }
}

// Names, connections and what is bound to no driver.
/// An event device is known by its number.
pub proof fn events_are_numbered(n: u32)
    ensures
        event_number("event"@ + decimal(n as nat)) == Some(n as nat),
{
    let name = "event"@ + decimal(n as nat);
    parse_inverts_decimal(n as nat, u32::MAX as nat);
    assert(name.take("event"@.len() as int) =~= "event"@);
    assert(name.skip("event"@.len() as int) =~= decimal(n as nat));
}

/// The connection of a function without telling properties is that of its bus:
/// a HID function of the Bluetooth bus is Bluetooth, a USB function is USB.
pub proof fn a_function_tells_its_connection(function: FunctionModel)
    requires
        function.properties.len() == 0,
    ensures
        function.bus == FunctionBus::Usb ==> connection_of(function.properties, Some(function))
            == "usb"@,
        function.bus == FunctionBus::Hid && starts_with(function.id, "0005:"@) ==> connection_of(
            function.properties,
            Some(function),
        ) == "bluetooth"@,
        function.bus == FunctionBus::Hid && !starts_with(function.id, "0005:"@) ==> connection_of(
            function.properties,
            Some(function),
        ) == "other"@,
{
    reveal_strlit("bluetooth");
    reveal_strlit("0005:");
    reveal_strlit("usb");
    reveal_strlit("0003:");
    let values = crate::input::values_of(function.properties);
    assert(values.len() == 0);
    assert(crate::text::join(values, " "@).len() == 0);
}

/// A recorded function that is bound to no driver and expects an approved one is
/// the controller of the identity on record, under full control.
pub proof fn an_unbound_function_is_its_controller(
    identity: IdentityModel,
    reading: UnboundModel,
    function: FunctionModel,
    driver: Seq<char>,
)
    requires
        unbound_function(identity, reading) == Ok::<FunctionModel, Seq<char>>(function),
        function.driver is None,
        function.expected_driver == Some(driver),
        approved_driver(driver),
    ensures
        unbound_controller(identity, reading) matches Ok(c) && {
            &&& c.identity == identity
            &&& c.function == Some(function)
            &&& c.can_full_control
            &&& !c.mixed_unrelated
            &&& c.problem_code is None
        },
{
}

/// The drivers of controller functions that may be taken off and put back.
pub proof fn approved_drivers_are_these(driver: Seq<char>)
    ensures
        approved_driver(driver) <==> seq![
            "hid-generic"@,
            "hid-playstation"@,
            "sony"@,
            "xpad"@,
            "xpadneo"@,
            "hid-nintendo"@,
            "hid-steam"@,
            "usbhid"@,
        ].contains(driver),
{
    let list = seq![
        "hid-generic"@,
        "hid-playstation"@,
        "sony"@,
        "xpad"@,
        "xpadneo"@,
        "hid-nintendo"@,
        "hid-steam"@,
        "usbhid"@,
    ];
    assert(list[0] == "hid-generic"@);
    assert(list[1] == "hid-playstation"@);
    assert(list[2] == "sony"@);
    assert(list[3] == "xpad"@);
    assert(list[4] == "xpadneo"@);
    assert(list[5] == "hid-nintendo"@);
    assert(list[6] == "hid-steam"@);
    assert(list[7] == "usbhid"@);
}

} // verus!
