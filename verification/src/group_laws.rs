//! What controllers are called and where they are said to be.
use crate::devnode::NodeModel as WindowsNode;
use crate::capability::{bitmap_codes, usage_from};
use crate::discovery::{
    discovery_of, group_key, node_of, DeviceModel, DiscoveryModel, ReadingModel,
};
use crate::discovery_laws::{points, reports, touches, types};
use crate::ordered::lookup;
use crate::fingerprint::{rendered, selection_key, FunctionBus, FunctionModel};
use crate::identity::{digest, display};
use crate::input::{connection_of, controller_of, gamepad_name, group_fields, values_of, GroupModel};
use crate::family::line;
use crate::inventory::{
    any_text, by_cable, by_radio, connection_of as windows_connection, fnv, hex_text, label,
    print_of, shown_id, text_order,
};
use crate::sorting::sorted_by;
use crate::text::{contains_text, join, lowered, starts_with, upper_hex, utf8_len};
use crate::wide_text::normal;
use vstd::prelude::*;
use vstd::utf8::encode_utf8;

verus! {

// The connection.
proof fn lemma_contains_either(a: Seq<char>, b: Seq<char>, needle: Seq<char>)
    requires
        needle.len() > 0,
        !needle.contains(' '),
    ensures
        contains_text(a + seq![' '] + b, needle) <==> contains_text(a, needle) || contains_text(
            b,
            needle,
        ),
{
    let s = a + seq![' '] + b;
    let n = needle.len() as int;
    if contains_text(s, needle) {
        let i = choose|i: int| 0 <= i <= s.len() - n && #[trigger] s.subrange(i, i + n) == needle;
        if i + n <= a.len() {
            assert(a.subrange(i, i + n) =~= s.subrange(i, i + n));
        } else if i > a.len() {
            let j = i - a.len() - 1;
            assert(b.subrange(j, j + n) =~= s.subrange(i, i + n));
        } else {
            let at = a.len() - i;
            assert(s.subrange(i, i + n)[at] == s[a.len() as int]);
            assert(needle[at] == ' ');
            assert(needle.contains(' '));
        }
    }
    if contains_text(a, needle) {
        let i = choose|i: int| 0 <= i <= a.len() - n && #[trigger] a.subrange(i, i + n) == needle;
        assert(s.subrange(i, i + n) =~= a.subrange(i, i + n));
    }
    if contains_text(b, needle) {
        let i = choose|i: int| 0 <= i <= b.len() - n && #[trigger] b.subrange(i, i + n) == needle;
        let j = i + a.len() + 1;
        assert(s.subrange(j, j + n) =~= b.subrange(i, i + n));
    }
}

/// Some part of the list holds the text.
pub open spec fn some_holds(parts: Seq<Seq<char>>, needle: Seq<char>) -> bool {
    exists|i: int| 0 <= i < parts.len() && contains_text(#[trigger] parts[i], needle)
}

proof fn lemma_contains_joined(parts: Seq<Seq<char>>, needle: Seq<char>)
    requires
        needle.len() > 0,
        !needle.contains(' '),
    ensures
        contains_text(join(parts, " "@), needle) <==> some_holds(parts, needle),
    decreases parts.len(),
{
    reveal_strlit(" ");
    assert(" "@ =~= seq![' ']);
    if parts.len() == 0 {
        assert(join(parts, " "@).len() == 0);
    } else if parts.len() == 1 {
        assert(join(parts, " "@) == parts[0]);
        if contains_text(parts[0], needle) {
            assert(some_holds(parts, needle));
        }
    } else {
        let head = parts.drop_last();
        lemma_contains_joined(head, needle);
        lemma_contains_either(join(head, " "@), parts.last(), needle);
        if some_holds(parts, needle) {
            let i = choose|i: int| 0 <= i < parts.len() && contains_text(#[trigger] parts[i], needle);
            if i < head.len() {
                assert(contains_text(head[i], needle));
            }
        }
        if some_holds(head, needle) {
            let i = choose|i: int| 0 <= i < head.len() && contains_text(#[trigger] head[i], needle);
            assert(contains_text(parts[i], needle));
        }
        if contains_text(parts.last(), needle) {
            assert(contains_text(parts[parts.len() - 1], needle));
        }
    }
}

/// Some property tells of something, whatever its case.
pub open spec fn tells(properties: Seq<(Seq<char>, Seq<char>)>, what: Seq<char>) -> bool {
    exists|i: int| 0 <= i < properties.len() && contains_text(lowered((#[trigger] properties[i]).1), what)
}

proof fn lemma_tells(properties: Seq<(Seq<char>, Seq<char>)>, what: Seq<char>)
    requires
        what.len() > 0,
        !what.contains(' '),
    ensures
        contains_text(join(values_of(properties), " "@), what) <==> tells(properties, what),
{
    let values = values_of(properties);
    lemma_contains_joined(values, what);
    if some_holds(values, what) {
        let i = choose|i: int| 0 <= i < values.len() && contains_text(#[trigger] values[i], what);
        assert(contains_text(lowered(properties[i].1), what));
    }
    if tells(properties, what) {
        let i = choose|i: int|
            0 <= i < properties.len() && contains_text(lowered((#[trigger] properties[i]).1), what);
        assert(contains_text(values[i], what));
    }
}

/// A controller is connected by Bluetooth if a property says so, or names that
/// bus, or its function is on it; otherwise by USB if a property says so, or names
/// that bus, or its function is on it; and otherwise in some other way.
pub proof fn what_tells_the_connection(
    properties: Seq<(Seq<char>, Seq<char>)>,
    function: Option<FunctionModel>,
)
    ensures
        ({
            let radio = tells(properties, "bluetooth"@) || tells(properties, "0005:"@) || (
            function matches Some(f) && f.bus == FunctionBus::Hid && starts_with(f.id, "0005:"@));
            let cable = tells(properties, "usb"@) || tells(properties, "0003:"@) || (
            function matches Some(f) && f.bus == FunctionBus::Usb);
            &&& radio ==> connection_of(properties, function) == "bluetooth"@
            &&& !radio && cable ==> connection_of(properties, function) == "usb"@
            &&& !radio && !cable ==> connection_of(properties, function) == "other"@
        }),
{
    reveal_strlit("bluetooth");
    reveal_strlit("0005:");
    reveal_strlit("usb");
    reveal_strlit("0003:");
    lemma_tells(properties, "bluetooth"@);
    lemma_tells(properties, "0005:"@);
    lemma_tells(properties, "usb"@);
    lemma_tells(properties, "0003:"@);
}

// Groups.
/// What an input device is taken for: a controller where it has a usage, and a
/// touch surface, a keyboard or a pointer by its codes.
pub proof fn what_an_input_device_is_taken_for(device: DeviceModel, usage: Option<(u16, u16)>)
    ensures
        ({
            let node = node_of(device, usage);
            &&& node.is_gamepad <==> usage is Some
            &&& node.is_touchpad <==> touches(device)
            &&& node.is_keyboard <==> types(device)
            &&& node.is_mouse <==> points(device)
            &&& node.name == (match device.name {
                Some(name) => if name.len() > 0 {
                    name
                } else {
                    "Linux input device"@
                },
                None => "Linux input device"@,
            })
        }),
{
    crate::discovery_laws::codes_tell_what_a_device_is(device);
}

/// Input devices belong together by their function; without one, by their place,
/// their unique name and their name.
pub proof fn what_belongs_together(device: DeviceModel, name: Seq<char>)
    requires
        device.name == Some(name),
        name.len() > 0,
    ensures
        device.function matches Some(f) ==> group_key(device) == (if f.bus == FunctionBus::Hid {
            "hid"@
        } else {
            "usb"@
        }) + ":"@ + f.id,
        device.function is None && device.phys is Some && device.uniq is Some ==> group_key(device)
            == "fallback:"@ + device.phys->0 + ":"@ + device.uniq->0 + ":"@ + name,
{
}

/// The usage that a device shows by itself: for a HID function that of its
/// descriptor, otherwise what its codes amount to.
pub open spec fn own_usage(device: DeviceModel) -> Option<(u16, u16)> {
    if device.function matches Some(f) && f.bus == FunctionBus::Hid {
        device.descriptor_usage
    } else {
        usage_from(bitmap_codes(device.keys), bitmap_codes(device.abs))
    }
}

/// The usage that counts for a device: the descriptor of a HID function counts as
/// it was first read.
pub open spec fn counting_usage(m: DiscoveryModel, device: DeviceModel) -> Option<(u16, u16)> {
    if device.function matches Some(f) && f.bus == FunctionBus::Hid {
        match lookup(m.usages, group_key(device)) {
            Some(first) => first,
            None => own_usage(device),
        }
    } else {
        own_usage(device)
    }
}

/// One more device founds its group, or joins it at the end: the name, the function
/// and the first usage of a group stay, and all other groups stay as they are.
pub proof fn devices_join_their_groups(
    readings: Seq<ReadingModel>,
    reading: ReadingModel,
    device: DeviceModel,
    other: Seq<char>,
)
    requires
        reading.device == Ok::<DeviceModel, Seq<char>>(device),
        reports(device),
        other != group_key(device),
    ensures
        ({
            let before = discovery_of(readings);
            let after = discovery_of(readings.push(reading));
            let key = group_key(device);
            let usage = counting_usage(before, device);
            &&& lookup(after.groups, other) == lookup(before.groups, other)
            &&& lookup(before.groups, key) is None ==> (lookup(after.groups, key) matches Some(g)
                && g.function == device.function && g.usage == usage && g.nodes == seq![
                node_of(device, usage),
            ] && g.name == g.nodes[0].name)
            &&& lookup(before.groups, key) matches Some(old_group) ==> (lookup(after.groups, key)
                matches Some(g) && g.function == old_group.function && g.name == old_group.name
                && g.nodes == old_group.nodes.push(node_of(device, usage)) && g.usage == (
            if old_group.usage is Some {
                old_group.usage
            } else {
                usage
            }))
            &&& device.function matches Some(f) ==> (f.bus == FunctionBus::Hid ==> lookup(
                after.usages,
                key,
            ) == Some(
                match lookup(before.usages, key) {
                    Some(first) => first,
                    None => device.descriptor_usage,
                },
            ))
        }),
{
    let before = discovery_of(readings);
    let key = group_key(device);
    let usage = counting_usage(before, device);
    assert(readings.push(reading).drop_last() =~= readings);
    let group = crate::discovery::group_with(before.groups, device, usage);
    crate::ordered::lemma_lookup_put(before.groups, key, group, key);
    crate::ordered::lemma_lookup_put(before.groups, key, group, other);
    crate::ordered::lemma_lookup_put(before.usages, key, device.descriptor_usage, key);
}

/// A device that cannot be read, or reports neither keys nor axes, joins no group.
pub proof fn what_joins_no_group(readings: Seq<ReadingModel>, reading: ReadingModel)
    requires
        reading.device matches Ok(device) ==> !reports(device),
    ensures
        discovery_of(readings.push(reading)).groups == discovery_of(readings).groups,
        discovery_of(readings.push(reading)).usages == discovery_of(readings).usages,
{
    assert(readings.push(reading).drop_last() =~= readings);
}

/// A controller is identified by its key and its function, and shown under the
/// name of its first gamepad.
pub proof fn how_a_group_is_identified(group: GroupModel, usage: (u16, u16), i: int)
    requires
        group.usage == Some(usage),
        0 <= i < group.nodes.len(),
        group.nodes[i].is_gamepad,
        utf8_len(rendered(group_fields(group, usage))) <= 2048,
    ensures
        controller_of(group) matches Ok(c) && {
            &&& c.identity.platform == "linux"@
            &&& c.identity.fingerprint == rendered(group_fields(group, usage))
            &&& c.name == display(gamepad_name(group.nodes, group.name))
            &&& c.function == group.function
            &&& match group.function {
                Some(f) => {
                    let bus = if f.bus == FunctionBus::Hid {
                        "hid"@
                    } else {
                        "usb"@
                    };
                    &&& c.identity.stable_id == "linux-controller-"@ + digest(
                        selection_key(bus, f.id, f.properties, usage.0, usage.1),
                    )
                    &&& c.identity.instance_id == "linux-function-"@ + digest(bus + ":"@ + f.id)
                    &&& c.connection == connection_of(f.properties, group.function)
                },
                None => {
                    &&& c.identity.stable_id == "linux-controller-"@ + digest(
                        selection_key("input"@, "unknown"@, Seq::empty(), usage.0, usage.1),
                    )
                    &&& c.identity.instance_id == "linux-function-"@ + digest("input:unknown"@)
                    &&& c.connection == connection_of(Seq::empty(), None)
                },
            }
        },
{
    assert(crate::input::any_gamepad(group.nodes));
}

/// What keeps a group from being a controller: no gamepad and no touch surface, or
/// no usage, or a fingerprint beyond its bound.
pub proof fn what_is_no_controller(group: GroupModel)
    ensures
        (forall|i: int|
            0 <= i < group.nodes.len() ==> !(#[trigger] group.nodes[i]).is_gamepad
                && !group.nodes[i].is_touchpad) ==> controller_of(group) is Err,
        group.usage is None ==> controller_of(group) is Err,
        group.usage matches Some(usage) ==> utf8_len(rendered(group_fields(group, usage))) > 2048
            ==> controller_of(group) is Err,
{
}

// Windows.
/// A node of the USB tree, by its instance, its enumerator or a hardware
/// identifier.
pub open spec fn wired(node: WindowsNode) -> bool {
    ||| starts_with(normal(node.instance), "USB\\"@)
    ||| normal(node.enumerator) == "USB"@
    ||| exists|i: int|
        0 <= i < node.hardware_ids.len() && starts_with(
            normal(#[trigger] node.hardware_ids[i]),
            "USB\\"@,
        )
}

/// A node of the Bluetooth tree.
pub open spec fn wireless(node: WindowsNode) -> bool {
    ||| starts_with(normal(node.instance), "BTH\\"@)
    ||| starts_with(normal(node.instance), "BTHENUM\\"@)
    ||| contains_text(normal(node.enumerator), "BTH"@)
    ||| exists|i: int|
        0 <= i < node.hardware_ids.len() && (contains_text(
            normal(#[trigger] node.hardware_ids[i]),
            "BLUETOOTH"@,
        ) || starts_with(normal(node.hardware_ids[i]), "BTH"@))
}

proof fn lemma_trees(node: WindowsNode)
    ensures
        by_cable(node) <==> wired(node),
        by_radio(node) <==> wireless(node),
{
    let ids = node.hardware_ids;
    let cable = |id: Seq<char>| starts_with(normal(id), "USB\\"@);
    let radio = |id: Seq<char>|
        contains_text(normal(id), "BLUETOOTH"@) || starts_with(normal(id), "BTH"@);
    if any_text(ids, cable) {
        let i = choose|i: int| 0 <= i < ids.len() && cable(#[trigger] ids[i]);
        assert(starts_with(normal(ids[i]), "USB\\"@));
    }
    if any_text(ids, radio) {
        let i = choose|i: int| 0 <= i < ids.len() && radio(#[trigger] ids[i]);
        assert(contains_text(normal(ids[i]), "BLUETOOTH"@) || starts_with(normal(ids[i]), "BTH"@));
    }
    if exists|i: int|
        0 <= i < ids.len() && starts_with(normal(#[trigger] ids[i]), "USB\\"@) {
        let i = choose|i: int|
            0 <= i < ids.len() && starts_with(normal(#[trigger] ids[i]), "USB\\"@);
        assert(cable(ids[i]));
    }
    if exists|i: int|
        0 <= i < ids.len() && (contains_text(normal(#[trigger] ids[i]), "BLUETOOTH"@)
            || starts_with(normal(ids[i]), "BTH"@)) {
        let i = choose|i: int|
            0 <= i < ids.len() && (contains_text(normal(#[trigger] ids[i]), "BLUETOOTH"@)
                || starts_with(normal(ids[i]), "BTH"@));
        assert(radio(ids[i]));
    }
}

/// The ancestors of a node up to one of them: all are listed, none comes twice,
/// and none before it belongs to a tree.
pub open spec fn leads_to(node: WindowsNode, all: Seq<WindowsNode>, k: nat) -> bool {
    &&& forall|j: nat| j <= k ==> (#[trigger] line(node, all, j)) is Some
    &&& forall|i: nat, j: nat|
        i < j <= k ==> (#[trigger] line(node, all, i))->0.devinst != (#[trigger] line(
            node,
            all,
            j,
        ))->0.devinst
    &&& forall|j: nat|
        j < k ==> !wired((#[trigger] line(node, all, j))->0) && !wireless(line(node, all, j)->0)
}

proof fn lemma_label(
    node: WindowsNode,
    all: Seq<WindowsNode>,
    k: nat,
    j: nat,
    visited: Set<u32>,
    levels: nat,
)
    requires
        leads_to(node, all, k),
        j <= k,
        levels > k - j,
        forall|i: nat|
            j <= i <= k ==> !visited.contains((#[trigger] line(node, all, i))->0.devinst),
    ensures
        ({
            let last = line(node, all, k)->0;
            let said = label(line(node, all, j), all, visited, levels);
            &&& wired(last) ==> said == "USB"@
            &&& !wired(last) && wireless(last) ==> said == "Bluetooth"@
            &&& !wired(last) && !wireless(last) && (levels == k - j + 1 || line(node, all, k + 1)
                is None) ==> said == "Other"@
        }),
    decreases k - j,
{
    let current = line(node, all, j)->0;
    assert(line(node, all, j) == Some(current));
    lemma_trees(current);
    assert(!visited.contains(current.devinst));
    let next = line(node, all, j + 1);
    assert(next == (match current.parent {
        Some(parent) => crate::family::find_node(all, parent),
        None => None,
    }));
    if j < k {
        assert forall|i: nat| j + 1 <= i <= k implies !visited.insert(current.devinst).contains(
            (#[trigger] line(node, all, i))->0.devinst,
        ) by {
            assert(line(node, all, j)->0.devinst != line(node, all, i)->0.devinst);
        }
        lemma_label(
            node,
            all,
            k,
            j + 1,
            visited.insert(current.devinst),
            (levels - 1) as nat,
        );
    } else {
        reveal_with_fuel(label, 2);
    }
}

/// The connection of a node is that of the nearest ancestor within eight levels,
/// the node included, that belongs to the USB or the Bluetooth tree; without one
/// it is neither.
pub proof fn the_nearest_tree_tells_the_connection(
    node: WindowsNode,
    all: Seq<WindowsNode>,
    k: nat,
)
    requires
        leads_to(node, all, k),
        k < 8,
    ensures
        ({
            let last = line(node, all, k)->0;
            &&& wired(last) ==> windows_connection(node, all) == "USB"@
            &&& !wired(last) && wireless(last) ==> windows_connection(node, all) == "Bluetooth"@
            &&& !wired(last) && !wireless(last) && (k == 7 || line(node, all, k + 1) is None)
                ==> windows_connection(node, all) == "Other"@
        }),
{
    assert(line(node, all, 0) == Some(node));
    lemma_label(node, all, k, 0, Set::empty(), 8);
}

/// The identifier of an instance is made of the bytes of its normal form, two
/// digits each.
pub proof fn how_an_identifier_is_made(instance: Seq<char>, bytes: Seq<u8>, byte: u8)
    ensures
        shown_id(instance) == "windows-controller-"@ + hex_text(encode_utf8(normal(instance))),
        hex_text(Seq::empty()).len() == 0,
        hex_text(bytes.push(byte)) == hex_text(bytes) + upper_hex(byte as nat, 2),
{
    assert(bytes.push(byte).drop_last() =~= bytes);
}

/// A fingerprint is made of what does not change about a node: its instance, its
/// class, its service, its enumerator, its hardware identifiers in order, and its
/// usage.
pub proof fn how_a_fingerprint_is_made(
    node: WindowsNode,
    page: u16,
    usage: u16,
    seed: u64,
    bytes: Seq<u8>,
    byte: u8,
)
    ensures
        ({
            let text = normal(node.instance) + "|"@ + normal(node.class_name) + "|"@ + normal(
                node.service,
            ) + "|"@ + normal(node.enumerator) + "|"@ + join(
                sorted_by(node.hardware_ids, text_order()),
                ","@,
            ) + "|"@ + upper_hex(page as nat, 4) + "|"@ + upper_hex(usage as nat, 4);
            print_of(node, page, usage) == "windows-fingerprint-"@ + upper_hex(
                fnv(0xCBF2_9CE4_8422_2325, encode_utf8(text)) as nat,
                16,
            ) + upper_hex(fnv(0x8422_2325_CBF2_9CE4, encode_utf8(text)) as nat, 16)
        }),
        fnv(seed, Seq::empty()) == seed,
        fnv(seed, bytes.push(byte)) == (fnv(seed, bytes) ^ (byte as u64)).wrapping_mul(
            0x0000_0100_0000_01B3,
        ),
{
    assert(bytes.push(byte).drop_last() =~= bytes);
}

} // verus!
