//! What is made of the answers about device nodes and their interfaces.
use crate::devnode::{
    composite_parent, first_text, instance_of, instance_size, keyboard_or_mouse, lemma_first_zero,
    listed, node_read, running, value_texts, value_units, with_interface, AggregateModel,
    ListedNode, NodeModel, NodeReading, RawDevnode,
};
use crate::interfaces::{
    hid_step, known, path_of, path_units, xusb_step, HidCollectionModel, InterfaceEvent, NextModel,
    XusbCollectionModel,
};
use crate::platform::ErrorModel;
use crate::text::contains_text;
use crate::wide_text::{cleaned, normal, utf16_text};
use vstd::prelude::*;

verus! {

// Values.
/// A value is asked for again with room for what it needs and one unit more; one
/// that needs nothing, or that failed otherwise than for want of room, has no
/// texts.
pub proof fn how_much_room_a_value_gets(first: i32, required: u32, error: u32)
    ensures
        error == 122 && required > 0 ==> value_units(first, required, error) == Some(
            (required / 2 + 1) as nat,
        ),
        error != 122 || required == 0 ==> value_units(first, required, error) is None,
{
}

/// A text that ends with a zero comes first, without its filler; one that holds
/// nothing but filler is left out.
pub proof fn texts_end_with_zeros(text: Seq<u16>, rest: Seq<u16>)
    requires
        forall|i: int| 0 <= i < text.len() ==> text[i] != 0,
    ensures
        value_texts(text + seq![0u16] + rest) == (if cleaned(utf16_text(text)).len() > 0 {
            seq![cleaned(utf16_text(text))] + value_texts(rest)
        } else {
            value_texts(rest)
        }),
{
    let units = text + seq![0u16] + rest;
    assert(units[text.len() as int] == 0);
    assert forall|i: int| 0 <= i < text.len() implies units[i] != 0 by {
        assert(units[i] == text[i]);
    }
    lemma_first_zero(units, text.len() as int);
    assert(units.take(text.len() as int) =~= text);
    assert(units.skip(text.len() as int + 1) =~= rest);
}

/// A last text needs no zero.
pub proof fn a_last_text_needs_no_zero(text: Seq<u16>)
    requires
        forall|i: int| 0 <= i < text.len() ==> text[i] != 0,
        text.len() > 0,
    ensures
        value_texts(text) == (if cleaned(utf16_text(text)).len() > 0 {
            seq![cleaned(utf16_text(text))]
        } else {
            Seq::empty()
        }),
{
    lemma_first_zero(text, text.len() as int);
    assert(text.take(text.len() as int) =~= text);
    let one = seq![cleaned(utf16_text(text))];
    assert(one + Seq::<Seq<char>>::empty() =~= one);
}

/// An instance identifier reaches to the first zero and is known in upper case;
/// an empty one is refused.
pub proof fn how_an_instance_is_read(
    text: Seq<u16>,
    rest: Seq<u16>,
    first: i32,
    required: u32,
    error: u32,
    detail: Seq<u16>,
)
    requires
        forall|i: int| 0 <= i < text.len() ==> text[i] != 0,
    ensures
        cleaned(utf16_text(text)).len() > 0 ==> instance_of(text + seq![0u16] + rest) == Ok::<
            Seq<char>,
            Seq<char>,
        >(normal(cleaned(utf16_text(text)))),
        cleaned(utf16_text(text)).len() == 0 ==> instance_of(text + seq![0u16] + rest) is Err,
        error == 122 && required > 0 ==> instance_size(first, required, error, detail) == Ok::<
            u32,
            Seq<char>,
        >(required),
        error != 122 || required == 0 ==> instance_size(first, required, error, detail) is Err,
{
    let units = text + seq![0u16] + rest;
    assert(units[text.len() as int] == 0);
    assert forall|i: int| 0 <= i < text.len() implies units[i] != 0 by {
        assert(units[i] == text[i]);
    }
    lemma_first_zero(units, text.len() as int);
    assert(units.take(text.len() as int) =~= text);
}

// Nodes.
/// A node is taken as it was read: one text for each of its values, all its
/// hardware identifiers, its parent if it has one, and its state where that is
/// known.
pub proof fn a_node_is_taken_as_read(reading: NodeReading)
    requires
        reading.instance is Ok,
        reading.parent_code == 0 || reading.parent_code == 13,
    ensures
        node_read(reading) matches Ok(node) && node.devinst == reading.devinst && node.instance
            == reading.instance->Ok_0@ && node.class_name == first_text(reading.class_name)
            && node.service == first_text(reading.service) && node.enumerator == first_text(
            reading.enumerator,
        ) && node.friendly_name == first_text(reading.friendly_name) && node.description
            == first_text(reading.description) && node.manufacturer == first_text(
            reading.manufacturer,
        ) && node.parent == (if reading.parent_code == 0 {
            Some(reading.parent)
        } else {
            None
        }) && !node.xusb_interface && node.status == reading.status && (node.status_known
            <==> reading.status_code == 0) && node.problem == (if reading.status_code == 0
            && reading.problem != 0 {
            Some(reading.problem as i32)
        } else {
            None
        }) && match reading.hardware_ids {
            None => node.hardware_ids.len() == 0,
            Some(ids) => node.hardware_ids.len() == ids@.len() && forall|i: int|
                0 <= i < ids@.len() ==> #[trigger] node.hardware_ids[i] == normal(ids@[i]@),
        },
{
}

/// A node whose identifier or parent cannot be read is refused.
pub proof fn an_unread_node_is_refused(reading: NodeReading)
    requires
        reading.instance is Err || reading.parent_code != 0 && reading.parent_code != 13,
    ensures
        node_read(reading) is Err,
{
}

/// The first text of a value is the one that counts.
pub proof fn the_first_text_counts(list: Vec<String>)
    ensures
        list@.len() > 0 ==> first_text(Some(list)) == list@[0]@,
        list@.len() == 0 ==> first_text(Some(list)).len() == 0,
        first_text(None).len() == 0,
{
}

/// Nodes are listed one after the other until there are no more; one that goes
/// away is left out, and one that cannot be read ends the list with an error.
pub proof fn nodes_are_listed(
    nodes: Seq<NodeModel>,
    index: u32,
    node: RawDevnode,
    error: u32,
    said: Vec<u16>,
    message: String,
)
    requires
        index < u32::MAX,
    ensures
        node@.status & 0x40000 == 0 ==> listed(nodes, index, ListedNode::Node(Ok(node))) == Ok::<
            (Seq<NodeModel>, Option<u32>),
            ErrorModel,
        >((nodes.push(node@), Some((index + 1) as u32))),
        node@.status & 0x40000 != 0 ==> listed(nodes, index, ListedNode::Node(Ok(node))) == Ok::<
            (Seq<NodeModel>, Option<u32>),
            ErrorModel,
        >((nodes, Some((index + 1) as u32))),
        listed(nodes, index, ListedNode::Refused { error: 259, said }) == Ok::<
            (Seq<NodeModel>, Option<u32>),
            ErrorModel,
        >((nodes, None)),
        error != 259 ==> listed(nodes, index, ListedNode::Refused { error, said }) is Err,
        listed(nodes, index, ListedNode::Node(Err(message))) is Err,
{
}

/// A node runs once it has started, unless someone switched it off; of one whose
/// state is not known nothing is said.
pub proof fn what_runs(node: NodeModel)
    ensures
        !node.status_known ==> running(node) is None,
        node.status_known && node.status & 0x400 == 0 ==> running(node) == Some(
            node.status & 0x8 != 0,
        ),
        node.status_known && node.problem != Some(0x16i32) ==> running(node) == Some(
            node.status & 0x8 != 0,
        ),
        node.status_known && node.status & 0x400 != 0 && node.problem == Some(0x16i32) ==> running(
            node,
        ) == Some(false),
{
}

/// Keyboards and mice are known by their classes and their services, composite
/// devices by their class or by the driver that splits them.
pub proof fn what_a_node_is_by_its_class(node: NodeModel)
    ensures
        ({
            let class = normal(node.class_name);
            let service = normal(node.service);
            &&& class == "KEYBOARD"@ || class == "KEYBOARDCLASS"@ || class == "MOUSE"@ || class
                == "MOUSECLASS"@ ==> keyboard_or_mouse(node)
            &&& service == "KBDCLASS"@ || service == "KBDHID"@ || service == "MOUCLASS"@ || service
                == "MOUHID"@ ==> keyboard_or_mouse(node)
            &&& class == "HIDCLASS"@ && service == "HIDUSB"@ ==> !keyboard_or_mouse(node)
            &&& class == "USB"@ && service == "USBCCGP"@ ==> composite_parent(node)
            &&& class == "USB"@ && service != "USBCCGP"@ ==> !composite_parent(node)
            &&& class == "USB COMPOSITE"@ ==> composite_parent(node)
            &&& composite_parent(node) && class != "USB"@ ==> class == "USB COMPOSITE"@
                || contains_text(class, "COMPOSITE"@)
        }),
{
    let class = normal(node.class_name);
    let service = normal(node.service);
    reveal_strlit("KEYBOARD");
    reveal_strlit("KEYBOARDCLASS");
    reveal_strlit("MOUSE");
    reveal_strlit("MOUSECLASS");
    reveal_strlit("KBDCLASS");
    reveal_strlit("KBDHID");
    reveal_strlit("MOUCLASS");
    reveal_strlit("MOUHID");
    reveal_strlit("HIDCLASS");
    reveal_strlit("HIDUSB");
    reveal_strlit("USB");
    reveal_strlit("USB COMPOSITE");
    reveal_strlit("COMPOSITE");
    assert("HIDCLASS"@.len() == 8 && "HIDCLASS"@[0] == 'H');
    assert("KEYBOARD"@.len() == 8 && "KEYBOARD"@[0] == 'K');
    assert("KEYBOARDCLASS"@.len() == 13);
    assert("MOUSE"@.len() == 5);
    assert("MOUSECLASS"@.len() == 10);
    assert("HIDUSB"@.len() == 6 && "HIDUSB"@[0] == 'H');
    assert("KBDCLASS"@.len() == 8);
    assert("KBDHID"@.len() == 6 && "KBDHID"@[0] == 'K');
    assert("MOUCLASS"@.len() == 8);
    assert("MOUHID"@.len() == 6 && "MOUHID"@[0] == 'M');
    assert("USB"@.len() == 3);
    assert("USB COMPOSITE"@.len() == 13);
    assert("COMPOSITE"@.len() == 9);
    if class == "USB"@ && contains_text(class, "COMPOSITE"@) {
        assert(false);
    }
}

// Interfaces.
/// The path in the detail of an interface: the units from its fifth byte on, up
/// to the first zero.
pub proof fn a_path_ends_with_a_zero(
    index: u32,
    devinst: u32,
    detail: Seq<u8>,
    path: Seq<u16>,
)
    requires
        path.len() > 0,
        detail.len() >= 4 + 2 * path.len() + 2,
        forall|i: int|
            0 <= i < path.len() ==> #[trigger] path[i] != 0 && detail[4 + 2 * i] == path[i] % 256
                && detail[5 + 2 * i] == path[i] / 256,
        detail[4 + 2 * path.len() as int] == 0,
        detail[5 + 2 * path.len() as int] == 0,
    ensures
        path_of(index, devinst, detail) == Ok::<Seq<char>, ErrorModel>(utf16_text(path)),
{
    let units = path_units(detail);
    let n = path.len() as int;
    assert(units.len() >= n + 1);
    assert forall|i: int| 0 <= i < n implies units[i] == path[i] by {
        let p = path[i];
        assert(detail[4 + 2 * i] == p % 256 && detail[5 + 2 * i] == p / 256);
        assert(detail[4 + 2 * i] + 256 * detail[4 + 2 * i + 1] == p);
    }
    assert(detail[4 + 2 * n] == 0 && detail[4 + 2 * n + 1] == 0);
    assert(units[n] == 0);
    assert forall|i: int| 0 <= i < n implies units[i] != 0 by {
        assert(units[i] == path[i]);
    }
    lemma_first_zero(units, n);
    assert(units.take(n) =~= path);
}

/// The HID interfaces are gone through one after the other: each is sized, read
/// and inspected at its path, and what the inspection brought is added to the
/// evidence of its node.
pub proof fn hid_interfaces_are_gone_through(
    m: HidCollectionModel,
    ok: i32,
    error: u32,
    said: Vec<u16>,
    first: i32,
    required: u32,
    devinst: u32,
    detail: Vec<u8>,
    path: Seq<char>,
    inspection: Result<(u16, u16, bool), String>,
)
    requires
        ok != 0,
        4 <= required <= 1_048_576,
        path_of(m.index, devinst, detail@) == Ok::<Seq<char>, ErrorModel>(path),
        m.index < u32::MAX,
    ensures
        hid_step(m, InterfaceEvent::Listed { ok, error, said }) == (m, NextModel::Size),
        hid_step(m, InterfaceEvent::Sized { first: 0, required, error: 122, said }) == (
            m,
            NextModel::Read(required),
        ),
        hid_step(m, InterfaceEvent::Read { ok, error, said, devinst, detail }) == (
            m,
            NextModel::Inspect(devinst, path),
        ),
        hid_step(m, InterfaceEvent::Inspected { devinst, inspection }).1 == NextModel::List(
            (m.index + 1) as u32,
        ),
        ({
            let after = hid_step(m, InterfaceEvent::Inspected { devinst, inspection }).0;
            let before = known(m.observations, devinst);
            &&& after.index == m.index + 1
            &&& after.observations.dom() == m.observations.dom().insert(devinst)
            &&& forall|d: u32|
                d != devinst && m.observations.contains_key(d) ==> #[trigger] after.observations[d]
                    == m.observations[d]
            &&& inspection matches Ok((page, usage, mixed)) ==> after.errors == m.errors
                && after.observations[devinst] == with_interface(before, page, usage, mixed)
            &&& inspection is Err ==> after.errors.len() == m.errors.len() + 1
                && after.errors.drop_last() == m.errors && after.observations[devinst].mixed
        }),
        hid_step(m, InterfaceEvent::Listed { ok: 0, error: 259, said }) == (m, NextModel::Done),
{
    let after = hid_step(m, InterfaceEvent::Inspected { devinst, inspection }).0;
    if inspection is Err {
        assert(after.errors.drop_last() =~= m.errors);
    }
    assert(after.observations.dom() =~= m.observations.dom().insert(devinst));
}

/// Where the HID interfaces cannot be listed, sized or read, their listing fails.
pub proof fn what_ends_the_hid_listing(
    m: HidCollectionModel,
    error: u32,
    said: Vec<u16>,
    first: i32,
    required: u32,
    devinst: u32,
    detail: Vec<u8>,
)
    ensures
        error != 259 ==> hid_step(m, InterfaceEvent::Listed { ok: 0, error, said }).1 is Failed,
        first != 0 || required < 4 || required > 1_048_576 || error != 122 ==> hid_step(
            m,
            InterfaceEvent::Sized { first, required, error, said },
        ).1 is Failed,
        hid_step(m, InterfaceEvent::Read { ok: 0, error, said, devinst, detail }).1 is Failed,
{
}

/// The native interfaces are gone through one after the other: the node of each
/// that can be read is taken down, all others are noted and passed over.
pub proof fn native_interfaces_are_gone_through(
    m: XusbCollectionModel,
    ok: i32,
    error: u32,
    said: Vec<u16>,
    first: i32,
    required: u32,
    devinst: u32,
    detail: Vec<u8>,
)
    requires
        ok != 0,
        m.index < u32::MAX,
    ensures
        xusb_step(m, InterfaceEvent::Listed { ok, error, said }) == (m, NextModel::Size),
        4 <= required <= 1_048_576 ==> xusb_step(
            m,
            InterfaceEvent::Sized { first: 0, required, error: 122, said },
        ) == (m, NextModel::Read(required)),
        xusb_step(m, InterfaceEvent::Read { ok, error, said, devinst, detail }) == (
            XusbCollectionModel {
                devinsts: m.devinsts.insert(devinst),
                errors: m.errors,
                index: (m.index + 1) as u32,
            },
            NextModel::List((m.index + 1) as u32),
        ),
        xusb_step(m, InterfaceEvent::Listed { ok: 0, error: 259, said }) == (m, NextModel::Done),
        ({
            let unread = xusb_step(
                m,
                InterfaceEvent::Read { ok: 0, error, said, devinst, detail },
            );
            &&& unread.1 == NextModel::List((m.index + 1) as u32)
            &&& unread.0.devinsts == m.devinsts
            &&& unread.0.errors.len() == m.errors.len() + 1
            &&& unread.0.index == m.index + 1
        }),
        first != 0 || required < 4 || required > 1_048_576 || error != 122 ==> ({
            let refused = xusb_step(m, InterfaceEvent::Sized { first, required, error, said });
            &&& refused.1 == NextModel::List((m.index + 1) as u32)
            &&& refused.0.devinsts == m.devinsts
            &&& refused.0.errors.len() == m.errors.len() + 1
            &&& refused.0.index == m.index + 1
        }),
        error != 259 ==> ({
            let ended = xusb_step(m, InterfaceEvent::Listed { ok: 0, error, said });
            &&& ended.1 == NextModel::Done
            &&& ended.0.devinsts == m.devinsts
            &&& ended.0.errors.len() == m.errors.len() + 1
        }),
{
}

/// Evidence adds up: a joystick, gamepad or multi-axis controller allows, a mouse
/// or keyboard disallows, and what was found before stays found.
pub proof fn evidence_adds_up(before: AggregateModel, page: u16, usage: u16, mixed: bool)
    ensures
        ({
            let after = with_interface(before, page, usage, mixed);
            let controller = page == 1 && (usage == 4 || usage == 5 || usage == 8);
            &&& after.allowed <==> before.allowed || controller
            &&& after.disallowed <==> before.disallowed || page == 1 && (usage == 2 || usage == 6)
            &&& before.mixed || mixed ==> after.mixed
            &&& !controller ==> after.usages == before.usages
            &&& !before.mixed && !mixed && before.usages.len() == 0 ==> !after.mixed
            &&& controller && before.usages.len() == 0 ==> after.usages == seq![(page, usage)]
            &&& controller && before.usages == seq![(page, usage)] ==> after.usages
                == before.usages && (after.mixed <==> before.mixed || mixed)
            &&& controller && before.usages.len() == 1 && before.usages[0] != (page, usage)
                ==> after.usages.len() == 2 && after.mixed
        }),
{
    reveal_with_fuel(crate::devnode::with_usage, 3);
}

} // verus!
