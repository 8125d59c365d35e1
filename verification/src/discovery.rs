//! Discovery: from the readings of all input devices to the controllers.
use crate::capability::{
    bitmap_broken, bitmap_codes, broken_message, gamepad_usage, has_mouse_capability,
    has_touchpad_capability, has_typing_keyboard_capability, is_event_device, keyboard_from,
    mouse_from, read_bitmap, str_text, touchpad_from, usage_from, EV_ABS, EV_KEY,
};
use crate::fingerprint::{
    approved_driver, opt_view, parse_fingerprint, parsed_fields, safe_driver, FunctionBus,
    FunctionIdentity, FunctionModel, Identity, IdentityModel,
};
use crate::function::{find_unbound_function, unbound_function, UnboundModel, UnboundReading};
use crate::identity::{display, sanitize_display};
use crate::input::{
    any_gamepad, any_unrelated, connection_from, connection_of, controller_of, controller_result,
    fallback_group_key, fallback_key, function_key, function_token, has_gamepad, has_unrelated,
    Controller, ControllerModel, EventNode, Group, GroupModel, NodeModel,
};
use crate::ordered::{entry_views, in_order, lemma_put_members, lookup, put, Ordered};
use crate::sorting::{
    lemma_same_members, lemma_sorted_views, orders, precedence, ranked, sort, sorted_by, sorting_keeps_items,
    sorting_ranks, views, Ranked,
};
use crate::text::{
    joined, joined3, lemma_lt_asymmetric, lemma_lt_total, lemma_lt_transitive, less, lt, opt_text,
    parse_number, parsed, starts_with, texts, without_prefix,
};
use vstd::prelude::*;

verus! {

// Event names.
/// The number of an event device, from its name.
pub open spec fn event_number(name: Seq<char>) -> Option<nat> {
    if starts_with(name, "event"@) {
        parsed(name.skip("event"@.len() as int), 10, u32::MAX as nat)
    } else {
        None
    }
}

pub fn parse_event_name(name: &str) -> (r: Option<u32>)
    ensures
        r == (match event_number(name@) {
            Some(n) => Some(n as u32),
            None => None,
        }),
        event_number(name@) matches Some(n) ==> n <= u32::MAX,
{
    match without_prefix(name, "event") {
        None => None,
        Some(rest) => match parse_number(rest.as_str(), 10, u32::MAX as u64) {
            Some(number) => Some(number as u32),
            None => None,
        },
    }
}

/// An event device to look at.
#[derive(Debug)]
pub struct EventEntry {
    pub number: u32,
    pub name: String,
}

impl View for EventEntry {
    type V = (u32, Seq<char>);

    open spec fn view(&self) -> (u32, Seq<char>) {
        (self.number, self.name@)
    }
}

impl Ranked for EventEntry {
    open spec fn precedes(&self, other: &Self) -> bool {
        self.number < other.number
    }

    fn is_before(&self, other: &Self) -> (r: bool) {
        self.number < other.number
    }
}

pub open spec fn event_entries(names: Seq<Seq<char>>) -> Seq<(u32, Seq<char>)>
    decreases names.len(),
{
    if names.len() == 0 {
        Seq::empty()
    } else {
        let head = event_entries(names.drop_last());
        match event_number(names.last()) {
            Some(n) => head.push((n as u32, names.last())),
            None => head,
        }
    }
}

pub open spec fn lower_number() -> spec_fn((u32, Seq<char>), (u32, Seq<char>)) -> bool {
    |a: (u32, Seq<char>), b: (u32, Seq<char>)| a.0 < b.0
}

/// The event devices among the names, by number.
pub fn order_events(names: &[String]) -> (r: Vec<EventEntry>)
    ensures
        views(r@) == sorted_by(event_entries(texts(names@)), lower_number()),
{
    let mut entries: Vec<EventEntry> = Vec::new();
    let ghost all = texts(names@);
    let mut i: usize = 0;
    assert(all.take(0).len() == 0);
    assert(views(entries@) == Seq::<(u32, Seq<char>)>::empty());
    while i < names.len()
        invariant
            i <= names@.len(),
            all == texts(names@),
            views(entries@) == event_entries(all.take(i as int)),
        decreases names@.len() - i,
    {
        assert(all.take(i + 1).drop_last() == all.take(i as int));
        assert(all.take(i + 1).last() == names@[i as int]@);
        let ghost held = views(entries@);
        match parse_event_name(names[i].as_str()) {
            Some(number) => {
                entries.push(EventEntry { number, name: names[i].clone() });
                assert(views(entries@) == held.push((number, names@[i as int]@)));
            },
            None => {},
        }
        i += 1;
    }
    assert(all.take(i as int) == all);
    proof {
        lemma_sorted_views(entries@, precedence::<EventEntry>(), lower_number());
    }
    sort(entries)
}

// Readings.
/// What was read of one input device.
#[derive(Debug)]
pub struct DeviceReading {
    /// Path of the device, for messages.
    pub path: String,
    pub name: Option<String>,
    pub keys: Option<String>,
    pub abs: Option<String>,
    pub rel: Option<String>,
    pub ev: Option<String>,
    pub phys: Option<String>,
    pub uniq: Option<String>,
    /// The kernel function that owns the device.
    pub function: Option<FunctionIdentity>,
    /// For a HID function, the usage of its report descriptor.
    pub descriptor_usage: Option<(u16, u16)>,
}

#[derive(Debug)]
pub struct EventReading {
    pub event_name: String,
    pub device: Result<DeviceReading, String>,
}

pub struct DeviceModel {
    pub path: Seq<char>,
    pub name: Option<Seq<char>>,
    pub keys: Option<Seq<char>>,
    pub abs: Option<Seq<char>>,
    pub rel: Option<Seq<char>>,
    pub ev: Option<Seq<char>>,
    pub phys: Option<Seq<char>>,
    pub uniq: Option<Seq<char>>,
    pub function: Option<FunctionModel>,
    pub descriptor_usage: Option<(u16, u16)>,
}

pub struct ReadingModel {
    pub event_name: Seq<char>,
    pub device: Result<DeviceModel, Seq<char>>,
}

impl View for DeviceReading {
    type V = DeviceModel;

    open spec fn view(&self) -> DeviceModel {
        DeviceModel {
            path: self.path@,
            name: opt_text(self.name),
            keys: opt_text(self.keys),
            abs: opt_text(self.abs),
            rel: opt_text(self.rel),
            ev: opt_text(self.ev),
            phys: opt_text(self.phys),
            uniq: opt_text(self.uniq),
            function: opt_view(self.function),
            descriptor_usage: self.descriptor_usage,
        }
    }
}

impl View for EventReading {
    type V = ReadingModel;

    open spec fn view(&self) -> ReadingModel {
        ReadingModel {
            event_name: self.event_name@,
            device: match self.device {
                Ok(device) => Ok(device@),
                Err(e) => Err(e@),
            },
        }
    }
}

/// The properties of a function are in key order.
pub open spec fn function_wf(function: Option<FunctionModel>) -> bool {
    function matches Some(f) ==> in_order(f.properties)
}

pub open spec fn reading_wf(reading: ReadingModel) -> bool {
    reading.device matches Ok(device) ==> function_wf(device.function)
}

// One step of discovery.
/// Groups by key, the usage found for each HID function, and the errors.
pub struct DiscoveryModel {
    pub groups: Seq<(Seq<char>, GroupModel)>,
    pub usages: Seq<(Seq<char>, Option<(u16, u16)>)>,
    pub errors: Seq<Seq<char>>,
}

pub open spec fn reported(
    errors: Seq<Seq<char>>,
    raw: Option<Seq<char>>,
    label: Seq<char>,
) -> Seq<Seq<char>> {
    if bitmap_broken(raw) {
        errors.push(broken_message(label))
    } else {
        errors
    }
}

pub open spec fn device_name(device: DeviceModel) -> Seq<char> {
    match device.name {
        Some(name) => if name.len() > 0 {
            name
        } else {
            "Linux input device"@
        },
        None => "Linux input device"@,
    }
}

pub open spec fn group_key(device: DeviceModel) -> Seq<char> {
    match device.function {
        Some(_) => function_token(device.function),
        None => fallback_key(device.phys, device.uniq, device_name(device)),
    }
}

/// The usage of a device: for a HID function that of its report descriptor, as
/// it was first found; otherwise what the capabilities amount to.
pub open spec fn device_usage(
    usages: Seq<(Seq<char>, Option<(u16, u16)>)>,
    device: DeviceModel,
) -> Option<(u16, u16)> {
    match device.function {
        Some(f) => if f.bus == FunctionBus::Hid {
            match lookup(usages, function_token(device.function)) {
                Some(usage) => usage,
                None => device.descriptor_usage,
            }
        } else {
            usage_from(bitmap_codes(device.keys), bitmap_codes(device.abs))
        },
        None => usage_from(bitmap_codes(device.keys), bitmap_codes(device.abs)),
    }
}

pub open spec fn usages_after(
    usages: Seq<(Seq<char>, Option<(u16, u16)>)>,
    device: DeviceModel,
) -> Seq<(Seq<char>, Option<(u16, u16)>)> {
    match device.function {
        Some(f) => if f.bus == FunctionBus::Hid && lookup(
            usages,
            function_token(device.function),
        ) is None {
            put(usages, function_token(device.function), device.descriptor_usage)
        } else {
            usages
        },
        None => usages,
    }
}

pub open spec fn node_of(device: DeviceModel, usage: Option<(u16, u16)>) -> NodeModel {
    let keys = bitmap_codes(device.keys);
    let abs = bitmap_codes(device.abs);
    let rel = bitmap_codes(device.rel);
    NodeModel {
        name: device_name(device),
        is_gamepad: usage is Some,
        is_touchpad: touchpad_from(keys, abs),
        is_keyboard: keyboard_from(keys),
        is_mouse: mouse_from(keys, abs, rel),
    }
}

/// The group of a device, with the device in it.
pub open spec fn group_with(
    groups: Seq<(Seq<char>, GroupModel)>,
    device: DeviceModel,
    usage: Option<(u16, u16)>,
) -> GroupModel {
    let node = node_of(device, usage);
    match lookup(groups, group_key(device)) {
        None => GroupModel {
            name: device_name(device),
            function: device.function,
            usage,
            nodes: seq![node],
        },
        Some(group) => GroupModel {
            usage: if group.usage is None {
                usage
            } else {
                group.usage
            },
            nodes: group.nodes.push(node),
            ..group
        },
    }
}

pub open spec fn device_errors(errors: Seq<Seq<char>>, device: DeviceModel) -> Seq<Seq<char>> {
    let e = reported(errors, device.keys, device.path + "/capabilities/key"@);
    let e = reported(e, device.abs, device.path + "/capabilities/abs"@);
    let e = reported(e, device.rel, device.path + "/capabilities/rel"@);
    reported(e, device.ev, device.path + "/capabilities/ev"@)
}

pub open spec fn discovery_step(m: DiscoveryModel, reading: ReadingModel) -> DiscoveryModel {
    match reading.device {
        Err(error) => DiscoveryModel {
            errors: m.errors.push(
                reading.event_name + ": cannot resolve input device: "@ + error,
            ),
            ..m
        },
        Ok(device) => {
            let errors = device_errors(m.errors, device);
            let ev = bitmap_codes(device.ev);
            if !ev.contains(EV_KEY) && !ev.contains(EV_ABS) {
                DiscoveryModel { errors, ..m }
            } else {
                let usage = device_usage(m.usages, device);
                DiscoveryModel {
                    groups: put(m.groups, group_key(device), group_with(m.groups, device, usage)),
                    usages: usages_after(m.usages, device),
                    errors,
                }
            }
        },
    }
}

pub open spec fn nothing_found() -> DiscoveryModel {
    DiscoveryModel { groups: Seq::empty(), usages: Seq::empty(), errors: Seq::empty() }
}

pub open spec fn discovery_of(readings: Seq<ReadingModel>) -> DiscoveryModel
    decreases readings.len(),
{
    if readings.len() == 0 {
        nothing_found()
    } else {
        discovery_step(discovery_of(readings.drop_last()), readings.last())
    }
}

/// The controllers of the groups, and the errors of those that failed.  A
/// group without a gamepad is none; one with a keyboard or pointer is vetoed.
pub open spec fn judged(groups: Seq<(Seq<char>, GroupModel)>) -> (
    Seq<ControllerModel>,
    Seq<Seq<char>>,
)
    decreases groups.len(),
{
    if groups.len() == 0 {
        (Seq::empty(), Seq::empty())
    } else {
        let (controllers, errors) = judged(groups.drop_last());
        let group = groups.last().1;
        if !any_gamepad(group.nodes) || any_unrelated(group.nodes) {
            (controllers, errors)
        } else {
            match controller_of(group) {
                Ok(controller) => (controllers.push(controller), errors),
                Err(e) => (controllers, errors.push(e)),
            }
        }
    }
}

pub open spec fn by_stable_id() -> spec_fn(ControllerModel, ControllerModel) -> bool {
    |a: ControllerModel, b: ControllerModel| lt(a.identity.stable_id, b.identity.stable_id)
}

impl Ranked for Controller {
    open spec fn precedes(&self, other: &Self) -> bool {
        lt(self.identity.stable_id@, other.identity.stable_id@)
    }

    fn is_before(&self, other: &Self) -> (r: bool) {
        less(self.identity.stable_id.as_str(), other.identity.stable_id.as_str())
    }
}

/// The controllers found, in the order of their identities, and the errors.
#[derive(Debug)]
pub struct Discovery {
    pub controllers: Vec<Controller>,
    pub errors: Vec<String>,
}

pub struct Discovered {
    pub controllers: Seq<ControllerModel>,
    pub errors: Seq<Seq<char>>,
}

impl View for Discovery {
    type V = Discovered;

    open spec fn view(&self) -> Discovered {
        Discovered { controllers: views(self.controllers@), errors: texts(self.errors@) }
    }
}

pub open spec fn discovered(readings: Seq<ReadingModel>) -> Discovered {
    let m = discovery_of(readings);
    let (controllers, errors) = judged(m.groups);
    Discovered {
        controllers: sorted_by(controllers, by_stable_id()),
        errors: m.errors + errors,
    }
}

pub open spec fn groups_wf(groups: Seq<(Seq<char>, GroupModel)>) -> bool {
    forall|i: int| 0 <= i < groups.len() ==> function_wf((#[trigger] groups[i]).1.function)
}

fn opt_str(s: &Option<String>) -> (r: Option<&str>)
    ensures
        str_text(r) == opt_text(*s),
{
    match s {
        Some(t) => Some(t.as_str()),
        None => None,
    }
}

fn copy_nodes(nodes: &Vec<EventNode>) -> (r: Vec<EventNode>)
    ensures
        views(r@) == views(nodes@),
{
    let mut out: Vec<EventNode> = Vec::new();
    let mut i: usize = 0;
    while i < nodes.len()
        invariant
            i <= nodes@.len(),
            views(out@) == views(nodes@).take(i as int),
        decreases nodes@.len() - i,
    {
        let ghost held = views(out@);
        let node = EventNode {
            name: nodes[i].name.clone(),
            is_gamepad: nodes[i].is_gamepad,
            is_touchpad: nodes[i].is_touchpad,
            is_keyboard: nodes[i].is_keyboard,
            is_mouse: nodes[i].is_mouse,
        };
        let ghost model = node@;
        assert(model == views(nodes@)[i as int]);
        out.push(node);
        assert(views(out@) == held.push(model));
        assert(views(nodes@).take(i + 1) == views(nodes@).take(i as int).push(model));
        i += 1;
    }
    assert(views(nodes@).take(i as int) == views(nodes@));
    out
}

fn copy_function(function: &Option<FunctionIdentity>) -> (r: Option<FunctionIdentity>)
    ensures
        opt_view(r) == opt_view(*function),
{
    match function {
        Some(f) => Some(f.copy()),
        None => None,
    }
}

/// Groups, usages and errors while the readings are walked.
pub struct Scan {
    pub groups: Ordered<Group>,
    pub usages: Ordered<Option<(u16, u16)>>,
    pub errors: Vec<String>,
}

impl View for Scan {
    type V = DiscoveryModel;

    open spec fn view(&self) -> DiscoveryModel {
        DiscoveryModel {
            groups: self.groups@,
            usages: self.usages@,
            errors: texts(self.errors@),
        }
    }
}

impl Scan {
    pub open spec fn wf(&self) -> bool {
        self.groups.wf() && self.usages.wf() && groups_wf(self.groups@)
    }

    fn usage_for(&mut self, device: &DeviceReading, capability_usage: Option<(u16, u16)>) -> (r:
        Option<(u16, u16)>)
        requires
            old(self).wf(),
            capability_usage == usage_from(bitmap_codes(device@.keys), bitmap_codes(device@.abs)),
        ensures
            final(self).wf(),
            final(self)@ == (DiscoveryModel {
                usages: usages_after(old(self)@.usages, device@),
                ..old(self)@
            }),
            r == device_usage(old(self)@.usages, device@),
    {
        match &device.function {
            Some(function) => {
                if function.bus == FunctionBus::Hid {
                    let key = function_key(function);
                    match self.usages.get(key.as_str()) {
                        Some(usage) => {
                            return *usage;
                        },
                        None => {},
                    }
                    self.usages.insert(key, device.descriptor_usage);
                    device.descriptor_usage
                } else {
                    capability_usage
                }
            },
            None => capability_usage,
        }
    }

    fn add_node(&mut self, device: &DeviceReading, node: EventNode, usage: Option<(u16, u16)>)
        requires
            old(self).wf(),
            function_wf(device@.function),
            node@ == node_of(device@, usage),
        ensures
            final(self).wf(),
            final(self)@ == (DiscoveryModel {
                groups: put(
                    old(self)@.groups,
                    group_key(device@),
                    group_with(old(self)@.groups, device@, usage),
                ),
                ..old(self)@
            }),
    {
        let key: String = match &device.function {
            Some(function) => function_key(function),
            None => fallback_group_key(
                opt_str(&device.phys),
                opt_str(&device.uniq),
                node.name.as_str(),
            ),
        };
        let ghost model = node@;
        let group: Group = match self.groups.position(key.as_str()) {
            None => {
                let mut group = Group::new(
                    node.name.clone(),
                    copy_function(&device.function),
                    usage,
                );
                group.nodes.push(node);
                assert(views(group.nodes@) == seq![model]);
                group
            },
            Some(at) => {
                let found = &self.groups.entries[at].1;
                assert(self.groups@[at as int].1 == found@);
                let mut nodes = copy_nodes(&found.nodes);
                let ghost held = views(nodes@);
                nodes.push(node);
                assert(views(nodes@) == held.push(model));
                let kept: Option<(u16, u16)> = if found.controller_usage.is_none() {
                    usage
                } else {
                    found.controller_usage
                };
                Group {
                    name: found.name.clone(),
                    function: copy_function(&found.function),
                    controller_usage: kept,
                    nodes,
                }
            },
        };
        assert(group@ == group_with(self@.groups, device@, usage));
        let ghost before = self.groups@;
        let ghost added = group@;
        self.groups.insert(key, group);
        proof {
            assert forall|i: int| 0 <= i < self.groups@.len() implies function_wf(
                (#[trigger] self.groups@[i]).1.function,
            ) by {
                lemma_put_members(before, key@, added, i);
            }
        }
    }

    /// Takes in the reading of one event device.
    pub fn add(&mut self, reading: &EventReading)
        requires
            old(self).wf(),
            reading_wf(reading@),
        ensures
            final(self).wf(),
            final(self)@ == discovery_step(old(self)@, reading@),
    {
        let device = match &reading.device {
            Err(error) => {
                let ghost held = texts(self.errors@);
                let message = joined3(
                    reading.event_name.as_str(),
                    ": cannot resolve input device: ",
                    error.as_str(),
                );
                self.errors.push(message);
                assert(texts(self.errors@) == held.push(message@));
                return;
            },
            Ok(device) => device,
        };
        let name: String = match &device.name {
            Some(name) => if name.as_str().is_empty() {
                "Linux input device".to_owned()
            } else {
                name.clone()
            },
            None => "Linux input device".to_owned(),
        };
        let path = device.path.as_str();
        let keys = read_bitmap(
            opt_str(&device.keys),
            joined(path, "/capabilities/key").as_str(),
            &mut self.errors,
        );
        let abs = read_bitmap(
            opt_str(&device.abs),
            joined(path, "/capabilities/abs").as_str(),
            &mut self.errors,
        );
        let rel = read_bitmap(
            opt_str(&device.rel),
            joined(path, "/capabilities/rel").as_str(),
            &mut self.errors,
        );
        let ev = read_bitmap(
            opt_str(&device.ev),
            joined(path, "/capabilities/ev").as_str(),
            &mut self.errors,
        );
        if !is_event_device(ev.as_slice()) {
            return;
        }
        let capability_usage = gamepad_usage(keys.as_slice(), abs.as_slice());
        let is_touchpad = has_touchpad_capability(keys.as_slice(), abs.as_slice());
        let is_keyboard = has_typing_keyboard_capability(keys.as_slice());
        let is_mouse = has_mouse_capability(keys.as_slice(), abs.as_slice(), rel.as_slice());
        let usage = self.usage_for(device, capability_usage);
        let node = EventNode {
            name,
            is_gamepad: usage.is_some(),
            is_touchpad,
            is_keyboard,
            is_mouse,
        };
        self.add_node(device, node, usage);
    }
}

/// Judges the groups in order.
fn judge(groups: Vec<(String, Group)>) -> (r: (Vec<Controller>, Vec<String>))
    requires
        groups_wf(entry_views(groups@)),
    ensures
        (views(r.0@), texts(r.1@)) == judged(entry_views(groups@)),
        forall|i: int| 0 <= i < r.0@.len() ==> (#[trigger] r.0@[i]).wf(),
    decreases groups@.len(),
{
    let ghost all = entry_views(groups@);
    let mut rest = groups;
    match rest.pop() {
        None => {
            let controllers: Vec<Controller> = Vec::new();
            let errors: Vec<String> = Vec::new();
            assert(views(controllers@) == Seq::<ControllerModel>::empty());
            assert(texts(errors@) == Seq::<Seq<char>>::empty());
            (controllers, errors)
        },
        Some((_, group)) => {
            assert(entry_views(rest@) == all.drop_last());
            assert(all.last().1 == group@);
            assert(function_wf(all[all.len() - 1].1.function));
            assert(groups_wf(all.drop_last())) by {
                assert forall|i: int| 0 <= i < all.drop_last().len() implies function_wf(
                    (#[trigger] all.drop_last()[i]).1.function,
                ) by {
                    assert(all.drop_last()[i] == all[i]);
                }
            }
            let (mut controllers, mut errors) = judge(rest);
            if !has_gamepad(group.nodes.as_slice()) || has_unrelated(group.nodes.as_slice()) {
                return (controllers, errors);
            }
            match group.into_controller() {
                Ok(controller) => {
                    let ghost held = views(controllers@);
                    controllers.push(controller);
                    assert(views(controllers@) == held.push(controller@));
                },
                Err(error) => {
                    let ghost held = texts(errors@);
                    errors.push(error);
                    assert(texts(errors@) == held.push(error@));
                },
            }
            (controllers, errors)
        },
    }
}

/// What is found where the input devices cannot be listed.
pub open spec fn unlisted(error: Seq<char>) -> Discovered {
    Discovered {
        controllers: Seq::empty(),
        errors: seq!["cannot read /sys/class/input: "@ + error],
    }
}

/// Nothing is found where the input devices cannot be listed, and the error is
/// the only one.
pub fn discover_nothing(error: &str) -> (r: Discovery)
    ensures
        r@ == unlisted(error@),
        r.controllers@.len() == 0,
{
    let mut errors: Vec<String> = Vec::new();
    errors.push(joined("cannot read /sys/class/input: ", error));
    let r = Discovery { controllers: Vec::new(), errors };
    assert(r@.controllers =~= Seq::empty());
    assert(r@.errors =~= unlisted(error@).errors);
    r
}

/// The controllers among the input devices.  No list of vendors is consulted:
/// capabilities and the owning kernel function decide.
pub fn discover(readings: &[EventReading]) -> (r: Discovery)
    requires
        forall|i: int| 0 <= i < readings@.len() ==> reading_wf((#[trigger] readings@[i])@),
    ensures
        r@ == discovered(views(readings@)),
        forall|i: int| 0 <= i < r.controllers@.len() ==> (#[trigger] r.controllers@[i]).wf(),
{
    let mut scan = Scan { groups: Ordered::new(), usages: Ordered::new(), errors: Vec::new() };
    let ghost all = views(readings@);
    assert(texts(scan.errors@) == Seq::<Seq<char>>::empty());
    assert(all.take(0).len() == 0);
    let mut i: usize = 0;
    while i < readings.len()
        invariant
            i <= readings@.len(),
            all == views(readings@),
            scan.wf(),
            scan@ == discovery_of(all.take(i as int)),
            forall|j: int| 0 <= j < readings@.len() ==> reading_wf((#[trigger] readings@[j])@),
        decreases readings@.len() - i,
    {
        assert(all.take(i + 1).drop_last() == all.take(i as int));
        assert(all.take(i + 1).last() == readings@[i as int]@);
        scan.add(&readings[i]);
        i += 1;
    }
    assert(all.take(i as int) == all);
    let (controllers, late_errors) = judge(scan.groups.entries);
    let mut errors = scan.errors;
    let ghost early = texts(errors@);
    let mut late_errors = late_errors;
    let ghost late = texts(late_errors@);
    errors.append(&mut late_errors);
    assert(texts(errors@) == early + late);
    let ghost unsorted = controllers@;
    proof {
        lemma_sorted_views(unsorted, precedence::<Controller>(), by_stable_id());
        sorting_keeps_items(unsorted, precedence::<Controller>());
    }
    let sorted = sort(controllers);
    proof {
        assert forall|k: int| 0 <= k < sorted@.len() implies (#[trigger] sorted@[k]).wf() by {
            lemma_same_members(sorted@, unsorted, k);
        }
    }
    Discovery { controllers: sorted, errors }
}

// A controller whose function is bound to no driver.
/// The controller that a recorded identity stands for while nothing is bound.
pub open spec fn unbound_controller(identity: IdentityModel, reading: UnboundModel) -> Result<
    ControllerModel,
    Seq<char>,
> {
    match unbound_function(identity, reading) {
        Err(e) => Err(e),
        Ok(function) => if function.driver is Some {
            Err("controller function is still bound"@)
        } else {
            match function.expected_driver {
                None => Err("unbound controller has no persisted driver"@),
                Some(driver) => if !approved_driver(driver) {
                    Err("unbound controller driver is not approved"@)
                } else {
                    let fields = parsed_fields(identity.fingerprint)->0;
                    Ok(
                        ControllerModel {
                            identity,
                            name: display(
                                match lookup(fields, "name"@) {
                                    Some(name) => name,
                                    None => "Linux controller"@,
                                },
                            ),
                            connection: match lookup(fields, "connection"@) {
                                Some(connection) => connection,
                                None => connection_of(function.properties, Some(function)),
                            },
                            function: Some(function),
                            mixed_unrelated: false,
                            can_full_control: true,
                            problem_code: None,
                        },
                    )
                },
            }
        },
    }
}

pub fn controller_from_unbound(identity: &Identity, reading: &UnboundReading) -> (r: Result<
    Controller,
    String,
>)
    ensures
        controller_result(r) == unbound_controller(identity@, reading@),
        r matches Ok(controller) ==> controller.wf(),
{
    let function = find_unbound_function(identity, reading)?;
    if function.driver.is_some() {
        return Err("controller function is still bound".to_owned());
    }
    match &function.expected_driver {
        None => {
            return Err("unbound controller has no persisted driver".to_owned());
        },
        Some(driver) => {
            if !safe_driver(driver.as_str()) {
                return Err("unbound controller driver is not approved".to_owned());
            }
        },
    }
    let fields = match parse_fingerprint(identity.fingerprint.as_str()) {
        Some(fields) => fields,
        None => {
            return Err("malformed controller fingerprint".to_owned());
        },
    };
    let name: &str = match fields.find("name") {
        Some(name) => name,
        None => "Linux controller",
    };
    let name = sanitize_display(name);
    let connection: String = match fields.find("connection") {
        Some(connection) => connection.to_owned(),
        None => connection_from(&function.properties, Some(&function)),
    };
    Ok(
        Controller {
            identity: identity.copy(),
            name,
            connection,
            function: Some(function),
            mixed_unrelated: false,
            can_full_control: true,
            problem_code: None,
        },
    )
}

// Laws of discovery.
proof fn lemma_judged_unmixed(groups: Seq<(Seq<char>, GroupModel)>)
    ensures
        forall|i: int|
            0 <= i < judged(groups).0.len() ==> !(#[trigger] judged(groups).0[i]).mixed_unrelated,
    decreases groups.len(),
{
    if groups.len() > 0 {
        lemma_judged_unmixed(groups.drop_last());
    }
}

/// A keyboard or pointer in a function is a veto: no controller that is found
/// shares its function with one.
pub proof fn unrelated_input_is_never_found(readings: Seq<ReadingModel>)
    ensures
        forall|i: int|
            0 <= i < discovered(readings).controllers.len() ==> !(
            #[trigger] discovered(readings).controllers[i]).mixed_unrelated,
{
    let m = discovery_of(readings);
    let unsorted = judged(m.groups).0;
    let found = discovered(readings).controllers;
    lemma_judged_unmixed(m.groups);
    sorting_keeps_items(unsorted, by_stable_id());
    assert forall|i: int| 0 <= i < found.len() implies !(#[trigger] found[i]).mixed_unrelated by {
        lemma_same_members(found, unsorted, i);
    }
}

pub proof fn lemma_stable_id_orders()
    ensures
        orders(by_stable_id()),
{
    let before = by_stable_id();
    assert forall|a: ControllerModel, b: ControllerModel| #[trigger] before(a, b) implies !before(
        b,
        a,
    ) by {
        lemma_lt_asymmetric(a.identity.stable_id, b.identity.stable_id);
    }
    assert forall|a: ControllerModel, b: ControllerModel, c: ControllerModel|
        (#[trigger] before(a, b)) && !(#[trigger] before(c, b)) implies before(a, c) by {
        lemma_lt_total(b.identity.stable_id, c.identity.stable_id);
        if lt(b.identity.stable_id, c.identity.stable_id) {
            lemma_lt_transitive(
                a.identity.stable_id,
                b.identity.stable_id,
                c.identity.stable_id,
            );
        }
    }
}

/// The controllers come in the order of their stable identifiers.
pub proof fn controllers_come_in_order(readings: Seq<ReadingModel>)
    ensures
        ranked(discovered(readings).controllers, by_stable_id()),
{
    lemma_stable_id_orders();
    sorting_ranks(judged(discovery_of(readings).groups).0, by_stable_id());
}

} // verus!
