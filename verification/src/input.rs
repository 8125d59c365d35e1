//! Controller discovery: input devices are grouped by the kernel function that
//! owns them, and each group is judged as a whole.
use crate::capability::str_text;
use crate::fingerprint::{
    approved_driver, bus_text, fingerprint_fields, fingerprint_for, instance_token, opt_view,
    rendered, safe_driver, selection_key, stable_selection_key, stable_token, FunctionBus,
    FunctionIdentity, FunctionModel, Identity, IdentityModel,
};
use crate::identity::{digest128, display, sanitize_display, MAX_FINGERPRINT};
use crate::ordered::{text_of, Ordered, Properties};
use crate::sorting::views;
use crate::text::{
    ascii_lower, byte_len, contains_text, has_prefix, has_text, join, join_list, joined, joined3,
    lowered, starts_with, texts, utf8_len,
};
use vstd::prelude::*;

verus! {

pub const PROBLEM_UNCONTROLLED: i32 = 7101;

pub const PROBLEM_MIXED_FUNCTION: i32 = 7102;

pub const PROBLEM_UNSUPPORTED_DRIVER: i32 = 7103;

/// One input device of a function.
#[derive(Clone, Debug)]
pub struct EventNode {
    pub name: String,
    pub is_gamepad: bool,
    pub is_touchpad: bool,
    pub is_keyboard: bool,
    pub is_mouse: bool,
}

pub struct NodeModel {
    pub name: Seq<char>,
    pub is_gamepad: bool,
    pub is_touchpad: bool,
    pub is_keyboard: bool,
    pub is_mouse: bool,
}

impl View for EventNode {
    type V = NodeModel;

    open spec fn view(&self) -> NodeModel {
        NodeModel {
            name: self.name@,
            is_gamepad: self.is_gamepad,
            is_touchpad: self.is_touchpad,
            is_keyboard: self.is_keyboard,
            is_mouse: self.is_mouse,
        }
    }
}

#[derive(Clone, Debug)]
pub struct Controller {
    pub identity: Identity,
    pub name: String,
    pub connection: String,
    pub function: Option<FunctionIdentity>,
    pub mixed_unrelated: bool,
    pub can_full_control: bool,
    pub problem_code: Option<i32>,
}

pub struct ControllerModel {
    pub identity: IdentityModel,
    pub name: Seq<char>,
    pub connection: Seq<char>,
    pub function: Option<FunctionModel>,
    pub mixed_unrelated: bool,
    pub can_full_control: bool,
    pub problem_code: Option<i32>,
}

impl View for Controller {
    type V = ControllerModel;

    open spec fn view(&self) -> ControllerModel {
        ControllerModel {
            identity: self.identity@,
            name: self.name@,
            connection: self.connection@,
            function: opt_view(self.function),
            mixed_unrelated: self.mixed_unrelated,
            can_full_control: self.can_full_control,
            problem_code: self.problem_code,
        }
    }
}

impl Controller {
    pub open spec fn wf(&self) -> bool {
        self.function matches Some(function) ==> function.wf()
    }

    pub fn copy(&self) -> (r: Self)
        ensures
            r@ == self@,
    {
        Controller {
            identity: self.identity.copy(),
            name: self.name.clone(),
            connection: self.connection.clone(),
            function: match &self.function {
                Some(function) => Some(function.copy()),
                None => None,
            },
            mixed_unrelated: self.mixed_unrelated,
            can_full_control: self.can_full_control,
            problem_code: self.problem_code,
        }
    }
}

pub fn identity_matches(controller: &Controller, identity: &Identity) -> (r: bool)
    ensures
        r == (controller@.identity == identity@),
{
    controller.identity.equals(identity)
}

// The connection of a function.
pub open spec fn values_of(properties: Seq<(Seq<char>, Seq<char>)>) -> Seq<Seq<char>> {
    properties.map_values(|entry: (Seq<char>, Seq<char>)| lowered(entry.1))
}

/// Bluetooth, USB or other, from all property texts and the function itself.
pub open spec fn connection_of(
    properties: Seq<(Seq<char>, Seq<char>)>,
    function: Option<FunctionModel>,
) -> Seq<char> {
    let text = join(values_of(properties), " "@);
    let bluetooth_function = function matches Some(f) && f.bus == FunctionBus::Hid && starts_with(
        f.id,
        "0005:"@,
    );
    let usb_function = function matches Some(f) && f.bus == FunctionBus::Usb;
    if contains_text(text, "bluetooth"@) || contains_text(text, "0005:"@) || bluetooth_function {
        "bluetooth"@
    } else if usb_function || contains_text(text, "usb"@) || contains_text(text, "0003:"@) {
        "usb"@
    } else {
        "other"@
    }
}

pub fn connection_from(properties: &Properties, function: Option<&FunctionIdentity>) -> (r: String)
    ensures
        r@ == connection_of(
            properties@,
            match function {
                Some(f) => Some(f@),
                None => None,
            },
        ),
{
    let mut values: Vec<String> = Vec::new();
    let mut i: usize = 0;
    let ghost wanted = values_of(properties@);
    while i < properties.entries.len()
        invariant
            i <= properties.entries@.len(),
            wanted == values_of(properties@),
            texts(values@) == wanted.take(i as int),
        decreases properties.entries@.len() - i,
    {
        let ghost held = texts(values@);
        values.push(ascii_lower(properties.entries[i].1.as_str()));
        assert(values@.last()@ == wanted[i as int]);
        assert(texts(values@) == held.push(wanted[i as int]));
        assert(wanted.take(i + 1) == wanted.take(i as int).push(wanted[i as int]));
        i += 1;
    }
    assert(wanted.take(i as int) == wanted);
    let lower = join_list(values.as_slice(), " ");
    let bluetooth_function = match function {
        Some(f) => f.bus == FunctionBus::Hid && has_prefix(f.id.as_str(), "0005:"),
        None => false,
    };
    let usb_function = match function {
        Some(f) => f.bus == FunctionBus::Usb,
        None => false,
    };
    if has_text(lower.as_str(), "bluetooth") || has_text(lower.as_str(), "0005:")
        || bluetooth_function {
        "bluetooth".to_owned()
    } else if usb_function || has_text(lower.as_str(), "usb") || has_text(lower.as_str(), "0003:") {
        "usb".to_owned()
    } else {
        "other".to_owned()
    }
}

// Groups.
/// The input devices of one function.
#[derive(Clone, Debug)]
pub struct Group {
    pub name: String,
    pub function: Option<FunctionIdentity>,
    pub controller_usage: Option<(u16, u16)>,
    pub nodes: Vec<EventNode>,
}

pub struct GroupModel {
    pub name: Seq<char>,
    pub function: Option<FunctionModel>,
    pub usage: Option<(u16, u16)>,
    pub nodes: Seq<NodeModel>,
}

impl View for Group {
    type V = GroupModel;

    open spec fn view(&self) -> GroupModel {
        GroupModel {
            name: self.name@,
            function: opt_view(self.function),
            usage: self.controller_usage,
            nodes: views(self.nodes@),
        }
    }
}

pub open spec fn any_gamepad(nodes: Seq<NodeModel>) -> bool {
    exists|i: int| 0 <= i < nodes.len() && (#[trigger] nodes[i]).is_gamepad
}

pub open spec fn any_touchpad(nodes: Seq<NodeModel>) -> bool {
    exists|i: int| 0 <= i < nodes.len() && (#[trigger] nodes[i]).is_touchpad
}

/// A keyboard or a pointer among the devices: an unconditional veto.
pub open spec fn any_unrelated(nodes: Seq<NodeModel>) -> bool {
    exists|i: int|
        0 <= i < nodes.len() && ((#[trigger] nodes[i]).is_keyboard || nodes[i].is_mouse)
}

/// The name of the first gamepad, or else the given name.
pub open spec fn gamepad_name(nodes: Seq<NodeModel>, name: Seq<char>) -> Seq<char>
    decreases nodes.len(),
{
    if nodes.len() == 0 {
        name
    } else if nodes[0].is_gamepad {
        nodes[0].name
    } else {
        gamepad_name(nodes.drop_first(), name)
    }
}

pub open spec fn group_properties(function: Option<FunctionModel>) -> Seq<(Seq<char>, Seq<char>)> {
    match function {
        Some(f) => f.properties,
        None => Seq::empty(),
    }
}

pub open spec fn function_token(function: Option<FunctionModel>) -> Seq<char> {
    match function {
        Some(f) => bus_text(f.bus) + ":"@ + f.id,
        None => "input:unknown"@,
    }
}

pub open spec fn function_bus(function: Option<FunctionModel>) -> Seq<char> {
    match function {
        Some(f) => bus_text(f.bus),
        None => "input"@,
    }
}

pub open spec fn function_id(function: Option<FunctionModel>) -> Seq<char> {
    match function {
        Some(f) => f.id,
        None => "unknown"@,
    }
}

/// The fields of the fingerprint of a group.
pub open spec fn group_fields(group: GroupModel, usage: (u16, u16)) -> Seq<(Seq<char>, Seq<char>)> {
    let properties = group_properties(group.function);
    fingerprint_fields(
        group.function,
        gamepad_name(group.nodes, group.name),
        text_of(properties, "phys"@),
        text_of(properties, "uniq"@),
        text_of(properties, "id"@),
        connection_of(properties, group.function),
        any_unrelated(group.nodes),
        usage.0,
        usage.1,
    )
}

/// Full control: an approved driver is bound, and nothing unrelated shares the
/// function.
pub open spec fn fully_controllable(group: GroupModel) -> bool {
    &&& group.function matches Some(f) && (f.driver matches Some(d) && approved_driver(d))
    &&& !any_unrelated(group.nodes)
}

pub open spec fn group_controller(group: GroupModel, usage: (u16, u16)) -> ControllerModel {
    let properties = group_properties(group.function);
    ControllerModel {
        identity: IdentityModel {
            platform: "linux"@,
            stable_id: stable_token(
                selection_key(
                    function_bus(group.function),
                    function_id(group.function),
                    properties,
                    usage.0,
                    usage.1,
                ),
            ),
            instance_id: instance_token(function_token(group.function)),
            fingerprint: rendered(group_fields(group, usage)),
        },
        name: display(gamepad_name(group.nodes, group.name)),
        connection: connection_of(properties, group.function),
        function: group.function,
        mixed_unrelated: any_unrelated(group.nodes),
        can_full_control: fully_controllable(group),
        problem_code: if any_unrelated(group.nodes) {
            Some(PROBLEM_MIXED_FUNCTION)
        } else if group.function is None {
            Some(PROBLEM_UNCONTROLLED)
        } else if !fully_controllable(group) {
            Some(PROBLEM_UNSUPPORTED_DRIVER)
        } else {
            None
        },
    }
}

pub open spec fn controller_of(group: GroupModel) -> Result<ControllerModel, Seq<char>> {
    if !any_gamepad(group.nodes) && !any_touchpad(group.nodes) {
        Err("controller function had no controllable input nodes"@)
    } else {
        match group.usage {
            None => Err("controller function lacked strict HID usage evidence"@),
            Some(usage) => if utf8_len(rendered(group_fields(group, usage))) > MAX_FINGERPRINT {
                Err(
                    gamepad_name(group.nodes, group.name)
                        + ": identity fingerprint is too long"@,
                )
            } else {
                Ok(group_controller(group, usage))
            },
        }
    }
}

pub open spec fn controller_result(r: Result<Controller, String>) -> Result<
    ControllerModel,
    Seq<char>,
> {
    match r {
        Ok(controller) => Ok(controller@),
        Err(e) => Err(e@),
    }
}

pub fn has_gamepad(nodes: &[EventNode]) -> (r: bool)
    ensures
        r == any_gamepad(views(nodes@)),
{
    let mut i: usize = 0;
    while i < nodes.len()
        invariant
            i <= nodes@.len(),
            forall|j: int| 0 <= j < i ==> !(#[trigger] views(nodes@)[j]).is_gamepad,
        decreases nodes@.len() - i,
    {
        assert(views(nodes@)[i as int] == nodes@[i as int]@);
        if nodes[i].is_gamepad {
            return true;
        }
        i += 1;
    }
    false
}

pub fn has_touchpad(nodes: &[EventNode]) -> (r: bool)
    ensures
        r == any_touchpad(views(nodes@)),
{
    let mut i: usize = 0;
    while i < nodes.len()
        invariant
            i <= nodes@.len(),
            forall|j: int| 0 <= j < i ==> !(#[trigger] views(nodes@)[j]).is_touchpad,
        decreases nodes@.len() - i,
    {
        assert(views(nodes@)[i as int] == nodes@[i as int]@);
        if nodes[i].is_touchpad {
            return true;
        }
        i += 1;
    }
    false
}

pub fn has_unrelated(nodes: &[EventNode]) -> (r: bool)
    ensures
        r == any_unrelated(views(nodes@)),
{
    let mut i: usize = 0;
    while i < nodes.len()
        invariant
            i <= nodes@.len(),
            forall|j: int|
                0 <= j < i ==> !(#[trigger] views(nodes@)[j]).is_keyboard && !views(
                    nodes@,
                )[j].is_mouse,
        decreases nodes@.len() - i,
    {
        assert(views(nodes@)[i as int] == nodes@[i as int]@);
        if nodes[i].is_keyboard || nodes[i].is_mouse {
            return true;
        }
        i += 1;
    }
    false
}

fn first_gamepad_name(nodes: &[EventNode], name: &str) -> (r: String)
    ensures
        r@ == gamepad_name(views(nodes@), name@),
{
    let ghost all = views(nodes@);
    let mut i: usize = 0;
    assert(all.skip(0) == all);
    while i < nodes.len()
        invariant
            i <= nodes@.len(),
            all == views(nodes@),
            gamepad_name(all, name@) == gamepad_name(all.skip(i as int), name@),
        decreases nodes@.len() - i,
    {
        assert(all.skip(i as int)[0] == nodes@[i as int]@);
        assert(all.skip(i as int).drop_first() == all.skip(i + 1));
        if nodes[i].is_gamepad {
            return nodes[i].name.clone();
        }
        i += 1;
    }
    name.to_owned()
}

impl Group {
    pub open spec fn wf(&self) -> bool {
        self.function matches Some(function) ==> function.wf()
    }

    pub fn new(
        name: String,
        function: Option<FunctionIdentity>,
        controller_usage: Option<(u16, u16)>,
    ) -> (r: Self)
        ensures
            r@ == (GroupModel {
                name: name@,
                function: opt_view(function),
                usage: controller_usage,
                nodes: Seq::empty(),
            }),
            r.function == function,
    {
        let r = Group { name, function, controller_usage, nodes: Vec::new() };
        assert(views(r.nodes@) == Seq::<NodeModel>::empty());
        r
    }

    /// The controller that a group amounts to.
    pub fn into_controller(self) -> (r: Result<Controller, String>)
        requires
            self.wf(),
        ensures
            controller_result(r) == controller_of(self@),
            r matches Ok(controller) ==> controller.wf(),
    {
        let gamepad = first_gamepad_name(self.nodes.as_slice(), self.name.as_str());
        let mixed_unrelated = has_unrelated(self.nodes.as_slice());
        if !has_gamepad(self.nodes.as_slice()) && !has_touchpad(self.nodes.as_slice()) {
            return Err("controller function had no controllable input nodes".to_owned());
        }
        let properties: Properties = match &self.function {
            Some(function) => function.properties.copy(),
            None => Ordered::new(),
        };
        let reference: Option<&FunctionIdentity> = match &self.function {
            Some(function) => Some(function),
            None => None,
        };
        let connection = connection_from(&properties, reference);
        let token: String = match &self.function {
            Some(function) => joined3(function.bus.as_str(), ":", function.id.as_str()),
            None => "input:unknown".to_owned(),
        };
        let (usage_page, usage) = match self.controller_usage {
            Some((usage_page, usage)) => (usage_page, usage),
            None => {
                return Err("controller function lacked strict HID usage evidence".to_owned());
            },
        };
        let bus: &str = match &self.function {
            Some(function) => function.bus.as_str(),
            None => "input",
        };
        let id: &str = match &self.function {
            Some(function) => function.id.as_str(),
            None => "unknown",
        };
        let stable_key = stable_selection_key(bus, id, &properties, usage_page, usage);
        let stable_id = joined("linux-controller-", digest128(stable_key.as_str()).as_str());
        let instance_id = joined("linux-function-", digest128(token.as_str()).as_str());
        let fingerprint = fingerprint_for(
            reference,
            gamepad.as_str(),
            properties.text("phys"),
            properties.text("uniq"),
            properties.text("id"),
            connection.as_str(),
            mixed_unrelated,
            usage_page,
            usage,
        );
        if byte_len(fingerprint.as_str()) > MAX_FINGERPRINT {
            return Err(joined(gamepad.as_str(), ": identity fingerprint is too long"));
        }
        let driver_approved = match &self.function {
            Some(function) => match &function.driver {
                Some(driver) => safe_driver(driver.as_str()),
                None => false,
            },
            None => false,
        };
        let can_full_control = driver_approved && !mixed_unrelated;
        let problem_code: Option<i32> = if mixed_unrelated {
            Some(PROBLEM_MIXED_FUNCTION)
        } else if self.function.is_none() {
            Some(PROBLEM_UNCONTROLLED)
        } else if !can_full_control {
            Some(PROBLEM_UNSUPPORTED_DRIVER)
        } else {
            None
        };
        Ok(
            Controller {
                identity: Identity {
                    platform: "linux".to_owned(),
                    stable_id,
                    instance_id,
                    fingerprint,
                },
                name: sanitize_display(gamepad.as_str()),
                connection,
                function: self.function,
                mixed_unrelated,
                can_full_control,
                problem_code,
            },
        )
    }
}

pub fn function_key(function: &FunctionIdentity) -> (r: String)
    ensures
        r@ == function_token(Some(function@)),
{
    joined3(function.bus.as_str(), ":", function.id.as_str())
}

/// The key of a device that no function could be found for.
pub open spec fn fallback_key(
    phys: Option<Seq<char>>,
    uniq: Option<Seq<char>>,
    name: Seq<char>,
) -> Seq<char> {
    let p = match phys {
        Some(t) => t,
        None => Seq::empty(),
    };
    let u = match uniq {
        Some(t) => t,
        None => Seq::empty(),
    };
    "fallback:"@ + p + ":"@ + u + ":"@ + name
}

pub fn fallback_group_key(phys: Option<&str>, uniq: Option<&str>, name: &str) -> (r: String)
    ensures
        r@ == fallback_key(str_text(phys), str_text(uniq), name@),
{
    proof {
        reveal_strlit("");
    }
    let p: &str = match phys {
        Some(t) => t,
        None => "",
    };
    let u: &str = match uniq {
        Some(t) => t,
        None => "",
    };
    let mut out: String = joined3("fallback:", p, ":");
    out.append(u);
    out.append(":");
    out.append(name);
    assert(p@ == match phys {
        Some(t) => t@,
        None => Seq::<char>::empty(),
    });
    assert(u@ == match uniq {
        Some(t) => t@,
        None => Seq::<char>::empty(),
    });
    out
}

} // verus!
