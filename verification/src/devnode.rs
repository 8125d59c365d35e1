//! Device nodes as the configuration manager reports them, and what the HID
//! interfaces of a node say about it.
use crate::link_collections::{
    allowed_usage, is_allowed_usage, GENERIC_DESKTOP_PAGE, USAGE_KEYBOARD, USAGE_MOUSE,
};
use crate::platform::{ErrorModel, PlatformError};
use crate::sorting::views;
use crate::text::{
    contains_text, copy_list, decimal, decimal_of, has_text, joined3, opt_texts, same, text_result,
    texts, upper_hex, upper_hex_of, view_result,
};
use crate::wide_text::{
    clean_text, cleaned, error_text, format_error_code, lossy_text, normal, normalized, utf16_text,
};
use vstd::prelude::*;

verus! {

pub const ERROR_SUCCESS: u32 = 0;

pub const ERROR_INSUFFICIENT_BUFFER: u32 = 122;

pub const ERROR_NO_MORE_ITEMS: u32 = 259;

pub const CR_NO_SUCH_DEVNODE: u32 = 0x0000_000D;

pub const DN_STARTED: u32 = 0x0000_0008;

pub const DN_NEEDS_RESTART: u32 = 0x0000_0100;

pub const DN_HAS_PROBLEM: u32 = 0x0000_0400;

pub const DN_WILL_BE_REMOVED: u32 = 0x0004_0000;

pub const CM_PROB_DISABLED: u32 = 0x0000_0016;

/// One device node.
#[derive(Clone, Debug)]
pub struct RawDevnode {
    pub devinst: u32,
    pub instance: String,
    pub class_name: String,
    pub service: String,
    pub enumerator: String,
    pub hardware_ids: Vec<String>,
    pub friendly_name: String,
    pub description: String,
    pub manufacturer: String,
    pub parent: Option<u32>,
    /// The node offers the native game-controller interface.
    pub xusb_interface: bool,
    pub status: u32,
    pub problem: Option<i32>,
    pub status_known: bool,
}

#[verifier::ext_equal]
pub struct NodeModel {
    pub devinst: u32,
    pub instance: Seq<char>,
    pub class_name: Seq<char>,
    pub service: Seq<char>,
    pub enumerator: Seq<char>,
    pub hardware_ids: Seq<Seq<char>>,
    pub friendly_name: Seq<char>,
    pub description: Seq<char>,
    pub manufacturer: Seq<char>,
    pub parent: Option<u32>,
    pub xusb_interface: bool,
    pub status: u32,
    pub problem: Option<i32>,
    pub status_known: bool,
}

impl View for RawDevnode {
    type V = NodeModel;

    open spec fn view(&self) -> NodeModel {
        NodeModel {
            devinst: self.devinst,
            instance: self.instance@,
            class_name: self.class_name@,
            service: self.service@,
            enumerator: self.enumerator@,
            hardware_ids: texts(self.hardware_ids@),
            friendly_name: self.friendly_name@,
            description: self.description@,
            manufacturer: self.manufacturer@,
            parent: self.parent,
            xusb_interface: self.xusb_interface,
            status: self.status,
            problem: self.problem,
            status_known: self.status_known,
        }
    }
}

/// A node that only bundles the functions of a device.
pub open spec fn composite_parent(node: NodeModel) -> bool {
    let class = normal(node.class_name);
    let service = normal(node.service);
    ||| class == "USB"@ && service == "USBCCGP"@
    ||| class == "USB COMPOSITE"@
    ||| contains_text(class, "COMPOSITE"@) && !contains_text(class, "XNA"@) && !contains_text(
        class,
        "XUSB"@,
    )
}

pub open spec fn hid_function(node: NodeModel) -> bool {
    contains_text(normal(node.class_name), "HID"@)
}

pub open spec fn keyboard_or_mouse(node: NodeModel) -> bool {
    let class = normal(node.class_name);
    let service = normal(node.service);
    ||| class == "KEYBOARD"@
    ||| class == "MOUSE"@
    ||| class == "KEYBOARDCLASS"@
    ||| class == "MOUSECLASS"@
    ||| service == "KBDCLASS"@
    ||| service == "KBDHID"@
    ||| service == "MOUCLASS"@
    ||| service == "MOUHID"@
}

/// Someone switched the node off; it did not merely stop.
pub open spec fn switched_off(node: NodeModel) -> bool {
    node.status_known && node.status & DN_HAS_PROBLEM != 0 && node.problem == Some(
        CM_PROB_DISABLED as i32,
    )
}

/// Whether the node runs, where its status is known.
pub open spec fn running(node: NodeModel) -> Option<bool> {
    if !node.status_known {
        None
    } else {
        Some(!switched_off(node) && node.status & DN_STARTED != 0)
    }
}

impl RawDevnode {
    pub fn is_composite_parent(&self) -> (r: bool)
        ensures
            r == composite_parent(self@),
    {
        let class = normalized(self.class_name.as_str());
        let service = normalized(self.service.as_str());
        (same(class.as_str(), "USB") && same(service.as_str(), "USBCCGP")) || same(
            class.as_str(),
            "USB COMPOSITE",
        ) || (has_text(class.as_str(), "COMPOSITE") && !has_text(class.as_str(), "XNA")
            && !has_text(class.as_str(), "XUSB"))
    }

    pub fn is_hid_function(&self) -> (r: bool)
        ensures
            r == hid_function(self@),
    {
        has_text(normalized(self.class_name.as_str()).as_str(), "HID")
    }

    pub fn is_explicit_keyboard_or_mouse(&self) -> (r: bool)
        ensures
            r == keyboard_or_mouse(self@),
    {
        let class = normalized(self.class_name.as_str());
        let class = class.as_str();
        let service = normalized(self.service.as_str());
        let service = service.as_str();
        same(class, "KEYBOARD") || same(class, "MOUSE") || same(class, "KEYBOARDCLASS") || same(
            class,
            "MOUSECLASS",
        ) || same(service, "KBDCLASS") || same(service, "KBDHID") || same(service, "MOUCLASS")
            || same(service, "MOUHID")
    }

    pub fn administratively_disabled(&self) -> (r: bool)
        ensures
            r == switched_off(self@),
    {
        self.status_known && self.status & DN_HAS_PROBLEM != 0 && match self.problem {
            Some(problem) => problem == CM_PROB_DISABLED as i32,
            None => false,
        }
    }

    pub fn enabled(&self) -> (r: Option<bool>)
        ensures
            r == running(self@),
    {
        if !self.status_known {
            return None;
        }
        Some(
            if self.administratively_disabled() {
                false
            } else {
                self.status & DN_STARTED != 0
            },
        )
    }

    pub fn copy(&self) -> (r: Self)
        ensures
            r@ == self@,
    {
        RawDevnode {
            devinst: self.devinst,
            instance: self.instance.clone(),
            class_name: self.class_name.clone(),
            service: self.service.clone(),
            enumerator: self.enumerator.clone(),
            hardware_ids: copy_list(self.hardware_ids.as_slice()),
            friendly_name: self.friendly_name.clone(),
            description: self.description.clone(),
            manufacturer: self.manufacturer.clone(),
            parent: self.parent,
            xusb_interface: self.xusb_interface,
            status: self.status,
            problem: self.problem,
            status_known: self.status_known,
        }
    }
}

/// A node that someone switched off does not run.
pub proof fn switched_off_is_not_running(node: NodeModel)
    ensures
        switched_off(node) ==> running(node) == Some(false),
        running(node) is Some <==> node.status_known,
{
}

// Registry values.
/// How large a buffer a registry value needs, in units.
pub open spec fn value_units(first: i32, required: u32, error: u32) -> Option<nat> {
    if (first != 0 && required == 0) || error != ERROR_INSUFFICIENT_BUFFER || required == 0 {
        None
    } else {
        Some((required / 2 + 1) as nat)
    }
}

/// `first`, `required` and `error` are the outcome of asking without a buffer.
pub fn registry_units(first: i32, required: u32, error: u32) -> (r: Option<usize>)
    ensures
        (match r {
            Some(n) => Some(n as nat),
            None => None,
        }) == value_units(first, required, error),
{
    if first != 0 && required == 0 {
        return None;
    }
    if error != ERROR_INSUFFICIENT_BUFFER || required == 0 {
        return None;
    }
    Some((required / 2) as usize + 1)
}

/// The texts between zeros that hold more than filler.
pub open spec fn value_texts(units: Seq<u16>) -> Seq<Seq<char>>
    decreases units.len(),
{
    if units.len() == 0 {
        Seq::empty()
    } else {
        let end = first_zero(units) as int;
        let text = cleaned(utf16_text(units.take(end)));
        let rest = if end < units.len() {
            value_texts(units.skip(end + 1))
        } else {
            Seq::empty()
        };
        if text.len() > 0 {
            seq![text] + rest
        } else {
            rest
        }
    }
}

/// Where the first zero stands, or the end.
pub open spec fn first_zero(units: Seq<u16>) -> nat
    decreases units.len(),
{
    if units.len() == 0 || units[0] == 0 {
        0
    } else {
        1 + first_zero(units.skip(1))
    }
}

pub proof fn lemma_first_zero(units: Seq<u16>, at: int)
    requires
        0 <= at <= units.len(),
        forall|i: int| 0 <= i < at ==> units[i] != 0,
        at < units.len() ==> units[at] == 0,
    ensures
        first_zero(units) == at,
    decreases at,
{
    if at > 0 {
        assert(units[0] != 0);
        lemma_first_zero(units.skip(1), at - 1);
    }
}

pub open spec fn some_texts(list: Seq<Seq<char>>) -> Option<Seq<Seq<char>>> {
    if list.len() == 0 {
        None
    } else {
        Some(list)
    }
}

/// How many units of a buffer a write of `written` bytes filled.
pub open spec fn filled(written: u32, size: nat) -> int {
    if written / 2 < size {
        (written / 2) as int
    } else {
        size as int
    }
}

fn zero_from(units: &[u16], start: usize) -> (r: usize)
    requires
        start <= units@.len(),
    ensures
        start <= r <= units@.len(),
        first_zero(units@.skip(start as int)) == r - start,
{
    let mut i: usize = start;
    while i < units.len() && units[i] != 0
        invariant
            start <= i <= units@.len(),
            forall|j: int| start <= j < i ==> units@[j] != 0,
        decreases units@.len() - i,
    {
        i += 1;
    }
    proof {
        lemma_first_zero(units@.skip(start as int), i - start);
    }
    i
}

/// The texts of a registry value: `buffer` was filled with `written` bytes.
pub fn registry_values(buffer: &[u16], written: u32) -> (r: Option<Vec<String>>)
    ensures
        opt_texts(r) == some_texts(value_texts(buffer@.take(filled(written, buffer@.len())))),
{
    let half: usize = (written / 2) as usize;
    let used: usize = if half < buffer.len() {
        half
    } else {
        buffer.len()
    };
    let units = vstd::slice::slice_subrange(buffer, 0, used);
    assert(units@ == buffer@.take(filled(written, buffer@.len())));
    let mut values: Vec<String> = Vec::new();
    let mut start: usize = 0;
    assert(units@.skip(0) == units@);
    while start < units.len()
        invariant
            start <= units@.len(),
            texts(values@) + value_texts(units@.skip(start as int)) == value_texts(units@),
        decreases units@.len() - start,
    {
        let ghost rest = units@.skip(start as int);
        let ghost before = texts(values@);
        let end: usize = zero_from(units, start);
        let part = vstd::slice::slice_subrange(units, start, end);
        assert(part@ == rest.take(end - start));
        let text = clean_text(lossy_text(part).as_str());
        let ghost tail = if end < units@.len() {
            value_texts(units@.skip(end + 1))
        } else {
            Seq::empty()
        };
        assert(end < units@.len() ==> rest.skip(end - start + 1) == units@.skip(end + 1));
        if !text.as_str().is_empty() {
            assert(before + (seq![text@] + tail) == before.push(text@) + tail);
            values.push(text);
            assert(texts(values@) == before.push(text@));
        }
        if end < units.len() {
            start = end + 1;
        } else {
            start = end;
            assert(units@.skip(start as int).len() == 0);
        }
    }
    assert(units@.skip(start as int).len() == 0);
    assert(texts(values@) + Seq::<Seq<char>>::empty() == texts(values@));
    if values.len() == 0 {
        None
    } else {
        Some(values)
    }
}

// Instance identifiers.
/// How many units an instance identifier needs.
pub open spec fn instance_size(first: i32, required: u32, error: u32, detail: Seq<u16>) -> Result<
    u32,
    Seq<char>,
> {
    if first != 0 && required == 0 {
        Err("SetupDiGetDeviceInstanceIdW returned no instance ID"@)
    } else if error != ERROR_INSUFFICIENT_BUFFER || required == 0 {
        Err(error_text("SetupDiGetDeviceInstanceIdW"@, error, detail))
    } else {
        Ok(required)
    }
}

/// `first`, `required` and `error` are the outcome of asking without a buffer,
/// `detail` what the system says of the error.
pub fn instance_units(first: i32, required: u32, error: u32, detail: &[u16]) -> (r: Result<
    u32,
    String,
>)
    ensures
        text_result(r) == instance_size(first, required, error, detail@),
{
    if first != 0 && required == 0 {
        return Err("SetupDiGetDeviceInstanceIdW returned no instance ID".to_owned());
    }
    if error != ERROR_INSUFFICIENT_BUFFER || required == 0 {
        return Err(format_error_code("SetupDiGetDeviceInstanceIdW", error, detail));
    }
    Ok(required)
}

/// The instance identifier that a buffer holds, in normal form.
pub open spec fn instance_of(buffer: Seq<u16>) -> Result<Seq<char>, Seq<char>> {
    let value = cleaned(utf16_text(buffer.take(first_zero(buffer) as int)));
    if value.len() == 0 {
        Err("SetupAPI returned an empty device instance ID"@)
    } else {
        Ok(normal(value))
    }
}

pub fn device_instance_id(buffer: &[u16]) -> (r: Result<String, String>)
    ensures
        view_result(r) == instance_of(buffer@),
{
    let end: usize = zero_from(buffer, 0);
    assert(buffer@.skip(0) == buffer@);
    let part = vstd::slice::slice_subrange(buffer, 0, end);
    assert(part@ == buffer@.take(end as int));
    let value = clean_text(lossy_text(part).as_str());
    if value.as_str().is_empty() {
        Err("SetupAPI returned an empty device instance ID".to_owned())
    } else {
        Ok(normalized(value.as_str()))
    }
}

// Reading a node.
/// What the system answered about one node.
#[derive(Debug)]
pub struct NodeReading {
    pub devinst: u32,
    pub instance: Result<String, String>,
    pub class_name: Option<Vec<String>>,
    pub service: Option<Vec<String>>,
    pub enumerator: Option<Vec<String>>,
    pub hardware_ids: Option<Vec<String>>,
    pub friendly_name: Option<Vec<String>>,
    pub description: Option<Vec<String>>,
    pub manufacturer: Option<Vec<String>>,
    pub status_code: u32,
    pub status: u32,
    pub problem: u32,
    pub parent_code: u32,
    pub parent: u32,
}

/// The first of the texts of a value, or nothing.
pub open spec fn first_text(list: Option<Vec<String>>) -> Seq<char> {
    match list {
        Some(v) => if v@.len() > 0 {
            v@[0]@
        } else {
            Seq::empty()
        },
        None => Seq::empty(),
    }
}

fn take_first(list: &Option<Vec<String>>) -> (r: String)
    ensures
        r@ == first_text(*list),
{
    match list {
        Some(v) => if v.len() > 0 {
            v[0].clone()
        } else {
            String::new()
        },
        None => String::new(),
    }
}

pub open spec fn normal_list(list: Option<Vec<String>>) -> Seq<Seq<char>> {
    match list {
        Some(v) => v@.map_values(|s: String| normal(s@)),
        None => Seq::empty(),
    }
}

fn normalize_list(list: &Option<Vec<String>>) -> (r: Vec<String>)
    ensures
        texts(r@) == normal_list(*list),
{
    let mut out: Vec<String> = Vec::new();
    match list {
        Some(v) => {
            let mut i: usize = 0;
            assert(texts(out@) == normal_list(*list).take(0));
            while i < v.len()
                invariant
                    i <= v@.len(),
                    *list == Some(*v),
                    texts(out@) == normal_list(*list).take(i as int),
                decreases v@.len() - i,
            {
                let ghost before = out@;
                let item = normalized(v[i].as_str());
                out.push(item);
                assert(texts(out@) == texts(before).push(item@));
                assert(normal_list(*list)[i as int] == item@);
                i += 1;
            }
            assert(texts(out@) == normal_list(*list));
        },
        None => {
            assert(texts(out@) == normal_list(*list));
        },
    }
    out
}

/// The problem that a node reports, where its status is known.
pub open spec fn problem_of(status_code: u32, problem: u32) -> Option<i32> {
    if status_code == ERROR_SUCCESS && problem != 0 {
        Some(problem as i32)
    } else {
        None
    }
}

pub open spec fn node_read(reading: NodeReading) -> Result<NodeModel, Seq<char>> {
    match reading.instance {
        Err(e) => Err(e@),
        Ok(instance) => if reading.parent_code != ERROR_SUCCESS && reading.parent_code
            != CR_NO_SUCH_DEVNODE {
            Err(
                "CM_Get_Parent failed for devnode "@ + decimal(reading.devinst as nat)
                    + " (CONFIGRET 0x"@ + upper_hex(reading.parent_code as nat, 8) + ")"@,
            )
        } else {
            Ok(
                NodeModel {
                    devinst: reading.devinst,
                    instance: instance@,
                    class_name: first_text(reading.class_name),
                    service: first_text(reading.service),
                    enumerator: first_text(reading.enumerator),
                    hardware_ids: normal_list(reading.hardware_ids),
                    friendly_name: first_text(reading.friendly_name),
                    description: first_text(reading.description),
                    manufacturer: first_text(reading.manufacturer),
                    parent: if reading.parent_code == ERROR_SUCCESS {
                        Some(reading.parent)
                    } else {
                        None
                    },
                    xusb_interface: false,
                    status: reading.status,
                    problem: problem_of(reading.status_code, reading.problem),
                    status_known: reading.status_code == ERROR_SUCCESS,
                },
            )
        },
    }
}

pub fn read_raw_devnode(reading: NodeReading) -> (r: Result<RawDevnode, String>)
    ensures
        view_result(r) == node_read(reading),
{
    let instance = match &reading.instance {
        Ok(instance) => instance.clone(),
        Err(error) => {
            return Err(error.clone());
        },
    };
    let status_known = reading.status_code == ERROR_SUCCESS;
    let problem: Option<i32> = if status_known && reading.problem != 0 {
        Some(reading.problem as i32)
    } else {
        None
    };
    let parent: Option<u32> = if reading.parent_code == ERROR_SUCCESS {
        Some(reading.parent)
    } else if reading.parent_code == CR_NO_SUCH_DEVNODE {
        None
    } else {
        let mut out = joined3(
            "CM_Get_Parent failed for devnode ",
            decimal_of(reading.devinst as u64).as_str(),
            " (CONFIGRET 0x",
        );
        out.append(upper_hex_of(reading.parent_code as u64, 8).as_str());
        out.append(")");
        return Err(out);
    };
    let node = RawDevnode {
        devinst: reading.devinst,
        instance,
        class_name: take_first(&reading.class_name),
        service: take_first(&reading.service),
        enumerator: take_first(&reading.enumerator),
        hardware_ids: normalize_list(&reading.hardware_ids),
        friendly_name: take_first(&reading.friendly_name),
        description: take_first(&reading.description),
        manufacturer: take_first(&reading.manufacturer),
        parent,
        xusb_interface: false,
        status: reading.status,
        problem,
        status_known,
    };
    Ok(node)
}

/// A node that goes away is not listed.
pub open spec fn leaving(node: NodeModel) -> bool {
    node.status & DN_WILL_BE_REMOVED != 0
}

/// What the system answered when the next node was asked for.
#[derive(Debug)]
pub enum ListedNode {
    /// It gave none; `said` is its text for the error.
    Refused { error: u32, said: Vec<u16> },
    Node(Result<RawDevnode, String>),
}

/// The nodes after one more answer, and the number of the next one if the list
/// goes on.
pub open spec fn listed(nodes: Seq<NodeModel>, index: u32, answer: ListedNode) -> Result<
    (Seq<NodeModel>, Option<u32>),
    ErrorModel,
> {
    match answer {
        ListedNode::Refused { error, said } => if error == ERROR_NO_MORE_ITEMS {
            Ok((nodes, None))
        } else {
            Err(ErrorModel::OperationFailed(error_text("SetupDiEnumDeviceInfo"@, error, said@)))
        },
        ListedNode::Node(reading) => match view_result(reading) {
            Ok(node) => Ok(
                (
                    if leaving(node) {
                        nodes
                    } else {
                        nodes.push(node)
                    },
                    Some(next_index(index)),
                ),
            ),
            Err(e) => Err(
                ErrorModel::OperationFailed(
                    "all-class devnode "@ + decimal(index as nat) + " could not be read: "@ + e,
                ),
            ),
        },
    }
}

pub open spec fn next_index(index: u32) -> u32 {
    if index < u32::MAX {
        (index + 1) as u32
    } else {
        index
    }
}

/// Takes the answer about the node at `index` into the list of all nodes.
pub fn collect_all_devnodes(nodes: &mut Vec<RawDevnode>, index: u32, answer: ListedNode) -> (r:
    Result<Option<u32>, PlatformError>)
    ensures
        match (r, listed(views(old(nodes)@), index, answer)) {
            (Ok(next), Ok((after, model_next))) => views(final(nodes)@) == after && next
                == model_next,
            (Err(e), Err(m)) => e@ == m && final(nodes)@ == old(nodes)@,
            _ => false,
        },
{
    match answer {
        ListedNode::Refused { error, said } => {
            if error == ERROR_NO_MORE_ITEMS {
                Ok(None)
            } else {
                Err(
                    PlatformError::OperationFailed(
                        format_error_code("SetupDiEnumDeviceInfo", error, said.as_slice()),
                    ),
                )
            }
        },
        ListedNode::Node(Ok(node)) => {
            if node.status & DN_WILL_BE_REMOVED == 0 {
                nodes.push(node);
                assert(views(nodes@) == views(old(nodes)@).push(node@));
            }
            Ok(Some(index.saturating_add(1)))
        },
        ListedNode::Node(Err(error)) => {
            let mut out = joined3(
                "all-class devnode ",
                decimal_of(index as u64).as_str(),
                " could not be read: ",
            );
            out.append(error.as_str());
            Err(PlatformError::OperationFailed(out))
        },
    }
}

// HID evidence.
/// What the HID interfaces of one node say together.
#[derive(Clone, Debug)]
pub struct HidAggregate {
    /// The controller usages, each once and in order.
    pub usages: Vec<(u16, u16)>,
    pub allowed: bool,
    pub disallowed: bool,
    pub mixed: bool,
}

#[verifier::ext_equal]
pub struct AggregateModel {
    pub usages: Seq<(u16, u16)>,
    pub allowed: bool,
    pub disallowed: bool,
    pub mixed: bool,
}

impl View for HidAggregate {
    type V = AggregateModel;

    open spec fn view(&self) -> AggregateModel {
        AggregateModel {
            usages: self.usages@,
            allowed: self.allowed,
            disallowed: self.disallowed,
            mixed: self.mixed,
        }
    }
}

pub open spec fn usage_before(a: (u16, u16), b: (u16, u16)) -> bool {
    a.0 < b.0 || (a.0 == b.0 && a.1 < b.1)
}

pub open spec fn usages_in_order(usages: Seq<(u16, u16)>) -> bool {
    forall|i: int, j: int|
        0 <= i < j < usages.len() ==> usage_before(#[trigger] usages[i], #[trigger] usages[j])
}

/// The usages with one more, if it is not among them.
pub open spec fn with_usage(usages: Seq<(u16, u16)>, usage: (u16, u16)) -> Seq<(u16, u16)>
    decreases usages.len(),
{
    if usages.len() == 0 || usage_before(usages.last(), usage) {
        usages.push(usage)
    } else if usages.last() == usage {
        usages
    } else {
        with_usage(usages.drop_last(), usage).push(usages.last())
    }
}

pub open spec fn no_evidence() -> AggregateModel {
    AggregateModel { usages: Seq::empty(), allowed: false, disallowed: false, mixed: false }
}

/// The evidence after one more interface.
pub open spec fn with_interface(
    before: AggregateModel,
    usage_page: u16,
    usage: u16,
    mixed: bool,
) -> AggregateModel {
    let usages = if allowed_usage(usage_page, usage) {
        with_usage(before.usages, (usage_page, usage))
    } else {
        before.usages
    };
    AggregateModel {
        usages,
        allowed: before.allowed || allowed_usage(usage_page, usage),
        disallowed: before.disallowed || (usage_page == GENERIC_DESKTOP_PAGE && (usage
            == USAGE_MOUSE || usage == USAGE_KEYBOARD)),
        mixed: before.mixed || mixed || usages.len() > 1,
    }
}

/// The evidence is a controller and nothing else.
pub open spec fn controller_only(evidence: AggregateModel) -> bool {
    evidence.allowed && !evidence.disallowed && !evidence.mixed
}

pub open spec fn first_usage(evidence: AggregateModel) -> Option<(u16, u16)> {
    if evidence.usages.len() > 0 {
        Some(evidence.usages[0])
    } else {
        None
    }
}

/// Evidence that interfaces have built up.
pub open spec fn evidence_ok(evidence: AggregateModel) -> bool {
    &&& usages_in_order(evidence.usages)
    &&& forall|i: int|
        0 <= i < evidence.usages.len() ==> allowed_usage(
            (#[trigger] evidence.usages[i]).0,
            evidence.usages[i].1,
        )
    &&& evidence.allowed <==> evidence.usages.len() > 0
    &&& evidence.usages.len() > 1 ==> evidence.mixed
}

proof fn lemma_usage_at(usages: Seq<(u16, u16)>, usage: (u16, u16), at: int)
    requires
        0 <= at <= usages.len(),
        forall|i: int| at <= i < usages.len() ==> usage_before(usage, #[trigger] usages[i]),
        at > 0 ==> usages[at - 1] == usage || usage_before(usages[at - 1], usage),
    ensures
        with_usage(usages, usage) == (if at > 0 && usages[at - 1] == usage {
            usages
        } else {
            usages.insert(at, usage)
        }),
    decreases usages.len() - at,
{
    if at == usages.len() {
        assert(usages.insert(at, usage) == usages.push(usage));
    } else {
        let head = usages.drop_last();
        assert(usage_before(usage, usages[usages.len() - 1]));
        assert forall|i: int| at <= i < head.len() implies usage_before(
            usage,
            #[trigger] head[i],
        ) by {
            assert(head[i] == usages[i]);
        }
        lemma_usage_at(head, usage, at);
        assert(head.push(usages.last()) == usages);
        assert(head.insert(at, usage).push(usages.last()) == usages.insert(at, usage));
    }
}

proof fn lemma_with_usage(usages: Seq<(u16, u16)>, usage: (u16, u16))
    requires
        usages_in_order(usages),
    ensures
        usages_in_order(with_usage(usages, usage)),
        with_usage(usages, usage).len() > 0,
        forall|i: int|
            0 <= i < with_usage(usages, usage).len() ==> (#[trigger] with_usage(usages, usage)[i])
                == usage || usages.contains(with_usage(usages, usage)[i]),
    decreases usages.len(),
{
    let after = with_usage(usages, usage);
    if usages.len() == 0 || usage_before(usages.last(), usage) {
        assert forall|i: int| 0 <= i < after.len() implies (#[trigger] after[i]) == usage
            || usages.contains(after[i]) by {
            if i < usages.len() {
                assert(after[i] == usages[i]);
            }
        }
        assert forall|i: int, j: int| 0 <= i < j < after.len() implies usage_before(
            #[trigger] after[i],
            #[trigger] after[j],
        ) by {
            assert(after[i] == usages[i]);
            if j == usages.len() {
                if i < usages.len() - 1 {
                    assert(usage_before(usages[i], usages[usages.len() - 1]));
                }
            } else {
                assert(after[j] == usages[j]);
            }
        }
    } else if usages.last() == usage {
        assert forall|i: int| 0 <= i < after.len() implies usages.contains(#[trigger] after[i]) by {
            assert(after[i] == usages[i]);
        }
    } else {
        let head = usages.drop_last();
        let last = usages.last();
        assert(usages_in_order(head)) by {
            assert forall|i: int, j: int| 0 <= i < j < head.len() implies usage_before(
                #[trigger] head[i],
                #[trigger] head[j],
            ) by {
                assert(head[i] == usages[i] && head[j] == usages[j]);
            }
        }
        lemma_with_usage(head, usage);
        let inner = with_usage(head, usage);
        assert forall|i: int| 0 <= i < inner.len() implies usage_before(#[trigger] inner[i], last)
            && (inner[i] == usage || usages.contains(inner[i])) by {
            if inner[i] != usage {
                let k = choose|k: int| 0 <= k < head.len() && head[k] == inner[i];
                assert(usages[k] == inner[i]);
                assert(usage_before(usages[k], usages[usages.len() - 1]));
            }
        }
        assert forall|i: int| 0 <= i < after.len() implies (#[trigger] after[i]) == usage
            || usages.contains(after[i]) by {
            if i < inner.len() {
                assert(after[i] == inner[i]);
            } else {
                assert(after[i] == usages[usages.len() - 1]);
            }
        }
        assert forall|i: int, j: int| 0 <= i < j < after.len() implies usage_before(
            #[trigger] after[i],
            #[trigger] after[j],
        ) by {
            assert(after[i] == inner[i]);
            if j < inner.len() {
                assert(after[j] == inner[j]);
            }
        }
    }
}

/// Interfaces and failed inspections build evidence in which the controller
/// usages are in order, and in which two of them count as mixed.
pub proof fn evidence_stays_ok(before: AggregateModel, usage_page: u16, usage: u16, mixed: bool)
    requires
        evidence_ok(before),
    ensures
        evidence_ok(no_evidence()),
        evidence_ok(with_interface(before, usage_page, usage, mixed)),
        evidence_ok(AggregateModel { mixed: true, ..before }),
{
    if allowed_usage(usage_page, usage) {
        lemma_with_usage(before.usages, (usage_page, usage));
        let after = with_usage(before.usages, (usage_page, usage));
        assert forall|i: int| 0 <= i < after.len() implies allowed_usage(
            (#[trigger] after[i]).0,
            after[i].1,
        ) by {
            if after[i] != (usage_page, usage) {
                let k = choose|k: int|
                    0 <= k < before.usages.len() && before.usages[k] == after[i];
                assert(allowed_usage(before.usages[k].0, before.usages[k].1));
            }
        }
    }
}

/// What spoiled the evidence once spoils it for good: no later interface makes
/// a mixed node, or one with a keyboard or a mouse, a controller again.
pub proof fn spoiled_evidence_stays_spoiled(
    before: AggregateModel,
    usage_page: u16,
    usage: u16,
    mixed: bool,
)
    requires
        before.mixed || before.disallowed,
    ensures
        !controller_only(with_interface(before, usage_page, usage, mixed)),
{
}

impl HidAggregate {
    pub fn new() -> (r: Self)
        ensures
            r@ == no_evidence(),
    {
        HidAggregate { usages: Vec::new(), allowed: false, disallowed: false, mixed: false }
    }

    fn insert_usage(&mut self, usage: (u16, u16))
        ensures
            final(self)@ == (AggregateModel {
                usages: with_usage(old(self)@.usages, usage),
                ..old(self)@
            }),
    {
        let mut at: usize = self.usages.len();
        while at > 0 && (usage.0 < self.usages[at - 1].0 || (usage.0 == self.usages[at - 1].0
            && usage.1 < self.usages[at - 1].1))
            invariant
                at <= self.usages@.len(),
                *self == *old(self),
                forall|i: int|
                    at <= i < self.usages@.len() ==> usage_before(
                        usage,
                        #[trigger] self.usages@[i],
                    ),
            decreases at,
        {
            at -= 1;
        }
        proof {
            lemma_usage_at(self.usages@, usage, at as int);
        }
        if at > 0 && self.usages[at - 1].0 == usage.0 && self.usages[at - 1].1 == usage.1 {
            return;
        }
        self.usages.insert(at, usage);
    }

    pub fn add(&mut self, usage_page: u16, usage: u16, mixed: bool)
        ensures
            final(self)@ == with_interface(old(self)@, usage_page, usage, mixed),
    {
        if is_allowed_usage(usage_page, usage) {
            self.allowed = true;
            self.insert_usage((usage_page, usage));
        } else if usage_page == GENERIC_DESKTOP_PAGE && (usage == USAGE_MOUSE || usage
            == USAGE_KEYBOARD) {
            self.disallowed = true;
        }
        if mixed || self.usages.len() > 1 {
            self.mixed = true;
        }
    }

    /// An interface that cannot be inspected may be anything.
    pub fn mark_inspection_failed(&mut self)
        ensures
            final(self)@ == (AggregateModel { mixed: true, ..old(self)@ }),
    {
        self.mixed = true;
    }

    /// The smallest controller usage.
    pub fn usage(&self) -> (r: Option<(u16, u16)>)
        ensures
            r == first_usage(self@),
            evidence_ok(self@) ==> forall|i: int|
                0 <= i < self@.usages.len() ==> r == Some(#[trigger] self@.usages[i])
                    || usage_before(r->0, self@.usages[i]),
    {
        if self.usages.len() > 0 {
            Some(self.usages[0])
        } else {
            None
        }
    }
}

} // verus!
