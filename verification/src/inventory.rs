//! The controllers among the device nodes, and how an identity is found again.
use crate::devnode::{
    composite_parent, controller_only, first_usage, hid_function, running, switched_off,
    AggregateModel, HidAggregate, NodeModel, RawDevnode, DN_HAS_PROBLEM,
};
use crate::family::{find_node, node_by_devinst, opt_node};
use crate::fingerprint::opt_view;
use crate::interfaces::{evidence, lemma_u32_keys};
use crate::link_collections::{USAGE_GAME_PAD, USAGE_JOYSTICK, USAGE_MULTI_AXIS};
use crate::platform::{
    platform_result, ControlCoverage, ControllerProtocol, DeviceCapabilities, DeviceId,
    DeviceModel, DeviceState, ErrorModel, PlatformDevice, PlatformError, VerifiedDevice,
    VerifiedModel,
};
use crate::sorting::{
    lemma_sorted_views, orders, precedence, sort, sorted_by, sorting_forgets_the_order, views,
    Ranked,
};
use crate::text::{
    contains_text, copy_list, decimal, decimal_of, has_prefix, has_text, join, join_list, joined,
    joined3, lemma_lt_asymmetric, lemma_lt_total, lemma_lt_transitive, less, lt, same,
    starts_with, texts, upper_hex, upper_hex_of, uppered,
};
use crate::wide_text::{
    alike, clean_text, cleaned, normal, normal_forms_forget_case_and_space, normalized, outer_zero,
};
use crate::xusb::{
    companion_name, endangers, exact_xusb_root_devinst, mixed_company, native, related,
    related_mixed_hid_function, related_unsafe_xusb_descendant, root_of, xusb_companion_hint,
    xusb_direct, xusb_related,
};
use std::collections::BTreeMap;
use std::collections::BTreeSet;
use vstd::prelude::*;
use vstd::utf8::encode_utf8;

verus! {

pub const PROBLEM_XINPUT_LIVE: i32 = 7302;

pub const PROBLEM_UNCONTROLLED_FUNCTION: i32 = 7303;

pub const PROBLEM_STATUS_UNKNOWN: i32 = 7304;

/// How far up the connection of a node is looked for.
pub const MAX_CONNECTION_LEVELS: u8 = 8;

// The connection.
pub open spec fn any_text(list: Seq<Seq<char>>, test: spec_fn(Seq<char>) -> bool) -> bool {
    exists|i: int| 0 <= i < list.len() && test(#[trigger] list[i])
}

pub open spec fn by_cable(node: NodeModel) -> bool {
    ||| starts_with(normal(node.instance), "USB\\"@)
    ||| normal(node.enumerator) == "USB"@
    ||| any_text(node.hardware_ids, |id: Seq<char>| starts_with(normal(id), "USB\\"@))
}

pub open spec fn by_radio(node: NodeModel) -> bool {
    ||| starts_with(normal(node.instance), "BTH\\"@)
    ||| starts_with(normal(node.instance), "BTHENUM\\"@)
    ||| contains_text(normal(node.enumerator), "BTH"@)
    ||| any_text(
        node.hardware_ids,
        |id: Seq<char>|
            contains_text(normal(id), "BLUETOOTH"@) || starts_with(normal(id), "BTH"@),
    )
}

/// The connection that the node or the nearest of its next parents names.
pub open spec fn label(
    current: Option<NodeModel>,
    all: Seq<NodeModel>,
    visited: Set<u32>,
    levels: nat,
) -> Seq<char>
    decreases levels,
{
    match current {
        Some(node) => if levels == 0 || visited.contains(node.devinst) {
            "Other"@
        } else if by_cable(node) {
            "USB"@
        } else if by_radio(node) {
            "Bluetooth"@
        } else {
            let next = match node.parent {
                Some(parent) => find_node(all, parent),
                None => None,
            };
            label(next, all, visited.insert(node.devinst), (levels - 1) as nat)
        },
        None => "Other"@,
    }
}

pub open spec fn connection_of(node: NodeModel, all: Seq<NodeModel>) -> Seq<char> {
    label(Some(node), all, Set::empty(), MAX_CONNECTION_LEVELS as nat)
}

fn uses_cable(node: &RawDevnode) -> (r: bool)
    ensures
        r == by_cable(node@),
{
    if has_prefix(normalized(node.instance.as_str()).as_str(), "USB\\") || same(
        normalized(node.enumerator.as_str()).as_str(),
        "USB",
    ) {
        return true;
    }
    let ghost test = |id: Seq<char>| starts_with(normal(id), "USB\\"@);
    let mut i: usize = 0;
    while i < node.hardware_ids.len()
        invariant
            i <= node.hardware_ids@.len(),
            test == (|id: Seq<char>| starts_with(normal(id), "USB\\"@)),
            forall|j: int| 0 <= j < i ==> !test(#[trigger] node@.hardware_ids[j]),
        decreases node.hardware_ids@.len() - i,
    {
        assert(node@.hardware_ids[i as int] == node.hardware_ids@[i as int]@);
        if has_prefix(normalized(node.hardware_ids[i].as_str()).as_str(), "USB\\") {
            assert(test(node@.hardware_ids[i as int]));
            return true;
        }
        i += 1;
    }
    false
}

fn uses_radio(node: &RawDevnode) -> (r: bool)
    ensures
        r == by_radio(node@),
{
    let instance = normalized(node.instance.as_str());
    if has_prefix(instance.as_str(), "BTH\\") || has_prefix(instance.as_str(), "BTHENUM\\")
        || has_text(normalized(node.enumerator.as_str()).as_str(), "BTH") {
        return true;
    }
    let ghost test = |id: Seq<char>|
        contains_text(normal(id), "BLUETOOTH"@) || starts_with(normal(id), "BTH"@);
    let mut i: usize = 0;
    while i < node.hardware_ids.len()
        invariant
            i <= node.hardware_ids@.len(),
            test == (|id: Seq<char>|
                contains_text(normal(id), "BLUETOOTH"@) || starts_with(normal(id), "BTH"@)),
            forall|j: int| 0 <= j < i ==> !test(#[trigger] node@.hardware_ids[j]),
        decreases node.hardware_ids@.len() - i,
    {
        assert(node@.hardware_ids[i as int] == node.hardware_ids@[i as int]@);
        let id = normalized(node.hardware_ids[i].as_str());
        if has_text(id.as_str(), "BLUETOOTH") || has_prefix(id.as_str(), "BTH") {
            assert(test(node@.hardware_ids[i as int]));
            return true;
        }
        i += 1;
    }
    false
}

fn holds_number(list: &[u32], number: u32) -> (r: bool)
    ensures
        r == list@.to_set().contains(number),
{
    let mut i: usize = 0;
    while i < list.len()
        invariant
            i <= list@.len(),
            forall|j: int| 0 <= j < i ==> list@[j] != number,
        decreases list@.len() - i,
    {
        if list[i] == number {
            return true;
        }
        i += 1;
    }
    false
}

pub fn connection_label(node: &RawDevnode, all: &[RawDevnode]) -> (r: String)
    ensures
        r@ == connection_of(node@, views(all@)),
{
    let mut current: Option<&RawDevnode> = Some(node);
    let mut visited: Vec<u32> = Vec::new();
    let mut levels: u8 = MAX_CONNECTION_LEVELS;
    assert(visited@.to_set() =~= Set::<u32>::empty());
    while levels > 0
        invariant
            label(opt_node(current), views(all@), visited@.to_set(), levels as nat)
                == connection_of(node@, views(all@)),
        decreases levels,
    {
        let candidate = match current {
            Some(candidate) => candidate,
            None => {
                return "Other".to_owned();
            },
        };
        if holds_number(visited.as_slice(), candidate.devinst) {
            return "Other".to_owned();
        }
        if uses_cable(candidate) {
            return "USB".to_owned();
        }
        if uses_radio(candidate) {
            return "Bluetooth".to_owned();
        }
        let ghost before = visited@;
        visited.push(candidate.devinst);
        proof {
            assert(visited@.to_set() =~= before.to_set().insert(candidate.devinst)) by {
                assert forall|d: u32| visited@.to_set().contains(d) == before.to_set().insert(
                    candidate.devinst,
                ).contains(d) by {
                    if before.contains(d) {
                        let k = choose|k: int| 0 <= k < before.len() && before[k] == d;
                        assert(visited@[k] == d);
                    }
                    if d == candidate.devinst {
                        assert(visited@[before.len() as int] == d);
                    }
                }
            }
        }
        current = match candidate.parent {
            Some(parent) => node_by_devinst(all, parent),
            None => None,
        };
        levels -= 1;
    }
    "Other".to_owned()
}

// The name.
pub open spec fn usage_name(usage: u16) -> Seq<char> {
    if usage == USAGE_JOYSTICK {
        "HID joystick"@
    } else if usage == USAGE_GAME_PAD {
        "HID game pad"@
    } else if usage == USAGE_MULTI_AXIS {
        "HID multi-axis controller"@
    } else {
        "HID controller"@
    }
}

pub open spec fn name_of(node: NodeModel, usage: u16, hid: bool) -> Seq<char> {
    if cleaned(node.friendly_name).len() > 0 {
        cleaned(node.friendly_name)
    } else if cleaned(node.description).len() > 0 {
        cleaned(node.description)
    } else if cleaned(node.manufacturer).len() > 0 {
        cleaned(node.manufacturer)
    } else if !hid {
        "XUSB/XInput controller"@
    } else {
        usage_name(usage)
    }
}

pub fn display_name(node: &RawDevnode, usage: u16, hid_function: bool) -> (r: String)
    ensures
        r@ == name_of(node@, usage, hid_function),
{
    let friendly = clean_text(node.friendly_name.as_str());
    if !friendly.as_str().is_empty() {
        return friendly;
    }
    let description = clean_text(node.description.as_str());
    if !description.as_str().is_empty() {
        return description;
    }
    let manufacturer = clean_text(node.manufacturer.as_str());
    if !manufacturer.as_str().is_empty() {
        return manufacturer;
    }
    if !hid_function {
        return "XUSB/XInput controller".to_owned();
    }
    if usage == USAGE_JOYSTICK {
        "HID joystick".to_owned()
    } else if usage == USAGE_GAME_PAD {
        "HID game pad".to_owned()
    } else if usage == USAGE_MULTI_AXIS {
        "HID multi-axis controller".to_owned()
    } else {
        "HID controller".to_owned()
    }
}

// Identifiers.
/// Two hexadecimal digits for each byte.
pub open spec fn hex_text(bytes: Seq<u8>) -> Seq<char>
    decreases bytes.len(),
{
    if bytes.len() == 0 {
        Seq::empty()
    } else {
        hex_text(bytes.drop_last()) + upper_hex(bytes.last() as nat, 2)
    }
}

pub fn hex_bytes(value: &str) -> (r: String)
    ensures
        r@ == hex_text(encode_utf8(value@)),
{
    let bytes = value.as_bytes();
    let mut out: String = String::new();
    let mut i: usize = 0;
    assert(bytes@.take(0).len() == 0);
    while i < bytes.len()
        invariant
            i <= bytes@.len(),
            out@ == hex_text(bytes@.take(i as int)),
        decreases bytes@.len() - i,
    {
        assert(bytes@.take(i + 1).drop_last() == bytes@.take(i as int));
        assert(bytes@.take(i + 1).last() == bytes@[i as int]);
        out.append(upper_hex_of(bytes[i] as u64, 2).as_str());
        i += 1;
    }
    assert(bytes@.take(i as int) == bytes@);
    out
}

/// The identifier that is shown for an instance.
pub open spec fn shown_id(instance: Seq<char>) -> Seq<char> {
    "windows-controller-"@ + hex_text(encode_utf8(normal(instance)))
}

pub fn stable_id(instance: &str) -> (r: String)
    ensures
        r@ == shown_id(instance@),
{
    joined("windows-controller-", hex_bytes(normalized(instance).as_str()).as_str())
}

pub open spec fn fnv(seed: u64, bytes: Seq<u8>) -> u64
    decreases bytes.len(),
{
    if bytes.len() == 0 {
        seed
    } else {
        (fnv(seed, bytes.drop_last()) ^ (bytes.last() as u64)).wrapping_mul(0x0000_0100_0000_01B3)
    }
}

pub fn fnv64(seed: u64, bytes: &[u8]) -> (r: u64)
    ensures
        r == fnv(seed, bytes@),
{
    let mut hash: u64 = seed;
    let mut i: usize = 0;
    assert(bytes@.take(0).len() == 0);
    while i < bytes.len()
        invariant
            i <= bytes@.len(),
            hash == fnv(seed, bytes@.take(i as int)),
        decreases bytes@.len() - i,
    {
        assert(bytes@.take(i + 1).drop_last() == bytes@.take(i as int));
        assert(bytes@.take(i + 1).last() == bytes@[i as int]);
        hash = (hash ^ (bytes[i] as u64)).wrapping_mul(0x0000_0100_0000_01B3);
        i += 1;
    }
    assert(bytes@.take(i as int) == bytes@);
    hash
}

impl Ranked for String {
    open spec fn precedes(&self, other: &Self) -> bool {
        lt(self@, other@)
    }

    fn is_before(&self, other: &Self) -> (r: bool) {
        less(self.as_str(), other.as_str())
    }
}

pub open spec fn text_order() -> spec_fn(Seq<char>, Seq<char>) -> bool {
    |a: Seq<char>, b: Seq<char>| lt(a, b)
}

/// The immutable properties of a node in one text.
pub open spec fn properties_of(node: NodeModel, usage_page: u16, usage: u16) -> Seq<char> {
    normal(node.instance) + "|"@ + normal(node.class_name) + "|"@ + normal(node.service) + "|"@
        + normal(node.enumerator) + "|"@ + join(sorted_by(node.hardware_ids, text_order()), ","@)
        + "|"@ + upper_hex(usage_page as nat, 4) + "|"@ + upper_hex(usage as nat, 4)
}

pub open spec fn print_of(node: NodeModel, usage_page: u16, usage: u16) -> Seq<char> {
    let bytes = encode_utf8(properties_of(node, usage_page, usage));
    "windows-fingerprint-"@ + upper_hex(fnv(0xCBF2_9CE4_8422_2325, bytes) as nat, 16) + upper_hex(
        fnv(0x8422_2325_CBF2_9CE4, bytes) as nat,
        16,
    )
}

pub fn fingerprint(node: &RawDevnode, usage_page: u16, usage: u16) -> (r: String)
    ensures
        r@ == print_of(node@, usage_page, usage),
{
    let hardware = sort(copy_list(node.hardware_ids.as_slice()));
    proof {
        lemma_sorted_views(node.hardware_ids@, precedence::<String>(), text_order());
        assert(views(hardware@) == texts(hardware@));
        assert(views(node.hardware_ids@) == texts(node.hardware_ids@));
    }
    let mut text = normalized(node.instance.as_str());
    text.append("|");
    text.append(normalized(node.class_name.as_str()).as_str());
    text.append("|");
    text.append(normalized(node.service.as_str()).as_str());
    text.append("|");
    text.append(normalized(node.enumerator.as_str()).as_str());
    text.append("|");
    text.append(join_list(hardware.as_slice(), ",").as_str());
    text.append("|");
    text.append(upper_hex_of(usage_page as u64, 4).as_str());
    text.append("|");
    text.append(upper_hex_of(usage as u64, 4).as_str());
    let bytes = text.as_str().as_bytes();
    let first: u64 = fnv64(0xCBF2_9CE4_8422_2325, bytes);
    let second: u64 = fnv64(0x8422_2325_CBF2_9CE4, bytes);
    joined3(
        "windows-fingerprint-",
        upper_hex_of(first, 16).as_str(),
        upper_hex_of(second, 16).as_str(),
    )
}

proof fn lemma_byte_digits(a: u8, b: u8)
    ensures
        upper_hex(a as nat, 2).len() == 2,
        upper_hex(a as nat, 2) == upper_hex(b as nat, 2) ==> a == b,
{
    reveal_with_fuel(crate::text::hex_digits, 3);
    let x = crate::text::hex_digits(a as nat, 2);
    let y = crate::text::hex_digits(b as nat, 2);
    assert(x == seq![
        crate::text::digit_char((a / 16) as nat % 16),
        crate::text::digit_char(a as nat % 16),
    ]);
    assert(y == seq![
        crate::text::digit_char((b / 16) as nat % 16),
        crate::text::digit_char(b as nat % 16),
    ]);
    if upper_hex(a as nat, 2) == upper_hex(b as nat, 2) {
        assert(upper_hex(a as nat, 2)[0] == upper_hex(b as nat, 2)[0]);
        assert(upper_hex(a as nat, 2)[1] == upper_hex(b as nat, 2)[1]);
        assert(crate::text::upper(x[0]) == crate::text::upper(y[0]));
        assert(crate::text::upper(x[1]) == crate::text::upper(y[1]));
    }
}

proof fn lemma_hex_text(a: Seq<u8>, b: Seq<u8>)
    requires
        hex_text(a) == hex_text(b),
    ensures
        a == b,
    decreases a.len(),
{
    lemma_hex_length(a);
    lemma_hex_length(b);
    if a.len() > 0 {
        let x = a.drop_last();
        let y = b.drop_last();
        lemma_hex_length(x);
        lemma_hex_length(y);
        lemma_byte_digits(a.last(), b.last());
        lemma_byte_digits(b.last(), a.last());
        let n = 2 * x.len() as int;
        assert(hex_text(a).take(n) == hex_text(x));
        assert(hex_text(b).take(n) == hex_text(y));
        assert(hex_text(a).skip(n) == upper_hex(a.last() as nat, 2));
        assert(hex_text(b).skip(n) == upper_hex(b.last() as nat, 2));
        lemma_hex_text(x, y);
        assert(a == x.push(a.last()));
        assert(b == y.push(b.last()));
    } else {
        assert(a == b);
    }
}

proof fn lemma_hex_length(a: Seq<u8>)
    ensures
        hex_text(a).len() == 2 * a.len(),
    decreases a.len(),
{
    if a.len() > 0 {
        lemma_hex_length(a.drop_last());
        lemma_byte_digits(a.last(), a.last());
    }
}

/// Two instances have the same identifier exactly if their names have the same
/// normal form.
pub proof fn identifiers_tell_instances_apart(a: Seq<char>, b: Seq<char>)
    ensures
        shown_id(a) == shown_id(b) <==> normal(a) == normal(b),
{
    if shown_id(a) == shown_id(b) {
        let x = encode_utf8(normal(a));
        let y = encode_utf8(normal(b));
        let n = "windows-controller-"@.len() as int;
        assert(shown_id(a).skip(n) == hex_text(x));
        assert(shown_id(b).skip(n) == hex_text(y));
        lemma_hex_text(x, y);
        vstd::utf8::encode_utf8_decode_utf8(normal(a));
        vstd::utf8::encode_utf8_decode_utf8(normal(b));
    }
}

/// Fields that name the same thing to the fingerprint: they differ in case and
/// in outer white space, and in case only where a zero stands at an end.
pub open spec fn same_field(a: Seq<char>, b: Seq<char>) -> bool {
    alike(a, b) && (uppered(a) == uppered(b) || !outer_zero(a) && !outer_zero(b))
}

pub open spec fn is_upper_hex(c: char) -> bool {
    '0' <= c <= '9' || 'A' <= c <= 'F'
}

proof fn lemma_upper_hex(n: nat, width: nat)
    ensures
        upper_hex(n, width).len() == width,
        forall|i: int| 0 <= i < width ==> is_upper_hex(#[trigger] upper_hex(n, width)[i]),
    decreases width,
{
    if width > 0 {
        let shorter = (width - 1) as nat;
        lemma_upper_hex(n / 16, shorter);
        assert forall|i: int| 0 <= i < width implies is_upper_hex(
            #[trigger] upper_hex(n, width)[i],
        ) by {
            if i < shorter {
                assert(upper_hex(n, width)[i] == upper_hex(n / 16, shorter)[i]);
            } else {
                assert(upper_hex(n, width)[i] == crate::text::upper(
                    crate::text::digit_char(n % 16),
                ));
            }
        }
    }
}

proof fn lemma_text_order()
    ensures
        orders(text_order()),
        forall|a: Seq<char>, b: Seq<char>|
            #![trigger text_order()(a, b)]
            !text_order()(a, b) && !text_order()(b, a) ==> a == b,
{
    let before = text_order();
    assert forall|a: Seq<char>, b: Seq<char>| #[trigger] before(a, b) implies !before(b, a) by {
        lemma_lt_asymmetric(a, b);
    }
    assert forall|a: Seq<char>, b: Seq<char>, c: Seq<char>|
        (#[trigger] before(a, b)) && !(#[trigger] before(c, b)) implies before(a, c) by {
        lemma_lt_total(b, c);
        if lt(b, c) {
            lemma_lt_transitive(a, b, c);
        }
    }
    assert forall|a: Seq<char>, b: Seq<char>|
        #![trigger before(a, b)]
        !before(a, b) && !before(b, a) implies a == b by {
        lemma_lt_total(a, b);
    }
}

/// Case, outer white space and the order of the hardware identifiers do not
/// matter to a fingerprint, and neither does anything else of a node but the
/// four names and those identifiers.
pub proof fn fingerprints_forget_case_space_and_order(
    a: NodeModel,
    b: NodeModel,
    usage_page: u16,
    usage: u16,
)
    requires
        same_field(a.instance, b.instance),
        same_field(a.class_name, b.class_name),
        same_field(a.service, b.service),
        same_field(a.enumerator, b.enumerator),
        a.hardware_ids.to_multiset() == b.hardware_ids.to_multiset(),
    ensures
        print_of(a, usage_page, usage) == print_of(b, usage_page, usage),
{
    normal_forms_forget_case_and_space(a.instance, b.instance);
    normal_forms_forget_case_and_space(a.class_name, b.class_name);
    normal_forms_forget_case_and_space(a.service, b.service);
    normal_forms_forget_case_and_space(a.enumerator, b.enumerator);
    lemma_text_order();
    sorting_forgets_the_order(a.hardware_ids, b.hardware_ids, text_order());
}

/// A fingerprint is its prefix and thirty-two hexadecimal digits in upper case.
pub proof fn fingerprints_have_one_shape(node: NodeModel, usage_page: u16, usage: u16)
    ensures
        starts_with(print_of(node, usage_page, usage), "windows-fingerprint-"@),
        print_of(node, usage_page, usage).len() == "windows-fingerprint-"@.len() + 32,
        forall|i: int|
            "windows-fingerprint-"@.len() <= i < print_of(node, usage_page, usage).len()
                ==> is_upper_hex(#[trigger] print_of(node, usage_page, usage)[i]),
{
    let bytes = encode_utf8(properties_of(node, usage_page, usage));
    let first = fnv(0xCBF2_9CE4_8422_2325, bytes) as nat;
    let second = fnv(0x8422_2325_CBF2_9CE4, bytes) as nat;
    let prefix = "windows-fingerprint-"@;
    let all = print_of(node, usage_page, usage);
    lemma_upper_hex(first, 16);
    lemma_upper_hex(second, 16);
    assert(all.take(prefix.len() as int) =~= prefix);
    assert forall|i: int| prefix.len() <= i < all.len() implies is_upper_hex(#[trigger] all[i]) by {
        if i < prefix.len() + 16 {
            assert(all[i] == upper_hex(first, 16)[i - prefix.len()]);
        } else {
            assert(all[i] == upper_hex(second, 16)[i - prefix.len() - 16]);
        }
    }
}

// Devices.
/// What is said of a controller that cannot be switched off entirely.
pub open spec fn limitation(coverage: ControlCoverage) -> Option<Seq<char>> {
    match coverage {
        ControlCoverage::Full => None,
        ControlCoverage::HidOnly => Some(
            "only the validated HID function is controllable; the XInput/XUSB path remains live"@,
        ),
        ControlCoverage::Uncontrolled => Some(
            "controller function coverage is ambiguous; the XInput/XUSB path remains live and disable is refused"@,
        ),
    }
}

pub fn control_limitation(coverage: ControlCoverage) -> (r: Option<&'static str>)
    ensures
        (match r {
            Some(s) => Some(s@),
            None => None,
        }) == limitation(coverage),
{
    match coverage {
        ControlCoverage::Full => None,
        ControlCoverage::HidOnly => Some(
            "only the validated HID function is controllable; the XInput/XUSB path remains live",
        ),
        ControlCoverage::Uncontrolled => Some(
            "controller function coverage is ambiguous; the XInput/XUSB path remains live and disable is refused",
        ),
    }
}

/// The problem that is shown: none of a node that someone switched off, else
/// what the system reports, else what limits the control.
pub open spec fn shown_problem(node: NodeModel, coverage: ControlCoverage) -> Option<i32> {
    if switched_off(node) {
        None
    } else if node.problem is Some {
        node.problem
    } else if node.status_known && node.status & DN_HAS_PROBLEM != 0 {
        Some(PROBLEM_STATUS_UNKNOWN)
    } else {
        match coverage {
            ControlCoverage::Full => None,
            ControlCoverage::HidOnly => Some(PROBLEM_XINPUT_LIVE),
            ControlCoverage::Uncontrolled => Some(PROBLEM_UNCONTROLLED_FUNCTION),
        }
    }
}

pub open spec fn device_of(
    node: NodeModel,
    identity: VerifiedModel,
    hid: bool,
    all: Seq<NodeModel>,
) -> Option<DeviceModel> {
    let connection = connection_of(node, all);
    match running(node) {
        None => None,
        Some(enabled) => Some(
            DeviceModel {
                id: identity.stable_id,
                name: name_of(node, identity.usage, hid),
                connection,
                enabled,
                capabilities: DeviceCapabilities {
                    hid,
                    gamepad: identity.protocol == ControllerProtocol::Xusb || identity.usage
                        == USAGE_GAME_PAD || identity.usage == USAGE_MULTI_AXIS,
                    joystick: identity.usage == USAGE_JOYSTICK || identity.usage
                        == USAGE_MULTI_AXIS,
                    xinput: identity.protocol == ControllerProtocol::Xusb,
                    usb: connection == "USB"@,
                    bluetooth: connection == "Bluetooth"@,
                    full_control: identity.coverage == ControlCoverage::Full,
                },
                coverage: identity.coverage,
                problem_code: shown_problem(node, identity.coverage),
                verified: Some(identity),
            },
        ),
    }
}

pub fn platform_device(
    node: &RawDevnode,
    identity: VerifiedDevice,
    hid_function: bool,
    all: &[RawDevnode],
) -> (r: Option<PlatformDevice>)
    ensures
        opt_view(r) == device_of(node@, identity@, hid_function, views(all@)),
{
    let connection = connection_label(node, all);
    let coverage = identity.coverage;
    let problem_code: Option<i32> = if node.administratively_disabled() {
        None
    } else if node.problem.is_some() {
        node.problem
    } else if node.status_known && node.status & DN_HAS_PROBLEM != 0 {
        Some(PROBLEM_STATUS_UNKNOWN)
    } else {
        match coverage {
            ControlCoverage::Full => None,
            ControlCoverage::HidOnly => Some(PROBLEM_XINPUT_LIVE),
            ControlCoverage::Uncontrolled => Some(PROBLEM_UNCONTROLLED_FUNCTION),
        }
    };
    let enabled = node.enabled()?;
    let usb = same(connection.as_str(), "USB");
    let bluetooth = same(connection.as_str(), "Bluetooth");
    let xinput = identity.protocol == ControllerProtocol::Xusb;
    let device = PlatformDevice {
        id: DeviceId(identity.stable_id.clone()),
        name: display_name(node, identity.usage, hid_function),
        connection,
        state: DeviceState { enabled },
        capabilities: DeviceCapabilities {
            hid: hid_function,
            gamepad: xinput || identity.usage == USAGE_GAME_PAD || identity.usage
                == USAGE_MULTI_AXIS,
            joystick: identity.usage == USAGE_JOYSTICK || identity.usage == USAGE_MULTI_AXIS,
            xinput,
            usb,
            bluetooth,
            full_control: coverage == ControlCoverage::Full,
        },
        coverage,
        problem_code,
        verified: Some(identity),
    };
    Some(device)
}

// Records.
/// A controller: its node, its identity and what is shown of it.
#[derive(Clone, Debug)]
pub struct ControllerRecord {
    pub node: RawDevnode,
    pub identity: VerifiedDevice,
    pub device: PlatformDevice,
}

pub struct FoundModel {
    pub node: NodeModel,
    pub identity: VerifiedModel,
    pub device: DeviceModel,
}

impl View for ControllerRecord {
    type V = FoundModel;

    open spec fn view(&self) -> FoundModel {
        FoundModel { node: self.node@, identity: self.identity@, device: self.device@ }
    }
}

impl ControllerRecord {
    pub fn copy(&self) -> (r: Self)
        ensures
            r@ == self@,
    {
        ControllerRecord {
            node: self.node.copy(),
            identity: self.identity.copy(),
            device: self.device.copy(),
        }
    }
}

pub open spec fn identity_for(
    node: NodeModel,
    protocol: ControllerProtocol,
    coverage: ControlCoverage,
    usage_page: u16,
    usage: u16,
) -> VerifiedModel {
    VerifiedModel {
        platform: "windows"@,
        stable_id: shown_id(node.instance),
        instance_id: node.instance,
        fingerprint: print_of(node, usage_page, usage),
        protocol,
        coverage,
        usage_page,
        usage,
    }
}

pub open spec fn found(
    node: NodeModel,
    identity: VerifiedModel,
    hid: bool,
    all: Seq<NodeModel>,
) -> Option<FoundModel> {
    match device_of(node, identity, hid, all) {
        Some(device) => Some(FoundModel { node, identity, device }),
        None => None,
    }
}

fn make_identity(
    node: &RawDevnode,
    protocol: ControllerProtocol,
    coverage: ControlCoverage,
    usage_page: u16,
    usage: u16,
) -> (r: VerifiedDevice)
    ensures
        r@ == identity_for(node@, protocol, coverage, usage_page, usage),
{
    VerifiedDevice {
        platform: "windows".to_owned(),
        stable_id: stable_id(node.instance.as_str()),
        instance_id: node.instance.clone(),
        fingerprint: fingerprint(node, usage_page, usage),
        protocol,
        coverage,
        usage_page,
        usage,
    }
}

fn make_record(
    node: &RawDevnode,
    identity: VerifiedDevice,
    hid: bool,
    nodes: &[RawDevnode],
) -> (r: Option<ControllerRecord>)
    ensures
        opt_view(r) == found(node@, identity@, hid, views(nodes@)),
{
    let device = platform_device(node, identity.copy(), hid, nodes)?;
    Some(ControllerRecord { node: node.copy(), identity, device })
}

/// The native function of a node was switched off.
pub open spec fn root_switched_off(node: NodeModel, nodes: Seq<NodeModel>) -> bool {
    match root_of(node, nodes, false) {
        Some(root) => match find_node(nodes, root) {
            Some(n) => switched_off(n),
            None => false,
        },
        None => false,
    }
}

/// The record of a HID function.  Where a native function stands behind it and
/// can be switched off safely, that one is the row of the controller.
pub open spec fn hid_record(
    node: NodeModel,
    aggregate: AggregateModel,
    nodes: Seq<NodeModel>,
    hid: Map<u32, AggregateModel>,
) -> Option<FoundModel> {
    let behind = related(node, nodes).len() > 0;
    let unsafe_hid = endangers(
        node,
        nodes,
        hid,
        switched_off(node) || root_switched_off(node, nodes),
    );
    if !node.status_known || !controller_only(aggregate) || mixed_company(node, nodes, hid)
        || composite_parent(node) || first_usage(aggregate) is None || (behind && !unsafe_hid) {
        None
    } else {
        let usage = first_usage(aggregate)->0;
        let protocol = if behind {
            ControllerProtocol::Xusb
        } else {
            ControllerProtocol::HidGamepad
        };
        let coverage = if !behind && !companion_name(node) && hid_function(node) {
            ControlCoverage::Full
        } else {
            ControlCoverage::Uncontrolled
        };
        found(node, identity_for(node, protocol, coverage, usage.0, usage.1), true, nodes)
    }
}

fn is_root_switched_off(node: &RawDevnode, nodes: &[RawDevnode]) -> (r: bool)
    ensures
        r == root_switched_off(node@, views(nodes@)),
{
    match exact_xusb_root_devinst(node, nodes) {
        Some(root) => match node_by_devinst(nodes, root) {
            Some(n) => n.administratively_disabled(),
            None => false,
        },
        None => false,
    }
}

pub fn build_record(
    node: &RawDevnode,
    aggregate: &HidAggregate,
    nodes: &[RawDevnode],
    all_hid: &BTreeMap<u32, HidAggregate>,
) -> (r: Option<ControllerRecord>)
    ensures
        opt_view(r) == hid_record(node@, aggregate@, views(nodes@), evidence(all_hid@)),
{
    if !node.status_known || !aggregate.allowed || aggregate.disallowed || aggregate.mixed
        || related_mixed_hid_function(node, nodes, all_hid) || node.is_composite_parent() {
        return None;
    }
    let (usage_page, usage) = aggregate.usage()?;
    let behind_nodes = xusb_related(node, nodes);
    let behind = behind_nodes.len() > 0;
    proof {
        assert(crate::xusb::ref_views(behind_nodes@).len() == behind_nodes@.len());
    }
    let allow_unobserved_hid = node.administratively_disabled() || is_root_switched_off(
        node,
        nodes,
    );
    if behind && !related_unsafe_xusb_descendant(node, nodes, all_hid, allow_unobserved_hid) {
        return None;
    }
    let protocol = if behind {
        ControllerProtocol::Xusb
    } else {
        ControllerProtocol::HidGamepad
    };
    let coverage = if !behind && !xusb_companion_hint(node) && node.is_hid_function() {
        ControlCoverage::Full
    } else {
        ControlCoverage::Uncontrolled
    };
    let identity = make_identity(node, protocol, coverage, usage_page, usage);
    make_record(node, identity, true, nodes)
}

/// The record of a native function.  It is no HID collection and has no usage.
pub open spec fn native_record(
    node: NodeModel,
    nodes: Seq<NodeModel>,
    hid: Map<u32, AggregateModel>,
) -> Option<FoundModel> {
    if !node.status_known || !native(node) || hid.contains_key(node.devinst) {
        None
    } else {
        let coverage = if endangers(node, nodes, hid, switched_off(node)) {
            ControlCoverage::Uncontrolled
        } else {
            ControlCoverage::Full
        };
        found(node, identity_for(node, ControllerProtocol::Xusb, coverage, 0, 0), false, nodes)
    }
}

pub fn build_xusb_record(
    node: &RawDevnode,
    nodes: &[RawDevnode],
    all_hid: &BTreeMap<u32, HidAggregate>,
) -> (r: Option<ControllerRecord>)
    ensures
        opt_view(r) == native_record(node@, views(nodes@), evidence(all_hid@)),
{
    if !node.status_known || !xusb_direct(node) || crate::xusb::evidence_for(
        all_hid,
        node.devinst,
    ).is_some() {
        return None;
    }
    let coverage = if related_unsafe_xusb_descendant(
        node,
        nodes,
        all_hid,
        node.administratively_disabled(),
    ) {
        ControlCoverage::Uncontrolled
    } else {
        ControlCoverage::Full
    };
    let identity = make_identity(node, ControllerProtocol::Xusb, coverage, 0, 0);
    make_record(node, identity, false, nodes)
}

// The scan.
/// Everything that one look at the system showed.
#[derive(Debug)]
pub struct Inventory {
    pub nodes: Vec<RawDevnode>,
    pub hid: BTreeMap<u32, HidAggregate>,
    pub records: Vec<ControllerRecord>,
    pub errors: Vec<String>,
}

pub struct InventoryModel {
    pub nodes: Seq<NodeModel>,
    pub hid: Map<u32, AggregateModel>,
    pub records: Seq<FoundModel>,
    pub errors: Seq<Seq<char>>,
}

impl View for Inventory {
    type V = InventoryModel;

    open spec fn view(&self) -> InventoryModel {
        InventoryModel {
            nodes: views(self.nodes@),
            hid: evidence(self.hid@),
            records: views(self.records@),
            errors: texts(self.errors@),
        }
    }
}

/// The last node with a number.
pub open spec fn last_node(all: Seq<NodeModel>, devinst: u32) -> Option<NodeModel>
    decreases all.len(),
{
    if all.len() == 0 {
        None
    } else if all.last().devinst == devinst {
        Some(all.last())
    } else {
        last_node(all.drop_last(), devinst)
    }
}

fn node_from_end<'a>(all: &'a [RawDevnode], devinst: u32) -> (r: Option<&'a RawDevnode>)
    ensures
        opt_node(r) == last_node(views(all@), devinst),
{
    let mut i: usize = all.len();
    assert(views(all@).take(i as int) == views(all@));
    while i > 0
        invariant
            i <= all@.len(),
            last_node(views(all@).take(i as int), devinst) == last_node(views(all@), devinst),
        decreases i,
    {
        assert(views(all@).take(i as int).last() == all@[i - 1]@);
        if all[i - 1].devinst == devinst {
            return Some(&all[i - 1]);
        }
        assert(views(all@).take(i as int).drop_last() == views(all@).take(i - 1));
        i -= 1;
    }
    assert(views(all@).take(0).len() == 0);
    None
}

/// Integers serve as keys.
spec fn u32_keys() -> bool {
    vstd::laws_cmp::obeys_cmp::<u32>()
}

/// The nodes with the native interfaces marked.
pub open spec fn with_native(nodes: Seq<NodeModel>, devinsts: Set<u32>) -> Seq<NodeModel> {
    nodes.map_values(
        |n: NodeModel| (NodeModel { xusb_interface: devinsts.contains(n.devinst), ..n }),
    )
}

fn mark_native(nodes: &[RawDevnode], devinsts: &BTreeSet<u32>) -> (r: Vec<RawDevnode>)
    ensures
        views(r@) == with_native(views(nodes@), devinsts@),
{
    proof {
        lemma_u32_keys();
    }
    let ghost goal = with_native(views(nodes@), devinsts@);
    let mut out: Vec<RawDevnode> = Vec::new();
    let mut i: usize = 0;
    assert(views(out@) == goal.take(0));
    while i < nodes.len()
        invariant
            i <= nodes@.len(),
            u32_keys(),
            goal == with_native(views(nodes@), devinsts@),
            views(out@) == goal.take(i as int),
        decreases nodes@.len() - i,
    {
        let mut node = nodes[i].copy();
        node.xusb_interface = devinsts.contains(&node.devinst);
        let ghost before = views(out@);
        out.push(node);
        assert(views(out@) == before.push(node@));
        assert(goal[i as int] == node@);
        i += 1;
    }
    assert(views(out@) == goal);
    out
}

/// The rows of a scan so far, and what was noted.
pub struct Rows {
    pub records: Seq<FoundModel>,
    pub errors: Seq<Seq<char>>,
}

pub open spec fn with_row(rows: Rows, record: Option<FoundModel>) -> Rows {
    match record {
        Some(record) => Rows { records: rows.records.push(record), ..rows },
        None => rows,
    }
}

pub open spec fn with_note(rows: Rows, note: Seq<char>) -> Rows {
    Rows { errors: rows.errors.push(note), ..rows }
}

/// The row of one observed HID node.
pub open spec fn hid_row(
    rows: Rows,
    devinst: u32,
    nodes: Seq<NodeModel>,
    hid: Map<u32, AggregateModel>,
) -> Rows {
    match last_node(nodes, devinst) {
        None => with_note(
            rows,
            "HID devnode "@ + decimal(devinst as nat) + " was not present in the all-class scan"@,
        ),
        Some(node) => if !node.status_known {
            if hid[devinst].allowed {
                with_note(
                    rows,
                    "HID controller devnode "@ + decimal(devinst as nat)
                        + " has no authoritative Configuration Manager status"@,
                )
            } else {
                rows
            }
        } else {
            with_row(rows, hid_record(node, hid[devinst], nodes, hid))
        },
    }
}

pub open spec fn hid_rows(
    rows: Rows,
    keys: Seq<u32>,
    nodes: Seq<NodeModel>,
    hid: Map<u32, AggregateModel>,
) -> Rows
    decreases keys.len(),
{
    if keys.len() == 0 {
        rows
    } else {
        hid_row(hid_rows(rows, keys.drop_last(), nodes, hid), keys.last(), nodes, hid)
    }
}

/// The row of one node, if it is a native function.
pub open spec fn native_row(
    rows: Rows,
    node: NodeModel,
    nodes: Seq<NodeModel>,
    hid: Map<u32, AggregateModel>,
) -> Rows {
    if !node.status_known {
        if node.xusb_interface {
            with_note(
                rows,
                "XUSB controller devnode "@ + decimal(node.devinst as nat)
                    + " has no authoritative Configuration Manager status"@,
            )
        } else {
            rows
        }
    } else {
        with_row(rows, native_record(node, nodes, hid))
    }
}

pub open spec fn native_rows(
    rows: Rows,
    list: Seq<NodeModel>,
    nodes: Seq<NodeModel>,
    hid: Map<u32, AggregateModel>,
) -> Rows
    decreases list.len(),
{
    if list.len() == 0 {
        rows
    } else {
        native_row(native_rows(rows, list.drop_last(), nodes, hid), list.last(), nodes, hid)
    }
}

impl Ranked for ControllerRecord {
    open spec fn precedes(&self, other: &Self) -> bool {
        lt(self.identity.stable_id@, other.identity.stable_id@)
    }

    fn is_before(&self, other: &Self) -> (r: bool) {
        less(self.identity.stable_id.as_str(), other.identity.stable_id.as_str())
    }
}

pub open spec fn record_order() -> spec_fn(FoundModel, FoundModel) -> bool {
    |a: FoundModel, b: FoundModel| lt(a.identity.stable_id, b.identity.stable_id)
}

/// The records without those that repeat the identifier of the one before.
pub open spec fn without_repeats(records: Seq<FoundModel>) -> Seq<FoundModel>
    decreases records.len(),
{
    if records.len() == 0 {
        records
    } else {
        let head = without_repeats(records.drop_last());
        if head.len() > 0 && head.last().identity.stable_id == records.last().identity.stable_id {
            head
        } else {
            head.push(records.last())
        }
    }
}

/// What a scan says.  It is refused as a whole when the native interfaces could
/// not all be listed.
pub open spec fn scanned(
    nodes: Seq<NodeModel>,
    devinsts: Set<u32>,
    xusb_errors: Seq<Seq<char>>,
    hid: Map<u32, AggregateModel>,
    hid_errors: Seq<Seq<char>>,
) -> Result<InventoryModel, ErrorModel> {
    if xusb_errors.len() > 0 {
        Err(
            ErrorModel::OperationFailed(
                "XUSB interface enumeration was not authoritative: "@ + join(xusb_errors, "; "@),
            ),
        )
    } else {
        let all = with_native(nodes, devinsts);
        let start = Rows { records: Seq::empty(), errors: hid_errors };
        let rows = native_rows(
            hid_rows(start, crate::interfaces::ascending(hid.dom()), all, hid),
            all,
            all,
            hid,
        );
        Ok(
            InventoryModel {
                nodes: all,
                hid,
                records: without_repeats(sorted_by(rows.records, record_order())),
                errors: rows.errors,
            },
        )
    }
}

fn rows_of_hid(
    keys: &[u32],
    nodes: &[RawDevnode],
    hid: &BTreeMap<u32, HidAggregate>,
    records: &mut Vec<ControllerRecord>,
    errors: &mut Vec<String>,
)
    requires
        forall|i: int| 0 <= i < keys@.len() ==> hid@.contains_key(#[trigger] keys@[i]),
    ensures
        (Rows { records: views(final(records)@), errors: texts(final(errors)@) }) == hid_rows(
            Rows { records: views(old(records)@), errors: texts(old(errors)@) },
            keys@,
            views(nodes@),
            evidence(hid@),
        ),
{
    let ghost start = Rows { records: views(records@), errors: texts(errors@) };
    let mut i: usize = 0;
    assert(keys@.take(0).len() == 0);
    while i < keys.len()
        invariant
            i <= keys@.len(),
            forall|i: int| 0 <= i < keys@.len() ==> hid@.contains_key(#[trigger] keys@[i]),
            (Rows { records: views(records@), errors: texts(errors@) }) == hid_rows(
                start,
                keys@.take(i as int),
                views(nodes@),
                evidence(hid@),
            ),
        decreases keys@.len() - i,
    {
        let devinst: u32 = keys[i];
        let ghost rows = Rows { records: views(records@), errors: texts(errors@) };
        proof {
            assert(keys@.take(i + 1).drop_last() == keys@.take(i as int));
            assert(keys@.take(i + 1).last() == devinst);
            assert(hid@.contains_key(keys@[i as int]));
        }
        match node_from_end(nodes, devinst) {
            None => {
                let note = joined3(
                    "HID devnode ",
                    decimal_of(devinst as u64).as_str(),
                    " was not present in the all-class scan",
                );
                errors.push(note);
                assert(texts(errors@) == rows.errors.push(note@));
            },
            Some(node) => {
                match crate::xusb::evidence_for(hid, devinst) {
                    Some(aggregate) => {
                        if !node.status_known {
                            if aggregate.allowed {
                                let note = joined3(
                                    "HID controller devnode ",
                                    decimal_of(devinst as u64).as_str(),
                                    " has no authoritative Configuration Manager status",
                                );
                                errors.push(note);
                                assert(texts(errors@) == rows.errors.push(note@));
                            }
                        } else {
                            match build_record(node, aggregate, nodes, hid) {
                                Some(record) => {
                                    records.push(record);
                                    assert(views(records@) == rows.records.push(record@));
                                },
                                None => {},
                            }
                        }
                    },
                    None => {},
                }
            },
        }
        i += 1;
    }
    assert(keys@.take(i as int) == keys@);
}

fn rows_of_native(
    nodes: &[RawDevnode],
    hid: &BTreeMap<u32, HidAggregate>,
    records: &mut Vec<ControllerRecord>,
    errors: &mut Vec<String>,
)
    ensures
        (Rows { records: views(final(records)@), errors: texts(final(errors)@) }) == native_rows(
            Rows { records: views(old(records)@), errors: texts(old(errors)@) },
            views(nodes@),
            views(nodes@),
            evidence(hid@),
        ),
{
    let ghost start = Rows { records: views(records@), errors: texts(errors@) };
    let ghost list = views(nodes@);
    let mut i: usize = 0;
    assert(list.take(0).len() == 0);
    while i < nodes.len()
        invariant
            i <= nodes@.len(),
            list == views(nodes@),
            (Rows { records: views(records@), errors: texts(errors@) }) == native_rows(
                start,
                list.take(i as int),
                list,
                evidence(hid@),
            ),
        decreases nodes@.len() - i,
    {
        let node = &nodes[i];
        let ghost rows = Rows { records: views(records@), errors: texts(errors@) };
        proof {
            assert(list.take(i + 1).drop_last() == list.take(i as int));
            assert(list.take(i + 1).last() == node@);
        }
        if !node.status_known {
            if node.xusb_interface {
                let note = joined3(
                    "XUSB controller devnode ",
                    decimal_of(node.devinst as u64).as_str(),
                    " has no authoritative Configuration Manager status",
                );
                errors.push(note);
                assert(texts(errors@) == rows.errors.push(note@));
            }
        } else {
            match build_xusb_record(node, nodes, hid) {
                Some(record) => {
                    records.push(record);
                    assert(views(records@) == rows.records.push(record@));
                },
                None => {},
            }
        }
        i += 1;
    }
    assert(list.take(i as int) == list);
}

fn drop_repeats(records: &[ControllerRecord]) -> (r: Vec<ControllerRecord>)
    ensures
        views(r@) == without_repeats(views(records@)),
{
    let ghost list = views(records@);
    let mut out: Vec<ControllerRecord> = Vec::new();
    let mut i: usize = 0;
    assert(list.take(0).len() == 0);
    assert(views(out@) == without_repeats(list.take(0)));
    while i < records.len()
        invariant
            i <= records@.len(),
            list == views(records@),
            views(out@) == without_repeats(list.take(i as int)),
        decreases records@.len() - i,
    {
        let record = &records[i];
        let ghost head = views(out@);
        proof {
            assert(list.take(i + 1).drop_last() == list.take(i as int));
            assert(list.take(i + 1).last() == record@);
            assert(out@.len() > 0 ==> head.last() == out@.last()@);
        }
        if out.len() == 0 || !same(
            out[out.len() - 1].identity.stable_id.as_str(),
            record.identity.stable_id.as_str(),
        ) {
            let kept = record.copy();
            out.push(kept);
            assert(views(out@) == head.push(record@));
        }
        i += 1;
    }
    assert(list.take(i as int) == list);
    out
}

/// Builds the inventory from what the system listed.
pub fn scan_inventory(
    nodes: &[RawDevnode],
    xusb_devinsts: &BTreeSet<u32>,
    xusb_errors: &[String],
    hid: BTreeMap<u32, HidAggregate>,
    hid_errors: Vec<String>,
) -> (r: Result<Inventory, PlatformError>)
    ensures
        platform_result(r) == scanned(
            views(nodes@),
            xusb_devinsts@,
            texts(xusb_errors@),
            evidence(hid@),
            texts(hid_errors@),
        ),
{
    if xusb_errors.len() > 0 {
        return Err(
            PlatformError::OperationFailed(
                joined(
                    "XUSB interface enumeration was not authoritative: ",
                    join_list(xusb_errors, "; ").as_str(),
                ),
            ),
        );
    }
    let nodes = mark_native(nodes, xusb_devinsts);
    let mut errors = hid_errors;
    let mut records: Vec<ControllerRecord> = Vec::new();
    assert(views(records@) == Seq::<FoundModel>::empty());
    let keys = crate::interfaces::ascending_keys(&hid);
    proof {
        assert forall|i: int| 0 <= i < keys@.len() implies hid@.contains_key(
            #[trigger] keys@[i],
        ) by {
            assert(keys@.to_set().contains(keys@[i]));
        }
        assert(evidence(hid@).dom() =~= hid@.dom());
    }
    rows_of_hid(keys.as_slice(), nodes.as_slice(), &hid, &mut records, &mut errors);
    rows_of_native(nodes.as_slice(), &hid, &mut records, &mut errors);
    proof {
        lemma_sorted_views(records@, precedence::<ControllerRecord>(), record_order());
    }
    let records = sort(records);
    let records = drop_repeats(records.as_slice());
    Ok(Inventory { nodes, hid, records, errors })
}

} // verus!
