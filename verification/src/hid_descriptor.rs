//! Bounded HID report-descriptor classification.
//!
//! The parser follows the HID short-item state machine; it does not search the
//! descriptor bytes for usages that look like a controller.  The model of the
//! parser is `ParserModel`, and `run` says what a run over a byte sequence
//! leaves behind.
use crate::text::{joined, text_result};
use vstd::prelude::*;

verus! {

pub const MAX_DESCRIPTOR_BYTES: usize = 131072;

pub const MAX_COLLECTION_DEPTH: usize = 32;

pub const MAX_GLOBAL_STACK_DEPTH: usize = 32;

pub const MAX_LOCAL_USAGES: usize = 64;

pub const MAX_LOCAL_RANGES: usize = 16;

pub const GENERIC_DESKTOP_PAGE: u16 = 0x01;

pub const KEYBOARD_PAGE: u16 = 0x07;

pub const USAGE_POINTER: u16 = 0x01;

pub const USAGE_MOUSE: u16 = 0x02;

pub const USAGE_JOYSTICK: u16 = 0x04;

pub const USAGE_GAMEPAD: u16 = 0x05;

pub const USAGE_KEYBOARD: u16 = 0x06;

pub const INPUT_CONSTANT: u32 = 0x01;

pub const INPUT_FLAGS_MASK: u32 = 0x017f;

pub const MAIN_FLAGS_MASK: u32 = 0x01ff;

pub const COLLECTION_APPLICATION: u32 = 0x01;

/// A usage named by a local item.  `extended` usages carry their own page.
#[derive(Clone, Copy, Debug, PartialEq, Eq, Structural)]
pub struct Usage {
    pub page: u16,
    pub id: u16,
    pub extended: bool,
}

#[derive(Clone, Copy, Debug, PartialEq, Eq, Structural)]
pub struct UsageRange {
    pub minimum: Usage,
    pub maximum: Usage,
}

/// One entry of the local usage list, in the order of the descriptor.
#[derive(Clone, Copy, Debug, PartialEq, Eq, Structural)]
pub enum LocalUsage {
    Usage(Usage),
    Range(UsageRange),
}

/// The local items since the last main item.
pub struct LocalState {
    pub order: Vec<LocalUsage>,
    pub usage_count: usize,
    pub range_count: usize,
    pub pending_minimum: Option<Usage>,
}

pub struct LocalModel {
    pub items: Seq<LocalUsage>,
    pub pending: Option<Usage>,
}

impl View for LocalState {
    type V = LocalModel;

    open spec fn view(&self) -> LocalModel {
        LocalModel { items: self.order@, pending: self.pending_minimum }
    }
}

pub open spec fn usages_in(items: Seq<LocalUsage>) -> nat
    decreases items.len(),
{
    if items.len() == 0 {
        0
    } else {
        usages_in(items.drop_last()) + if items.last() is Usage {
            1nat
        } else {
            0nat
        }
    }
}

/// The page an entry was given, and whether it carries that page itself.
pub open spec fn item_head(item: LocalUsage) -> Usage {
    match item {
        LocalUsage::Usage(usage) => usage,
        LocalUsage::Range(range) => range.minimum,
    }
}

pub open spec fn with_page(item: LocalUsage, page: u16) -> LocalUsage {
    match item {
        LocalUsage::Usage(usage) => LocalUsage::Usage(Usage { page, ..usage }),
        LocalUsage::Range(range) => LocalUsage::Range(
            UsageRange {
                minimum: Usage { page, ..range.minimum },
                maximum: Usage { page, ..range.maximum },
            },
        ),
    }
}

/// The entries after the usage page at a main item is known: walking back from
/// the last entry, each short usage takes that page, up to the first short
/// usage that already has it.
pub open spec fn completed(items: Seq<LocalUsage>, page: u16) -> Seq<LocalUsage>
    decreases items.len(),
{
    if items.len() == 0 {
        items
    } else {
        let last = items.last();
        if item_head(last).extended {
            completed(items.drop_last(), page).push(last)
        } else if item_head(last).page == page {
            items
        } else {
            completed(items.drop_last(), page).push(with_page(last, page))
        }
    }
}

pub open spec fn local_empty(m: LocalModel) -> bool {
    m.items.len() == 0 && m.pending is None
}

pub open spec fn has_page(items: Seq<LocalUsage>, page: u16) -> bool {
    exists|i: int| 0 <= i < items.len() && item_head(#[trigger] items[i]).page == page
}

pub open spec fn no_local() -> LocalModel {
    LocalModel { items: Seq::empty(), pending: None }
}

/// Whether the two ends of a usage range cannot belong together.
pub open spec fn mismatched(minimum: Usage, maximum: Usage) -> bool {
    ||| minimum.extended != maximum.extended
    ||| minimum.extended && minimum.page != maximum.page
    ||| minimum.id > maximum.id
}

/// Adding a usage: the list and the outcome.
pub open spec fn usage_added(m: LocalModel, usage: Usage) -> (LocalModel, Result<(), Seq<char>>) {
    if usages_in(m.items) == MAX_LOCAL_USAGES {
        (m, Err("HID local usage list is oversized"@))
    } else {
        (LocalModel { items: m.items.push(LocalUsage::Usage(usage)), ..m }, Ok(()))
    }
}

pub open spec fn minimum_set(m: LocalModel, minimum: Usage) -> (LocalModel, Result<(), Seq<char>>) {
    if m.pending is Some {
        (m, Err("ambiguous HID local usage range"@))
    } else {
        (LocalModel { pending: Some(minimum), ..m }, Ok(()))
    }
}

/// The maximum closes the pending minimum; the pending minimum is consumed
/// whatever the outcome.
pub open spec fn maximum_set(m: LocalModel, maximum: Usage) -> (LocalModel, Result<(), Seq<char>>) {
    let consumed = LocalModel { pending: None, ..m };
    match m.pending {
        None => (consumed, Err("ambiguous HID local usage range"@)),
        Some(minimum) => if mismatched(minimum, maximum) {
            (consumed, Err("ambiguous HID local usage range"@))
        } else if m.items.len() - usages_in(m.items) == MAX_LOCAL_RANGES {
            (consumed, Err("HID local usage ranges are oversized"@))
        } else {
            let first = if minimum.extended {
                minimum
            } else {
                Usage { page: maximum.page, ..minimum }
            };
            (
                LocalModel {
                    items: m.items.push(
                        LocalUsage::Range(UsageRange { minimum: first, maximum }),
                    ),
                    pending: None,
                },
                Ok(()),
            )
        },
    }
}

/// What the usages of an application collection say about its function.
#[derive(Clone, Copy, Debug, PartialEq, Eq, Structural)]
pub struct CollectionUsage {
    pub controller: Option<u16>,
    pub blocked: bool,
    pub ambiguous_controller: bool,
}

pub open spec fn nothing_noted() -> CollectionUsage {
    CollectionUsage { controller: None, blocked: false, ambiguous_controller: false }
}

pub open spec fn controller_noted(c: CollectionUsage, usage: u16) -> CollectionUsage {
    match c.controller {
        None => CollectionUsage { controller: Some(usage), ..c },
        Some(existing) => if existing != usage {
            CollectionUsage { ambiguous_controller: true, ..c }
        } else {
            c
        },
    }
}

pub open spec fn noted(c: CollectionUsage, usage: Usage) -> CollectionUsage {
    if usage.page != GENERIC_DESKTOP_PAGE {
        c
    } else if usage.id == USAGE_POINTER || usage.id == USAGE_MOUSE || usage.id == USAGE_KEYBOARD {
        CollectionUsage { blocked: true, ..c }
    } else if usage.id == USAGE_JOYSTICK || usage.id == USAGE_GAMEPAD {
        controller_noted(c, usage.id)
    } else {
        c
    }
}

/// The usage of an application collection: its first local entry decides.
pub open spec fn first_usage(m: LocalModel) -> Result<CollectionUsage, Seq<char>> {
    if m.pending is Some {
        Err("ambiguous HID local usage range"@)
    } else if m.items.len() == 0 {
        Ok(nothing_noted())
    } else {
        match m.items[0] {
            LocalUsage::Usage(usage) => Ok(noted(nothing_noted(), usage)),
            LocalUsage::Range(range) => if range.minimum.page != range.maximum.page
                || range.minimum.id != range.maximum.id {
                Err("ambiguous HID application usage"@)
            } else {
                Ok(noted(nothing_noted(), range.minimum))
            },
        }
    }
}

impl CollectionUsage {
    pub fn note(&mut self, usage: Usage)
        ensures
            *final(self) == noted(*old(self), usage),
    {
        if usage.page != GENERIC_DESKTOP_PAGE {
            return;
        }
        if usage.id == USAGE_POINTER || usage.id == USAGE_MOUSE || usage.id == USAGE_KEYBOARD {
            self.blocked = true;
        } else if usage.id == USAGE_JOYSTICK || usage.id == USAGE_GAMEPAD {
            self.note_controller(usage.id);
        }
    }

    pub fn note_collection_range(&mut self, range: UsageRange) -> (r: Result<(), String>)
        ensures
            range.minimum.page != range.maximum.page || range.minimum.id != range.maximum.id ==> {
                &&& *final(self) == *old(self)
                &&& text_result(r) == Err::<(), Seq<char>>("ambiguous HID application usage"@)
            },
            range.minimum.page == range.maximum.page && range.minimum.id == range.maximum.id ==> {
                &&& *final(self) == noted(*old(self), range.minimum)
                &&& r is Ok
            },
    {
        if range.minimum.page != range.maximum.page || range.minimum.id != range.maximum.id {
            return Err("ambiguous HID application usage".to_owned());
        }
        self.note(range.minimum);
        Ok(())
    }

    pub fn note_controller(&mut self, usage: u16)
        ensures
            *final(self) == controller_noted(*old(self), usage),
    {
        match self.controller {
            None => {
                self.controller = Some(usage);
            },
            Some(existing) => {
                if existing != usage {
                    self.ambiguous_controller = true;
                }
            },
        }
    }
}

impl LocalState {
    /// The counts agree with the list, and neither is over its bound.
    pub open spec fn wf(&self) -> bool {
        &&& self.usage_count == usages_in(self.order@)
        &&& self.usage_count + self.range_count == self.order@.len()
        &&& self.usage_count <= MAX_LOCAL_USAGES
        &&& self.range_count <= MAX_LOCAL_RANGES
    }

    pub fn new() -> (r: Self)
        ensures
            r.wf(),
            r@ == no_local(),
    {
        LocalState { order: Vec::new(), usage_count: 0, range_count: 0, pending_minimum: None }
    }

    pub fn clear(&mut self)
        ensures
            final(self).wf(),
            final(self)@ == no_local(),
    {
        self.order.clear();
        self.usage_count = 0;
        self.range_count = 0;
        self.pending_minimum = None;
    }

    pub fn is_empty(&self) -> (r: bool)
        requires
            self.wf(),
        ensures
            r == local_empty(self@),
    {
        self.usage_count == 0 && self.range_count == 0 && self.pending_minimum.is_none()
    }

    pub fn ensure_complete(&self) -> (r: Result<(), String>)
        ensures
            text_result(r) == (if self@.pending is Some {
                Err("ambiguous HID local usage range"@)
            } else {
                Ok::<(), Seq<char>>(())
            }),
    {
        if self.pending_minimum.is_some() {
            Err("ambiguous HID local usage range".to_owned())
        } else {
            Ok(())
        }
    }

    pub fn add_usage(&mut self, usage: Usage) -> (r: Result<(), String>)
        requires
            old(self).wf(),
        ensures
            final(self).wf(),
            (final(self)@, text_result(r)) == usage_added(old(self)@, usage),
    {
        if self.usage_count == MAX_LOCAL_USAGES {
            return Err("HID local usage list is oversized".to_owned());
        }
        self.order.push(LocalUsage::Usage(usage));
        self.usage_count += 1;
        assert(self.order@.drop_last() == old(self).order@);
        Ok(())
    }

    pub fn set_minimum(&mut self, minimum: Usage) -> (r: Result<(), String>)
        requires
            old(self).wf(),
        ensures
            final(self).wf(),
            (final(self)@, text_result(r)) == minimum_set(old(self)@, minimum),
    {
        if self.pending_minimum.is_some() {
            return Err("ambiguous HID local usage range".to_owned());
        }
        self.pending_minimum = Some(minimum);
        Ok(())
    }

    pub fn set_maximum(&mut self, maximum: Usage) -> (r: Result<(), String>)
        requires
            old(self).wf(),
        ensures
            final(self).wf(),
            (final(self)@, text_result(r)) == maximum_set(old(self)@, maximum),
    {
        let pending = self.pending_minimum.take();
        match pending {
            None => Err("ambiguous HID local usage range".to_owned()),
            Some(minimum) => {
                let mut minimum = minimum;
                if minimum.extended != maximum.extended || (minimum.extended && (minimum.page
                    != maximum.page || minimum.id > maximum.id)) || (!minimum.extended && minimum.id
                    > maximum.id) {
                    return Err("ambiguous HID local usage range".to_owned());
                }
                if !minimum.extended {
                    minimum.page = maximum.page;
                }
                if self.range_count == MAX_LOCAL_RANGES {
                    return Err("HID local usage ranges are oversized".to_owned());
                }
                self.order.push(LocalUsage::Range(UsageRange { minimum, maximum }));
                self.range_count += 1;
                assert(self.order@.drop_last() == old(self).order@);
                Ok(())
            },
        }
    }

    pub fn complete_last_usage_page(&mut self, usage_page: u16)
        requires
            old(self).wf(),
        ensures
            final(self).wf(),
            final(self)@ == (LocalModel {
                items: completed(old(self)@.items, usage_page),
                ..old(self)@
            }),
    {
        let ghost before = self.order@;
        let mut order_index: usize = self.order.len();
        assert(before.take(order_index as int) == before);
        while order_index != 0
            invariant_except_break
                completed(before, usage_page) == completed(
                    before.take(order_index as int),
                    usage_page,
                ) + self.order@.skip(order_index as int),
            invariant
                order_index <= self.order@.len(),
                before.take(order_index as int) == self.order@.take(order_index as int),
                self.order@.len() == before.len(),
                forall|i: int|
                    0 <= i < before.len() ==> (before[i] is Usage) == (
                    #[trigger] self.order@[i] is Usage),
                self.usage_count == old(self).usage_count,
                self.range_count == old(self).range_count,
                self.pending_minimum == old(self).pending_minimum,
            ensures
                completed(before, usage_page) == self.order@,
            decreases order_index,
        {
            order_index -= 1;
            let ghost head = before.take(order_index + 1);
            assert(head.drop_last() == before.take(order_index as int));
            assert(before.take(order_index as int) == self.order@.take(order_index + 1).take(
                order_index as int,
            ));
            assert(head.last() == self.order@[order_index as int]) by {
                assert(head.last() == self.order@.take(order_index + 1)[order_index as int]);
            }
            let ghost seen = self.order@;
            match self.order[order_index] {
                LocalUsage::Usage(usage) => {
                    if usage.extended {
                        assert(self.order@.skip(order_index as int) == seq![head.last()]
                            + seen.skip(order_index + 1));
                        assert(completed(before, usage_page) == completed(
                            before.take(order_index as int),
                            usage_page,
                        ) + self.order@.skip(order_index as int));
                        continue ;
                    }
                    if usage.page == usage_page {
                        assert(self.order@ == self.order@.take(order_index + 1) + self.order@.skip(
                            order_index + 1,
                        ));
                        break ;
                    }
                    self.order.set(
                        order_index,
                        LocalUsage::Usage(
                            Usage { page: usage_page, id: usage.id, extended: usage.extended },
                        ),
                    );
                },
                LocalUsage::Range(range) => {
                    if range.minimum.extended {
                        assert(self.order@.skip(order_index as int) == seq![head.last()]
                            + seen.skip(order_index + 1));
                        assert(completed(before, usage_page) == completed(
                            before.take(order_index as int),
                            usage_page,
                        ) + self.order@.skip(order_index as int));
                        continue ;
                    }
                    if range.minimum.page == usage_page {
                        assert(self.order@ == self.order@.take(order_index + 1) + self.order@.skip(
                            order_index + 1,
                        ));
                        break ;
                    }
                    let minimum = Usage {
                        page: usage_page,
                        id: range.minimum.id,
                        extended: range.minimum.extended,
                    };
                    let maximum = Usage {
                        page: usage_page,
                        id: range.maximum.id,
                        extended: range.maximum.extended,
                    };
                    self.order.set(order_index, LocalUsage::Range(UsageRange { minimum, maximum }));
                },
            }
            assert(self.order@.skip(order_index as int) == seq![with_page(head.last(), usage_page)]
                + seen.skip(order_index + 1));
            assert(completed(before, usage_page) == completed(
                before.take(order_index as int),
                usage_page,
            ) + self.order@.skip(order_index as int));
        }
        proof {
            lemma_same_kinds(before, self.order@);
        }
    }

    pub fn contains_page(&self, page: u16) -> (r: bool)
        ensures
            r == has_page(self@.items, page),
    {
        let mut i: usize = 0;
        while i < self.order.len()
            invariant
                i <= self.order@.len(),
                forall|j: int|
                    0 <= j < i ==> item_head(#[trigger] self.order@[j]).page != page,
            decreases self.order@.len() - i,
        {
            let found: u16 = match self.order[i] {
                LocalUsage::Usage(usage) => usage.page,
                LocalUsage::Range(range) => range.minimum.page,
            };
            if found == page {
                assert(item_head(self.order@[i as int]).page == page);
                return true;
            }
            i += 1;
        }
        false
    }

    pub fn collection_usage(&self) -> (r: Result<CollectionUsage, String>)
        ensures
            text_result(r) == first_usage(self@),
    {
        self.ensure_complete()?;
        let mut result = CollectionUsage {
            controller: None,
            blocked: false,
            ambiguous_controller: false,
        };
        if self.order.len() != 0 {
            match self.order[0] {
                LocalUsage::Usage(usage) => result.note(usage),
                LocalUsage::Range(range) => result.note_collection_range(range)?,
            }
        }
        if result.ambiguous_controller {
            return Err("ambiguous HID application usage".to_owned());
        }
        Ok(result)
    }
}

proof fn lemma_same_kinds(a: Seq<LocalUsage>, b: Seq<LocalUsage>)
    requires
        a.len() == b.len(),
        forall|i: int| 0 <= i < a.len() ==> (a[i] is Usage) == (#[trigger] b[i] is Usage),
    ensures
        usages_in(a) == usages_in(b),
    decreases a.len(),
{
    if a.len() > 0 {
        lemma_same_kinds(a.drop_last(), b.drop_last());
    }
}

/// Little-endian value of a payload.
pub open spec fn le_value(payload: Seq<u8>) -> nat
    decreases payload.len(),
{
    if payload.len() == 0 {
        0
    } else {
        payload[0] as nat + 256 * le_value(payload.drop_first())
    }
}

proof fn lemma_le_value_bound(payload: Seq<u8>)
    ensures
        payload.len() <= 1 ==> le_value(payload) < 0x100,
        payload.len() <= 2 ==> le_value(payload) < 0x1_0000,
        payload.len() <= 4 ==> le_value(payload) < 0x1_0000_0000,
{
    reveal_with_fuel(le_value, 6);
}

pub open spec fn value_width(payload: Seq<u8>) -> bool {
    payload.len() == 1 || payload.len() == 2 || payload.len() == 4
}

pub open spec fn wrong_length(item: Seq<char>) -> Seq<char> {
    item + " has an invalid length"@
}

pub open spec fn main_flags(payload: Seq<u8>, item: Seq<char>, mask: u32) -> Result<
    u32,
    Seq<char>,
> {
    let flags = le_value(payload) as u32;
    if flags & !mask != 0 {
        Err(item + " has unsupported flags"@)
    } else {
        Ok(flags)
    }
}

pub open spec fn usage_page_of(payload: Seq<u8>) -> Result<u16, Seq<char>> {
    if !value_width(payload) {
        Err(wrong_length("HID Usage Page item"@))
    } else if le_value(payload) > 0xffff {
        Err("HID usage page overflows 16 bits"@)
    } else {
        Ok(le_value(payload) as u16)
    }
}

/// A usage of one or two bytes takes the current page; one of four bytes
/// carries its page in the upper half.
pub open spec fn usage_of(payload: Seq<u8>, page: u16) -> Result<Usage, Seq<char>> {
    if !value_width(payload) {
        Err(wrong_length("HID Usage item"@))
    } else if payload.len() == 4 {
        Ok(
            Usage {
                page: (le_value(payload) / 0x1_0000) as u16,
                id: (le_value(payload) % 0x1_0000) as u16,
                extended: true,
            },
        )
    } else {
        Ok(Usage { page, id: le_value(payload) as u16, extended: false })
    }
}

pub fn expect_len(payload: &[u8], expected: usize, item: &str) -> (r: Result<(), String>)
    ensures
        text_result(r) == (if payload@.len() == expected {
            Ok::<(), Seq<char>>(())
        } else {
            Err(wrong_length(item@))
        }),
{
    if payload.len() == expected {
        Ok(())
    } else {
        Err(joined(item, " has an invalid length"))
    }
}

pub fn expect_value_width(payload: &[u8], item: &str) -> (r: Result<(), String>)
    ensures
        text_result(r) == (if value_width(payload@) {
            Ok::<(), Seq<char>>(())
        } else {
            Err(wrong_length(item@))
        }),
{
    let width: usize = payload.len();
    if width == 1 || width == 2 || width == 4 {
        Ok(())
    } else {
        Err(joined(item, " has an invalid length"))
    }
}

pub fn read_value(payload: &[u8]) -> (r: u32)
    requires
        payload@.len() <= 4,
    ensures
        r == le_value(payload@),
{
    let mut value: u32 = 0;
    let mut i: usize = payload.len();
    proof {
        lemma_le_value_bound(payload@);
    }
    assert(payload@.skip(i as int).len() == 0);
    while i > 0
        invariant
            i <= payload@.len() <= 4,
            value == le_value(payload@.skip(i as int)),
        decreases i,
    {
        i -= 1;
        proof {
            let rest = payload@.skip(i as int);
            assert(rest.drop_first() == payload@.skip(i + 1));
            assert(rest[0] == payload@[i as int]);
            lemma_le_value_bound(rest);
        }
        value = value * 256 + payload[i] as u32;
    }
    assert(payload@.skip(0) == payload@);
    value
}

pub fn parse_main_flags(payload: &[u8], item: &str, mask: u32) -> (r: Result<u32, String>)
    requires
        payload@.len() <= 4,
    ensures
        text_result(r) == main_flags(payload@, item@, mask),
{
    let flags: u32 = read_value(payload);
    if flags & !mask != 0 {
        Err(joined(item, " has unsupported flags"))
    } else {
        Ok(flags)
    }
}

pub fn parse_usage_page(payload: &[u8]) -> (r: Result<u16, String>)
    ensures
        text_result(r) == usage_page_of(payload@),
{
    expect_value_width(payload, "HID Usage Page item")?;
    let value: u32 = read_value(payload);
    if value > 0xffff {
        Err("HID usage page overflows 16 bits".to_owned())
    } else {
        Ok(value as u16)
    }
}

pub fn parse_usage(payload: &[u8], usage_page: u16) -> (r: Result<Usage, String>)
    ensures
        text_result(r) == usage_of(payload@, usage_page),
{
    expect_value_width(payload, "HID Usage item")?;
    let value: u32 = read_value(payload);
    proof {
        lemma_le_value_bound(payload@);
    }
    if payload.len() == 4 {
        Ok(
            Usage {
                page: (value / 0x1_0000) as u16,
                id: (value % 0x1_0000) as u16,
                extended: true,
            },
        )
    } else {
        Ok(Usage { page: usage_page, id: value as u16, extended: false })
    }
}

/// What the parser remembers between items.
pub struct ParserModel {
    pub usage_page: u16,
    pub stack: Seq<u16>,
    pub local: LocalModel,
    pub depth: nat,
    pub controller: Option<u16>,
    pub blocked: bool,
}

pub open spec fn initial() -> ParserModel {
    ParserModel {
        usage_page: 0,
        stack: Seq::empty(),
        local: no_local(),
        depth: 0,
        controller: None,
        blocked: false,
    }
}

pub open spec fn page_completed(m: ParserModel) -> ParserModel {
    ParserModel {
        local: LocalModel { items: completed(m.local.items, m.usage_page), ..m.local },
        ..m
    }
}

/// An Input item of data on the keyboard page blocks the function.
pub open spec fn input_item(m: ParserModel, flags: u32) -> ParserModel {
    let done = page_completed(m);
    let keys = has_page(done.local.items, KEYBOARD_PAGE) || (local_empty(done.local)
        && m.usage_page == KEYBOARD_PAGE);
    ParserModel {
        blocked: m.blocked || (flags & INPUT_CONSTANT == 0 && keys),
        local: no_local(),
        ..m
    }
}

pub open spec fn collection_item(m: ParserModel, payload: Seq<u8>) -> (
    ParserModel,
    Result<(), Seq<char>>,
) {
    if m.local.pending is Some {
        (m, Err("ambiguous HID local usage range"@))
    } else {
        let done = page_completed(m);
        let kind = le_value(payload);
        if 0x07 <= kind <= 0x7f || kind > 0xff {
            (done, Err("unsupported HID collection type"@))
        } else if m.depth == MAX_COLLECTION_DEPTH {
            (done, Err("HID collection nesting is too deep"@))
        } else if kind == COLLECTION_APPLICATION {
            match first_usage(done.local) {
                Err(e) => (done, Err(e)),
                Ok(usage) => (
                    ParserModel {
                        blocked: m.blocked || usage.blocked,
                        controller: if m.controller is Some {
                            m.controller
                        } else {
                            usage.controller
                        },
                        depth: m.depth + 1,
                        local: no_local(),
                        ..m
                    },
                    Ok(()),
                ),
            }
        } else {
            (ParserModel { depth: m.depth + 1, local: no_local(), ..m }, Ok(()))
        }
    }
}

pub open spec fn main_step(m: ParserModel, tag: u8, payload: Seq<u8>) -> (
    ParserModel,
    Result<(), Seq<char>>,
) {
    if tag == 0x08 {
        match main_flags(payload, "HID Input item"@, INPUT_FLAGS_MASK) {
            Err(e) => (m, Err(e)),
            Ok(flags) => if m.local.pending is Some {
                (m, Err("ambiguous HID local usage range"@))
            } else {
                (input_item(m, flags), Ok(()))
            },
        }
    } else if tag == 0x09 || tag == 0x0b {
        match main_flags(payload, "HID output/feature item"@, MAIN_FLAGS_MASK) {
            Err(e) => (m, Err(e)),
            Ok(_) => if m.local.pending is Some {
                (m, Err("ambiguous HID local usage range"@))
            } else {
                (ParserModel { local: no_local(), ..m }, Ok(()))
            },
        }
    } else if tag == 0x0a {
        collection_item(m, payload)
    } else if tag == 0x0c {
        if payload.len() != 0 {
            (m, Err(wrong_length("HID End Collection item"@)))
        } else if m.local.pending is Some {
            (m, Err("ambiguous HID local usage range"@))
        } else if !local_empty(m.local) {
            (m, Err("HID End Collection item has local usage data"@))
        } else if m.depth == 0 {
            (m, Err("unbalanced HID End Collection item"@))
        } else {
            (ParserModel { depth: (m.depth - 1) as nat, local: no_local(), ..m }, Ok(()))
        }
    } else {
        (m, Err("unsupported HID main item"@))
    }
}

pub open spec fn global_step(m: ParserModel, tag: u8, payload: Seq<u8>) -> (
    ParserModel,
    Result<(), Seq<char>>,
) {
    if tag == 0x00 {
        match usage_page_of(payload) {
            Err(e) => (m, Err(e)),
            Ok(page) => (ParserModel { usage_page: page, ..m }, Ok(())),
        }
    } else if 0x01 <= tag <= 0x07 || tag == 0x09 {
        if value_width(payload) {
            (m, Ok(()))
        } else {
            (m, Err(wrong_length("HID global item"@)))
        }
    } else if tag == 0x08 {
        if !value_width(payload) {
            (m, Err(wrong_length("HID Report ID item"@)))
        } else if le_value(payload) == 0 || le_value(payload) > 0xff {
            (m, Err("HID Report ID is invalid"@))
        } else {
            (m, Ok(()))
        }
    } else if tag == 0x0a {
        if payload.len() != 0 {
            (m, Err(wrong_length("HID Push item"@)))
        } else if m.stack.len() == MAX_GLOBAL_STACK_DEPTH {
            (m, Err("HID global state stack is too deep"@))
        } else {
            (ParserModel { stack: m.stack.push(m.usage_page), ..m }, Ok(()))
        }
    } else if tag == 0x0b {
        if payload.len() != 0 {
            (m, Err(wrong_length("HID Pop item"@)))
        } else if m.stack.len() == 0 {
            (m, Err("HID global state stack underflow"@))
        } else {
            (
                ParserModel { usage_page: m.stack.last(), stack: m.stack.drop_last(), ..m },
                Ok(()),
            )
        }
    } else {
        (m, Err("unsupported HID global item"@))
    }
}

pub open spec fn local_step(m: ParserModel, tag: u8, payload: Seq<u8>) -> (
    ParserModel,
    Result<(), Seq<char>>,
) {
    if tag <= 0x02 {
        match usage_of(payload, m.usage_page) {
            Err(e) => (m, Err(e)),
            Ok(usage) => {
                let (local, outcome) = if tag == 0x00 {
                    usage_added(m.local, usage)
                } else if tag == 0x01 {
                    minimum_set(m.local, usage)
                } else {
                    maximum_set(m.local, usage)
                };
                (ParserModel { local, ..m }, outcome)
            },
        }
    } else if 0x03 <= tag <= 0x05 || 0x07 <= tag <= 0x09 {
        if value_width(payload) {
            (m, Ok(()))
        } else {
            (m, Err(wrong_length("HID local item"@)))
        }
    } else if tag == 0x0a {
        (m, Err("unsupported HID local delimiter"@))
    } else {
        (m, Err("unsupported HID local item"@))
    }
}

pub open spec fn payload_len_of(prefix: u8) -> nat {
    if prefix % 4 == 3 {
        4
    } else {
        (prefix % 4) as nat
    }
}

/// One short item: the low two bits of the prefix give the payload length, the
/// next two the item type, the upper four the tag.
pub open spec fn item_step(m: ParserModel, prefix: u8, payload: Seq<u8>) -> (
    ParserModel,
    Result<(), Seq<char>>,
) {
    let kind = prefix / 4 % 4;
    let tag = prefix / 16;
    if kind == 0 {
        main_step(m, tag, payload)
    } else if kind == 1 {
        global_step(m, tag, payload)
    } else if kind == 2 {
        local_step(m, tag, payload)
    } else {
        (m, Err("unsupported HID report item type"@))
    }
}

/// The state after all items of a byte sequence, or the first error.
pub open spec fn run(m: ParserModel, bytes: Seq<u8>) -> Result<ParserModel, Seq<char>>
    decreases bytes.len(),
{
    if bytes.len() == 0 {
        Ok(m)
    } else if bytes[0] == 0xfe {
        Err("unsupported long HID report item"@)
    } else if payload_len_of(bytes[0]) > bytes.len() - 1 {
        Err("truncated HID report item"@)
    } else {
        let end = 1 + payload_len_of(bytes[0]);
        match item_step(m, bytes[0], bytes.subrange(1, end as int)) {
            (_, Err(e)) => Err(e),
            (next, Ok(_)) => run(next, bytes.skip(end as int)),
        }
    }
}

pub open spec fn not_controller() -> Seq<char> {
    "HID report descriptor is not a controller-only function"@
}

/// The verdict on the state at the end of the descriptor.
pub open spec fn verdict(m: ParserModel) -> Result<(u16, u16), Seq<char>> {
    if m.depth != 0 {
        Err("unbalanced HID report collections"@)
    } else if !local_empty(m.local) {
        Err("HID report descriptor ends with an incomplete local item"@)
    } else if m.blocked {
        Err(not_controller())
    } else {
        match m.controller {
            Some(usage) => Ok((GENERIC_DESKTOP_PAGE, usage)),
            None => Err(not_controller()),
        }
    }
}

pub open spec fn classified(bytes: Seq<u8>) -> Result<(u16, u16), Seq<char>> {
    if bytes.len() == 0 || bytes.len() > MAX_DESCRIPTOR_BYTES {
        Err("HID report descriptor is unavailable or oversized"@)
    } else {
        match run(initial(), bytes) {
            Err(e) => Err(e),
            Ok(m) => verdict(m),
        }
    }
}

pub struct Parser<'a> {
    pub bytes: &'a [u8],
    pub index: usize,
    pub usage_page: u16,
    pub global_stack: Vec<u16>,
    pub local: LocalState,
    pub collection_depth: usize,
    pub controller_usage: Option<u16>,
    pub blocked: bool,
}

impl<'a> View for Parser<'a> {
    type V = ParserModel;

    open spec fn view(&self) -> ParserModel {
        ParserModel {
            usage_page: self.usage_page,
            stack: self.global_stack@,
            local: self.local@,
            depth: self.collection_depth as nat,
            controller: self.controller_usage,
            blocked: self.blocked,
        }
    }
}

impl<'a> Parser<'a> {
    pub open spec fn wf(&self) -> bool {
        &&& self.index <= self.bytes@.len()
        &&& self.local.wf()
        &&& self.global_stack@.len() <= MAX_GLOBAL_STACK_DEPTH
        &&& self.collection_depth <= MAX_COLLECTION_DEPTH
    }

    pub open spec fn same_input(&self, other: &Self) -> bool {
        self.bytes == other.bytes && self.index == other.index
    }

    pub fn new(bytes: &'a [u8]) -> (r: Self)
        ensures
            r.wf(),
            r.bytes == bytes,
            r.index == 0,
            r@ == initial(),
    {
        Parser {
            bytes,
            index: 0,
            usage_page: 0,
            global_stack: Vec::new(),
            local: LocalState::new(),
            collection_depth: 0,
            controller_usage: None,
            blocked: false,
        }
    }

    /// Runs from the current position to the end of the descriptor.
    pub fn parse(self) -> (r: Result<(u16, u16), String>)
        requires
            self.wf(),
        ensures
            text_result(r) == (match run(self@, self.bytes@.skip(self.index as int)) {
                Err(e) => Err(e),
                Ok(m) => verdict(m),
            }),
    {
        let mut parser = self;
        let ghost expected = run(self@, self.bytes@.skip(self.index as int));
        while parser.index < parser.bytes.len()
            invariant
                parser.wf(),
                expected == run(parser@, parser.bytes@.skip(parser.index as int)),
                expected == run(self@, self.bytes@.skip(self.index as int)),
            decreases parser.bytes@.len() - parser.index,
        {
            let ghost rest = parser.bytes@.skip(parser.index as int);
            let prefix: u8 = parser.bytes[parser.index];
            let start: usize = parser.index + 1;
            parser.index = start;
            if prefix == 0xfe {
                return Err("unsupported long HID report item".to_owned());
            }
            let payload_len: usize = if prefix % 4 == 3 {
                4
            } else {
                (prefix % 4) as usize
            };
            if payload_len > parser.bytes.len() - parser.index {
                return Err("truncated HID report item".to_owned());
            }
            let payload_end: usize = start + payload_len;
            let payload = vstd::slice::slice_subrange(parser.bytes, start, payload_end);
            parser.index = payload_end;
            proof {
                assert(payload@ == rest.subrange(1, 1 + payload_len));
                assert(parser.bytes@.skip(payload_end as int) == rest.skip(1 + payload_len));
            }
            let item_type: u8 = prefix / 4 % 4;
            let item_tag: u8 = prefix / 16;
            if item_type == 0 {
                parser.main_item(item_tag, payload)?;
            } else if item_type == 1 {
                parser.global_item(item_tag, payload)?;
            } else if item_type == 2 {
                parser.local_item(item_tag, payload)?;
            } else {
                return Err("unsupported HID report item type".to_owned());
            }
        }
        assert(parser.bytes@.skip(parser.index as int).len() == 0);
        if parser.collection_depth != 0 {
            return Err("unbalanced HID report collections".to_owned());
        }
        if !parser.local.is_empty() {
            return Err("HID report descriptor ends with an incomplete local item".to_owned());
        }
        if parser.blocked {
            return Err("HID report descriptor is not a controller-only function".to_owned());
        }
        match parser.controller_usage {
            Some(usage) => Ok((GENERIC_DESKTOP_PAGE, usage)),
            None => Err("HID report descriptor is not a controller-only function".to_owned()),
        }
    }

    pub fn main_item(&mut self, tag: u8, payload: &[u8]) -> (r: Result<(), String>)
        requires
            old(self).wf(),
            0x08 <= tag <= 0x0b ==> payload@.len() <= 4,
        ensures
            final(self).wf(),
            final(self).same_input(old(self)),
            (final(self)@, text_result(r)) == main_step(old(self)@, tag, payload@),
    {
        if tag == 0x08 {
            let flags: u32 = parse_main_flags(payload, "HID Input item", INPUT_FLAGS_MASK)?;
            self.local.ensure_complete()?;
            self.local.complete_last_usage_page(self.usage_page);
            let keyboard_page_input = self.local.contains_page(KEYBOARD_PAGE) || (
            self.local.is_empty() && self.usage_page == KEYBOARD_PAGE);
            if flags & INPUT_CONSTANT == 0 && keyboard_page_input {
                self.blocked = true;
            }
            self.local.clear();
            Ok(())
        } else if tag == 0x09 || tag == 0x0b {
            parse_main_flags(payload, "HID output/feature item", MAIN_FLAGS_MASK)?;
            self.local.ensure_complete()?;
            self.local.complete_last_usage_page(self.usage_page);
            self.local.clear();
            Ok(())
        } else if tag == 0x0a {
            self.local.ensure_complete()?;
            self.local.complete_last_usage_page(self.usage_page);
            let collection_type: u32 = read_value(payload);
            if (0x07 <= collection_type && collection_type <= 0x7f) || collection_type > 0xff {
                return Err("unsupported HID collection type".to_owned());
            }
            if self.collection_depth == MAX_COLLECTION_DEPTH {
                return Err("HID collection nesting is too deep".to_owned());
            }
            if collection_type == COLLECTION_APPLICATION {
                let collection_usage = self.local.collection_usage()?;
                self.blocked = self.blocked || collection_usage.blocked;
                if self.controller_usage.is_none() {
                    self.controller_usage = collection_usage.controller;
                }
            }
            self.collection_depth += 1;
            self.local.clear();
            Ok(())
        } else if tag == 0x0c {
            expect_len(payload, 0, "HID End Collection item")?;
            self.local.ensure_complete()?;
            if !self.local.is_empty() {
                return Err("HID End Collection item has local usage data".to_owned());
            }
            if self.collection_depth == 0 {
                return Err("unbalanced HID End Collection item".to_owned());
            }
            self.collection_depth -= 1;
            self.local.clear();
            Ok(())
        } else {
            Err("unsupported HID main item".to_owned())
        }
    }

    pub fn global_item(&mut self, tag: u8, payload: &[u8]) -> (r: Result<(), String>)
        requires
            old(self).wf(),
        ensures
            final(self).wf(),
            final(self).same_input(old(self)),
            (final(self)@, text_result(r)) == global_step(old(self)@, tag, payload@),
    {
        if tag == 0x00 {
            self.usage_page = parse_usage_page(payload)?;
            Ok(())
        } else if (0x01 <= tag && tag <= 0x07) || tag == 0x09 {
            expect_value_width(payload, "HID global item")
        } else if tag == 0x08 {
            expect_value_width(payload, "HID Report ID item")?;
            let report_id: u32 = read_value(payload);
            if report_id == 0 || report_id > 0xff {
                return Err("HID Report ID is invalid".to_owned());
            }
            Ok(())
        } else if tag == 0x0a {
            expect_len(payload, 0, "HID Push item")?;
            if self.global_stack.len() == MAX_GLOBAL_STACK_DEPTH {
                return Err("HID global state stack is too deep".to_owned());
            }
            self.global_stack.push(self.usage_page);
            Ok(())
        } else if tag == 0x0b {
            expect_len(payload, 0, "HID Pop item")?;
            match self.global_stack.pop() {
                None => Err("HID global state stack underflow".to_owned()),
                Some(page) => {
                    self.usage_page = page;
                    Ok(())
                },
            }
        } else {
            Err("unsupported HID global item".to_owned())
        }
    }

    pub fn local_item(&mut self, tag: u8, payload: &[u8]) -> (r: Result<(), String>)
        requires
            old(self).wf(),
        ensures
            final(self).wf(),
            final(self).same_input(old(self)),
            (final(self)@, text_result(r)) == local_step(old(self)@, tag, payload@),
    {
        if tag == 0x00 {
            let usage = parse_usage(payload, self.usage_page)?;
            self.local.add_usage(usage)
        } else if tag == 0x01 {
            let usage = parse_usage(payload, self.usage_page)?;
            self.local.set_minimum(usage)
        } else if tag == 0x02 {
            let usage = parse_usage(payload, self.usage_page)?;
            self.local.set_maximum(usage)
        } else if (0x03 <= tag && tag <= 0x05) || (0x07 <= tag && tag <= 0x09) {
            expect_value_width(payload, "HID local item")
        } else if tag == 0x0a {
            Err("unsupported HID local delimiter".to_owned())
        } else {
            Err("unsupported HID local item".to_owned())
        }
    }
}

/// The Generic Desktop Joystick or Gamepad usage of a controller-only HID
/// Application collection.
///
/// Ambiguous and unsupported constructs are rejected.  A controller usage
/// counts only where it names an Application collection, and a keyboard, mouse
/// or pointer Application vetoes an otherwise valid controller.
pub fn controller_usage(bytes: &[u8]) -> (r: Result<(u16, u16), String>)
    ensures
        text_result(r) == classified(bytes@),
{
    if bytes.len() == 0 || bytes.len() > MAX_DESCRIPTOR_BYTES {
        return Err("HID report descriptor is unavailable or oversized".to_owned());
    }
    assert(bytes@.skip(0) == bytes@);
    Parser::new(bytes).parse()
}

/// Processing two stretches of items one after the other is processing their
/// concatenation, wherever the first stretch ends on an item boundary.
pub proof fn lemma_run_concat(m: ParserModel, head: Seq<u8>, tail: Seq<u8>)
    requires
        run(m, head) is Ok,
    ensures
        run(m, head + tail) == run(run(m, head)->Ok_0, tail),
    decreases head.len(),
{
    if head.len() == 0 {
        assert(head + tail == tail);
    } else {
        let end = 1 + payload_len_of(head[0]);
        let next = item_step(m, head[0], head.subrange(1, end as int)).0;
        lemma_run_concat(next, head.skip(end as int), tail);
        assert((head + tail).subrange(1, end as int) == head.subrange(1, end as int));
        assert((head + tail).skip(end as int) == head.skip(end as int) + tail);
    }
}

/// A blocked function stays blocked.
pub proof fn lemma_blocked_stays(m: ParserModel, bytes: Seq<u8>)
    requires
        m.blocked,
    ensures
        run(m, bytes) matches Ok(end) ==> end.blocked,
    decreases bytes.len(),
{
    if bytes.len() > 0 && bytes[0] != 0xfe && payload_len_of(bytes[0]) <= bytes.len() - 1 {
        let end = 1 + payload_len_of(bytes[0]);
        let (next, outcome) = item_step(m, bytes[0], bytes.subrange(1, end as int));
        if outcome is Ok {
            lemma_blocked_stays(next, bytes.skip(end as int));
        }
    }
}

/// The controller usage on record is always Joystick or Gamepad.
proof fn lemma_controller_kind(m: ParserModel, bytes: Seq<u8>)
    requires
        m.controller matches Some(u) ==> u == USAGE_JOYSTICK || u == USAGE_GAMEPAD,
    ensures
        run(m, bytes) matches Ok(end) ==> (end.controller matches Some(u) ==> u == USAGE_JOYSTICK
            || u == USAGE_GAMEPAD),
    decreases bytes.len(),
{
    if bytes.len() > 0 && bytes[0] != 0xfe && payload_len_of(bytes[0]) <= bytes.len() - 1 {
        let end = 1 + payload_len_of(bytes[0]);
        let (next, outcome) = item_step(m, bytes[0], bytes.subrange(1, end as int));
        if outcome is Ok {
            lemma_controller_kind(next, bytes.skip(end as int));
        }
    }
}

/// An accepted descriptor is a Generic Desktop Joystick or Gamepad.
pub proof fn accepted_is_joystick_or_gamepad(bytes: Seq<u8>)
    ensures
        classified(bytes) matches Ok((page, usage)) ==> page == GENERIC_DESKTOP_PAGE && (usage
            == USAGE_JOYSTICK || usage == USAGE_GAMEPAD),
{
    lemma_controller_kind(initial(), bytes);
}

/// Once a keyboard, mouse or pointer Application or keyboard-page input has
/// been seen, no continuation of the descriptor makes it acceptable.
pub proof fn veto_is_final(head: Seq<u8>, tail: Seq<u8>)
    requires
        run(initial(), head) matches Ok(m) && m.blocked,
    ensures
        classified(head + tail) is Err,
{
    lemma_run_concat(initial(), head, tail);
    lemma_blocked_stays(run(initial(), head)->Ok_0, tail);
}

/// A keyboard, mouse or pointer Application collection vetoes the function
/// whatever surrounds it.
pub proof fn blocking_application_vetoes(m: ParserModel, payload: Seq<u8>)
    requires
        le_value(payload) == COLLECTION_APPLICATION,
        main_step(m, 0x0a, payload).1 is Ok,
        completed(m.local.items, m.usage_page).len() > 0,
        ({
            let head = item_head(completed(m.local.items, m.usage_page)[0]);
            head.page == GENERIC_DESKTOP_PAGE && (head.id == USAGE_POINTER || head.id
                == USAGE_MOUSE || head.id == USAGE_KEYBOARD)
        }),
    ensures
        main_step(m, 0x0a, payload).0.blocked,
{
}

/// A usage is no evidence by itself: only a Collection item can put a
/// controller on record.
pub proof fn only_collections_record_a_controller(m: ParserModel, prefix: u8, payload: Seq<u8>)
    requires
        m.controller is None,
        item_step(m, prefix, payload).0.controller is Some,
    ensures
        prefix / 4 % 4 == 0,
        prefix / 16 == 0x0a,
        le_value(payload) == COLLECTION_APPLICATION,
{
}

/// The bytes of a Push and of a Pop item.
pub const PUSH_ITEM: u8 = 0xa4;

pub const POP_ITEM: u8 = 0xb4;

pub open spec fn is_global(prefix: u8) -> bool {
    prefix / 4 % 4 == 1
}

/// How many Push items are still open after all items of a byte sequence, with
/// `open` of them before it.  Nothing is said of bytes that are no items, or of
/// a Pop item for which none is open.
pub open spec fn still_open(bytes: Seq<u8>, open: nat) -> Option<nat>
    decreases bytes.len(),
{
    if bytes.len() == 0 {
        Some(open)
    } else if bytes[0] == 0xfe || payload_len_of(bytes[0]) > bytes.len() - 1 {
        None
    } else {
        let rest = bytes.skip(1 + payload_len_of(bytes[0]) as int);
        if is_global(bytes[0]) && bytes[0] / 16 == 0x0a {
            still_open(rest, open + 1)
        } else if is_global(bytes[0]) && bytes[0] / 16 == 0x0b {
            if open == 0 {
                None
            } else {
                still_open(rest, (open - 1) as nat)
            }
        } else {
            still_open(rest, open)
        }
    }
}

/// Whether all items of a byte sequence are global ones.
pub open spec fn only_globals(bytes: Seq<u8>) -> bool
    decreases bytes.len(),
{
    bytes.len() > 0 ==> is_global(bytes[0]) && (payload_len_of(bytes[0]) <= bytes.len() - 1
        ==> only_globals(bytes.skip(1 + payload_len_of(bytes[0]) as int)))
}

proof fn lemma_stack_kept(m: ParserModel, bytes: Seq<u8>, base: Seq<u16>, open: nat)
    requires
        run(m, bytes) is Ok,
        still_open(bytes, open) is Some,
        base.is_prefix_of(m.stack),
        m.stack.len() == base.len() + open,
    ensures
        base.is_prefix_of(run(m, bytes)->Ok_0.stack),
        run(m, bytes)->Ok_0.stack.len() == base.len() + still_open(bytes, open)->Some_0,
        only_globals(bytes) ==> run(m, bytes)->Ok_0 == (ParserModel {
            usage_page: run(m, bytes)->Ok_0.usage_page,
            stack: run(m, bytes)->Ok_0.stack,
            ..m
        }),
    decreases bytes.len(),
{
    if bytes.len() > 0 {
        let end = 1 + payload_len_of(bytes[0]) as int;
        let next = item_step(m, bytes[0], bytes.subrange(1, end)).0;
        let open_next: nat = if is_global(bytes[0]) && bytes[0] / 16 == 0x0a {
            open + 1
        } else if is_global(bytes[0]) && bytes[0] / 16 == 0x0b {
            (open - 1) as nat
        } else {
            open
        };
        assert(base.is_prefix_of(next.stack) && next.stack.len() == base.len() + open_next);
        lemma_stack_kept(next, bytes.skip(end), base, open_next);
    }
}

/// A Pop item takes the parser back to the page and the stack before its Push
/// item, whatever items stand in between; where those are all global, it takes
/// the whole parser back.
pub proof fn pop_restores_push(m: ParserModel, between: Seq<u8>)
    requires
        m.stack.len() < MAX_GLOBAL_STACK_DEPTH,
        still_open(between, 0) == Some(0nat),
        run(m, seq![PUSH_ITEM] + between) is Ok,
    ensures
        run(m, seq![PUSH_ITEM] + between + seq![POP_ITEM]) == Ok::<ParserModel, Seq<char>>(
            ParserModel {
                usage_page: m.usage_page,
                stack: m.stack,
                ..run(m, seq![PUSH_ITEM] + between)->Ok_0
            },
        ),
        only_globals(between) ==> run(m, seq![PUSH_ITEM] + between + seq![POP_ITEM]) == Ok::<
            ParserModel,
            Seq<char>,
        >(m),
{
    let opened = seq![PUSH_ITEM] + between;
    let pushed = ParserModel { stack: m.stack.push(m.usage_page), ..m };
    assert(payload_len_of(PUSH_ITEM) == 0 && payload_len_of(POP_ITEM) == 0);
    assert(opened.subrange(1, 1) =~= Seq::<u8>::empty());
    assert(opened.skip(1) =~= between);
    assert(item_step(m, PUSH_ITEM, Seq::empty()) == (pushed, Ok::<(), Seq<char>>(())));
    assert(run(m, opened) == run(pushed, between));
    lemma_stack_kept(pushed, between, pushed.stack, 0);
    let after = run(pushed, between)->Ok_0;
    assert(after.stack =~= pushed.stack);
    lemma_run_concat(m, opened, seq![POP_ITEM]);
    let last = seq![POP_ITEM];
    assert(last.subrange(1, 1) =~= Seq::<u8>::empty());
    assert(last.skip(1).len() == 0);
    assert(m.stack.push(m.usage_page).drop_last() =~= m.stack);
    let popped = item_step(after, POP_ITEM, Seq::empty()).0;
    assert(run(popped, last.skip(1)) == Ok::<ParserModel, Seq<char>>(popped));
    assert(run(after, last) == run(popped, last.skip(1)));
}

/// Every accepted main item leaves no local usages behind.
pub proof fn main_items_clear_locals(m: ParserModel, tag: u8, payload: Seq<u8>)
    requires
        main_step(m, tag, payload).1 is Ok,
    ensures
        main_step(m, tag, payload).0.local == no_local(),
{
}

} // verus!
