//! Which report descriptors are accepted, in terms of their bytes.
use crate::hid_descriptor::{
    classified, completed, has_page, initial, item_head, item_step, le_value, lemma_blocked_stays,
    lemma_run_concat, no_local, payload_len_of, run, usages_in, LocalModel, LocalUsage,
    ParserModel, Usage, UsageRange,
};
use vstd::prelude::*;

verus! {

// Items.
proof fn lemma_item(m: ParserModel, prefix: u8, payload: Seq<u8>, rest: Seq<u8>)
    requires
        prefix != 0xfe,
        payload.len() == payload_len_of(prefix),
    ensures
        run(m, seq![prefix] + payload + rest) == match item_step(m, prefix, payload) {
            (_, Err(e)) => Err(e),
            (next, Ok(_)) => run(next, rest),
        },
{
    let bytes = seq![prefix] + payload + rest;
    assert(bytes[0] == prefix);
    assert(bytes.subrange(1, 1int + payload.len()) =~= payload);
    assert(bytes.skip(1 + payload.len() as int) =~= rest);
}

proof fn lemma_one(v: u8)
    ensures
        le_value(seq![v]) == v,
{
    reveal_with_fuel(le_value, 2);
    assert(seq![v].drop_first() =~= Seq::<u8>::empty());
}

proof fn lemma_two(v: u8, w: u8)
    ensures
        le_value(seq![v, w]) == v + 256 * w,
{
    lemma_one(w);
    assert(seq![v, w].drop_first() =~= seq![w]);
}

proof fn lemma_four(a: u8, b: u8, c: u8, d: u8)
    ensures
        le_value(seq![a, b, c, d]) == a + 256 * (b + 256 * (c + 256 * d)),
{
    lemma_two(c, d);
    assert(seq![a, b, c, d].drop_first() =~= seq![b, c, d]);
    assert(seq![b, c, d].drop_first() =~= seq![c, d]);
    assert(le_value(seq![b, c, d]) == b + 256 * le_value(seq![c, d]));
}

/// One item of one byte.
proof fn lemma_short(m: ParserModel, prefix: u8, v: u8, rest: Seq<u8>)
    requires
        prefix % 4 == 1,
    ensures
        run(m, seq![prefix, v] + rest) == match item_step(m, prefix, seq![v]) {
            (_, Err(e)) => Err(e),
            (next, Ok(_)) => run(next, rest),
        },
        le_value(seq![v]) == v,
{
    lemma_one(v);
    lemma_item(m, prefix, seq![v], rest);
    assert(seq![prefix] + seq![v] + rest =~= seq![prefix, v] + rest);
}

proof fn lemma_bare(m: ParserModel, prefix: u8, rest: Seq<u8>)
    requires
        prefix % 4 == 0,
    ensures
        run(m, seq![prefix] + rest) == match item_step(m, prefix, Seq::empty()) {
            (_, Err(e)) => Err(e),
            (next, Ok(_)) => run(next, rest),
        },
{
    lemma_item(m, prefix, Seq::empty(), rest);
    assert(seq![prefix] + Seq::<u8>::empty() + rest =~= seq![prefix] + rest);
}

/// A short usage.
pub open spec fn short_usage(page: u16, id: u8) -> Usage {
    Usage { page, id: id as u16, extended: false }
}

// Ranges.
/// A Usage Minimum followed by a Usage Maximum of one byte each adds the range
/// between them, where the minimum is not above the maximum and fewer than
/// sixteen ranges stand before it; nothing else changes.
pub proof fn a_usage_range_is_taken_in(m: ParserModel, a: u8, b: u8, rest: Seq<u8>)
    requires
        m.local.pending is None,
        m.local.items.len() - usages_in(m.local.items) < 16,
        a <= b,
    ensures
        run(m, seq![0x19u8, a, 0x29u8, b] + rest) == run(
            ParserModel {
                local: LocalModel {
                    items: m.local.items.push(
                        LocalUsage::Range(
                            UsageRange {
                                minimum: short_usage(m.usage_page, a),
                                maximum: short_usage(m.usage_page, b),
                            },
                        ),
                    ),
                    pending: None,
                },
                ..m
            },
            rest,
        ),
{
    let tail = seq![0x29u8, b] + rest;
    lemma_short(m, 0x19, a, tail);
    assert(seq![0x19u8, a] + tail =~= seq![0x19u8, a, 0x29u8, b] + rest);
    let waiting = ParserModel {
        local: LocalModel { pending: Some(short_usage(m.usage_page, a)), ..m.local },
        ..m
    };
    assert(item_step(m, 0x19, seq![a]) == (waiting, Ok::<(), Seq<char>>(())));
    lemma_short(waiting, 0x29, b, rest);
}

/// The same holds of two-byte items.
pub proof fn a_wide_usage_range_is_taken_in(
    m: ParserModel,
    a: (u8, u8),
    b: (u8, u8),
    rest: Seq<u8>,
)
    requires
        m.local.pending is None,
        m.local.items.len() - usages_in(m.local.items) < 16,
        a.0 + 256 * a.1 <= b.0 + 256 * b.1,
    ensures
        run(m, seq![0x1au8, a.0, a.1, 0x2au8, b.0, b.1] + rest) == run(
            ParserModel {
                local: LocalModel {
                    items: m.local.items.push(
                        LocalUsage::Range(
                            UsageRange {
                                minimum: Usage {
                                    page: m.usage_page,
                                    id: (a.0 + 256 * a.1) as u16,
                                    extended: false,
                                },
                                maximum: Usage {
                                    page: m.usage_page,
                                    id: (b.0 + 256 * b.1) as u16,
                                    extended: false,
                                },
                            },
                        ),
                    ),
                    pending: None,
                },
                ..m
            },
            rest,
        ),
{
    let tail = seq![0x2au8, b.0, b.1] + rest;
    lemma_two(a.0, a.1);
    lemma_two(b.0, b.1);
    lemma_item(m, 0x1a, seq![a.0, a.1], tail);
    assert(seq![0x1au8] + seq![a.0, a.1] + tail =~= seq![0x1au8, a.0, a.1, 0x2au8, b.0, b.1]
        + rest);
    let first = Usage { page: m.usage_page, id: (a.0 + 256 * a.1) as u16, extended: false };
    let waiting = ParserModel { local: LocalModel { pending: Some(first), ..m.local }, ..m };
    assert(item_step(m, 0x1a, seq![a.0, a.1]) == (waiting, Ok::<(), Seq<char>>(())));
    lemma_item(waiting, 0x2a, seq![b.0, b.1], rest);
    assert(seq![0x2au8] + seq![b.0, b.1] + rest =~= tail);
}

/// The same holds of four-byte items, which carry their page: both ends must
/// name the same one.
pub proof fn an_extended_usage_range_is_taken_in(
    m: ParserModel,
    a: (u8, u8),
    b: (u8, u8),
    page: (u8, u8),
    rest: Seq<u8>,
)
    requires
        m.local.pending is None,
        m.local.items.len() - usages_in(m.local.items) < 16,
        a.0 + 256 * a.1 <= b.0 + 256 * b.1,
    ensures
        run(
            m,
            seq![0x1bu8, a.0, a.1, page.0, page.1, 0x2bu8, b.0, b.1, page.0, page.1] + rest,
        ) == run(
            ParserModel {
                local: LocalModel {
                    items: m.local.items.push(
                        LocalUsage::Range(
                            UsageRange {
                                minimum: Usage {
                                    page: (page.0 + 256 * page.1) as u16,
                                    id: (a.0 + 256 * a.1) as u16,
                                    extended: true,
                                },
                                maximum: Usage {
                                    page: (page.0 + 256 * page.1) as u16,
                                    id: (b.0 + 256 * b.1) as u16,
                                    extended: true,
                                },
                            },
                        ),
                    ),
                    pending: None,
                },
                ..m
            },
            rest,
        ),
{
    let tail = seq![0x2bu8, b.0, b.1, page.0, page.1] + rest;
    let low = seq![a.0, a.1, page.0, page.1];
    let high = seq![b.0, b.1, page.0, page.1];
    lemma_four(a.0, a.1, page.0, page.1);
    lemma_four(b.0, b.1, page.0, page.1);
    lemma_item(m, 0x1b, low, tail);
    assert(seq![0x1bu8] + low + tail =~= seq![
        0x1bu8,
        a.0,
        a.1,
        page.0,
        page.1,
        0x2bu8,
        b.0,
        b.1,
        page.0,
        page.1,
    ] + rest);
    let first = Usage {
        page: (page.0 + 256 * page.1) as u16,
        id: (a.0 + 256 * a.1) as u16,
        extended: true,
    };
    let last = Usage { id: (b.0 + 256 * b.1) as u16, ..first };
    let waiting = ParserModel { local: LocalModel { pending: Some(first), ..m.local }, ..m };
    assert(le_value(low) == (a.0 + 256 * a.1) + 0x1_0000 * (page.0 + 256 * page.1));
    assert(le_value(high) == (b.0 + 256 * b.1) + 0x1_0000 * (page.0 + 256 * page.1));
    assert(item_step(m, 0x1b, low) == (waiting, Ok::<(), Seq<char>>(())));
    lemma_item(waiting, 0x2b, high, rest);
    assert(seq![0x2bu8] + high + rest =~= tail);
}

/// A range whose minimum is above its maximum is refused, and so are a maximum
/// without a minimum and a second minimum, whatever follows.
pub proof fn a_broken_usage_range_is_refused(
    head: Seq<u8>,
    a: u8,
    b: u8,
    tail: Seq<u8>,
    m: ParserModel,
)
    requires
        run(initial(), head) == Ok::<ParserModel, Seq<char>>(m),
        m.local.pending is None,
    ensures
        a > b ==> classified(head + (seq![0x19u8, a, 0x29u8, b] + tail)) is Err,
        classified(head + (seq![0x29u8, b] + tail)) is Err,
        classified(head + (seq![0x19u8, a, 0x19u8, b] + tail)) is Err,
{
    let waiting = ParserModel {
        local: LocalModel { pending: Some(short_usage(m.usage_page, a)), ..m.local },
        ..m
    };
    lemma_run_concat(initial(), head, seq![0x19u8, a, 0x29u8, b] + tail);
    lemma_run_concat(initial(), head, seq![0x29u8, b] + tail);
    lemma_run_concat(initial(), head, seq![0x19u8, a, 0x19u8, b] + tail);
    lemma_short(m, 0x29, b, tail);
    lemma_short(m, 0x19, a, seq![0x29u8, b] + tail);
    lemma_short(m, 0x19, a, seq![0x19u8, b] + tail);
    assert(item_step(m, 0x19, seq![a]) == (waiting, Ok::<(), Seq<char>>(())));
    lemma_short(waiting, 0x29, b, tail);
    lemma_short(waiting, 0x19, b, tail);
    assert(seq![0x19u8, a] + (seq![0x29u8, b] + tail) =~= seq![0x19u8, a, 0x29u8, b] + tail);
    assert(seq![0x19u8, a] + (seq![0x19u8, b] + tail) =~= seq![0x19u8, a, 0x19u8, b] + tail);
}

/// The buttons of an Input item may be named: a usage range put before it, on any
/// page but that of the keyboard and where no usages wait yet, leaves the
/// descriptor accepted with the same usage, or refused.
pub proof fn named_buttons_make_no_difference(
    head: Seq<u8>,
    a: u8,
    b: u8,
    flags: u8,
    tail: Seq<u8>,
    m: ParserModel,
)
    requires
        run(initial(), head) == Ok::<ParserModel, Seq<char>>(m),
        m.local.items.len() == 0,
        m.local.pending is None,
        m.usage_page != 7,
        a <= b,
        head.len() + 6 + tail.len() <= 131072,
    ensures
        classified(head + (seq![0x19u8, a, 0x29u8, b, 0x81u8, flags] + tail)) == classified(
            head + (seq![0x81u8, flags] + tail),
        ),
{
    let input = seq![0x81u8, flags] + tail;
    let named = seq![0x19u8, a, 0x29u8, b] + input;
    assert(named =~= seq![0x19u8, a, 0x29u8, b, 0x81u8, flags] + tail);
    lemma_run_concat(initial(), head, input);
    lemma_run_concat(initial(), head, named);
    reveal_with_fuel(usages_in, 1);
    assert(usages_in(m.local.items) == 0);
    a_usage_range_is_taken_in(m, a, b, input);
    let range = LocalUsage::Range(
        UsageRange {
            minimum: short_usage(m.usage_page, a),
            maximum: short_usage(m.usage_page, b),
        },
    );
    let items = m.local.items.push(range);
    let held = ParserModel { local: LocalModel { items, pending: None }, ..m };
    assert(items.last() == range);
    assert(completed(items, m.usage_page) == items);
    assert(!has_page(items, 7)) by {
        assert forall|i: int| 0 <= i < items.len() implies item_head(#[trigger] items[i]).page
            != 7 by {
            assert(items[i] == range);
        }
    }
    assert(completed(m.local.items, m.usage_page) == m.local.items);
    lemma_short(m, 0x81, flags, tail);
    lemma_short(held, 0x81, flags, tail);
    assert(item_step(m, 0x81, seq![flags]).1 == item_step(held, 0x81, seq![flags]).1);
    if item_step(m, 0x81, seq![flags]).1 is Ok {
        assert(item_step(m, 0x81, seq![flags]).0 == item_step(held, 0x81, seq![flags]).0);
    }
}

// Whole descriptors.
/// A piece of the description of a controller.
pub enum Piece {
    /// The page that the usages are on from here.
    Page { page: u8 },
    /// What a field ranges over, its unit, its size or its count.
    Setting { tag: u8, value: u8 },
    Report { id: u8 },
    /// A designator or a string that goes with a field.
    Remark { tag: u8, value: u8 },
    Save,
    Restore,
    /// An Input, Output or Feature item and the usages that it reports.
    Field { kind: u8, flags: u8, usages: Seq<u8>, ranges: Seq<(u8, u8)> },
    /// A collection, with its usage where it has one.
    Open { kind: u8, usage: Option<u8> },
    Close,
}

pub open spec fn usage_bytes(usages: Seq<u8>) -> Seq<u8>
    decreases usages.len(),
{
    if usages.len() == 0 {
        Seq::empty()
    } else {
        usage_bytes(usages.drop_last()) + seq![0x09u8, usages.last()]
    }
}

pub open spec fn range_bytes(ranges: Seq<(u8, u8)>) -> Seq<u8>
    decreases ranges.len(),
{
    if ranges.len() == 0 {
        Seq::empty()
    } else {
        range_bytes(ranges.drop_last()) + seq![
            0x19u8,
            ranges.last().0,
            0x29u8,
            ranges.last().1,
        ]
    }
}

pub open spec fn piece_bytes(piece: Piece) -> Seq<u8> {
    match piece {
        Piece::Page { page } => seq![0x05u8, page],
        Piece::Setting { tag, value } => seq![(16 * tag + 5) as u8, value],
        Piece::Report { id } => seq![0x85u8, id],
        Piece::Remark { tag, value } => seq![(16 * tag + 9) as u8, value],
        Piece::Save => seq![0xa4u8],
        Piece::Restore => seq![0xb4u8],
        Piece::Field { kind, flags, usages, ranges } => usage_bytes(usages) + range_bytes(ranges)
            + seq![kind, flags],
        Piece::Open { kind, usage } => match usage {
            Some(u) => seq![0x09u8, u, 0xa1u8, kind],
            None => seq![0xa1u8, kind],
        },
        Piece::Close => seq![0xc0u8],
    }
}

pub open spec fn description(pieces: Seq<Piece>) -> Seq<u8>
    decreases pieces.len(),
{
    if pieces.len() == 0 {
        Seq::empty()
    } else {
        description(pieces.drop_last()) + piece_bytes(pieces.last())
    }
}

/// Where in a description one stands.
pub struct Place {
    pub page: u16,
    pub saved: Seq<u16>,
    pub depth: nat,
}

/// A piece that may stand at a place in the description of a controller.  An
/// Input item reports no keys, unless as padding, and no collection is a
/// pointer, a mouse or a keyboard.
pub open spec fn harmless(piece: Piece, place: Place) -> bool {
    match piece {
        Piece::Page { page } => true,
        Piece::Setting { tag, value } => 1 <= tag <= 7 || tag == 9,
        Piece::Report { id } => id != 0,
        Piece::Remark { tag, value } => 3 <= tag <= 5 || 7 <= tag <= 9,
        Piece::Save => place.saved.len() < 32,
        Piece::Restore => place.saved.len() > 0,
        Piece::Field { kind, flags, usages, ranges } => {
            &&& usages.len() <= 64
            &&& ranges.len() <= 16
            &&& forall|i: int| 0 <= i < ranges.len() ==> (#[trigger] ranges[i]).0 <= ranges[i].1
            &&& kind == 0x81 || kind == 0x91 || kind == 0xb1
            &&& kind == 0x81 ==> flags < 0x80 && (place.page != 7 || flags % 2 == 1)
        },
        Piece::Open { kind, usage } => {
            &&& kind <= 6 || kind >= 0x80
            &&& place.depth < 32
            &&& kind == 1 && place.page == 1 ==> usage != Some(1u8) && usage != Some(2u8) && usage
                != Some(6u8)
        },
        Piece::Close => place.depth > 0,
    }
}

pub open spec fn place_after(piece: Piece, place: Place) -> Place {
    match piece {
        Piece::Page { page } => Place { page: page as u16, ..place },
        Piece::Save => Place { saved: place.saved.push(place.page), ..place },
        Piece::Restore => Place {
            page: place.saved.last(),
            saved: place.saved.drop_last(),
            ..place
        },
        Piece::Open { kind, usage } => Place { depth: place.depth + 1, ..place },
        Piece::Close => Place { depth: (place.depth - 1) as nat, ..place },
        _ => place,
    }
}

/// The place after a description whose pieces are all harmless.
pub open spec fn place_at_end(pieces: Seq<Piece>, place: Place) -> Option<Place>
    decreases pieces.len(),
{
    if pieces.len() == 0 {
        Some(place)
    } else {
        match place_at_end(pieces.drop_last(), place) {
            Some(before) => if harmless(pieces.last(), before) {
                Some(place_after(pieces.last(), before))
            } else {
                None
            },
            None => None,
        }
    }
}

/// The parser stands at a place in the description of a controller.
spec fn stands_at(m: ParserModel, place: Place, controller: u16) -> bool {
    &&& m.usage_page == place.page
    &&& m.stack == place.saved
    &&& m.local == no_local()
    &&& m.depth == place.depth
    &&& m.controller == Some(controller)
    &&& !m.blocked
}

spec fn usage_items(usages: Seq<u8>, page: u16) -> Seq<LocalUsage> {
    usages.map_values(|u: u8| LocalUsage::Usage(short_usage(page, u)))
}

spec fn range_items(ranges: Seq<(u8, u8)>, page: u16) -> Seq<LocalUsage> {
    ranges.map_values(
        |r: (u8, u8)|
            LocalUsage::Range(
                UsageRange { minimum: short_usage(page, r.0), maximum: short_usage(page, r.1) },
            ),
    )
}

proof fn lemma_counts(usages: Seq<u8>, ranges: Seq<(u8, u8)>, page: u16)
    ensures
        usages_in(usage_items(usages, page) + range_items(ranges, page)) == usages.len(),
    decreases usages.len() + ranges.len(),
{
    let all = usage_items(usages, page) + range_items(ranges, page);
    if ranges.len() > 0 {
        lemma_counts(usages, ranges.drop_last(), page);
        assert(all.drop_last() =~= usage_items(usages, page) + range_items(
            ranges.drop_last(),
            page,
        ));
        assert(all.last() is Range);
    } else if usages.len() > 0 {
        lemma_counts(usages.drop_last(), ranges, page);
        assert(all.drop_last() =~= usage_items(usages.drop_last(), page) + range_items(
            ranges,
            page,
        ));
        assert(all.last() is Usage);
    }
}

proof fn lemma_usages_run(m: ParserModel, usages: Seq<u8>)
    requires
        m.local == no_local(),
        usages.len() <= 64,
    ensures
        run(m, usage_bytes(usages)) == Ok::<ParserModel, Seq<char>>(
            ParserModel {
                local: LocalModel { items: usage_items(usages, m.usage_page), pending: None },
                ..m
            },
        ),
    decreases usages.len(),
{
    let items = usage_items(usages, m.usage_page);
    if usages.len() == 0 {
        assert(items =~= Seq::empty());
    } else {
        let head = usages.drop_last();
        let before = usage_items(head, m.usage_page);
        let last = usages.last();
        lemma_usages_run(m, head);
        let held = ParserModel { local: LocalModel { items: before, pending: None }, ..m };
        lemma_run_concat(m, usage_bytes(head), seq![0x09u8, last]);
        lemma_short(held, 0x09, last, Seq::empty());
        assert(seq![0x09u8, last] + Seq::<u8>::empty() =~= seq![0x09u8, last]);
        lemma_counts(head, Seq::empty(), m.usage_page);
        assert(before + range_items(Seq::empty(), m.usage_page) =~= before);
        assert(before.push(LocalUsage::Usage(short_usage(m.usage_page, last))) =~= items);
    }
}

proof fn lemma_ranges_run(m: ParserModel, usages: Seq<u8>, ranges: Seq<(u8, u8)>)
    requires
        m.local == (LocalModel { items: usage_items(usages, m.usage_page), pending: None }),
        ranges.len() <= 16,
        forall|i: int| 0 <= i < ranges.len() ==> (#[trigger] ranges[i]).0 <= ranges[i].1,
    ensures
        run(m, range_bytes(ranges)) == Ok::<ParserModel, Seq<char>>(
            ParserModel {
                local: LocalModel {
                    items: usage_items(usages, m.usage_page) + range_items(ranges, m.usage_page),
                    pending: None,
                },
                ..m
            },
        ),
    decreases ranges.len(),
{
    let front = usage_items(usages, m.usage_page);
    if ranges.len() == 0 {
        assert(front + range_items(ranges, m.usage_page) =~= front);
    } else {
        let head = ranges.drop_last();
        let last = ranges.last();
        assert forall|i: int| 0 <= i < head.len() implies (#[trigger] head[i]).0 <= head[i].1 by {
            assert(head[i] == ranges[i]);
        }
        assert(ranges[ranges.len() - 1] == last);
        let before = front + range_items(head, m.usage_page);
        lemma_ranges_run(m, usages, head);
        lemma_counts(usages, head, m.usage_page);
        let held = ParserModel { local: LocalModel { items: before, pending: None }, ..m };
        let bytes = seq![0x19u8, last.0, 0x29u8, last.1];
        lemma_run_concat(m, range_bytes(head), bytes);
        a_usage_range_is_taken_in(held, last.0, last.1, Seq::empty());
        assert(bytes + Seq::<u8>::empty() =~= bytes);
        assert(before.push(
            LocalUsage::Range(
                UsageRange {
                    minimum: short_usage(m.usage_page, last.0),
                    maximum: short_usage(m.usage_page, last.1),
                },
            ),
        ) =~= front + range_items(ranges, m.usage_page));
    }
}

proof fn lemma_flags(flags: u8)
    ensures
        flags < 0x80 ==> (flags as u32) & !0x017fu32 == 0,
        (flags as u32) & !0x01ffu32 == 0,
        flags % 2 == 1 <==> (flags as u32) & 1 != 0,
{
    let f = flags as u32;
    assert(f < 0x80 ==> f & !0x017fu32 == 0) by (bit_vector);
    assert(f < 0x100 ==> f & !0x01ffu32 == 0) by (bit_vector);
    assert(f % 2 == 1 <==> f & 1 != 0) by (bit_vector);
}

proof fn lemma_field(
    m: ParserModel,
    place: Place,
    controller: u16,
    kind: u8,
    flags: u8,
    usages: Seq<u8>,
    ranges: Seq<(u8, u8)>,
)
    requires
        stands_at(m, place, controller),
        harmless(Piece::Field { kind, flags, usages, ranges }, place),
    ensures
        run(m, piece_bytes(Piece::Field { kind, flags, usages, ranges })) == Ok::<
            ParserModel,
            Seq<char>,
        >(m),
{
    let page = m.usage_page;
    let items = usage_items(usages, page) + range_items(ranges, page);
    let first = usage_bytes(usages);
    let second = range_bytes(ranges);
    let third = seq![kind, flags];
    let named = ParserModel {
        local: LocalModel { items: usage_items(usages, page), pending: None },
        ..m
    };
    let held = ParserModel { local: LocalModel { items, pending: None }, ..m };
    lemma_usages_run(m, usages);
    lemma_ranges_run(named, usages, ranges);
    lemma_run_concat(m, first, second);
    lemma_run_concat(m, first + second, third);
    lemma_short(held, kind, flags, Seq::empty());
    assert(third + Seq::<u8>::empty() =~= third);
    lemma_flags(flags);
    assert forall|i: int| 0 <= i < items.len() implies item_head(#[trigger] items[i]).page == page
        && !item_head(items[i]).extended by {
        if i < usages.len() {
            assert(items[i] == usage_items(usages, page)[i]);
        } else {
            assert(items[i] == range_items(ranges, page)[i - usages.len()]);
        }
    }
    if items.len() > 0 {
        assert(items[items.len() - 1] == items.last());
    }
    assert(completed(items, page) == items);
    assert(page != 7 ==> !has_page(items, 7));
    assert(item_step(held, kind, seq![flags]) == (m, Ok::<(), Seq<char>>(())));
}

proof fn lemma_open(
    m: ParserModel,
    place: Place,
    controller: u16,
    kind: u8,
    usage: Option<u8>,
)
    requires
        stands_at(m, place, controller),
        harmless(Piece::Open { kind, usage }, place),
    ensures
        run(m, piece_bytes(Piece::Open { kind, usage })) == Ok::<ParserModel, Seq<char>>(
            ParserModel { depth: m.depth + 1, ..m },
        ),
{
    let page = m.usage_page;
    let open = seq![0xa1u8, kind];
    let after = ParserModel { depth: m.depth + 1, ..m };
    assert(open + Seq::<u8>::empty() =~= open);
    match usage {
        None => {
            lemma_short(m, 0xa1, kind, Seq::empty());
            assert(completed(m.local.items, page) == m.local.items);
            assert(item_step(m, 0xa1, seq![kind]) == (after, Ok::<(), Seq<char>>(())));
        },
        Some(u) => {
            let items = seq![LocalUsage::Usage(short_usage(page, u))];
            let named = ParserModel { local: LocalModel { items, pending: None }, ..m };
            lemma_short(m, 0x09, u, open);
            assert(m.local.items.push(LocalUsage::Usage(short_usage(page, u))) =~= items);
            assert(item_step(m, 0x09, seq![u]) == (named, Ok::<(), Seq<char>>(())));
            assert(seq![0x09u8, u] + open =~= seq![0x09u8, u, 0xa1u8, kind]);
            lemma_short(named, 0xa1, kind, Seq::empty());
            assert(items.last() == items[0]);
            assert(completed(items, page) == items);
            assert(item_step(named, 0xa1, seq![kind]) == (after, Ok::<(), Seq<char>>(())));
        },
    }
}

proof fn lemma_piece(m: ParserModel, place: Place, controller: u16, piece: Piece)
    requires
        stands_at(m, place, controller),
        harmless(piece, place),
    ensures
        run(m, piece_bytes(piece)) matches Ok(after) && stands_at(
            after,
            place_after(piece, place),
            controller,
        ),
{
    let none = Seq::<u8>::empty();
    match piece {
        Piece::Page { page } => {
            lemma_short(m, 0x05, page, none);
            assert(seq![0x05u8, page] + none =~= seq![0x05u8, page]);
        },
        Piece::Setting { tag, value } => {
            let prefix = (16 * tag + 5) as u8;
            lemma_short(m, prefix, value, none);
            assert(seq![prefix, value] + none =~= seq![prefix, value]);
        },
        Piece::Report { id } => {
            lemma_short(m, 0x85, id, none);
            assert(seq![0x85u8, id] + none =~= seq![0x85u8, id]);
        },
        Piece::Remark { tag, value } => {
            let prefix = (16 * tag + 9) as u8;
            lemma_short(m, prefix, value, none);
            assert(seq![prefix, value] + none =~= seq![prefix, value]);
        },
        Piece::Save => {
            lemma_bare(m, 0xa4, none);
            assert(seq![0xa4u8] + none =~= seq![0xa4u8]);
        },
        Piece::Restore => {
            lemma_bare(m, 0xb4, none);
            assert(seq![0xb4u8] + none =~= seq![0xb4u8]);
        },
        Piece::Field { kind, flags, usages, ranges } => {
            lemma_field(m, place, controller, kind, flags, usages, ranges);
        },
        Piece::Open { kind, usage } => {
            lemma_open(m, place, controller, kind, usage);
        },
        Piece::Close => {
            lemma_bare(m, 0xc0, none);
            assert(seq![0xc0u8] + none =~= seq![0xc0u8]);
        },
    }
}

proof fn lemma_description(m: ParserModel, place: Place, controller: u16, pieces: Seq<Piece>)
    requires
        stands_at(m, place, controller),
        place_at_end(pieces, place) is Some,
    ensures
        run(m, description(pieces)) matches Ok(after) && stands_at(
            after,
            place_at_end(pieces, place)->0,
            controller,
        ),
    decreases pieces.len(),
{
    if pieces.len() > 0 {
        let head = pieces.drop_last();
        lemma_description(m, place, controller, head);
        let between = run(m, description(head))->Ok_0;
        lemma_piece(between, place_at_end(head, place)->0, controller, pieces.last());
        lemma_run_concat(m, description(head), piece_bytes(pieces.last()));
    }
}

proof fn lemma_application(m: ParserModel, usage: u8, rest: Seq<u8>)
    requires
        m.local == no_local(),
        m.depth < 32,
    ensures
        run(m, seq![0x05u8, 0x01u8, 0x09u8, usage, 0xa1u8, 0x01u8] + rest) == run(
            ParserModel {
                usage_page: 1,
                depth: m.depth + 1,
                blocked: m.blocked || usage == 1 || usage == 2 || usage == 6,
                controller: if m.controller is Some {
                    m.controller
                } else if usage == 4 || usage == 5 {
                    Some(usage as u16)
                } else {
                    None
                },
                ..m
            },
            rest,
        ),
{
    let open = seq![0xa1u8, 0x01u8] + rest;
    let name = seq![0x09u8, usage] + open;
    let desktop = ParserModel { usage_page: 1, ..m };
    let items = seq![LocalUsage::Usage(short_usage(1, usage))];
    let named = ParserModel { local: LocalModel { items, pending: None }, ..desktop };
    lemma_short(m, 0x05, 0x01, name);
    assert(item_step(m, 0x05, seq![0x01u8]) == (desktop, Ok::<(), Seq<char>>(())));
    lemma_short(desktop, 0x09, usage, open);
    assert(m.local.items.push(LocalUsage::Usage(short_usage(1, usage))) =~= items);
    assert(item_step(desktop, 0x09, seq![usage]) == (named, Ok::<(), Seq<char>>(())));
    lemma_short(named, 0xa1, 0x01, rest);
    assert(items.last() == items[0]);
    assert(completed(items, 1) == items);
    assert(seq![0x05u8, 0x01u8] + name =~= seq![0x05u8, 0x01u8, 0x09u8, usage, 0xa1u8, 0x01u8]
        + rest);
}

/// A Generic Desktop Joystick or Gamepad application is accepted as such,
/// whatever harmless pieces describe it: fields with usages and ranges on any
/// page but that of the keyboard, padding, settings, reports and collections.
pub proof fn a_described_controller_is_accepted(usage: u8, pieces: Seq<Piece>)
    requires
        usage == 4 || usage == 5,
        place_at_end(pieces, Place { page: 1, saved: Seq::empty(), depth: 1 }) matches Some(end)
            && end.depth == 0,
        6 + description(pieces).len() <= 131072,
    ensures
        classified(
            seq![0x05u8, 0x01u8, 0x09u8, usage, 0xa1u8, 0x01u8] + description(pieces),
        ) == Ok::<(u16, u16), Seq<char>>((1u16, usage as u16)),
{
    let place = Place { page: 1, saved: Seq::empty(), depth: 1 };
    let m = initial();
    lemma_application(m, usage, description(pieces));
    let opened = ParserModel {
        usage_page: 1,
        depth: 1,
        controller: Some(usage as u16),
        ..m
    };
    lemma_description(opened, place, usage as u16, pieces);
}

/// A pointer, a mouse or a keyboard application anywhere makes the whole
/// descriptor unacceptable, whatever stands before and after it.
pub proof fn a_foreign_application_is_vetoed(
    head: Seq<u8>,
    usage: u8,
    tail: Seq<u8>,
    m: ParserModel,
)
    requires
        usage == 1 || usage == 2 || usage == 6,
        run(initial(), head) == Ok::<ParserModel, Seq<char>>(m),
        m.local == no_local(),
        m.depth < 32,
    ensures
        classified(
            head + (seq![0x05u8, 0x01u8, 0x09u8, usage, 0xa1u8, 0x01u8] + tail),
        ) is Err,
{
    lemma_application(m, usage, tail);
    lemma_run_concat(
        initial(),
        head,
        seq![0x05u8, 0x01u8, 0x09u8, usage, 0xa1u8, 0x01u8] + tail,
    );
    let after = ParserModel {
        usage_page: 1,
        depth: m.depth + 1,
        blocked: true,
        controller: if m.controller is Some {
            m.controller
        } else {
            None
        },
        ..m
    };
    lemma_blocked_stays(after, tail);
}

/// Keys that are reported as data make the whole descriptor unacceptable,
/// whatever stands before and after them; as padding they do not count.
pub proof fn reported_keys_are_vetoed(
    head: Seq<u8>,
    a: u8,
    b: u8,
    flags: u8,
    tail: Seq<u8>,
    m: ParserModel,
)
    requires
        run(initial(), head) == Ok::<ParserModel, Seq<char>>(m),
        m.local == no_local(),
        a <= b,
        flags % 2 == 0,
    ensures
        classified(
            head + (seq![0x05u8, 0x07u8, 0x19u8, a, 0x29u8, b, 0x81u8, flags] + tail),
        ) is Err,
        classified(head + (seq![0x05u8, 0x07u8, 0x81u8, flags] + tail)) is Err,
{
    let input = seq![0x81u8, flags] + tail;
    let range = seq![0x19u8, a, 0x29u8, b] + input;
    let named = seq![0x05u8, 0x07u8] + range;
    let bare = seq![0x05u8, 0x07u8] + input;
    assert(named =~= seq![0x05u8, 0x07u8, 0x19u8, a, 0x29u8, b, 0x81u8, flags] + tail);
    assert(bare =~= seq![0x05u8, 0x07u8, 0x81u8, flags] + tail);
    lemma_run_concat(initial(), head, named);
    lemma_run_concat(initial(), head, bare);
    let keys = ParserModel { usage_page: 7, ..m };
    lemma_short(m, 0x05, 0x07, range);
    lemma_short(m, 0x05, 0x07, input);
    assert(item_step(m, 0x05, seq![0x07u8]) == (keys, Ok::<(), Seq<char>>(())));
    a_usage_range_is_taken_in(keys, a, b, input);
    let item = LocalUsage::Range(
        UsageRange { minimum: short_usage(7, a), maximum: short_usage(7, b) },
    );
    let items = m.local.items.push(item);
    let held = ParserModel { local: LocalModel { items, pending: None }, ..keys };
    assert(items.last() == item);
    assert(completed(items, 7) == items);
    assert(item_head(items[0]).page == 7);
    assert(has_page(items, 7));
    assert(completed(m.local.items, 7) == m.local.items);
    lemma_flags(flags);
    lemma_short(held, 0x81, flags, tail);
    lemma_short(keys, 0x81, flags, tail);
    if item_step(held, 0x81, seq![flags]).1 is Ok {
        lemma_blocked_stays(item_step(held, 0x81, seq![flags]).0, tail);
    }
    if item_step(keys, 0x81, seq![flags]).1 is Ok {
        lemma_blocked_stays(item_step(keys, 0x81, seq![flags]).0, tail);
    }
}

proof fn lemma_controller_stays(m: ParserModel, bytes: Seq<u8>)
    requires
        m.controller is Some,
    ensures
        run(m, bytes) matches Ok(end) ==> end.controller == m.controller,
    decreases bytes.len(),
{
    if bytes.len() > 0 && bytes[0] != 0xfe && payload_len_of(bytes[0]) <= bytes.len() - 1 {
        let end = 1 + payload_len_of(bytes[0]);
        let (next, outcome) = item_step(m, bytes[0], bytes.subrange(1, end as int));
        if outcome is Ok {
            lemma_controller_stays(next, bytes.skip(end as int));
        }
    }
}

/// The first Joystick or Gamepad application decides what an accepted
/// descriptor is; later ones change nothing.
pub proof fn the_first_controller_decides(
    head: Seq<u8>,
    usage: u8,
    tail: Seq<u8>,
    m: ParserModel,
)
    requires
        usage == 4 || usage == 5,
        run(initial(), head) == Ok::<ParserModel, Seq<char>>(m),
        m.controller is None,
        m.local == no_local(),
        m.depth < 32,
    ensures
        classified(head + (seq![0x05u8, 0x01u8, 0x09u8, usage, 0xa1u8, 0x01u8] + tail))
            matches Ok(found) ==> found == (1u16, usage as u16),
{
    lemma_application(m, usage, tail);
    lemma_run_concat(
        initial(),
        head,
        seq![0x05u8, 0x01u8, 0x09u8, usage, 0xa1u8, 0x01u8] + tail,
    );
    let after = ParserModel {
        usage_page: 1,
        depth: m.depth + 1,
        controller: Some(usage as u16),
        ..m
    };
    lemma_controller_stays(after, tail);
}

/// A collection that is opened has to be closed, and only what is open can be
/// closed.
pub proof fn collections_have_to_balance(bytes: Seq<u8>, kind: u8)
    requires
        classified(bytes) is Ok,
    ensures
        classified(bytes + seq![0xa1u8, kind]) is Err,
        classified(bytes + seq![0xc0u8]) is Err,
{
    let m = run(initial(), bytes)->Ok_0;
    let none = Seq::<u8>::empty();
    lemma_run_concat(initial(), bytes, seq![0xa1u8, kind]);
    lemma_run_concat(initial(), bytes, seq![0xc0u8]);
    lemma_short(m, 0xa1, kind, none);
    lemma_bare(m, 0xc0, none);
    assert(seq![0xa1u8, kind] + none =~= seq![0xa1u8, kind]);
    assert(seq![0xc0u8] + none =~= seq![0xc0u8]);
}

/// A descriptor that breaks off inside an item is refused, and so is an item of
/// a kind that is not known, whatever follows.
pub proof fn a_broken_item_is_refused(
    head: Seq<u8>,
    prefix: u8,
    part: Seq<u8>,
    m: ParserModel,
)
    requires
        run(initial(), head) == Ok::<ParserModel, Seq<char>>(m),
    ensures
        part.len() < (if prefix % 4 == 3 {
            4int
        } else {
            (prefix % 4) as int
        }) ==> classified(head + (seq![prefix] + part)) is Err,
        prefix / 4 % 4 == 3 ==> classified(head + (seq![prefix] + part)) is Err,
{
    let bytes = seq![prefix] + part;
    lemma_run_concat(initial(), head, bytes);
    assert(bytes[0] == prefix);
}

/// How wide a value is written does not matter: a zero byte behind it changes
/// nothing.
pub proof fn a_wider_value_means_the_same(m: ParserModel, prefix: u8, v: u8, rest: Seq<u8>)
    requires
        prefix % 4 == 1,
        prefix != 0xfd,
    ensures
        run(m, seq![prefix, v] + rest) == run(m, seq![(prefix + 1) as u8, v, 0u8] + rest),
{
    let wide = (prefix + 1) as u8;
    lemma_short(m, prefix, v, rest);
    lemma_two(v, 0);
    lemma_item(m, wide, seq![v, 0u8], rest);
    assert(seq![wide] + seq![v, 0u8] + rest =~= seq![wide, v, 0u8] + rest);
}

/// A usage that carries the Generic Desktop page names an application as well
/// as one that takes it from the page before.
pub proof fn an_extended_usage_names_an_application(m: ParserModel, usage: u8, rest: Seq<u8>)
    requires
        m.local == no_local(),
        m.usage_page == 1,
    ensures
        run(m, seq![0x0bu8, usage, 0u8, 1u8, 0u8, 0xa1u8, 0x01u8] + rest) == run(
            m,
            seq![0x09u8, usage, 0xa1u8, 0x01u8] + rest,
        ),
{
    let open = seq![0xa1u8, 0x01u8] + rest;
    let payload = seq![usage, 0u8, 1u8, 0u8];
    let short = seq![LocalUsage::Usage(short_usage(1, usage))];
    let long = seq![LocalUsage::Usage(Usage { page: 1, id: usage as u16, extended: true })];
    let with_short = ParserModel { local: LocalModel { items: short, pending: None }, ..m };
    let with_long = ParserModel { local: LocalModel { items: long, pending: None }, ..m };
    lemma_four(usage, 0, 1, 0);
    lemma_item(m, 0x0b, payload, open);
    lemma_short(m, 0x09, usage, open);
    assert(m.local.items.push(short[0]) =~= short);
    assert(m.local.items.push(long[0]) =~= long);
    assert(item_step(m, 0x0b, payload) == (with_long, Ok::<(), Seq<char>>(())));
    assert(item_step(m, 0x09, seq![usage]) == (with_short, Ok::<(), Seq<char>>(())));
    assert(seq![0x0bu8] + payload + open =~= seq![
        0x0bu8,
        usage,
        0u8,
        1u8,
        0u8,
        0xa1u8,
        0x01u8,
    ] + rest);
    assert(seq![0x09u8, usage] + open =~= seq![0x09u8, usage, 0xa1u8, 0x01u8] + rest);
    lemma_short(with_short, 0xa1, 0x01, rest);
    lemma_short(with_long, 0xa1, 0x01, rest);
    assert(short.last() == short[0] && long.last() == long[0]);
    assert(completed(short, 1) == short);
    assert(long.drop_last() =~= Seq::<LocalUsage>::empty());
    reveal_with_fuel(completed, 2);
    assert(completed(long, 1) =~= long);
}

} // verus!
