//! What each item of a report descriptor does.
use crate::hid_descriptor::{
    classified, item_step, le_value, local_empty, no_local, run, usages_in, verdict, LocalModel,
    LocalUsage, ParserModel, Usage,
};
use vstd::prelude::*;

verus! {

proof fn lemma_byte(v: u8)
    ensures
        le_value(seq![v]) == v,
{
    reveal_with_fuel(le_value, 2);
    assert(seq![v].drop_first() =~= Seq::empty());
}

/// The item is taken without an effect.
pub open spec fn passes(m: ParserModel, prefix: u8, payload: Seq<u8>) -> bool {
    item_step(m, prefix, payload) == (m, Ok::<(), Seq<char>>(()))
}

/// The item is refused.
pub open spec fn refused(m: ParserModel, prefix: u8, payload: Seq<u8>) -> bool {
    item_step(m, prefix, payload).1 is Err
}

/// Global items: a usage page is taken over; bounds, units, sizes and counts have
/// no effect; a report number is anything but zero; the page can be put away up to
/// thirty-two times and comes back in reverse.
pub proof fn what_global_items_do(m: ParserModel, v: u8)
    ensures
        item_step(m, 0x05, seq![v]) == (
            ParserModel { usage_page: v as u16, ..m },
            Ok::<(), Seq<char>>(()),
        ),
        passes(m, 0x15, seq![v]),
        passes(m, 0x25, seq![v]),
        passes(m, 0x35, seq![v]),
        passes(m, 0x45, seq![v]),
        passes(m, 0x55, seq![v]),
        passes(m, 0x65, seq![v]),
        passes(m, 0x75, seq![v]),
        passes(m, 0x95, seq![v]),
        v > 0 ==> passes(m, 0x85, seq![v]),
        refused(m, 0x85, seq![0u8]),
        m.stack.len() < 32 ==> item_step(m, 0xa4, Seq::empty()) == (
            ParserModel { stack: m.stack.push(m.usage_page), ..m },
            Ok::<(), Seq<char>>(()),
        ),
        m.stack.len() == 32 ==> refused(m, 0xa4, Seq::empty()),
        m.stack.len() > 0 ==> item_step(m, 0xb4, Seq::empty()) == (
            ParserModel { usage_page: m.stack.last(), stack: m.stack.drop_last(), ..m },
            Ok::<(), Seq<char>>(()),
        ),
        m.stack.len() == 0 ==> refused(m, 0xb4, Seq::empty()),
        refused(m, 0x04, Seq::empty()),
        refused(m, 0xa5, seq![v]),
        refused(m, 0xb5, seq![v]),
        refused(m, 0xc4, Seq::empty()),
{
    lemma_byte(v);
    lemma_byte(0);
}

/// Local items: a usage waits for the next main item, up to sixty-four of them; a
/// range needs its minimum first and once; designators and strings have no effect;
/// delimiters are refused.
pub proof fn what_local_items_do(m: ParserModel, v: u8)
    ensures
        ({
            let usage = Usage { page: m.usage_page, id: v as u16, extended: false };
            &&& usages_in(m.local.items) < 64 ==> item_step(m, 0x09, seq![v]) == (
                ParserModel {
                    local: LocalModel {
                        items: m.local.items.push(LocalUsage::Usage(usage)),
                        ..m.local
                    },
                    ..m
                },
                Ok::<(), Seq<char>>(()),
            )
            &&& usages_in(m.local.items) == 64 ==> refused(m, 0x09, seq![v])
            &&& m.local.pending is None ==> item_step(m, 0x19, seq![v]) == (
                ParserModel { local: LocalModel { pending: Some(usage), ..m.local }, ..m },
                Ok::<(), Seq<char>>(()),
            )
            &&& m.local.pending is Some ==> refused(m, 0x19, seq![v])
            &&& m.local.pending is None ==> refused(m, 0x29, seq![v])
            &&& m.local.items.len() - usages_in(m.local.items) == 16 ==> refused(
                m,
                0x29,
                seq![v],
            )
        }),
        passes(m, 0x39, seq![v]),
        passes(m, 0x49, seq![v]),
        passes(m, 0x59, seq![v]),
        passes(m, 0x79, seq![v]),
        passes(m, 0x89, seq![v]),
        passes(m, 0x99, seq![v]),
        refused(m, 0x69, seq![v]),
        refused(m, 0xa9, seq![v]),
        refused(m, 0xb9, seq![v]),
        refused(m, 0x08, Seq::empty()),
{
    lemma_byte(v);
}

/// Main items take up all usages that wait, and are refused while a range is half
/// given.  A collection is of a known or a vendor kind and at most thirty-two deep;
/// its end needs an open one and no waiting usages.
pub proof fn what_main_items_do(m: ParserModel, v: u8)
    ensures
        m.local.pending is Some ==> refused(m, 0x81, seq![v]) && refused(m, 0x91, seq![v])
            && refused(m, 0xb1, seq![v]) && refused(m, 0xa1, seq![v]) && refused(
            m,
            0xc0,
            Seq::empty(),
        ),
        m.local.pending is None ==> {
            &&& item_step(m, 0x91, seq![v]) == (
                ParserModel { local: no_local(), ..m },
                Ok::<(), Seq<char>>(()),
            )
            &&& item_step(m, 0xb1, seq![v]) == (
                ParserModel { local: no_local(), ..m },
                Ok::<(), Seq<char>>(()),
            )
            &&& v < 128 ==> item_step(m, 0x81, seq![v]).1 is Ok && item_step(
                m,
                0x81,
                seq![v],
            ).0.local == no_local() && item_step(m, 0x81, seq![v]).0.depth == m.depth && item_step(
                m,
                0x81,
                seq![v],
            ).0.controller == m.controller
            &&& v >= 128 ==> refused(m, 0x81, seq![v])
            &&& v % 2 == 1 && v < 128 ==> item_step(m, 0x81, seq![v]).0.blocked == m.blocked
            &&& (v == 0 || 2 <= v <= 6 || v >= 128) && m.depth < 32 ==> item_step(
                m,
                0xa1,
                seq![v],
            ) == (
                ParserModel { depth: m.depth + 1, local: no_local(), ..m },
                Ok::<(), Seq<char>>(()),
            )
            &&& 7 <= v < 128 ==> refused(m, 0xa1, seq![v])
            &&& m.depth == 32 ==> refused(m, 0xa1, seq![v])
        },
        local_empty(m.local) && m.depth > 0 ==> item_step(m, 0xc0, Seq::empty()) == (
            ParserModel { depth: (m.depth - 1) as nat, local: no_local(), ..m },
            Ok::<(), Seq<char>>(()),
        ),
        !local_empty(m.local) || m.depth == 0 ==> refused(m, 0xc0, Seq::empty()),
        refused(m, 0xc1, seq![v]),
        refused(m, 0xd1, seq![v]),
        refused(m, 0x01, seq![v]),
{
    lemma_byte(v);
    let flags = v as u32;
    assert(flags < 256 ==> (flags & !0x017fu32 != 0 <==> flags >= 128)) by (bit_vector);
    assert(flags < 256 ==> flags & !0x01ffu32 == 0) by (bit_vector);
    assert(flags & 1u32 == 0 <==> flags % 2 == 0) by (bit_vector);
}

/// At its end a descriptor has to have closed its collections and used its usages;
/// it is a controller where one was named and nothing speaks against it.
pub proof fn how_a_descriptor_is_judged(m: ParserModel)
    ensures
        m.depth > 0 || !local_empty(m.local) || m.blocked || m.controller is None ==> verdict(m)
            is Err,
        m.depth == 0 && local_empty(m.local) && !m.blocked ==> (m.controller matches Some(usage)
            ==> verdict(m) == Ok::<(u16, u16), Seq<char>>((1u16, usage))),
{
}

/// An empty descriptor is refused, and so is one of more than 131072 bytes, and a
/// long item.
pub proof fn what_no_descriptor_is(bytes: Seq<u8>, m: ParserModel)
    ensures
        bytes.len() == 0 || bytes.len() > 131072 ==> classified(bytes) is Err,
        0 < bytes.len() <= 131072 && run(crate::hid_descriptor::initial(), bytes) == Ok::<
            ParserModel,
            Seq<char>,
        >(m) ==> classified(bytes) == verdict(m),
        bytes.len() > 0 && bytes[0] == 0xfe ==> run(m, bytes) is Err,
{
}

} // verus!
