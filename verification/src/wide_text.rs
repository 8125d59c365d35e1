//! UTF-16 text, and the normal form of names that the device manager reports.
use crate::text::{
    ascii_upper, chars_of, decimal, decimal_of, is_space, joined, nuls, spaces, trim_back,
    trim_ends, trim_front, trimmed, upper, upper_hex, upper_hex_of, uppered, Cut,
};
use vstd::prelude::*;

verus! {

/// `char::from_u32` gives the character of a code point exactly for the
/// Unicode scalar values.
pub assume_specification[ char::from_u32 ](i: u32) -> (r: Option<char>)
    ensures
        r is Some <==> i < 0xd800 || 0xe000 <= i <= 0x10ffff,
        r matches Some(c) ==> c == i as char,
;

/// What stands for a unit that is no text.
pub const REPLACEMENT: char = '\u{fffd}';

pub open spec fn high(unit: u16) -> bool {
    0xd800 <= unit <= 0xdbff
}

pub open spec fn low(unit: u16) -> bool {
    0xdc00 <= unit <= 0xdfff
}

/// The code point of a surrogate pair.
pub open spec fn paired(first: u16, second: u16) -> u32 {
    (0x10000 + (first - 0xd800) * 0x400 + (second - 0xdc00)) as u32
}

/// One or two units that encode a character.
pub open spec fn units_of(c: char) -> Seq<u16> {
    let n = c as u32;
    if n < 0x10000 {
        seq![n as u16]
    } else {
        seq![(0xd800 + (n - 0x10000) / 0x400) as u16, (0xdc00 + (n - 0x10000) % 0x400) as u16]
    }
}

pub open spec fn utf16(s: Seq<char>) -> Seq<u16>
    decreases s.len(),
{
    if s.len() == 0 {
        Seq::empty()
    } else {
        utf16(s.drop_last()) + units_of(s.last())
    }
}

/// The text of UTF-16 units, with a replacement for each lone surrogate.
pub open spec fn utf16_text(units: Seq<u16>) -> Seq<char>
    decreases units.len(),
{
    if units.len() == 0 {
        Seq::empty()
    } else if high(units[0]) && units.len() > 1 && low(units[1]) {
        seq![paired(units[0], units[1]) as char] + utf16_text(units.skip(2))
    } else if high(units[0]) || low(units[0]) {
        seq![REPLACEMENT] + utf16_text(units.skip(1))
    } else {
        seq![units[0] as char] + utf16_text(units.skip(1))
    }
}

fn push_units(out: &mut Vec<u16>, c: char)
    ensures
        final(out)@ == old(out)@ + units_of(c),
{
    let n: u32 = c as u32;
    if n < 0x10000 {
        out.push(n as u16);
        assert(out@ == old(out)@ + units_of(c));
    } else {
        let rest: u32 = n - 0x10000;
        out.push((0xd800 + rest / 0x400) as u16);
        out.push((0xdc00 + rest % 0x400) as u16);
        assert(out@ == old(out)@ + units_of(c));
    }
}

/// The text in UTF-16, with a terminating zero.
pub fn wide(value: &str) -> (r: Vec<u16>)
    ensures
        r@ == utf16(value@).push(0),
{
    let chars = chars_of(value);
    let mut out: Vec<u16> = Vec::new();
    let mut i: usize = 0;
    assert(value@.take(0).len() == 0);
    while i < chars.len()
        invariant
            i <= chars@.len(),
            chars@ == value@,
            out@ == utf16(value@.take(i as int)),
        decreases chars@.len() - i,
    {
        assert(value@.take(i + 1).drop_last() == value@.take(i as int));
        assert(value@.take(i + 1).last() == value@[i as int]);
        push_units(&mut out, chars[i]);
        i += 1;
    }
    assert(value@.take(i as int) == value@);
    out.push(0);
    out
}

fn char_at(n: u32) -> (r: char)
    requires
        n < 0xd800 || 0xe000 <= n <= 0x10ffff,
    ensures
        r == n as char,
{
    match char::from_u32(n) {
        Some(c) => c,
        None => REPLACEMENT,
    }
}

/// The text of UTF-16 units.
pub fn lossy_text(units: &[u16]) -> (r: String)
    ensures
        r@ == utf16_text(units@),
{
    let mut out: String = String::new();
    let mut i: usize = 0;
    assert(units@.skip(0) == units@);
    while i < units.len()
        invariant
            i <= units@.len(),
            out@ + utf16_text(units@.skip(i as int)) == utf16_text(units@),
        decreases units@.len() - i,
    {
        let ghost rest = units@.skip(i as int);
        let ghost before = out@;
        let unit: u16 = units[i];
        assert(rest[0] == unit);
        assert(rest.skip(1) == units@.skip(i + 1));
        if 0xd800 <= unit && unit <= 0xdbff && units.len() - i > 1 && 0xdc00 <= units[i + 1]
            && units[i + 1] <= 0xdfff {
            let second: u16 = units[i + 1];
            assert(rest[1] == second);
            assert(rest.skip(2) == units@.skip(i + 2));
            let n: u32 = 0x10000 + (unit as u32 - 0xd800) * 0x400 + (second as u32 - 0xdc00);
            out.push(char_at(n));
            assert(out@ + utf16_text(rest.skip(2)) == before + (seq![paired(unit, second) as char]
                + utf16_text(rest.skip(2))));
            i += 2;
        } else if 0xd800 <= unit && unit <= 0xdfff {
            out.push(REPLACEMENT);
            assert(out@ + utf16_text(rest.skip(1)) == before + (seq![REPLACEMENT] + utf16_text(
                rest.skip(1),
            )));
            i += 1;
        } else {
            out.push(char_at(unit as u32));
            assert(out@ + utf16_text(rest.skip(1)) == before + (seq![unit as char] + utf16_text(
                rest.skip(1),
            )));
            i += 1;
        }
    }
    assert(units@.skip(i as int).len() == 0);
    out
}

/// Text that was encoded decodes to itself.
pub proof fn decoding_inverts_encoding(s: Seq<char>)
    ensures
        utf16_text(utf16(s)) == s,
    decreases s.len(),
{
    lemma_decoded_prefix(s, Seq::empty());
    assert(utf16(s) + Seq::<u16>::empty() == utf16(s));
    assert(utf16_text(Seq::empty()) == Seq::<char>::empty());
}

proof fn lemma_decoded_prefix(s: Seq<char>, rest: Seq<u16>)
    ensures
        utf16_text(utf16(s) + rest) == s + utf16_text(rest),
    decreases s.len(),
{
    if s.len() == 0 {
        assert(utf16(s) + rest == rest);
        assert(s + utf16_text(rest) == utf16_text(rest));
    } else {
        let last = s.last();
        let tail = units_of(last) + rest;
        assert(utf16(s) + rest == utf16(s.drop_last()) + tail);
        lemma_decoded_prefix(s.drop_last(), tail);
        lemma_decoded_char(last, rest);
        assert(s.drop_last() + (seq![last] + utf16_text(rest)) == s + utf16_text(rest));
    }
}

proof fn lemma_decoded_char(c: char, rest: Seq<u16>)
    ensures
        utf16_text(units_of(c) + rest) == seq![c] + utf16_text(rest),
{
    let n = c as u32;
    let all = units_of(c) + rest;
    if n < 0x10000 {
        assert(all.skip(1) == rest);
        assert(all[0] == n as u16);
    } else {
        assert(all.skip(2) == rest);
        let m = n - 0x10000;
        assert(all[0] == 0xd800 + m / 0x400);
        assert(all[1] == 0xdc00 + m % 0x400);
        assert(paired(all[0], all[1]) == n);
    }
}

/// The text without zeros at its ends, then without white space at its ends.
pub open spec fn cleaned(s: Seq<char>) -> Seq<char> {
    trimmed(trim_back(trim_front(s, nuls()), nuls()))
}

pub fn clean_text(value: &str) -> (r: String)
    ensures
        r@ == cleaned(value@),
{
    trim_ends(trim_ends(value, Cut::Nul).as_str(), Cut::Space)
}

/// The form in which names are compared.
pub open spec fn normal(s: Seq<char>) -> Seq<char> {
    uppered(cleaned(s))
}

pub fn normalized(value: &str) -> (r: String)
    ensures
        r@ == normal(value@),
{
    ascii_upper(clean_text(value).as_str())
}

proof fn lemma_front(s: Seq<char>, cut: spec_fn(char) -> bool)
    ensures
        trim_front(s, cut).len() > 0 ==> !cut(trim_front(s, cut)[0]),
        forall|i: int|
            0 <= i < trim_front(s, cut).len() ==> s.contains(#[trigger] trim_front(s, cut)[i]),
    decreases s.len(),
{
    if s.len() > 0 && cut(s[0]) {
        lemma_front(s.drop_first(), cut);
        let t = trim_front(s, cut);
        assert forall|i: int| 0 <= i < t.len() implies s.contains(#[trigger] t[i]) by {
            let k = choose|k: int|
                0 <= k < s.drop_first().len() && s.drop_first()[k] == trim_front(
                    s.drop_first(),
                    cut,
                )[i];
            assert(s[k + 1] == t[i]);
        }
    }
}

proof fn lemma_back(s: Seq<char>, cut: spec_fn(char) -> bool)
    ensures
        trim_back(s, cut).len() <= s.len(),
        trim_back(s, cut) == s.take(trim_back(s, cut).len() as int),
        trim_back(s, cut).len() > 0 ==> !cut(trim_back(s, cut).last()),
    decreases s.len(),
{
    if s.len() > 0 && cut(s.last()) {
        lemma_back(s.drop_last(), cut);
        let n = trim_back(s, cut).len() as int;
        assert(s.drop_last().take(n) == s.take(n));
    } else {
        assert(s.take(s.len() as int) == s);
    }
}

/// The normal form of a name that holds no zero is its own normal form.
pub proof fn normalizing_twice_changes_nothing(s: Seq<char>)
    requires
        !s.contains('\0'),
    ensures
        normal(normal(s)) == normal(s),
{
    lemma_back(s, nuls());
    assert(s.len() > 0 ==> s.contains(s[0]) && s.contains(s.last()));
    assert(trim_back(trim_front(s, nuls()), nuls()) == s);
    let front = trim_front(s, spaces());
    lemma_front(s, spaces());
    lemma_back(front, spaces());
    let t = trimmed(s);
    let u = uppered(t);
    assert(u == normal(s));
    if t.len() > 0 {
        assert(t[0] == front[0]);
        assert(!is_space(t[0]) && !is_space(t.last()));
        assert(s.contains(front[0]));
        assert(t.last() == front[t.len() - 1]);
        assert(s.contains(front[t.len() - 1]));
        assert(u[0] == upper(t[0]));
        assert(u.last() == upper(t.last()));
        assert(u[0] != '\0' && u.last() != '\0');
        assert(!is_space(u[0]) && !is_space(u.last()));
    }
    assert(cleaned(u) == u);
    assert(uppered(u) == u);
}

/// Texts that differ only in the case of ASCII letters and in white space at
/// their ends.
pub open spec fn alike(a: Seq<char>, b: Seq<char>) -> bool {
    uppered(trimmed(a)) == uppered(trimmed(b))
}

/// Whether a zero stands at an end of the text, white space aside.
pub open spec fn outer_zero(s: Seq<char>) -> bool {
    trimmed(s).len() > 0 && (trimmed(s)[0] == '\0' || trimmed(s).last() == '\0')
}

proof fn lemma_trim_uppered(s: Seq<char>, cut: spec_fn(char) -> bool)
    requires
        forall|c: char| #[trigger] cut(upper(c)) == cut(c),
    ensures
        trim_front(uppered(s), cut) == uppered(trim_front(s, cut)),
        trim_back(uppered(s), cut) == uppered(trim_back(s, cut)),
    decreases s.len(),
{
    let u = uppered(s);
    if s.len() > 0 {
        assert(u[0] == upper(s[0]) && u.last() == upper(s.last()));
        if cut(s[0]) {
            lemma_trim_uppered(s.drop_first(), cut);
            assert(u.drop_first() =~= uppered(s.drop_first()));
        }
        if cut(s.last()) {
            lemma_trim_uppered(s.drop_last(), cut);
            assert(u.drop_last() =~= uppered(s.drop_last()));
        }
    }
}

proof fn lemma_cleaned_uppered(s: Seq<char>)
    ensures
        cleaned(uppered(s)) == normal(s),
{
    assert forall|c: char| #[trigger] nuls()(upper(c)) == nuls()(c) by {}
    assert forall|c: char| #[trigger] spaces()(upper(c)) == spaces()(c) by {}
    let t = trim_front(s, nuls());
    let v = trim_back(t, nuls());
    let w = trim_front(v, spaces());
    lemma_trim_uppered(s, nuls());
    lemma_trim_uppered(t, nuls());
    lemma_trim_uppered(v, spaces());
    lemma_trim_uppered(w, spaces());
}

proof fn lemma_cleaned_plain(s: Seq<char>)
    requires
        !outer_zero(s),
    ensures
        cleaned(s) == trimmed(s),
{
    let front = trim_front(s, spaces());
    lemma_back(front, spaces());
    if s.len() > 0 && s[0] == '\0' {
        assert(front == s);
        if trimmed(s).len() == 0 {
            lemma_kept(s, spaces());
        }
        assert(trimmed(s)[0] == s[0]);
    }
    assert(trim_front(s, nuls()) == s);
    if s.len() > 0 && s.last() == '\0' {
        lemma_last_kept(s, spaces());
        assert(front.len() > 0 && front.last() == '\0');
        assert(trimmed(s) == front);
    }
    assert(trim_back(s, nuls()) == s);
}

/// What is not cut at the front stays at the end of the text.
proof fn lemma_last_kept(s: Seq<char>, cut: spec_fn(char) -> bool)
    requires
        s.len() > 0,
        !cut(s.last()),
    ensures
        trim_front(s, cut).len() > 0,
        trim_front(s, cut).last() == s.last(),
    decreases s.len(),
{
    if cut(s[0]) {
        assert(s.len() > 1);
        assert(s.drop_first().last() == s.last());
        lemma_last_kept(s.drop_first(), cut);
    }
}

/// What is not cut at the back stays at the front of the text.
proof fn lemma_kept(s: Seq<char>, cut: spec_fn(char) -> bool)
    requires
        s.len() > 0,
        !cut(s[0]),
    ensures
        trim_back(s, cut).len() > 0,
    decreases s.len(),
{
    if cut(s.last()) {
        assert(s.len() > 1);
        lemma_kept(s.drop_last(), cut);
    }
}

/// Case and white space at the ends do not matter to the normal form.  Where a
/// zero stands at an end, the texts may differ in case only: white space in
/// front of a zero keeps the zero.
pub proof fn normal_forms_forget_case_and_space(a: Seq<char>, b: Seq<char>)
    requires
        alike(a, b),
        uppered(a) == uppered(b) || !outer_zero(a) && !outer_zero(b),
    ensures
        normal(a) == normal(b),
{
    if uppered(a) == uppered(b) {
        lemma_cleaned_uppered(a);
        lemma_cleaned_uppered(b);
    } else {
        lemma_cleaned_plain(a);
        lemma_cleaned_plain(b);
    }
}

/// The text of a system error: what the system says of the code, where it says
/// anything, and the code.
pub open spec fn error_text(context: Seq<char>, code: u32, detail: Seq<u16>) -> Seq<char> {
    let said = if detail.len() == 0 {
        "Win32 error "@ + decimal(code as nat)
    } else {
        trimmed(utf16_text(detail))
    };
    context + ": "@ + said + " (0x"@ + upper_hex(code as nat, 8) + ")"@
}

/// `detail` holds the units that the system's message table gave for the code.
pub fn format_error_code(context: &str, code: u32, detail: &[u16]) -> (r: String)
    ensures
        r@ == error_text(context@, code, detail@),
{
    let said = if detail.len() == 0 {
        joined("Win32 error ", decimal_of(code as u64).as_str())
    } else {
        trim_ends(lossy_text(detail).as_str(), Cut::Space)
    };
    let mut out = joined(context, ": ");
    out.append(said.as_str());
    out.append(" (0x");
    out.append(upper_hex_of(code as u64, 8).as_str());
    out.append(")");
    out
}

} // verus!
