//! Input capabilities: the bitmaps the kernel publishes for an input device.
use crate::text::{
    chars_of, join, join_list, joined, lines, lines_of, parse_number, parsed, split_first,
    split_once, texts, trim_back, trim_end_of, trim_ends, trimmed, words, words_of, Cut, cut_set,
};
use crate::ordered::{put, Ordered, Properties};
use vstd::prelude::*;

verus! {

pub const EV_KEY: u16 = 0x01;

pub const EV_ABS: u16 = 0x03;

pub const REL_X: u16 = 0x00;

pub const REL_Y: u16 = 0x01;

pub const BTN_LEFT: u16 = 0x110;

pub const BTN_RIGHT: u16 = 0x111;

pub const BTN_MIDDLE: u16 = 0x112;

pub const BTN_SIDE: u16 = 0x113;

pub const BTN_EXTRA: u16 = 0x114;

pub const BTN_JOYSTICK: u16 = 0x120;

pub const BTN_GAMEPAD: u16 = 0x130;

pub const BTN_DPAD_UP: u16 = 0x220;

pub const BTN_DPAD_DOWN: u16 = 0x221;

pub const BTN_DPAD_LEFT: u16 = 0x222;

pub const BTN_DPAD_RIGHT: u16 = 0x223;

pub const BTN_TOOL_FINGER: u16 = 0x145;

pub const ABS_MT_POSITION_X: u16 = 0x35;

pub const ABS_MT_POSITION_Y: u16 = 0x36;

// Attribute files.
/// The text of an attribute file: its contents without the line ends behind.
pub fn read_attr(contents: &str) -> (r: String)
    ensures
        r@ == trim_back(contents@, cut_set(Cut::LineEnd)),
{
    trim_end_of(contents, Cut::LineEnd)
}

/// The `key=value` lines of a text; the last value of a key counts.
pub open spec fn key_values(list: Seq<Seq<char>>) -> Seq<(Seq<char>, Seq<char>)>
    decreases list.len(),
{
    if list.len() == 0 {
        Seq::empty()
    } else {
        match split_once(list.last(), '=') {
            Some((key, value)) => put(key_values(list.drop_last()), trimmed(key), trimmed(value)),
            None => key_values(list.drop_last()),
        }
    }
}

/// The `key=value` pairs of a file's contents; an unreadable file has none.
pub open spec fn kv_pairs(contents: Option<Seq<char>>) -> Seq<(Seq<char>, Seq<char>)> {
    match contents {
        Some(text) => key_values(lines(text)),
        None => Seq::empty(),
    }
}

pub fn read_kv_file(contents: Option<&str>) -> (r: Properties)
    ensures
        r.wf(),
        r@ == kv_pairs(
            match contents {
                Some(text) => Some(text@),
                None => None,
            },
        ),
{
    let mut out: Properties = Ordered::new();
    match contents {
        None => {},
        Some(text) => {
            let list = lines_of(text);
            let ghost all = lines(text@);
            let mut i: usize = 0;
            assert(all.take(0).len() == 0);
            while i < list.len()
                invariant
                    i <= list@.len(),
                    all == texts(list@),
                    all == lines(text@),
                    out.wf(),
                    out@ == key_values(all.take(i as int)),
                decreases list@.len() - i,
            {
                assert(all.take(i + 1).drop_last() == all.take(i as int));
                assert(all.take(i + 1).last() == list@[i as int]@);
                match split_first(list[i].as_str(), '=') {
                    Some((key, value)) => {
                        out.insert(
                            trim_ends(key.as_str(), Cut::Space),
                            trim_ends(value.as_str(), Cut::Space),
                        );
                    },
                    None => {},
                }
                i += 1;
            }
            assert(all.take(i as int) == all);
        },
    }
    out
}

pub open spec fn or_empty(text: Option<Seq<char>>) -> Seq<char> {
    match text {
        Some(t) => t,
        None => Seq::empty(),
    }
}

/// Bus type, vendor, product and version, separated by colons.
pub fn input_id(
    bustype: Option<&str>,
    vendor: Option<&str>,
    product: Option<&str>,
    version: Option<&str>,
) -> (r: String)
    ensures
        r@ == join(
            seq![
                or_empty(str_text(bustype)),
                or_empty(str_text(vendor)),
                or_empty(str_text(product)),
                or_empty(str_text(version)),
            ],
            ":"@,
        ),
{
    let mut values: Vec<String> = Vec::new();
    values.push(text_or_empty(bustype));
    values.push(text_or_empty(vendor));
    values.push(text_or_empty(product));
    values.push(text_or_empty(version));
    assert(texts(values@) == seq![
        or_empty(str_text(bustype)),
        or_empty(str_text(vendor)),
        or_empty(str_text(product)),
        or_empty(str_text(version)),
    ]);
    join_list(values.as_slice(), ":")
}

pub open spec fn str_text(s: Option<&str>) -> Option<Seq<char>> {
    match s {
        Some(t) => Some(t@),
        None => None,
    }
}

fn text_or_empty(s: Option<&str>) -> (r: String)
    ensures
        r@ == or_empty(str_text(s)),
{
    match s {
        Some(t) => t.to_owned(),
        None => String::new(),
    }
}

// Bitmaps.
/// A word of a bitmap: hexadecimal digits that fit a machine word.
pub open spec fn bitmap_word(word: Seq<char>) -> bool {
    word.len() <= usize::BITS / 4 && parsed(word, 16, u64::MAX as nat) is Some
}

pub open spec fn word_value(word: Seq<char>) -> u64 {
    (parsed(word, 16, u64::MAX as nat)->0) as u64
}

/// Whether a bitmap, written with its highest word first, has a bit.
pub open spec fn has_bit(list: Seq<Seq<char>>, code: u16) -> bool {
    let word = code as int / usize::BITS as int;
    let bit = code as int % usize::BITS as int;
    word < list.len() && word_value(list[list.len() - 1 - word]) & (1u64 << (bit as u64)) != 0
}

pub open spec fn bitmap_broken(raw: Option<Seq<char>>) -> bool {
    match raw {
        None => false,
        Some(text) => exists|i: int|
            0 <= i < words(text).len() && !bitmap_word(#[trigger] words(text)[i]),
    }
}

/// The codes of a bitmap; none where it is missing or broken.
pub open spec fn bitmap_codes(raw: Option<Seq<char>>) -> Set<u16> {
    match raw {
        None => Set::empty(),
        Some(text) => if bitmap_broken(raw) {
            Set::empty()
        } else {
            Set::new(|code: u16| has_bit(words(text), code))
        },
    }
}

pub open spec fn broken_message(label: Seq<char>) -> Seq<char> {
    label + ": malformed capability bitmap"@
}

proof fn lemma_code_place(word: int, bit: int, width: int, code: int)
    requires
        0 <= word,
        0 <= bit < width,
        code == word * width + bit,
    ensures
        code / width == word,
        code % width == bit,
{
    vstd::arithmetic::div_mod::lemma_fundamental_div_mod_converse(code, width, word, bit);
}

proof fn lemma_code_below(word: int, bit: int, width: int, code: int)
    requires
        0 <= code,
        0 < width,
        code / width == word,
        code % width == bit,
    ensures
        code == word * width + bit,
        0 <= bit < width,
{
    vstd::arithmetic::div_mod::lemma_fundamental_div_mod(code, width);
    assert(word * width == width * word) by (nonlinear_arith);
}

/// Adds the codes of one word, given that the codes of the lower words are there.
fn add_word(bits: &mut Vec<u16>, value: u64, word_index: usize, Ghost(list): Ghost<Seq<Seq<char>>>)
    requires
        word_index < list.len(),
        value == word_value(list[list.len() - 1 - word_index]),
        codes_below(old(bits)@, list, word_index * usize::BITS as int),
    ensures
        codes_below(final(bits)@, list, (word_index + 1) * usize::BITS as int),
{
    let width: u64 = usize::BITS as u64;
    let mut bit: u64 = 0;
    assert(width == 32 || width == 64);
    while bit < width
        invariant
            bit <= width,
            width == usize::BITS,
            width == 32 || width == 64,
            word_index < list.len(),
            value == word_value(list[list.len() - 1 - word_index]),
            codes_below(bits@, list, word_index * width + bit),
        decreases width - bit,
    {
        let ghost limit = word_index * width + bit;
        let ghost before = bits@;
        if word_index < 65536 {
            assert(word_index * width <= 65535 * 64) by (nonlinear_arith)
                requires
                    word_index < 65536,
                    width <= 64,
            ;
            let index: u64 = word_index as u64 * width + bit;
            if index <= 65535 {
                let code: u16 = index as u16;
                proof {
                    lemma_code_place(word_index as int, bit as int, width as int, code as int);
                }
                if value & (1u64 << bit) != 0 {
                    bits.push(code);
                    assert(has_bit(list, code));
                }
                proof {
                    assert(codes_below(bits@, list, limit + 1)) by {
                        assert forall|c: u16| #[trigger]
                            bits@.contains(c) <==> c < limit + 1 && has_bit(list, c) by {
                            if before.contains(c) {
                                let k = choose|k: int| 0 <= k < before.len() && before[k] == c;
                                assert(bits@[k] == c);
                            }
                            if bits@.contains(c) && !before.contains(c) {
                                let k = choose|k: int| 0 <= k < bits@.len() && bits@[k] == c;
                                assert(k == before.len());
                            }
                            if c == code && has_bit(list, code) {
                                assert(bits@[before.len() as int] == code);
                            }
                        }
                        assert forall|i: int, j: int| 0 <= i < j < bits@.len() implies (
                        #[trigger] bits@[i]) < (#[trigger] bits@[j]) by {
                            if j == before.len() {
                                assert(before.contains(before[i]));
                            } else {
                                assert(bits@[i] == before[i]);
                                assert(bits@[j] == before[j]);
                            }
                        }
                    }
                }
            }
        } else {
            assert(limit >= 65536) by (nonlinear_arith)
                requires
                    word_index >= 65536,
                    width >= 32,
                    bit >= 0,
                    limit == word_index * width + bit,
            ;
        }
        assert(codes_below(bits@, list, limit + 1));
        bit += 1;
    }
    assert((word_index + 1) * width == word_index * width + width) by (nonlinear_arith);
}

/// The codes below a limit, in strictly increasing order.
pub open spec fn codes_below(bits: Seq<u16>, list: Seq<Seq<char>>, limit: int) -> bool {
    &&& forall|i: int, j: int|
        0 <= i < j < bits.len() ==> (#[trigger] bits[i]) < (#[trigger] bits[j])
    &&& forall|c: u16| #[trigger] bits.contains(c) <==> c < limit && has_bit(list, c)
}

/// The codes of a capability bitmap, in increasing order.  A bitmap that is no
/// list of hexadecimal words counts as empty and is reported once.
pub fn read_bitmap(raw: Option<&str>, label: &str, errors: &mut Vec<String>) -> (r: Vec<u16>)
    ensures
        forall|i: int, j: int| 0 <= i < j < r@.len() ==> (#[trigger] r@[i]) < (#[trigger] r@[j]),
        r@.to_set() == bitmap_codes(str_text(raw)),
        texts(final(errors)@) == (if bitmap_broken(str_text(raw)) {
            texts(old(errors)@).push(broken_message(label@))
        } else {
            texts(old(errors)@)
        }),
{
    let text = match raw {
        None => {
            let none: Vec<u16> = Vec::new();
            assert(none@.to_set() == Set::<u16>::empty());
            return none;
        },
        Some(text) => text,
    };
    let list = words_of(text);
    let ghost all = words(text@);
    let digits: usize = usize::BITS as usize / 4;
    let mut bits: Vec<u16> = Vec::new();
    let mut word_index: usize = 0;
    while word_index < list.len()
        invariant
            word_index <= list@.len(),
            all == texts(list@),
            all == words(text@),
            raw == Some(text),
            digits == usize::BITS / 4,
            codes_below(bits@, all, word_index * usize::BITS as int),
            forall|k: int| 0 <= k < word_index ==> bitmap_word(#[trigger] all[all.len() - 1 - k]),
            *errors == *old(errors),
        decreases list@.len() - word_index,
    {
        let at: usize = list.len() - 1 - word_index;
        assert(all[at as int] == list@[at as int]@);
        let length: usize = chars_of(list[at].as_str()).len();
        let value = parse_number(list[at].as_str(), 16, u64::MAX);
        match value {
            Some(number) => {
                if length <= digits {
                    add_word(&mut bits, number, word_index, Ghost(all));
                    word_index += 1;
                    continue ;
                }
            },
            None => {},
        }
        assert(!bitmap_word(all[at as int]));
        let ghost held = texts(errors@);
        errors.push(joined(label, ": malformed capability bitmap"));
        assert(texts(errors@) == held.push(broken_message(label@)));
        let none: Vec<u16> = Vec::new();
        assert(none@.to_set() == Set::<u16>::empty());
        return none;
    }
    proof {
        assert forall|i: int| 0 <= i < all.len() implies bitmap_word(#[trigger] all[i]) by {
            assert(bitmap_word(all[all.len() - 1 - (all.len() - 1 - i)]));
        }
        assert(!bitmap_broken(Some(text@)));
        assert forall|c: u16| #[trigger] bits@.contains(c) <==> has_bit(all, c) by {
            if has_bit(all, c) {
                let width = usize::BITS as int;
                let w = c as int / width;
                lemma_code_below(w, c as int % width, width, c as int);
                assert(w * width + width <= all.len() * width) by (nonlinear_arith)
                    requires
                        w + 1 <= all.len(),
                        width >= 0,
                ;
            }
        }
        assert(bits@.to_set() == bitmap_codes(str_text(raw)));
    }
    bits
}

// What the codes say about a device.
pub open spec fn joystick_code(code: u16) -> bool {
    BTN_JOYSTICK <= code < BTN_JOYSTICK + 0x20
}

pub open spec fn gamepad_code(code: u16) -> bool {
    ||| BTN_GAMEPAD <= code < BTN_GAMEPAD + 0x20
    ||| code == BTN_DPAD_UP
    ||| code == BTN_DPAD_DOWN
    ||| code == BTN_DPAD_LEFT
    ||| code == BTN_DPAD_RIGHT
}

/// The Generic Desktop usage that the keys and axes of a device amount to.
pub open spec fn usage_from(keys: Set<u16>, abs: Set<u16>) -> Option<(u16, u16)> {
    let joystick = exists|c: u16| #[trigger] keys.contains(c) && joystick_code(c);
    let gamepad = exists|c: u16| #[trigger] keys.contains(c) && gamepad_code(c);
    let axes = exists|c: u16| #[trigger] abs.contains(c);
    if !(gamepad || joystick) || !(axes || joystick) {
        None
    } else if gamepad {
        Some((0x01u16, 0x05u16))
    } else {
        Some((0x01u16, 0x04u16))
    }
}

/// A touch surface: both multitouch positions and the finger tool.
pub open spec fn touchpad_from(keys: Set<u16>, abs: Set<u16>) -> bool {
    abs.contains(ABS_MT_POSITION_X) && abs.contains(ABS_MT_POSITION_Y) && keys.contains(
        BTN_TOOL_FINGER,
    )
}

/// Typing, modifier, function, keypad and navigation keys.
pub open spec fn typing_code(code: u16) -> bool {
    code != 0 && (code <= 0x6f || 0x7d <= code <= 0x7f)
}

pub open spec fn keyboard_from(keys: Set<u16>) -> bool {
    exists|c: u16| #[trigger] keys.contains(c) && typing_code(c)
}

pub open spec fn mouse_button(code: u16) -> bool {
    BTN_LEFT <= code <= BTN_EXTRA
}

/// Relative motion makes a pointer; so do mouse buttons, except on a touch
/// surface.
pub open spec fn mouse_from(keys: Set<u16>, abs: Set<u16>, rel: Set<u16>) -> bool {
    ||| rel.contains(REL_X)
    ||| rel.contains(REL_Y)
    ||| (exists|c: u16| #[trigger] keys.contains(c) && mouse_button(c)) && !touchpad_from(keys, abs)
}

fn has_code(codes: &[u16], code: u16) -> (r: bool)
    ensures
        r == codes@.to_set().contains(code),
{
    let mut i: usize = 0;
    while i < codes.len()
        invariant
            i <= codes@.len(),
            forall|j: int| 0 <= j < i ==> #[trigger] codes@[j] != code,
        decreases codes@.len() - i,
    {
        if codes[i] == code {
            assert(codes@.contains(codes@[i as int]));
            return true;
        }
        i += 1;
    }
    assert(!codes@.contains(code));
    false
}

pub fn gamepad_usage(keys: &[u16], abs: &[u16]) -> (r: Option<(u16, u16)>)
    ensures
        r == usage_from(keys@.to_set(), abs@.to_set()),
{
    let ghost held = keys@.to_set();
    let mut joystick = false;
    let mut gamepad = false;
    let mut i: usize = 0;
    while i < keys.len()
        invariant
            i <= keys@.len(),
            held == keys@.to_set(),
            joystick <==> exists|j: int| 0 <= j < i && joystick_code(#[trigger] keys@[j]),
            gamepad <==> exists|j: int| 0 <= j < i && gamepad_code(#[trigger] keys@[j]),
        decreases keys@.len() - i,
    {
        let code: u16 = keys[i];
        if code >= BTN_JOYSTICK && code < BTN_JOYSTICK + 0x20 {
            joystick = true;
            assert(joystick_code(keys@[i as int]));
        }
        if (code >= BTN_GAMEPAD && code < BTN_GAMEPAD + 0x20) || code == BTN_DPAD_UP || code
            == BTN_DPAD_DOWN || code == BTN_DPAD_LEFT || code == BTN_DPAD_RIGHT {
            gamepad = true;
            assert(gamepad_code(keys@[i as int]));
        }
        i += 1;
    }
    proof {
        if joystick {
            let j = choose|j: int| 0 <= j < keys@.len() && joystick_code(#[trigger] keys@[j]);
            assert(held.contains(keys@[j]));
        }
        if gamepad {
            let j = choose|j: int| 0 <= j < keys@.len() && gamepad_code(#[trigger] keys@[j]);
            assert(held.contains(keys@[j]));
        }
        assert forall|c: u16| #[trigger] held.contains(c) implies exists|j: int|
            0 <= j < keys@.len() && #[trigger] keys@[j] == c by {
            assert(keys@.contains(c));
        }
        if abs@.len() > 0 {
            assert(abs@.to_set().contains(abs@[0]));
        }
        assert forall|c: u16| #[trigger] abs@.to_set().contains(c) implies abs@.len() > 0 by {
            assert(abs@.contains(c));
        }
    }
    if !(gamepad || joystick) {
        return None;
    }
    if !(abs.len() > 0 || joystick) {
        return None;
    }
    if gamepad {
        Some((0x01, 0x05))
    } else {
        Some((0x01, 0x04))
    }
}

pub fn has_touchpad_capability(keys: &[u16], abs: &[u16]) -> (r: bool)
    ensures
        r == touchpad_from(keys@.to_set(), abs@.to_set()),
{
    has_code(abs, ABS_MT_POSITION_X) && has_code(abs, ABS_MT_POSITION_Y) && has_code(
        keys,
        BTN_TOOL_FINGER,
    )
}

pub fn has_typing_keyboard_capability(keys: &[u16]) -> (r: bool)
    ensures
        r == keyboard_from(keys@.to_set()),
{
    let mut i: usize = 0;
    while i < keys.len()
        invariant
            i <= keys@.len(),
            forall|j: int| 0 <= j < i ==> !typing_code(#[trigger] keys@[j]),
        decreases keys@.len() - i,
    {
        let code: u16 = keys[i];
        if code != 0 && (code <= 0x6f || (0x7d <= code && code <= 0x7f)) {
            assert(keys@.to_set().contains(keys@[i as int]));
            return true;
        }
        i += 1;
    }
    assert forall|c: u16| #[trigger] keys@.to_set().contains(c) implies !typing_code(c) by {
        assert(keys@.contains(c));
    }
    false
}

pub fn has_mouse_capability(keys: &[u16], abs: &[u16], rel: &[u16]) -> (r: bool)
    ensures
        r == mouse_from(keys@.to_set(), abs@.to_set(), rel@.to_set()),
{
    if has_code(rel, REL_X) || has_code(rel, REL_Y) {
        return true;
    }
    if has_touchpad_capability(keys, abs) {
        return false;
    }
    let mut i: usize = 0;
    while i < keys.len()
        invariant
            i <= keys@.len(),
            !touchpad_from(keys@.to_set(), abs@.to_set()),
            forall|j: int| 0 <= j < i ==> !mouse_button(#[trigger] keys@[j]),
        decreases keys@.len() - i,
    {
        let code: u16 = keys[i];
        if BTN_LEFT <= code && code <= BTN_EXTRA {
            assert(keys@.to_set().contains(keys@[i as int]));
            return true;
        }
        i += 1;
    }
    assert forall|c: u16| #[trigger] keys@.to_set().contains(c) implies !mouse_button(c) by {
        assert(keys@.contains(c));
    }
    false
}

/// Whether the event types name keys or absolute axes.
pub fn is_event_device(ev: &[u16]) -> (r: bool)
    ensures
        r == (ev@.to_set().contains(EV_KEY) || ev@.to_set().contains(EV_ABS)),
{
    has_code(ev, EV_KEY) || has_code(ev, EV_ABS)
}

} // verus!
