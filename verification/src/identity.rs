//! Names of kernel functions, escaped components, digests and the
//! fingerprints that identify a controller function.
use crate::text::{
    all_digits, all_hex, byte_len, char_is_alnum, char_is_control, chars_of, digit_char, either,
    hex_digits, hex_of, is_alnum, is_control, is_hex, joined, opt_text, same, split, split_by,
    split_either, split_first, split_on, split_once, starts_with, text_all_digits, text_all_hex,
    text_of_utf8, texts, utf8_len, utf8_text, without_prefix,
};
use vstd::prelude::*;
use vstd::utf8::{encode_utf8, is_ascii_chars};

verus! {

pub const MAX_FINGERPRINT: usize = 2048;

// Names of kernel functions.
pub open spec fn decimal_token(s: Seq<char>) -> bool {
    s.len() > 0 && all_digits(s)
}

/// `vendor:product:version.instance`, in hexadecimal digits, with either
/// separator at each place.
pub open spec fn hid_name(s: Seq<char>) -> bool {
    let parts = split_by(s, either(':', '.'));
    &&& parts.len() == 4
    &&& parts[0].len() == 4 && parts[1].len() == 4 && parts[2].len() == 4
    &&& parts[3].len() >= 1
    &&& forall|i: int| 0 <= i < 4 ==> all_hex(#[trigger] parts[i])
}

pub open spec fn port_chain(s: Seq<char>) -> bool {
    forall|i: int| 0 <= i < split(s, '.').len() ==> decimal_token(#[trigger] split(s, '.')[i])
}

/// `bus-port.port...`
pub open spec fn usb_device_name(s: Seq<char>) -> bool {
    let parts = split(s, '-');
    &&& parts.len() > 1
    &&& decimal_token(parts[0])
    &&& forall|i: int| 1 <= i < parts.len() ==> port_chain(#[trigger] parts[i])
}

/// `device:configuration.interface`
pub open spec fn usb_interface_name(s: Seq<char>) -> bool {
    match split_once(s, ':') {
        None => false,
        Some((device, interface)) => match split_once(interface, '.') {
            None => false,
            Some((number, alternate)) => usb_device_name(device) && decimal_token(number)
                && decimal_token(alternate),
        },
    }
}

pub open spec fn function_name(bus: Seq<char>, s: Seq<char>) -> bool {
    if bus == "hid"@ {
        hid_name(s)
    } else if bus == "usb"@ {
        usb_interface_name(s)
    } else {
        false
    }
}

pub fn is_decimal_token(value: &str) -> (r: bool)
    ensures
        r == decimal_token(value@),
{
    !value.is_empty() && text_all_digits(value)
}

pub fn is_hid_name(name: &str) -> (r: bool)
    ensures
        r == hid_name(name@),
{
    let parts = split_either(name, ':', '.');
    let ghost pieces = split_by(name@, either(':', '.'));
    assert(pieces.len() == parts@.len());
    if parts.len() != 4 {
        return false;
    }
    let mut i: usize = 0;
    while i < 4
        invariant
            i <= 4,
            parts@.len() == 4,
            pieces == texts(parts@),
            pieces == split_by(name@, either(':', '.')),
            forall|j: int| 0 <= j < i ==> all_hex(#[trigger] pieces[j]),
            forall|j: int| 0 <= j < i && j < 3 ==> (#[trigger] pieces[j]).len() == 4,
            i == 4 ==> pieces[3].len() >= 1,
        decreases 4 - i,
    {
        let part = chars_of(parts[i].as_str());
        assert(pieces[i as int] == part@);
        if i < 3 && part.len() != 4 {
            return false;
        }
        if i == 3 && part.len() < 1 {
            return false;
        }
        if !text_all_hex(parts[i].as_str()) {
            assert(!all_hex(pieces[i as int]));
            return false;
        }
        i += 1;
    }
    true
}

fn is_port_chain(chain: &str) -> (r: bool)
    ensures
        r == port_chain(chain@),
{
    let ports = split_on(chain, '.');
    let ghost pieces = split(chain@, '.');
    let mut i: usize = 0;
    while i < ports.len()
        invariant
            i <= ports@.len(),
            pieces == texts(ports@),
            pieces == split(chain@, '.'),
            forall|j: int| 0 <= j < i ==> decimal_token(#[trigger] pieces[j]),
        decreases ports@.len() - i,
    {
        assert(pieces[i as int] == ports@[i as int]@);
        if !is_decimal_token(ports[i].as_str()) {
            assert(!decimal_token(split(chain@, '.')[i as int]));
            return false;
        }
        i += 1;
    }
    true
}

pub fn is_usb_device_name(name: &str) -> (r: bool)
    ensures
        r == usb_device_name(name@),
{
    let parts = split_on(name, '-');
    let ghost pieces = split(name@, '-');
    assert(pieces.len() == parts@.len());
    if parts.len() < 2 {
        return false;
    }
    assert(pieces[0] == parts@[0]@);
    if !is_decimal_token(parts[0].as_str()) {
        return false;
    }
    let mut i: usize = 1;
    while i < parts.len()
        invariant
            1 <= i <= parts@.len(),
            pieces == texts(parts@),
            pieces == split(name@, '-'),
            forall|j: int| 1 <= j < i ==> port_chain(#[trigger] pieces[j]),
        decreases parts@.len() - i,
    {
        assert(pieces[i as int] == parts@[i as int]@);
        if !is_port_chain(parts[i].as_str()) {
            assert(!port_chain(pieces[i as int]));
            return false;
        }
        i += 1;
    }
    true
}

pub fn is_usb_interface_name(name: &str) -> (r: bool)
    ensures
        r == usb_interface_name(name@),
{
    match split_first(name, ':') {
        None => false,
        Some((device, interface)) => match split_first(interface.as_str(), '.') {
            None => false,
            Some((number, alternate)) => is_usb_device_name(device.as_str()) && is_decimal_token(
                number.as_str(),
            ) && is_decimal_token(alternate.as_str()),
        },
    }
}

pub fn valid_function_name(bus: &str, value: &str) -> (r: bool)
    ensures
        r == function_name(bus@, value@),
{
    if same(bus, "hid") {
        is_hid_name(value)
    } else if same(bus, "usb") {
        is_usb_interface_name(value)
    } else {
        false
    }
}

// Tokens.
pub open spec fn token_char(c: char) -> bool {
    is_alnum(c) || c == '_' || c == '-'
}

pub open spec fn driver_token(s: Seq<char>) -> bool {
    &&& 0 < s.len() <= 64
    &&& forall|i: int| 0 <= i < s.len() ==> token_char(#[trigger] s[i])
}

/// A prefix and thirty-two hexadecimal digits.
pub open spec fn token(s: Seq<char>, prefix: Seq<char>) -> bool {
    &&& utf8_len(s) <= 128
    &&& starts_with(s, prefix)
    &&& s.len() - prefix.len() == 32
    &&& all_hex(s.skip(prefix.len() as int))
}

pub open spec fn key_byte(byte: u8) -> bool {
    byte <= 0x7f && token_char(byte as char)
}

fn char_is_token(c: char) -> (r: bool)
    ensures
        r == token_char(c),
{
    char_is_alnum(c) || c == '_' || c == '-'
}

pub open spec fn all_token(s: Seq<char>) -> bool {
    forall|i: int| 0 <= i < s.len() ==> token_char(#[trigger] s[i])
}

fn text_all_token(s: &str) -> (r: bool)
    ensures
        r == all_token(s@),
{
    let chars = chars_of(s);
    let mut i: usize = 0;
    while i < chars.len()
        invariant
            i <= chars@.len(),
            chars@ == s@,
            forall|j: int| 0 <= j < i ==> token_char(#[trigger] s@[j]),
        decreases chars@.len() - i,
    {
        if !char_is_token(chars[i]) {
            assert(!token_char(s@[i as int]));
            return false;
        }
        i += 1;
    }
    true
}

pub fn valid_driver_token(value: &str) -> (r: bool)
    ensures
        r == driver_token(value@),
{
    let length: usize = chars_of(value).len();
    0 < length && length <= 64 && text_all_token(value)
}

pub fn valid_token(value: &str, prefix: &str) -> (r: bool)
    ensures
        r == token(value@, prefix@),
{
    if byte_len(value) > 128 {
        return false;
    }
    match without_prefix(value, prefix) {
        None => false,
        Some(rest) => chars_of(rest.as_str()).len() == 32 && text_all_hex(rest.as_str()),
    }
}

pub fn valid_stable_id(value: &str) -> (r: bool)
    ensures
        r == token(value@, "linux-controller-"@),
{
    valid_token(value, "linux-controller-")
}

pub fn valid_key_byte(byte: u8) -> (r: bool)
    ensures
        r == key_byte(byte),
{
    byte <= 0x7f && char_is_token(byte as char)
}

// Escaped components.
pub open spec fn plain(c: char) -> bool {
    token_char(c) || c == '.'
}

/// A byte stands for itself where it is a letter, a digit or one of `._-`;
/// otherwise it becomes a percent sign and two hexadecimal digits.
pub open spec fn escaped(byte: u8) -> Seq<char> {
    if byte <= 0x7f && plain(byte as char) {
        seq![byte as char]
    } else {
        seq!['%', digit_char((byte / 16) as nat), digit_char((byte % 16) as nat)]
    }
}

pub open spec fn escape_all(bytes: Seq<u8>) -> Seq<char>
    decreases bytes.len(),
{
    if bytes.len() == 0 {
        Seq::empty()
    } else {
        escaped(bytes[0]) + escape_all(bytes.drop_first())
    }
}

/// A text with the bytes of its UTF-8 form escaped.
pub open spec fn encoded(s: Seq<char>) -> Seq<char> {
    escape_all(encode_utf8(s))
}

pub open spec fn hex_value(c: char) -> Option<u8> {
    if '0' <= c <= '9' {
        Some((c as u8 - '0' as u8) as u8)
    } else if 'a' <= c <= 'f' {
        Some((c as u8 - 'a' as u8 + 10) as u8)
    } else if 'A' <= c <= 'F' {
        Some((c as u8 - 'A' as u8 + 10) as u8)
    } else {
        None
    }
}

/// The bytes that an escaped text stands for.
pub open spec fn unescape_all(s: Seq<char>) -> Option<Seq<u8>>
    decreases s.len(),
{
    if s.len() == 0 {
        Some(Seq::empty())
    } else if s[0] != '%' {
        if !plain(s[0]) {
            None
        } else {
            match unescape_all(s.drop_first()) {
                Some(rest) => Some(seq![s[0] as u8] + rest),
                None => None,
            }
        }
    } else if s.len() < 3 {
        None
    } else {
        match (hex_value(s[1]), hex_value(s[2])) {
            (Some(high), Some(low)) => match unescape_all(s.skip(3)) {
                Some(rest) => Some(seq![(high * 16 + low) as u8] + rest),
                None => None,
            },
            _ => None,
        }
    }
}

pub open spec fn decoded(s: Seq<char>) -> Option<Seq<char>> {
    match unescape_all(s) {
        Some(bytes) => utf8_text(bytes),
        None => None,
    }
}

/// Digits count on through the letters and past them.
pub fn hex_digit(value: u8) -> (r: char)
    requires
        value <= 158,
    ensures
        r as int == (if value <= 9 {
            '0' as int + value
        } else {
            'a' as int + value - 10
        }),
        value < 16 ==> r == digit_char(value as nat),
{
    if value <= 9 {
        (48 + value) as char
    } else {
        (97 + value - 10) as char
    }
}

pub fn from_hex(value: u8) -> (r: Option<u8>)
    ensures
        r == hex_value(value as char),
        r matches Some(d) ==> d < 16,
{
    if 48 <= value && value <= 57 {
        Some(value - 48)
    } else if 97 <= value && value <= 102 {
        Some(value - 97 + 10)
    } else if 65 <= value && value <= 70 {
        Some(value - 65 + 10)
    } else {
        None
    }
}

fn hex_of_char(c: char) -> (r: Option<u8>)
    ensures
        r == hex_value(c),
        r matches Some(d) ==> d < 16,
{
    if c <= '\u{7f}' {
        from_hex(c as u8)
    } else {
        None
    }
}

pub fn encode_component(value: &str) -> (r: String)
    ensures
        r@ == encoded(value@),
{
    let bytes = value.as_bytes();
    let mut out: String = String::new();
    let mut i: usize = 0;
    assert(bytes@.skip(0) == bytes@);
    while i < bytes.len()
        invariant
            i <= bytes@.len(),
            out@ + escape_all(bytes@.skip(i as int)) == escape_all(bytes@),
        decreases bytes@.len() - i,
    {
        let byte: u8 = bytes[i];
        let ghost held = out@;
        let ghost rest = bytes@.skip(i as int);
        assert(rest.drop_first() == bytes@.skip(i + 1));
        if byte <= 0x7f && (char_is_token(byte as char) || byte == 46) {
            out.push(byte as char);
        } else {
            out.push('%');
            out.push(hex_digit(byte / 16));
            out.push(hex_digit(byte % 16));
        }
        assert(out@ == held + escaped(byte));
        assert(out@ + escape_all(bytes@.skip(i + 1)) == held + escape_all(rest));
        i += 1;
    }
    assert(escape_all(bytes@.skip(i as int)) == Seq::<char>::empty());
    out
}

pub fn decode_component(value: &str) -> (r: Option<String>)
    ensures
        opt_text(r) == decoded(value@),
{
    let chars = chars_of(value);
    let mut output: Vec<u8> = Vec::new();
    let mut index: usize = 0;
    assert(value@.skip(0) == value@);
    assert(match unescape_all(value@) {
        Some(rest) => Some(output@ + rest),
        None => None,
    } == unescape_all(value@)) by {
        if let Some(rest) = unescape_all(value@) {
            assert(output@ + rest == rest);
        }
    }
    while index < chars.len()
        invariant
            index <= chars@.len(),
            chars@ == value@,
            unescape_all(value@) == (match unescape_all(value@.skip(index as int)) {
                Some(rest) => Some(output@ + rest),
                None => None,
            }),
        decreases chars@.len() - index,
    {
        let ghost rest = value@.skip(index as int);
        let ghost held = output@;
        let c: char = chars[index];
        assert(rest[0] == c);
        if c != '%' {
            if !char_is_token(c) && c != '.' {
                return None;
            }
            output.push(c as u8);
            assert(rest.drop_first() == value@.skip(index + 1));
            proof {
                if let Some(tail) = unescape_all(value@.skip(index + 1)) {
                    assert(held + (seq![c as u8] + tail) == output@ + tail);
                }
            }
            index += 1;
            continue ;
        }
        if chars.len() - index < 3 {
            return None;
        }
        assert(rest[1] == chars@[index + 1]);
        assert(rest[2] == chars@[index + 2]);
        match (hex_of_char(chars[index + 1]), hex_of_char(chars[index + 2])) {
            (Some(high), Some(low)) => {
                output.push(high * 16 + low);
                assert(rest.skip(3) == value@.skip(index + 3));
                proof {
                    if let Some(tail) = unescape_all(value@.skip(index + 3)) {
                        assert(held + (seq![(high * 16 + low) as u8] + tail) == output@ + tail);
                    }
                }
                index += 3;
            },
            _ => {
                return None;
            },
        }
    }
    assert(unescape_all(value@.skip(index as int)) == Some(Seq::<u8>::empty()));
    assert(output@ + Seq::<u8>::empty() == output@);
    text_of_utf8(output)
}

proof fn lemma_unescape_escape(bytes: Seq<u8>)
    ensures
        unescape_all(escape_all(bytes)) == Some(bytes),
    decreases bytes.len(),
{
    if bytes.len() == 0 {
        assert(bytes == Seq::<u8>::empty());
    } else {
        let rest = bytes.drop_first();
        lemma_unescape_escape(rest);
        let head = escaped(bytes[0]);
        let all = escape_all(bytes);
        if bytes[0] <= 0x7f && plain(bytes[0] as char) {
            assert(all.drop_first() == escape_all(rest));
            assert(all[0] == bytes[0] as char);
        } else {
            assert(all.skip(3) == escape_all(rest));
            assert(all[0] == '%');
            assert(all[1] == digit_char((bytes[0] / 16) as nat));
            assert(all[2] == digit_char((bytes[0] % 16) as nat));
        }
        assert(seq![bytes[0]] + rest == bytes);
    }
}

/// Decoding gives back what was encoded.
pub proof fn decode_inverts_encode(s: Seq<char>)
    ensures
        decoded(encoded(s)) == Some(s),
{
    lemma_unescape_escape(encode_utf8(s));
    vstd::utf8::encode_utf8_valid_utf8(s);
    vstd::utf8::encode_utf8_decode_utf8(s);
}

/// Characters of an encoded text: letters, digits and `._-%`.
pub open spec fn encoded_char(c: char) -> bool {
    plain(c) || c == '%'
}

pub proof fn lemma_encoded_chars(bytes: Seq<u8>)
    ensures
        forall|i: int| 0 <= i < escape_all(bytes).len() ==> encoded_char(#[trigger] escape_all(bytes)[i]),
    decreases bytes.len(),
{
    if bytes.len() > 0 {
        let rest = bytes.drop_first();
        lemma_encoded_chars(rest);
        let head = escaped(bytes[0]);
        let all = escape_all(bytes);
        assert forall|i: int| 0 <= i < all.len() implies encoded_char(#[trigger] all[i]) by {
            if i >= head.len() {
                assert(all[i] == escape_all(rest)[i - head.len()]);
            } else {
                assert(all[i] == head[i]);
            }
        }
    }
}

// Display names.
pub open spec fn visible(s: Seq<char>) -> Seq<char>
    decreases s.len(),
{
    if s.len() == 0 {
        s
    } else if is_control(s.last()) {
        visible(s.drop_last())
    } else {
        visible(s.drop_last()).push(s.last())
    }
}

pub open spec fn display(s: Seq<char>) -> Seq<char> {
    if visible(s).len() == 0 {
        "Linux controller"@
    } else if visible(s).len() > 160 {
        visible(s).take(160)
    } else {
        visible(s)
    }
}

pub fn sanitize_display(value: &str) -> (r: String)
    ensures
        r@ == display(value@),
{
    let chars = chars_of(value);
    let mut kept: Vec<char> = Vec::new();
    let mut i: usize = 0;
    assert(value@.take(0).len() == 0);
    while i < chars.len()
        invariant
            i <= chars@.len(),
            chars@ == value@,
            kept@ == visible(value@.take(i as int)),
        decreases chars@.len() - i,
    {
        assert(value@.take(i + 1).drop_last() == value@.take(i as int));
        assert(value@.take(i + 1).last() == chars@[i as int]);
        if !char_is_control(chars[i]) {
            kept.push(chars[i]);
        }
        i += 1;
    }
    assert(value@.take(i as int) == value@);
    if kept.len() == 0 {
        "Linux controller".to_owned()
    } else if kept.len() > 160 {
        let head = vstd::slice::slice_subrange(kept.as_slice(), 0, 160);
        assert(head@ == kept@.take(160));
        crate::text::string_of(head)
    } else {
        crate::text::string_of(kept.as_slice())
    }
}

// Digests.
pub open spec fn rotated_left_7(x: u64) -> u64 {
    (x << 7) | (x >> 57)
}

pub open spec fn digest_step(state: (u64, u64), byte: u8) -> (u64, u64) {
    (
        (state.0 ^ (byte as u64)).wrapping_mul(0x100000001b3),
        rotated_left_7((state.1 ^ ((byte as u64) << 17)).wrapping_mul(0x100000001b3)),
    )
}

pub open spec fn digest_state(bytes: Seq<u8>) -> (u64, u64)
    decreases bytes.len(),
{
    if bytes.len() == 0 {
        (0xcbf29ce484222325, 0x84222325cbf29ce)
    } else {
        digest_step(digest_state(bytes.drop_last()), bytes.last())
    }
}

/// Two running hashes of the UTF-8 bytes, sixteen hexadecimal digits each.
pub open spec fn digest(s: Seq<char>) -> Seq<char> {
    let state = digest_state(encode_utf8(s));
    hex_digits(state.0 as nat, 16) + hex_digits(state.1 as nat, 16)
}

pub fn digest128(value: &str) -> (r: String)
    ensures
        r@ == digest(value@),
{
    let bytes = value.as_bytes();
    let mut first: u64 = 0xcbf29ce484222325;
    let mut second: u64 = 0x84222325cbf29ce;
    let mut i: usize = 0;
    assert(bytes@.take(0).len() == 0);
    while i < bytes.len()
        invariant
            i <= bytes@.len(),
            (first, second) == digest_state(bytes@.take(i as int)),
        decreases bytes@.len() - i,
    {
        let byte: u8 = bytes[i];
        assert(bytes@.take(i + 1).drop_last() == bytes@.take(i as int));
        assert(bytes@.take(i + 1).last() == byte);
        first = (first ^ (byte as u64)).wrapping_mul(0x100000001b3);
        let mixed: u64 = (second ^ ((byte as u64) << 17)).wrapping_mul(0x100000001b3);
        second = (mixed << 7) | (mixed >> 57);
        i += 1;
    }
    assert(bytes@.take(i as int) == bytes@);
    joined(hex_of(first, 16).as_str(), hex_of(second, 16).as_str())
}

proof fn lemma_hex_digits(n: nat, width: nat)
    ensures
        hex_digits(n, width).len() == width,
        all_hex(hex_digits(n, width)),
    decreases width,
{
    if width > 0 {
        lemma_hex_digits(n / 16, (width - 1) as nat);
    }
}

/// A digest behind a prefix is a token with that prefix.
pub proof fn digest_makes_token(prefix: Seq<char>, s: Seq<char>)
    requires
        is_ascii_chars(prefix),
        prefix.len() <= 96,
    ensures
        token(prefix + digest(s), prefix),
{
    let state = digest_state(encode_utf8(s));
    lemma_hex_digits(state.0 as nat, 16);
    lemma_hex_digits(state.1 as nat, 16);
    let whole = prefix + digest(s);
    assert(whole.skip(prefix.len() as int) == digest(s));
    assert(whole.take(prefix.len() as int) == prefix);
    assert(is_ascii_chars(whole)) by {
        assert forall|i: int| 0 <= i < whole.len() implies '\0' <= #[trigger] whole[i]
            <= '\u{7f}' by {
            if i >= prefix.len() {
                assert(is_hex(digest(s)[i - prefix.len()]));
            }
        }
    }
    vstd::utf8::is_ascii_chars_encode_utf8(whole);
}

} // verus!
