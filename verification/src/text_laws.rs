//! How texts, names and paths are read.
use crate::capability::{bitmap_codes, has_bit, key_values, word_value};
use crate::helper::message_of;
use crate::identity::{digest_state, display, hid_name, usb_interface_name, visible};
use crate::linux_helper::shown_text;
use crate::ordered::{lemma_lookup_put, lookup};
use crate::paths::{components, file_name, named, path_within, same_path};
use crate::text::{
    all_digits, all_hex, chomped, decimal, either, hex_digits, join, lemma_split_append,
    lemma_split_solid, lines, lowered, number, parsed, printable, split, split_by,
    split_inverts_join, split_once_inverts, trimmed, uppered,
};
use vstd::prelude::*;

verus! {

// Numbers.
/// A number is written digit by digit, the lowest last.
pub proof fn how_numbers_are_written(n: nat, d: nat)
    requires
        d < 10,
    ensures
        decimal(d) == seq![(48 + d) as char],
        n > 0 ==> decimal(10 * n + d) == decimal(n).push((48 + d) as char),
{
    assert(n > 0 ==> (10 * n + d) / 10 == n && (10 * n + d) % 10 == d);
}

/// Hexadecimal numbers go on with letters after nine, and keep their width.
pub proof fn how_hexadecimal_numbers_are_written(n: nat, width: nat, d: nat)
    requires
        d < 16,
    ensures
        hex_digits(n, 0).len() == 0,
        hex_digits(16 * n + d, width + 1) == hex_digits(n, width).push(
            if d < 10 {
                (48 + d) as char
            } else {
                (87 + d) as char
            },
        ),
{
    assert((16 * n + d) / 16 == n && (16 * n + d) % 16 == d);
}

/// The value of a text of decimal digits grows with each digit; a text that
/// holds anything else, or none, is no number, and neither is one beyond its
/// bound.
pub proof fn how_numbers_are_read(s: Seq<char>, c: char, max: nat)
    requires
        all_digits(s),
        '0' <= c <= '9',
    ensures
        number(s.push(c), 10) == 10 * number(s, 10) + (c as nat - 48),
        s.len() > 0 && number(s, 10) <= max ==> parsed(s, 10, max) == Some(number(s, 10)),
        number(s, 10) > max ==> parsed(s, 10, max) is None,
        parsed(Seq::empty(), 10, max) is None,
{
    assert(s.push(c).drop_last() =~= s);
    if s.len() > 0 {
        assert('0' <= s[0] <= '9');
    }
    assert forall|i: int| 0 <= i < s.len() implies crate::text::digit_value(#[trigger] s[i]) < 10 by {
        assert(crate::text::is_digit(s[i]));
    }
}

/// A letter makes a text no decimal number.
pub proof fn letters_are_no_numbers(s: Seq<char>, i: int, max: nat)
    requires
        0 < i < s.len(),
        !('0' <= s[i] <= '9'),
    ensures
        parsed(s, 10, max) is None,
{
    let digits = crate::text::unsigned_digits(s);
    if s[0] == '+' {
        assert(digits[i - 1] == s[i]);
    }
}

// Space.
proof fn lemma_front(a: Seq<char>, t: Seq<char>)
    requires
        forall|i: int| 0 <= i < a.len() ==> crate::text::is_space(#[trigger] a[i]),
        t.len() > 0,
        !crate::text::is_space(t[0]),
    ensures
        crate::text::trim_front(a + t, crate::text::spaces()) == t,
    decreases a.len(),
{
    if a.len() == 0 {
        assert(a + t =~= t);
    } else {
        assert((a + t)[0] == a[0]);
        assert(crate::text::is_space(a[0]));
        assert((a + t).drop_first() =~= a.drop_first() + t);
        assert forall|i: int| 0 <= i < a.drop_first().len() implies crate::text::is_space(
            #[trigger] a.drop_first()[i],
        ) by {
            assert(a.drop_first()[i] == a[i + 1]);
        }
        lemma_front(a.drop_first(), t);
    }
}

proof fn lemma_back(t: Seq<char>, b: Seq<char>)
    requires
        forall|i: int| 0 <= i < b.len() ==> crate::text::is_space(#[trigger] b[i]),
        t.len() > 0,
        !crate::text::is_space(t.last()),
    ensures
        crate::text::trim_back(t + b, crate::text::spaces()) == t,
    decreases b.len(),
{
    if b.len() == 0 {
        assert(t + b =~= t);
    } else {
        assert((t + b).last() == b[b.len() - 1]);
        assert((t + b).drop_last() =~= t + b.drop_last());
        lemma_back(t, b.drop_last());
    }
}

/// Blanks, tabs and line ends around a text are removed, and what begins and ends
/// with a visible character is kept whole.
pub proof fn outer_space_is_removed(before: Seq<char>, t: Seq<char>, after: Seq<char>)
    requires
        forall|i: int|
            0 <= i < before.len() ==> (#[trigger] before[i]) == ' ' || before[i] == '\t' || before[i]
                == '\n' || before[i] == '\r',
        forall|i: int|
            0 <= i < after.len() ==> (#[trigger] after[i]) == ' ' || after[i] == '\t' || after[i]
                == '\n' || after[i] == '\r',
        t.len() > 0,
        '!' <= t[0] <= '~',
        '!' <= t.last() <= '~',
    ensures
        trimmed(before + t + after) == t,
{
    assert forall|i: int| 0 <= i < before.len() implies crate::text::is_space(
        #[trigger] before[i],
    ) by {}
    assert forall|i: int| 0 <= i < after.len() implies crate::text::is_space(#[trigger] after[i]) by {}
    let rest = t + after;
    assert(before + t + after =~= before + rest);
    assert(rest[0] == t[0]);
    lemma_front(before, rest);
    lemma_back(t, after);
}

/// A text of nothing but blanks and line ends is empty without them.
pub proof fn blank_texts_are_empty(s: Seq<char>)
    requires
        forall|i: int|
            0 <= i < s.len() ==> (#[trigger] s[i]) == ' ' || s[i] == '\t' || s[i] == '\n' || s[i]
                == '\r',
    ensures
        trimmed(s).len() == 0,
    decreases s.len(),
{
    if s.len() > 0 {
        let rest = s.drop_first();
        assert(crate::text::is_space(s[0]));
        assert forall|i: int| 0 <= i < rest.len() implies (#[trigger] rest[i]) == ' ' || rest[i]
            == '\t' || rest[i] == '\n' || rest[i] == '\r' by {
            assert(rest[i] == s[i + 1]);
        }
        blank_texts_are_empty(rest);
    }
}

/// Upper case touches the small letters of ASCII and nothing else, lower case the
/// capital ones.
pub proof fn what_case_touches(s: Seq<char>, i: int)
    requires
        0 <= i < s.len(),
    ensures
        uppered(s).len() == s.len(),
        lowered(s).len() == s.len(),
        'a' <= s[i] <= 'z' ==> uppered(s)[i] as int == s[i] as int - 32,
        !('a' <= s[i] <= 'z') ==> uppered(s)[i] == s[i],
        'A' <= s[i] <= 'Z' ==> lowered(s)[i] as int == s[i] as int + 32,
        !('A' <= s[i] <= 'Z') ==> lowered(s)[i] == s[i],
{
}

// What is shown.
proof fn lemma_visible(s: Seq<char>)
    ensures
        visible(s) == s.filter(|c: char| !(c <= '\u{1f}' || '\u{7f}' <= c <= '\u{9f}')),
    decreases s.len(),
{
    reveal(Seq::filter);
    if s.len() > 0 {
        lemma_visible(s.drop_last());
    }
}

proof fn lemma_printable(s: Seq<char>)
    ensures
        printable(s) == s.filter(
            |c: char| c == '\n' || !(c <= '\u{1f}' || '\u{7f}' <= c <= '\u{9f}'),
        ),
    decreases s.len(),
{
    reveal(Seq::filter);
    if s.len() > 0 {
        lemma_printable(s.drop_last());
    }
}

/// A name is shown without its control characters, up to a hundred and sixty
/// characters of it; one of which nothing is left is replaced.
pub proof fn how_a_name_is_shown(s: Seq<char>)
    ensures
        ({
            let kept = s.filter(|c: char| !(c <= '\u{1f}' || '\u{7f}' <= c <= '\u{9f}'));
            &&& kept.len() == 0 ==> display(s) == "Linux controller"@
            &&& 0 < kept.len() <= 160 ==> display(s) == kept
            &&& kept.len() > 160 ==> display(s) == kept.take(160)
        }),
{
    lemma_visible(s);
}

/// A message is printed without control characters but for its line feeds, and up
/// to five hundred and twelve characters of it.
pub proof fn how_a_message_is_shown(s: Seq<char>)
    ensures
        ({
            let kept = s.filter(
                |c: char| c == '\n' || !(c <= '\u{1f}' || '\u{7f}' <= c <= '\u{9f}'),
            );
            &&& kept.len() <= 512 ==> message_of(s) == kept
            &&& kept.len() > 512 ==> message_of(s) == kept.take(512)
            &&& shown_text(s) == (if trimmed(kept).len() == 0 {
                None
            } else {
                Some(trimmed(kept))
            })
        }),
{
    lemma_printable(s);
}

// Lines and pairs.
proof fn lemma_solid(s: Seq<char>, c: char)
    requires
        !s.contains(c),
    ensures
        forall|i: int| 0 <= i < s.len() ==> !either(c, c)(#[trigger] s[i]),
{
    assert forall|i: int| 0 <= i < s.len() implies !either(c, c)(#[trigger] s[i]) by {
        assert(s.contains(s[i]));
    }
}

/// A line that ends with a line feed comes first, without a carriage return before
/// it; a last line needs no line feed.
pub proof fn lines_end_with_line_feeds(line: Seq<char>, rest: Seq<char>)
    requires
        !line.contains('\n'),
    ensures
        lines(line + seq!['\n'] + rest) == seq![
            if line.len() > 0 && line.last() == '\r' {
                line.drop_last()
            } else {
                line
            },
        ] + lines(rest),
        line.len() > 0 ==> lines(line) == seq![line],
        lines(Seq::empty()).len() == 0,
{
    let sep = either('\n', '\n');
    lemma_solid(line, '\n');
    lemma_split_solid(line, sep);
    assert(line + seq!['\n'] + rest =~= line.push('\n') + rest);
    lemma_split_append(line, '\n', rest, sep);
    let parts = split(line + seq!['\n'] + rest, '\n');
    let later = split(rest, '\n');
    crate::text::lemma_split_nonempty(rest, sep);
    assert(parts =~= seq![line] + later);
    assert(parts.last() == later.last());
    let first = seq![
        if line.len() > 0 && line.last() == '\r' {
            line.drop_last()
        } else {
            line
        },
    ];
    let ended = parts.drop_last().map_values(|l: Seq<char>| chomped(l));
    let later_ended = later.drop_last().map_values(|l: Seq<char>| chomped(l));
    assert(ended =~= first + later_ended);
    if later.last().len() > 0 {
        assert(ended.push(parts.last()) =~= first + later_ended.push(later.last()));
    }
    assert(split(line, '\n') =~= seq![line]);
    assert(seq![line].drop_last().map_values(|l: Seq<char>| chomped(l)).push(line) =~= seq![line]);
    let nothing = Seq::<char>::empty();
    lemma_split_solid(nothing, sep);
    assert(split(nothing, '\n') =~= seq![nothing]);
}

/// A line with an equals sign sets its key, and the last line of a key counts; a
/// line without one sets nothing.
pub proof fn the_last_value_of_a_key_counts(
    list: Seq<Seq<char>>,
    key: Seq<char>,
    value: Seq<char>,
    other: Seq<char>,
    plain: Seq<char>,
)
    requires
        !key.contains('='),
        !plain.contains('='),
    ensures
        lookup(key_values(list.push(key + seq!['='] + value)), trimmed(key)) == Some(
            trimmed(value),
        ),
        other != trimmed(key) ==> lookup(key_values(list.push(key + seq!['='] + value)), other)
            == lookup(key_values(list), other),
        key_values(list.push(plain)) == key_values(list),
        key_values(Seq::empty()).len() == 0,
{
    let line = key + seq!['='] + value;
    split_once_inverts(key, '=', value);
    assert(list.push(line).drop_last() =~= list);
    lemma_lookup_put(key_values(list), trimmed(key), trimmed(value), trimmed(key));
    lemma_lookup_put(key_values(list), trimmed(key), trimmed(value), other);
    assert(list.push(plain).drop_last() =~= list);
    plain.index_of_first_ensures('=');
}

// Bitmaps.
/// The last word of a bitmap holds the lowest codes, and each word before it the
/// codes that follow.
pub proof fn the_last_word_holds_the_lowest_codes(
    list: Seq<Seq<char>>,
    word: Seq<char>,
    code: u16,
    later: u16,
)
    requires
        code < usize::BITS,
        later >= usize::BITS,
    ensures
        has_bit(list.push(word), code) <==> word_value(word) & (1u64 << (code as u64)) != 0,
        has_bit(list.push(word), later) <==> has_bit(list, (later - usize::BITS) as u16),
{
    let width = usize::BITS as int;
    let all = list.push(word);
    vstd::arithmetic::div_mod::lemma_small_mod(code as nat, width as nat);
    vstd::arithmetic::div_mod::lemma_basic_div(code as int, width);
    assert(code as int / width == 0);
    assert(code as int % width == code);
    assert(all[all.len() - 1] == word);
    let rest = later as int - width;
    vstd::arithmetic::div_mod::lemma_div_plus_one(rest, width);
    vstd::arithmetic::div_mod::lemma_mod_add_multiples_vanish(rest, width);
    assert(later as int == width + rest);
    assert(later as int / width == rest / width + 1);
    assert(later as int % width == rest % width);
    let w = rest / width;
    vstd::arithmetic::div_mod::lemma_div_pos_is_pos(rest, width);
    if w < list.len() {
        assert(all[all.len() - 1 - (w + 1)] == list[list.len() - 1 - w]);
    }
}

/// A missing or broken bitmap has no codes.
pub proof fn a_broken_bitmap_has_no_codes(raw: Option<Seq<char>>, code: u16)
    ensures
        bitmap_codes(None) == Set::<u16>::empty(),
        crate::capability::bitmap_broken(raw) ==> !bitmap_codes(raw).contains(code),
        raw is Some && !crate::capability::bitmap_broken(raw) ==> (bitmap_codes(raw).contains(code)
            <==> has_bit(crate::text::words(raw->0), code)),
{
}

// Names.
proof fn lemma_digits_hold_none(s: Seq<char>, c: char)
    requires
        all_digits(s),
        !('0' <= c <= '9'),
    ensures
        !s.contains(c),
{
    if s.contains(c) {
        let i = choose|i: int| 0 <= i < s.len() && s[i] == c;
        assert(crate::text::is_digit(s[i]));
    }
}

proof fn lemma_joined_holds_none(parts: Seq<Seq<char>>, sep: char, c: char)
    requires
        c != sep,
        forall|i: int| 0 <= i < parts.len() ==> !(#[trigger] parts[i]).contains(c),
    ensures
        !join(parts, seq![sep]).contains(c),
    decreases parts.len(),
{
    if parts.len() == 1 {
        assert(!parts[0].contains(c));
    } else if parts.len() > 1 {
        let head = parts.drop_last();
        assert forall|i: int| 0 <= i < head.len() implies !(#[trigger] head[i]).contains(c) by {
            assert(head[i] == parts[i]);
        }
        lemma_joined_holds_none(head, sep, c);
        let a = join(head, seq![sep]);
        let b = parts.last();
        assert(b == parts[parts.len() - 1]);
        let whole = a + seq![sep] + b;
        if whole.contains(c) {
            let i = choose|i: int| 0 <= i < whole.len() && whole[i] == c;
            if i < a.len() {
                assert(a[i] == c);
                assert(a.contains(c));
            } else if i > a.len() {
                assert(b[i - a.len() - 1] == c);
                assert(b.contains(c));
            }
        }
    }
}

/// A USB interface is called by its bus, its ports, its configuration and its
/// number: `1-4.2:1.0`.
pub proof fn how_usb_interfaces_are_called(
    bus: Seq<char>,
    ports: Seq<Seq<char>>,
    configuration: Seq<char>,
    interface: Seq<char>,
)
    requires
        bus.len() > 0 && all_digits(bus),
        ports.len() > 0,
        forall|i: int|
            0 <= i < ports.len() ==> (#[trigger] ports[i]).len() > 0 && all_digits(ports[i]),
        configuration.len() > 0 && all_digits(configuration),
        interface.len() > 0 && all_digits(interface),
    ensures
        usb_interface_name(
            bus + seq!['-'] + join(ports, seq!['.']) + seq![':'] + configuration + seq!['.']
                + interface,
        ),
{
    let chain = join(ports, seq!['.']);
    let device = bus + seq!['-'] + chain;
    let rest = configuration + seq!['.'] + interface;
    let name = bus + seq!['-'] + chain + seq![':'] + configuration + seq!['.'] + interface;
    assert forall|i: int| 0 <= i < ports.len() implies !(#[trigger] ports[i]).contains(':')
        && !ports[i].contains('-') && !ports[i].contains('.') by {
        lemma_digits_hold_none(ports[i], ':');
        lemma_digits_hold_none(ports[i], '-');
        lemma_digits_hold_none(ports[i], '.');
    }
    lemma_joined_holds_none(ports, '.', ':');
    lemma_joined_holds_none(ports, '.', '-');
    lemma_digits_hold_none(bus, ':');
    lemma_digits_hold_none(bus, '-');
    lemma_digits_hold_none(configuration, '.');
    let pair = seq![bus, chain];
    assert forall|i: int| 0 <= i < pair.len() implies !(#[trigger] pair[i]).contains(':') by {}
    assert forall|i: int| 0 <= i < pair.len() implies !(#[trigger] pair[i]).contains('-') by {}
    reveal_with_fuel(join, 3);
    assert(pair.drop_last() =~= seq![bus]);
    assert(join(pair, seq!['-']) =~= device);
    lemma_joined_holds_none(pair, '-', ':');
    split_once_inverts(device, ':', rest);
    assert(name =~= device + seq![':'] + rest);
    split_once_inverts(configuration, '.', interface);
    split_inverts_join(pair, '-');
    split_inverts_join(ports, '.');
    assert(split(device, '-')[0] == bus);
    assert(split(device, '-')[1] == chain);
    assert forall|i: int| 0 <= i < split(chain, '.').len() implies crate::identity::decimal_token(
        #[trigger] split(chain, '.')[i],
    ) by {
        assert(ports[i].len() > 0);
    }
    assert(crate::identity::port_chain(chain));
}

/// A HID function is called by its bus, its vendor and its product, in four
/// hexadecimal digits each, and by a running number: `0003:054C:0CE6.0001`.
pub proof fn how_hid_functions_are_called(
    bus: Seq<char>,
    vendor: Seq<char>,
    product: Seq<char>,
    instance: Seq<char>,
)
    requires
        bus.len() == 4 && all_hex(bus),
        vendor.len() == 4 && all_hex(vendor),
        product.len() == 4 && all_hex(product),
        instance.len() > 0 && all_hex(instance),
    ensures
        hid_name(bus + seq![':'] + vendor + seq![':'] + product + seq!['.'] + instance),
{
    let sep = either(':', '.');
    assert forall|i: int| 0 <= i < bus.len() implies !sep(#[trigger] bus[i]) by {
        assert(crate::text::is_hex(bus[i]));
    }
    assert forall|i: int| 0 <= i < vendor.len() implies !sep(#[trigger] vendor[i]) by {
        assert(crate::text::is_hex(vendor[i]));
    }
    assert forall|i: int| 0 <= i < product.len() implies !sep(#[trigger] product[i]) by {
        assert(crate::text::is_hex(product[i]));
    }
    assert forall|i: int| 0 <= i < instance.len() implies !sep(#[trigger] instance[i]) by {
        assert(crate::text::is_hex(instance[i]));
    }
    lemma_split_solid(bus, sep);
    lemma_split_solid(vendor, sep);
    lemma_split_solid(product, sep);
    lemma_split_solid(instance, sep);
    let two = bus.push(':') + vendor;
    lemma_split_append(bus, ':', vendor, sep);
    let three = two.push(':') + product;
    lemma_split_append(two, ':', product, sep);
    let four = three.push('.') + instance;
    lemma_split_append(three, '.', instance, sep);
    assert(bus + seq![':'] + vendor + seq![':'] + product + seq!['.'] + instance =~= four);
    let parts = split_by(four, sep);
    assert(parts =~= seq![bus, vendor, product, instance]);
}

/// A letter, a digit, a dot, a hyphen or an underscore is written as it is; each
/// other byte as a percent sign and two hexadecimal digits.
pub proof fn what_is_escaped(byte: u8, rest: Seq<u8>)
    ensures
        ({
            let c = byte as char;
            let kept = byte < 128 && ('0' <= c <= '9' || 'a' <= c <= 'z' || 'A' <= c <= 'Z' || c
                == '.' || c == '-' || c == '_');
            crate::identity::escape_all(seq![byte] + rest) == (if kept {
                seq![c]
            } else {
                seq!['%'] + hex_digits(byte as nat, 2)
            }) + crate::identity::escape_all(rest)
        }),
        crate::identity::escape_all(Seq::empty()).len() == 0,
{
    assert((seq![byte] + rest).drop_first() =~= rest);
    reveal_with_fuel(hex_digits, 3);
    assert(hex_digits(byte as nat, 2) =~= seq![
        crate::text::digit_char((byte / 16) as nat),
        crate::text::digit_char((byte % 16) as nat),
    ]);
    assert(seq!['%'] + hex_digits(byte as nat, 2) =~= seq![
        '%',
        crate::text::digit_char((byte / 16) as nat),
        crate::text::digit_char((byte % 16) as nat),
    ]);
}

/// A digest takes its bytes one after the other into two running hashes.
pub proof fn how_a_digest_goes_on(bytes: Seq<u8>, byte: u8)
    ensures
        digest_state(Seq::empty()) == (0xcbf29ce484222325u64, 0x84222325cbf29ceu64),
        ({
            let (a, b) = digest_state(bytes);
            let turned = (b ^ ((byte as u64) << 17)).wrapping_mul(0x100000001b3);
            digest_state(bytes.push(byte)) == (
                (a ^ (byte as u64)).wrapping_mul(0x100000001b3),
                (turned << 7) | (turned >> 57),
            )
        }),
{
    assert(bytes.push(byte).drop_last() =~= bytes);
}

// Paths.
proof fn lemma_named(a: Seq<Seq<char>>, b: Seq<Seq<char>>)
    ensures
        named(a + b) == named(a) + named(b),
    decreases b.len(),
{
    if b.len() == 0 {
        assert(a + b =~= a);
        assert(named(a) + named(b) =~= named(a));
    } else {
        assert((a + b).drop_last() =~= a + b.drop_last());
        assert((a + b).last() == b.last());
        lemma_named(a, b.drop_last());
        if !(b.last().len() == 0 || b.last() == "."@) {
            assert((named(a) + named(b.drop_last())).push(b.last()) =~= named(a) + named(
                b.drop_last(),
            ).push(b.last()));
        }
    }
}

proof fn lemma_components(a: Seq<char>, b: Seq<char>)
    requires
        a.len() > 0,
        a[0] == '/',
    ensures
        components(a + seq!['/'] + b) == components(a) + named(split(b, '/')),
        split(a + seq!['/'] + b, '/') == split(a, '/') + split(b, '/'),
{
    let whole = a + seq!['/'] + b;
    assert(whole =~= a.push('/') + b);
    lemma_split_append(a, '/', b, either('/', '/'));
    assert(split(whole, '/') == split(a, '/') + split(b, '/'));
    lemma_named(split(a, '/'), split(b, '/'));
    assert(whole[0] == '/');
    assert(components(whole) =~= components(a) + named(split(b, '/')));
}

/// What stands below a directory lies within it, and its file name is its last
/// part; a slash more or less makes no difference.
pub proof fn how_paths_are_read(directory: Seq<char>, rest: Seq<char>, name: Seq<char>)
    requires
        directory.len() > 0,
        directory[0] == '/',
        name.len() > 0,
        !name.contains('/'),
        name != "."@,
        name != ".."@,
    ensures
        path_within(directory + seq!['/'] + rest, directory),
        path_within(directory, directory),
        file_name(directory + seq!['/'] + name) == Some(name),
        same_path(directory + seq!['/'], directory),
{
    lemma_components(directory, rest);
    lemma_components(directory, name);
    let nothing = Seq::<char>::empty();
    lemma_components(directory, nothing);
    assert(directory + seq!['/'] + nothing =~= directory + seq!['/']);
    lemma_split_solid(nothing, either('/', '/'));
    reveal_with_fuel(named, 2);
    assert(named(split(nothing, '/')) =~= Seq::empty());
    assert(components(directory) + Seq::<Seq<char>>::empty() =~= components(directory));
    lemma_solid(name, '/');
    lemma_split_solid(name, either('/', '/'));
    assert(split(name, '/') =~= seq![name]);
    assert(seq![name].drop_last() =~= Seq::empty());
    assert(named(split(name, '/')) =~= seq![name]);
    let parts = components(directory + seq!['/'] + name);
    assert(parts.last() == name);
    reveal_strlit("/");
    if name == "/"@ {
        assert(name[0] == '/');
        assert(name.contains(name[0]));
    }
}

} // verus!
