use controwly::discovery::EventEntry;
use controwly::names::NameSet;
use controwly::ordered::Ordered;
use controwly::sorting::sort;
use controwly::text::{
    ascii_lower, ascii_upper, byte_len, char_is_alnum, char_is_control, char_is_digit, char_is_hex,
    char_is_space, chars_of, copy_list, decimal_of, has_prefix, has_suffix, has_text, hex_of,
    join_list, joined3, less, lines_of, parse_number, printable_of, same, split_either,
    split_first, split_last, split_on, string_of, text_is_ascii, text_of_utf8, trim_end_of,
    trim_ends, upper_hex_of, without_prefix, words_of, Cut,
};
use controwly::wide_text::{clean_text, format_error_code, lossy_text, normalized, wide};

fn strings(list: &[&str]) -> Vec<String> {
    list.iter().map(|text| text.to_string()).collect()
}

const SAMPLES: [&str; 12] = [
    "",
    "a",
    "a,b",
    ",",
    "a,,b,",
    "  lead and trail \t\n",
    "line\r\nother\n\nlast",
    "line\n",
    "\r\n",
    "Größe ß 😀 中",
    "\u{0}nul\u{0}",
    "\u{a0}nbsp\u{3000}",
];

#[test]
fn character_classes_are_those_of_std() {
    for code in 0..=0x10ffffu32 {
        if let Some(c) = char::from_u32(code) {
            assert_eq!(char_is_space(c), c.is_whitespace(), "space {code:x}");
            assert_eq!(char_is_control(c), c.is_control(), "control {code:x}");
            assert_eq!(char_is_digit(c), c.is_ascii_digit(), "digit {code:x}");
            assert_eq!(char_is_hex(c), c.is_ascii_hexdigit(), "hex {code:x}");
            assert_eq!(char_is_alnum(c), c.is_ascii_alphanumeric(), "alnum {code:x}");
        }
    }
}

#[test]
fn text_operations_are_those_of_std() {
    for text in SAMPLES {
        assert_eq!(byte_len(text), text.len());
        assert_eq!(text_is_ascii(text), text.is_ascii());
        assert_eq!(chars_of(text), text.chars().collect::<Vec<char>>());
        assert_eq!(string_of(&chars_of(text)), text);
        assert_eq!(ascii_lower(text), text.to_ascii_lowercase());
        assert_eq!(ascii_upper(text), text.to_ascii_uppercase());
        assert_eq!(trim_ends(text, Cut::Space), text.trim());
        assert_eq!(trim_ends(text, Cut::Nul), text.trim_matches('\0'));
        assert_eq!(trim_end_of(text, Cut::LineEnd), text.trim_end_matches(['\r', '\n']));
        assert_eq!(split_on(text, ','), text.split(',').collect::<Vec<&str>>());
        assert_eq!(split_either(text, ',', 'b'), text.split([',', 'b']).collect::<Vec<&str>>());
        assert_eq!(words_of(text), text.split_whitespace().collect::<Vec<&str>>());
        assert_eq!(lines_of(text), text.lines().collect::<Vec<&str>>());
        let first = split_first(text, ',');
        assert_eq!(
            first.as_ref().map(|(a, b)| (a.as_str(), b.as_str())),
            text.split_once(',')
        );
        let last = split_last(text, ',');
        assert_eq!(
            last.as_ref().map(|(a, b)| (a.as_str(), b.as_str())),
            text.rsplit_once(',')
        );
        let printed: String = text.chars().filter(|c| !c.is_control() || *c == '\n').collect();
        assert_eq!(string_of(&printable_of(text)), printed);
        for other in SAMPLES {
            assert_eq!(same(text, other), text == other);
            assert_eq!(less(text, other), text < other);
            assert_eq!(has_prefix(text, other), text.starts_with(other));
            assert_eq!(has_suffix(text, other), text.ends_with(other));
            assert_eq!(has_text(text, other), text.contains(other));
            assert_eq!(without_prefix(text, other).as_deref(), text.strip_prefix(other));
        }
    }
    assert_eq!(joined3("a", "", "c"), "ac");
}

#[test]
fn numbers_are_written_and_read() {
    assert_eq!(decimal_of(0), "0");
    assert_eq!(decimal_of(18_446_744_073_709_551_615), "18446744073709551615");
    assert_eq!(hex_of(0xbeef, 6), "00beef");
    assert_eq!(hex_of(0xbeef, 2), "ef");
    assert_eq!(upper_hex_of(0xbeef, 8), "0000BEEF");
    assert_eq!(parse_number("65535", 10, 65535), Some(65535));
    assert_eq!(parse_number("65536", 10, 65535), None);
    assert_eq!(parse_number("+7", 10, 65535), Some(7));
    assert_eq!(parse_number("", 10, 65535), None);
    assert_eq!(parse_number("+", 10, 65535), None);
    assert_eq!(parse_number("-1", 10, 65535), None);
    assert_eq!(parse_number("fF", 16, u64::MAX), Some(255));
    assert_eq!(parse_number("10000000000000000", 16, u64::MAX), None);
    assert_eq!(parse_number("ffffffffffffffff", 16, u64::MAX), Some(u64::MAX));
}

#[test]
fn reading_a_written_number_gives_it_back() {
    for n in [0u64, 9, 10, 4096, u64::MAX] {
        assert_eq!(parse_number(&decimal_of(n), 10, u64::MAX), Some(n));
    }
}

#[test]
fn splitting_undoes_joining() {
    let parts = strings(&["one", "", "three"]);
    assert_eq!(join_list(&parts, ","), "one,,three");
    assert_eq!(split_on(&join_list(&parts, ","), ','), parts);
    assert_eq!(copy_list(&parts), parts);
    assert_eq!(split_first("a=b=c", '='), Some(("a".to_owned(), "b=c".to_owned())));
    assert_eq!(split_last("a=b=c", '='), Some(("a=b".to_owned(), "c".to_owned())));
}

#[test]
fn bytes_are_text_only_when_they_are_utf8() {
    assert_eq!(text_of_utf8(vec![0xc3, 0x9f]), Some("ß".to_owned()));
    assert_eq!(text_of_utf8(vec![0xc3]), None);
    assert_eq!(text_of_utf8(vec![0xed, 0xa0, 0x80]), None);
    assert_eq!(text_of_utf8(Vec::new()), Some(String::new()));
}

#[test]
fn wide_units_are_those_of_std() {
    for text in SAMPLES {
        let units: Vec<u16> = text.encode_utf16().collect();
        let mut ended = units.clone();
        ended.push(0);
        assert_eq!(wide(text), ended);
        assert_eq!(lossy_text(&units), text);
    }
    for units in [
        vec![0xd800u16],
        vec![0xdc00, 0x41],
        vec![0xd800, 0xd801, 0xdc00],
        vec![0x41, 0xdbff, 0xe000],
    ] {
        assert_eq!(lossy_text(&units), String::from_utf16_lossy(&units));
    }
}

#[test]
fn normal_text_is_trimmed_and_upper_case() {
    assert_eq!(clean_text("\0\0 hid\\a \0"), "hid\\a");
    assert_eq!(normalized(" usb\\vid_045e\u{0} "), "USB\\VID_045E\u{0}");
    assert_eq!(normalized(" straße "), "STRAßE");
    let once = normalized("\u{0} mixed Case \u{0}");
    assert_eq!(once, "MIXED CASE");
    assert_eq!(normalized(&once), once);
}

#[test]
fn error_codes_are_shown_with_their_text() {
    let detail: Vec<u16> = "Access is denied.\r\n".encode_utf16().collect();
    assert_eq!(
        format_error_code("open", 5, &detail),
        "open: Access is denied. (0x00000005)"
    );
    assert_eq!(
        format_error_code("open", 0xe000_0203, &[]),
        "open: Win32 error 3758096899 (0xE0000203)"
    );
}

#[test]
fn names_stay_in_order_without_repeats() {
    let mut names = NameSet::new();
    for name in ["pear", "apple", "fig", "apple", "é"] {
        names.insert(name.to_owned());
    }
    assert_eq!(names.list(), strings(&["apple", "fig", "pear", "é"]));
    assert!(names.contains("fig"));
    names.remove("fig");
    names.remove("absent");
    assert!(!names.contains("fig"));
    assert_eq!(names.list(), strings(&["apple", "pear", "é"]));
}

#[test]
fn taking_a_name_out_undoes_putting_it_in() {
    let mut names = NameSet::new();
    names.insert("b".to_owned());
    names.insert("d".to_owned());
    let before = names.list();
    names.insert("c".to_owned());
    names.remove("c");
    assert_eq!(names.list(), before);
    names.remove("b");
    names.insert("b".to_owned());
    assert_eq!(names.list(), before);
}

#[test]
fn ordered_entries_are_found_and_replaced() {
    let mut fields: Ordered<String> = Ordered::new();
    assert!(!fields.insert("usage".to_owned(), "5".to_owned()));
    assert!(!fields.insert("bus".to_owned(), "hid".to_owned()));
    assert!(fields.insert("usage".to_owned(), "4".to_owned()));
    assert_eq!(fields.get("usage").map(String::as_str), Some("4"));
    assert_eq!(fields.position("usage"), Some(1));
    assert_eq!(fields.position("phys"), None);
    assert_eq!(fields.text("phys"), "");
    assert_eq!(fields.find("bus"), Some("hid"));
    assert!(!fields.has("phys"));
    let before = fields.copy();
    fields.insert_text("phys", None);
    assert_eq!(fields, before);
    fields.insert_text("phys", Some("usb-1"));
    assert!(fields.has("phys"));
    fields.remove("phys");
    assert_eq!(fields, before);
}

#[test]
fn sorting_keeps_the_order_of_equals() {
    let mut list = Vec::new();
    for (number, name) in [(2, "a"), (1, "b"), (2, "c"), (0, "d"), (1, "e")] {
        list.push(EventEntry { number, name: name.to_owned() });
    }
    let mut order = String::new();
    for entry in sort(list) {
        order.push_str(&entry.name);
    }
    assert_eq!(order, "dbeac");
}
