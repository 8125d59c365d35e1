//! Text helpers on `str`, `String` and slices of `char`.
use vstd::prelude::*;
use vstd::utf8::{decode_utf8, encode_utf8, is_ascii_chars, valid_utf8};

verus! {

/// `String::push` appends one character to the end of the text.
pub assume_specification[ String::push ](s: &mut String, c: char)
    ensures
        final(s)@ == old(s)@.push(c),
;

/// `==` on `str` holds exactly when both texts have the same characters.
pub assume_specification[ <str as PartialEq>::eq ](a: &str, b: &str) -> (r: bool)
    ensures
        r == (a@ == b@),
;

/// `String::from_utf8` succeeds exactly on valid UTF-8, and the text then
/// encodes back to the bytes.
#[verifier::external_body]
fn utf8_string(bytes: Vec<u8>) -> (r: Option<String>)
    ensures
        r is Some <==> valid_utf8(bytes@),
        r matches Some(s) ==> encode_utf8(s@) == bytes@,
{
    String::from_utf8(bytes).ok()
}

/// The text that bytes encode, where they are valid UTF-8.
pub open spec fn utf8_text(bytes: Seq<u8>) -> Option<Seq<char>> {
    if valid_utf8(bytes) {
        Some(decode_utf8(bytes))
    } else {
        None
    }
}

pub fn text_of_utf8(bytes: Vec<u8>) -> (r: Option<String>)
    ensures
        opt_text(r) == utf8_text(bytes@),
{
    let r = utf8_string(bytes);
    proof {
        if r is Some {
            vstd::utf8::encode_utf8_decode_utf8(r->0@);
        }
    }
    r
}

/// The text that the standard library makes of bytes that may not be valid
/// UTF-8, with replacement characters for what is not text.
pub uninterp spec fn lossy_form(bytes: Seq<u8>) -> Seq<char>;

/// `String::from_utf8_lossy`: valid UTF-8 gives its text, and anything else the
/// text named `lossy_form`.  Where the replacement characters stand is left to
/// the standard library.
#[verifier::external_body]
pub(crate) fn lossy_utf8(bytes: &[u8]) -> (r: String)
    ensures
        r@ == lossy_form(bytes@),
        valid_utf8(bytes@) ==> r@ == decode_utf8(bytes@),
{
    String::from_utf8_lossy(bytes).into_owned()
}

/// The number of bytes of a text in UTF-8.
pub open spec fn utf8_len(s: Seq<char>) -> nat {
    encode_utf8(s).len()
}

pub fn byte_len(s: &str) -> (r: usize)
    ensures
        r == utf8_len(s@),
{
    s.as_bytes().len()
}

pub fn text_is_ascii(s: &str) -> (r: bool)
    ensures
        r == is_ascii_chars(s@),
{
    s.is_ascii()
}

/// The form that `{:?}` gives a text: quotes around it, and escapes where the
/// standard library writes them.
pub uninterp spec fn debug_form(s: Seq<char>) -> Seq<char>;

/// `{:?}` on a `str`: the quoted form of the text, named `debug_form`.  Which
/// characters are escaped is left to the standard library.
#[verifier::external_body]
pub(crate) fn debug_text(s: &str) -> (r: String)
    ensures
        r@ == debug_form(s@),
{
    format!("{:?}", s)
}

/// The result with its error message taken as a sequence of characters.
pub open spec fn text_result<T>(r: Result<T, String>) -> Result<T, Seq<char>> {
    match r {
        Ok(v) => Ok(v),
        Err(e) => Err(e@),
    }
}

/// A result that holds a value with a view, and a message.
pub open spec fn view_result<T: View>(r: Result<T, String>) -> Result<T::V, Seq<char>> {
    match r {
        Ok(v) => Ok(v@),
        Err(e) => Err(e@),
    }
}

/// The texts of an optional list.
pub open spec fn opt_texts(list: Option<Vec<String>>) -> Option<Seq<Seq<char>>> {
    match list {
        Some(v) => Some(texts(v@)),
        None => None,
    }
}

/// The characters of a text, in order.
pub fn chars_of(s: &str) -> (r: Vec<char>)
    ensures
        r@ == s@,
{
    let mut out: Vec<char> = Vec::new();
    for c in it: s.chars()
        invariant
            out@ == it.seq().take(it.index() as int),
            it.seq() == s@,
    {
        out.push(c);
    }
    out
}

/// The text made of the given characters.
pub fn string_of(chars: &[char]) -> (r: String)
    ensures
        r@ == chars@,
{
    let mut out: String = String::new();
    let mut i: usize = 0;
    while i < chars.len()
        invariant
            i <= chars@.len(),
            out@ == chars@.take(i as int),
        decreases chars@.len() - i,
    {
        out.push(chars[i]);
        i += 1;
    }
    out
}

/// Whether two texts are equal.
pub fn same(a: &str, b: &str) -> (r: bool)
    ensures
        r == (a@ == b@),
{
    *a == *b
}

/// One text followed by another.
pub fn joined(a: &str, b: &str) -> (r: String)
    ensures
        r@ == a@ + b@,
{
    let mut out: String = a.to_owned();
    out.append(b);
    out
}

/// Three texts one after the other.
pub fn joined3(a: &str, b: &str, c: &str) -> (r: String)
    ensures
        r@ == a@ + b@ + c@,
{
    let mut out: String = a.to_owned();
    out.append(b);
    out.append(c);
    out
}

/// The texts of a list of strings.
pub open spec fn texts(list: Seq<String>) -> Seq<Seq<char>> {
    list.map_values(|s: String| s@)
}

/// The text of an optional string.
pub open spec fn opt_text(s: Option<String>) -> Option<Seq<char>> {
    match s {
        Some(t) => Some(t@),
        None => None,
    }
}

/// A copy of an optional string.
pub fn copy_opt(s: &Option<String>) -> (r: Option<String>)
    ensures
        r == *s,
{
    match s {
        Some(t) => Some(t.clone()),
        None => None,
    }
}

/// A copy of a list of strings.
pub fn copy_list(list: &[String]) -> (r: Vec<String>)
    ensures
        r@ == list@,
{
    let mut out: Vec<String> = Vec::new();
    let mut i: usize = 0;
    while i < list.len()
        invariant
            i <= list@.len(),
            out@ == list@.take(i as int),
        decreases list@.len() - i,
    {
        out.push(list[i].clone());
        i += 1;
    }
    out
}

// Character classes.
pub open spec fn is_digit(c: char) -> bool {
    '0' <= c <= '9'
}

pub open spec fn is_hex(c: char) -> bool {
    '0' <= c <= '9' || 'a' <= c <= 'f' || 'A' <= c <= 'F'
}

pub open spec fn is_alnum(c: char) -> bool {
    '0' <= c <= '9' || 'a' <= c <= 'z' || 'A' <= c <= 'Z'
}

/// The control characters: the general category Cc.
pub open spec fn is_control(c: char) -> bool {
    c <= '\u{1f}' || '\u{7f}' <= c <= '\u{9f}'
}

/// The characters with the Unicode property White_Space.
pub open spec fn is_space(c: char) -> bool {
    ||| '\u{9}' <= c <= '\u{d}'
    ||| c == ' '
    ||| c == '\u{85}'
    ||| c == '\u{a0}'
    ||| c == '\u{1680}'
    ||| '\u{2000}' <= c <= '\u{200a}'
    ||| c == '\u{2028}'
    ||| c == '\u{2029}'
    ||| c == '\u{202f}'
    ||| c == '\u{205f}'
    ||| c == '\u{3000}'
}

pub open spec fn all_digits(s: Seq<char>) -> bool {
    forall|i: int| 0 <= i < s.len() ==> is_digit(#[trigger] s[i])
}

pub open spec fn all_hex(s: Seq<char>) -> bool {
    forall|i: int| 0 <= i < s.len() ==> is_hex(#[trigger] s[i])
}

pub fn char_is_digit(c: char) -> (r: bool)
    ensures
        r == is_digit(c),
{
    '0' <= c && c <= '9'
}

pub fn char_is_hex(c: char) -> (r: bool)
    ensures
        r == is_hex(c),
{
    ('0' <= c && c <= '9') || ('a' <= c && c <= 'f') || ('A' <= c && c <= 'F')
}

pub fn char_is_alnum(c: char) -> (r: bool)
    ensures
        r == is_alnum(c),
{
    ('0' <= c && c <= '9') || ('a' <= c && c <= 'z') || ('A' <= c && c <= 'Z')
}

pub fn char_is_control(c: char) -> (r: bool)
    ensures
        r == is_control(c),
{
    c <= '\u{1f}' || ('\u{7f}' <= c && c <= '\u{9f}')
}

pub fn char_is_space(c: char) -> (r: bool)
    ensures
        r == is_space(c),
{
    ('\u{9}' <= c && c <= '\u{d}') || c == ' ' || c == '\u{85}' || c == '\u{a0}' || c == '\u{1680}'
        || ('\u{2000}' <= c && c <= '\u{200a}') || c == '\u{2028}' || c == '\u{2029}' || c
        == '\u{202f}' || c == '\u{205f}' || c == '\u{3000}'
}

pub fn text_all_digits(s: &str) -> (r: bool)
    ensures
        r == all_digits(s@),
{
    let chars = chars_of(s);
    let mut i: usize = 0;
    while i < chars.len()
        invariant
            i <= chars@.len(),
            chars@ == s@,
            forall|j: int| 0 <= j < i ==> is_digit(#[trigger] s@[j]),
        decreases chars@.len() - i,
    {
        if !char_is_digit(chars[i]) {
            assert(!is_digit(s@[i as int]));
            return false;
        }
        i += 1;
    }
    true
}

pub fn text_all_hex(s: &str) -> (r: bool)
    ensures
        r == all_hex(s@),
{
    let chars = chars_of(s);
    let mut i: usize = 0;
    while i < chars.len()
        invariant
            i <= chars@.len(),
            chars@ == s@,
            forall|j: int| 0 <= j < i ==> is_hex(#[trigger] s@[j]),
        decreases chars@.len() - i,
    {
        if !char_is_hex(chars[i]) {
            assert(!is_hex(s@[i as int]));
            return false;
        }
        i += 1;
    }
    true
}

/// The characters that are shown: no control characters but line feeds.
pub open spec fn printable(s: Seq<char>) -> Seq<char>
    decreases s.len(),
{
    if s.len() == 0 {
        s
    } else if is_control(s.last()) && s.last() != '\n' {
        printable(s.drop_last())
    } else {
        printable(s.drop_last()).push(s.last())
    }
}

pub fn printable_of(s: &str) -> (r: Vec<char>)
    ensures
        r@ == printable(s@),
{
    let chars = chars_of(s);
    let mut kept: Vec<char> = Vec::new();
    let mut i: usize = 0;
    assert(s@.take(0).len() == 0);
    assert(kept@ == printable(s@.take(0)));
    while i < chars.len()
        invariant
            i <= chars@.len(),
            chars@ == s@,
            kept@ == printable(s@.take(i as int)),
        decreases chars@.len() - i,
    {
        assert(s@.take(i + 1).drop_last() == s@.take(i as int));
        assert(s@.take(i + 1).last() == s@[i as int]);
        if !char_is_control(chars[i]) || chars[i] == '\n' {
            kept.push(chars[i]);
        }
        i += 1;
    }
    assert(s@.take(i as int) == s@);
    kept
}

// ASCII case.
pub open spec fn lower(c: char) -> char {
    if 'A' <= c <= 'Z' {
        ((c as u8 + 32) as u8) as char
    } else {
        c
    }
}

pub open spec fn upper(c: char) -> char {
    if 'a' <= c <= 'z' {
        ((c as u8 - 32) as u8) as char
    } else {
        c
    }
}

pub open spec fn lowered(s: Seq<char>) -> Seq<char> {
    s.map_values(|c: char| lower(c))
}

pub open spec fn uppered(s: Seq<char>) -> Seq<char> {
    s.map_values(|c: char| upper(c))
}

pub fn ascii_lower(s: &str) -> (r: String)
    ensures
        r@ == lowered(s@),
{
    let chars = chars_of(s);
    let mut out: String = String::new();
    let mut i: usize = 0;
    while i < chars.len()
        invariant
            i <= chars@.len(),
            chars@ == s@,
            out@ == lowered(s@).take(i as int),
        decreases chars@.len() - i,
    {
        let c: char = chars[i];
        if 'A' <= c && c <= 'Z' {
            out.push((c as u8 + 32) as char);
        } else {
            out.push(c);
        }
        i += 1;
    }
    out
}

pub fn ascii_upper(s: &str) -> (r: String)
    ensures
        r@ == uppered(s@),
{
    let chars = chars_of(s);
    let mut out: String = String::new();
    let mut i: usize = 0;
    while i < chars.len()
        invariant
            i <= chars@.len(),
            chars@ == s@,
            out@ == uppered(s@).take(i as int),
        decreases chars@.len() - i,
    {
        let c: char = chars[i];
        if 'a' <= c && c <= 'z' {
            out.push((c as u8 - 32) as char);
        } else {
            out.push(c);
        }
        i += 1;
    }
    out
}

// Trimming.
pub open spec fn trim_front(s: Seq<char>, cut: spec_fn(char) -> bool) -> Seq<char>
    decreases s.len(),
{
    if s.len() > 0 && cut(s[0]) {
        trim_front(s.drop_first(), cut)
    } else {
        s
    }
}

pub open spec fn trim_back(s: Seq<char>, cut: spec_fn(char) -> bool) -> Seq<char>
    decreases s.len(),
{
    if s.len() > 0 && cut(s.last()) {
        trim_back(s.drop_last(), cut)
    } else {
        s
    }
}

pub open spec fn spaces() -> spec_fn(char) -> bool {
    |c: char| is_space(c)
}

pub open spec fn line_ends() -> spec_fn(char) -> bool {
    |c: char| c == '\n' || c == '\r'
}

pub open spec fn nuls() -> spec_fn(char) -> bool {
    |c: char| c == '\0'
}

/// The text without leading and trailing white space.
pub open spec fn trimmed(s: Seq<char>) -> Seq<char> {
    trim_back(trim_front(s, spaces()), spaces())
}

/// What a trim removes.
#[derive(Clone, Copy, Debug, PartialEq, Eq, Structural)]
pub enum Cut {
    Space,
    LineEnd,
    Nul,
}

pub open spec fn cut_set(cut: Cut) -> spec_fn(char) -> bool {
    match cut {
        Cut::Space => spaces(),
        Cut::LineEnd => line_ends(),
        Cut::Nul => nuls(),
    }
}

fn cuts(cut: Cut, c: char) -> (r: bool)
    ensures
        r == cut_set(cut)(c),
{
    match cut {
        Cut::Space => char_is_space(c),
        Cut::LineEnd => c == '\n' || c == '\r',
        Cut::Nul => c == '\0',
    }
}

fn front_cut(chars: &[char], cut: Cut) -> (r: usize)
    ensures
        r <= chars@.len(),
        chars@.skip(r as int) == trim_front(chars@, cut_set(cut)),
{
    let mut i: usize = 0;
    assert(chars@.skip(0) == chars@);
    while i < chars.len() && cuts(cut, chars[i])
        invariant
            i <= chars@.len(),
            trim_front(chars@.skip(i as int), cut_set(cut)) == trim_front(chars@, cut_set(cut)),
        decreases chars@.len() - i,
    {
        assert(chars@.skip(i as int).drop_first() == chars@.skip(i + 1));
        i += 1;
    }
    i
}

fn back_cut(chars: &[char], cut: Cut) -> (r: usize)
    ensures
        r <= chars@.len(),
        chars@.take(r as int) == trim_back(chars@, cut_set(cut)),
{
    let mut i: usize = chars.len();
    assert(chars@.take(i as int) == chars@);
    while i > 0 && cuts(cut, chars[i - 1])
        invariant
            i <= chars@.len(),
            trim_back(chars@.take(i as int), cut_set(cut)) == trim_back(chars@, cut_set(cut)),
        decreases i,
    {
        assert(chars@.take(i as int).drop_last() == chars@.take(i - 1));
        i -= 1;
    }
    i
}

/// Removes the given characters from both ends.
pub fn trim_ends(s: &str, cut: Cut) -> (r: String)
    ensures
        r@ == trim_back(trim_front(s@, cut_set(cut)), cut_set(cut)),
{
    let chars = chars_of(s);
    let start: usize = front_cut(chars.as_slice(), cut);
    let rest = vstd::slice::slice_subrange(chars.as_slice(), start, chars.len());
    assert(rest@ == s@.skip(start as int));
    let end: usize = back_cut(rest, cut);
    let kept = vstd::slice::slice_subrange(rest, 0, end);
    assert(kept@ == rest@.take(end as int));
    string_of(kept)
}

/// Removes the given characters from the end.
pub fn trim_end_of(s: &str, cut: Cut) -> (r: String)
    ensures
        r@ == trim_back(s@, cut_set(cut)),
{
    let chars = chars_of(s);
    let end: usize = back_cut(chars.as_slice(), cut);
    let kept = vstd::slice::slice_subrange(chars.as_slice(), 0, end);
    assert(kept@ == s@.take(end as int));
    string_of(kept)
}

// Splitting.
/// The pieces between the characters that satisfy `sep`.
pub open spec fn split_by(s: Seq<char>, sep: spec_fn(char) -> bool) -> Seq<Seq<char>>
    decreases s.len(),
{
    if s.len() == 0 {
        seq![Seq::empty()]
    } else {
        let head = split_by(s.drop_last(), sep);
        if sep(s.last()) {
            head.push(Seq::empty())
        } else {
            head.drop_last().push(head.last().push(s.last()))
        }
    }
}

pub open spec fn either(a: char, b: char) -> spec_fn(char) -> bool {
    |c: char| c == a || c == b
}

/// The pieces of a text between occurrences of `c`.
pub open spec fn split(s: Seq<char>, c: char) -> Seq<Seq<char>> {
    split_by(s, either(c, c))
}

pub proof fn lemma_split_nonempty(s: Seq<char>, sep: spec_fn(char) -> bool)
    ensures
        split_by(s, sep).len() > 0,
{
}

/// The pieces of a text between characters that are `a` or `b`.
pub fn split_either(s: &str, a: char, b: char) -> (r: Vec<String>)
    ensures
        texts(r@) == split_by(s@, either(a, b)),
{
    let chars = chars_of(s);
    let mut done: Vec<String> = Vec::new();
    let mut piece: String = String::new();
    let mut i: usize = 0;
    assert(s@.take(0).len() == 0);
    while i < chars.len()
        invariant
            i <= chars@.len(),
            chars@ == s@,
            texts(done@).push(piece@) == split_by(s@.take(i as int), either(a, b)),
        decreases chars@.len() - i,
    {
        let c: char = chars[i];
        proof {
            let next = s@.take(i + 1);
            assert(next.drop_last() == s@.take(i as int));
            assert(next.last() == c);
        }
        let ghost before = texts(done@).push(piece@);
        assert(before.drop_last() == texts(done@));
        if c == a || c == b {
            let ghost old_piece = piece@;
            done.push(piece);
            assert(texts(done@) == before);
            piece = String::new();
            assert(piece@ == Seq::<char>::empty());
        } else {
            piece.push(c);
        }
        i += 1;
    }
    assert(s@.take(i as int) == s@);
    let ghost parts = texts(done@);
    let ghost last_piece = piece@;
    done.push(piece);
    assert(texts(done@) == parts.push(last_piece));
    done
}

/// The pieces of a text between occurrences of `c`.
pub fn split_on(s: &str, c: char) -> (r: Vec<String>)
    ensures
        texts(r@) == split(s@, c),
{
    split_either(s, c, c)
}

/// The pieces that are not empty.
pub open spec fn nonempty(parts: Seq<Seq<char>>) -> Seq<Seq<char>>
    decreases parts.len(),
{
    if parts.len() == 0 {
        parts
    } else if parts.last().len() == 0 {
        nonempty(parts.drop_last())
    } else {
        nonempty(parts.drop_last()).push(parts.last())
    }
}

/// The words of a text: its longest pieces without white space.
pub open spec fn words(s: Seq<char>) -> Seq<Seq<char>> {
    nonempty(split_by(s, spaces()))
}

/// The words of a text, in order.
pub fn words_of(s: &str) -> (r: Vec<String>)
    ensures
        texts(r@) == words(s@),
{
    let chars = chars_of(s);
    let mut done: Vec<String> = Vec::new();
    let mut piece: String = String::new();
    let mut i: usize = 0;
    let ghost mut parts: Seq<Seq<char>> = Seq::empty();
    assert(s@.take(0).len() == 0);
    while i < chars.len()
        invariant
            i <= chars@.len(),
            chars@ == s@,
            texts(done@) == nonempty(parts),
            parts.push(piece@) == split_by(s@.take(i as int), spaces()),
        decreases chars@.len() - i,
    {
        let c: char = chars[i];
        proof {
            let next = s@.take(i + 1);
            assert(next.drop_last() == s@.take(i as int));
            assert(next.last() == c);
            assert(parts.push(piece@).drop_last() == parts);
        }
        if char_is_space(c) {
            let ghost grown = parts.push(piece@);
            proof {
                assert(grown.drop_last() == parts);
                parts = grown;
            }
            if !piece.as_str().is_empty() {
                let ghost held = texts(done@);
                let ghost word = piece@;
                done.push(piece);
                assert(texts(done@) == held.push(word));
            }
            piece = String::new();
            assert(piece@ == Seq::<char>::empty());
        } else {
            piece.push(c);
        }
        i += 1;
    }
    assert(s@.take(i as int) == s@);
    assert(parts.push(piece@).drop_last() == parts);
    if !piece.as_str().is_empty() {
        let ghost held = texts(done@);
        let ghost word = piece@;
        done.push(piece);
        assert(texts(done@) == held.push(word));
    }
    done
}

/// What stands before and after the first `c`.
pub open spec fn split_once(s: Seq<char>, c: char) -> Option<(Seq<char>, Seq<char>)> {
    match s.index_of_first(c) {
        Some(i) => Some((s.take(i), s.skip(i + 1))),
        None => None,
    }
}

/// What stands before and after the last `c`.
pub open spec fn rsplit_once(s: Seq<char>, c: char) -> Option<(Seq<char>, Seq<char>)> {
    match s.index_of_last(c) {
        Some(i) => Some((s.take(i), s.skip(i + 1))),
        None => None,
    }
}

pub open spec fn pair_text(p: Option<(String, String)>) -> Option<(Seq<char>, Seq<char>)> {
    match p {
        Some((a, b)) => Some((a@, b@)),
        None => None,
    }
}

pub fn split_first(s: &str, c: char) -> (r: Option<(String, String)>)
    ensures
        pair_text(r) == split_once(s@, c),
{
    let chars = chars_of(s);
    proof {
        s@.index_of_first_ensures(c);
    }
    let mut i: usize = 0;
    while i < chars.len()
        invariant
            i <= chars@.len(),
            chars@ == s@,
            forall|j: int| 0 <= j < i ==> s@[j] != c,
            match s@.index_of_first(c) {
                Some(index) => {
                    &&& 0 <= index < s@.len()
                    &&& s@[index] == c
                    &&& forall|j: int| 0 <= j < index < s@.len() ==> s@[j] != c
                },
                None => !s@.contains(c),
            },
        decreases chars@.len() - i,
    {
        if chars[i] == c {
            let head = vstd::slice::slice_subrange(chars.as_slice(), 0, i);
            let tail = vstd::slice::slice_subrange(chars.as_slice(), i + 1, chars.len());
            assert(s@.contains(s@[i as int]));
            assert(s@.index_of_first(c) == Some(i as int));
            assert(head@ == s@.take(i as int));
            assert(tail@ == s@.skip(i + 1));
            return Some((string_of(head), string_of(tail)));
        }
        i += 1;
    }
    None
}

pub fn split_last(s: &str, c: char) -> (r: Option<(String, String)>)
    ensures
        pair_text(r) == rsplit_once(s@, c),
{
    let chars = chars_of(s);
    proof {
        s@.index_of_last_ensures(c);
    }
    let mut i: usize = chars.len();
    while i > 0
        invariant
            i <= chars@.len(),
            chars@ == s@,
            forall|j: int| i <= j < s@.len() ==> s@[j] != c,
            match s@.index_of_last(c) {
                Some(index) => {
                    &&& 0 <= index < s@.len()
                    &&& s@[index] == c
                    &&& forall|j: int| 0 <= index < j < s@.len() ==> s@[j] != c
                },
                None => !s@.contains(c),
            },
        decreases i,
    {
        i -= 1;
        if chars[i] == c {
            let head = vstd::slice::slice_subrange(chars.as_slice(), 0, i);
            let tail = vstd::slice::slice_subrange(chars.as_slice(), i + 1, chars.len());
            assert(s@.contains(s@[i as int]));
            assert(s@.index_of_last(c) == Some(i as int));
            assert(head@ == s@.take(i as int));
            assert(tail@ == s@.skip(i + 1));
            return Some((string_of(head), string_of(tail)));
        }
    }
    None
}

/// A line without the carriage return before its line feed.
pub open spec fn chomped(line: Seq<char>) -> Seq<char> {
    if line.len() > 0 && line.last() == '\r' {
        line.drop_last()
    } else {
        line
    }
}

/// The lines of a text: the pieces between line feeds, each without a carriage
/// return before the line feed; an empty last piece is no line.
pub open spec fn lines(s: Seq<char>) -> Seq<Seq<char>> {
    let parts = split(s, '\n');
    let ended = parts.drop_last().map_values(|line: Seq<char>| chomped(line));
    if parts.last().len() == 0 {
        ended
    } else {
        ended.push(parts.last())
    }
}

pub fn lines_of(s: &str) -> (r: Vec<String>)
    ensures
        texts(r@) == lines(s@),
{
    let parts = split_on(s, '\n');
    let ghost pieces = split(s@, '\n');
    assert(parts@.len() == pieces.len());
    assert forall|k: int| 0 <= k < parts@.len() implies #[trigger] parts@[k]@ == pieces[k] by {
        assert(texts(parts@)[k] == pieces[k]);
    }
    let last: usize = parts.len() - 1;
    let mut out: Vec<String> = Vec::new();
    let ghost ended = pieces.drop_last().map_values(|line: Seq<char>| chomped(line));
    let mut i: usize = 0;
    while i < last
        invariant
            i <= last,
            last == pieces.len() - 1,
            parts@.len() == pieces.len(),
            forall|k: int| 0 <= k < parts@.len() ==> #[trigger] parts@[k]@ == pieces[k],
            ended == pieces.drop_last().map_values(|line: Seq<char>| chomped(line)),
            texts(out@) == ended.take(i as int),
        decreases last - i,
    {
        let chars = chars_of(parts[i].as_str());
        let ghost held = texts(out@);
        if chars.len() > 0 && chars[chars.len() - 1] == '\r' {
            let kept = vstd::slice::slice_subrange(chars.as_slice(), 0, chars.len() - 1);
            assert(kept@ == pieces[i as int].drop_last());
            out.push(string_of(kept));
        } else {
            out.push(parts[i].clone());
        }
        assert(out@.last()@ == ended[i as int]);
        assert(texts(out@) == held.push(out@.last()@));
        assert(ended.take(i + 1) == ended.take(i as int).push(ended[i as int]));
        i += 1;
    }
    assert(ended.take(i as int) == ended);
    if !parts[last].as_str().is_empty() {
        let ghost held = texts(out@);
        out.push(parts[last].clone());
        assert(texts(out@) == held.push(pieces.last()));
    }
    out
}

// Searching.
pub open spec fn starts_with(s: Seq<char>, prefix: Seq<char>) -> bool {
    prefix.len() <= s.len() && s.take(prefix.len() as int) == prefix
}

pub open spec fn contains_text(s: Seq<char>, needle: Seq<char>) -> bool {
    exists|i: int|
        0 <= i <= s.len() - needle.len() && #[trigger] s.subrange(i, i + needle.len()) == needle
}

fn matches_at(chars: &[char], needle: &[char], at: usize) -> (r: bool)
    requires
        at + needle@.len() <= chars@.len(),
    ensures
        r == (chars@.subrange(at as int, at + needle@.len()) == needle@),
{
    let total: usize = chars.len();
    let mut i: usize = 0;
    while i < needle.len()
        invariant
            i <= needle@.len(),
            at + needle@.len() <= chars@.len(),
            chars@.len() == total,
            forall|j: int| 0 <= j < i ==> chars@[at + j] == #[trigger] needle@[j],
        decreases needle@.len() - i,
    {
        if chars[at + i] != needle[i] {
            assert(chars@.subrange(at as int, at + needle@.len())[i as int] != needle@[i as int]);
            return false;
        }
        i += 1;
    }
    assert(chars@.subrange(at as int, at + needle@.len()) == needle@);
    true
}

pub fn has_prefix(s: &str, prefix: &str) -> (r: bool)
    ensures
        r == starts_with(s@, prefix@),
{
    let chars = chars_of(s);
    let needle = chars_of(prefix);
    assert(prefix@.len() <= s@.len() ==> s@.take(prefix@.len() as int) == s@.subrange(
        0,
        0 + prefix@.len() as int,
    ));
    needle.len() <= chars.len() && matches_at(chars.as_slice(), needle.as_slice(), 0)
}

pub open spec fn ends_with(s: Seq<char>, suffix: Seq<char>) -> bool {
    suffix.len() <= s.len() && s.skip(s.len() - suffix.len()) == suffix
}

pub fn has_suffix(s: &str, suffix: &str) -> (r: bool)
    ensures
        r == ends_with(s@, suffix@),
{
    let chars = chars_of(s);
    let needle = chars_of(suffix);
    if needle.len() > chars.len() {
        return false;
    }
    let at: usize = chars.len() - needle.len();
    assert(s@.skip(at as int) == s@.subrange(at as int, at + suffix@.len()));
    matches_at(chars.as_slice(), needle.as_slice(), at)
}

/// What follows the prefix, where the text has it.
pub fn without_prefix(s: &str, prefix: &str) -> (r: Option<String>)
    ensures
        opt_text(r) == (if starts_with(s@, prefix@) {
            Some(s@.skip(prefix@.len() as int))
        } else {
            None
        }),
{
    if has_prefix(s, prefix) {
        let chars = chars_of(s);
        let cut: usize = chars_of(prefix).len();
        let rest = vstd::slice::slice_subrange(chars.as_slice(), cut, chars.len());
        assert(rest@ == s@.skip(cut as int));
        Some(string_of(rest))
    } else {
        None
    }
}

pub fn has_text(s: &str, needle: &str) -> (r: bool)
    ensures
        r == contains_text(s@, needle@),
{
    let chars = chars_of(s);
    let sought = chars_of(needle);
    if sought.len() > chars.len() {
        return false;
    }
    let last: usize = chars.len() - sought.len();
    let mut i: usize = 0;
    while i <= last
        invariant
            chars@ == s@,
            sought@ == needle@,
            last == s@.len() - needle@.len(),
            i <= last + 1,
            forall|j: int|
                0 <= j < i ==> #[trigger] s@.subrange(j, j + needle@.len()) != needle@,
        decreases last + 1 - i,
    {
        if matches_at(chars.as_slice(), sought.as_slice(), i) {
            return true;
        }
        if i == last {
            return false;
        }
        i += 1;
    }
    false
}

// Joining.
pub open spec fn join(parts: Seq<Seq<char>>, sep: Seq<char>) -> Seq<char>
    decreases parts.len(),
{
    if parts.len() == 0 {
        Seq::empty()
    } else if parts.len() == 1 {
        parts[0]
    } else {
        join(parts.drop_last(), sep) + sep + parts.last()
    }
}

pub fn join_list(parts: &[String], sep: &str) -> (r: String)
    ensures
        r@ == join(texts(parts@), sep@),
{
    let mut out: String = String::new();
    let mut i: usize = 0;
    let ghost all = texts(parts@);
    assert(all.take(0).len() == 0);
    while i < parts.len()
        invariant
            i <= parts@.len(),
            all == texts(parts@),
            out@ == join(all.take(i as int), sep@),
        decreases parts@.len() - i,
    {
        assert(all.take(i + 1).drop_last() == all.take(i as int));
        assert(all.take(i + 1).last() == parts@[i as int]@);
        if i > 0 {
            out.append(sep);
        }
        out.append(parts[i].as_str());
        i += 1;
    }
    assert(all.take(i as int) == all);
    out
}

// Numbers.
pub open spec fn digit_char(d: nat) -> char {
    if d < 10 {
        (('0' as u8 + d) as u8) as char
    } else {
        (('a' as u8 + (d - 10)) as u8) as char
    }
}

pub fn digit_to_char(d: u8) -> (r: char)
    requires
        d < 16,
    ensures
        r == digit_char(d as nat),
{
    if d < 10 {
        (48 + d) as char
    } else {
        (97 + (d - 10)) as char
    }
}

/// The decimal digits of a number.
pub open spec fn decimal(n: nat) -> Seq<char>
    decreases n,
{
    if n < 10 {
        seq![digit_char(n)]
    } else {
        decimal(n / 10).push(digit_char(n % 10))
    }
}

pub fn decimal_of(n: u64) -> (r: String)
    ensures
        r@ == decimal(n as nat),
    decreases n,
{
    if n < 10 {
        let mut out: String = String::new();
        out.push(digit_to_char(n as u8));
        out
    } else {
        let mut out: String = decimal_of(n / 10);
        out.push(digit_to_char((n % 10) as u8));
        out
    }
}

/// The lowest `width` hexadecimal digits of a number, in lower case.
pub open spec fn hex_digits(n: nat, width: nat) -> Seq<char>
    decreases width,
{
    if width == 0 {
        Seq::empty()
    } else {
        hex_digits(n / 16, (width - 1) as nat).push(digit_char(n % 16))
    }
}

pub fn hex_of(n: u64, width: u64) -> (r: String)
    ensures
        r@ == hex_digits(n as nat, width as nat),
    decreases width,
{
    if width == 0 {
        String::new()
    } else {
        let mut out: String = hex_of(n / 16, width - 1);
        out.push(digit_to_char((n % 16) as u8));
        out
    }
}

/// The last hexadecimal digits of a number, in upper case.
pub open spec fn upper_hex(n: nat, width: nat) -> Seq<char> {
    uppered(hex_digits(n, width))
}

pub fn upper_hex_of(n: u64, width: u64) -> (r: String)
    ensures
        r@ == upper_hex(n as nat, width as nat),
{
    ascii_upper(hex_of(n, width).as_str())
}

/// The value of a digit in any base up to sixteen.
pub open spec fn digit_value(c: char) -> nat {
    if is_digit(c) {
        (c as u8 - '0' as u8) as nat
    } else if 'a' <= c <= 'f' {
        (c as u8 - 'a' as u8 + 10) as nat
    } else if 'A' <= c <= 'F' {
        (c as u8 - 'A' as u8 + 10) as nat
    } else {
        16
    }
}

/// The number that digits of a base write.
pub open spec fn number(s: Seq<char>, base: nat) -> nat
    decreases s.len(),
{
    if s.len() == 0 {
        0
    } else {
        number(s.drop_last(), base) * base + digit_value(s.last())
    }
}

pub open spec fn unsigned_digits(s: Seq<char>) -> Seq<char> {
    if s.len() > 0 && s[0] == '+' {
        s.skip(1)
    } else {
        s
    }
}

/// The number a text writes, where it is an optional plus sign and at least one
/// digit of the base, and the number is at most `max`.
pub open spec fn parsed(s: Seq<char>, base: nat, max: nat) -> Option<nat> {
    let digits = unsigned_digits(s);
    if digits.len() > 0 && (forall|i: int|
        0 <= i < digits.len() ==> digit_value(#[trigger] digits[i]) < base) && number(digits, base)
        <= max {
        Some(number(digits, base))
    } else {
        None
    }
}

proof fn lemma_number_grows(s: Seq<char>, base: nat, i: int)
    requires
        0 <= i <= s.len(),
        base >= 1,
    ensures
        number(s.take(i), base) <= number(s, base),
    decreases s.len() - i,
{
    if i < s.len() {
        lemma_number_grows(s, base, i + 1);
        let next = s.take(i + 1);
        assert(next.drop_last() == s.take(i));
        let n = number(s.take(i), base);
        assert(n <= n * base) by (nonlinear_arith)
            requires
                base >= 1,
        ;
    } else {
        assert(s.take(i) == s);
    }
}

pub fn value_of_digit(c: char) -> (r: u64)
    ensures
        r == digit_value(c),
{
    if '0' <= c && c <= '9' {
        (c as u8 - 48) as u64
    } else if 'a' <= c && c <= 'f' {
        (c as u8 - 97 + 10) as u64
    } else if 'A' <= c && c <= 'F' {
        (c as u8 - 65 + 10) as u64
    } else {
        16
    }
}

pub fn parse_number(s: &str, base: u64, max: u64) -> (r: Option<u64>)
    requires
        1 <= base <= 16,
    ensures
        r == (match parsed(s@, base as nat, max as nat) {
            Some(n) => Some(n as u64),
            None => None,
        }),
        r matches Some(n) ==> n <= max,
{
    let chars = chars_of(s);
    let start: usize = if chars.len() > 0 && chars[0] == '+' {
        1
    } else {
        0
    };
    let ghost digits = unsigned_digits(s@);
    assert(digits == s@.skip(start as int));
    if start == chars.len() {
        return None;
    }
    let mut value: u64 = 0;
    let mut i: usize = start;
    assert(digits.take(0).len() == 0);
    while i < chars.len()
        invariant
            start <= i <= chars@.len(),
            start <= 1,
            chars@ == s@,
            digits == unsigned_digits(s@),
            digits == s@.skip(start as int),
            1 <= base <= 16,
            value <= max,
            value == number(digits.take(i - start), base as nat),
            forall|j: int| 0 <= j < i - start ==> digit_value(#[trigger] digits[j]) < base,
        decreases chars@.len() - i,
    {
        let d: u64 = value_of_digit(chars[i]);
        assert(digits[i - start] == chars@[i as int]);
        if d >= base {
            assert(!(digit_value(digits[i - start]) < base));
            return None;
        }
        proof {
            let next = digits.take(i - start + 1);
            assert(next.drop_last() == digits.take(i - start));
            assert(next.last() == digits[i - start]);
            lemma_number_grows(digits, base as nat, i - start + 1);
        }
        assert(value * base <= u64::MAX * 16) by (nonlinear_arith)
            requires
                value <= u64::MAX,
                base <= 16,
        ;
        let wide: u128 = value as u128 * base as u128 + d as u128;
        if wide > max as u128 {
            return None;
        }
        value = wide as u64;
        i += 1;
    }
    assert(digits.take(i - start) == digits);
    Some(value)
}

// Order.
/// Text order: the first differing character decides, by code point; a proper
/// prefix comes first.
pub open spec fn lt(a: Seq<char>, b: Seq<char>) -> bool
    decreases a.len(),
{
    if b.len() == 0 {
        false
    } else if a.len() == 0 {
        true
    } else if a[0] != b[0] {
        a[0] < b[0]
    } else {
        lt(a.drop_first(), b.drop_first())
    }
}

pub proof fn lemma_lt_irreflexive(a: Seq<char>)
    ensures
        !lt(a, a),
    decreases a.len(),
{
    if a.len() > 0 {
        lemma_lt_irreflexive(a.drop_first());
    }
}

pub proof fn lemma_lt_asymmetric(a: Seq<char>, b: Seq<char>)
    requires
        lt(a, b),
    ensures
        !lt(b, a),
    decreases a.len(),
{
    if a.len() > 0 && b.len() > 0 && a[0] == b[0] {
        lemma_lt_asymmetric(a.drop_first(), b.drop_first());
    }
}

pub proof fn lemma_lt_transitive(a: Seq<char>, b: Seq<char>, c: Seq<char>)
    requires
        lt(a, b),
        lt(b, c),
    ensures
        lt(a, c),
    decreases a.len(),
{
    if a.len() > 0 && b.len() > 0 && c.len() > 0 && a[0] == b[0] && b[0] == c[0] {
        lemma_lt_transitive(a.drop_first(), b.drop_first(), c.drop_first());
    }
}

pub proof fn lemma_lt_total(a: Seq<char>, b: Seq<char>)
    ensures
        lt(a, b) || lt(b, a) || a == b,
    decreases a.len(),
{
    if a.len() > 0 && b.len() > 0 && a[0] == b[0] {
        lemma_lt_total(a.drop_first(), b.drop_first());
        if a.drop_first() == b.drop_first() {
            assert(a == seq![a[0]] + a.drop_first());
            assert(b == seq![b[0]] + b.drop_first());
        }
    } else if a.len() == 0 && b.len() == 0 {
        assert(a == b);
    }
}

pub fn less(a: &str, b: &str) -> (r: bool)
    ensures
        r == lt(a@, b@),
{
    let left = chars_of(a);
    let right = chars_of(b);
    let mut i: usize = 0;
    assert(a@.skip(0) == a@);
    assert(b@.skip(0) == b@);
    while i < left.len() && i < right.len()
        invariant
            i <= left@.len(),
            i <= right@.len(),
            left@ == a@,
            right@ == b@,
            lt(a@, b@) == lt(a@.skip(i as int), b@.skip(i as int)),
        decreases left@.len() - i,
    {
        if left[i] != right[i] {
            return left[i] < right[i];
        }
        assert(a@.skip(i as int).drop_first() == a@.skip(i + 1));
        assert(b@.skip(i as int).drop_first() == b@.skip(i + 1));
        i += 1;
    }
    i < right.len()
}

// Laws of splitting, joining and numbers.
pub proof fn lemma_split_solid(s: Seq<char>, sep: spec_fn(char) -> bool)
    requires
        forall|i: int| 0 <= i < s.len() ==> !sep(#[trigger] s[i]),
    ensures
        split_by(s, sep) == seq![s],
    decreases s.len(),
{
    if s.len() == 0 {
        assert(s == Seq::<char>::empty());
    } else {
        lemma_split_solid(s.drop_last(), sep);
        assert(s.drop_last().push(s.last()) == s);
        assert(seq![s.drop_last()].drop_last().push(s) == seq![s]);
    }
}

pub proof fn lemma_split_append(a: Seq<char>, c: char, b: Seq<char>, sep: spec_fn(char) -> bool)
    requires
        sep(c),
    ensures
        split_by(a.push(c) + b, sep) == split_by(a, sep) + split_by(b, sep),
    decreases b.len(),
{
    let whole = a.push(c) + b;
    if b.len() == 0 {
        assert(whole.drop_last() == a);
        assert(split_by(a, sep).push(Seq::empty()) == split_by(a, sep) + seq![Seq::empty()]);
    } else {
        lemma_split_append(a, c, b.drop_last(), sep);
        lemma_split_nonempty(b.drop_last(), sep);
        assert(whole.drop_last() == a.push(c) + b.drop_last());
        let left = split_by(a, sep);
        let right = split_by(b.drop_last(), sep);
        if sep(b.last()) {
            assert((left + right).push(Seq::empty()) == left + right.push(Seq::empty()));
        } else {
            assert((left + right).drop_last().push((left + right).last().push(b.last())) == left
                + right.drop_last().push(right.last().push(b.last())));
        }
    }
}

/// Text without separators extends the last piece.
pub proof fn lemma_split_extend(a: Seq<char>, b: Seq<char>, sep: spec_fn(char) -> bool)
    requires
        forall|i: int| 0 <= i < b.len() ==> !sep(#[trigger] b[i]),
    ensures
        split_by(a + b, sep) == split_by(a, sep).drop_last().push(split_by(a, sep).last() + b),
    decreases b.len(),
{
    lemma_split_nonempty(a, sep);
    if b.len() == 0 {
        assert(a + b == a);
        let pieces = split_by(a, sep);
        assert(pieces.last() + b == pieces.last());
        assert(pieces.drop_last().push(pieces.last()) == pieces);
    } else {
        let head = b.drop_last();
        lemma_split_extend(a, head, sep);
        assert((a + b).drop_last() == a + head);
        assert((a + b).last() == b[b.len() - 1]);
        let pieces = split_by(a, sep);
        let before = pieces.drop_last().push(pieces.last() + head);
        assert(before.drop_last() == pieces.drop_last());
        assert((pieces.last() + head).push(b.last()) == pieces.last() + b);
    }
}

/// Splitting at a separator gives back the parts that were joined with it,
/// where no part holds the separator.
pub proof fn split_inverts_join(parts: Seq<Seq<char>>, c: char)
    requires
        parts.len() > 0,
        forall|i: int| 0 <= i < parts.len() ==> !(#[trigger] parts[i]).contains(c),
    ensures
        split(join(parts, seq![c]), c) == parts,
    decreases parts.len(),
{
    let sep = either(c, c);
    let last = parts.last();
    assert(!last.contains(c));
    assert forall|i: int| 0 <= i < last.len() implies !sep(#[trigger] last[i]) by {
        assert(last.contains(last[i]));
    }
    lemma_split_solid(last, sep);
    if parts.len() == 1 {
        assert(seq![last] == parts);
    } else {
        let head = parts.drop_last();
        split_inverts_join(head, c);
        let text = join(head, seq![c]);
        assert(text + seq![c] + last == text.push(c) + last);
        lemma_split_append(text, c, last, sep);
        assert(head + seq![last] == parts);
    }
}

/// Splitting at the first separator gives back the two sides that were put
/// around it, where the left side does not hold it.
pub proof fn split_once_inverts(a: Seq<char>, c: char, b: Seq<char>)
    requires
        !a.contains(c),
    ensures
        split_once(a + seq![c] + b, c) == Some((a, b)),
{
    let whole = a + seq![c] + b;
    whole.index_of_first_ensures(c);
    assert(whole[a.len() as int] == c);
    assert(whole.contains(c));
    let i = whole.index_of_first(c)->0;
    if i < a.len() {
        assert(a.contains(a[i]));
    }
    assert(whole.take(i) == a);
    assert(whole.skip(i + 1) == b);
}

proof fn lemma_decimal(n: nat)
    ensures
        decimal(n).len() > 0,
        all_digits(decimal(n)),
        number(decimal(n), 10) == n,
    decreases n,
{
    if n >= 10 {
        lemma_decimal(n / 10);
        assert(decimal(n).drop_last() == decimal(n / 10));
    } else {
        assert(decimal(n).drop_last().len() == 0);
        reveal_with_fuel(number, 2);
    }
}

/// A number is read back from its decimal digits.
pub proof fn parse_inverts_decimal(n: nat, max: nat)
    requires
        n <= max,
    ensures
        parsed(decimal(n), 10, max) == Some(n),
        all_digits(decimal(n)),
{
    lemma_decimal(n);
    assert(is_digit(decimal(n)[0]));
}

} // verus!
