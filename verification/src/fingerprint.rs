//! Fingerprints of controller functions, and the identities built on them.
use crate::identity::{
    all_token, decode_component, decode_inverts_encode, decoded, digest, digest128,
    encode_component, encoded, encoded_char, function_name, lemma_encoded_chars, token, token_char,
    valid_function_name, valid_key_byte, valid_token, MAX_FINGERPRINT,
};
use crate::ordered::{
    in_order, lemma_lookup_put, lemma_put_in_order, lookup, put, text_of, Ordered, Properties,
};
use crate::text::{
    byte_len, chars_of, copy_opt, decimal, decimal_of, join, join_list, joined, joined3, opt_text,
    rsplit_once, same, split, split_first, split_inverts_join, split_last, split_on, split_once,
    split_once_inverts, text_is_ascii, text_result, texts, utf8_len,
};
use vstd::prelude::*;
use vstd::utf8::is_ascii_chars;

verus! {

#[derive(Clone, Copy, Debug, PartialEq, Eq, Structural)]
pub enum FunctionBus {
    Hid,
    Usb,
}

pub open spec fn bus_text(bus: FunctionBus) -> Seq<char> {
    match bus {
        FunctionBus::Hid => "hid"@,
        FunctionBus::Usb => "usb"@,
    }
}

impl FunctionBus {
    pub fn as_str(self) -> (r: &'static str)
        ensures
            r@ == bus_text(self),
    {
        match self {
            FunctionBus::Hid => "hid",
            FunctionBus::Usb => "usb",
        }
    }
}

/// The identity under which a controller function is controlled.
#[derive(Clone, Debug, PartialEq, Eq)]
pub struct Identity {
    pub platform: String,
    pub stable_id: String,
    pub instance_id: String,
    pub fingerprint: String,
}

pub struct IdentityModel {
    pub platform: Seq<char>,
    pub stable_id: Seq<char>,
    pub instance_id: Seq<char>,
    pub fingerprint: Seq<char>,
}

impl View for Identity {
    type V = IdentityModel;

    open spec fn view(&self) -> IdentityModel {
        IdentityModel {
            platform: self.platform@,
            stable_id: self.stable_id@,
            instance_id: self.instance_id@,
            fingerprint: self.fingerprint@,
        }
    }
}

impl Identity {
    pub fn copy(&self) -> (r: Self)
        ensures
            r == *self,
    {
        Identity {
            platform: self.platform.clone(),
            stable_id: self.stable_id.clone(),
            instance_id: self.instance_id.clone(),
            fingerprint: self.fingerprint.clone(),
        }
    }

    pub fn equals(&self, other: &Identity) -> (r: bool)
        ensures
            r == (self@ == other@),
    {
        same(self.platform.as_str(), other.platform.as_str()) && same(
            self.stable_id.as_str(),
            other.stable_id.as_str(),
        ) && same(self.instance_id.as_str(), other.instance_id.as_str()) && same(
            self.fingerprint.as_str(),
            other.fingerprint.as_str(),
        )
    }
}

/// A kernel function: a HID device or a USB interface.
#[derive(Clone, Debug, PartialEq, Eq)]
pub struct FunctionIdentity {
    pub bus: FunctionBus,
    /// Kernel name of the function.
    pub id: String,
    /// Driver bound to the function now.
    pub driver: Option<String>,
    /// Driver of a verified identity; it stays known while nothing is bound.
    pub expected_driver: Option<String>,
    pub properties: Properties,
}

pub struct FunctionModel {
    pub bus: FunctionBus,
    pub id: Seq<char>,
    pub driver: Option<Seq<char>>,
    pub expected_driver: Option<Seq<char>>,
    pub properties: Seq<(Seq<char>, Seq<char>)>,
}

impl View for FunctionIdentity {
    type V = FunctionModel;

    open spec fn view(&self) -> FunctionModel {
        FunctionModel {
            bus: self.bus,
            id: self.id@,
            driver: opt_text(self.driver),
            expected_driver: opt_text(self.expected_driver),
            properties: self.properties@,
        }
    }
}

impl FunctionIdentity {
    pub open spec fn wf(&self) -> bool {
        self.properties.wf()
    }

    pub fn copy(&self) -> (r: Self)
        ensures
            r@ == self@,
    {
        FunctionIdentity {
            bus: self.bus,
            id: self.id.clone(),
            driver: copy_opt(&self.driver),
            expected_driver: copy_opt(&self.expected_driver),
            properties: self.properties.copy(),
        }
    }

    /// The driver bound now, or else the one on record.
    pub fn any_driver(&self) -> (r: Option<&str>)
        ensures
            (match r {
                Some(d) => Some(d@),
                None => None,
            }) == any_driver(self@),
    {
        match &self.driver {
            Some(driver) => Some(driver.as_str()),
            None => match &self.expected_driver {
                Some(driver) => Some(driver.as_str()),
                None => None,
            },
        }
    }
}

pub open spec fn any_driver(function: FunctionModel) -> Option<Seq<char>> {
    if function.driver is Some {
        function.driver
    } else {
        function.expected_driver
    }
}

// The selection key.
pub open spec fn stable_function(bus: Seq<char>, function: Seq<char>) -> Seq<char> {
    if bus == "hid"@ {
        match rsplit_once(function, '.') {
            Some((prefix, _)) => prefix,
            None => function,
        }
    } else {
        function
    }
}

pub open spec fn stable_interface(
    bus: Seq<char>,
    function: Seq<char>,
    properties: Seq<(Seq<char>, Seq<char>)>,
) -> Seq<char> {
    let candidate = match lookup(properties, "interface"@) {
        Some(interface) => interface,
        None => function,
    };
    if bus == "hid"@ {
        stable_function(bus, candidate)
    } else if bus == "usb"@ {
        match split_once(candidate, ':') {
            Some((_, interface)) => interface,
            None => candidate,
        }
    } else {
        candidate
    }
}

/// The serial of a function: for USB the serial, or else the unique name.
pub open spec fn serial_of(bus: Seq<char>, properties: Seq<(Seq<char>, Seq<char>)>) -> Seq<char> {
    if bus == "usb"@ && lookup(properties, "serial"@) is Some {
        text_of(properties, "serial"@)
    } else {
        text_of(properties, "uniq"@)
    }
}

/// A USB serial survives a port move, so it stands in place of the topology.
pub open spec fn physical_of(bus: Seq<char>, properties: Seq<(Seq<char>, Seq<char>)>) -> Seq<
    char,
> {
    if bus == "usb"@ && serial_of(bus, properties).len() > 0 {
        Seq::empty()
    } else {
        text_of(properties, "phys"@)
    }
}

pub open spec fn selection_key(
    bus: Seq<char>,
    function: Seq<char>,
    properties: Seq<(Seq<char>, Seq<char>)>,
    usage_page: u16,
    usage: u16,
) -> Seq<char> {
    "bus="@ + encoded(bus) + ";transport="@ + encoded(text_of(properties, "id"@)) + ";serial="@
        + encoded(serial_of(bus, properties)) + ";phys="@ + encoded(physical_of(bus, properties))
        + ";interface="@ + encoded(stable_interface(bus, function, properties)) + ";usage="@
        + decimal(usage_page as nat) + ":"@ + decimal(usage as nat)
}

pub fn stable_function_name(bus: &str, function: &str) -> (r: String)
    ensures
        r@ == stable_function(bus@, function@),
{
    if same(bus, "hid") {
        match split_last(function, '.') {
            Some((prefix, _)) => prefix,
            None => function.to_owned(),
        }
    } else {
        function.to_owned()
    }
}

pub fn stable_interface_name(bus: &str, function: &str, properties: &Properties) -> (r: String)
    requires
        properties.wf(),
    ensures
        r@ == stable_interface(bus@, function@, properties@),
{
    let candidate: &str = match properties.get("interface") {
        Some(interface) => interface.as_str(),
        None => function,
    };
    if same(bus, "hid") {
        stable_function_name(bus, candidate)
    } else if same(bus, "usb") {
        match split_first(candidate, ':') {
            Some((_, interface)) => interface,
            None => candidate.to_owned(),
        }
    } else {
        candidate.to_owned()
    }
}

pub fn stable_selection_key(
    bus: &str,
    function: &str,
    properties: &Properties,
    usage_page: u16,
    usage: u16,
) -> (r: String)
    requires
        properties.wf(),
    ensures
        r@ == selection_key(bus@, function@, properties@, usage_page, usage),
{
    proof {
        reveal_strlit("");
    }
    let usb = same(bus, "usb");
    let serial: &str = if usb && properties.get("serial").is_some() {
        properties.text("serial")
    } else {
        properties.text("uniq")
    };
    let physical: &str = if usb && !serial.is_empty() {
        ""
    } else {
        properties.text("phys")
    };
    let interface = stable_interface_name(bus, function, properties);
    let mut out: String = joined("bus=", encode_component(bus).as_str());
    out.append(";transport=");
    out.append(encode_component(properties.text("id")).as_str());
    out.append(";serial=");
    out.append(encode_component(serial).as_str());
    out.append(";phys=");
    out.append(encode_component(physical).as_str());
    out.append(";interface=");
    out.append(encode_component(interface.as_str()).as_str());
    out.append(";usage=");
    out.append(decimal_of(usage_page as u64).as_str());
    out.append(":");
    out.append(decimal_of(usage as u64).as_str());
    assert(physical@ == physical_of(bus@, properties@));
    out
}

// The fingerprint.
pub open spec fn has_key(fields: Seq<(Seq<char>, Seq<char>)>, key: Seq<char>) -> bool {
    exists|i: int| 0 <= i < fields.len() && (#[trigger] fields[i]).0 == key
}

/// The fields that every fingerprint starts with.
pub open spec fn base_fields(
    function: Option<FunctionModel>,
    name: Seq<char>,
    phys: Seq<char>,
    uniq: Seq<char>,
    id: Seq<char>,
    connection: Seq<char>,
    mixed_unrelated: bool,
    usage_page: u16,
    usage: u16,
) -> Seq<(Seq<char>, Seq<char>)> {
    seq![
        ("v"@, "2"@),
        (
            "bus"@,
            match function {
                Some(f) => bus_text(f.bus),
                None => "input"@,
            },
        ),
        (
            "function"@,
            match function {
                Some(f) => f.id,
                None => "unknown"@,
            },
        ),
        (
            "driver"@,
            match function {
                Some(f) => match any_driver(f) {
                    Some(driver) => driver,
                    None => Seq::empty(),
                },
                None => Seq::empty(),
            },
        ),
        ("name"@, name),
        ("phys"@, phys),
        ("uniq"@, uniq),
        ("id"@, id),
        ("connection"@, connection),
        (
            "mixed"@,
            if mixed_unrelated {
                "1"@
            } else {
                "0"@
            },
        ),
        ("usage_page"@, decimal(usage_page as nat)),
        ("usage"@, decimal(usage as nat)),
    ]
}

/// Fields, followed by those properties whose keys are not there yet.
pub open spec fn with_properties(
    fields: Seq<(Seq<char>, Seq<char>)>,
    properties: Seq<(Seq<char>, Seq<char>)>,
) -> Seq<(Seq<char>, Seq<char>)>
    decreases properties.len(),
{
    if properties.len() == 0 {
        fields
    } else {
        let before = with_properties(fields, properties.drop_last());
        if has_key(before, properties.last().0) {
            before
        } else {
            before.push(properties.last())
        }
    }
}

pub open spec fn field_text(field: (Seq<char>, Seq<char>)) -> Seq<char> {
    field.0 + "="@ + encoded(field.1)
}

/// The text of a list of fields.
pub open spec fn rendered(fields: Seq<(Seq<char>, Seq<char>)>) -> Seq<char> {
    join(fields.map_values(|field: (Seq<char>, Seq<char>)| field_text(field)), ";"@)
}

pub open spec fn fingerprint_fields(
    function: Option<FunctionModel>,
    name: Seq<char>,
    phys: Seq<char>,
    uniq: Seq<char>,
    id: Seq<char>,
    connection: Seq<char>,
    mixed_unrelated: bool,
    usage_page: u16,
    usage: u16,
) -> Seq<(Seq<char>, Seq<char>)> {
    with_properties(
        base_fields(
            function,
            name,
            phys,
            uniq,
            id,
            connection,
            mixed_unrelated,
            usage_page,
            usage,
        ),
        match function {
            Some(f) => f.properties,
            None => Seq::empty(),
        },
    )
}

pub open spec fn pair_views(fields: Seq<(String, String)>) -> Seq<(Seq<char>, Seq<char>)> {
    fields.map_values(|field: (String, String)| (field.0@, field.1@))
}

fn field(key: &str, value: &str) -> (r: (String, String))
    ensures
        r.0@ == key@,
        r.1@ == value@,
{
    (key.to_owned(), value.to_owned())
}

fn holds_key(fields: &Vec<(String, String)>, key: &str) -> (r: bool)
    ensures
        r == has_key(pair_views(fields@), key@),
{
    let ghost views = pair_views(fields@);
    let mut i: usize = 0;
    while i < fields.len()
        invariant
            i <= fields@.len(),
            views == pair_views(fields@),
            forall|j: int| 0 <= j < i ==> (#[trigger] views[j]).0 != key@,
        decreases fields@.len() - i,
    {
        assert(views[i as int].0 == fields@[i as int].0@);
        if same(fields[i].0.as_str(), key) {
            return true;
        }
        i += 1;
    }
    false
}

fn render_fields(fields: &Vec<(String, String)>) -> (r: String)
    ensures
        r@ == rendered(pair_views(fields@)),
{
    let ghost wanted = pair_views(fields@).map_values(
        |field: (Seq<char>, Seq<char>)| field_text(field),
    );
    let mut parts: Vec<String> = Vec::new();
    let mut i: usize = 0;
    while i < fields.len()
        invariant
            i <= fields@.len(),
            wanted == pair_views(fields@).map_values(
                |field: (Seq<char>, Seq<char>)| field_text(field),
            ),
            texts(parts@) == wanted.take(i as int),
        decreases fields@.len() - i,
    {
        let ghost held = texts(parts@);
        let part = joined3(
            fields[i].0.as_str(),
            "=",
            encode_component(fields[i].1.as_str()).as_str(),
        );
        assert(part@ == wanted[i as int]);
        parts.push(part);
        assert(texts(parts@) == held.push(wanted[i as int]));
        assert(wanted.take(i + 1) == wanted.take(i as int).push(wanted[i as int]));
        i += 1;
    }
    assert(wanted.take(i as int) == wanted);
    join_list(parts.as_slice(), ";")
}

pub fn fingerprint_for(
    function: Option<&FunctionIdentity>,
    name: &str,
    phys: &str,
    uniq: &str,
    id: &str,
    connection: &str,
    mixed_unrelated: bool,
    usage_page: u16,
    usage: u16,
) -> (r: String)
    ensures
        r@ == rendered(
            fingerprint_fields(
                match function {
                    Some(f) => Some(f@),
                    None => None,
                },
                name@,
                phys@,
                uniq@,
                id@,
                connection@,
                mixed_unrelated,
                usage_page,
                usage,
            ),
        ),
{
    proof {
        reveal_strlit("");
    }
    let bus: &str = match function {
        Some(f) => f.bus.as_str(),
        None => "input",
    };
    let function_id: &str = match function {
        Some(f) => f.id.as_str(),
        None => "unknown",
    };
    let driver: &str = match function {
        Some(f) => match f.any_driver() {
            Some(d) => d,
            None => "",
        },
        None => "",
    };
    let mixed: &str = if mixed_unrelated {
        "1"
    } else {
        "0"
    };
    let ghost model = match function {
        Some(f) => Some(f@),
        None => None,
    };
    let mut fields: Vec<(String, String)> = Vec::new();
    fields.push(field("v", "2"));
    fields.push(field("bus", bus));
    fields.push(field("function", function_id));
    fields.push(field("driver", driver));
    fields.push(field("name", name));
    fields.push(field("phys", phys));
    fields.push(field("uniq", uniq));
    fields.push(field("id", id));
    fields.push(field("connection", connection));
    fields.push(field("mixed", mixed));
    fields.push(field("usage_page", decimal_of(usage_page as u64).as_str()));
    fields.push(field("usage", decimal_of(usage as u64).as_str()));
    let ghost base = base_fields(
        model,
        name@,
        phys@,
        uniq@,
        id@,
        connection@,
        mixed_unrelated,
        usage_page,
        usage,
    );
    assert(driver@ == base[3].1);
    assert(pair_views(fields@) == base);
    match function {
        Some(f) => {
            let entries = &f.properties.entries;
            let ghost properties = f.properties@;
            let mut i: usize = 0;
            assert(properties.take(0).len() == 0);
            while i < entries.len()
                invariant
                    i <= entries@.len(),
                    properties == crate::ordered::entry_views(entries@),
                    pair_views(fields@) == with_properties(base, properties.take(i as int)),
                decreases entries@.len() - i,
            {
                assert(properties.take(i + 1).drop_last() == properties.take(i as int));
                assert(properties.take(i + 1).last() == (
                    entries@[i as int].0@,
                    entries@[i as int].1@,
                ));
                let ghost held = pair_views(fields@);
                if !holds_key(&fields, entries[i].0.as_str()) {
                    fields.push((entries[i].0.clone(), entries[i].1.clone()));
                    assert(pair_views(fields@) == held.push(properties[i as int]));
                }
                i += 1;
            }
            assert(properties.take(i as int) == properties);
        },
        None => {},
    }
    render_fields(&fields)
}

// Reading a fingerprint.
pub open spec fn field_of(part: Seq<char>) -> Option<(Seq<char>, Seq<char>)> {
    match split_once(part, '=') {
        None => None,
        Some((key, value)) => if key.len() == 0 || !all_token(key) {
            None
        } else {
            match decoded(value) {
                None => None,
                Some(text) => Some((key, text)),
            }
        },
    }
}

/// The fields of the parts, where each part is a field and no key comes twice.
pub open spec fn collected(parts: Seq<Seq<char>>) -> Option<Seq<(Seq<char>, Seq<char>)>>
    decreases parts.len(),
{
    if parts.len() == 0 {
        Some(Seq::empty())
    } else {
        match collected(parts.drop_last()) {
            None => None,
            Some(fields) => match field_of(parts.last()) {
                None => None,
                Some((key, value)) => if lookup(fields, key) is Some {
                    None
                } else {
                    Some(put(fields, key, value))
                },
            },
        }
    }
}

/// The fields of a fingerprint: bounded ASCII, version two.
pub open spec fn parsed_fields(s: Seq<char>) -> Option<Seq<(Seq<char>, Seq<char>)>> {
    if utf8_len(s) > MAX_FINGERPRINT || !is_ascii_chars(s) {
        None
    } else {
        match collected(split(s, ';')) {
            None => None,
            Some(fields) => if lookup(fields, "v"@) == Some("2"@) {
                Some(fields)
            } else {
                None
            },
        }
    }
}

pub open spec fn opt_view<T: View>(v: Option<T>) -> Option<T::V> {
    match v {
        Some(x) => Some(x@),
        None => None,
    }
}

fn char_is_key(c: char) -> (r: bool)
    ensures
        r == token_char(c),
{
    c <= '\u{7f}' && valid_key_byte(c as u8)
}

fn text_is_key(key: &str) -> (r: bool)
    ensures
        r == (key@.len() > 0 && all_token(key@)),
{
    let chars = chars_of(key);
    if chars.len() == 0 {
        return false;
    }
    let mut i: usize = 0;
    while i < chars.len()
        invariant
            i <= chars@.len(),
            chars@ == key@,
            forall|j: int| 0 <= j < i ==> token_char(#[trigger] key@[j]),
        decreases chars@.len() - i,
    {
        if !char_is_key(chars[i]) {
            assert(!token_char(key@[i as int]));
            return false;
        }
        i += 1;
    }
    true
}

proof fn lemma_collected_prefix(parts: Seq<Seq<char>>, i: int)
    requires
        0 <= i <= parts.len(),
        collected(parts.take(i)) is None,
    ensures
        collected(parts) is None,
    decreases parts.len() - i,
{
    if i < parts.len() {
        assert(parts.take(i + 1).drop_last() == parts.take(i));
        lemma_collected_prefix(parts, i + 1);
    } else {
        assert(parts.take(i) == parts);
    }
}

pub fn parse_fingerprint(fingerprint: &str) -> (r: Option<Properties>)
    ensures
        opt_view(r) == parsed_fields(fingerprint@),
        r matches Some(fields) ==> fields.wf(),
{
    if byte_len(fingerprint) > MAX_FINGERPRINT || !text_is_ascii(fingerprint) {
        return None;
    }
    let parts = split_on(fingerprint, ';');
    let ghost pieces = split(fingerprint@, ';');
    let mut result: Properties = Ordered::new();
    let mut i: usize = 0;
    assert(pieces.take(0).len() == 0);
    while i < parts.len()
        invariant
            i <= parts@.len(),
            pieces == texts(parts@),
            result.wf(),
            collected(pieces.take(i as int)) == Some(result@),
            pieces == split(fingerprint@, ';'),
            utf8_len(fingerprint@) <= MAX_FINGERPRINT,
            is_ascii_chars(fingerprint@),
        decreases parts@.len() - i,
    {
        proof {
            assert(pieces.take(i + 1).drop_last() == pieces.take(i as int));
            assert(pieces.take(i + 1).last() == parts@[i as int]@);
            if collected(pieces.take(i + 1)) is None {
                lemma_collected_prefix(pieces, i + 1);
            }
        }
        match split_first(parts[i].as_str(), '=') {
            None => {
                return None;
            },
            Some((key, value)) => {
                if !text_is_key(key.as_str()) {
                    return None;
                }
                match decode_component(value.as_str()) {
                    None => {
                        return None;
                    },
                    Some(text) => {
                        if result.insert(key, text) {
                            return None;
                        }
                    },
                }
            },
        }
        i += 1;
    }
    assert(pieces.take(i as int) == pieces);
    match result.get("v") {
        Some(version) => {
            if same(version.as_str(), "2") {
                return Some(result);
            }
        },
        None => {},
    }
    None
}

/// Whether a list of fields can be read back: at least one field, keys that
/// are tokens, no key twice.
pub open spec fn readable(fields: Seq<(Seq<char>, Seq<char>)>) -> bool {
    &&& fields.len() > 0
    &&& forall|i: int|
        0 <= i < fields.len() ==> (#[trigger] fields[i]).0.len() > 0 && all_token(fields[i].0)
    &&& forall|i: int, j: int|
        0 <= i < j < fields.len() ==> (#[trigger] fields[i]).0 != (#[trigger] fields[j]).0
}

proof fn lemma_field_text(field: (Seq<char>, Seq<char>))
    requires
        field.0.len() > 0,
        all_token(field.0),
    ensures
        field_of(field_text(field)) == Some(field),
        !field_text(field).contains(';'),
        is_ascii_chars(field_text(field)),
{
    reveal_strlit("=");
    let text = field_text(field);
    assert("="@ == seq!['=']);
    let value = encoded(field.1);
    lemma_encoded_chars(vstd::utf8::encode_utf8(field.1));
    decode_inverts_encode(field.1);
    if field.0.contains('=') {
        let i = choose|i: int| 0 <= i < field.0.len() && field.0[i] == '=';
        assert(token_char(field.0[i]));
    }
    split_once_inverts(field.0, '=', value);
    assert forall|i: int| 0 <= i < text.len() implies text[i] != ';' && '\0' <= #[trigger] text[i]
        <= '\u{7f}' by {
        if i < field.0.len() {
            assert(token_char(field.0[i]));
            assert(text[i] == field.0[i]);
        } else if i > field.0.len() {
            assert(text[i] == value[i - field.0.len() - 1]);
            assert(encoded_char(value[i - field.0.len() - 1]));
        }
    }
}

pub proof fn lemma_lookup_push(
    fields: Seq<(Seq<char>, Seq<char>)>,
    last: (Seq<char>, Seq<char>),
    key: Seq<char>,
)
    ensures
        lookup(fields.push(last), key) == match lookup(fields, key) {
            Some(value) => Some(value),
            None => if last.0 == key {
                Some(last.1)
            } else {
                None
            },
        },
    decreases fields.len(),
{
    let whole = fields.push(last);
    if fields.len() == 0 {
        assert(whole.drop_first().len() == 0);
        assert(lookup(whole.drop_first(), key) is None);
    } else {
        assert(whole.drop_first() == fields.drop_first().push(last));
        lemma_lookup_push(fields.drop_first(), last, key);
    }
}

proof fn lemma_collect_rendered(fields: Seq<(Seq<char>, Seq<char>)>)
    requires
        fields.len() > 0 ==> readable(fields),
    ensures
        collected(
            fields.map_values(|field: (Seq<char>, Seq<char>)| field_text(field)),
        ) matches Some(m) && in_order(m) && forall|key: Seq<char>| #[trigger]
            lookup(m, key) == lookup(fields, key),
    decreases fields.len(),
{
    let parts = fields.map_values(|field: (Seq<char>, Seq<char>)| field_text(field));
    if fields.len() > 0 {
        let head = fields.drop_last();
        let last = fields.last();
        if head.len() > 0 {
            assert(readable(head)) by {
                assert forall|i: int| 0 <= i < head.len() implies (#[trigger] head[i]).0.len() > 0
                    && all_token(head[i].0) by {
                    assert(head[i] == fields[i]);
                }
                assert forall|i: int, j: int| 0 <= i < j < head.len() implies (
                #[trigger] head[i]).0 != (#[trigger] head[j]).0 by {
                    assert(head[i] == fields[i]);
                    assert(head[j] == fields[j]);
                }
            }
        }
        lemma_collect_rendered(head);
        let head_parts = head.map_values(|field: (Seq<char>, Seq<char>)| field_text(field));
        assert(parts.drop_last() == head_parts);
        assert(fields[fields.len() - 1] == last);
        lemma_field_text(last);
        assert(parts.last() == field_text(last));
        let m = collected(head_parts)->0;
        assert forall|i: int| 0 <= i < head.len() implies (#[trigger] head[i]).0 != last.0 by {
            assert(head[i] == fields[i]);
            assert(fields[i].0 != fields[fields.len() - 1].0);
        }
        crate::ordered::lemma_lookup_absent(head, last.0);
        assert(lookup(m, last.0) == lookup(head, last.0));
        lemma_put_in_order(m, last.0, last.1);
        assert(head.push(last) == fields);
        assert forall|key: Seq<char>| #[trigger]
            lookup(put(m, last.0, last.1), key) == lookup(fields, key) by {
            lemma_lookup_put(m, last.0, last.1, key);
            lemma_lookup_push(head, last, key);
            assert(lookup(m, key) == lookup(head, key));
        }
    } else {
        let m: Seq<(Seq<char>, Seq<char>)> = Seq::empty();
        assert(parts.len() == 0);
        assert forall|key: Seq<char>| #[trigger] lookup(m, key) == lookup(fields, key) by {}
    }
}

proof fn lemma_rendered_ascii(parts: Seq<Seq<char>>)
    requires
        forall|i: int| 0 <= i < parts.len() ==> is_ascii_chars(#[trigger] parts[i]),
    ensures
        is_ascii_chars(join(parts, seq![';'])),
    decreases parts.len(),
{
    if parts.len() > 1 {
        let head = parts.drop_last();
        assert forall|i: int| 0 <= i < head.len() implies is_ascii_chars(#[trigger] head[i]) by {
            assert(head[i] == parts[i]);
        }
        lemma_rendered_ascii(head);
        assert(is_ascii_chars(parts[parts.len() - 1]));
    }
}

/// The text of readable fields is ASCII.
pub proof fn lemma_rendered_is_ascii(fields: Seq<(Seq<char>, Seq<char>)>)
    requires
        readable(fields),
    ensures
        is_ascii_chars(rendered(fields)),
{
    reveal_strlit(";");
    assert(";"@ == seq![';']);
    let parts = fields.map_values(|field: (Seq<char>, Seq<char>)| field_text(field));
    assert forall|i: int| 0 <= i < parts.len() implies is_ascii_chars(#[trigger] parts[i]) by {
        lemma_field_text(fields[i]);
    }
    lemma_rendered_ascii(parts);
}

/// Reading a fingerprint gives back the fields it was made of, as long as it
/// is of version two and within its length bound.
pub proof fn parse_inverts_render(fields: Seq<(Seq<char>, Seq<char>)>)
    requires
        readable(fields),
        lookup(fields, "v"@) == Some("2"@),
        rendered(fields).len() <= MAX_FINGERPRINT,
    ensures
        parsed_fields(rendered(fields)) matches Some(m) && in_order(m) && forall|key: Seq<char>|
         #[trigger]
            lookup(m, key) == lookup(fields, key),
{
    reveal_strlit(";");
    assert(";"@ == seq![';']);
    let parts = fields.map_values(|field: (Seq<char>, Seq<char>)| field_text(field));
    assert forall|i: int| 0 <= i < parts.len() implies !(#[trigger] parts[i]).contains(';')
        && is_ascii_chars(parts[i]) by {
        lemma_field_text(fields[i]);
    }
    lemma_rendered_ascii(parts);
    split_inverts_join(parts, ';');
    vstd::utf8::is_ascii_chars_encode_utf8(rendered(fields));
    lemma_collect_rendered(fields);
}

// Checking an identity.
/// The drivers that may be unbound from and bound to a controller function.
pub open spec fn approved_driver(driver: Seq<char>) -> bool {
    ||| driver == "hid-generic"@
    ||| driver == "hid-playstation"@
    ||| driver == "sony"@
    ||| driver == "xpad"@
    ||| driver == "xpadneo"@
    ||| driver == "hid-nintendo"@
    ||| driver == "hid-steam"@
    ||| driver == "usbhid"@
}

pub fn safe_driver(driver: &str) -> (r: bool)
    ensures
        r == approved_driver(driver@),
{
    same(driver, "hid-generic") || same(driver, "hid-playstation") || same(driver, "sony") || same(
        driver,
        "xpad",
    ) || same(driver, "xpadneo") || same(driver, "hid-nintendo") || same(driver, "hid-steam")
        || same(driver, "usbhid")
}

pub open spec fn str_views(list: Seq<&str>) -> Seq<Seq<char>> {
    list.map_values(|s: &str| s@)
}

/// The first of the keys with no text under it.
pub open spec fn first_missing(
    fields: Seq<(Seq<char>, Seq<char>)>,
    keys: Seq<Seq<char>>,
) -> Option<Seq<char>>
    decreases keys.len(),
{
    if keys.len() == 0 {
        None
    } else if text_of(fields, keys[0]).len() == 0 {
        Some(keys[0])
    } else {
        first_missing(fields, keys.drop_first())
    }
}

fn find_missing(fields: &Properties, keys: &Vec<&'static str>) -> (r: Option<&'static str>)
    requires
        fields.wf(),
    ensures
        (match r {
            Some(key) => Some(key@),
            None => None,
        }) == first_missing(fields@, str_views(keys@)),
{
    let ghost views = str_views(keys@);
    let mut i: usize = 0;
    assert(views.skip(0) == views);
    while i < keys.len()
        invariant
            i <= keys@.len(),
            fields.wf(),
            views == str_views(keys@),
            first_missing(fields@, views) == first_missing(fields@, views.skip(i as int)),
        decreases keys@.len() - i,
    {
        assert(views.skip(i as int)[0] == keys@[i as int]@);
        assert(views.skip(i as int).drop_first() == views.skip(i + 1));
        if !fields.has(keys[i]) {
            return Some(keys[i]);
        }
        i += 1;
    }
    None
}

pub open spec fn usb_evidence() -> Seq<Seq<char>> {
    seq!["phys"@, "interface"@, "subsystem"@, "devtype"@, "type"@, "busnum"@, "devnum"@]
}

pub open spec fn usb_interface_tuple() -> Seq<Seq<char>> {
    seq!["interface_class"@, "interface_subclass"@, "interface_protocol"@]
}

/// What is wrong with the USB evidence of a fingerprint.
pub open spec fn usb_problem(fields: Seq<(Seq<char>, Seq<char>)>) -> Option<Seq<char>> {
    match first_missing(fields, usb_evidence()) {
        Some(key) => Some("USB identity is missing "@ + key + " evidence"@),
        None => if text_of(fields, "interface_descriptor"@).len() == 0 && first_missing(
            fields,
            usb_interface_tuple(),
        ) is Some {
            Some("USB identity lacks interface class/protocol evidence"@)
        } else {
            None
        },
    }
}

pub open spec fn stable_token(key: Seq<char>) -> Seq<char> {
    "linux-controller-"@ + digest(key)
}

pub open spec fn instance_token(function_token: Seq<char>) -> Seq<char> {
    "linux-function-"@ + digest(function_token)
}

pub open spec fn usage_evidence(page: Seq<char>, usage: Seq<char>) -> bool {
    page == "1"@ && (usage == "4"@ || usage == "5"@ || usage == "8"@)
}

/// The checks on the fields of a fingerprint, in order.
pub open spec fn fields_problem(fields: Seq<(Seq<char>, Seq<char>)>) -> Option<Seq<char>> {
    let bus = text_of(fields, "bus"@);
    if !(bus == "hid"@ || bus == "usb"@) || !function_name(bus, text_of(fields, "function"@)) {
        Some("identity function token is malformed"@)
    } else if lookup(fields, "mixed"@) != Some("0"@) {
        Some("controller function has an unrelated keyboard/mouse sibling"@)
    } else if !approved_driver(text_of(fields, "driver"@)) {
        Some("controller function driver is not approved"@)
    } else if text_of(fields, "id"@).len() == 0 {
        Some("controller transport identity is missing"@)
    } else if bus == "usb"@ && usb_problem(fields) is Some {
        usb_problem(fields)
    } else if !usage_evidence(text_of(fields, "usage_page"@), text_of(fields, "usage"@)) {
        Some("controller HID usage evidence is missing or not a gamepad/joystick"@)
    } else {
        None
    }
}

/// The number that a usage text of one digit writes.
pub open spec fn usage_number(usage: Seq<char>) -> u16 {
    if usage == "4"@ {
        4
    } else if usage == "5"@ {
        5
    } else {
        8
    }
}

/// Whether the two tokens of an identity are the digests of what its
/// fingerprint says.
pub open spec fn digests_match(
    identity: IdentityModel,
    fields: Seq<(Seq<char>, Seq<char>)>,
) -> bool {
    let bus = text_of(fields, "bus"@);
    let function = text_of(fields, "function"@);
    let key = selection_key(bus, function, fields, 1, usage_number(text_of(fields, "usage"@)));
    &&& identity.stable_id == stable_token(key)
    &&& identity.instance_id == instance_token(bus + ":"@ + function)
}

/// The checks that make an identity acceptable, in order.
pub open spec fn identity_check(identity: IdentityModel) -> Result<(), Seq<char>> {
    if identity.platform != "linux"@ {
        Err("identity platform is not linux"@)
    } else if !token(identity.stable_id, "linux-controller-"@) || !token(
        identity.instance_id,
        "linux-function-"@,
    ) {
        Err("identity token is malformed"@)
    } else {
        match parsed_fields(identity.fingerprint) {
            None => Err("identity fingerprint is malformed"@),
            Some(fields) => match fields_problem(fields) {
                Some(problem) => Err(problem),
                None => if !digests_match(identity, fields) {
                    Err("identity digest does not match its immutable function fingerprint"@)
                } else {
                    Ok(())
                },
            },
        }
    }
}

fn check_usb_evidence(fields: &Properties) -> (r: Result<(), String>)
    requires
        fields.wf(),
    ensures
        text_result(r) == (match usb_problem(fields@) {
            Some(problem) => Err(problem),
            None => Ok::<(), Seq<char>>(()),
        }),
{
    let evidence: Vec<&'static str> = vec![
        "phys",
        "interface",
        "subsystem",
        "devtype",
        "type",
        "busnum",
        "devnum",
    ];
    assert(str_views(evidence@) == usb_evidence());
    match find_missing(fields, &evidence) {
        Some(key) => {
            return Err(joined3("USB identity is missing ", key, " evidence"));
        },
        None => {},
    }
    let tuple: Vec<&'static str> = vec![
        "interface_class",
        "interface_subclass",
        "interface_protocol",
    ];
    assert(str_views(tuple@) == usb_interface_tuple());
    if !fields.has("interface_descriptor") && find_missing(fields, &tuple).is_some() {
        return Err("USB identity lacks interface class/protocol evidence".to_owned());
    }
    Ok(())
}

fn check_fields(fields: &Properties) -> (r: Result<(), String>)
    requires
        fields.wf(),
    ensures
        text_result(r) == (match fields_problem(fields@) {
            Some(problem) => Err(problem),
            None => Ok::<(), Seq<char>>(()),
        }),
{
    let bus = fields.text("bus");
    let function = fields.text("function");
    if !(same(bus, "hid") || same(bus, "usb")) || !valid_function_name(bus, function) {
        return Err("identity function token is malformed".to_owned());
    }
    let unmixed = match fields.get("mixed") {
        Some(mixed) => same(mixed.as_str(), "0"),
        None => false,
    };
    if !unmixed {
        return Err("controller function has an unrelated keyboard/mouse sibling".to_owned());
    }
    if !safe_driver(fields.text("driver")) {
        return Err("controller function driver is not approved".to_owned());
    }
    if !fields.has("id") {
        return Err("controller transport identity is missing".to_owned());
    }
    if same(bus, "usb") {
        check_usb_evidence(fields)?;
    }
    let usage_page = fields.text("usage_page");
    let usage = fields.text("usage");
    if !same(usage_page, "1") || !(same(usage, "4") || same(usage, "5") || same(usage, "8")) {
        return Err("controller HID usage evidence is missing or not a gamepad/joystick".to_owned());
    }
    Ok(())
}

pub fn validate_identity(identity: &Identity) -> (r: Result<(), String>)
    ensures
        text_result(r) == identity_check(identity@),
{
    if !same(identity.platform.as_str(), "linux") {
        return Err("identity platform is not linux".to_owned());
    }
    if !valid_token(identity.stable_id.as_str(), "linux-controller-") || !valid_token(
        identity.instance_id.as_str(),
        "linux-function-",
    ) {
        return Err("identity token is malformed".to_owned());
    }
    let fields = match parse_fingerprint(identity.fingerprint.as_str()) {
        Some(fields) => fields,
        None => {
            return Err("identity fingerprint is malformed".to_owned());
        },
    };
    check_fields(&fields)?;
    let bus = fields.text("bus");
    let function = fields.text("function");
    let usage = fields.text("usage");
    let number: u16 = if same(usage, "4") {
        4
    } else if same(usage, "5") {
        5
    } else {
        8
    };
    let key = stable_selection_key(bus, function, &fields, 1, number);
    let stable = joined("linux-controller-", digest128(key.as_str()).as_str());
    let instance = joined(
        "linux-function-",
        digest128(joined3(bus, ":", function).as_str()).as_str(),
    );
    if !same(identity.stable_id.as_str(), stable.as_str()) || !same(
        identity.instance_id.as_str(),
        instance.as_str(),
    ) {
        return Err(
            "identity digest does not match its immutable function fingerprint".to_owned(),
        );
    }
    Ok(())
}

// Comparing a function with what is on record.
pub open spec fn compared_keys(bus: FunctionBus) -> Seq<Seq<char>> {
    match bus {
        FunctionBus::Hid => seq!["id"@, "phys"@, "uniq"@],
        FunctionBus::Usb => seq![
            "id"@,
            "serial"@,
            "phys"@,
            "interface"@,
            "subsystem"@,
            "devtype"@,
            "type"@,
            "busnum"@,
            "devnum"@,
            "interface_descriptor"@,
            "interface_class"@,
            "interface_subclass"@,
            "interface_protocol"@,
        ],
    }
}

/// The first key on record whose current text is missing or different.
pub open spec fn first_difference(
    keys: Seq<Seq<char>>,
    expected: Seq<(Seq<char>, Seq<char>)>,
    current: Seq<(Seq<char>, Seq<char>)>,
) -> Option<Seq<char>>
    decreases keys.len(),
{
    if keys.len() == 0 {
        None
    } else {
        let key = keys[0];
        let wanted = text_of(expected, key);
        let found = text_of(current, key);
        if wanted.len() > 0 && found.len() == 0 {
            Some("function "@ + key + " identity is missing"@)
        } else if wanted.len() > 0 && wanted != found {
            Some("function "@ + key + " identity changed"@)
        } else {
            first_difference(keys.drop_first(), expected, current)
        }
    }
}

pub fn compare_properties(
    bus: FunctionBus,
    expected: &Properties,
    current: &Properties,
) -> (r: Result<(), String>)
    requires
        expected.wf(),
        current.wf(),
    ensures
        text_result(r) == (match first_difference(compared_keys(bus), expected@, current@) {
            Some(difference) => Err(difference),
            None => Ok::<(), Seq<char>>(()),
        }),
{
    let keys: Vec<&'static str> = match bus {
        FunctionBus::Hid => vec!["id", "phys", "uniq"],
        FunctionBus::Usb => vec![
            "id",
            "serial",
            "phys",
            "interface",
            "subsystem",
            "devtype",
            "type",
            "busnum",
            "devnum",
            "interface_descriptor",
            "interface_class",
            "interface_subclass",
            "interface_protocol",
        ],
    };
    let ghost views = str_views(keys@);
    assert(views == compared_keys(bus));
    let mut i: usize = 0;
    assert(views.skip(0) == views);
    while i < keys.len()
        invariant
            i <= keys@.len(),
            expected.wf(),
            current.wf(),
            views == str_views(keys@),
            views == compared_keys(bus),
            first_difference(views, expected@, current@) == first_difference(
                views.skip(i as int),
                expected@,
                current@,
            ),
        decreases keys@.len() - i,
    {
        let key: &'static str = keys[i];
        assert(views.skip(i as int)[0] == key@);
        assert(views.skip(i as int).drop_first() == views.skip(i + 1));
        let wanted = expected.text(key);
        if !wanted.is_empty() {
            let found = current.text(key);
            if found.is_empty() {
                return Err(joined3("function ", key, " identity is missing"));
            }
            if !same(wanted, found) {
                return Err(joined3("function ", key, " identity changed"));
            }
        }
        i += 1;
    }
    Ok(())
}

} // verus!
