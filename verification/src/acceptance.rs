//! What discovery reports with full control, the identity checks accept.
use crate::fingerprint::{
    base_fields, bus_text, digests_match, fields_problem, first_missing, has_key, identity_check,
    lemma_lookup_push, parse_inverts_render, parsed_fields, readable, rendered, selection_key,
    usage_number, usb_evidence, usb_interface_tuple, usb_problem, with_properties, FunctionBus,
    FunctionModel,
};
use crate::identity::{all_token, digest_makes_token, function_name, token_char, MAX_FINGERPRINT};
use crate::input::{controller_of, fully_controllable, gamepad_name, group_fields, GroupModel};
use crate::ordered::{in_order, lemma_lookup_absent, lookup, text_of};
use crate::text::{decimal, digit_char, utf8_len};
use vstd::prelude::*;

verus! {

/// Property keys that can stand in a fingerprint.
pub open spec fn token_keys(properties: Seq<(Seq<char>, Seq<char>)>) -> bool {
    forall|i: int|
        0 <= i < properties.len() ==> (#[trigger] properties[i]).0.len() > 0 && all_token(
            properties[i].0,
        )
}

proof fn lemma_with_properties(
    fields: Seq<(Seq<char>, Seq<char>)>,
    properties: Seq<(Seq<char>, Seq<char>)>,
)
    requires
        readable(fields),
        token_keys(properties),
    ensures
        readable(with_properties(fields, properties)),
        forall|key: Seq<char>| #[trigger]
            lookup(with_properties(fields, properties), key) == (match lookup(fields, key) {
                Some(value) => Some(value),
                None => lookup(properties, key),
            }),
    decreases properties.len(),
{
    if properties.len() == 0 {
        assert forall|key: Seq<char>| lookup(properties, key) is None by {}
    } else {
        let head = properties.drop_last();
        let last = properties.last();
        assert(token_keys(head)) by {
            assert forall|i: int| 0 <= i < head.len() implies (#[trigger] head[i]).0.len() > 0
                && all_token(head[i].0) by {
                assert(head[i] == properties[i]);
            }
        }
        lemma_with_properties(fields, head);
        let before = with_properties(fields, head);
        assert(properties == head.push(last));
        assert(properties[properties.len() - 1] == last);
        if has_key(before, last.0) {
            let at = choose|i: int| 0 <= i < before.len() && (#[trigger] before[i]).0 == last.0;
            assert forall|key: Seq<char>| #[trigger]
                lookup(before, key) == (match lookup(fields, key) {
                    Some(value) => Some(value),
                    None => lookup(properties, key),
                }) by {
                lemma_lookup_push(head, last, key);
                if key == last.0 {
                    lemma_lookup_present(before, at);
                }
            }
        } else {
            let after = before.push(last);
            assert(readable(after)) by {
                assert forall|i: int, j: int| 0 <= i < j < after.len() implies (
                #[trigger] after[i]).0 != (#[trigger] after[j]).0 by {
                    if j == before.len() {
                        assert(after[i] == before[i]);
                    }
                }
            }
            assert forall|key: Seq<char>| #[trigger]
                lookup(after, key) == (match lookup(fields, key) {
                    Some(value) => Some(value),
                    None => lookup(properties, key),
                }) by {
                lemma_lookup_push(before, last, key);
                lemma_lookup_push(head, last, key);
                assert(lookup(before, key) == match lookup(fields, key) {
                    Some(value) => Some(value),
                    None => lookup(head, key),
                });
            }
        }
    }
}

proof fn lemma_lookup_present(fields: Seq<(Seq<char>, Seq<char>)>, at: int)
    requires
        0 <= at < fields.len(),
    ensures
        lookup(fields, fields[at].0) is Some,
    decreases at,
{
    if at > 0 && fields[0].0 != fields[at].0 {
        assert(fields.drop_first()[at - 1] == fields[at]);
        lemma_lookup_present(fields.drop_first(), at - 1);
    }
}

proof fn lemma_reveal_keys()
    ensures
        "v"@ == seq!['v'],
        "bus"@ == seq!['b', 'u', 's'],
        "function"@ == seq!['f', 'u', 'n', 'c', 't', 'i', 'o', 'n'],
        "driver"@ == seq!['d', 'r', 'i', 'v', 'e', 'r'],
        "name"@ == seq!['n', 'a', 'm', 'e'],
        "phys"@ == seq!['p', 'h', 'y', 's'],
        "uniq"@ == seq!['u', 'n', 'i', 'q'],
        "id"@ == seq!['i', 'd'],
        "connection"@ == seq!['c', 'o', 'n', 'n', 'e', 'c', 't', 'i', 'o', 'n'],
        "mixed"@ == seq!['m', 'i', 'x', 'e', 'd'],
        "usage_page"@ == seq!['u', 's', 'a', 'g', 'e', '_', 'p', 'a', 'g', 'e'],
        "usage"@ == seq!['u', 's', 'a', 'g', 'e'],
{
    reveal_strlit("v");
    reveal_strlit("bus");
    reveal_strlit("function");
    reveal_strlit("driver");
    reveal_strlit("name");
    reveal_strlit("phys");
    reveal_strlit("uniq");
    reveal_strlit("id");
    reveal_strlit("connection");
    reveal_strlit("mixed");
    reveal_strlit("usage_page");
    reveal_strlit("usage");
}

/// Length and first character tell the keys of a fingerprint apart.
spec fn mark(key: Seq<char>) -> (nat, char) {
    (key.len(), key[0])
}

proof fn lemma_base_fields(
    function: Option<FunctionModel>,
    name: Seq<char>,
    phys: Seq<char>,
    uniq: Seq<char>,
    id: Seq<char>,
    connection: Seq<char>,
    mixed: bool,
    page: u16,
    usage: u16,
)
    ensures
        readable(base_fields(function, name, phys, uniq, id, connection, mixed, page, usage)),
{
    let fields = base_fields(function, name, phys, uniq, id, connection, mixed, page, usage);
    lemma_reveal_keys();
    assert(fields.len() == 12);
    assert forall|i: int| 0 <= i < 12 implies (#[trigger] fields[i]).0.len() > 0 && all_token(
        fields[i].0,
    ) by {
        let key = fields[i].0;
        assert forall|k: int| 0 <= k < key.len() implies token_char(#[trigger] key[k]) by {}
    }
    assert forall|i: int, j: int| 0 <= i < j < 12 implies mark((#[trigger] fields[i]).0) != mark(
        (#[trigger] fields[j]).0,
    ) by {}
    assert forall|i: int, j: int| 0 <= i < j < fields.len() implies (#[trigger] fields[i]).0 != (
    #[trigger] fields[j]).0 by {
        assert(mark(fields[i].0) != mark(fields[j].0));
    }
}

proof fn lemma_lookup_at_unique(fields: Seq<(Seq<char>, Seq<char>)>, at: int)
    requires
        readable(fields),
        0 <= at < fields.len(),
    ensures
        lookup(fields, fields[at].0) == Some(fields[at].1),
    decreases at,
{
    if at > 0 {
        let rest = fields.drop_first();
        assert(fields[0].0 != fields[at].0);
        assert(rest[at - 1] == fields[at]);
        assert(readable(rest)) by {
            assert forall|i: int| 0 <= i < rest.len() implies (#[trigger] rest[i]).0.len() > 0
                && all_token(rest[i].0) by {
                assert(rest[i] == fields[i + 1]);
            }
            assert forall|i: int, j: int| 0 <= i < j < rest.len() implies (#[trigger] rest[i]).0
                != (#[trigger] rest[j]).0 by {
                assert(rest[i] == fields[i + 1]);
                assert(rest[j] == fields[j + 1]);
            }
        }
        lemma_lookup_at_unique(rest, at - 1);
    }
}

/// A key that none of the base keys is, by its length and first characters.
proof fn lemma_not_base(
    fields: Seq<(Seq<char>, Seq<char>)>,
    key: Seq<char>,
)
    requires
        fields.len() == 12,
        fields[0].0 == "v"@,
        fields[1].0 == "bus"@,
        fields[2].0 == "function"@,
        fields[3].0 == "driver"@,
        fields[4].0 == "name"@,
        fields[5].0 == "phys"@,
        fields[6].0 == "uniq"@,
        fields[7].0 == "id"@,
        fields[8].0 == "connection"@,
        fields[9].0 == "mixed"@,
        fields[10].0 == "usage_page"@,
        fields[11].0 == "usage"@,
        key.len() > 0,
        mark(key) != (1nat, 'v'),
        mark(key) != (3nat, 'b'),
        mark(key) != (8nat, 'f'),
        mark(key) != (6nat, 'd') || key[1] != 'r',
        mark(key) != (4nat, 'n'),
        mark(key) != (4nat, 'p'),
        mark(key) != (4nat, 'u'),
        mark(key) != (2nat, 'i'),
        mark(key) != (10nat, 'c'),
        mark(key) != (5nat, 'm'),
        mark(key) != (10nat, 'u'),
        mark(key) != (5nat, 'u'),
    ensures
        lookup(fields, key) is None,
{
    lemma_reveal_keys();
    assert forall|i: int| 0 <= i < fields.len() implies (#[trigger] fields[i]).0 != key by {}
    lemma_lookup_absent(fields, key);
}

proof fn lemma_first_missing_same(
    a: Seq<(Seq<char>, Seq<char>)>,
    b: Seq<(Seq<char>, Seq<char>)>,
    keys: Seq<Seq<char>>,
)
    requires
        forall|i: int| 0 <= i < keys.len() ==> text_of(a, #[trigger] keys[i]) == text_of(b, keys[i]),
    ensures
        first_missing(a, keys) == first_missing(b, keys),
    decreases keys.len(),
{
    if keys.len() > 0 {
        let rest = keys.drop_first();
        assert(text_of(a, keys[0]) == text_of(b, keys[0]));
        assert forall|i: int| 0 <= i < rest.len() implies text_of(a, #[trigger] rest[i]) == text_of(
            b,
            rest[i],
        ) by {
            assert(rest[i] == keys[i + 1]);
        }
        lemma_first_missing_same(a, b, rest);
    }
}

proof fn lemma_one_digit(n: nat)
    requires
        n < 10,
    ensures
        decimal(n) == seq![digit_char(n)],
{
}

/// What an identity needs beyond full control: a well-formed function name,
/// keys that can be written, a transport identity, for USB the interface
/// evidence, and a joystick, gamepad or multi-axis usage.
pub open spec fn evidenced(group: GroupModel) -> bool {
    &&& group.function matches Some(f) && {
        &&& in_order(f.properties)
        &&& token_keys(f.properties)
        &&& function_name(bus_text(f.bus), f.id)
        &&& text_of(f.properties, "id"@).len() > 0
        &&& f.bus == FunctionBus::Usb ==> usb_problem(f.properties) is None
    }
    &&& group.usage matches Some((page, usage)) && page == 1 && (usage == 4 || usage == 5 || usage
        == 8)
}

/// Discovery and the identity checks agree: the identity of every controller
/// that is found with full control and complete evidence is accepted.
pub proof fn discovered_identity_is_accepted(group: GroupModel)
    requires
        fully_controllable(group),
        evidenced(group),
        controller_of(group) is Ok,
    ensures
        identity_check(controller_of(group)->Ok_0.identity) is Ok,
{
    let f = group.function->0;
    let usage = group.usage->0;
    let p = f.properties;
    let identity = controller_of(group)->Ok_0.identity;
    let fields = group_fields(group, usage);
    let connection = crate::input::connection_of(p, group.function);
    let name = gamepad_name(group.nodes, group.name);
    let base = base_fields(
        group.function,
        name,
        text_of(p, "phys"@),
        text_of(p, "uniq"@),
        text_of(p, "id"@),
        connection,
        false,
        usage.0,
        usage.1,
    );
    lemma_base_fields(
        group.function,
        name,
        text_of(p, "phys"@),
        text_of(p, "uniq"@),
        text_of(p, "id"@),
        connection,
        false,
        usage.0,
        usage.1,
    );
    lemma_with_properties(base, p);
    assert(fields == with_properties(base, p));
    lemma_lookup_at_unique(base, 0);
    lemma_lookup_at_unique(base, 1);
    lemma_lookup_at_unique(base, 2);
    lemma_lookup_at_unique(base, 3);
    lemma_lookup_at_unique(base, 5);
    lemma_lookup_at_unique(base, 6);
    lemma_lookup_at_unique(base, 7);
    lemma_lookup_at_unique(base, 9);
    lemma_lookup_at_unique(base, 10);
    lemma_lookup_at_unique(base, 11);
    assert(lookup(fields, "v"@) == Some("2"@));
    lemma_rendered_bound(fields);
    parse_inverts_render(fields);
    let m = parsed_fields(rendered(fields))->0;
    assert(lookup(m, "bus"@) == lookup(fields, "bus"@));
    assert(lookup(m, "function"@) == lookup(fields, "function"@));
    assert(lookup(m, "driver"@) == lookup(fields, "driver"@));
    assert(lookup(m, "mixed"@) == lookup(fields, "mixed"@));
    lemma_usb_texts(base, p, fields, m);
    lemma_one_digit(1);
    lemma_one_digit(usage.1 as nat);
    reveal_strlit("1");
    reveal_strlit("4");
    reveal_strlit("5");
    reveal_strlit("8");
    reveal_strlit("hid");
    reveal_strlit("usb");
    assert(decimal(1) == "1"@);
    assert(usage.1 == 4 ==> decimal(usage.1 as nat) == "4"@);
    assert(usage.1 == 5 ==> decimal(usage.1 as nat) == "5"@);
    assert(usage.1 == 8 ==> decimal(usage.1 as nat) == "8"@);
    assert(lookup(m, "usage_page"@) == lookup(fields, "usage_page"@));
    assert(lookup(m, "usage"@) == lookup(fields, "usage"@));
    assert(text_of(m, "usage"@) == decimal(usage.1 as nat));
    assert("4"@[0] != "5"@[0] && "4"@[0] != "8"@[0] && "5"@[0] != "8"@[0]);
    assert(usage_number(text_of(m, "usage"@)) == usage.1);
    assert(fields_problem(m) is None);
    assert(digests_match(identity, m)) by {
        assert(selection_key(bus_text(f.bus), f.id, m, 1, usage.1) == selection_key(
            bus_text(f.bus),
            f.id,
            p,
            1,
            usage.1,
        ));
    }
    reveal_strlit("linux-controller-");
    reveal_strlit("linux-function-");
    digest_makes_token("linux-controller-"@, selection_key(bus_text(f.bus), f.id, p, 1, usage.1));
    digest_makes_token("linux-function-"@, bus_text(f.bus) + ":"@ + f.id);
}

/// The fields that a fingerprint adds to the properties do not change what is
/// found under the keys of a transport identity.
proof fn lemma_usb_texts(
    base: Seq<(Seq<char>, Seq<char>)>,
    p: Seq<(Seq<char>, Seq<char>)>,
    fields: Seq<(Seq<char>, Seq<char>)>,
    m: Seq<(Seq<char>, Seq<char>)>,
)
    requires
        base.len() == 12,
        readable(base),
        base[0].0 == "v"@,
        base[1].0 == "bus"@,
        base[2].0 == "function"@,
        base[3].0 == "driver"@,
        base[4].0 == "name"@,
        base[5] == ("phys"@, text_of(p, "phys"@)),
        base[6] == ("uniq"@, text_of(p, "uniq"@)),
        base[7] == ("id"@, text_of(p, "id"@)),
        base[8].0 == "connection"@,
        base[9].0 == "mixed"@,
        base[10].0 == "usage_page"@,
        base[11].0 == "usage"@,
        forall|key: Seq<char>| #[trigger]
            lookup(fields, key) == (match lookup(base, key) {
                Some(value) => Some(value),
                None => lookup(p, key),
            }),
        forall|key: Seq<char>| #[trigger] lookup(m, key) == lookup(fields, key),
    ensures
        text_of(m, "id"@) == text_of(p, "id"@),
        text_of(m, "phys"@) == text_of(p, "phys"@),
        text_of(m, "uniq"@) == text_of(p, "uniq"@),
        lookup(m, "serial"@) == lookup(p, "serial"@),
        lookup(m, "interface"@) == lookup(p, "interface"@),
        usb_problem(m) == usb_problem(p),
{
    lemma_lookup_at_unique(base, 5);
    lemma_lookup_at_unique(base, 6);
    lemma_lookup_at_unique(base, 7);
    assert(lookup(m, "id"@) == lookup(fields, "id"@));
    assert(lookup(m, "phys"@) == lookup(fields, "phys"@));
    assert(lookup(m, "uniq"@) == lookup(fields, "uniq"@));
    reveal_strlit("serial");
    reveal_strlit("interface");
    reveal_strlit("subsystem");
    reveal_strlit("devtype");
    reveal_strlit("type");
    reveal_strlit("busnum");
    reveal_strlit("devnum");
    reveal_strlit("interface_descriptor");
    reveal_strlit("interface_class");
    reveal_strlit("interface_subclass");
    reveal_strlit("interface_protocol");
    lemma_not_base(base, "serial"@);
    lemma_not_base(base, "interface"@);
    lemma_not_base(base, "subsystem"@);
    lemma_not_base(base, "devtype"@);
    lemma_not_base(base, "type"@);
    lemma_not_base(base, "busnum"@);
    lemma_not_base(base, "devnum"@);
    lemma_not_base(base, "interface_descriptor"@);
    lemma_not_base(base, "interface_class"@);
    lemma_not_base(base, "interface_subclass"@);
    lemma_not_base(base, "interface_protocol"@);
    assert(lookup(m, "serial"@) == lookup(fields, "serial"@));
    assert(lookup(m, "interface"@) == lookup(fields, "interface"@));
    assert(lookup(m, "subsystem"@) == lookup(fields, "subsystem"@));
    assert(lookup(m, "devtype"@) == lookup(fields, "devtype"@));
    assert(lookup(m, "type"@) == lookup(fields, "type"@));
    assert(lookup(m, "busnum"@) == lookup(fields, "busnum"@));
    assert(lookup(m, "devnum"@) == lookup(fields, "devnum"@));
    assert(lookup(m, "interface_descriptor"@) == lookup(fields, "interface_descriptor"@));
    assert(lookup(m, "interface_class"@) == lookup(fields, "interface_class"@));
    assert(lookup(m, "interface_subclass"@) == lookup(fields, "interface_subclass"@));
    assert(lookup(m, "interface_protocol"@) == lookup(fields, "interface_protocol"@));
    lemma_first_missing_same(m, p, usb_evidence());
    lemma_first_missing_same(m, p, usb_interface_tuple());
}

proof fn lemma_rendered_bound(fields: Seq<(Seq<char>, Seq<char>)>)
    requires
        readable(fields),
        utf8_len(rendered(fields)) <= MAX_FINGERPRINT,
    ensures
        rendered(fields).len() <= MAX_FINGERPRINT,
{
    crate::fingerprint::lemma_rendered_is_ascii(fields);
    vstd::utf8::is_ascii_chars_encode_utf8(rendered(fields));
}

} // verus!
