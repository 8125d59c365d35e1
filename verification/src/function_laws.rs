//! What kernel functions are taken for, and what is recorded of them.
use crate::capability::{kv_pairs, or_empty};
use crate::fingerprint::{
    approved_driver, fingerprint_fields, first_difference, first_missing, identity_check,
    parsed_fields, selection_key, stable_interface, usb_problem, with_properties, FunctionBus,
    FunctionModel, IdentityModel,
};
use crate::function::{
    authorization_check, function_at, gone_paths, hid_usage, input_properties, path_check,
    properties_of, unbound_function, AuthorizationModel, AuthorizationPlan, FunctionReadingModel,
    InputReading, PathModel, PresenceModel, UnboundModel,
};
use crate::hid_descriptor::classified;
use crate::identity::{digest, encoded, function_name, hid_name, token, usb_interface_name};
use crate::ordered::{lookup, lemma_lookup_put, put, put_text, text_of};
use crate::paths::{file_name, path_within, same_path};
use crate::text::{decimal, join, opt_text, rsplit_once, split_once};
use vstd::prelude::*;

verus! {

// Places.
/// The directory is the function of that name on its bus: the fixed name leads
/// to it, it lies among the devices and bears the name, it is a directory of the
/// right subsystem, and its own account bears out the bus.
pub open spec fn at_its_place(bus: FunctionBus, name: Seq<char>, evidence: PathModel) -> bool {
    &&& if bus == FunctionBus::Hid {
        hid_name(name)
    } else {
        usb_interface_name(name)
    }
    &&& evidence.canonical matches Ok(path) && file_name(path) == Some(name) && (
    evidence.devices_root matches Ok(root) && path_within(path, root)) && (
    evidence.bus_alias matches Ok(alias) && same_path(alias, path))
    &&& evidence.is_dir == Ok::<bool, Seq<char>>(true)
    &&& evidence.subsystem matches Ok(subsystem) && (evidence.subsystem_root matches Ok(root)
        && same_path(subsystem, root))
    &&& if bus == FunctionBus::Hid {
        text_of(kv_pairs(evidence.uevent), "HID_ID"@).len() > 0
    } else {
        lookup(kv_pairs(evidence.uevent), "DEVTYPE"@) == Some("usb_interface"@) && text_of(
            kv_pairs(evidence.uevent),
            "PRODUCT"@,
        ).len() > 0 && text_of(kv_pairs(evidence.uevent), "TYPE"@).len() > 0
    }
}

proof fn lemma_buses()
    ensures
        "hid"@ != "usb"@,
{
    reveal_strlit("hid");
    reveal_strlit("usb");
    assert("hid"@[0] == 'h');
    assert("usb"@[0] == 'u');
}

/// What is at its place is accepted under its resolved path, and nothing else is.
pub proof fn a_function_is_known_by_its_place(
    bus: FunctionBus,
    name: Seq<char>,
    evidence: PathModel,
)
    ensures
        path_check(bus, name, evidence) is Ok <==> at_its_place(bus, name, evidence),
        at_its_place(bus, name, evidence) ==> path_check(bus, name, evidence)
            == evidence.canonical,
{
    lemma_buses();
}

// Properties.
proof fn lemma_keys()
    ensures
        "name"@.len() == 4 && "name"@[0] == 'n',
        "id"@.len() == 2,
        "phys"@.len() == 4 && "phys"@[0] == 'p',
        "uniq"@.len() == 4 && "uniq"@[0] == 'u',
        "interface"@.len() == 9 && "interface"@[0] == 'i',
        "subsystem"@.len() == 9 && "subsystem"@[0] == 's',
        "devtype"@.len() == 7 && "devtype"@[0] == 'd',
        "type"@.len() == 4 && "type"@[0] == 't',
        "serial"@.len() == 6 && "serial"@[0] == 's',
        "busnum"@.len() == 6 && "busnum"@[0] == 'b',
        "devnum"@.len() == 6 && "devnum"@[0] == 'd',
        "interface_descriptor"@.len() == 20,
        "interface_class"@.len() == 15,
        "interface_subclass"@.len() == 18 && "interface_subclass"@[10] == 's',
        "interface_protocol"@.len() == 18 && "interface_protocol"@[10] == 'p',
        "product"@.len() == 7 && "product"@[0] == 'p',
        "hid_id"@.len() == 6 && "hid_id"@[0] == 'h',
        "hid_name"@.len() == 8 && "hid_name"@[4] == 'n',
        "hid_phys"@.len() == 8 && "hid_phys"@[4] == 'p',
        "hid_uniq"@.len() == 8 && "hid_uniq"@[4] == 'u',
{
    reveal_strlit("name");
    reveal_strlit("id");
    reveal_strlit("phys");
    reveal_strlit("uniq");
    reveal_strlit("interface");
    reveal_strlit("subsystem");
    reveal_strlit("devtype");
    reveal_strlit("type");
    reveal_strlit("serial");
    reveal_strlit("busnum");
    reveal_strlit("devnum");
    reveal_strlit("interface_descriptor");
    reveal_strlit("interface_class");
    reveal_strlit("interface_subclass");
    reveal_strlit("interface_protocol");
    reveal_strlit("product");
    reveal_strlit("hid_id");
    reveal_strlit("hid_name");
    reveal_strlit("hid_phys");
    reveal_strlit("hid_uniq");
}

proof fn lemma_put_text(
    entries: Seq<(Seq<char>, Seq<char>)>,
    key: Seq<char>,
    value: Option<Seq<char>>,
    other: Seq<char>,
)
    ensures
        lookup(put_text(entries, key, value), other) == (if key == other && (value matches Some(
            text,
        ) && text.len() > 0) {
            value
        } else {
            lookup(entries, other)
        }),
{
    if let Some(text) = value {
        lemma_lookup_put(entries, key, text, other);
    }
}

/// A text, where there is one that is not empty.
pub open spec fn told(text: Option<Seq<char>>) -> Option<Seq<char>> {
    match text {
        Some(t) => if t.len() > 0 {
            Some(t)
        } else {
            None
        },
        None => None,
    }
}

/// The first text that is there.
pub open spec fn either(a: Option<Seq<char>>, b: Option<Seq<char>>) -> Option<Seq<char>> {
    if a is Some {
        a
    } else {
        b
    }
}

/// What a USB interface tells under a key.
pub open spec fn usb_value(
    reading: FunctionReadingModel,
    fallback: Seq<(Seq<char>, Seq<char>)>,
    key: Seq<char>,
) -> Option<Seq<char>> {
    let own = kv_pairs(reading.uevent);
    let parent = kv_pairs(reading.parent_uevent);
    if key == "name"@ {
        Some(text_of(fallback, "name"@))
    } else if key == "id"@ {
        Some(text_of(own, "PRODUCT"@))
    } else if key == "phys"@ {
        Some(reading.parent_name)
    } else if key == "uniq"@ {
        Some(Seq::empty())
    } else if key == "interface"@ {
        Some(reading.function_name)
    } else if key == "subsystem"@ {
        Some("usb"@)
    } else if key == "devtype"@ {
        told(lookup(own, "DEVTYPE"@))
    } else if key == "type"@ {
        told(lookup(own, "TYPE"@))
    } else if key == "serial"@ {
        told(either(reading.parent_serial, lookup(parent, "SERIAL"@)))
    } else if key == "busnum"@ {
        told(either(lookup(own, "BUSNUM"@), lookup(parent, "BUSNUM"@)))
    } else if key == "devnum"@ {
        told(either(lookup(own, "DEVNUM"@), lookup(parent, "DEVNUM"@)))
    } else if key == "interface_descriptor"@ {
        told(lookup(own, "INTERFACE"@))
    } else if key == "interface_class"@ {
        told(reading.interface_class)
    } else if key == "interface_subclass"@ {
        told(reading.interface_subclass)
    } else if key == "interface_protocol"@ {
        told(reading.interface_protocol)
    } else if key == "product"@ {
        told(lookup(own, "PRODUCT"@))
    } else {
        None
    }
}

/// The properties of a USB interface are its own and those of its device, with
/// nothing but the name from the input device below it.
pub proof fn what_a_usb_interface_tells(
    reading: FunctionReadingModel,
    fallback: Seq<(Seq<char>, Seq<char>)>,
    key: Seq<char>,
)
    requires
        usb_interface_name(reading.function_name),
    ensures
        lookup(properties_of(reading, fallback), key) == usb_value(reading, fallback, key),
{
    lemma_keys();
    let own = kv_pairs(reading.uevent);
    let parent = kv_pairs(reading.parent_uevent);
    let p0 = Seq::<(Seq<char>, Seq<char>)>::empty();
    lemma_lookup_put(p0, "name"@, text_of(fallback, "name"@), key);
    let p1 = put(p0, "name"@, text_of(fallback, "name"@));
    lemma_lookup_put(p1, "id"@, text_of(own, "PRODUCT"@), key);
    let p2 = put(p1, "id"@, text_of(own, "PRODUCT"@));
    lemma_lookup_put(p2, "phys"@, reading.parent_name, key);
    let p3 = put(p2, "phys"@, reading.parent_name);
    lemma_lookup_put(p3, "uniq"@, Seq::empty(), key);
    let p4 = put(p3, "uniq"@, Seq::empty());
    lemma_lookup_put(p4, "interface"@, reading.function_name, key);
    let p5 = put(p4, "interface"@, reading.function_name);
    lemma_lookup_put(p5, "subsystem"@, "usb"@, key);
    let p6 = put(p5, "subsystem"@, "usb"@);
    lemma_put_text(p6, "devtype"@, lookup(own, "DEVTYPE"@), key);
    let p7 = put_text(p6, "devtype"@, lookup(own, "DEVTYPE"@));
    lemma_put_text(p7, "type"@, lookup(own, "TYPE"@), key);
    let p8 = put_text(p7, "type"@, lookup(own, "TYPE"@));
    let serial = either(reading.parent_serial, lookup(parent, "SERIAL"@));
    lemma_put_text(p8, "serial"@, serial, key);
    let p9 = put_text(p8, "serial"@, serial);
    let busnum = either(lookup(own, "BUSNUM"@), lookup(parent, "BUSNUM"@));
    lemma_put_text(p9, "busnum"@, busnum, key);
    let p10 = put_text(p9, "busnum"@, busnum);
    let devnum = either(lookup(own, "DEVNUM"@), lookup(parent, "DEVNUM"@));
    lemma_put_text(p10, "devnum"@, devnum, key);
    let p11 = put_text(p10, "devnum"@, devnum);
    lemma_put_text(p11, "interface_descriptor"@, lookup(own, "INTERFACE"@), key);
    let p12 = put_text(p11, "interface_descriptor"@, lookup(own, "INTERFACE"@));
    lemma_put_text(p12, "interface_class"@, reading.interface_class, key);
    let p13 = put_text(p12, "interface_class"@, reading.interface_class);
    lemma_put_text(p13, "interface_subclass"@, reading.interface_subclass, key);
    let p14 = put_text(p13, "interface_subclass"@, reading.interface_subclass);
    lemma_put_text(p14, "interface_protocol"@, reading.interface_protocol, key);
    let p15 = put_text(p14, "interface_protocol"@, reading.interface_protocol);
    lemma_put_text(p15, "product"@, lookup(own, "PRODUCT"@), key);
    assert(lookup(p0, key) is None);
}

/// What a HID function tells under a key: its own account goes before that of
/// the input device below it.
pub open spec fn hid_value(
    reading: FunctionReadingModel,
    fallback: Seq<(Seq<char>, Seq<char>)>,
    key: Seq<char>,
) -> Option<Seq<char>> {
    let own = kv_pairs(reading.uevent);
    if key == "id"@ {
        Some(or_empty(either(lookup(own, "HID_ID"@), lookup(fallback, key))))
    } else if key == "phys"@ {
        Some(or_empty(either(lookup(own, "HID_PHYS"@), lookup(fallback, key))))
    } else if key == "uniq"@ {
        Some(or_empty(either(lookup(own, "HID_UNIQ"@), lookup(fallback, key))))
    } else if key == "name"@ {
        Some(or_empty(either(lookup(own, "HID_NAME"@), lookup(fallback, key))))
    } else if key == "hid_id"@ && told(lookup(own, "HID_ID"@)) is Some {
        lookup(own, "HID_ID"@)
    } else if key == "hid_name"@ && told(lookup(own, "HID_NAME"@)) is Some {
        lookup(own, "HID_NAME"@)
    } else if key == "hid_phys"@ && told(lookup(own, "HID_PHYS"@)) is Some {
        lookup(own, "HID_PHYS"@)
    } else if key == "hid_uniq"@ && told(lookup(own, "HID_UNIQ"@)) is Some {
        lookup(own, "HID_UNIQ"@)
    } else {
        lookup(fallback, key)
    }
}

/// The properties of a HID function, key by key.
pub proof fn what_a_hid_function_tells(
    reading: FunctionReadingModel,
    fallback: Seq<(Seq<char>, Seq<char>)>,
    key: Seq<char>,
)
    requires
        !usb_interface_name(reading.function_name),
    ensures
        lookup(properties_of(reading, fallback), key) == hid_value(reading, fallback, key),
{
    lemma_keys();
    let own = kv_pairs(reading.uevent);
    let id = or_empty(either(lookup(own, "HID_ID"@), lookup(fallback, "id"@)));
    let phys = or_empty(either(lookup(own, "HID_PHYS"@), lookup(fallback, "phys"@)));
    let uniq = or_empty(either(lookup(own, "HID_UNIQ"@), lookup(fallback, "uniq"@)));
    let name = or_empty(either(lookup(own, "HID_NAME"@), lookup(fallback, "name"@)));
    lemma_lookup_put(fallback, "id"@, id, key);
    lemma_lookup_put(fallback, "id"@, id, "phys"@);
    lemma_lookup_put(fallback, "id"@, id, "uniq"@);
    lemma_lookup_put(fallback, "id"@, id, "name"@);
    let p1 = put(fallback, "id"@, id);
    lemma_lookup_put(p1, "phys"@, phys, key);
    lemma_lookup_put(p1, "phys"@, phys, "uniq"@);
    lemma_lookup_put(p1, "phys"@, phys, "name"@);
    let p2 = put(p1, "phys"@, phys);
    lemma_lookup_put(p2, "uniq"@, uniq, key);
    lemma_lookup_put(p2, "uniq"@, uniq, "name"@);
    let p3 = put(p2, "uniq"@, uniq);
    lemma_lookup_put(p3, "name"@, name, key);
    let p4 = put(p3, "name"@, name);
    lemma_put_text(p4, "hid_id"@, lookup(own, "HID_ID"@), key);
    let p5 = put_text(p4, "hid_id"@, lookup(own, "HID_ID"@));
    lemma_put_text(p5, "hid_name"@, lookup(own, "HID_NAME"@), key);
    let p6 = put_text(p5, "hid_name"@, lookup(own, "HID_NAME"@));
    lemma_put_text(p6, "hid_phys"@, lookup(own, "HID_PHYS"@), key);
    let p7 = put_text(p6, "hid_phys"@, lookup(own, "HID_PHYS"@));
    lemma_put_text(p7, "hid_uniq"@, lookup(own, "HID_UNIQ"@), key);
}

/// What an input device tells of itself.
pub proof fn what_an_input_device_tells(input: InputReading)
    ensures
        lookup(input_properties(input), "name"@) == Some(
            match input.name {
                Some(name) => name@,
                None => "Linux input device"@,
            },
        ),
        lookup(input_properties(input), "phys"@) == Some(or_empty(opt_text(input.phys))),
        lookup(input_properties(input), "uniq"@) == Some(or_empty(opt_text(input.uniq))),
        lookup(input_properties(input), "id"@) == Some(
            or_empty(opt_text(input.bustype)) + ":"@ + or_empty(opt_text(input.vendor)) + ":"@
                + or_empty(opt_text(input.product)) + ":"@ + or_empty(opt_text(input.version)),
        ),
{
    lemma_keys();
    let name = match input.name {
        Some(name) => name@,
        None => "Linux input device"@,
    };
    let phys = or_empty(opt_text(input.phys));
    let uniq = or_empty(opt_text(input.uniq));
    let parts = seq![
        or_empty(opt_text(input.bustype)),
        or_empty(opt_text(input.vendor)),
        or_empty(opt_text(input.product)),
        or_empty(opt_text(input.version)),
    ];
    let id = join(parts, ":"@);
    let p0 = Seq::<(Seq<char>, Seq<char>)>::empty();
    let p1 = put(p0, "name"@, name);
    let p2 = put(p1, "phys"@, phys);
    let p3 = put(p2, "uniq"@, uniq);
    lemma_lookup_put(p0, "name"@, name, "name"@);
    lemma_lookup_put(p1, "phys"@, phys, "name"@);
    lemma_lookup_put(p1, "phys"@, phys, "phys"@);
    lemma_lookup_put(p2, "uniq"@, uniq, "name"@);
    lemma_lookup_put(p2, "uniq"@, uniq, "phys"@);
    lemma_lookup_put(p2, "uniq"@, uniq, "uniq"@);
    lemma_lookup_put(p3, "id"@, id, "name"@);
    lemma_lookup_put(p3, "id"@, id, "phys"@);
    lemma_lookup_put(p3, "id"@, id, "uniq"@);
    lemma_lookup_put(p3, "id"@, id, "id"@);
    reveal_with_fuel(join, 5);
    assert(id =~= parts[0] + ":"@ + parts[1] + ":"@ + parts[2] + ":"@ + parts[3]);
}

/// A directory at its place becomes its function, bound to the driver that was
/// read; one that is not is passed over.
pub proof fn a_directory_becomes_its_function(
    bus: FunctionBus,
    name: Seq<char>,
    path: PathModel,
    reading: FunctionReadingModel,
    driver: Option<Seq<char>>,
    input: InputReading,
)
    ensures
        at_its_place(bus, name, path) ==> function_at(bus, name, path, reading, driver, input)
            == Some(
            FunctionModel {
                bus,
                id: name,
                driver,
                expected_driver: driver,
                properties: properties_of(reading, input_properties(input)),
            },
        ),
        !at_its_place(bus, name, path) ==> function_at(bus, name, path, reading, driver, input)
            is None,
{
    a_function_is_known_by_its_place(bus, name, path);
}

// Finding a function again.
/// Whether a property is as it was recorded; one that was not recorded may be
/// anything.
pub open spec fn as_recorded(
    fields: Seq<(Seq<char>, Seq<char>)>,
    properties: Seq<(Seq<char>, Seq<char>)>,
    key: Seq<char>,
) -> bool {
    text_of(fields, key).len() > 0 ==> text_of(properties, key) == text_of(fields, key)
}

/// Whether all that tells one function from another is as it was recorded.
pub open spec fn all_as_recorded(
    bus: FunctionBus,
    fields: Seq<(Seq<char>, Seq<char>)>,
    properties: Seq<(Seq<char>, Seq<char>)>,
) -> bool {
    &&& as_recorded(fields, properties, "id"@)
    &&& as_recorded(fields, properties, "phys"@)
    &&& if bus == FunctionBus::Hid {
        as_recorded(fields, properties, "uniq"@)
    } else {
        &&& as_recorded(fields, properties, "serial"@)
        &&& as_recorded(fields, properties, "interface"@)
        &&& as_recorded(fields, properties, "subsystem"@)
        &&& as_recorded(fields, properties, "devtype"@)
        &&& as_recorded(fields, properties, "type"@)
        &&& as_recorded(fields, properties, "busnum"@)
        &&& as_recorded(fields, properties, "devnum"@)
        &&& as_recorded(fields, properties, "interface_descriptor"@)
        &&& as_recorded(fields, properties, "interface_class"@)
        &&& as_recorded(fields, properties, "interface_subclass"@)
        &&& as_recorded(fields, properties, "interface_protocol"@)
    }
}

proof fn lemma_difference(
    keys: Seq<Seq<char>>,
    fields: Seq<(Seq<char>, Seq<char>)>,
    properties: Seq<(Seq<char>, Seq<char>)>,
)
    ensures
        first_difference(keys, fields, properties) is None <==> (forall|i: int|
            0 <= i < keys.len() ==> as_recorded(fields, properties, #[trigger] keys[i])),
    decreases keys.len(),
{
    if keys.len() > 0 {
        let rest = keys.drop_first();
        lemma_difference(rest, fields, properties);
        if forall|i: int| 0 <= i < keys.len() ==> as_recorded(fields, properties, #[trigger] keys[i]) {
            assert(as_recorded(fields, properties, keys[0]));
            assert forall|i: int| 0 <= i < rest.len() implies as_recorded(
                fields,
                properties,
                #[trigger] rest[i],
            ) by {
                assert(rest[i] == keys[i + 1]);
            }
        }
        if first_difference(keys, fields, properties) is None {
            assert forall|i: int| 0 <= i < keys.len() implies as_recorded(
                fields,
                properties,
                #[trigger] keys[i],
            ) by {
                if i > 0 {
                    assert(keys[i] == rest[i - 1]);
                }
            }
        }
    }
}

proof fn lemma_compared(
    bus: FunctionBus,
    fields: Seq<(Seq<char>, Seq<char>)>,
    properties: Seq<(Seq<char>, Seq<char>)>,
)
    ensures
        first_difference(crate::fingerprint::compared_keys(bus), fields, properties) is None
            <==> all_as_recorded(bus, fields, properties),
{
    let keys = crate::fingerprint::compared_keys(bus);
    lemma_difference(keys, fields, properties);
    if bus == FunctionBus::Hid {
        assert(keys[0] == "id"@ && keys[1] == "phys"@ && keys[2] == "uniq"@);
    } else {
        assert(keys[0] == "id"@ && keys[1] == "serial"@ && keys[2] == "phys"@ && keys[3]
            == "interface"@ && keys[4] == "subsystem"@ && keys[5] == "devtype"@ && keys[6]
            == "type"@ && keys[7] == "busnum"@ && keys[8] == "devnum"@ && keys[9]
            == "interface_descriptor"@ && keys[10] == "interface_class"@ && keys[11]
            == "interface_subclass"@ && keys[12] == "interface_protocol"@);
    }
}

/// A recorded function is found again where it is present, at its place and as
/// it was recorded, and only there; it is expected on the driver on record.
pub proof fn a_recorded_function_is_found_again(
    identity: IdentityModel,
    reading: UnboundModel,
    fields: Seq<(Seq<char>, Seq<char>)>,
    bus: FunctionBus,
    name: Seq<char>,
)
    requires
        identity_check(identity) is Ok,
        parsed_fields(identity.fingerprint) == Some(fields),
        text_of(fields, "bus"@) == (if bus == FunctionBus::Hid {
            "hid"@
        } else {
            "usb"@
        }),
        text_of(fields, "function"@) == name,
    ensures
        ({
            let properties = properties_of(reading.function, Seq::empty());
            &&& unbound_function(identity, reading) is Ok <==> reading.presence
                == PresenceModel::Present(true) && at_its_place(bus, name, reading.path)
                && all_as_recorded(bus, fields, properties)
            &&& unbound_function(identity, reading) is Ok ==> unbound_function(identity, reading)
                == Ok::<FunctionModel, Seq<char>>(
                FunctionModel {
                    bus,
                    id: name,
                    driver: reading.driver,
                    expected_driver: lookup(fields, "driver"@),
                    properties,
                },
            )
        }),
{
    lemma_buses();
    a_function_is_known_by_its_place(bus, name, reading.path);
    lemma_compared(bus, fields, properties_of(reading.function, Seq::empty()));
}

/// A recorded function is gone once its name is missing, and that of its device
/// too where it is an interface.
pub proof fn what_has_to_be_missing(
    identity: IdentityModel,
    fields: Seq<(Seq<char>, Seq<char>)>,
    name: Seq<char>,
    device: Seq<char>,
    rest: Seq<char>,
)
    requires
        identity_check(identity) is Ok,
        parsed_fields(identity.fingerprint) == Some(fields),
        text_of(fields, "function"@) == name,
    ensures
        text_of(fields, "bus"@) == "hid"@ ==> gone_paths(identity) == Some(
            seq!["/sys/bus/hid/devices"@ + "/"@ + name],
        ),
        text_of(fields, "bus"@) == "usb"@ && split_once(name, ':') == Some((device, rest))
            ==> gone_paths(identity) == Some(
            seq![
                "/sys/bus/usb/devices"@ + "/"@ + name,
                "/sys/bus/usb/devices"@ + "/"@ + device,
            ],
        ),
{
    lemma_buses();
}

/// The usage of a HID function at its place is that of its descriptor.
pub proof fn a_function_has_the_usage_of_its_descriptor(
    name: Seq<char>,
    path: PathModel,
    bytes: Seq<u8>,
    usage: (u16, u16),
    error: Seq<char>,
)
    ensures
        at_its_place(FunctionBus::Hid, name, path) ==> hid_usage(name, path, Ok(bytes))
            == classified(bytes) && hid_usage(name, path, Err(error)) == Err::<
            (u16, u16),
            Seq<char>,
        >(error),
        !at_its_place(FunctionBus::Hid, name, path) ==> hid_usage(name, path, Ok(bytes)) is Err,
{
    a_function_is_known_by_its_place(FunctionBus::Hid, name, path);
}

/// The authorization of a USB interface is changed exactly where `xpad` drives
/// it or is to drive it, and the directory that was opened is root's alone, at
/// its place, and still shows the recorded interface; an enabled interface is
/// probed afterwards.
pub proof fn what_an_authorization_needs(
    function: FunctionModel,
    enabled: bool,
    evidence: AuthorizationModel,
)
    ensures
        authorization_check(function, enabled, evidence) is Ok <==> {
            &&& function.bus == FunctionBus::Usb
            &&& function.driver == Some("xpad"@) || function.driver is None
                && function.expected_driver == Some("xpad"@)
            &&& at_its_place(FunctionBus::Usb, function.id, evidence.path)
            &&& evidence.directory matches Ok(m) && m.is_dir && m.uid == 0 && m.mode & 0o022 == 0
            &&& evidence.pinned matches Ok(pinned) && same_path(
                pinned,
                evidence.path.canonical->Ok_0,
            )
            &&& all_as_recorded(
                FunctionBus::Usb,
                function.properties,
                properties_of(evidence.function, Seq::empty()),
            )
        },
        authorization_check(function, enabled, evidence) matches Ok(plan) ==> plan == (
        AuthorizationPlan {
            value: if enabled {
                '1'
            } else {
                '0'
            },
            probe: enabled,
        }),
{
    a_function_is_known_by_its_place(FunctionBus::Usb, function.id, evidence.path);
    lemma_compared(
        FunctionBus::Usb,
        function.properties,
        properties_of(evidence.function, Seq::empty()),
    );
}

// Records.
proof fn lemma_missing(fields: Seq<(Seq<char>, Seq<char>)>, keys: Seq<Seq<char>>)
    ensures
        first_missing(fields, keys) is None <==> (forall|i: int|
            0 <= i < keys.len() ==> text_of(fields, #[trigger] keys[i]).len() > 0),
    decreases keys.len(),
{
    if keys.len() > 0 {
        let rest = keys.drop_first();
        lemma_missing(fields, rest);
        if forall|i: int| 0 <= i < keys.len() ==> text_of(fields, #[trigger] keys[i]).len() > 0 {
            assert(text_of(fields, keys[0]).len() > 0);
            assert forall|i: int| 0 <= i < rest.len() implies text_of(
                fields,
                #[trigger] rest[i],
            ).len() > 0 by {
                assert(rest[i] == keys[i + 1]);
            }
        }
        if first_missing(fields, keys) is None {
            assert forall|i: int| 0 <= i < keys.len() implies text_of(
                fields,
                #[trigger] keys[i],
            ).len() > 0 by {
                if i > 0 {
                    assert(keys[i] == rest[i - 1]);
                }
            }
        }
    }
}

/// Whether a fingerprint holds what tells USB interfaces apart.
pub open spec fn usb_recorded(fields: Seq<(Seq<char>, Seq<char>)>) -> bool {
    &&& text_of(fields, "phys"@).len() > 0
    &&& text_of(fields, "interface"@).len() > 0
    &&& text_of(fields, "subsystem"@).len() > 0
    &&& text_of(fields, "devtype"@).len() > 0
    &&& text_of(fields, "type"@).len() > 0
    &&& text_of(fields, "busnum"@).len() > 0
    &&& text_of(fields, "devnum"@).len() > 0
    &&& text_of(fields, "interface_descriptor"@).len() > 0 || text_of(
        fields,
        "interface_class"@,
    ).len() > 0 && text_of(fields, "interface_subclass"@).len() > 0 && text_of(
        fields,
        "interface_protocol"@,
    ).len() > 0
}

proof fn lemma_usb_recorded(fields: Seq<(Seq<char>, Seq<char>)>)
    ensures
        usb_problem(fields) is None <==> usb_recorded(fields),
{
    let a = crate::fingerprint::usb_evidence();
    let b = crate::fingerprint::usb_interface_tuple();
    lemma_missing(fields, a);
    lemma_missing(fields, b);
    assert(a[0] == "phys"@ && a[1] == "interface"@ && a[2] == "subsystem"@ && a[3] == "devtype"@
        && a[4] == "type"@ && a[5] == "busnum"@ && a[6] == "devnum"@);
    assert(b[0] == "interface_class"@ && b[1] == "interface_subclass"@ && b[2]
        == "interface_protocol"@);
}

/// An identity is acceptable exactly where its fingerprint tells of a gamepad,
/// joystick or multi-axis controller on an approved driver that shares its
/// function with nothing, and its two names are made from that fingerprint.
pub proof fn what_makes_an_identity_acceptable(
    identity: IdentityModel,
    fields: Seq<(Seq<char>, Seq<char>)>,
    bus: Seq<char>,
    function: Seq<char>,
    usage: u16,
)
    requires
        parsed_fields(identity.fingerprint) == Some(fields),
        bus == text_of(fields, "bus"@),
        function == text_of(fields, "function"@),
        usage == (if text_of(fields, "usage"@) == "4"@ {
            4u16
        } else if text_of(fields, "usage"@) == "5"@ {
            5u16
        } else {
            8u16
        }),
    ensures
        identity_check(identity) is Ok <==> {
            &&& identity.platform == "linux"@
            &&& token(identity.stable_id, "linux-controller-"@)
            &&& token(identity.instance_id, "linux-function-"@)
            &&& bus == "hid"@ && hid_name(function) || bus == "usb"@ && usb_interface_name(function)
            &&& lookup(fields, "mixed"@) == Some("0"@)
            &&& approved_driver(text_of(fields, "driver"@))
            &&& text_of(fields, "id"@).len() > 0
            &&& bus == "usb"@ ==> usb_recorded(fields)
            &&& text_of(fields, "usage_page"@) == "1"@
            &&& text_of(fields, "usage"@) == "4"@ || text_of(fields, "usage"@) == "5"@ || text_of(
                fields,
                "usage"@,
            ) == "8"@
            &&& identity.stable_id == "linux-controller-"@ + digest(
                selection_key(bus, function, fields, 1, usage),
            )
            &&& identity.instance_id == "linux-function-"@ + digest(bus + ":"@ + function)
        },
{
    lemma_buses();
    lemma_usb_recorded(fields);
}

/// A fingerprint that cannot be read makes no acceptable identity.
pub proof fn an_unreadable_fingerprint_is_refused(identity: IdentityModel)
    requires
        parsed_fields(identity.fingerprint) is None,
    ensures
        identity_check(identity) is Err,
{
}

/// A USB controller with a serial keeps its name on every port: its key depends
/// on the serial, the transport, the interface and the usage alone.
pub proof fn a_serial_outlives_a_port(
    function: Seq<char>,
    properties: Seq<(Seq<char>, Seq<char>)>,
    moved: Seq<char>,
    later: Seq<(Seq<char>, Seq<char>)>,
    page: u16,
    usage: u16,
)
    requires
        lookup(properties, "serial"@) is Some,
        text_of(properties, "serial"@).len() > 0,
        lookup(later, "serial"@) == lookup(properties, "serial"@),
        text_of(later, "id"@) == text_of(properties, "id"@),
        stable_interface("usb"@, moved, later) == stable_interface("usb"@, function, properties),
    ensures
        selection_key("usb"@, moved, later, page, usage) == selection_key(
            "usb"@,
            function,
            properties,
            page,
            usage,
        ),
{
}

/// What the interface of a controller is called: of a USB interface what follows
/// the port, of a HID function all but its running number.
pub proof fn what_an_interface_is_called(
    function: Seq<char>,
    properties: Seq<(Seq<char>, Seq<char>)>,
    head: Seq<char>,
    tail: Seq<char>,
)
    ensures
        lookup(properties, "interface"@) is None && split_once(function, ':') == Some((head, tail))
            ==> stable_interface("usb"@, function, properties) == tail,
        lookup(properties, "interface"@) matches Some(interface) && split_once(interface, ':')
            == Some((head, tail)) ==> stable_interface("usb"@, function, properties) == tail,
        lookup(properties, "interface"@) is None && rsplit_once(function, '.') == Some((head, tail))
            ==> stable_interface("hid"@, function, properties) == head,
{
    lemma_buses();
}

/// How a key is made: a USB controller goes by its serial where there is one, and
/// by its place otherwise; a HID controller by its unique name and its place.
pub proof fn how_a_key_is_made(
    function: Seq<char>,
    properties: Seq<(Seq<char>, Seq<char>)>,
    page: u16,
    usage: u16,
)
    ensures
        ({
            let serial = text_of(properties, "serial"@);
            let usb = "bus="@ + encoded("usb"@) + ";transport="@ + encoded(
                text_of(properties, "id"@),
            ) + ";serial="@;
            let tail = ";interface="@ + encoded(stable_interface("usb"@, function, properties))
                + ";usage="@ + decimal(page as nat) + ":"@ + decimal(usage as nat);
            &&& lookup(properties, "serial"@) is Some && serial.len() > 0 ==> selection_key(
                "usb"@,
                function,
                properties,
                page,
                usage,
            ) == usb + encoded(serial) + ";phys="@ + encoded(Seq::empty()) + tail
            &&& lookup(properties, "serial"@) is None && text_of(properties, "uniq"@).len() == 0
                ==> selection_key("usb"@, function, properties, page, usage) == usb + encoded(
                Seq::empty(),
            ) + ";phys="@ + encoded(text_of(properties, "phys"@)) + tail
        }),
        selection_key("hid"@, function, properties, page, usage) == "bus="@ + encoded("hid"@)
            + ";transport="@ + encoded(text_of(properties, "id"@)) + ";serial="@ + encoded(
            text_of(properties, "uniq"@),
        ) + ";phys="@ + encoded(text_of(properties, "phys"@)) + ";interface="@ + encoded(
            stable_interface("hid"@, function, properties),
        ) + ";usage="@ + decimal(page as nat) + ":"@ + decimal(usage as nat),
{
    lemma_buses();
    let serial = text_of(properties, "serial"@);
    let usb = "bus="@ + encoded("usb"@) + ";transport="@ + encoded(text_of(properties, "id"@))
        + ";serial="@;
    let tail = ";interface="@ + encoded(stable_interface("usb"@, function, properties))
        + ";usage="@ + decimal(page as nat) + ":"@ + decimal(usage as nat);
    let key = selection_key("usb"@, function, properties, page, usage);
    if lookup(properties, "serial"@) is Some && serial.len() > 0 {
        assert(key =~= usb + encoded(serial) + ";phys="@ + encoded(Seq::empty()) + tail);
    }
    if lookup(properties, "serial"@) is None && text_of(properties, "uniq"@).len() == 0 {
        assert(text_of(properties, "uniq"@) =~= Seq::empty());
        assert(key =~= usb + encoded(Seq::empty()) + ";phys="@ + encoded(
            text_of(properties, "phys"@),
        ) + tail);
    }
}

proof fn lemma_lookup_at(entries: Seq<(Seq<char>, Seq<char>)>, i: int)
    requires
        0 <= i < entries.len(),
        forall|j: int| 0 <= j < i ==> (#[trigger] entries[j]).0 != entries[i].0,
    ensures
        lookup(entries, entries[i].0) == Some(entries[i].1),
    decreases entries.len(),
{
    if i > 0 {
        let rest = entries.drop_first();
        assert(entries[0].0 != entries[i].0);
        assert forall|j: int| 0 <= j < i - 1 implies (#[trigger] rest[j]).0 != rest[i - 1].0 by {
            assert(rest[j] == entries[j + 1]);
        }
        lemma_lookup_at(rest, i - 1);
    }
}

proof fn lemma_has_key(fields: Seq<(Seq<char>, Seq<char>)>, key: Seq<char>)
    ensures
        lookup(fields, key) is Some <==> crate::fingerprint::has_key(fields, key),
    decreases fields.len(),
{
    if fields.len() > 0 {
        let rest = fields.drop_first();
        lemma_has_key(rest, key);
        if crate::fingerprint::has_key(rest, key) {
            let i = choose|i: int| 0 <= i < rest.len() && (#[trigger] rest[i]).0 == key;
            assert(fields[i + 1].0 == key);
        }
        if crate::fingerprint::has_key(fields, key) && fields[0].0 != key {
            let i = choose|i: int| 0 <= i < fields.len() && (#[trigger] fields[i]).0 == key;
            assert(rest[i - 1].0 == key);
        }
        if fields[0].0 == key {
            assert(fields[0].0 == key);
        }
    }
}

proof fn lemma_with_properties(
    fields: Seq<(Seq<char>, Seq<char>)>,
    properties: Seq<(Seq<char>, Seq<char>)>,
    key: Seq<char>,
)
    ensures
        lookup(fields, key) is Some ==> lookup(with_properties(fields, properties), key) == lookup(
            fields,
            key,
        ),
        lookup(fields, key) is None ==> lookup(with_properties(fields, properties), key) == lookup(
            properties,
            key,
        ),
    decreases properties.len(),
{
    if properties.len() > 0 {
        let head = properties.drop_last();
        let last = properties.last();
        lemma_with_properties(fields, head, key);
        let before = with_properties(fields, head);
        lemma_has_key(before, last.0);
        crate::fingerprint::lemma_lookup_push(before, last, key);
        crate::fingerprint::lemma_lookup_push(head, last, key);
        assert(head.push(last) =~= properties);
    }
}

/// A fingerprint records the function of a controller, what it is called and
/// where it is, whether it shares its function, and its usage; the properties of
/// the function follow under the keys that are left.
pub proof fn what_a_fingerprint_records(
    f: FunctionModel,
    name: Seq<char>,
    phys: Seq<char>,
    uniq: Seq<char>,
    id: Seq<char>,
    connection: Seq<char>,
    mixed: bool,
    page: u16,
    usage: u16,
    other: Seq<char>,
)
    ensures
        ({
            let fields = fingerprint_fields(
                Some(f),
                name,
                phys,
                uniq,
                id,
                connection,
                mixed,
                page,
                usage,
            );
            &&& lookup(fields, "v"@) == Some("2"@)
            &&& lookup(fields, "bus"@) == Some(
                if f.bus == FunctionBus::Hid {
                    "hid"@
                } else {
                    "usb"@
                },
            )
            &&& lookup(fields, "function"@) == Some(f.id)
            &&& f.driver is Some ==> lookup(fields, "driver"@) == f.driver
            &&& f.driver is None && f.expected_driver is Some ==> lookup(fields, "driver"@)
                == f.expected_driver
            &&& lookup(fields, "name"@) == Some(name)
            &&& lookup(fields, "phys"@) == Some(phys)
            &&& lookup(fields, "uniq"@) == Some(uniq)
            &&& lookup(fields, "id"@) == Some(id)
            &&& lookup(fields, "connection"@) == Some(connection)
            &&& lookup(fields, "mixed"@) == Some(
                if mixed {
                    "1"@
                } else {
                    "0"@
                },
            )
            &&& lookup(fields, "usage_page"@) == Some(decimal(page as nat))
            &&& lookup(fields, "usage"@) == Some(decimal(usage as nat))
            &&& other == "serial"@ || other == "interface"@ || other == "subsystem"@ || other
                == "devtype"@ || other == "type"@ || other == "busnum"@ || other == "devnum"@
                || other == "interface_descriptor"@ || other == "interface_class"@ || other
                == "interface_subclass"@ || other == "interface_protocol"@ ==> lookup(
                fields,
                other,
            ) == lookup(f.properties, other)
        }),
{
    lemma_keys();
    reveal_strlit("v");
    reveal_strlit("bus");
    reveal_strlit("function");
    reveal_strlit("driver");
    reveal_strlit("connection");
    reveal_strlit("mixed");
    reveal_strlit("usage_page");
    reveal_strlit("usage");
    assert("v"@.len() == 1);
    assert("bus"@.len() == 3);
    assert("function"@.len() == 8 && "function"@[0] == 'f');
    assert("driver"@.len() == 6 && "driver"@[0] == 'd' && "driver"@[1] == 'r');
    assert("connection"@.len() == 10 && "connection"@[0] == 'c');
    assert("mixed"@.len() == 5 && "mixed"@[0] == 'm');
    assert("usage_page"@.len() == 10 && "usage_page"@[0] == 'u');
    assert("usage"@.len() == 5 && "usage"@[0] == 'u');
    let base = crate::fingerprint::base_fields(
        Some(f),
        name,
        phys,
        uniq,
        id,
        connection,
        mixed,
        page,
        usage,
    );
    lemma_base(base, f.properties);
    if other == "serial"@ || other == "interface"@ || other == "subsystem"@ || other == "devtype"@
        || other == "type"@ || other == "busnum"@ || other == "devnum"@ || other
        == "interface_descriptor"@ || other == "interface_class"@ || other
        == "interface_subclass"@ || other == "interface_protocol"@ {
        reveal_strlit("devnum");
        assert("devnum"@[1] == 'e');
        assert forall|i: int| 0 <= i < base.len() implies (#[trigger] base[i]).0 != other by {}
        crate::ordered::lemma_lookup_absent(base, other);
        lemma_with_properties(base, f.properties, other);
    }
}

proof fn lemma_base(
    base: Seq<(Seq<char>, Seq<char>)>,
    properties: Seq<(Seq<char>, Seq<char>)>,
)
    requires
        base.len() == 12,
        forall|i: int, j: int|
            0 <= i < j < base.len() ==> (#[trigger] base[i]).0 != (#[trigger] base[j]).0,
    ensures
        forall|i: int|
            0 <= i < 12 ==> lookup(with_properties(base, properties), (#[trigger] base[i]).0)
                == Some(base[i].1),
{
    assert forall|i: int| 0 <= i < 12 implies lookup(
        with_properties(base, properties),
        (#[trigger] base[i]).0,
    ) == Some(base[i].1) by {
        lemma_lookup_at(base, i);
        lemma_with_properties(base, properties, base[i].0);
    }
}

} // verus!
