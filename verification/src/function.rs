//! Kernel functions: where they stand in sysfs, what is read of them, and how
//! they are bound and unbound.
use crate::capability::{input_id, kv_pairs, or_empty, read_kv_file, str_text};
use crate::fingerprint::{
    any_driver, approved_driver, bus_text, compare_properties, compared_keys, first_difference,
    identity_check, opt_view, parse_fingerprint, parsed_fields, safe_driver, validate_identity, FunctionBus,
    FunctionIdentity, FunctionModel, Identity, IdentityModel,
};
use crate::hid_descriptor::{classified, controller_usage};
use crate::identity::{
    driver_token, function_name, hid_name, is_hid_name, is_usb_interface_name, usb_interface_name,
    valid_driver_token, valid_function_name,
};
use crate::ordered::{lookup, put, put_text, text_of, Ordered, Properties};
use crate::paths::{
    file_name, file_name_is, is_same_path, is_within, path_within, same_path,
};
use crate::text::{
    copy_opt, debug_form, debug_text, join, joined, joined3, opt_text, opt_texts, parse_number,
    parsed, same, split_first, split_once, text_result, trim_ends, trimmed, view_result, Cut,
};
use vstd::prelude::*;

verus! {

pub open spec fn bus_root(bus: FunctionBus) -> Seq<char> {
    match bus {
        FunctionBus::Hid => "/sys/bus/hid/devices"@,
        FunctionBus::Usb => "/sys/bus/usb/devices"@,
    }
}

/// The directory in which the functions of a bus have their fixed names.
pub fn bus_devices(bus: FunctionBus) -> (r: &'static str)
    ensures
        r@ == bus_root(bus),
{
    match bus {
        FunctionBus::Hid => "/sys/bus/hid/devices",
        FunctionBus::Usb => "/sys/bus/usb/devices",
    }
}

/// The bus that a kernel name belongs to.
pub open spec fn bus_of_name(name: Seq<char>) -> Option<FunctionBus> {
    if hid_name(name) {
        Some(FunctionBus::Hid)
    } else if usb_interface_name(name) {
        Some(FunctionBus::Usb)
    } else {
        None
    }
}

pub open spec fn names_bus(name: Option<String>) -> Option<FunctionBus> {
    match name {
        Some(n) => bus_of_name(n@),
        None => None,
    }
}

/// The nearest directory that is named like a kernel function, going up from
/// the device.  A directory whose name is no text has no name here.
pub fn find_function(file_names: &[Option<String>]) -> (r: Option<(usize, FunctionBus)>)
    ensures
        match r {
            Some((at, bus)) => {
                &&& at < file_names@.len()
                &&& names_bus(file_names@[at as int]) == Some(bus)
                &&& forall|i: int| 0 <= i < at ==> names_bus(#[trigger] file_names@[i]) is None
            },
            None => forall|i: int|
                0 <= i < file_names@.len() ==> names_bus(#[trigger] file_names@[i]) is None,
        },
{
    let mut i: usize = 0;
    while i < file_names.len()
        invariant
            i <= file_names@.len(),
            forall|j: int| 0 <= j < i ==> names_bus(#[trigger] file_names@[j]) is None,
        decreases file_names@.len() - i,
    {
        match &file_names[i] {
            Some(name) => {
                if is_hid_name(name.as_str()) {
                    return Some((i, FunctionBus::Hid));
                }
                if is_usb_interface_name(name.as_str()) {
                    return Some((i, FunctionBus::Usb));
                }
            },
            None => {},
        }
        i += 1;
    }
    None
}

// Paths.
/// What resolving and reading a function directory brought.  Where a step
/// failed, its error text stands in its place.
#[derive(Debug)]
pub struct PathEvidence {
    /// Canonical path of the function.
    pub canonical: Result<String, String>,
    /// Canonical path of `/sys/devices`.
    pub devices_root: Result<String, String>,
    /// Canonical path of the function's fixed name on its bus.
    pub bus_alias: Result<String, String>,
    /// Whether the canonical path is a directory.
    pub is_dir: Result<bool, String>,
    /// Canonical path of the function's subsystem.
    pub subsystem: Result<String, String>,
    /// Canonical path of the subsystem of the bus.
    pub subsystem_root: Result<String, String>,
    /// Text of the function's uevent file.
    pub uevent: Option<String>,
}

pub struct PathModel {
    pub canonical: Result<Seq<char>, Seq<char>>,
    pub devices_root: Result<Seq<char>, Seq<char>>,
    pub bus_alias: Result<Seq<char>, Seq<char>>,
    pub is_dir: Result<bool, Seq<char>>,
    pub subsystem: Result<Seq<char>, Seq<char>>,
    pub subsystem_root: Result<Seq<char>, Seq<char>>,
    pub uevent: Option<Seq<char>>,
}

impl View for PathEvidence {
    type V = PathModel;

    open spec fn view(&self) -> PathModel {
        PathModel {
            canonical: view_result(self.canonical),
            devices_root: view_result(self.devices_root),
            bus_alias: view_result(self.bus_alias),
            is_dir: text_result(self.is_dir),
            subsystem: view_result(self.subsystem),
            subsystem_root: view_result(self.subsystem_root),
            uevent: opt_text(self.uevent),
        }
    }
}

pub open spec fn bus_debug(bus: FunctionBus) -> Seq<char> {
    match bus {
        FunctionBus::Hid => "Hid"@,
        FunctionBus::Usb => "Usb"@,
    }
}

/// Whether the uevent of a function bears out its bus.
pub open spec fn uevent_problem(
    bus: FunctionBus,
    uevent: Seq<(Seq<char>, Seq<char>)>,
) -> Option<Seq<char>> {
    match bus {
        FunctionBus::Hid => if text_of(uevent, "HID_ID"@).len() == 0 {
            Some("HID function lacks authoritative HID_ID evidence"@)
        } else {
            None
        },
        FunctionBus::Usb => if lookup(uevent, "DEVTYPE"@) != Some("usb_interface"@) || text_of(
            uevent,
            "PRODUCT"@,
        ).len() == 0 || text_of(uevent, "TYPE"@).len() == 0 {
            Some("USB function lacks authoritative interface/type evidence"@)
        } else {
            None
        },
    }
}

/// The checks that make a directory the fixed-bus function of that name.
pub open spec fn path_check(
    bus: FunctionBus,
    name: Seq<char>,
    evidence: PathModel,
) -> Result<Seq<char>, Seq<char>> {
    if !function_name(bus_text(bus), name) {
        Err("malformed kernel function name"@)
    } else {
        match (evidence.canonical, evidence.devices_root, evidence.bus_alias) {
            (Err(e), _, _) => Err("cannot resolve "@ + bus_debug(bus) + " function: "@ + e),
            (_, Err(e), _) => Err("cannot resolve canonical sysfs root: "@ + e),
            (_, _, Err(e)) => Err("cannot resolve canonical bus function alias: "@ + e),
            (Ok(canonical), Ok(root), Ok(alias)) => if !same_path(alias, canonical)
                || !path_within(canonical, root) || file_name(canonical) != Some(name) {
                Err("function path is not the canonical fixed-bus sysfs function"@)
            } else {
                match evidence.is_dir {
                    Err(e) => Err("cannot inspect function directory: "@ + e),
                    Ok(is_dir) => if !is_dir {
                        Err("validated function is not a directory"@)
                    } else {
                        match (evidence.subsystem, evidence.subsystem_root) {
                            (Err(e), _) => Err("cannot resolve function subsystem: "@ + e),
                            (_, Err(e)) => Err("cannot resolve expected function subsystem: "@ + e),
                            (Ok(subsystem), Ok(expected)) => if !same_path(subsystem, expected) {
                                Err("function subsystem is not the expected HID/USB bus"@)
                            } else {
                                match uevent_problem(bus, kv_pairs(evidence.uevent)) {
                                    Some(problem) => Err(problem),
                                    None => Ok(canonical),
                                }
                            },
                        }
                    },
                }
            },
        }
    }
}

fn check_uevent(bus: FunctionBus, uevent: &Properties) -> (r: Result<(), String>)
    requires
        uevent.wf(),
    ensures
        text_result(r) == (match uevent_problem(bus, uevent@) {
            Some(problem) => Err(problem),
            None => Ok::<(), Seq<char>>(()),
        }),
{
    match bus {
        FunctionBus::Hid => {
            if !uevent.has("HID_ID") {
                return Err("HID function lacks authoritative HID_ID evidence".to_owned());
            }
        },
        FunctionBus::Usb => {
            let interface = match uevent.find("DEVTYPE") {
                Some(devtype) => same(devtype, "usb_interface"),
                None => false,
            };
            if !interface || !uevent.has("PRODUCT") || !uevent.has("TYPE") {
                return Err("USB function lacks authoritative interface/type evidence".to_owned());
            }
        },
    }
    Ok(())
}

fn as_str_opt(s: &Option<String>) -> (r: Option<&str>)
    ensures
        str_text(r) == opt_text(*s),
{
    match s {
        Some(t) => Some(t.as_str()),
        None => None,
    }
}

/// The canonical path of a function, where all evidence agrees that it is the
/// function of that name on its bus.
pub fn canonical_function_path(
    bus: FunctionBus,
    expected_name: &str,
    evidence: &PathEvidence,
) -> (r: Result<String, String>)
    ensures
        view_result(r) == path_check(bus, expected_name@, evidence@),
{
    if !valid_function_name(bus.as_str(), expected_name) {
        return Err("malformed kernel function name".to_owned());
    }
    let canonical: &String = match &evidence.canonical {
        Ok(path) => path,
        Err(error) => {
            let kind: &str = match bus {
                FunctionBus::Hid => "Hid",
                FunctionBus::Usb => "Usb",
            };
            return Err(
                joined3(joined("cannot resolve ", kind).as_str(), " function: ", error.as_str()),
            );
        },
    };
    let devices_root: &String = match &evidence.devices_root {
        Ok(path) => path,
        Err(error) => {
            return Err(joined("cannot resolve canonical sysfs root: ", error.as_str()));
        },
    };
    let bus_alias: &String = match &evidence.bus_alias {
        Ok(path) => path,
        Err(error) => {
            return Err(joined("cannot resolve canonical bus function alias: ", error.as_str()));
        },
    };
    if !is_same_path(bus_alias.as_str(), canonical.as_str()) || !is_within(
        canonical.as_str(),
        devices_root.as_str(),
    ) || !file_name_is(canonical.as_str(), expected_name) {
        return Err("function path is not the canonical fixed-bus sysfs function".to_owned());
    }
    match &evidence.is_dir {
        Ok(is_dir) => {
            if !*is_dir {
                return Err("validated function is not a directory".to_owned());
            }
        },
        Err(error) => {
            return Err(joined("cannot inspect function directory: ", error.as_str()));
        },
    }
    let subsystem: &String = match &evidence.subsystem {
        Ok(path) => path,
        Err(error) => {
            return Err(joined("cannot resolve function subsystem: ", error.as_str()));
        },
    };
    let subsystem_root: &String = match &evidence.subsystem_root {
        Ok(path) => path,
        Err(error) => {
            return Err(joined("cannot resolve expected function subsystem: ", error.as_str()));
        },
    };
    if !is_same_path(subsystem.as_str(), subsystem_root.as_str()) {
        return Err("function subsystem is not the expected HID/USB bus".to_owned());
    }
    let uevent = read_kv_file(as_str_opt(&evidence.uevent));
    check_uevent(bus, &uevent)?;
    Ok(canonical.clone())
}

// Properties of a function.
/// The attribute texts of a function and of its parent directory.
#[derive(Debug)]
pub struct FunctionReading {
    /// Last component of the resolved function path.
    pub function_name: String,
    pub uevent: Option<String>,
    /// Last component of the parent of the resolved function path.
    pub parent_name: String,
    pub parent_uevent: Option<String>,
    pub parent_serial: Option<String>,
    pub interface_class: Option<String>,
    pub interface_subclass: Option<String>,
    pub interface_protocol: Option<String>,
}

pub struct FunctionReadingModel {
    pub function_name: Seq<char>,
    pub uevent: Option<Seq<char>>,
    pub parent_name: Seq<char>,
    pub parent_uevent: Option<Seq<char>>,
    pub parent_serial: Option<Seq<char>>,
    pub interface_class: Option<Seq<char>>,
    pub interface_subclass: Option<Seq<char>>,
    pub interface_protocol: Option<Seq<char>>,
}

impl View for FunctionReading {
    type V = FunctionReadingModel;

    open spec fn view(&self) -> FunctionReadingModel {
        FunctionReadingModel {
            function_name: self.function_name@,
            uevent: opt_text(self.uevent),
            parent_name: self.parent_name@,
            parent_uevent: opt_text(self.parent_uevent),
            parent_serial: opt_text(self.parent_serial),
            interface_class: opt_text(self.interface_class),
            interface_subclass: opt_text(self.interface_subclass),
            interface_protocol: opt_text(self.interface_protocol),
        }
    }
}

pub open spec fn first_of<A>(a: Option<A>, b: Option<A>) -> Option<A> {
    if a is Some {
        a
    } else {
        b
    }
}

/// Properties of a USB interface: its own transport topology, and nothing of
/// the input device below it but the name.
pub open spec fn usb_properties(
    reading: FunctionReadingModel,
    fallback: Seq<(Seq<char>, Seq<char>)>,
) -> Seq<(Seq<char>, Seq<char>)> {
    let uevent = kv_pairs(reading.uevent);
    let parent = kv_pairs(reading.parent_uevent);
    let p = Seq::<(Seq<char>, Seq<char>)>::empty();
    let p = put(p, "name"@, text_of(fallback, "name"@));
    let p = put(p, "id"@, text_of(uevent, "PRODUCT"@));
    let p = put(p, "phys"@, reading.parent_name);
    let p = put(p, "uniq"@, Seq::empty());
    let p = put(p, "interface"@, reading.function_name);
    let p = put(p, "subsystem"@, "usb"@);
    let p = put_text(p, "devtype"@, lookup(uevent, "DEVTYPE"@));
    let p = put_text(p, "type"@, lookup(uevent, "TYPE"@));
    let p = put_text(p, "serial"@, first_of(reading.parent_serial, lookup(parent, "SERIAL"@)));
    let p = put_text(
        p,
        "busnum"@,
        first_of(lookup(uevent, "BUSNUM"@), lookup(parent, "BUSNUM"@)),
    );
    let p = put_text(
        p,
        "devnum"@,
        first_of(lookup(uevent, "DEVNUM"@), lookup(parent, "DEVNUM"@)),
    );
    let p = put_text(p, "interface_descriptor"@, lookup(uevent, "INTERFACE"@));
    let p = put_text(p, "interface_class"@, reading.interface_class);
    let p = put_text(p, "interface_subclass"@, reading.interface_subclass);
    let p = put_text(p, "interface_protocol"@, reading.interface_protocol);
    put_text(p, "product"@, lookup(uevent, "PRODUCT"@))
}

/// What a HID uevent says under a key, or else what is known already.
pub open spec fn hid_text(
    uevent: Seq<(Seq<char>, Seq<char>)>,
    key: Seq<char>,
    known: Seq<(Seq<char>, Seq<char>)>,
    name: Seq<char>,
) -> Seq<char> {
    match lookup(uevent, key) {
        Some(value) => value,
        None => text_of(known, name),
    }
}

pub open spec fn hid_properties(
    reading: FunctionReadingModel,
    fallback: Seq<(Seq<char>, Seq<char>)>,
) -> Seq<(Seq<char>, Seq<char>)> {
    let uevent = kv_pairs(reading.uevent);
    let p = fallback;
    let p = put(p, "id"@, hid_text(uevent, "HID_ID"@, p, "id"@));
    let p = put(p, "phys"@, hid_text(uevent, "HID_PHYS"@, p, "phys"@));
    let p = put(p, "uniq"@, hid_text(uevent, "HID_UNIQ"@, p, "uniq"@));
    let p = put(p, "name"@, hid_text(uevent, "HID_NAME"@, p, "name"@));
    let p = put_text(p, "hid_id"@, lookup(uevent, "HID_ID"@));
    let p = put_text(p, "hid_name"@, lookup(uevent, "HID_NAME"@));
    let p = put_text(p, "hid_phys"@, lookup(uevent, "HID_PHYS"@));
    put_text(p, "hid_uniq"@, lookup(uevent, "HID_UNIQ"@))
}

pub open spec fn properties_of(
    reading: FunctionReadingModel,
    fallback: Seq<(Seq<char>, Seq<char>)>,
) -> Seq<(Seq<char>, Seq<char>)> {
    if usb_interface_name(reading.function_name) {
        usb_properties(reading, fallback)
    } else {
        hid_properties(reading, fallback)
    }
}

fn either_text<'a>(a: Option<&'a str>, b: Option<&'a str>) -> (r: Option<&'a str>)
    ensures
        str_text(r) == first_of(str_text(a), str_text(b)),
{
    match a {
        Some(text) => Some(text),
        None => b,
    }
}

fn hid_or_known(uevent: &Properties, key: &str, known: &Properties, name: &str) -> (r: String)
    requires
        uevent.wf(),
        known.wf(),
    ensures
        r@ == hid_text(uevent@, key@, known@, name@),
{
    match uevent.find(key) {
        Some(value) => value.to_owned(),
        None => known.text(name).to_owned(),
    }
}

/// The properties that identify a function: those of a USB interface where the
/// function is named like one, those of a HID device otherwise.
pub fn function_properties(reading: &FunctionReading, fallback: &Properties) -> (r: Properties)
    requires
        fallback.wf(),
    ensures
        r.wf(),
        r@ == properties_of(reading@, fallback@),
{
    let uevent = read_kv_file(as_str_opt(&reading.uevent));
    if is_usb_interface_name(reading.function_name.as_str()) {
        let parent = read_kv_file(as_str_opt(&reading.parent_uevent));
        let mut p: Properties = Ordered::new();
        p.insert("name".to_owned(), fallback.text("name").to_owned());
        p.insert("id".to_owned(), uevent.text("PRODUCT").to_owned());
        p.insert("phys".to_owned(), reading.parent_name.clone());
        p.insert("uniq".to_owned(), String::new());
        p.insert("interface".to_owned(), reading.function_name.clone());
        p.insert("subsystem".to_owned(), "usb".to_owned());
        p.insert_text("devtype", uevent.find("DEVTYPE"));
        p.insert_text("type", uevent.find("TYPE"));
        p.insert_text(
            "serial",
            either_text(as_str_opt(&reading.parent_serial), parent.find("SERIAL")),
        );
        p.insert_text("busnum", either_text(uevent.find("BUSNUM"), parent.find("BUSNUM")));
        p.insert_text("devnum", either_text(uevent.find("DEVNUM"), parent.find("DEVNUM")));
        p.insert_text("interface_descriptor", uevent.find("INTERFACE"));
        p.insert_text("interface_class", as_str_opt(&reading.interface_class));
        p.insert_text("interface_subclass", as_str_opt(&reading.interface_subclass));
        p.insert_text("interface_protocol", as_str_opt(&reading.interface_protocol));
        p.insert_text("product", uevent.find("PRODUCT"));
        return p;
    }
    let mut p = fallback.copy();
    let id = hid_or_known(&uevent, "HID_ID", &p, "id");
    p.insert("id".to_owned(), id);
    let phys = hid_or_known(&uevent, "HID_PHYS", &p, "phys");
    p.insert("phys".to_owned(), phys);
    let uniq = hid_or_known(&uevent, "HID_UNIQ", &p, "uniq");
    p.insert("uniq".to_owned(), uniq);
    let name = hid_or_known(&uevent, "HID_NAME", &p, "name");
    p.insert("name".to_owned(), name);
    p.insert_text("hid_id", uevent.find("HID_ID"));
    p.insert_text("hid_name", uevent.find("HID_NAME"));
    p.insert_text("hid_phys", uevent.find("HID_PHYS"));
    p.insert_text("hid_uniq", uevent.find("HID_UNIQ"));
    p
}

// The function that owns an input device.
/// What an input device says about itself.
#[derive(Debug)]
pub struct InputReading {
    pub name: Option<String>,
    pub phys: Option<String>,
    pub uniq: Option<String>,
    pub bustype: Option<String>,
    pub vendor: Option<String>,
    pub product: Option<String>,
    pub version: Option<String>,
}

pub open spec fn input_properties(input: InputReading) -> Seq<(Seq<char>, Seq<char>)> {
    let p = Seq::<(Seq<char>, Seq<char>)>::empty();
    let p = put(
        p,
        "name"@,
        match input.name {
            Some(name) => name@,
            None => "Linux input device"@,
        },
    );
    let p = put(p, "phys"@, or_empty(opt_text(input.phys)));
    let p = put(p, "uniq"@, or_empty(opt_text(input.uniq)));
    put(
        p,
        "id"@,
        join(
            seq![
                or_empty(opt_text(input.bustype)),
                or_empty(opt_text(input.vendor)),
                or_empty(opt_text(input.product)),
                or_empty(opt_text(input.version)),
            ],
            ":"@,
        ),
    )
}

fn text_or(s: &Option<String>, other: &str) -> (r: String)
    ensures
        r@ == (match *s {
            Some(t) => t@,
            None => other@,
        }),
{
    match s {
        Some(t) => t.clone(),
        None => other.to_owned(),
    }
}

fn properties_of_input(input: &InputReading) -> (r: Properties)
    ensures
        r.wf(),
        r@ == input_properties(*input),
{
    proof {
        reveal_strlit("");
        assert(""@ == Seq::<char>::empty());
    }
    let mut p: Properties = Ordered::new();
    p.insert("name".to_owned(), text_or(&input.name, "Linux input device"));
    p.insert("phys".to_owned(), text_or(&input.phys, ""));
    p.insert("uniq".to_owned(), text_or(&input.uniq, ""));
    p.insert(
        "id".to_owned(),
        input_id(
            as_str_opt(&input.bustype),
            as_str_opt(&input.vendor),
            as_str_opt(&input.product),
            as_str_opt(&input.version),
        ),
    );
    p
}

/// The function of a directory that is named like one.  One whose place in
/// sysfs is in doubt is no function.
pub open spec fn function_at(
    bus: FunctionBus,
    name: Seq<char>,
    path: PathModel,
    reading: FunctionReadingModel,
    driver: Option<Seq<char>>,
    input: InputReading,
) -> Option<FunctionModel> {
    match path_check(bus, name, path) {
        Err(_) => None,
        Ok(_) => Some(
            FunctionModel {
                bus,
                id: name,
                driver,
                expected_driver: driver,
                properties: properties_of(reading, input_properties(input)),
            },
        ),
    }
}

pub fn owning_function(
    bus: FunctionBus,
    name: &str,
    path: &PathEvidence,
    reading: &FunctionReading,
    driver: &Option<String>,
    input: &InputReading,
) -> (r: Option<FunctionIdentity>)
    ensures
        opt_view(r) == function_at(bus, name@, path@, reading@, opt_text(*driver), *input),
        r matches Some(function) ==> function.wf(),
{
    match canonical_function_path(bus, name, path) {
        Err(_) => None,
        Ok(_) => Some(
            FunctionIdentity {
                bus,
                id: name.to_owned(),
                driver: copy_opt(driver),
                expected_driver: copy_opt(driver),
                properties: function_properties(reading, &properties_of_input(input)),
            },
        ),
    }
}

// A function that is on record but bound to no driver.
/// What looking up a recorded function brought.
#[derive(Debug)]
pub enum Presence {
    /// Nothing stands under the function's name.
    Missing(String),
    /// The name could not be inspected.
    Unreadable(String),
    /// Something stands there; whether it is a directory.
    Present(bool),
}

#[derive(Debug)]
pub struct UnboundReading {
    pub presence: Presence,
    pub path: PathEvidence,
    pub function: FunctionReading,
    pub driver: Option<String>,
}

pub enum PresenceModel {
    Missing(Seq<char>),
    Unreadable(Seq<char>),
    Present(bool),
}

pub struct UnboundModel {
    pub presence: PresenceModel,
    pub path: PathModel,
    pub function: FunctionReadingModel,
    pub driver: Option<Seq<char>>,
}

impl View for UnboundReading {
    type V = UnboundModel;

    open spec fn view(&self) -> UnboundModel {
        UnboundModel {
            presence: match self.presence {
                Presence::Missing(e) => PresenceModel::Missing(e@),
                Presence::Unreadable(e) => PresenceModel::Unreadable(e@),
                Presence::Present(dir) => PresenceModel::Present(dir),
            },
            path: self.path@,
            function: self.function@,
            driver: opt_text(self.driver),
        }
    }
}

pub open spec fn bus_from_text(bus: Seq<char>) -> FunctionBus {
    if bus == "hid"@ {
        FunctionBus::Hid
    } else {
        FunctionBus::Usb
    }
}

/// The bus and name of the function an identity stands for.
pub open spec fn target_of(identity: IdentityModel) -> Result<(FunctionBus, Seq<char>), Seq<char>> {
    match identity_check(identity) {
        Err(e) => Err(e),
        Ok(_) => {
            let fields = parsed_fields(identity.fingerprint)->0;
            Ok((bus_from_text(text_of(fields, "bus"@)), text_of(fields, "function"@)))
        },
    }
}

pub open spec fn pair_result(r: Result<(FunctionBus, String), String>) -> Result<
    (FunctionBus, Seq<char>),
    Seq<char>,
> {
    match r {
        Ok((bus, name)) => Ok((bus, name@)),
        Err(e) => Err(e@),
    }
}

/// The bus and kernel name to look up for a recorded identity.
pub fn unbound_target(identity: &Identity) -> (r: Result<(FunctionBus, String), String>)
    ensures
        pair_result(r) == target_of(identity@),
        r matches Ok((bus, name)) ==> function_name(bus_text(bus), name@),
{
    validate_identity(identity)?;
    let fields = match parse_fingerprint(identity.fingerprint.as_str()) {
        Some(fields) => fields,
        None => {
            return Err("malformed fingerprint".to_owned());
        },
    };
    let bus: FunctionBus = if same(fields.text("bus"), "hid") {
        FunctionBus::Hid
    } else {
        FunctionBus::Usb
    };
    Ok((bus, fields.text("function").to_owned()))
}

pub open spec fn presence_problem(presence: PresenceModel) -> Option<Seq<char>> {
    match presence {
        PresenceModel::Missing(e) => Some("function is not present: "@ + e),
        PresenceModel::Unreadable(e) => Some("cannot inspect function identity: "@ + e),
        PresenceModel::Present(dir) => if dir {
            None
        } else {
            Some("function identity is not a directory"@)
        },
    }
}

/// The function an identity stands for, as it is found now.
pub open spec fn unbound_function(identity: IdentityModel, reading: UnboundModel) -> Result<
    FunctionModel,
    Seq<char>,
> {
    match target_of(identity) {
        Err(e) => Err(e),
        Ok((bus, name)) => match presence_problem(reading.presence) {
            Some(problem) => Err(problem),
            None => match path_check(bus, name, reading.path) {
                Err(e) => Err(e),
                Ok(_) => {
                    let fields = parsed_fields(identity.fingerprint)->0;
                    let properties = properties_of(reading.function, Seq::empty());
                    match first_difference(compared_keys(bus), fields, properties) {
                        Some(difference) => Err(difference),
                        None => Ok(
                            FunctionModel {
                                bus,
                                id: name,
                                driver: reading.driver,
                                expected_driver: lookup(fields, "driver"@),
                                properties,
                            },
                        ),
                    }
                },
            },
        },
    }
}

pub open spec fn function_result(r: Result<FunctionIdentity, String>) -> Result<
    FunctionModel,
    Seq<char>,
> {
    match r {
        Ok(function) => Ok(function@),
        Err(e) => Err(e@),
    }
}

pub fn find_unbound_function(identity: &Identity, reading: &UnboundReading) -> (r: Result<
    FunctionIdentity,
    String,
>)
    ensures
        function_result(r) == unbound_function(identity@, reading@),
        r matches Ok(function) ==> function.wf(),
{
    let (bus, name) = unbound_target(identity)?;
    let fields = match parse_fingerprint(identity.fingerprint.as_str()) {
        Some(fields) => fields,
        None => {
            return Err("malformed fingerprint".to_owned());
        },
    };
    match &reading.presence {
        Presence::Missing(error) => {
            return Err(joined("function is not present: ", error.as_str()));
        },
        Presence::Unreadable(error) => {
            return Err(joined("cannot inspect function identity: ", error.as_str()));
        },
        Presence::Present(is_dir) => {
            if !*is_dir {
                return Err("function identity is not a directory".to_owned());
            }
        },
    }
    let path = canonical_function_path(bus, name.as_str(), &reading.path);
    match path {
        Err(error) => {
            return Err(error);
        },
        Ok(_) => {},
    }
    let fallback: Properties = Ordered::new();
    let properties = function_properties(&reading.function, &fallback);
    compare_properties(bus, &fields, &properties)?;
    let expected_driver = match fields.find("driver") {
        Some(driver) => Some(driver.to_owned()),
        None => None,
    };
    Ok(
        FunctionIdentity {
            bus,
            id: name,
            driver: copy_opt(&reading.driver),
            expected_driver,
            properties,
        },
    )
}

// Whether a function has left the machine.
/// The names that must all be missing before a recorded function counts as
/// gone: its own, and for a USB interface that of its device too.
pub open spec fn gone_paths(identity: IdentityModel) -> Option<Seq<Seq<char>>> {
    match target_of(identity) {
        Err(_) => None,
        Ok((FunctionBus::Hid, name)) => Some(seq![bus_root(FunctionBus::Hid) + "/"@ + name]),
        Ok((FunctionBus::Usb, name)) => match split_once(name, ':') {
            None => None,
            Some((device, _)) => Some(
                seq![
                    bus_root(FunctionBus::Usb) + "/"@ + name,
                    bus_root(FunctionBus::Usb) + "/"@ + device,
                ],
            ),
        },
    }
}

pub fn gone_probe_paths(identity: &Identity) -> (r: Option<Vec<String>>)
    ensures
        opt_texts(r) == gone_paths(identity@),
{
    match unbound_target(identity) {
        Err(_) => None,
        Ok((bus, name)) => {
            let root = joined(bus_devices(bus), "/");
            let mut paths: Vec<String> = Vec::new();
            paths.push(joined(root.as_str(), name.as_str()));
            match bus {
                FunctionBus::Hid => {
                    assert(crate::text::texts(paths@) == seq![bus_root(bus) + "/"@ + name@]);
                    Some(paths)
                },
                FunctionBus::Usb => match split_first(name.as_str(), ':') {
                    None => None,
                    Some((device, _)) => {
                        paths.push(joined(root.as_str(), device.as_str()));
                        assert(crate::text::texts(paths@) == seq![
                            bus_root(bus) + "/"@ + name@,
                            bus_root(bus) + "/"@ + device@,
                        ]);
                        Some(paths)
                    },
                },
            }
        },
    }
}

/// Whether the recorded function has left the machine, given for each of its
/// paths whether nothing stands there.
pub fn function_is_definitively_gone(identity: &Identity, missing: &[bool]) -> (r: bool)
    ensures
        r == (gone_paths(identity@) matches Some(paths) && missing@.len() == paths.len()
            && forall|i: int| 0 <= i < missing@.len() ==> #[trigger] missing@[i]),
{
    match gone_probe_paths(identity) {
        None => false,
        Some(paths) => {
            assert(crate::text::texts(paths@).len() == paths@.len());
            if paths.len() != missing.len() {
                return false;
            }
            let mut i: usize = 0;
            while i < missing.len()
                invariant
                    i <= missing@.len(),
                    forall|j: int| 0 <= j < i ==> #[trigger] missing@[j],
                decreases missing@.len() - i,
            {
                if !missing[i] {
                    return false;
                }
                i += 1;
            }
            true
        },
    }
}

// HID usage evidence.
/// The controller usage of a HID function, from its report descriptor.
pub open spec fn hid_usage(
    name: Seq<char>,
    path: PathModel,
    descriptor: Result<Seq<u8>, Seq<char>>,
) -> Result<(u16, u16), Seq<char>> {
    if !hid_name(name) {
        Err("malformed HID function identity"@)
    } else {
        match path_check(FunctionBus::Hid, name, path) {
            Err(e) => Err(e),
            Ok(_) => match descriptor {
                Err(e) => Err(e),
                Ok(bytes) => classified(bytes),
            },
        }
    }
}

pub open spec fn bytes_result(r: Result<Vec<u8>, String>) -> Result<Seq<u8>, Seq<char>> {
    match r {
        Ok(v) => Ok(v@),
        Err(e) => Err(e@),
    }
}

pub fn hid_descriptor_controller_usage(
    function_id: &str,
    path: &PathEvidence,
    descriptor: &Result<Vec<u8>, String>,
) -> (r: Result<(u16, u16), String>)
    ensures
        text_result(r) == hid_usage(function_id@, path@, bytes_result(*descriptor)),
{
    if !is_hid_name(function_id) {
        return Err("malformed HID function identity".to_owned());
    }
    match canonical_function_path(FunctionBus::Hid, function_id, path) {
        Err(error) => {
            return Err(error);
        },
        Ok(_) => {},
    }
    match descriptor {
        Err(error) => Err(error.clone()),
        Ok(bytes) => controller_usage(bytes.as_slice()),
    }
}

pub open spec fn number_field(
    fields: Seq<(Seq<char>, Seq<char>)>,
    key: Seq<char>,
) -> Option<nat> {
    match lookup(fields, key) {
        Some(text) => parsed(text, 10, 0xffff),
        None => None,
    }
}

/// Whether a HID function still has the usage that is on record.
pub open spec fn usage_check(
    fields: Seq<(Seq<char>, Seq<char>)>,
    actual: Result<(u16, u16), Seq<char>>,
) -> Result<(), Seq<char>> {
    match (number_field(fields, "usage_page"@), number_field(fields, "usage"@)) {
        (None, _) => Err("missing HID usage-page evidence"@),
        (_, None) => Err("missing HID usage evidence"@),
        (Some(page), Some(usage)) => match actual {
            Err(e) => Err(e),
            Ok((actual_page, actual_usage)) => if page != actual_page || usage != actual_usage {
                Err("HID report usage changed since enumeration"@)
            } else {
                Ok(())
            },
        },
    }
}

fn read_number(fields: &Properties, key: &str) -> (r: Option<u64>)
    requires
        fields.wf(),
    ensures
        r == (match number_field(fields@, key@) {
            Some(n) => Some(n as u64),
            None => None,
        }),
        number_field(fields@, key@) matches Some(n) ==> n <= 0xffff,
{
    match fields.find(key) {
        Some(text) => parse_number(text, 10, 0xffff),
        None => None,
    }
}

pub fn verify_hid_descriptor_identity(
    fields: &Properties,
    actual: &Result<(u16, u16), String>,
) -> (r: Result<(), String>)
    requires
        fields.wf(),
    ensures
        text_result(r) == usage_check(fields@, text_result(*actual)),
{
    let page = match read_number(fields, "usage_page") {
        Some(page) => page,
        None => {
            return Err("missing HID usage-page evidence".to_owned());
        },
    };
    let usage = match read_number(fields, "usage") {
        Some(usage) => usage,
        None => {
            return Err("missing HID usage evidence".to_owned());
        },
    };
    match actual {
        Err(error) => Err(error.clone()),
        Ok((actual_page, actual_usage)) => {
            if page != *actual_page as u64 || usage != *actual_usage as u64 {
                Err("HID report usage changed since enumeration".to_owned())
            } else {
                Ok(())
            }
        },
    }
}

// Binding and unbinding.
#[derive(Debug)]
pub struct FunctionError {
    pub message: String,
}

pub open spec fn error_text<T>(r: Result<T, FunctionError>) -> Result<T, Seq<char>> {
    match r {
        Ok(v) => Ok(v),
        Err(e) => Err(e.message@),
    }
}

fn fail<T>(message: &str) -> (r: Result<T, FunctionError>)
    ensures
        error_text(r) == Err::<T, Seq<char>>(message@),
{
    Err(FunctionError { message: message.to_owned() })
}

/// An I/O error as the error of a function.
pub fn map_io_error(error: &str) -> (r: FunctionError)
    ensures
        r.message@ == error@,
{
    FunctionError { message: error.to_owned() }
}

#[derive(Clone, Copy, Debug, PartialEq, Eq, Structural)]
pub enum Operation {
    Unbind,
    Bind,
}

/// How a function is taken from or given to its driver.
#[derive(Debug)]
pub enum BindingStep {
    /// Write the function's name to the driver's bind or unbind file.
    Write { driver: String, operation: Operation },
    /// Set the authorization of the USB interface.
    Authorize { enabled: bool },
}

pub enum StepModel {
    Write { driver: Seq<char>, operation: Operation },
    Authorize { enabled: bool },
}

impl View for BindingStep {
    type V = StepModel;

    open spec fn view(&self) -> StepModel {
        match self {
            BindingStep::Write { driver, operation } => StepModel::Write {
                driver: driver@,
                operation: *operation,
            },
            BindingStep::Authorize { enabled } => StepModel::Authorize { enabled: *enabled },
        }
    }
}

pub open spec fn step_result(r: Result<BindingStep, FunctionError>) -> Result<
    StepModel,
    Seq<char>,
> {
    match r {
        Ok(step) => Ok(step@),
        Err(e) => Err(e.message@),
    }
}

/// An approved driver is written to; `xpad` on USB is authorized instead.
pub open spec fn step_for(
    function: FunctionModel,
    driver: Seq<char>,
    operation: Operation,
) -> Result<StepModel, Seq<char>> {
    if !approved_driver(driver) {
        Err(
            "kernel driver "@ + debug_form(driver)
                + " is not approved for controller function control"@,
        )
    } else if function.bus == FunctionBus::Usb && driver == "xpad"@ {
        Ok(StepModel::Authorize { enabled: operation == Operation::Bind })
    } else {
        Ok(StepModel::Write { driver, operation })
    }
}

pub open spec fn unbind_step(function: FunctionModel) -> Result<StepModel, Seq<char>> {
    match function.driver {
        None => Err("controller function has no bound kernel driver"@),
        Some(driver) => step_for(function, driver, Operation::Unbind),
    }
}

pub open spec fn bind_step(function: FunctionModel) -> Result<StepModel, Seq<char>> {
    match any_driver(function) {
        None => Err("persisted controller function has no approved driver"@),
        Some(driver) => step_for(function, driver, Operation::Bind),
    }
}

fn choose_step(function: &FunctionIdentity, driver: &str, operation: Operation) -> (r: Result<
    BindingStep,
    FunctionError,
>)
    ensures
        step_result(r) == step_for(function@, driver@, operation),
{
    if !safe_driver(driver) {
        return Err(
            FunctionError {
                message: joined3(
                    "kernel driver ",
                    debug_text(driver).as_str(),
                    " is not approved for controller function control",
                ),
            },
        );
    }
    if function.bus == FunctionBus::Usb && same(driver, "xpad") {
        return Ok(BindingStep::Authorize { enabled: operation == Operation::Bind });
    }
    Ok(BindingStep::Write { driver: driver.to_owned(), operation })
}

/// The step that takes a function from its driver.
pub fn unbind(function: &FunctionIdentity) -> (r: Result<BindingStep, FunctionError>)
    ensures
        step_result(r) == unbind_step(function@),
{
    match &function.driver {
        None => fail("controller function has no bound kernel driver"),
        Some(driver) => choose_step(function, driver.as_str(), Operation::Unbind),
    }
}

/// The step that gives a function to its driver.
pub fn bind(function: &FunctionIdentity) -> (r: Result<BindingStep, FunctionError>)
    ensures
        step_result(r) == bind_step(function@),
{
    match function.any_driver() {
        None => fail("persisted controller function has no approved driver"),
        Some(driver) => choose_step(function, driver, Operation::Bind),
    }
}

pub open spec fn drivers_root(bus: FunctionBus) -> Seq<char> {
    match bus {
        FunctionBus::Hid => "/sys/bus/hid/drivers"@,
        FunctionBus::Usb => "/sys/bus/usb/drivers"@,
    }
}

/// The paths of a write to a driver: the fixed root, the driver's directory
/// below it, and the file in that directory.
#[derive(Debug)]
pub struct BindingPaths {
    pub root: String,
    pub driver: String,
    pub file: String,
}

pub open spec fn operation_text(operation: Operation) -> Seq<char> {
    match operation {
        Operation::Unbind => "unbind"@,
        Operation::Bind => "bind"@,
    }
}

pub fn write_binding(
    bus: FunctionBus,
    driver: &str,
    operation: Operation,
    function_id: &str,
) -> (r: Result<BindingPaths, FunctionError>)
    ensures
        match r {
            Ok(paths) => {
                &&& driver_token(driver@) && function_name(bus_text(bus), function_id@)
                &&& paths.root@ == drivers_root(bus)
                &&& paths.driver@ == drivers_root(bus) + "/"@ + driver@
                &&& paths.file@ == drivers_root(bus) + "/"@ + driver@ + "/"@ + operation_text(
                    operation,
                )
            },
            Err(e) => {
                &&& !(driver_token(driver@) && function_name(bus_text(bus), function_id@))
                &&& e.message@ == "validated kernel function token rejected"@
            },
        },
{
    if !valid_driver_token(driver) || !valid_function_name(bus.as_str(), function_id) {
        return fail("validated kernel function token rejected");
    }
    let root: &str = match bus {
        FunctionBus::Hid => "/sys/bus/hid/drivers",
        FunctionBus::Usb => "/sys/bus/usb/drivers",
    };
    let name: &str = match operation {
        Operation::Unbind => "unbind",
        Operation::Bind => "bind",
    };
    let directory = joined3(root, "/", driver);
    let file = joined3(directory.as_str(), "/", name);
    Ok(BindingPaths { root: root.to_owned(), driver: directory, file })
}

/// Whether the resolved driver directory still lies below the fixed root.
pub fn check_driver_path(
    canonical_root: &Result<String, String>,
    canonical_driver: &Result<String, String>,
) -> (r: Result<(), FunctionError>)
    ensures
        error_text(r) == (match (view_result(*canonical_root), view_result(*canonical_driver)) {
            (Err(e), _) => Err("cannot verify kernel driver root: "@ + e),
            (_, Err(e)) => Err("approved kernel driver is unavailable: "@ + e),
            (Ok(root), Ok(driver)) => if path_within(driver, root) {
                Ok::<(), Seq<char>>(())
            } else {
                Err("kernel driver path escaped the fixed sysfs root"@)
            },
        }),
{
    let root = match canonical_root {
        Ok(root) => root,
        Err(error) => {
            return fail(joined("cannot verify kernel driver root: ", error.as_str()).as_str());
        },
    };
    let driver = match canonical_driver {
        Ok(driver) => driver,
        Err(error) => {
            return fail(joined("approved kernel driver is unavailable: ", error.as_str()).as_str());
        },
    };
    if !is_within(driver.as_str(), root.as_str()) {
        return fail("kernel driver path escaped the fixed sysfs root");
    }
    Ok(())
}

// File metadata.
/// What the system says about an open file.
#[derive(Clone, Copy, Debug, PartialEq, Eq, Structural)]
pub struct FileMetadata {
    pub is_dir: bool,
    pub is_file: bool,
    pub uid: u32,
    pub mode: u32,
}

/// Owned by root and writable by nobody else.
pub open spec fn root_only(metadata: FileMetadata) -> bool {
    metadata.uid == 0 && metadata.mode & 0o022 == 0
}

pub fn validate_directory(metadata: &Result<FileMetadata, String>, path: &str) -> (r: Result<
    (),
    String,
>)
    ensures
        text_result(r) == (match text_result(*metadata) {
            Err(e) => Err("cannot inspect "@ + path@ + (": "@ + e)),
            Ok(m) => if m.is_dir && root_only(m) {
                Ok::<(), Seq<char>>(())
            } else {
                Err(path@ + " is not a root-owned non-writable directory"@)
            },
        }),
{
    match metadata {
        Err(error) => Err(
            joined3("cannot inspect ", path, joined(": ", error.as_str()).as_str()),
        ),
        Ok(m) => {
            if !m.is_dir || m.uid != 0 || m.mode & 0o022 != 0 {
                Err(joined(path, " is not a root-owned non-writable directory"))
            } else {
                Ok(())
            }
        },
    }
}

pub fn validate_regular_file(metadata: &Result<FileMetadata, String>, path: &str) -> (r: Result<
    (),
    String,
>)
    ensures
        text_result(r) == (match text_result(*metadata) {
            Err(e) => Err("cannot inspect "@ + path@ + (": "@ + e)),
            Ok(m) => if m.is_file && root_only(m) {
                Ok::<(), Seq<char>>(())
            } else {
                Err(path@ + " is not a root-owned non-writable regular file"@)
            },
        }),
{
    match metadata {
        Err(error) => Err(
            joined3("cannot inspect ", path, joined(": ", error.as_str()).as_str()),
        ),
        Ok(m) => {
            if !m.is_file || m.uid != 0 || m.mode & 0o022 != 0 {
                Err(joined(path, " is not a root-owned non-writable regular file"))
            } else {
                Ok(())
            }
        },
    }
}

// Authorizing a USB interface.
/// What was read of the interface before its authorization is changed.
#[derive(Debug)]
pub struct AuthorizationEvidence {
    pub path: PathEvidence,
    /// The opened interface directory.
    pub directory: Result<FileMetadata, String>,
    /// Canonical path of the opened directory.
    pub pinned: Result<String, String>,
    /// Attributes read through the opened directory.
    pub function: FunctionReading,
}

pub struct AuthorizationModel {
    pub path: PathModel,
    pub directory: Result<FileMetadata, Seq<char>>,
    pub pinned: Result<Seq<char>, Seq<char>>,
    pub function: FunctionReadingModel,
}

impl View for AuthorizationEvidence {
    type V = AuthorizationModel;

    open spec fn view(&self) -> AuthorizationModel {
        AuthorizationModel {
            path: self.path@,
            directory: text_result(self.directory),
            pinned: view_result(self.pinned),
            function: self.function@,
        }
    }
}

/// What to write to the `authorized` file, and whether the interface has to be
/// probed afterwards.
#[derive(Clone, Copy, Debug, PartialEq, Eq, Structural)]
pub struct AuthorizationPlan {
    pub value: char,
    pub probe: bool,
}

pub open spec fn directory_problem(
    metadata: Result<FileMetadata, Seq<char>>,
    path: Seq<char>,
) -> Option<Seq<char>> {
    match metadata {
        Err(e) => Some("cannot inspect "@ + path + (": "@ + e)),
        Ok(m) => if m.is_dir && root_only(m) {
            None
        } else {
            Some(path + " is not a root-owned non-writable directory"@)
        },
    }
}

/// Whether a function is one whose authorization may be changed at all.
pub open spec fn authorization_admitted(function: FunctionModel) -> Result<(), Seq<char>> {
    if function.bus != FunctionBus::Usb || !usb_interface_name(function.id) {
        Err("USB interface identity failed strict validation"@)
    } else if any_driver(function) != Some("xpad"@) {
        Err("USB authorization is restricted to the approved xpad driver"@)
    } else {
        Ok(())
    }
}

pub fn admit_authorization(function: &FunctionIdentity) -> (r: Result<(), FunctionError>)
    ensures
        error_text(r) == authorization_admitted(function@),
{
    if function.bus != FunctionBus::Usb || !is_usb_interface_name(function.id.as_str()) {
        return fail("USB interface identity failed strict validation");
    }
    let xpad = match function.any_driver() {
        Some(driver) => same(driver, "xpad"),
        None => false,
    };
    if !xpad {
        return fail("USB authorization is restricted to the approved xpad driver");
    }
    Ok(())
}

/// The checks before the authorization of an interface may be changed.
pub open spec fn authorization_check(
    function: FunctionModel,
    enabled: bool,
    evidence: AuthorizationModel,
) -> Result<AuthorizationPlan, Seq<char>> {
    if authorization_admitted(function) is Err {
        Err(authorization_admitted(function)->Err_0)
    } else {
        match path_check(FunctionBus::Usb, function.id, evidence.path) {
            Err(e) => Err(e),
            Ok(canonical) => match directory_problem(evidence.directory, canonical) {
                Some(problem) => Err(problem),
                None => match evidence.pinned {
                    Err(e) => Err("cannot pin USB interface identity: "@ + e),
                    Ok(pinned) => if !same_path(pinned, canonical) {
                        Err("USB interface changed while being authorized"@)
                    } else {
                        match first_difference(
                            compared_keys(FunctionBus::Usb),
                            function.properties,
                            properties_of(evidence.function, Seq::empty()),
                        ) {
                            Some(difference) => Err(difference),
                            None => Ok(
                                AuthorizationPlan {
                                    value: if enabled {
                                        '1'
                                    } else {
                                        '0'
                                    },
                                    probe: enabled,
                                },
                            ),
                        }
                    },
                },
            },
        }
    }
}

pub fn authorize_usb_interface(
    function: &FunctionIdentity,
    enabled: bool,
    evidence: &AuthorizationEvidence,
) -> (r: Result<AuthorizationPlan, FunctionError>)
    requires
        function.wf(),
    ensures
        error_text(r) == authorization_check(function@, enabled, evidence@),
{
    match admit_authorization(function) {
        Ok(_) => {},
        Err(error) => {
            return Err(error);
        },
    }
    let canonical = match canonical_function_path(
        FunctionBus::Usb,
        function.id.as_str(),
        &evidence.path,
    ) {
        Ok(path) => path,
        Err(message) => {
            return Err(FunctionError { message });
        },
    };
    match validate_directory(&evidence.directory, canonical.as_str()) {
        Ok(_) => {},
        Err(message) => {
            return Err(FunctionError { message });
        },
    }
    match &evidence.pinned {
        Err(error) => {
            return fail(joined("cannot pin USB interface identity: ", error.as_str()).as_str());
        },
        Ok(pinned) => {
            if !is_same_path(pinned.as_str(), canonical.as_str()) {
                return fail("USB interface changed while being authorized");
            }
        },
    }
    let fallback: Properties = Ordered::new();
    let current = function_properties(&evidence.function, &fallback);
    match compare_properties(FunctionBus::Usb, &function.properties, &current) {
        Ok(_) => {},
        Err(message) => {
            return Err(FunctionError { message });
        },
    }
    let value: char = if enabled {
        '1'
    } else {
        '0'
    };
    Ok(AuthorizationPlan { value, probe: enabled })
}

/// Whether the authorization that was read back is the one that was written.
pub fn authorization_settled(observed: &str, enabled: bool) -> (r: Result<(), FunctionError>)
    ensures
        error_text(r) == ({
            let value = if enabled {
                "1"@
            } else {
                "0"@
            };
            if trimmed(observed@) == value {
                Ok::<(), Seq<char>>(())
            } else {
                Err("USB interface authorization did not settle at "@ + value)
            }
        }),
{
    let value: &str = if enabled {
        "1"
    } else {
        "0"
    };
    if !same(trim_ends(observed, Cut::Space).as_str(), value) {
        return fail(joined("USB interface authorization did not settle at ", value).as_str());
    }
    Ok(())
}

/// No step is ever taken with a driver that is not approved.
pub proof fn only_approved_drivers_are_touched(function: FunctionModel)
    ensures
        unbind_step(function) is Ok ==> approved_driver(function.driver->0),
        bind_step(function) is Ok ==> approved_driver(any_driver(function)->0),
{
}

/// A function that was taken from its driver is given back by the matching
/// step, once the driver that was bound is the one on record.
pub proof fn bind_reverses_unbind(function: FunctionModel)
    requires
        unbind_step(function) is Ok,
    ensures
        bind_step(
            FunctionModel { driver: None, expected_driver: function.driver, ..function },
        ) == (match unbind_step(function)->Ok_0 {
            StepModel::Write { driver, operation } => Ok::<StepModel, Seq<char>>(
                StepModel::Write { driver, operation: Operation::Bind },
            ),
            StepModel::Authorize { enabled } => Ok(StepModel::Authorize { enabled: true }),
        }),
{
}

} // verus!
