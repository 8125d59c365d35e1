//! The device interfaces that the system lists, and the evidence they give.
use crate::devnode::{
    next_index, no_evidence, with_interface, AggregateModel, HidAggregate,
    ERROR_INSUFFICIENT_BUFFER, ERROR_NO_MORE_ITEMS,
};
use crate::platform::{ErrorModel, PlatformError};
use crate::text::{decimal, decimal_of, joined3, text_result, texts};
use crate::wide_text::{error_text, format_error_code, lossy_text, utf16_text};
use std::collections::BTreeMap;
use std::collections::BTreeSet;
use vstd::prelude::*;

verus! {

/// Where the path starts in the detail of an interface.
pub const PATH_START: usize = 4;

/// The most bytes that the detail of an interface may have.
pub const MAX_DETAIL_BYTES: u32 = 1_048_576;

#[derive(Clone, Copy, Debug, PartialEq, Eq, Structural)]
pub enum InterfaceKind {
    Hid,
    Xusb,
}

pub open spec fn kind_name(kind: InterfaceKind) -> Seq<char> {
    match kind {
        InterfaceKind::Hid => "HID"@,
        InterfaceKind::Xusb => "XUSB"@,
    }
}

fn name_of(kind: InterfaceKind) -> (r: String)
    ensures
        r@ == kind_name(kind),
{
    match kind {
        InterfaceKind::Hid => "HID".to_owned(),
        InterfaceKind::Xusb => "XUSB".to_owned(),
    }
}

pub open spec fn about(kind: InterfaceKind, index: u32, message: Seq<char>) -> Seq<char> {
    kind_name(kind) + " interface "@ + decimal(index as nat) + ": "@ + message
}

fn tell(kind: InterfaceKind, index: u32, message: &str) -> (r: String)
    ensures
        r@ == about(kind, index, message@),
{
    let mut out = name_of(kind);
    out.append(" interface ");
    out.append(decimal_of(index as u64).as_str());
    out.append(": ");
    out.append(message);
    out
}

/// How large the detail of an interface is.
pub open spec fn detail_size(
    kind: InterfaceKind,
    index: u32,
    first: i32,
    required: u32,
    error: u32,
    detail: Seq<u16>,
) -> Result<u32, Seq<char>> {
    if first != 0 || required == 0 || required > MAX_DETAIL_BYTES || error
        != ERROR_INSUFFICIENT_BUFFER {
        Err(
            about(
                kind,
                index,
                error_text("SetupDiGetDeviceInterfaceDetailW sizing"@, error, detail),
            ),
        )
    } else if required < PATH_START {
        Err(
            about(
                kind,
                index,
                "SetupDiGetDeviceInterfaceDetailW returned a truncated detail buffer"@,
            ),
        )
    } else {
        Ok(required)
    }
}

/// `first`, `required` and `error` are the outcome of asking without a buffer,
/// `detail` what the system says of the error.
pub fn interface_size(
    kind: InterfaceKind,
    index: u32,
    first: i32,
    required: u32,
    error: u32,
    detail: &[u16],
) -> (r: Result<u32, String>)
    ensures
        text_result(r) == detail_size(kind, index, first, required, error, detail@),
        r matches Ok(size) ==> PATH_START <= size <= MAX_DETAIL_BYTES,
{
    if first != 0 || required == 0 || required > MAX_DETAIL_BYTES || error
        != ERROR_INSUFFICIENT_BUFFER {
        let said = format_error_code("SetupDiGetDeviceInterfaceDetailW sizing", error, detail);
        return Err(tell(kind, index, said.as_str()));
    }
    if (required as usize) < PATH_START {
        return Err(
            tell(
                kind,
                index,
                "SetupDiGetDeviceInterfaceDetailW returned a truncated detail buffer",
            ),
        );
    }
    Ok(required)
}

pub open spec fn detail_refused(
    kind: InterfaceKind,
    index: u32,
    error: u32,
    detail: Seq<u16>,
) -> Seq<char> {
    about(kind, index, error_text("SetupDiGetDeviceInterfaceDetailW"@, error, detail))
}

/// What is said when the detail of an interface could not be read.
pub fn interface_failure(kind: InterfaceKind, index: u32, error: u32, detail: &[u16]) -> (r: String)
    ensures
        r@ == detail_refused(kind, index, error, detail@),
{
    let said = format_error_code("SetupDiGetDeviceInterfaceDetailW", error, detail);
    tell(kind, index, said.as_str())
}

// The path of an interface.
/// The units of a path: pairs of bytes, the low byte first.
pub open spec fn path_units(detail: Seq<u8>) -> Seq<u16> {
    Seq::new(
        ((detail.len() - PATH_START) / 2) as nat,
        |i: int| (detail[PATH_START + 2 * i] + 256 * detail[PATH_START + 2 * i + 1]) as u16,
    )
}

/// A path is what stands before the first zero unit; without one it must fill
/// the detail to the last byte.
pub open spec fn path_of(index: u32, devinst: u32, detail: Seq<u8>) -> Result<
    Seq<char>,
    ErrorModel,
> {
    let units = path_units(detail);
    let end = crate::devnode::first_zero(units) as int;
    if end == 0 || (end == units.len() && detail.len() % 2 != 0) {
        Err(
            ErrorModel::OperationFailed(
                "HID interface "@ + decimal(index as nat) + " devinst "@ + decimal(devinst as nat)
                    + " returned a malformed device path"@,
            ),
        )
    } else {
        Ok(utf16_text(units.take(end)))
    }
}

pub fn interface_path(index: u32, devinst: u32, detail: &[u8]) -> (r: Result<
    String,
    PlatformError,
>)
    requires
        detail@.len() >= PATH_START,
    ensures
        crate::platform::platform_result(r) == path_of(index, devinst, detail@),
{
    let mut units: Vec<u16> = Vec::new();
    let mut at: usize = PATH_START;
    let mut ended = false;
    let ghost all = path_units(detail@);
    while !ended && detail.len() - at >= 2
        invariant
            PATH_START <= at <= detail@.len(),
            all == path_units(detail@),
            at == PATH_START + 2 * units@.len(),
            units@.len() <= all.len(),
            units@ == all.take(units@.len() as int),
            forall|i: int| 0 <= i < units@.len() ==> units@[i] != 0,
            ended ==> units@.len() < all.len() && all[units@.len() as int] == 0,
        decreases
            detail@.len() - at,
            if ended {
                0int
            } else {
                1
            },
    {
        let unit: u16 = detail[at] as u16 + 256 * detail[at + 1] as u16;
        assert(all[units@.len() as int] == unit);
        if unit == 0 {
            ended = true;
        } else {
            units.push(unit);
            at += 2;
        }
    }
    proof {
        assert forall|i: int| 0 <= i < units@.len() implies all[i] != 0 by {
            assert(all[i] == units@[i]);
        }
        crate::devnode::lemma_first_zero(all, units@.len() as int);
    }
    if units.len() == 0 || (!ended && detail.len() % 2 != 0) {
        let mut out = joined3(
            "HID interface ",
            decimal_of(index as u64).as_str(),
            " devinst ",
        );
        out.append(decimal_of(devinst as u64).as_str());
        out.append(" returned a malformed device path");
        return Err(PlatformError::OperationFailed(out));
    }
    Ok(lossy_text(units.as_slice()))
}

// Evidence per node.
/// The evidence of a map, as plain values.
pub open spec fn evidence(map: Map<u32, HidAggregate>) -> Map<u32, AggregateModel> {
    map.map_values(|a: HidAggregate| a@)
}

/// What is known of a node so far.
pub open spec fn known(map: Map<u32, AggregateModel>, devinst: u32) -> AggregateModel {
    if map.contains_key(devinst) {
        map[devinst]
    } else {
        no_evidence()
    }
}

pub open spec fn observed(
    map: Map<u32, AggregateModel>,
    devinst: u32,
    inspection: Result<(u16, u16, bool), Seq<char>>,
) -> Map<u32, AggregateModel> {
    match inspection {
        Ok((usage_page, usage, mixed)) => map.insert(
            devinst,
            with_interface(known(map, devinst), usage_page, usage, mixed),
        ),
        Err(_) => map.insert(
            devinst,
            (AggregateModel { mixed: true, ..known(map, devinst) }),
        ),
    }
}

/// What is noted of an interface that could not be inspected.
pub open spec fn inspection_errors(
    errors: Seq<Seq<char>>,
    index: u32,
    devinst: u32,
    inspection: Result<(u16, u16, bool), Seq<char>>,
) -> Seq<Seq<char>> {
    match inspection {
        Ok(_) => errors,
        Err(e) => errors.push(
            "HID interface "@ + decimal(index as nat) + " devinst "@ + decimal(devinst as nat)
                + " could not be inspected: "@ + e,
        ),
    }
}

/// Integers are ordered as the map needs its keys.
pub proof fn lemma_u32_keys()
    ensures
        vstd::laws_cmp::obeys_cmp::<u32>(),
{
    broadcast use vstd::laws_cmp::group_laws_cmp;

}

/// Takes the inspection of one HID interface into the evidence.
pub fn observe_hid(
    observations: &mut BTreeMap<u32, HidAggregate>,
    errors: &mut Vec<String>,
    index: u32,
    devinst: u32,
    inspection: Result<(u16, u16, bool), String>,
)
    ensures
        evidence(final(observations)@) == observed(
            evidence(old(observations)@),
            devinst,
            text_result(inspection),
        ),
        texts(final(errors)@) == inspection_errors(
            texts(old(errors)@),
            index,
            devinst,
            text_result(inspection),
        ),
{
    proof {
        lemma_u32_keys();
    }
    let ghost before = observations@;
    let mut aggregate = match observations.remove(&devinst) {
        Some(aggregate) => aggregate,
        None => HidAggregate::new(),
    };
    assert(aggregate@ == known(evidence(before), devinst));
    match inspection {
        Ok((usage_page, usage, mixed)) => {
            aggregate.add(usage_page, usage, mixed);
        },
        Err(error) => {
            aggregate.mark_inspection_failed();
            let mut out = joined3(
                "HID interface ",
                decimal_of(index as u64).as_str(),
                " devinst ",
            );
            out.append(decimal_of(devinst as u64).as_str());
            out.append(" could not be inspected: ");
            out.append(error.as_str());
            let ghost held = texts(errors@);
            errors.push(out);
            assert(texts(errors@) == held.push(out@));
        },
    }
    observations.insert(devinst, aggregate);
    assert(evidence(observations@) =~= evidence(before).insert(devinst, aggregate@));
}

/// A failed inspection leaves a node that is no longer a controller alone.
pub proof fn failed_inspection_blocks_control(
    map: Map<u32, AggregateModel>,
    devinst: u32,
    message: Seq<char>,
)
    ensures
        observed(map, devinst, Err(message)).contains_key(devinst),
        !crate::devnode::controller_only(observed(map, devinst, Err(message))[devinst]),
{
}

// Collecting.
/// What the system answered while its interfaces were listed.  `said` is its
/// text for the error.
#[derive(Debug)]
pub enum InterfaceEvent {
    /// The next interface was asked for.
    Listed { ok: i32, error: u32, said: Vec<u16> },
    /// The size of its detail was asked for.
    Sized { first: i32, required: u32, error: u32, said: Vec<u16> },
    /// Its detail was read.
    Read { ok: i32, error: u32, said: Vec<u16>, devinst: u32, detail: Vec<u8> },
    /// The path in its detail was inspected.
    Inspected { devinst: u32, inspection: Result<(u16, u16, bool), String> },
}

/// What the system is asked next.
#[derive(Debug)]
pub enum InterfaceNext {
    List(u32),
    Size,
    Read(u32),
    Inspect(u32, String),
    Done,
    Failed(PlatformError),
}

pub enum NextModel {
    List(u32),
    Size,
    Read(u32),
    Inspect(u32, Seq<char>),
    Done,
    Failed(ErrorModel),
}

impl View for InterfaceNext {
    type V = NextModel;

    open spec fn view(&self) -> NextModel {
        match self {
            InterfaceNext::List(index) => NextModel::List(*index),
            InterfaceNext::Size => NextModel::Size,
            InterfaceNext::Read(size) => NextModel::Read(*size),
            InterfaceNext::Inspect(devinst, path) => NextModel::Inspect(*devinst, path@),
            InterfaceNext::Done => NextModel::Done,
            InterfaceNext::Failed(e) => NextModel::Failed(e@),
        }
    }
}

/// A detail that was read has room for its path.
pub open spec fn event_ok(event: InterfaceEvent) -> bool {
    event matches InterfaceEvent::Read { detail, .. } ==> detail@.len() >= PATH_START
}

/// The HID interfaces so far.
#[derive(Debug)]
pub struct HidCollection {
    pub observations: BTreeMap<u32, HidAggregate>,
    pub errors: Vec<String>,
    pub index: u32,
}

pub struct HidCollectionModel {
    pub observations: Map<u32, AggregateModel>,
    pub errors: Seq<Seq<char>>,
    pub index: u32,
}

impl View for HidCollection {
    type V = HidCollectionModel;

    open spec fn view(&self) -> HidCollectionModel {
        HidCollectionModel {
            observations: evidence(self.observations@),
            errors: texts(self.errors@),
            index: self.index,
        }
    }
}

/// One step of listing the HID interfaces.  Anything but an inspection that
/// fails ends the listing with an error.
pub open spec fn hid_step(m: HidCollectionModel, event: InterfaceEvent) -> (
    HidCollectionModel,
    NextModel,
) {
    match event {
        InterfaceEvent::Listed { ok, error, said } => if ok != 0 {
            (m, NextModel::Size)
        } else if error == ERROR_NO_MORE_ITEMS {
            (m, NextModel::Done)
        } else {
            (
                m,
                NextModel::Failed(
                    ErrorModel::OperationFailed(
                        error_text("SetupDiEnumDeviceInterfaces(HID)"@, error, said@),
                    ),
                ),
            )
        },
        InterfaceEvent::Sized { first, required, error, said } => match detail_size(
            InterfaceKind::Hid,
            m.index,
            first,
            required,
            error,
            said@,
        ) {
            Ok(size) => (m, NextModel::Read(size)),
            Err(message) => (m, NextModel::Failed(ErrorModel::OperationFailed(message))),
        },
        InterfaceEvent::Read { ok, error, said, devinst, detail } => if ok == 0 {
            (
                m,
                NextModel::Failed(
                    ErrorModel::OperationFailed(
                        detail_refused(InterfaceKind::Hid, m.index, error, said@),
                    ),
                ),
            )
        } else {
            match path_of(m.index, devinst, detail@) {
                Ok(path) => (m, NextModel::Inspect(devinst, path)),
                Err(e) => (m, NextModel::Failed(e)),
            }
        },
        InterfaceEvent::Inspected { devinst, inspection } => (
            HidCollectionModel {
                observations: observed(m.observations, devinst, text_result(inspection)),
                errors: inspection_errors(m.errors, m.index, devinst, text_result(inspection)),
                index: next_index(m.index),
            },
            NextModel::List(next_index(m.index)),
        ),
    }
}

impl HidCollection {
    pub fn new() -> (r: Self)
        ensures
            r@ == (HidCollectionModel {
                observations: Map::empty(),
                errors: Seq::empty(),
                index: 0,
            }),
    {
        let r = HidCollection { observations: BTreeMap::new(), errors: Vec::new(), index: 0 };
        assert(evidence(r.observations@) =~= Map::<u32, AggregateModel>::empty());
        assert(texts(r.errors@) == Seq::<Seq<char>>::empty());
        r
    }

    /// Takes what the system answered, and says what to ask next.
    pub fn collect_hid_observations(&mut self, event: InterfaceEvent) -> (r: InterfaceNext)
        requires
            event_ok(event),
        ensures
            (final(self)@, r@) == hid_step(old(self)@, event),
    {
        match event {
            InterfaceEvent::Listed { ok, error, said } => {
                if ok != 0 {
                    InterfaceNext::Size
                } else if error == ERROR_NO_MORE_ITEMS {
                    InterfaceNext::Done
                } else {
                    InterfaceNext::Failed(
                        PlatformError::OperationFailed(
                            format_error_code(
                                "SetupDiEnumDeviceInterfaces(HID)",
                                error,
                                said.as_slice(),
                            ),
                        ),
                    )
                }
            },
            InterfaceEvent::Sized { first, required, error, said } => match interface_size(
                InterfaceKind::Hid,
                self.index,
                first,
                required,
                error,
                said.as_slice(),
            ) {
                Ok(size) => InterfaceNext::Read(size),
                Err(message) => InterfaceNext::Failed(PlatformError::OperationFailed(message)),
            },
            InterfaceEvent::Read { ok, error, said, devinst, detail } => {
                if ok == 0 {
                    return InterfaceNext::Failed(
                        PlatformError::OperationFailed(
                            interface_failure(
                                InterfaceKind::Hid,
                                self.index,
                                error,
                                said.as_slice(),
                            ),
                        ),
                    );
                }
                match interface_path(self.index, devinst, detail.as_slice()) {
                    Ok(path) => InterfaceNext::Inspect(devinst, path),
                    Err(failure) => InterfaceNext::Failed(failure),
                }
            },
            InterfaceEvent::Inspected { devinst, inspection } => {
                observe_hid(
                    &mut self.observations,
                    &mut self.errors,
                    self.index,
                    devinst,
                    inspection,
                );
                self.index = self.index.saturating_add(1);
                InterfaceNext::List(self.index)
            },
        }
    }
}

/// The native interfaces so far.
#[derive(Debug)]
pub struct XusbCollection {
    pub devinsts: BTreeSet<u32>,
    pub errors: Vec<String>,
    pub index: u32,
}

pub struct XusbCollectionModel {
    pub devinsts: Set<u32>,
    pub errors: Seq<Seq<char>>,
    pub index: u32,
}

impl View for XusbCollection {
    type V = XusbCollectionModel;

    open spec fn view(&self) -> XusbCollectionModel {
        XusbCollectionModel {
            devinsts: self.devinsts@,
            errors: texts(self.errors@),
            index: self.index,
        }
    }
}

/// The collection with one more note, on to the next interface.
pub open spec fn passed_over(m: XusbCollectionModel, note: Seq<char>) -> XusbCollectionModel {
    XusbCollectionModel { errors: m.errors.push(note), index: next_index(m.index), ..m }
}

/// One step of listing the native interfaces.  Failures are noted; whoever uses
/// the list has to see to them.
pub open spec fn xusb_step(m: XusbCollectionModel, event: InterfaceEvent) -> (
    XusbCollectionModel,
    NextModel,
) {
    match event {
        InterfaceEvent::Listed { ok, error, said } => if ok != 0 {
            (m, NextModel::Size)
        } else if error == ERROR_NO_MORE_ITEMS {
            (m, NextModel::Done)
        } else {
            (
                XusbCollectionModel {
                    errors: m.errors.push(
                        error_text("SetupDiEnumDeviceInterfaces(XUSB)"@, error, said@),
                    ),
                    ..m
                },
                NextModel::Done,
            )
        },
        InterfaceEvent::Sized { first, required, error, said } => match detail_size(
            InterfaceKind::Xusb,
            m.index,
            first,
            required,
            error,
            said@,
        ) {
            Ok(size) => (m, NextModel::Read(size)),
            Err(note) => (passed_over(m, note), NextModel::List(next_index(m.index))),
        },
        InterfaceEvent::Read { ok, error, said, devinst, detail: _ } => if ok == 0 {
            (
                passed_over(m, detail_refused(InterfaceKind::Xusb, m.index, error, said@)),
                NextModel::List(next_index(m.index)),
            )
        } else {
            (
                XusbCollectionModel {
                    devinsts: m.devinsts.insert(devinst),
                    index: next_index(m.index),
                    ..m
                },
                NextModel::List(next_index(m.index)),
            )
        },
        InterfaceEvent::Inspected { .. } => (m, NextModel::List(m.index)),
    }
}

impl XusbCollection {
    pub fn new() -> (r: Self)
        ensures
            r@ == (XusbCollectionModel {
                devinsts: Set::empty(),
                errors: Seq::empty(),
                index: 0,
            }),
    {
        let r = XusbCollection { devinsts: BTreeSet::new(), errors: Vec::new(), index: 0 };
        assert(texts(r.errors@) == Seq::<Seq<char>>::empty());
        r
    }

    fn note(&mut self, note: String)
        ensures
            final(self)@ == (XusbCollectionModel {
                errors: old(self)@.errors.push(note@),
                ..old(self)@
            }),
    {
        let ghost before = texts(self.errors@);
        self.errors.push(note);
        assert(texts(self.errors@) == before.push(note@));
    }

    /// Takes what the system answered, and says what to ask next.
    pub fn collect_xusb_interfaces(&mut self, event: InterfaceEvent) -> (r: InterfaceNext)
        ensures
            (final(self)@, r@) == xusb_step(old(self)@, event),
    {
        proof {
            lemma_u32_keys();
        }
        match event {
            InterfaceEvent::Listed { ok, error, said } => {
                if ok != 0 {
                    return InterfaceNext::Size;
                }
                if error != ERROR_NO_MORE_ITEMS {
                    self.note(
                        format_error_code(
                            "SetupDiEnumDeviceInterfaces(XUSB)",
                            error,
                            said.as_slice(),
                        ),
                    );
                }
                InterfaceNext::Done
            },
            InterfaceEvent::Sized { first, required, error, said } => match interface_size(
                InterfaceKind::Xusb,
                self.index,
                first,
                required,
                error,
                said.as_slice(),
            ) {
                Ok(size) => InterfaceNext::Read(size),
                Err(message) => {
                    self.note(message);
                    self.index = self.index.saturating_add(1);
                    InterfaceNext::List(self.index)
                },
            },
            InterfaceEvent::Read { ok, error, said, devinst, detail: _ } => {
                if ok == 0 {
                    let message = interface_failure(
                        InterfaceKind::Xusb,
                        self.index,
                        error,
                        said.as_slice(),
                    );
                    self.note(message);
                } else {
                    self.devinsts.insert(devinst);
                }
                self.index = self.index.saturating_add(1);
                InterfaceNext::List(self.index)
            },
            InterfaceEvent::Inspected { .. } => InterfaceNext::List(self.index),
        }
    }
}

/// Evidence that the listing has built up is in order, and stays so.
pub proof fn listing_keeps_evidence_ok(m: HidCollectionModel, event: InterfaceEvent, devinst: u32)
    requires
        forall|d: u32| #[trigger]
            m.observations.contains_key(d) ==> crate::devnode::evidence_ok(m.observations[d]),
    ensures
        hid_step(m, event).0.observations.contains_key(devinst) ==> crate::devnode::evidence_ok(
            hid_step(m, event).0.observations[devinst],
        ),
{
    if let InterfaceEvent::Inspected { devinst: seen, inspection } = event {
        let before = known(m.observations, seen);
        match text_result(inspection) {
            Ok((usage_page, usage, mixed)) => {
                crate::devnode::evidence_stays_ok(before, usage_page, usage, mixed);
            },
            Err(_) => {
                crate::devnode::evidence_stays_ok(before, 0, 0, false);
            },
        }
    }
}

/// A HID interface that cannot be listed or read ends the listing with an
/// error: what is not seen never counts as absent.
pub proof fn an_unread_interface_ends_the_hid_listing(m: HidCollectionModel, event: InterfaceEvent)
    ensures
        hid_step(m, event).1 is Done ==> (event matches InterfaceEvent::Listed { ok, error, .. } && ok
            == 0 && error == ERROR_NO_MORE_ITEMS),
        !(event is Inspected) ==> hid_step(m, event).0 == m,
{
}

// The order of a map.
pub open spec fn rising(keys: Seq<u32>) -> bool {
    forall|i: int, j: int| 0 <= i < j < keys.len() ==> (#[trigger] keys[i]) < #[trigger] keys[j]
}

/// The keys in ascending order.
pub open spec fn ascending(keys: Set<u32>) -> Seq<u32> {
    choose|list: Seq<u32>| #[trigger] rising(list) && list.to_set() == keys
}

proof fn lemma_rising_unique(a: Seq<u32>, b: Seq<u32>)
    requires
        rising(a),
        rising(b),
        a.to_set() == b.to_set(),
    ensures
        a == b,
    decreases a.len(),
{
    if a.len() == 0 {
        if b.len() > 0 {
            assert(b.to_set().contains(b[0]));
        }
        assert(a == b);
    } else {
        assert(a.to_set().contains(a[0]));
        let j = choose|j: int| 0 <= j < b.len() && b[j] == a[0];
        assert(b.to_set().contains(b[0]));
        let i = choose|i: int| 0 <= i < a.len() && a[i] == b[0];
        assert(a[0] <= a[i]);
        assert(b[0] <= b[j]);
        assert(a[0] == b[0]);
        let x = a.skip(1);
        let y = b.skip(1);
        assert(x.to_set() =~= y.to_set()) by {
            assert forall|d: u32| x.to_set().contains(d) == y.to_set().contains(d) by {
                lemma_rest_members(a, d);
                lemma_rest_members(b, d);
                assert(a.to_set().contains(d) == b.to_set().contains(d));
            }
        }
        assert(rising(x)) by {
            assert forall|m: int, n: int| 0 <= m < n < x.len() implies (#[trigger] x[m])
                < #[trigger] x[n] by {
                assert(x[m] == a[m + 1] && x[n] == a[n + 1]);
            }
        }
        assert(rising(y)) by {
            assert forall|m: int, n: int| 0 <= m < n < y.len() implies (#[trigger] y[m])
                < #[trigger] y[n] by {
                assert(y[m] == b[m + 1] && y[n] == b[n + 1]);
            }
        }
        lemma_rising_unique(x, y);
        assert(a == seq![a[0]] + x);
        assert(b == seq![b[0]] + y);
    }
}

proof fn lemma_rest_members(a: Seq<u32>, d: u32)
    requires
        rising(a),
        a.len() > 0,
    ensures
        a.skip(1).to_set().contains(d) == (a.to_set().contains(d) && d != a[0]),
{
    let x = a.skip(1);
    if x.contains(d) {
        let k = choose|k: int| 0 <= k < x.len() && x[k] == d;
        assert(a[k + 1] == d);
        assert(a[0] < a[k + 1]);
    }
    if a.contains(d) && d != a[0] {
        let k = choose|k: int| 0 <= k < a.len() && a[k] == d;
        assert(x[k - 1] == d);
    }
}

pub proof fn lemma_ascending(list: Seq<u32>, keys: Set<u32>)
    requires
        rising(list),
        list.to_set() == keys,
    ensures
        ascending(keys) == list,
{
    let other = ascending(keys);
    assert(rising(other) && other.to_set() == keys);
    lemma_rising_unique(other, list);
}

proof fn lemma_increasing_is_rising(keys: Seq<u32>)
    requires
        vstd::std_specs::btree::increasing_seq(keys),
    ensures
        rising(keys),
{
    lemma_u32_keys();
    assert forall|i: int, j: int| 0 <= i < j < keys.len() implies (#[trigger] keys[i])
        < #[trigger] keys[j] by {
        assert(vstd::std_specs::cmp::OrdSpec::cmp_spec(&keys[i], &keys[j]) is Less);
    }
}

/// The keys of a map in ascending order.
pub fn ascending_keys(map: &BTreeMap<u32, HidAggregate>) -> (r: Vec<u32>)
    ensures
        r@ == ascending(map@.dom()),
        rising(r@),
        r@.to_set() == map@.dom(),
{
    proof {
        lemma_u32_keys();
    }
    let mut out: Vec<u32> = Vec::new();
    let pairs = map.iter();
    let ghost seen = vstd::std_specs::iter::IteratorSpec::remaining(&pairs);
    let ghost keys = seen.map_values(|kv: (&u32, &HidAggregate)| *kv.0);
    proof {
        lemma_increasing_is_rising(keys);
        assert(keys.to_set() =~= map@.dom()) by {
            assert forall|k: u32| keys.to_set().contains(k) == map@.dom().contains(k) by {
                if keys.contains(k) {
                    let i = choose|i: int| 0 <= i < keys.len() && keys[i] == k;
                    assert(map@.contains_key(*seen[i].0));
                }
                if map@.contains_key(k) {
                    assert(seen.contains((&k, &map@[k])));
                    let i = choose|i: int| 0 <= i < seen.len() && seen[i] == (&k, &map@[k]);
                    assert(keys[i] == k);
                }
            }
        }
        lemma_ascending(keys, map@.dom());
    }
    for pair in it: pairs
        invariant
            it.seq() == seen,
            keys == seen.map_values(|kv: (&u32, &HidAggregate)| *kv.0),
            out@ == keys.take(it.index()),
    {
        out.push(*pair.0);
        assert(out@ == keys.take(it.index() + 1));
    }
    assert(keys.take(keys.len() as int) == keys);
    out
}

} // verus!
