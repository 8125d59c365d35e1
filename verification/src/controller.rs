//! The controller service: what is selected, what was disabled, what is shown,
//! and the order of the steps of each command.
//!
//! A step that needs the platform or the disk is handed to the caller; the
//! caller comes back with what happened.
use crate::names::{name_set_of, NameSet};
use crate::platform::{
    error_message, platform_result, valid, ControlCoverage, DeviceModel, EnumerationReport,
    ErrorModel, PersistedDisabled, PlatformDevice, PlatformError, RecordModel, ReportModel,
    RECOVERY_SCHEMA,
};
use crate::sorting::{lemma_sorted_views, precedence, sort, sorted_by, views, Ranked};
use crate::text::{
    byte_len, chars_of, copy_list, decimal, decimal_of, has_prefix, joined, joined3, less, lt, same,
    starts_with, text_result, texts, trim_ends, trimmed, utf8_len, view_result,
    without_prefix, Cut,
};
use vstd::prelude::*;

verus! {

pub const MAX_RECOVERY_RECORDS: usize = 256;

pub const MAX_SELECTIONS: usize = 1024;

pub const MAX_ERRORS: usize = 64;

pub const PROBLEM_PARTIAL_HID: i32 = 1001;

pub const PROBLEM_UNCONTROLLED_XINPUT: i32 = 1002;

pub const PROBLEM_RECOVERY_PENDING: i32 = 1003;

pub const PROBLEM_RECOVERY_IDENTITY: i32 = 1004;

pub open spec fn standard_shortcut() -> Seq<char> {
    "Ctrl+Shift+F10"@
}

pub fn default_shortcut() -> (r: String)
    ensures
        r@ == standard_shortcut(),
{
    "Ctrl+Shift+F10".to_owned()
}

// What is shown.
#[derive(Clone, Debug)]
pub struct ControllerDevice {
    pub id: String,
    pub name: String,
    pub connection: String,
    pub enabled: bool,
    pub selected: bool,
    pub problem_code: Option<i32>,
}

pub struct RowModel {
    pub id: Seq<char>,
    pub name: Seq<char>,
    pub connection: Seq<char>,
    pub enabled: bool,
    pub selected: bool,
    pub problem_code: Option<i32>,
}

impl View for ControllerDevice {
    type V = RowModel;

    open spec fn view(&self) -> RowModel {
        RowModel {
            id: self.id@,
            name: self.name@,
            connection: self.connection@,
            enabled: self.enabled,
            selected: self.selected,
            problem_code: self.problem_code,
        }
    }
}

#[derive(Clone, Debug)]
pub struct ControllerState {
    pub devices: Vec<ControllerDevice>,
    pub shortcut: String,
    pub shortcut_available: bool,
    pub errors: Vec<String>,
}

pub struct StateModel {
    pub devices: Seq<RowModel>,
    pub shortcut: Seq<char>,
    pub shortcut_available: bool,
    pub errors: Seq<Seq<char>>,
}

impl View for ControllerState {
    type V = StateModel;

    open spec fn view(&self) -> StateModel {
        StateModel {
            devices: views(self.devices@),
            shortcut: self.shortcut@,
            shortcut_available: self.shortcut_available,
            errors: texts(self.errors@),
        }
    }
}

// What is kept.
/// The state file.
#[derive(Debug)]
pub struct DiskState {
    pub schema: u32,
    pub selected: Vec<String>,
    pub disabled: Vec<PersistedDisabled>,
    pub shortcut: String,
}

pub struct DiskModel {
    pub schema: u32,
    pub selected: Seq<Seq<char>>,
    pub disabled: Seq<RecordModel>,
    pub shortcut: Seq<char>,
}

impl View for DiskState {
    type V = DiskModel;

    open spec fn view(&self) -> DiskModel {
        DiskModel {
            schema: self.schema,
            selected: texts(self.selected@),
            disabled: views(self.disabled@),
            shortcut: self.shortcut@,
        }
    }
}

/// What the service remembers.
#[derive(Debug)]
pub struct ControllerData {
    pub selected: NameSet,
    pub disabled: Vec<PersistedDisabled>,
    pub shortcut: String,
    pub shortcut_available: bool,
    pub errors: Vec<String>,
}

pub struct DataModel {
    pub selected: Seq<Seq<char>>,
    pub disabled: Seq<RecordModel>,
    pub shortcut: Seq<char>,
    pub shortcut_available: bool,
    pub errors: Seq<Seq<char>>,
}

impl View for ControllerData {
    type V = DataModel;

    open spec fn view(&self) -> DataModel {
        DataModel {
            selected: self.selected@,
            disabled: views(self.disabled@),
            shortcut: self.shortcut@,
            shortcut_available: self.shortcut_available,
            errors: texts(self.errors@),
        }
    }
}

pub open spec fn valid_id(id: Seq<char>) -> bool {
    id.len() > 0 && utf8_len(id) <= 1024 && !id.contains('\0')
}

pub fn validate_command_id(id: &str) -> (r: Result<(), String>)
    ensures
        text_result(r) == (if valid_id(id@) {
            Ok::<(), Seq<char>>(())
        } else {
            Err("invalid controller id"@)
        }),
{
    if id.is_empty() || byte_len(id) > 1024 {
        return Err("invalid controller id".to_owned());
    }
    let chars = chars_of(id);
    let mut i: usize = 0;
    while i < chars.len()
        invariant
            i <= chars@.len(),
            chars@ == id@,
            forall|j: int| 0 <= j < i ==> id@[j] != '\0',
        decreases chars@.len() - i,
    {
        if chars[i] == '\0' {
            assert(id@.contains(id@[i as int]));
            return Err("invalid controller id".to_owned());
        }
        i += 1;
    }
    Ok(())
}

// Errors.
/// The errors with one more: an empty message or one that is there already is
/// dropped, and only the newest are kept.
pub open spec fn pushed(errors: Seq<Seq<char>>, message: Seq<char>) -> Seq<Seq<char>> {
    if message.len() == 0 || errors.contains(message) {
        errors
    } else {
        let all = errors.push(message);
        if all.len() > MAX_ERRORS {
            all.skip(all.len() - MAX_ERRORS)
        } else {
            all
        }
    }
}

pub fn push_error(errors: &mut Vec<String>, message: String)
    ensures
        texts(final(errors)@) == pushed(texts(old(errors)@), message@),
{
    if message.as_str().is_empty() {
        return;
    }
    let ghost before = texts(errors@);
    let mut i: usize = 0;
    while i < errors.len()
        invariant
            i <= errors@.len(),
            *errors == *old(errors),
            before == texts(errors@),
            forall|j: int| 0 <= j < i ==> #[trigger] before[j] != message@,
        decreases errors@.len() - i,
    {
        assert(before[i as int] == errors@[i as int]@);
        if same(errors[i].as_str(), message.as_str()) {
            assert(before.contains(before[i as int]));
            return;
        }
        i += 1;
    }
    assert(!before.contains(message@));
    let ghost all = before.push(message@);
    errors.push(message);
    assert(texts(errors@) == all);
    assert(all.skip(0) == all);
    let ghost mut cut: int = 0;
    while errors.len() > MAX_ERRORS
        invariant
            0 <= cut <= all.len(),
            errors@.len() == all.len() - cut,
            cut > 0 ==> errors@.len() >= MAX_ERRORS,
            texts(errors@) == all.skip(cut),
        decreases errors@.len(),
    {
        let ghost held = texts(errors@);
        errors.remove(0);
        assert(texts(errors@) == held.drop_first());
        assert(all.skip(cut).drop_first() == all.skip(cut + 1));
        proof {
            cut = cut + 1;
        }
    }
}

/// Whether an error speaks of a device: its identifier, a colon and a space.
pub open spec fn error_of(error: Seq<char>, id: Seq<char>) -> bool {
    starts_with(error, id) && starts_with(error.skip(id.len() as int), ": "@)
}

pub open spec fn cleared(errors: Seq<Seq<char>>, id: Seq<char>) -> Seq<Seq<char>>
    decreases errors.len(),
{
    if errors.len() == 0 {
        errors
    } else if error_of(errors.last(), id) {
        cleared(errors.drop_last(), id)
    } else {
        cleared(errors.drop_last(), id).push(errors.last())
    }
}

fn speaks_of(error: &str, id: &str) -> (r: bool)
    ensures
        r == error_of(error@, id@),
{
    match without_prefix(error, id) {
        None => false,
        Some(rest) => has_prefix(rest.as_str(), ": "),
    }
}

fn without_errors_of(errors: &Vec<String>, id: &str) -> (r: Vec<String>)
    ensures
        texts(r@) == cleared(texts(errors@), id@),
{
    let ghost all = texts(errors@);
    let mut kept: Vec<String> = Vec::new();
    let mut i: usize = 0;
    assert(all.take(0).len() == 0);
    assert(texts(kept@) == Seq::<Seq<char>>::empty());
    while i < errors.len()
        invariant
            i <= errors@.len(),
            all == texts(errors@),
            texts(kept@) == cleared(all.take(i as int), id@),
        decreases errors@.len() - i,
    {
        assert(all.take(i + 1).drop_last() == all.take(i as int));
        assert(all.take(i + 1).last() == errors@[i as int]@);
        if !speaks_of(errors[i].as_str(), id) {
            let ghost held = texts(kept@);
            kept.push(errors[i].clone());
            assert(texts(kept@) == held.push(errors@[i as int]@));
        }
        i += 1;
    }
    assert(all.take(i as int) == all);
    kept
}

// Looking things up.
pub open spec fn find_record(records: Seq<RecordModel>, id: Seq<char>) -> Option<RecordModel>
    decreases records.len(),
{
    if records.len() == 0 {
        None
    } else if records[0].id == id {
        Some(records[0])
    } else {
        find_record(records.drop_first(), id)
    }
}

pub open spec fn find_device(devices: Seq<DeviceModel>, id: Seq<char>) -> Option<DeviceModel>
    decreases devices.len(),
{
    if devices.len() == 0 {
        None
    } else if devices[0].id == id {
        Some(devices[0])
    } else {
        find_device(devices.drop_first(), id)
    }
}

pub fn record_with_id<'a>(records: &'a Vec<PersistedDisabled>, id: &str) -> (r: Option<
    &'a PersistedDisabled,
>)
    ensures
        (match r {
            Some(record) => Some(record@),
            None => None,
        }) == find_record(views(records@), id@),
{
    let ghost all = views(records@);
    let mut i: usize = 0;
    assert(all.skip(0) == all);
    while i < records.len()
        invariant
            i <= records@.len(),
            all == views(records@),
            find_record(all, id@) == find_record(all.skip(i as int), id@),
        decreases records@.len() - i,
    {
        assert(all.skip(i as int)[0] == records@[i as int]@);
        assert(all.skip(i as int).drop_first() == all.skip(i + 1));
        if same(records[i].id.as_str(), id) {
            return Some(&records[i]);
        }
        i += 1;
    }
    None
}

pub fn device_with_id<'a>(devices: &'a Vec<PlatformDevice>, id: &str) -> (r: Option<
    &'a PlatformDevice,
>)
    ensures
        (match r {
            Some(device) => Some(device@),
            None => None,
        }) == find_device(views(devices@), id@),
{
    let ghost all = views(devices@);
    let mut i: usize = 0;
    assert(all.skip(0) == all);
    while i < devices.len()
        invariant
            i <= devices@.len(),
            all == views(devices@),
            find_device(all, id@) == find_device(all.skip(i as int), id@),
        decreases devices@.len() - i,
    {
        assert(all.skip(i as int)[0] == devices@[i as int]@);
        assert(all.skip(i as int).drop_first() == all.skip(i + 1));
        if same(devices[i].id.as_str(), id) {
            return Some(&devices[i]);
        }
        i += 1;
    }
    None
}

pub fn copy_records(records: &Vec<PersistedDisabled>) -> (r: Vec<PersistedDisabled>)
    ensures
        r@ == records@,
{
    let mut out: Vec<PersistedDisabled> = Vec::new();
    let mut i: usize = 0;
    while i < records.len()
        invariant
            i <= records@.len(),
            out@ == records@.take(i as int),
        decreases records@.len() - i,
    {
        out.push(records[i].copy());
        i += 1;
    }
    out
}

// Loading and saving.
pub open spec fn bad_record(record: RecordModel) -> bool {
    record.schema != RECOVERY_SCHEMA || !valid(record.identity) || record.id
        != record.identity.stable_id
}

/// The first problem of the records, in order.
pub open spec fn records_problem(records: Seq<RecordModel>) -> Option<Seq<char>>
    decreases records.len(),
{
    if records.len() == 0 {
        None
    } else {
        match records_problem(records.drop_last()) {
            Some(problem) => Some(problem),
            None => if bad_record(records.last()) {
                Some("controller state contains an invalid recovery identity"@)
            } else if find_record(records.drop_last(), records.last().id) is Some {
                Some("controller state contains duplicate recovery id "@ + records.last().id)
            } else {
                None
            },
        }
    }
}

pub open spec fn all_valid_ids(ids: Seq<Seq<char>>) -> bool {
    forall|i: int| 0 <= i < ids.len() ==> valid_id(#[trigger] ids[i])
}

pub open spec fn loaded(disk: DiskModel) -> Result<DataModel, Seq<char>> {
    if disk.schema != RECOVERY_SCHEMA {
        Err(
            "controller state schema "@ + decimal(disk.schema as nat)
                + " is not supported (expected "@ + decimal(RECOVERY_SCHEMA as nat) + ")"@,
        )
    } else if disk.selected.len() > MAX_SELECTIONS {
        Err("controller selection state exceeds the supported limit"@)
    } else if disk.disabled.len() > MAX_RECOVERY_RECORDS {
        Err("controller recovery state exceeds the supported limit"@)
    } else if !all_valid_ids(disk.selected) {
        Err("invalid controller id"@)
    } else {
        match records_problem(disk.disabled) {
            Some(problem) => Err(problem),
            None => Ok(
                DataModel {
                    selected: name_set_of(disk.selected),
                    disabled: disk.disabled,
                    shortcut: if trimmed(disk.shortcut).len() == 0 {
                        standard_shortcut()
                    } else {
                        disk.shortcut
                    },
                    shortcut_available: false,
                    errors: Seq::empty(),
                },
            ),
        }
    }
}

pub open spec fn data_result(r: Result<ControllerData, String>) -> Result<DataModel, Seq<char>> {
    match r {
        Ok(data) => Ok(data@),
        Err(e) => Err(e@),
    }
}

/// What became of reading the state file.
#[derive(Debug)]
pub enum StateFile {
    Parsed(DiskState),
    Missing,
    /// It holds no state.
    Malformed(String),
    Unreadable(String),
}

/// Without a state file there is nothing selected and nothing disabled.
pub open spec fn disk_read(path: Seq<char>, file: StateFile) -> Result<DiskModel, Seq<char>> {
    match file {
        StateFile::Parsed(disk) => Ok(disk@),
        StateFile::Missing => Ok(
            DiskModel {
                schema: RECOVERY_SCHEMA,
                selected: Seq::empty(),
                disabled: Seq::empty(),
                shortcut: standard_shortcut(),
            },
        ),
        StateFile::Malformed(e) => Err("cannot parse "@ + path + ": "@ + e@),
        StateFile::Unreadable(e) => Err("cannot read "@ + path + ": "@ + e@),
    }
}

pub fn load_disk_state(path: &str, file: StateFile) -> (r: Result<DiskState, String>)
    ensures
        view_result(r) == disk_read(path@, file),
{
    match file {
        StateFile::Parsed(disk) => Ok(disk),
        StateFile::Missing => {
            let disk = DiskState {
                schema: RECOVERY_SCHEMA,
                selected: Vec::new(),
                disabled: Vec::new(),
                shortcut: default_shortcut(),
            };
            assert(disk@.selected == Seq::<Seq<char>>::empty());
            assert(disk@.disabled == Seq::<RecordModel>::empty());
            Ok(disk)
        },
        StateFile::Malformed(e) => {
            let mut message = joined3("cannot parse ", path, ": ");
            message.append(e.as_str());
            Err(message)
        },
        StateFile::Unreadable(e) => {
            let mut message = joined3("cannot read ", path, ": ");
            message.append(e.as_str());
            Err(message)
        },
    }
}

/// The state file of the data.
pub open spec fn disk_of(data: DataModel) -> DiskModel {
    DiskModel {
        schema: RECOVERY_SCHEMA,
        selected: data.selected,
        disabled: data.disabled,
        shortcut: data.shortcut,
    }
}

proof fn lemma_records_problem_prefix(records: Seq<RecordModel>, i: int)
    requires
        0 <= i <= records.len(),
        records_problem(records.take(i)) is Some,
    ensures
        records_problem(records) == records_problem(records.take(i)),
    decreases records.len() - i,
{
    if i < records.len() {
        assert(records.take(i + 1).drop_last() == records.take(i));
        lemma_records_problem_prefix(records, i + 1);
    } else {
        assert(records.take(i) == records);
    }
}

fn check_records(records: &Vec<PersistedDisabled>) -> (r: Result<(), String>)
    ensures
        text_result(r) == (match records_problem(views(records@)) {
            Some(problem) => Err(problem),
            None => Ok::<(), Seq<char>>(()),
        }),
{
    let ghost all = views(records@);
    let mut seen: Vec<PersistedDisabled> = Vec::new();
    let mut i: usize = 0;
    assert(all.take(0).len() == 0);
    assert(views(seen@) == all.take(0));
    while i < records.len()
        invariant
            i <= records@.len(),
            all == views(records@),
            views(seen@) == all.take(i as int),
            records_problem(all.take(i as int)) is None,
        decreases records@.len() - i,
    {
        let record = &records[i];
        proof {
            assert(all.take(i + 1).drop_last() == all.take(i as int));
            assert(all.take(i + 1).last() == record@);
            if records_problem(all.take(i + 1)) is Some {
                lemma_records_problem_prefix(all, i + 1);
            }
        }
        if record.schema != RECOVERY_SCHEMA || !record.identity.is_valid() || !same(
            record.id.as_str(),
            record.identity.stable_id(),
        ) {
            return Err("controller state contains an invalid recovery identity".to_owned());
        }
        if record_with_id(&seen, record.id.as_str()).is_some() {
            return Err(
                joined("controller state contains duplicate recovery id ", record.id.as_str()),
            );
        }
        let ghost held = views(seen@);
        seen.push(record.copy());
        assert(views(seen@) == held.push(record@));
        assert(all.take(i + 1) == all.take(i as int).push(record@));
        i += 1;
    }
    assert(all.take(i as int) == all);
    Ok(())
}

impl ControllerData {
    pub open spec fn wf(&self) -> bool {
        self.selected.wf()
    }

    /// The data of a state file, where it is one that was written here.
    pub fn from_disk(disk: DiskState) -> (r: Result<Self, String>)
        ensures
            data_result(r) == loaded(disk@),
            r matches Ok(data) ==> data.wf(),
    {
        if disk.schema != RECOVERY_SCHEMA {
            let mut message: String = joined(
                "controller state schema ",
                decimal_of(disk.schema as u64).as_str(),
            );
            message.append(" is not supported (expected ");
            message.append(decimal_of(RECOVERY_SCHEMA as u64).as_str());
            message.append(")");
            return Err(message);
        }
        if disk.selected.len() > MAX_SELECTIONS {
            return Err("controller selection state exceeds the supported limit".to_owned());
        }
        if disk.disabled.len() > MAX_RECOVERY_RECORDS {
            return Err("controller recovery state exceeds the supported limit".to_owned());
        }
        let mut selected = NameSet::new();
        let ghost ids = texts(disk.selected@);
        let mut i: usize = 0;
        assert(ids.take(0).len() == 0);
        while i < disk.selected.len()
            invariant
                i <= disk.selected@.len(),
                ids == texts(disk.selected@),
                ids == disk@.selected,
                disk.schema == RECOVERY_SCHEMA,
                disk.selected@.len() <= MAX_SELECTIONS,
                disk.disabled@.len() <= MAX_RECOVERY_RECORDS,
                selected.wf(),
                selected@ == name_set_of(ids.take(i as int)),
                forall|j: int| 0 <= j < i ==> valid_id(#[trigger] ids[j]),
            decreases disk.selected@.len() - i,
        {
            assert(ids.take(i + 1).drop_last() == ids.take(i as int));
            assert(ids.take(i + 1).last() == disk.selected@[i as int]@);
            assert(ids[i as int] == disk.selected@[i as int]@);
            match validate_command_id(disk.selected[i].as_str()) {
                Ok(_) => {},
                Err(error) => {
                    assert(!valid_id(ids[i as int]));
                    return Err(error);
                },
            }
            selected.insert(disk.selected[i].clone());
            i += 1;
        }
        assert(ids.take(i as int) == ids);
        check_records(&disk.disabled)?;
        let shortcut = if trim_ends(disk.shortcut.as_str(), Cut::Space).as_str().is_empty() {
            default_shortcut()
        } else {
            disk.shortcut
        };
        let errors: Vec<String> = Vec::new();
        assert(texts(errors@) == Seq::<Seq<char>>::empty());
        Ok(
            ControllerData {
                selected,
                disabled: disk.disabled,
                shortcut,
                shortcut_available: false,
                errors,
            },
        )
    }

    /// The state file to write.
    pub fn to_disk(&self) -> (r: DiskState)
        ensures
            r@ == disk_of(self@),
    {
        DiskState {
            schema: RECOVERY_SCHEMA,
            selected: self.selected.list(),
            disabled: copy_records(&self.disabled),
            shortcut: self.shortcut.clone(),
        }
    }

    pub fn record_error(&mut self, error: String)
        ensures
            final(self)@ == (DataModel {
                errors: pushed(old(self)@.errors, error@),
                ..old(self)@
            }),
            old(self).wf() ==> final(self).wf(),
    {
        push_error(&mut self.errors, error);
    }

    pub fn set_shortcut_available(&mut self, available: bool, error: Option<String>)
        ensures
            final(self)@ == (DataModel {
                shortcut_available: available,
                errors: match error {
                    Some(message) => pushed(old(self)@.errors, message@),
                    None => old(self)@.errors,
                },
                ..old(self)@
            }),
            old(self).wf() ==> final(self).wf(),
    {
        self.shortcut_available = available;
        match error {
            Some(message) => push_error(&mut self.errors, message),
            None => {},
        }
    }

    pub fn clear_device_errors(&mut self, id: &str)
        ensures
            final(self)@ == (DataModel { errors: cleared(old(self)@.errors, id@), ..old(self)@ }),
            old(self).wf() ==> final(self).wf(),
    {
        self.errors = without_errors_of(&self.errors, id);
    }

    pub fn record_failure(&mut self, id: &str, message: &str)
        ensures
            final(self)@ == (DataModel {
                errors: pushed(old(self)@.errors, id@ + ": "@ + message@),
                ..old(self)@
            }),
            old(self).wf() ==> final(self).wf(),
    {
        push_error(&mut self.errors, joined3(id, ": ", message));
    }
}

// The state that is shown.
pub open spec fn or_code(code: Option<i32>, other: i32) -> Option<i32> {
    if code is Some {
        code
    } else {
        Some(other)
    }
}

/// What is shown of a present device.
pub open spec fn device_row(data: DataModel, device: DeviceModel) -> RowModel {
    let covered = match device.coverage {
        ControlCoverage::HidOnly => or_code(device.problem_code, PROBLEM_PARTIAL_HID),
        ControlCoverage::Uncontrolled => or_code(device.problem_code, PROBLEM_UNCONTROLLED_XINPUT),
        ControlCoverage::Full => device.problem_code,
    };
    RowModel {
        id: device.id,
        name: device.name,
        connection: device.connection,
        enabled: device.enabled,
        selected: data.selected.contains(device.id),
        problem_code: if find_record(data.disabled, device.id) is Some && device.enabled {
            or_code(covered, PROBLEM_RECOVERY_IDENTITY)
        } else {
            covered
        },
    }
}

/// What is shown of a recovery record whose device is not present.
pub open spec fn pending_row(data: DataModel, record: RecordModel) -> RowModel {
    RowModel {
        id: record.id,
        name: record.name + " (app-disabled; recovery pending)"@,
        connection: record.connection,
        enabled: false,
        selected: data.selected.contains(record.id),
        problem_code: Some(PROBLEM_RECOVERY_PENDING),
    }
}

pub open spec fn device_rows(data: DataModel, devices: Seq<DeviceModel>) -> Seq<RowModel> {
    devices.map_values(|device: DeviceModel| device_row(data, device))
}

pub open spec fn has_row(rows: Seq<RowModel>, id: Seq<char>) -> bool {
    exists|i: int| 0 <= i < rows.len() && (#[trigger] rows[i]).id == id
}

pub open spec fn with_pending(
    data: DataModel,
    rows: Seq<RowModel>,
    records: Seq<RecordModel>,
) -> Seq<RowModel>
    decreases records.len(),
{
    if records.len() == 0 {
        rows
    } else {
        let before = with_pending(data, rows, records.drop_last());
        if has_row(before, records.last().id) {
            before
        } else {
            before.push(pending_row(data, records.last()))
        }
    }
}

pub open spec fn device_order() -> spec_fn(DeviceModel, DeviceModel) -> bool {
    |a: DeviceModel, b: DeviceModel| lt(a.id, b.id)
}

pub open spec fn row_order() -> spec_fn(RowModel, RowModel) -> bool {
    |a: RowModel, b: RowModel| lt(a.id, b.id)
}

impl Ranked for PlatformDevice {
    open spec fn precedes(&self, other: &Self) -> bool {
        lt(self.id@, other.id@)
    }

    fn is_before(&self, other: &Self) -> (r: bool) {
        less(self.id.as_str(), other.id.as_str())
    }
}

impl Ranked for ControllerDevice {
    open spec fn precedes(&self, other: &Self) -> bool {
        lt(self.id@, other.id@)
    }

    fn is_before(&self, other: &Self) -> (r: bool) {
        less(self.id.as_str(), other.id.as_str())
    }
}

pub open spec fn shown(data: DataModel, devices: Seq<DeviceModel>) -> StateModel {
    StateModel {
        devices: sorted_by(
            with_pending(
                data,
                device_rows(data, sorted_by(devices, device_order())),
                data.disabled,
            ),
            row_order(),
        ),
        shortcut: data.shortcut,
        shortcut_available: data.shortcut_available,
        errors: data.errors,
    }
}

fn row_for(data: &ControllerData, device: &PlatformDevice) -> (r: ControllerDevice)
    requires
        data.wf(),
    ensures
        r@ == device_row(data@, device@),
{
    let pending = record_with_id(&data.disabled, device.id.as_str()).is_some();
    let mut problem_code: Option<i32> = device.problem_code;
    match device.coverage {
        ControlCoverage::HidOnly => {
            if problem_code.is_none() {
                problem_code = Some(PROBLEM_PARTIAL_HID);
            }
        },
        ControlCoverage::Uncontrolled => {
            if problem_code.is_none() {
                problem_code = Some(PROBLEM_UNCONTROLLED_XINPUT);
            }
        },
        ControlCoverage::Full => {},
    }
    if pending && device.state.enabled && problem_code.is_none() {
        problem_code = Some(PROBLEM_RECOVERY_IDENTITY);
    }
    ControllerDevice {
        id: device.id.as_str().to_owned(),
        name: device.name.clone(),
        connection: device.connection.clone(),
        enabled: device.state.enabled,
        selected: data.selected.contains(device.id.as_str()),
        problem_code,
    }
}

fn row_exists(rows: &Vec<ControllerDevice>, id: &str) -> (r: bool)
    ensures
        r == has_row(views(rows@), id@),
{
    let ghost all = views(rows@);
    let mut i: usize = 0;
    while i < rows.len()
        invariant
            i <= rows@.len(),
            all == views(rows@),
            forall|j: int| 0 <= j < i ==> (#[trigger] all[j]).id != id@,
        decreases rows@.len() - i,
    {
        assert(all[i as int] == rows@[i as int]@);
        if same(rows[i].id.as_str(), id) {
            return true;
        }
        i += 1;
    }
    false
}

/// The devices as they are shown: the present ones and, for each record
/// without a present device, a pending one; in the order of their identifiers.
pub fn make_state(data: &ControllerData, devices: Vec<PlatformDevice>) -> (r: ControllerState)
    requires
        data.wf(),
    ensures
        r@ == shown(data@, views(devices@)),
{
    proof {
        lemma_sorted_views(devices@, precedence::<PlatformDevice>(), device_order());
    }
    let devices = sort(devices);
    let ghost present = views(devices@);
    let ghost wanted = device_rows(data@, present);
    let mut rows: Vec<ControllerDevice> = Vec::new();
    let mut i: usize = 0;
    assert(views(rows@) == wanted.take(0));
    while i < devices.len()
        invariant
            i <= devices@.len(),
            data.wf(),
            present == views(devices@),
            wanted == device_rows(data@, present),
            views(rows@) == wanted.take(i as int),
        decreases devices@.len() - i,
    {
        let ghost held = views(rows@);
        let row = row_for(data, &devices[i]);
        assert(present[i as int] == devices@[i as int]@);
        assert(row@ == wanted[i as int]);
        rows.push(row);
        assert(views(rows@) == held.push(row@));
        assert(wanted.take(i + 1) == wanted.take(i as int).push(wanted[i as int]));
        i += 1;
    }
    assert(wanted.take(i as int) == wanted);
    let ghost records = views(data.disabled@);
    let mut k: usize = 0;
    assert(records.take(0).len() == 0);
    while k < data.disabled.len()
        invariant
            k <= data.disabled@.len(),
            data.wf(),
            records == views(data.disabled@),
            records == data@.disabled,
            views(rows@) == with_pending(data@, wanted, records.take(k as int)),
        decreases data.disabled@.len() - k,
    {
        let record = &data.disabled[k];
        assert(records.take(k + 1).drop_last() == records.take(k as int));
        assert(records.take(k + 1).last() == record@);
        if !row_exists(&rows, record.id.as_str()) {
            let ghost held = views(rows@);
            let row = ControllerDevice {
                id: record.id.as_str().to_owned(),
                name: joined(record.name.as_str(), " (app-disabled; recovery pending)"),
                connection: record.connection.clone(),
                enabled: false,
                selected: data.selected.contains(record.id.as_str()),
                problem_code: Some(PROBLEM_RECOVERY_PENDING),
            };
            rows.push(row);
            assert(views(rows@) == held.push(row@));
        }
        k += 1;
    }
    assert(records.take(k as int) == records);
    proof {
        lemma_sorted_views(rows@, precedence::<ControllerDevice>(), row_order());
    }
    let devices = sort(rows);
    ControllerState {
        devices,
        shortcut: data.shortcut.clone(),
        shortcut_available: data.shortcut_available,
        errors: copy_list(data.errors.as_slice()),
    }
}

pub open spec fn refreshed(data: DataModel, report: Result<ReportModel, ErrorModel>) -> StateModel {
    match report {
        Ok(r) => {
            let state = shown(data, r.devices);
            StateModel { errors: state.errors + r.errors, ..state }
        },
        Err(e) => {
            let state = shown(data, Seq::empty());
            StateModel { errors: state.errors.push(error_message(e)), ..state }
        },
    }
}

pub fn refresh_state(data: &ControllerData, report: Result<EnumerationReport, PlatformError>) -> (r:
    ControllerState)
    requires
        data.wf(),
    ensures
        r@ == refreshed(data@, platform_result(report)),
{
    match report {
        Ok(report) => {
            let mut state = make_state(data, report.devices);
            let mut errors = report.errors;
            let ghost before = texts(state.errors@);
            let ghost added = texts(errors@);
            state.errors.append(&mut errors);
            assert(texts(state.errors@) == before + added);
            state
        },
        Err(error) => {
            let none: Vec<PlatformDevice> = Vec::new();
            assert(views(none@) == Seq::<DeviceModel>::empty());
            let mut state = make_state(data, none);
            let ghost before = texts(state.errors@);
            let message = error.describe();
            state.errors.push(message);
            assert(texts(state.errors@) == before.push(message@));
            state
        },
    }
}

/// What is shown when a look at the controllers did not come to its end.
pub fn lost_state(error: &str) -> (r: ControllerState)
    ensures
        r@ == (StateModel {
            devices: Seq::empty(),
            shortcut: standard_shortcut(),
            shortcut_available: false,
            errors: seq!["controller worker terminated while refreshing state: "@ + error@],
        }),
{
    let mut errors: Vec<String> = Vec::new();
    errors.push(joined("controller worker terminated while refreshing state: ", error));
    let state = ControllerState {
        devices: Vec::new(),
        shortcut: default_shortcut(),
        shortcut_available: false,
        errors,
    };
    assert(state@.devices == Seq::<RowModel>::empty());
    assert(state@.errors == seq![
        "controller worker terminated while refreshing state: "@ + error@,
    ]);
    state
}

} // verus!
