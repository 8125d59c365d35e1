//! The process around the controllers: one instance at a time, the tray, the
//! shortcut, the window, and how a run ends.
use crate::controller::{ControllerState, RowModel};
use crate::sorting::views;
use crate::text::{
    decimal, decimal_of, joined, joined3, opt_text, parse_number, parsed, same, text_result, texts,
    trim_ends, trimmed, Cut,
};
use vstd::prelude::*;

verus! {

// One instance.
/// Why this process may not run.
#[derive(Debug)]
pub enum InstanceError {
    Busy,
    Io(String),
    Native(String),
}

pub enum InstanceModel {
    Busy,
    Io(Seq<char>),
    Native(Seq<char>),
}

impl View for InstanceError {
    type V = InstanceModel;

    open spec fn view(&self) -> InstanceModel {
        match self {
            InstanceError::Busy => InstanceModel::Busy,
            InstanceError::Io(e) => InstanceModel::Io(e@),
            InstanceError::Native(e) => InstanceModel::Native(e@),
        }
    }
}

pub open spec fn instance_message(error: InstanceModel) -> Seq<char> {
    match error {
        InstanceModel::Busy => "another Controwly instance is already running"@,
        InstanceModel::Io(e) => "cannot acquire Controwly instance lock: "@ + e,
        InstanceModel::Native(e) => "cannot acquire native Controwly instance lock: "@ + e,
    }
}

impl InstanceError {
    pub fn describe(&self) -> (r: String)
        ensures
            r@ == instance_message(self@),
    {
        match self {
            InstanceError::Busy => "another Controwly instance is already running".to_owned(),
            InstanceError::Io(e) => joined("cannot acquire Controwly instance lock: ", e.as_str()),
            InstanceError::Native(e) => joined(
                "cannot acquire native Controwly instance lock: ",
                e.as_str(),
            ),
        }
    }
}

/// What the system made of the attempt to create the lock file.
#[derive(Debug)]
pub enum CreateOutcome {
    Created,
    Exists,
    Failed(String),
}

/// What is done about the lock file.
#[derive(Debug)]
pub enum LockStep {
    /// The lock file is ours.
    Hold,
    /// See whether the owner of the lock file still runs.
    ProbeOwner,
    /// Remove the lock file of an owner that is gone, and try once more.
    Replace,
    Refuse(InstanceError),
}

pub enum LockModel {
    Hold,
    ProbeOwner,
    Replace,
    Refuse(InstanceModel),
}

impl View for LockStep {
    type V = LockModel;

    open spec fn view(&self) -> LockModel {
        match self {
            LockStep::Hold => LockModel::Hold,
            LockStep::ProbeOwner => LockModel::ProbeOwner,
            LockStep::Replace => LockModel::Replace,
            LockStep::Refuse(e) => LockModel::Refuse(e@),
        }
    }
}

/// A lock file that exists is looked into on the first attempt only.
pub open spec fn lock_step(attempt: u8, outcome: CreateOutcome) -> LockModel {
    match outcome {
        CreateOutcome::Created => LockModel::Hold,
        CreateOutcome::Exists => if attempt == 0 {
            LockModel::ProbeOwner
        } else {
            LockModel::Refuse(InstanceModel::Busy)
        },
        CreateOutcome::Failed(e) => LockModel::Refuse(InstanceModel::Io(e@)),
    }
}

pub fn acquire(attempt: u8, outcome: CreateOutcome) -> (r: LockStep)
    ensures
        r@ == lock_step(attempt, outcome),
{
    match outcome {
        CreateOutcome::Created => LockStep::Hold,
        CreateOutcome::Exists => if attempt == 0 {
            LockStep::ProbeOwner
        } else {
            LockStep::Refuse(InstanceError::Busy)
        },
        CreateOutcome::Failed(e) => LockStep::Refuse(InstanceError::Io(e)),
    }
}

pub open spec fn owner_step(alive: bool) -> LockModel {
    if alive {
        LockModel::Refuse(InstanceModel::Busy)
    } else {
        LockModel::Replace
    }
}

pub fn after_probe(alive: bool) -> (r: LockStep)
    ensures
        r@ == owner_step(alive),
{
    if alive {
        LockStep::Refuse(InstanceError::Busy)
    } else {
        LockStep::Replace
    }
}

/// The error by which the system says that the named mutex was there already.
pub const ERROR_ALREADY_EXISTS: u32 = 183;

pub open spec fn mutex_verdict(null: bool, error: u32) -> Result<(), InstanceModel> {
    if null {
        Err(InstanceModel::Native("CreateMutexW failed with Win32 error "@ + decimal(error as nat)))
    } else if error == ERROR_ALREADY_EXISTS {
        Err(InstanceModel::Busy)
    } else {
        Ok(())
    }
}

pub open spec fn instance_result(r: Result<(), InstanceError>) -> Result<(), InstanceModel> {
    match r {
        Ok(_) => Ok(()),
        Err(e) => Err(e@),
    }
}

/// Whether the named mutex is ours: `null` says that there is no handle to it,
/// `error` is what the system said.
pub fn mutex_outcome(null: bool, error: u32) -> (r: Result<(), InstanceError>)
    ensures
        instance_result(r) == mutex_verdict(null, error),
{
    if null {
        Err(
            InstanceError::Native(
                joined(
                    "CreateMutexW failed with Win32 error ",
                    decimal_of(error as u64).as_str(),
                ),
            ),
        )
    } else if error == ERROR_ALREADY_EXISTS {
        Err(InstanceError::Busy)
    } else {
        Ok(())
    }
}

/// The process that a lock file names.  A file that cannot be read or that
/// names no process counts as one of a running owner.
pub open spec fn lock_owner(contents: Option<Seq<char>>) -> Option<nat> {
    match contents {
        None => None,
        Some(text) => match parsed(trimmed(text), 10, 0xffff_ffff) {
            None => None,
            Some(pid) => if pid == 0 {
                None
            } else {
                Some(pid)
            },
        },
    }
}

/// `None` where the owner has to be taken for running.
pub fn owner_process(contents: &Option<String>) -> (r: Option<u64>)
    ensures
        (match r {
            Some(pid) => Some(pid as nat),
            None => None,
        }) == lock_owner(opt_text(*contents)),
{
    match contents {
        None => None,
        Some(text) => match parse_number(
            trim_ends(text.as_str(), Cut::Space).as_str(),
            10,
            0xffff_ffff,
        ) {
            None => None,
            Some(pid) => if pid == 0 {
                None
            } else {
                Some(pid)
            },
        },
    }
}

/// Where the system shows a running process.
pub fn process_path(pid: u64) -> (r: String)
    ensures
        r@ == "/proc/"@ + decimal(pid as nat),
{
    joined("/proc/", decimal_of(pid).as_str())
}

/// `shown` says whether the system shows the process that the file names.
pub fn owner_is_alive(contents: &Option<String>, shown: bool) -> (r: bool)
    ensures
        r == (lock_owner(opt_text(*contents)) is None || shown),
{
    match owner_process(contents) {
        Some(_) => shown,
        None => true,
    }
}

/// The lock file that a process writes names that process.
pub proof fn a_lock_file_names_its_owner(pid: nat)
    requires
        0 < pid <= 0xffff_ffff,
    ensures
        lock_owner(Some(decimal(pid).push('\n'))) == Some(pid),
{
    let text = decimal(pid).push('\n');
    crate::text::parse_inverts_decimal(pid, 0xffff_ffff);
    lemma_decimal_ends(pid);
    let spaces = crate::text::spaces();
    let digits = decimal(pid);
    assert(crate::text::trim_front(text, spaces) == text) by {
        assert(text[0] == digits[0]);
    }
    assert(text.drop_last() == digits);
    assert(crate::text::trim_back(digits, spaces) == digits);
    assert(trimmed(text) == digits);
}

proof fn lemma_decimal_ends(n: nat)
    ensures
        decimal(n).len() > 0,
        crate::text::is_digit(decimal(n)[0]),
        crate::text::is_digit(decimal(n).last()),
    decreases n,
{
    if n >= 10 {
        lemma_decimal_ends(n / 10);
    }
}

/// A running owner keeps its lock: only the file of one that is gone is
/// replaced, and only once.
pub proof fn a_running_owner_keeps_the_lock(attempt: u8, outcome: CreateOutcome)
    ensures
        owner_step(true) == LockModel::Refuse(InstanceModel::Busy),
        lock_step(attempt, outcome) is Hold <==> outcome is Created,
        attempt > 0 ==> !(lock_step(attempt, outcome) is ProbeOwner),
        !(lock_step(attempt, outcome) is Replace),
{
}

// The shortcut.
/// Some selected controller is on.
pub open spec fn any_selected_on(rows: Seq<RowModel>) -> bool {
    exists|i: int| 0 <= i < rows.len() && (#[trigger] rows[i]).selected && rows[i].enabled
}

/// The state that the shortcut asks for: off if any selected controller is on.
pub fn handle_shortcut(state: &ControllerState) -> (r: bool)
    ensures
        r == !any_selected_on(state@.devices),
{
    let ghost rows = state@.devices;
    let mut i: usize = 0;
    while i < state.devices.len()
        invariant
            i <= state.devices@.len(),
            rows == views(state.devices@),
            forall|j: int|
                0 <= j < i ==> !((#[trigger] rows[j]).selected && rows[j].enabled),
        decreases state.devices@.len() - i,
    {
        assert(rows[i as int] == state.devices@[i as int]@);
        if state.devices[i].selected && state.devices[i].enabled {
            return false;
        }
        i += 1;
    }
    true
}

pub open spec fn shortcut_note(shortcut: Seq<char>, error: Seq<char>) -> Seq<char> {
    "Global shortcut "@ + shortcut + " is unavailable: "@ + error
        + ". Choose another application or use the buttons."@
}

/// What is noted when the shortcut cannot be had.
pub fn register_shortcut(shortcut: &str, error: &str) -> (r: String)
    ensures
        r@ == shortcut_note(shortcut@, error@),
{
    let mut out = joined3("Global shortcut ", shortcut, " is unavailable: ");
    out.append(error);
    out.append(". Choose another application or use the buttons.");
    out
}

// The tray.
#[derive(Clone, Copy, Debug, PartialEq, Eq, Structural)]
pub enum MenuAction {
    Show,
    SwitchSelected(bool),
    Restore,
    RestoreAndQuit,
    QuitKeepState,
    Nothing,
}

pub open spec fn action_of(id: Seq<char>) -> MenuAction {
    if id == "show"@ {
        MenuAction::Show
    } else if id == "enable-selected"@ {
        MenuAction::SwitchSelected(true)
    } else if id == "disable-selected"@ {
        MenuAction::SwitchSelected(false)
    } else if id == "restore-disabled"@ {
        MenuAction::Restore
    } else if id == "restore-and-quit"@ {
        MenuAction::RestoreAndQuit
    } else if id == "quit-keep-state"@ {
        MenuAction::QuitKeepState
    } else {
        MenuAction::Nothing
    }
}

/// What a menu entry stands for.
pub fn menu_action(id: &str) -> (r: MenuAction)
    ensures
        r == action_of(id@),
{
    if same(id, "show") {
        MenuAction::Show
    } else if same(id, "enable-selected") {
        MenuAction::SwitchSelected(true)
    } else if same(id, "disable-selected") {
        MenuAction::SwitchSelected(false)
    } else if same(id, "restore-disabled") {
        MenuAction::Restore
    } else if same(id, "restore-and-quit") {
        MenuAction::RestoreAndQuit
    } else if same(id, "quit-keep-state") {
        MenuAction::QuitKeepState
    } else {
        MenuAction::Nothing
    }
}

/// What is noted when there is no tray.
pub fn setup_tray(error: &str) -> (r: String)
    ensures
        r@ == "System tray is unavailable: "@ + error@
            + ". The window will stay open on close; use explicit restore or keep-state quit."@,
{
    joined3(
        "System tray is unavailable: ",
        error,
        ". The window will stay open on close; use explicit restore or keep-state quit.",
    )
}

#[derive(Clone, Copy, Debug, PartialEq, Eq, Structural)]
pub enum CloseAction {
    /// The tray still shows the application.
    Hide,
    /// The user chooses between restoring and keeping the state.
    Ask,
}

/// What happens to the window that is to be closed; it is never simply closed.
pub fn close_requested(tray_available: bool) -> (r: CloseAction)
    ensures
        r == (if tray_available {
            CloseAction::Hide
        } else {
            CloseAction::Ask
        }),
{
    if tray_available {
        CloseAction::Hide
    } else {
        CloseAction::Ask
    }
}

// Where the data are.
#[derive(Clone, Copy, Debug, PartialEq, Eq, Structural)]
pub enum System {
    Windows,
    Linux,
    Other,
}

/// The place that the directory of the application stands in.
#[derive(Clone, Copy, Debug, PartialEq, Eq, Structural)]
pub enum DataRoot {
    /// What `APPDATA` says.
    AppData,
    /// What `XDG_DATA_HOME` says.
    XdgData,
    /// `.local/share` in what `HOME` says.
    HomeShare,
}

pub open spec fn data_root(system: System, app_data: bool, xdg_data: bool, home: bool) -> Result<
    DataRoot,
    Seq<char>,
> {
    match system {
        System::Windows => if app_data {
            Ok(DataRoot::AppData)
        } else {
            Err("APPDATA is not set"@)
        },
        System::Linux => if xdg_data {
            Ok(DataRoot::XdgData)
        } else if home {
            Ok(DataRoot::HomeShare)
        } else {
            Err("neither XDG_DATA_HOME nor HOME is set"@)
        },
        System::Other => Err("controller management is unsupported on this operating system"@),
    }
}

/// The three flags say which of the variables are set.
pub fn default_data_dir(system: System, app_data: bool, xdg_data: bool, home: bool) -> (r: Result<
    DataRoot,
    String,
>)
    ensures
        text_result(r) == data_root(system, app_data, xdg_data, home),
{
    match system {
        System::Windows => if app_data {
            Ok(DataRoot::AppData)
        } else {
            Err("APPDATA is not set".to_owned())
        },
        System::Linux => if xdg_data {
            Ok(DataRoot::XdgData)
        } else if home {
            Ok(DataRoot::HomeShare)
        } else {
            Err("neither XDG_DATA_HOME nor HOME is set".to_owned())
        },
        System::Other => Err(
            "controller management is unsupported on this operating system".to_owned(),
        ),
    }
}

// How a run ends.
/// How the application ended.
#[derive(Debug)]
pub enum RunOutcome {
    NoDataDirectory(String),
    Failed(String),
    Ended,
}

pub open spec fn run_end(outcome: RunOutcome) -> (i32, Option<Seq<char>>) {
    match outcome {
        RunOutcome::NoDataDirectory(e) => (
            2,
            Some("Controwly cannot determine its data directory: "@ + e@),
        ),
        RunOutcome::Failed(e) => (
            3,
            Some("Controwly terminated with an application error: "@ + e@),
        ),
        RunOutcome::Ended => (0, None),
    }
}

/// The exit code of the application, and what is shown.
pub fn run(outcome: RunOutcome) -> (r: (i32, Option<String>))
    ensures
        (r.0, opt_text(r.1)) == run_end(outcome),
{
    match outcome {
        RunOutcome::NoDataDirectory(e) => (
            2,
            Some(joined("Controwly cannot determine its data directory: ", e.as_str())),
        ),
        RunOutcome::Failed(e) => (
            3,
            Some(joined("Controwly terminated with an application error: ", e.as_str())),
        ),
        RunOutcome::Ended => (0, None),
    }
}

/// How a restore from the command line ended.
#[derive(Debug)]
pub enum RestoreOutcome {
    NoDataDirectory(String),
    Locked(InstanceError),
    NoController(String),
    Failed(String),
    Restored(u64),
}

pub open spec fn restore_end(outcome: RestoreOutcome) -> (i32, Seq<char>) {
    match outcome {
        RestoreOutcome::NoDataDirectory(e) => (
            2,
            "Controwly restore failed: cannot determine data directory: "@ + e@,
        ),
        RestoreOutcome::Locked(e) => (3, "Controwly restore failed: "@ + instance_message(e@)),
        RestoreOutcome::NoController(e) => (4, "Controwly restore failed: "@ + e@),
        RestoreOutcome::Failed(e) => (5, "Controwly restore failed: "@ + e@),
        RestoreOutcome::Restored(n) => (
            0,
            "Controwly restore completed: "@ + decimal(n as nat) + " device record(s) restored"@,
        ),
    }
}

/// The exit code of a restore from the command line, and what is printed.
pub fn run_restore_cli(outcome: RestoreOutcome) -> (r: (i32, String))
    ensures
        (r.0, r.1@) == restore_end(outcome),
{
    match outcome {
        RestoreOutcome::NoDataDirectory(e) => (
            2,
            joined("Controwly restore failed: cannot determine data directory: ", e.as_str()),
        ),
        RestoreOutcome::Locked(e) => (
            3,
            joined("Controwly restore failed: ", e.describe().as_str()),
        ),
        RestoreOutcome::NoController(e) => (4, joined("Controwly restore failed: ", e.as_str())),
        RestoreOutcome::Failed(e) => (5, joined("Controwly restore failed: ", e.as_str())),
        RestoreOutcome::Restored(n) => (
            0,
            joined3(
                "Controwly restore completed: ",
                decimal_of(n).as_str(),
                " device record(s) restored",
            ),
        ),
    }
}

/// Only a completed restore ends well.
pub proof fn only_a_completed_restore_ends_well(outcome: RestoreOutcome)
    ensures
        restore_end(outcome).0 == 0 <==> outcome is Restored,
{
}

/// The arguments ask for a restore instead of the application.
pub fn wants_restore(args: &[String]) -> (r: bool)
    ensures
        r == texts(args@).contains("--restore-and-exit"@),
{
    let ghost list = texts(args@);
    let mut i: usize = 0;
    while i < args.len()
        invariant
            i <= args@.len(),
            list == texts(args@),
            forall|j: int| 0 <= j < i ==> list[j] != "--restore-and-exit"@,
        decreases args@.len() - i,
    {
        assert(list[i as int] == args@[i as int]@);
        if same(args[i].as_str(), "--restore-and-exit") {
            return true;
        }
        i += 1;
    }
    false
}

/// What is reported when a restore did not come to its end.
pub fn worker_lost(error: &str) -> (r: String)
    ensures
        r@ == "controller worker terminated during restore: "@ + error@,
{
    joined("controller worker terminated during restore: ", error)
}

} // verus!
