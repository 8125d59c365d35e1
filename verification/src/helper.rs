//! The privileged helper: its command line, its checks before a function is
//! touched, and the order of its steps.
//!
//! Each of the longer operations is a function from what just happened to what
//! has to be done next; reading, writing and waiting are left to the caller.
use crate::fingerprint::{identity_check, validate_identity, Identity, IdentityModel};
use crate::function::FileMetadata;
use crate::identity::{token, valid_stable_id};
use crate::text::{
    byte_len, chars_of, joined, opt_text, printable, printable_of, same, string_of, text_result,
    texts, utf8_len,
};
use vstd::prelude::*;

verus! {

pub const MAX_ARGUMENT: usize = 4096;

// The command line.
/// A request to disable or enable a controller.
#[derive(Debug)]
pub struct Request {
    pub action: String,
    pub platform: String,
    pub stable_id: String,
    pub instance_id: String,
    pub fingerprint: String,
}

pub struct RequestModel {
    pub action: Seq<char>,
    pub platform: Seq<char>,
    pub stable_id: Seq<char>,
    pub instance_id: Seq<char>,
    pub fingerprint: Seq<char>,
}

impl View for Request {
    type V = RequestModel;

    open spec fn view(&self) -> RequestModel {
        RequestModel {
            action: self.action@,
            platform: self.platform@,
            stable_id: self.stable_id@,
            instance_id: self.instance_id@,
            fingerprint: self.fingerprint@,
        }
    }
}

/// The parts of a request as far as they were given.
pub struct Slots {
    pub action: Option<Seq<char>>,
    pub platform: Option<Seq<char>>,
    pub stable_id: Option<Seq<char>>,
    pub instance_id: Option<Seq<char>>,
    pub fingerprint: Option<Seq<char>>,
}

pub open spec fn no_slots() -> Slots {
    Slots { action: None, platform: None, stable_id: None, instance_id: None, fingerprint: None }
}

pub open spec fn ascii_control(c: char) -> bool {
    c <= '\u{1f}' || c == '\u{7f}'
}

/// An argument value that is too long or holds a control byte.
pub open spec fn bad_argument(value: Seq<char>) -> bool {
    ||| utf8_len(value) > MAX_ARGUMENT
    ||| exists|i: int| 0 <= i < value.len() && ascii_control(#[trigger] value[i])
}

pub open spec fn once(slot: Option<Seq<char>>, value: Seq<char>, flag: Seq<char>) -> Result<
    Option<Seq<char>>,
    Seq<char>,
> {
    if slot is Some {
        Err("duplicate argument "@ + flag)
    } else {
        Ok(Some(value))
    }
}

/// The slots after one flag with its value.
pub open spec fn with_value(slots: Slots, flag: Seq<char>, value: Seq<char>) -> Result<
    Slots,
    Seq<char>,
> {
    if flag == "--platform"@ {
        match once(slots.platform, value, flag) {
            Ok(platform) => Ok(Slots { platform, ..slots }),
            Err(e) => Err(e),
        }
    } else if flag == "--stable-id"@ {
        match once(slots.stable_id, value, flag) {
            Ok(stable_id) => Ok(Slots { stable_id, ..slots }),
            Err(e) => Err(e),
        }
    } else if flag == "--instance-id"@ {
        match once(slots.instance_id, value, flag) {
            Ok(instance_id) => Ok(Slots { instance_id, ..slots }),
            Err(e) => Err(e),
        }
    } else if flag == "--fingerprint"@ {
        match once(slots.fingerprint, value, flag) {
            Ok(fingerprint) => Ok(Slots { fingerprint, ..slots }),
            Err(e) => Err(e),
        }
    } else {
        Err("unsupported helper argument "@ + flag)
    }
}

/// The slots after all arguments from one place on.
pub open spec fn slots_from(args: Seq<Seq<char>>, at: int, slots: Slots) -> Result<Slots, Seq<char>>
    decreases args.len() - at,
{
    if at < 0 || at >= args.len() {
        Ok(slots)
    } else {
        let flag = args[at];
        if flag == "--disable"@ || flag == "--enable"@ {
            if slots.action is Some {
                Err("duplicate helper action"@)
            } else {
                let action = if flag == "--disable"@ {
                    "disable"@
                } else {
                    "enable"@
                };
                slots_from(args, at + 1, Slots { action: Some(action), ..slots })
            }
        } else if at + 1 >= args.len() {
            Err("missing value for "@ + flag)
        } else if bad_argument(args[at + 1]) {
            Err("helper argument is malformed"@)
        } else {
            match with_value(slots, flag, args[at + 1]) {
                Err(e) => Err(e),
                Ok(next) => slots_from(args, at + 2, next),
            }
        }
    }
}

pub open spec fn request_of(slots: Slots) -> Result<RequestModel, Seq<char>> {
    match (slots.action, slots.platform, slots.stable_id, slots.instance_id, slots.fingerprint) {
        (None, _, _, _, _) => Err("missing helper action"@),
        (_, None, _, _, _) => Err("missing platform"@),
        (_, _, None, _, _) => Err("missing stable ID"@),
        (_, _, _, None, _) => Err("missing instance ID"@),
        (_, _, _, _, None) => Err("missing identity fingerprint"@),
        (Some(action), Some(platform), Some(stable_id), Some(instance_id), Some(fingerprint)) => Ok(
            RequestModel { action, platform, stable_id, instance_id, fingerprint },
        ),
    }
}

pub open spec fn parsed_request(args: Seq<Seq<char>>) -> Result<RequestModel, Seq<char>> {
    match slots_from(args, 0, no_slots()) {
        Err(e) => Err(e),
        Ok(slots) => request_of(slots),
    }
}

pub open spec fn request_result(r: Result<Request, String>) -> Result<RequestModel, Seq<char>> {
    match r {
        Ok(request) => Ok(request@),
        Err(e) => Err(e@),
    }
}

pub fn set_once(slot: &mut Option<String>, value: &str, flag: &str) -> (r: Result<(), String>)
    ensures
        match once(opt_text(*old(slot)), value@, flag@) {
            Ok(after) => r is Ok && opt_text(*final(slot)) == after,
            Err(e) => *final(slot) == *old(slot) && (r matches Err(m) && m@ == e),
        },
{
    if slot.is_some() {
        return Err(joined("duplicate argument ", flag));
    }
    *slot = Some(value.to_owned());
    Ok(())
}

fn argument_is_bad(value: &str) -> (r: bool)
    ensures
        r == bad_argument(value@),
{
    if byte_len(value) > MAX_ARGUMENT {
        return true;
    }
    let chars = chars_of(value);
    let mut i: usize = 0;
    while i < chars.len()
        invariant
            i <= chars@.len(),
            chars@ == value@,
            forall|j: int| 0 <= j < i ==> !ascii_control(#[trigger] value@[j]),
        decreases chars@.len() - i,
    {
        if chars[i] <= '\u{1f}' || chars[i] == '\u{7f}' {
            assert(ascii_control(value@[i as int]));
            return true;
        }
        i += 1;
    }
    false
}

impl Request {
    pub fn parse(args: Vec<String>) -> (r: Result<Self, String>)
        ensures
            request_result(r) == parsed_request(texts(args@)),
    {
        let ghost all = texts(args@);
        let mut action: Option<String> = None;
        let mut platform: Option<String> = None;
        let mut stable_id: Option<String> = None;
        let mut instance_id: Option<String> = None;
        let mut fingerprint: Option<String> = None;
        let mut index: usize = 0;
        while index < args.len()
            invariant
                index <= args@.len(),
                all == texts(args@),
                slots_from(all, 0, no_slots()) == slots_from(
                    all,
                    index as int,
                    Slots {
                        action: opt_text(action),
                        platform: opt_text(platform),
                        stable_id: opt_text(stable_id),
                        instance_id: opt_text(instance_id),
                        fingerprint: opt_text(fingerprint),
                    },
                ),
            decreases args@.len() - index,
        {
            let flag = args[index].as_str();
            assert(all[index as int] == flag@);
            let disable = same(flag, "--disable");
            if disable || same(flag, "--enable") {
                if action.is_some() {
                    return Err("duplicate helper action".to_owned());
                }
                action = if disable {
                    Some("disable".to_owned())
                } else {
                    Some("enable".to_owned())
                };
                index += 1;
                continue ;
            }
            if args.len() - index < 2 {
                return Err(joined("missing value for ", flag));
            }
            let value = args[index + 1].as_str();
            assert(all[index + 1] == value@);
            if argument_is_bad(value) {
                return Err("helper argument is malformed".to_owned());
            }
            if same(flag, "--platform") {
                set_once(&mut platform, value, flag)?;
            } else if same(flag, "--stable-id") {
                set_once(&mut stable_id, value, flag)?;
            } else if same(flag, "--instance-id") {
                set_once(&mut instance_id, value, flag)?;
            } else if same(flag, "--fingerprint") {
                set_once(&mut fingerprint, value, flag)?;
            } else {
                return Err(joined("unsupported helper argument ", flag));
            }
            index += 2;
        }
        let action = match action {
            Some(action) => action,
            None => {
                return Err("missing helper action".to_owned());
            },
        };
        let platform = match platform {
            Some(platform) => platform,
            None => {
                return Err("missing platform".to_owned());
            },
        };
        let stable_id = match stable_id {
            Some(stable_id) => stable_id,
            None => {
                return Err("missing stable ID".to_owned());
            },
        };
        let instance_id = match instance_id {
            Some(instance_id) => instance_id,
            None => {
                return Err("missing instance ID".to_owned());
            },
        };
        let fingerprint = match fingerprint {
            Some(fingerprint) => fingerprint,
            None => {
                return Err("missing identity fingerprint".to_owned());
            },
        };
        Ok(Request { action, platform, stable_id, instance_id, fingerprint })
    }
}

/// How the helper ends: its exit code and what it prints.
#[derive(Debug)]
pub struct HelperExit {
    pub code: i32,
    pub message: String,
}

impl View for HelperExit {
    type V = (i32, Seq<char>);

    open spec fn view(&self) -> (i32, Seq<char>) {
        (self.code, self.message@)
    }
}

pub open spec fn ok_exit() -> (i32, Seq<char>) {
    (0i32, "ok"@)
}

pub fn exit_ok() -> (r: HelperExit)
    ensures
        r@ == ok_exit(),
{
    HelperExit { code: 0, message: "ok".to_owned() }
}

fn exit_with(code: i32, message: &str) -> (r: HelperExit)
    ensures
        r@ == (code, message@),
{
    HelperExit { code, message: message.to_owned() }
}

/// What the helper was started for.
#[derive(Debug)]
pub enum HelperMode {
    PrepareRemoval,
    ClearRemovalGate,
    RestoreJournal,
    Disable(Identity),
    Enable(Identity),
}

pub enum ModeModel {
    PrepareRemoval,
    ClearRemovalGate,
    RestoreJournal,
    Disable(IdentityModel),
    Enable(IdentityModel),
}

impl View for HelperMode {
    type V = ModeModel;

    open spec fn view(&self) -> ModeModel {
        match self {
            HelperMode::PrepareRemoval => ModeModel::PrepareRemoval,
            HelperMode::ClearRemovalGate => ModeModel::ClearRemovalGate,
            HelperMode::RestoreJournal => ModeModel::RestoreJournal,
            HelperMode::Disable(identity) => ModeModel::Disable(identity@),
            HelperMode::Enable(identity) => ModeModel::Enable(identity@),
        }
    }
}

pub open spec fn maintenance_flag(args: Seq<Seq<char>>) -> bool {
    args.len() == 1 && (args[0] == "--prepare-removal"@ || args[0] == "--clear-removal-gate"@
        || args[0] == "--restore-journal"@)
}

/// Root only; maintenance modes not through polkit; an enable request needs
/// only a well-formed stable identifier, a disable request a valid identity.
pub open spec fn mode_of(root: bool, args: Seq<Seq<char>>, through_pkexec: bool) -> Result<
    ModeModel,
    (i32, Seq<char>),
> {
    if !root {
        Err((4i32, "the Linux input helper must run as root through polkit"@))
    } else if maintenance_flag(args) && through_pkexec {
        Err(
            (
                4i32,
                "package maintenance helper modes must run from the package manager as direct root"@,
            ),
        )
    } else if maintenance_flag(args) {
        if args[0] == "--prepare-removal"@ {
            Ok(ModeModel::PrepareRemoval)
        } else if args[0] == "--clear-removal-gate"@ {
            Ok(ModeModel::ClearRemovalGate)
        } else {
            Ok(ModeModel::RestoreJournal)
        }
    } else {
        match parsed_request(args) {
            Err(e) => Err((2i32, e)),
            Ok(request) => {
                let identity = IdentityModel {
                    platform: request.platform,
                    stable_id: request.stable_id,
                    instance_id: request.instance_id,
                    fingerprint: request.fingerprint,
                };
                if request.action == "enable"@ {
                    if identity.platform != "linux"@ || !token(
                        identity.stable_id,
                        "linux-controller-"@,
                    ) {
                        Err((2i32, "malformed Linux controller stable ID"@))
                    } else {
                        Ok(ModeModel::Enable(identity))
                    }
                } else {
                    match identity_check(identity) {
                        Err(e) => Err((2i32, e)),
                        Ok(_) => Ok(ModeModel::Disable(identity)),
                    }
                }
            },
        }
    }
}

pub open spec fn mode_result(r: Result<HelperMode, HelperExit>) -> Result<
    ModeModel,
    (i32, Seq<char>),
> {
    match r {
        Ok(mode) => Ok(mode@),
        Err(exit) => Err(exit@),
    }
}

pub fn helper_mode(root: bool, args: Vec<String>, through_pkexec: bool) -> (r: Result<
    HelperMode,
    HelperExit,
>)
    ensures
        mode_result(r) == mode_of(root, texts(args@), through_pkexec),
{
    if !root {
        return Err(exit_with(4, "the Linux input helper must run as root through polkit"));
    }
    let ghost all = texts(args@);
    if args.len() == 1 {
        assert(all[0] == args@[0]@);
        let flag = args[0].as_str();
        let prepare = same(flag, "--prepare-removal");
        let clear = same(flag, "--clear-removal-gate");
        let restore = same(flag, "--restore-journal");
        if prepare || clear || restore {
            if through_pkexec {
                return Err(
                    exit_with(
                        4,
                        "package maintenance helper modes must run from the package manager as direct root",
                    ),
                );
            }
            if prepare {
                return Ok(HelperMode::PrepareRemoval);
            }
            if clear {
                return Ok(HelperMode::ClearRemovalGate);
            }
            return Ok(HelperMode::RestoreJournal);
        }
    }
    let request = match Request::parse(args) {
        Ok(request) => request,
        Err(message) => {
            return Err(HelperExit { code: 2, message });
        },
    };
    let enable = same(request.action.as_str(), "enable");
    let identity = Identity {
        platform: request.platform,
        stable_id: request.stable_id,
        instance_id: request.instance_id,
        fingerprint: request.fingerprint,
    };
    if enable {
        if !same(identity.platform.as_str(), "linux") || !valid_stable_id(
            identity.stable_id.as_str(),
        ) {
            return Err(exit_with(2, "malformed Linux controller stable ID"));
        }
        Ok(HelperMode::Enable(identity))
    } else {
        match validate_identity(&identity) {
            Err(message) => Err(HelperExit { code: 2, message }),
            Ok(_) => Ok(HelperMode::Disable(identity)),
        }
    }
}

pub open spec fn message_of(s: Seq<char>) -> Seq<char> {
    if printable(s).len() > 512 {
        printable(s).take(512)
    } else {
        printable(s)
    }
}

/// What is printed of a message: at most 512 of its printable characters.
pub fn exit_message(message: &str) -> (r: String)
    ensures
        r@ == message_of(message@),
{
    let kept = printable_of(message);
    if kept.len() > 512 {
        let head = vstd::slice::slice_subrange(kept.as_slice(), 0, 512);
        assert(head@ == kept@.take(512));
        string_of(head)
    } else {
        string_of(kept.as_slice())
    }
}

// The removal marker.
/// Whether the removal marker is a regular file of root with mode 0600.
pub fn gate_file(metadata: &Result<FileMetadata, String>) -> (r: Result<(), String>)
    ensures
        text_result(r) == gate_check(text_result(*metadata)),
{
    match metadata {
        Err(error) => Err(joined("cannot inspect Controwly removal gate: ", error.as_str())),
        Ok(m) => {
            if !m.is_file || m.uid != 0 || m.mode & 0o022 != 0 || m.mode & 0o777 != 0o600 {
                Err("Controwly removal gate is not a root-owned mode-0600 regular file".to_owned())
            } else {
                Ok(())
            }
        },
    }
}

pub open spec fn gate_check(metadata: Result<FileMetadata, Seq<char>>) -> Result<(), Seq<char>> {
    match metadata {
        Err(e) => Err("cannot inspect Controwly removal gate: "@ + e),
        Ok(m) => if !m.is_file || m.uid != 0 || m.mode & 0o022 != 0 || m.mode & 0o777 != 0o600 {
            Err("Controwly removal gate is not a root-owned mode-0600 regular file"@)
        } else {
            Ok(())
        },
    }
}

/// Whether the directory of the removal marker belongs to root alone.
pub fn gate_directory(metadata: &Result<FileMetadata, String>) -> (r: Result<(), String>)
    ensures
        text_result(r) == (match text_result(*metadata) {
            Err(e) => Err("cannot inspect Controwly recovery directory: "@ + e),
            Ok(m) => if !m.is_dir || m.uid != 0 || m.mode & 0o022 != 0 {
                Err("Controwly recovery directory is not root-owned and non-writable"@)
            } else {
                Ok::<(), Seq<char>>(())
            },
        }),
{
    match metadata {
        Err(error) => Err(joined("cannot inspect Controwly recovery directory: ", error.as_str())),
        Ok(m) => {
            if !m.is_dir || m.uid != 0 || m.mode & 0o022 != 0 {
                Err("Controwly recovery directory is not root-owned and non-writable".to_owned())
            } else {
                Ok(())
            }
        },
    }
}

/// What opening the removal marker brought.
#[derive(Debug)]
pub enum GateReading {
    Missing,
    Failed(String),
    Opened(Result<FileMetadata, String>),
}

pub open spec fn gate_state(reading: GateReading) -> Result<bool, Seq<char>> {
    match reading {
        GateReading::Missing => Ok(false),
        GateReading::Failed(e) => Err("cannot inspect Controwly removal gate: "@ + e@),
        GateReading::Opened(metadata) => match gate_check(text_result(metadata)) {
            Err(e) => Err(e),
            Ok(_) => Ok(true),
        },
    }
}

/// Whether disables are blocked because the package is being removed.
pub fn removal_gate_active(reading: &GateReading) -> (r: Result<bool, String>)
    ensures
        text_result(r) == gate_state(*reading),
{
    match reading {
        GateReading::Missing => Ok(false),
        GateReading::Failed(error) => Err(
            joined("cannot inspect Controwly removal gate: ", error.as_str()),
        ),
        GateReading::Opened(metadata) => {
            gate_file(metadata)?;
            Ok(true)
        },
    }
}

} // verus!
