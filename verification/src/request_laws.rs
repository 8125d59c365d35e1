//! Which requests are refused before anything is looked at.
use crate::helper::{parsed_request, slots_from, no_slots, with_value, Slots};
use crate::input::ControllerModel;
use crate::linux::{device_of, native_check};
use crate::linux_helper::{
    first_bytes, listed_identity, recovery_lookup, recovery_probed, resolved, LookupModel,
};
use crate::identity::token;
use crate::platform::{ControlCoverage, DeviceModel, ErrorModel, VerifiedModel};
use crate::text::utf8_len;
use vstd::prelude::*;

verus! {

// Arguments.
/// No argument from one place on is the flag.
pub open spec fn lacks(args: Seq<Seq<char>>, at: int, flag: Seq<char>) -> bool {
    forall|i: int| at <= i < args.len() ==> #[trigger] args[i] != flag
}

proof fn lemma_lacks(args: Seq<Seq<char>>, at: int, slots: Slots)
    requires
        0 <= at,
    ensures
        slots_from(args, at, slots) matches Ok(after) ==> {
            &&& lacks(args, at, "--platform"@) ==> after.platform == slots.platform
            &&& lacks(args, at, "--stable-id"@) ==> after.stable_id == slots.stable_id
            &&& lacks(args, at, "--instance-id"@) ==> after.instance_id == slots.instance_id
            &&& lacks(args, at, "--fingerprint"@) ==> after.fingerprint == slots.fingerprint
            &&& lacks(args, at, "--enable"@) && lacks(args, at, "--disable"@) ==> after.action
                == slots.action
        },
    decreases args.len() - at,
{
    if at < args.len() {
        let flag = args[at];
        if flag == "--disable"@ || flag == "--enable"@ {
            let action = if flag == "--disable"@ {
                "disable"@
            } else {
                "enable"@
            };
            lemma_lacks(args, at + 1, Slots { action: Some(action), ..slots });
        } else if at + 1 < args.len() {
            if let Ok(next) = with_value(slots, flag, args[at + 1]) {
                lemma_lacks(args, at + 2, next);
            }
        }
    }
}

/// A request that lacks its action or a part of the identity is refused.
pub proof fn an_incomplete_request_is_refused(args: Seq<Seq<char>>)
    requires
        lacks(args, 0, "--platform"@) || lacks(args, 0, "--stable-id"@) || lacks(
            args,
            0,
            "--instance-id"@,
        ) || lacks(args, 0, "--fingerprint"@) || lacks(args, 0, "--enable"@) && lacks(
            args,
            0,
            "--disable"@,
        ),
    ensures
        parsed_request(args) is Err,
{
    lemma_lacks(args, 0, no_slots());
}

/// An argument that comes twice, is not known, lacks its value or has one that is
/// too long or holds a control character is refused.
pub proof fn a_malformed_argument_is_refused(
    args: Seq<Seq<char>>,
    at: int,
    slots: Slots,
    value: Seq<char>,
    i: int,
)
    requires
        0 <= at < args.len(),
    ensures
        slots.action is Some && (args[at] == "--enable"@ || args[at] == "--disable"@)
            ==> slots_from(args, at, slots) is Err,
        slots.platform is Some ==> with_value(slots, "--platform"@, value) is Err,
        slots.stable_id is Some ==> with_value(slots, "--stable-id"@, value) is Err,
        slots.instance_id is Some ==> with_value(slots, "--instance-id"@, value) is Err,
        slots.fingerprint is Some ==> with_value(slots, "--fingerprint"@, value) is Err,
        args[at] != "--enable"@ && args[at] != "--disable"@ ==> {
            &&& at + 1 == args.len() ==> slots_from(args, at, slots) is Err
            &&& at + 1 < args.len() && args[at] != "--platform"@ && args[at] != "--stable-id"@
                && args[at] != "--instance-id"@ && args[at] != "--fingerprint"@ ==> slots_from(
                args,
                at,
                slots,
            ) is Err
            &&& at + 1 < args.len() && utf8_len(args[at + 1]) > 4096 ==> slots_from(args, at, slots)
                is Err
            &&& at + 1 < args.len() && 0 <= i < args[at + 1].len() && (args[at + 1][i] < ' '
                || args[at + 1][i] == '\u{7f}') ==> slots_from(args, at, slots) is Err
        },
{
    reveal_strlit("--platform");
    reveal_strlit("--stable-id");
    reveal_strlit("--instance-id");
    reveal_strlit("--fingerprint");
    assert("--platform"@.len() == 10);
    assert("--stable-id"@.len() == 11);
    assert("--instance-id"@.len() == 13 && "--instance-id"@[2] == 'i');
    assert("--fingerprint"@.len() == 13 && "--fingerprint"@[2] == 'f');
    if at + 1 < args.len() && 0 <= i < args[at + 1].len() && (args[at + 1][i] < ' ' || args[at
        + 1][i] == '\u{7f}') {
        assert(crate::helper::ascii_control(args[at + 1][i]));
        assert(crate::helper::bad_argument(args[at + 1]));
    }
}

// Recoveries.
/// An identifier that is none of a controller, or under which nothing is listed,
/// is not resolved.
pub proof fn what_is_not_resolved(id: Seq<char>, devices: Seq<DeviceModel>)
    ensures
        !token(id, "linux-controller-"@) ==> (resolved(id, devices) matches Err(e) && e
            is VerificationFailed),
        token(id, "linux-controller-"@) && listed_identity(devices, id) is None ==> resolved(
            id,
            devices,
        ) == Err::<VerifiedModel, ErrorModel>(
            ErrorModel::NotFound(id + ": controller is not present in the verified inventory"@),
        ),
{
}

/// A recovery under another identifier or of another platform is refused; one of
/// which nothing is listed looks at the function itself, which has to show the
/// identity on record.
pub proof fn what_a_recovery_looks_at(
    id: Seq<char>,
    expected: VerifiedModel,
    devices: Seq<DeviceModel>,
    controller: ControllerModel,
    gone: bool,
)
    ensures
        id != expected.stable_id || expected.platform != "linux"@ ==> (recovery_lookup(
            id,
            expected,
            devices,
        ) matches LookupModel::Failed(e) && e is IdentityMismatch),
        id == expected.stable_id && expected.platform == "linux"@ && native_check(expected) is Err
            ==> recovery_lookup(id, expected, devices) is Failed,
        id == expected.stable_id && expected.platform == "linux"@ && native_check(expected) is Ok
            && listed_identity(devices, id) is None ==> recovery_lookup(id, expected, devices)
            == LookupModel::Probe(native_check(expected)->Ok_0),
        controller.can_full_control && device_of(
            controller,
            ControlCoverage::Full,
            false,
            true,
        ).verified != Some(expected) ==> (recovery_probed(
            id,
            expected,
            Ok(controller),
            true,
            gone,
        ) matches Err(e) && e is IdentityMismatch),
        !controller.can_full_control ==> (recovery_probed(
            id,
            expected,
            Ok(controller),
            true,
            gone,
        ) matches Err(e) && e is PermissionDenied),
{
}

/// No more than the first five hundred and twelve bytes of an output are shown.
pub proof fn how_much_output_is_shown(bytes: Seq<u8>)
    ensures
        bytes.len() <= 512 ==> first_bytes(bytes) == bytes,
        bytes.len() > 512 ==> first_bytes(bytes) == bytes.take(512),
{
    if bytes.len() == 512 {
        assert(bytes.take(512) =~= bytes);
    }
}

} // verus!
