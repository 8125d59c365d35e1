//! The helper takes its arguments in any order.
use crate::helper::{
    bad_argument, no_slots, parsed_request, request_of, slots_from, with_value, RequestModel, Slots,
};
use vstd::prelude::*;

verus! {

/// What is said in one place of the command line: the action, or a flag with
/// its value.
pub enum Group {
    /// Whether the controller is to be enabled.
    Action(bool),
    Platform(Seq<char>),
    StableId(Seq<char>),
    InstanceId(Seq<char>),
    Fingerprint(Seq<char>),
}

/// What the group says.
pub open spec fn said(group: Group) -> Seq<char> {
    match group {
        Group::Action(true) => "enable"@,
        Group::Action(false) => "disable"@,
        Group::Platform(value) => value,
        Group::StableId(value) => value,
        Group::InstanceId(value) => value,
        Group::Fingerprint(value) => value,
    }
}

/// What the group says it of: the action or one of the four flags.
pub open spec fn subject(group: Group) -> int {
    match group {
        Group::Action(_) => 0,
        Group::Platform(_) => 1,
        Group::StableId(_) => 2,
        Group::InstanceId(_) => 3,
        Group::Fingerprint(_) => 4,
    }
}

/// The arguments that make up a group.
pub open spec fn arguments(group: Group) -> Seq<Seq<char>> {
    match group {
        Group::Action(true) => seq!["--enable"@],
        Group::Action(false) => seq!["--disable"@],
        Group::Platform(value) => seq!["--platform"@, value],
        Group::StableId(value) => seq!["--stable-id"@, value],
        Group::InstanceId(value) => seq!["--instance-id"@, value],
        Group::Fingerprint(value) => seq!["--fingerprint"@, value],
    }
}

/// The command line of some groups.
pub open spec fn command_line(groups: Seq<Group>) -> Seq<Seq<char>>
    decreases groups.len(),
{
    if groups.len() == 0 {
        Seq::empty()
    } else {
        arguments(groups[0]) + command_line(groups.drop_first())
    }
}

/// Whether all values can be handed to the helper.
pub open spec fn all_sound(groups: Seq<Group>) -> bool {
    forall|i: int|
        0 <= i < groups.len() ==> (#[trigger] groups[i]) is Action || !bad_argument(said(groups[i]))
}

/// Whether nothing is said twice.
pub open spec fn nothing_twice(groups: Seq<Group>) -> bool {
    forall|i: int, j: int|
        0 <= i < j < groups.len() ==> subject(#[trigger] groups[i]) != subject(#[trigger] groups[j])
}

/// Whether something is said of a subject.
pub open spec fn is_said(groups: Seq<Group>, about: int) -> bool {
    exists|i: int| 0 <= i < groups.len() && subject(#[trigger] groups[i]) == about
}

pub open spec fn everything_said(groups: Seq<Group>) -> bool {
    forall|about: int| 0 <= about < 5 ==> #[trigger] is_said(groups, about)
}

/// Whether a request holds what a group says.
pub open spec fn takes(request: RequestModel, group: Group) -> bool {
    said(group) == match group {
        Group::Action(_) => request.action,
        Group::Platform(_) => request.platform,
        Group::StableId(_) => request.stable_id,
        Group::InstanceId(_) => request.instance_id,
        Group::Fingerprint(_) => request.fingerprint,
    }
}

spec fn slot(slots: Slots, about: int) -> Option<Seq<char>> {
    if about == 0 {
        slots.action
    } else if about == 1 {
        slots.platform
    } else if about == 2 {
        slots.stable_id
    } else if about == 3 {
        slots.instance_id
    } else {
        slots.fingerprint
    }
}

spec fn filled(slots: Slots, group: Group) -> Slots {
    let value = Some(said(group));
    match group {
        Group::Action(_) => Slots { action: value, ..slots },
        Group::Platform(_) => Slots { platform: value, ..slots },
        Group::StableId(_) => Slots { stable_id: value, ..slots },
        Group::InstanceId(_) => Slots { instance_id: value, ..slots },
        Group::Fingerprint(_) => Slots { fingerprint: value, ..slots },
    }
}

proof fn lemma_flags()
    ensures
        "--enable"@ != "--disable"@,
        "--platform"@ != "--enable"@ && "--platform"@ != "--disable"@,
        "--stable-id"@ != "--enable"@ && "--stable-id"@ != "--disable"@,
        "--instance-id"@ != "--enable"@ && "--instance-id"@ != "--disable"@,
        "--fingerprint"@ != "--enable"@ && "--fingerprint"@ != "--disable"@,
        "--stable-id"@ != "--platform"@,
        "--instance-id"@ != "--platform"@ && "--instance-id"@ != "--stable-id"@,
        "--fingerprint"@ != "--platform"@ && "--fingerprint"@ != "--stable-id"@,
        "--fingerprint"@ != "--instance-id"@,
{
    reveal_strlit("--disable");
    reveal_strlit("--enable");
    reveal_strlit("--platform");
    reveal_strlit("--stable-id");
    reveal_strlit("--instance-id");
    reveal_strlit("--fingerprint");
    assert("--enable"@.len() == 8 && "--disable"@.len() == 9);
    assert("--platform"@.len() == 10 && "--stable-id"@.len() == 11);
    assert("--instance-id"@.len() == 13 && "--fingerprint"@.len() == 13);
    assert("--instance-id"@[2] == 'i' && "--fingerprint"@[2] == 'f');
}

/// One group fills its slot, or is refused where the slot is filled.
proof fn lemma_one_group(args: Seq<Seq<char>>, at: int, slots: Slots, group: Group)
    requires
        0 <= at,
        at + arguments(group).len() <= args.len(),
        args.subrange(at, at + arguments(group).len()) == arguments(group),
        group is Action || !bad_argument(said(group)),
    ensures
        slot(slots, subject(group)) is Some ==> slots_from(args, at, slots) is Err,
        slot(slots, subject(group)) is None ==> slots_from(args, at, slots) == slots_from(
            args,
            at + arguments(group).len(),
            filled(slots, group),
        ),
{
    lemma_flags();
    let part = args.subrange(at, at + arguments(group).len());
    assert(part[0] == args[at]);
    if !(group is Action) {
        assert(part[1] == args[at + 1]);
        assert(with_value(slots, args[at], args[at + 1]) == (if slot(slots, subject(group)) is Some {
            Err("duplicate argument "@ + args[at])
        } else {
            Ok::<Slots, Seq<char>>(filled(slots, group))
        }));
    }
}

proof fn lemma_groups(args: Seq<Seq<char>>, at: int, slots: Slots, groups: Seq<Group>)
    requires
        0 <= at <= args.len(),
        args.skip(at) == command_line(groups),
        all_sound(groups),
    ensures
        slots_from(args, at, slots) is Ok <==> nothing_twice(groups) && forall|i: int|
            0 <= i < groups.len() ==> slot(slots, subject(#[trigger] groups[i])) is None,
        slots_from(args, at, slots) matches Ok(after) ==> {
            &&& forall|i: int|
                0 <= i < groups.len() ==> slot(after, subject(#[trigger] groups[i])) == Some(
                    said(groups[i]),
                )
            &&& forall|about: int|
                0 <= about < 5 && !is_said(groups, about) ==> #[trigger] slot(after, about) == slot(
                    slots,
                    about,
                )
        },
    decreases groups.len(),
{
    if groups.len() == 0 {
        assert(args.skip(at).len() == 0);
    } else {
        let group = groups[0];
        let rest = groups.drop_first();
        let size = arguments(group).len() as int;
        assert(args.skip(at).len() == args.len() - at);
        assert(args.skip(at).take(size) =~= arguments(group));
        assert(args.subrange(at, at + size) =~= args.skip(at).take(size));
        assert(args.skip(at + size) =~= args.skip(at).skip(size));
        assert(args.skip(at).skip(size) =~= command_line(rest));
        lemma_one_group(args, at, slots, group);
        assert forall|i: int| 0 <= i < rest.len() implies (#[trigger] rest[i]) is Action
            || !bad_argument(said(rest[i])) by {
            assert(groups[i + 1] == rest[i]);
        }
        let next = filled(slots, group);
        assert forall|about: int| 0 <= about < 5 implies #[trigger] slot(next, about) == (if about
            == subject(group) {
            Some(said(group))
        } else {
            slot(slots, about)
        }) by {}
        if slot(slots, subject(group)) is None {
            lemma_groups(args, at + size, next, rest);
            let after = slots_from(args, at, slots);
            assert forall|i: int| 0 <= i < rest.len() implies #[trigger] rest[i] == groups[i + 1] by {}
            if after is Ok {
                assert forall|i: int, j: int| 0 <= i < j < groups.len() implies subject(
                    #[trigger] groups[i],
                ) != subject(#[trigger] groups[j]) by {
                    assert(groups[j] == rest[j - 1]);
                    if i > 0 {
                        assert(groups[i] == rest[i - 1]);
                    } else {
                        assert(slot(next, subject(rest[j - 1])) is None);
                    }
                }
                assert forall|i: int| 0 <= i < groups.len() implies slot(
                    slots,
                    subject(#[trigger] groups[i]),
                ) is None && slot(after->Ok_0, subject(groups[i])) == Some(said(groups[i])) by {
                    if i > 0 {
                        assert(groups[i] == rest[i - 1]);
                        assert(slot(next, subject(rest[i - 1])) is None);
                    } else {
                        if is_said(rest, subject(group)) {
                            let j = choose|j: int|
                                0 <= j < rest.len() && subject(#[trigger] rest[j]) == subject(
                                    group,
                                );
                            assert(slot(next, subject(rest[j])) is None);
                        }
                        assert(slot(after->Ok_0, subject(group)) == slot(next, subject(group)));
                    }
                }
                assert forall|about: int| 0 <= about < 5 && !is_said(groups, about) implies
                    #[trigger] slot(after->Ok_0, about) == slot(slots, about) by {
                    assert(subject(groups[0]) != about);
                    if is_said(rest, about) {
                        let j = choose|j: int|
                            0 <= j < rest.len() && subject(#[trigger] rest[j]) == about;
                        assert(subject(groups[j + 1]) == about);
                    }
                }
            } else {
                if nothing_twice(groups) && (forall|i: int|
                    0 <= i < groups.len() ==> slot(slots, subject(#[trigger] groups[i])) is None) {
                    assert(nothing_twice(rest)) by {
                        assert forall|i: int, j: int| 0 <= i < j < rest.len() implies subject(
                            #[trigger] rest[i],
                        ) != subject(#[trigger] rest[j]) by {
                            assert(subject(groups[i + 1]) != subject(groups[j + 1]));
                        }
                    }
                    assert forall|i: int| 0 <= i < rest.len() implies slot(
                        next,
                        subject(#[trigger] rest[i]),
                    ) is None by {
                        assert(subject(groups[0]) != subject(groups[i + 1]));
                        assert(slot(slots, subject(groups[i + 1])) is None);
                    }
                }
            }
        }
    }
}

/// A request is understood exactly where everything is said once, in whatever
/// order, and then it holds what was said.
pub proof fn requests_are_understood_in_any_order(groups: Seq<Group>)
    requires
        all_sound(groups),
    ensures
        parsed_request(command_line(groups)) is Ok <==> nothing_twice(groups) && everything_said(
            groups,
        ),
        parsed_request(command_line(groups)) matches Ok(request) ==> forall|i: int|
            0 <= i < groups.len() ==> takes(request, #[trigger] groups[i]),
{
    let args = command_line(groups);
    assert(args.skip(0) =~= args);
    lemma_groups(args, 0, no_slots(), groups);
    if slots_from(args, 0, no_slots()) is Ok {
        let after = slots_from(args, 0, no_slots())->Ok_0;
        assert forall|about: int| 0 <= about < 5 implies is_said(groups, about) == (#[trigger] slot(
            after,
            about,
        ) is Some) by {
            if is_said(groups, about) {
                let i = choose|i: int| 0 <= i < groups.len() && subject(#[trigger] groups[i]) == about;
                assert(slot(after, subject(groups[i])) is Some);
            }
        }
        assert(slot(after, 0) == after.action && slot(after, 1) == after.platform);
        assert(slot(after, 2) == after.stable_id && slot(after, 3) == after.instance_id);
        assert(slot(after, 4) == after.fingerprint);
        if everything_said(groups) {
            assert(is_said(groups, 0) && is_said(groups, 1) && is_said(groups, 2) && is_said(
                groups,
                3,
            ) && is_said(groups, 4));
        }
        if request_of(after) is Ok {
            assert forall|i: int| 0 <= i < groups.len() implies takes(
                request_of(after)->Ok_0,
                #[trigger] groups[i],
            ) by {
                assert(slot(after, subject(groups[i])) == Some(said(groups[i])));
            }
        }
    }
}

} // verus!
