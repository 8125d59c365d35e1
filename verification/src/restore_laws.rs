//! What a restore of all records amounts to.
//!
//! Each record takes its own course: the platform answers step by step until
//! the record is counted as restored or as failed.
use crate::controller::{bad_record, DataModel};
use crate::invariants::records_ok;
use crate::platform::{same_device, valid, RecordModel, VerifiedModel};
use crate::service::{
    records_of_others, restore_step, RestoreEventModel, RestoreNextModel, RestoreSummary,
};
use vstd::prelude::*;

verus! {

/// Whether an event is the answer to what had to be done.
pub open spec fn answers(next: RestoreNextModel, event: RestoreEventModel) -> bool {
    match next {
        RestoreNextModel::Enable { verified } => event matches RestoreEventModel::Enabled {
            verified: v,
            ..
        } && v == verified,
        RestoreNextModel::Look { verified } => event matches RestoreEventModel::Looked {
            verified: v,
            ..
        } && v == verified,
        RestoreNextModel::SaveRemoval { identity, before, gone } => event
            matches RestoreEventModel::RemovalSaved { identity: i, before: b, gone: g, .. } && i
            == identity && b == before && g == gone,
        RestoreNextModel::Done => false,
    }
}

/// The data, the count and what has to be done after the events of one record.
pub open spec fn course(
    data: DataModel,
    summary: RestoreSummary,
    record: RecordModel,
    events: Seq<RestoreEventModel>,
) -> (DataModel, RestoreSummary, RestoreNextModel)
    decreases events.len(),
{
    if events.len() <= 1 {
        restore_step(data, summary, record, events[0])
    } else {
        let so_far = course(data, summary, record, events.drop_last());
        restore_step(so_far.0, so_far.1, record, events.last())
    }
}

/// Events that begin with the identity of the record and answer each other.
pub open spec fn in_turn(
    data: DataModel,
    summary: RestoreSummary,
    record: RecordModel,
    events: Seq<RestoreEventModel>,
) -> bool
    decreases events.len(),
{
    if events.len() == 0 {
        false
    } else if events.len() == 1 {
        events[0] is Resolved
    } else {
        in_turn(data, summary, record, events.drop_last()) && answers(
            course(data, summary, record, events.drop_last()).2,
            events.last(),
        )
    }
}

/// The data and the count after the first `n` records.
pub open spec fn restored(
    data: DataModel,
    records: Seq<RecordModel>,
    courses: Seq<Seq<RestoreEventModel>>,
    n: nat,
) -> (DataModel, RestoreSummary)
    decreases n,
{
    if n == 0 {
        (data, RestoreSummary { succeeded: 0, failed: 0 })
    } else {
        let so_far = restored(data, records, courses, (n - 1) as nat);
        let after = course(so_far.0, so_far.1, records[n - 1], courses[n - 1]);
        (after.0, after.1)
    }
}

/// Whether each of the first `n` records took its course to the end.
pub open spec fn all_ended(
    data: DataModel,
    records: Seq<RecordModel>,
    courses: Seq<Seq<RestoreEventModel>>,
    n: nat,
) -> bool {
    forall|k: int|
        0 <= k < n ==> {
            let before = restored(data, records, courses, k as nat);
            &&& in_turn(before.0, before.1, records[k], #[trigger] courses[k])
            &&& course(before.0, before.1, records[k], courses[k]).2 is Done
        }
}

/// Whether the items of one list stand in the other, in the same order.
pub open spec fn is_subsequence<A>(part: Seq<A>, whole: Seq<A>) -> bool
    decreases whole.len(),
{
    if part.len() == 0 {
        true
    } else if whole.len() == 0 {
        false
    } else {
        ||| part.last() == whole.last() && is_subsequence(part.drop_last(), whole.drop_last())
        ||| is_subsequence(part, whole.drop_last())
    }
}

proof fn lemma_course(
    data: DataModel,
    summary: RestoreSummary,
    record: RecordModel,
    events: Seq<RestoreEventModel>,
)
    requires
        in_turn(data, summary, record, events),
        valid(record.identity),
        summary.succeeded < usize::MAX,
        summary.failed < usize::MAX,
    ensures
        ({
            let (after, count, next) = course(data, summary, record, events);
            let others = records_of_others(data.disabled, record.identity);
            match next {
                RestoreNextModel::Enable { verified } => after.disabled == data.disabled && count
                    == summary && verified == record.identity,
                RestoreNextModel::Look { verified } => after.disabled == data.disabled && count
                    == summary && verified == record.identity,
                RestoreNextModel::SaveRemoval { identity, before, gone } => after.disabled == others
                    && count == summary && before == data.disabled,
                RestoreNextModel::Done => {
                    ||| after.disabled == others && count.succeeded == summary.succeeded + 1
                        && count.failed == summary.failed
                    ||| after.disabled == data.disabled && count.succeeded == summary.succeeded
                        && count.failed == summary.failed + 1
                },
            }
        }),
    decreases events.len(),
{
    if events.len() > 1 {
        lemma_course(data, summary, record, events.drop_last());
    }
}

proof fn lemma_others_apart(
    front: Seq<RecordModel>,
    back: Seq<RecordModel>,
    identity: VerifiedModel,
)
    ensures
        records_of_others(front + back, identity) == records_of_others(front, identity)
            + records_of_others(back, identity),
    decreases back.len(),
{
    if back.len() == 0 {
        assert(front + back =~= front);
    } else {
        let all = front + back;
        lemma_others_apart(front, back.drop_last(), identity);
        assert(all.drop_last() =~= front + back.drop_last());
        assert(all.last() == back.last());
    }
}

proof fn lemma_others_all(records: Seq<RecordModel>, identity: VerifiedModel)
    requires
        forall|i: int|
            0 <= i < records.len() ==> !same_device((#[trigger] records[i]).identity, identity),
    ensures
        records_of_others(records, identity) == records,
    decreases records.len(),
{
    if records.len() > 0 {
        let head = records.drop_last();
        assert forall|i: int| 0 <= i < head.len() implies !same_device(
            (#[trigger] head[i]).identity,
            identity,
        ) by {
            assert(head[i] == records[i]);
        }
        lemma_others_all(head, identity);
        assert(records[records.len() - 1] == records.last());
        assert(head.push(records.last()) =~= records);
    }
}

/// Whether all items of a list are among the first `n` records.
spec fn drawn_from(kept: Seq<RecordModel>, records: Seq<RecordModel>, n: nat) -> bool {
    forall|i: int|
        0 <= i < kept.len() ==> exists|j: int| 0 <= j < n && records[j] == #[trigger] kept[i]
}

proof fn lemma_one_gone(records: Seq<RecordModel>, kept: Seq<RecordModel>, m: nat)
    requires
        records_ok(records),
        m < records.len(),
        drawn_from(kept, records, m),
    ensures
        records_of_others(kept + records.skip(m as int), records[m as int].identity) == kept
            + records.skip(m + 1int),
{
    let record = records[m as int];
    let rest = records.skip(m + 1int);
    assert(!bad_record(record));
    assert forall|i: int| 0 <= i < kept.len() implies !same_device(
        (#[trigger] kept[i]).identity,
        record.identity,
    ) by {
        let j = choose|j: int| 0 <= j < m && records[j] == kept[i];
        assert(records[j].id != record.id);
        assert(!bad_record(records[j]));
    }
    assert forall|i: int| 0 <= i < rest.len() implies !same_device(
        (#[trigger] rest[i]).identity,
        record.identity,
    ) by {
        assert(rest[i] == records[i + m + 1]);
        assert(record.id != records[i + m + 1].id);
        assert(!bad_record(records[i + m + 1]));
    }
    lemma_others_all(kept, record.identity);
    lemma_others_all(rest, record.identity);
    assert(records.skip(m as int) =~= seq![record] + rest);
    lemma_others_apart(kept, seq![record] + rest, record.identity);
    lemma_others_apart(seq![record], rest, record.identity);
    assert(records_of_others(seq![record], record.identity) =~= Seq::empty()) by {
        reveal_with_fuel(records_of_others, 2);
        assert(seq![record].drop_last() =~= Seq::empty());
        assert(seq![record].last() == record);
    }
    assert(Seq::<RecordModel>::empty() + rest =~= rest);
}

proof fn lemma_one_kept(records: Seq<RecordModel>, kept: Seq<RecordModel>, m: nat)
    requires
        m < records.len(),
        drawn_from(kept, records, m),
        is_subsequence(kept, records.take(m as int)),
    ensures
        kept.push(records[m as int]) + records.skip(m + 1int) == kept + records.skip(m as int),
        drawn_from(kept.push(records[m as int]), records, m + 1),
        drawn_from(kept, records, m + 1),
        is_subsequence(kept.push(records[m as int]), records.take(m + 1int)),
        is_subsequence(kept, records.take(m + 1int)),
{
    let record = records[m as int];
    let more = kept.push(record);
    assert(more + records.skip(m + 1int) =~= kept + records.skip(m as int));
    assert(records.take(m + 1int).drop_last() =~= records.take(m as int));
    assert(records.take(m + 1int).last() == record);
    assert(more.drop_last() =~= kept);
    assert forall|i: int| 0 <= i < more.len() implies exists|j: int|
        0 <= j < m + 1 && records[j] == #[trigger] more[i] by {
        if i < kept.len() {
            assert(more[i] == kept[i]);
            let j = choose|j: int| 0 <= j < m && records[j] == kept[i];
            assert(records[j] == more[i]);
        } else {
            assert(records[m as int] == more[i]);
        }
    }
    assert forall|i: int| 0 <= i < kept.len() implies exists|j: int|
        0 <= j < m + 1 && records[j] == #[trigger] kept[i] by {
        let j = choose|j: int| 0 <= j < m && records[j] == kept[i];
        assert(records[j] == kept[i]);
    }
}

proof fn lemma_restored(
    data: DataModel,
    courses: Seq<Seq<RestoreEventModel>>,
    n: nat,
) -> (kept: Seq<RecordModel>)
    requires
        records_ok(data.disabled),
        n <= data.disabled.len(),
        n <= courses.len(),
        all_ended(data, data.disabled, courses, n),
    ensures
        restored(data, data.disabled, courses, n).0.disabled == kept + data.disabled.skip(n as int),
        kept.len() == restored(data, data.disabled, courses, n).1.failed,
        restored(data, data.disabled, courses, n).1.succeeded + restored(
            data,
            data.disabled,
            courses,
            n,
        ).1.failed == n,
        is_subsequence(kept, data.disabled.take(n as int)),
        drawn_from(kept, data.disabled, n),
    decreases n,
{
    let records = data.disabled;
    if n == 0 {
        assert(Seq::<RecordModel>::empty() + records.skip(0) =~= records);
        Seq::empty()
    } else {
        let m = (n - 1) as nat;
        assert(all_ended(data, records, courses, m)) by {
            assert forall|k: int| 0 <= k < m implies {
                let before = restored(data, records, courses, k as nat);
                &&& in_turn(before.0, before.1, records[k], #[trigger] courses[k])
                &&& course(before.0, before.1, records[k], courses[k]).2 is Done
            } by {}
        }
        let before = restored(data, records, courses, m);
        let kept = lemma_restored(data, courses, m);
        let record = records[m as int];
        assert(!bad_record(record));
        assert(in_turn(before.0, before.1, record, courses[m as int]));
        lemma_course(before.0, before.1, record, courses[m as int]);
        lemma_one_gone(records, kept, m);
        lemma_one_kept(records, kept, m);
        if restored(data, records, courses, n).1.failed == before.1.failed {
            kept
        } else {
            kept.push(record)
        }
    }
}

/// A restore of all records counts each of them once, as restored or as failed,
/// and the records that remain are as many as failed, in their order.
pub proof fn a_restore_keeps_what_failed(data: DataModel, courses: Seq<Seq<RestoreEventModel>>)
    requires
        records_ok(data.disabled),
        courses.len() == data.disabled.len(),
        all_ended(data, data.disabled, courses, data.disabled.len()),
    ensures
        ({
            let (after, count) = restored(data, data.disabled, courses, data.disabled.len());
            &&& count.succeeded + count.failed == data.disabled.len()
            &&& after.disabled.len() == count.failed
            &&& is_subsequence(after.disabled, data.disabled)
        }),
{
    let n = data.disabled.len();
    let kept = lemma_restored(data, courses, n);
    assert(kept + data.disabled.skip(n as int) =~= kept);
    assert(data.disabled.take(n as int) =~= data.disabled);
}

} // verus!
