//! Laws on occurrences: how often predicates are triggered.

use vstd::prelude::*;

use crate::triggers::{
    admitted, all_counted, count_fits, count_of, counted, exhausted, limit_of, tally_fits,
    within_limit, Tally, TriggerChainhook,
};

verus! {

/// Every trigger is either admitted or exhausts its predicate.
pub proof fn trigger_is_admitted_or_exhausted(tally: Tally, triggers: Seq<TriggerChainhook>)
    ensures
        admitted(tally, triggers).len() + exhausted(tally, triggers).len() == triggers.len(),
    decreases triggers.len(),
{
    if triggers.len() > 0 {
        trigger_is_admitted_or_exhausted(tally, triggers.drop_last());
    }
}

/// The triggers of one predicate.
pub open spec fn triggers_of(triggers: Seq<TriggerChainhook>, uuid: Seq<char>) -> Seq<
    TriggerChainhook,
> {
    triggers.filter(|trigger: TriggerChainhook| trigger.chainhook.uuid@ == uuid)
}

/// Counts that fit for some triggers fit for all but the last of them.
pub(crate) proof fn fewer_counts_fit(tally: Tally, triggers: Seq<TriggerChainhook>)
    requires
        tally_fits(tally, triggers),
        triggers.len() > 0,
    ensures
        tally_fits(tally, triggers.drop_last()),
        count_of(all_counted(tally, triggers.drop_last()), triggers.last().chainhook.uuid@)
            < u64::MAX,
{
    let shorter = triggers.drop_last();
    assert forall|i: int| 0 <= i < shorter.len() implies #[trigger] count_fits(
        tally,
        shorter,
        i,
    ) by {
        assert(count_fits(tally, triggers, i));
        assert(shorter.take(i) =~= triggers.take(i));
    }
    assert(count_fits(tally, triggers, triggers.len() - 1));
    assert(triggers.take(triggers.len() - 1) =~= shorter);
}

/// The count of a predicate grows by the number of its triggers that are
/// admitted.
pub proof fn admitted_triggers_are_counted(
    tally: Tally,
    triggers: Seq<TriggerChainhook>,
    uuid: Seq<char>,
)
    requires
        tally_fits(tally, triggers),
    ensures
        count_of(all_counted(tally, triggers), uuid) == count_of(tally, uuid) + triggers_of(
            admitted(tally, triggers),
            uuid,
        ).len(),
    decreases triggers.len(),
{
    reveal(Seq::filter);
    if triggers.len() > 0 {
        let shorter = triggers.drop_last();
        fewer_counts_fit(tally, triggers);
        admitted_triggers_are_counted(tally, shorter, uuid);
        let before = admitted(tally, shorter);
        assert(before.push(triggers.last()).drop_last() =~= before);
    }
}

/// The count of a predicate never falls.
pub proof fn count_never_falls(tally: Tally, triggers: Seq<TriggerChainhook>, uuid: Seq<char>)
    requires
        tally_fits(tally, triggers),
    ensures
        count_of(tally, uuid) <= count_of(all_counted(tally, triggers), uuid),
{
    admitted_triggers_are_counted(tally, triggers, uuid);
}

/// A predicate that expires after a number of occurrences is never triggered
/// more often than that.
pub proof fn limit_is_never_exceeded(
    tally: Tally,
    triggers: Seq<TriggerChainhook>,
    uuid: Seq<char>,
    limit: u64,
)
    requires
        tally_fits(tally, triggers),
        limit > 0,
        forall|i: int|
            0 <= i < triggers.len() && (#[trigger] triggers[i]).chainhook.uuid@ == uuid
                ==> limit_of(triggers[i]) == limit,
        count_of(tally, uuid) <= limit,
    ensures
        count_of(all_counted(tally, triggers), uuid) <= limit,
        count_of(tally, uuid) + triggers_of(admitted(tally, triggers), uuid).len() <= limit,
    decreases triggers.len(),
{
    admitted_triggers_are_counted(tally, triggers, uuid);
    if triggers.len() > 0 {
        let shorter = triggers.drop_last();
        fewer_counts_fit(tally, triggers);
        assert forall|i: int|
            0 <= i < shorter.len() && (#[trigger] shorter[i]).chainhook.uuid@
                == uuid implies limit_of(shorter[i]) == limit by {
            assert(shorter[i] == triggers[i]);
        }
        limit_is_never_exceeded(tally, shorter, uuid, limit);
        assert(triggers.last() == triggers[triggers.len() - 1]);
    }
}

/// A trigger whose predicate has reached its limit is not admitted: its
/// predicate is to be deregistered.
pub proof fn exhausted_predicate_is_named(
    tally: Tally,
    triggers: Seq<TriggerChainhook>,
    i: int,
)
    requires
        tally_fits(tally, triggers),
        0 <= i < triggers.len(),
        limit_of(triggers[i]) > 0,
        count_of(tally, triggers[i].chainhook.uuid@) >= limit_of(triggers[i]),
    ensures
        exhausted(tally, triggers).contains(triggers[i].chainhook.uuid),
    decreases triggers.len(),
{
    let shorter = triggers.drop_last();
    let uuid = triggers[i].chainhook.uuid;
    fewer_counts_fit(tally, triggers);
    if i < shorter.len() {
        assert(shorter[i] == triggers[i]);
        exhausted_predicate_is_named(tally, shorter, i);
        let k = choose|k: int|
            0 <= k < exhausted(tally, shorter).len() && exhausted(tally, shorter)[k] == uuid;
        assert(exhausted(tally, triggers)[k] == uuid);
    } else {
        count_never_falls(tally, shorter, uuid@);
        assert(!within_limit(all_counted(tally, shorter), triggers.last()));
        assert(exhausted(tally, triggers)[exhausted(tally, shorter).len() as int] == uuid);
    }
}

/// A predicate without a limit is always triggered.
pub proof fn unlimited_predicate_is_always_triggered(
    tally: Tally,
    triggers: Seq<TriggerChainhook>,
    i: int,
)
    requires
        0 <= i < triggers.len(),
        limit_of(triggers[i]) == 0,
    ensures
        admitted(tally, triggers).contains(triggers[i]),
    decreases triggers.len(),
{
    let shorter = triggers.drop_last();
    let before = admitted(tally, shorter);
    if i < shorter.len() {
        assert(shorter[i] == triggers[i]);
        unlimited_predicate_is_always_triggered(tally, shorter, i);
        let k = choose|k: int| 0 <= k < before.len() && before[k] == triggers[i];
        assert(admitted(tally, triggers)[k] == triggers[i]);
    } else {
        assert(admitted(tally, triggers)[before.len() as int] == triggers[i]);
    }
}

/// A predicate that is not triggered keeps its count.
pub proof fn other_counts_stay(tally: Tally, trigger: TriggerChainhook, uuid: Seq<char>)
    requires
        trigger.chainhook.uuid@ != uuid,
    ensures
        count_of(counted(tally, trigger), uuid) == count_of(tally, uuid),
{
}

} // verus!
