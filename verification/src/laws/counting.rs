//! Laws on counting: which triggers are let through, and what the tally comes to.

use vstd::prelude::*;

use crate::laws::events::{increasing_goes_on, is_increasing};
use crate::triggers::{
    admitted, all_counted, count_fits, count_of, exhausted, limit_of, tally_fits, within_limit,
    Tally, TriggerChainhook,
};

verus! {

/// How often a predicate was triggered so far.
pub open spec fn tallied(tally: Tally, uuid: Seq<char>) -> int {
    if tally.contains_key(uuid) {
        tally[uuid] as int
    } else {
        0
    }
}

/// How many of the triggers before `i` are of a predicate and stand at one of the
/// given positions.
pub open spec fn among(
    triggers: Seq<TriggerChainhook>,
    kept: Seq<int>,
    i: int,
    uuid: Seq<char>,
) -> int
    decreases i,
{
    if i <= 0 {
        0
    } else {
        among(triggers, kept, i - 1, uuid) + if kept.contains(i - 1)
            && triggers[i - 1].chainhook.uuid@ == uuid {
            1int
        } else {
            0
        }
    }
}

/// Whether the trigger at `i` may be let through, after those at the given
/// positions: its predicate has no limit, or was triggered less often so far. A
/// limit of zero is none.
pub open spec fn may_occur(
    tally: Tally,
    triggers: Seq<TriggerChainhook>,
    kept: Seq<int>,
    i: int,
) -> bool {
    match triggers[i].chainhook.expire_after_occurrence {
        Some(limit) => limit == 0 || tallied(tally, triggers[i].chainhook.uuid@) + among(
            triggers,
            kept,
            i,
            triggers[i].chainhook.uuid@,
        ) < limit,
        None => true,
    }
}

/// The triggers are parted into those that are let through and the others, each in
/// their order.
pub open spec fn are_parted(
    tally: Tally,
    triggers: Seq<TriggerChainhook>,
    kept: Seq<int>,
    dropped: Seq<int>,
) -> bool {
    &&& is_increasing(kept, triggers.len() as int)
    &&& is_increasing(dropped, triggers.len() as int)
    &&& forall|i: int|
        0 <= i < triggers.len() ==> (#[trigger] kept.contains(i) <==> may_occur(
            tally,
            triggers,
            kept,
            i,
        ))
    &&& forall|i: int|
        0 <= i < triggers.len() ==> (#[trigger] dropped.contains(i) <==> !kept.contains(i))
}

/// The positions of the triggers make out which are let through, which predicates
/// are to go, and the tally afterwards.
pub open spec fn is_sorted_at(
    tally: Tally,
    triggers: Seq<TriggerChainhook>,
    through: Seq<TriggerChainhook>,
    gone: Seq<String>,
    after: Tally,
    kept: Seq<int>,
    dropped: Seq<int>,
) -> bool {
    &&& are_parted(tally, triggers, kept, dropped)
    &&& through.len() == kept.len()
    &&& forall|k: int| 0 <= k < kept.len() ==> #[trigger] through[k] == triggers[kept[k]]
    &&& gone.len() == dropped.len()
    &&& forall|k: int|
        0 <= k < dropped.len() ==> #[trigger] gone[k] == triggers[dropped[k]].chainhook.uuid
    &&& forall|uuid: Seq<char>| #[trigger]
        tallied(after, uuid) == tallied(tally, uuid) + among(
            triggers,
            kept,
            triggers.len() as int,
            uuid,
        )
}

/// Some positions make it out: the triggers of each predicate are let through in
/// order until its limit is reached, and are counted; the uuids of the others are
/// those of the predicates that are to go.
pub open spec fn is_sorted_out(
    tally: Tally,
    triggers: Seq<TriggerChainhook>,
    through: Seq<TriggerChainhook>,
    gone: Seq<String>,
    after: Tally,
) -> bool {
    exists|kept: Seq<int>, dropped: Seq<int>|
        is_sorted_at(tally, triggers, through, gone, after, kept, dropped)
}

proof fn count_goes_by_what_is_before(
    triggers: Seq<TriggerChainhook>,
    kept: Seq<int>,
    longer: Seq<TriggerChainhook>,
    more: Seq<int>,
    i: int,
    uuid: Seq<char>,
)
    requires
        0 <= i <= triggers.len() <= longer.len(),
        forall|j: int| 0 <= j < i ==> #[trigger] triggers[j] == longer[j],
        forall|j: int| 0 <= j < i ==> (#[trigger] kept.contains(j) <==> more.contains(j)),
    ensures
        among(triggers, kept, i, uuid) == among(longer, more, i, uuid),
    decreases i,
{
    if i > 0 {
        count_goes_by_what_is_before(triggers, kept, longer, more, i - 1, uuid);
        assert(triggers[i - 1] == longer[i - 1]);
        assert(kept.contains(i - 1) <==> more.contains(i - 1));
    }
}

proof fn triggers_are_parted(tally: Tally, triggers: Seq<TriggerChainhook>) -> (positions: (
    Seq<int>,
    Seq<int>,
))
    requires
        tally_fits(tally, triggers),
    ensures
        is_sorted_at(
            tally,
            triggers,
            admitted(tally, triggers),
            exhausted(tally, triggers),
            all_counted(tally, triggers),
            positions.0,
            positions.1,
        ),
    decreases triggers.len(),
{
    if triggers.len() == 0 {
        let none = Seq::<int>::empty();
        (none, none)
    } else {
        let shorter = triggers.drop_last();
        let last = triggers.len() - 1;
        assert forall|i: int| 0 <= i < shorter.len() implies #[trigger] count_fits(
            tally,
            shorter,
            i,
        ) by {
            assert(count_fits(tally, triggers, i));
            assert(shorter.take(i) =~= triggers.take(i));
        }
        let (kept, dropped) = triggers_are_parted(tally, shorter);
        let before = all_counted(tally, shorter);
        let uuid = triggers[last].chainhook.uuid@;
        increasing_goes_on(kept, last);
        increasing_goes_on(dropped, last);
        assert(triggers.take(last) =~= shorter);
        assert(count_fits(tally, triggers, last));
        assert(tallied(before, uuid) == count_of(before, uuid));
        let through = within_limit(before, triggers.last());
        let (more, others) = if through {
            (kept.push(last), dropped)
        } else {
            (kept, dropped.push(last))
        };
        assert forall|i: int, other: Seq<char>| 0 <= i <= last implies #[trigger] among(
            triggers,
            more,
            i,
            other,
        ) == among(shorter, kept, i, other) by {
            count_goes_by_what_is_before(shorter, kept, triggers, more, i, other);
        }
        assert forall|i: int| 0 <= i < triggers.len() implies (#[trigger] more.contains(i)
            <==> may_occur(tally, triggers, more, i)) by {
            let other = triggers[i].chainhook.uuid@;
            assert(among(triggers, more, i, other) == among(shorter, kept, i, other));
            if i < last {
                assert(shorter[i] == triggers[i]);
                assert(kept.contains(i) <==> may_occur(tally, shorter, kept, i));
            } else {
                assert(tallied(before, uuid) == tallied(tally, uuid) + among(
                    shorter,
                    kept,
                    last,
                    uuid,
                ));
                assert(limit_of(triggers[last]) == 0 || triggers[
                    last
                ].chainhook.expire_after_occurrence == Some(limit_of(triggers[last])));
            }
        }
        assert forall|i: int| 0 <= i < triggers.len() implies (#[trigger] others.contains(i)
            <==> !more.contains(i)) by {
            if i < last {
                assert(dropped.contains(i) <==> !kept.contains(i));
            }
        }
        let after = all_counted(tally, triggers);
        assert forall|other: Seq<char>| #[trigger] tallied(after, other) == tallied(tally, other)
            + among(triggers, more, triggers.len() as int, other) by {
            assert(tallied(before, other) == tallied(tally, other) + among(
                shorter,
                kept,
                last,
                other,
            ));
            assert(among(triggers, more, last, other) == among(shorter, kept, last, other));
        }
        let sent = admitted(tally, triggers);
        let gone = exhausted(tally, triggers);
        assert forall|k: int| 0 <= k < more.len() implies #[trigger] sent[k]
            == triggers[more[k]] by {
            if k < kept.len() {
                assert(sent[k] == admitted(tally, shorter)[k]);
                assert(shorter[kept[k]] == triggers[kept[k]]);
            }
        }
        assert forall|k: int| 0 <= k < others.len() implies #[trigger] gone[k]
            == triggers[others[k]].chainhook.uuid by {
            if k < dropped.len() {
                assert(gone[k] == exhausted(tally, shorter)[k]);
                assert(shorter[dropped[k]] == triggers[dropped[k]]);
            }
        }
        (more, others)
    }
}

/// The triggers that are let through, the predicates that are to go, and the tally
/// afterwards are what counting makes them.
pub proof fn triggers_are_sorted_out(tally: Tally, triggers: Seq<TriggerChainhook>)
    requires
        tally_fits(tally, triggers),
    ensures
        is_sorted_out(
            tally,
            triggers,
            admitted(tally, triggers),
            exhausted(tally, triggers),
            all_counted(tally, triggers),
        ),
{
    let (kept, dropped) = triggers_are_parted(tally, triggers);
    assert(is_sorted_at(
        tally,
        triggers,
        admitted(tally, triggers),
        exhausted(tally, triggers),
        all_counted(tally, triggers),
        kept,
        dropped,
    ));
}

proof fn counts_grow_by_one_at_most(tally: Tally, triggers: Seq<TriggerChainhook>, uuid: Seq<char>)
    requires
        forall|other: Seq<char>| #[trigger]
            tallied(tally, other) + triggers.len() <= u64::MAX,
    ensures
        tallied(all_counted(tally, triggers), uuid) <= tallied(tally, uuid) + triggers.len(),
    decreases triggers.len(),
{
    if triggers.len() > 0 {
        let shorter = triggers.drop_last();
        let other = triggers.last().chainhook.uuid@;
        counts_grow_by_one_at_most(tally, shorter, uuid);
        counts_grow_by_one_at_most(tally, shorter, other);
        assert(tallied(tally, other) + triggers.len() <= u64::MAX);
    }
}

/// An evaluation is accepted unless a count could become too great to be written
/// down.
pub proof fn counts_fit_unless_too_great(tally: Tally, triggers: Seq<TriggerChainhook>)
    requires
        forall|uuid: Seq<char>| #[trigger] tallied(tally, uuid) + triggers.len() <= u64::MAX,
    ensures
        tally_fits(tally, triggers),
{
    assert forall|i: int| 0 <= i < triggers.len() implies #[trigger] count_fits(
        tally,
        triggers,
        i,
    ) by {
        let uuid = triggers[i].chainhook.uuid@;
        let before = triggers.take(i);
        assert forall|other: Seq<char>| #[trigger] tallied(tally, other) + before.len()
            <= u64::MAX by {
            assert(tallied(tally, other) + triggers.len() <= u64::MAX);
        }
        counts_grow_by_one_at_most(tally, before, uuid);
        assert(tallied(tally, uuid) + triggers.len() <= u64::MAX);
    }
}

} // verus!
