//! Laws on reports: they list what was found, all of it and nothing else.

use vstd::prelude::*;

use crate::chain::{BlockIdentifier, BlockKey};
use crate::report::{noted, noted_blocks, noted_pairs, ReportView};
use crate::triggers::{applied_keys, noted_triggers, Evaluation, TriggerChainhook};

verus! {

/// Whether a block is noted for a predicate.
pub open spec fn is_noted(
    map: Map<Seq<char>, Set<BlockKey>>,
    uuid: Seq<char>,
    block: BlockKey,
) -> bool {
    map.contains_key(uuid) && map[uuid].contains(block)
}

/// Whether a predicate and a block stand in a list.
pub open spec fn is_listed(
    pairs: Seq<(String, BlockIdentifier)>,
    uuid: Seq<char>,
    block: BlockKey,
) -> bool {
    exists|i: int| 0 <= i < pairs.len() && (#[trigger] pairs[i]).0@ == uuid && pairs[i].1@ == block
}

/// Whether a block is one of those that a trigger applies to.
pub open spec fn applies_to(trigger: TriggerChainhook, block: BlockKey) -> bool {
    exists|b: int|
        0 <= b < trigger.apply@.len() && (#[trigger] trigger.apply@[b]).block_identifier@ == block
}

/// Whether a predicate was triggered by a block.
pub open spec fn is_triggered(
    triggers: Seq<TriggerChainhook>,
    uuid: Seq<char>,
    block: BlockKey,
) -> bool {
    exists|i: int|
        0 <= i < triggers.len() && (#[trigger] triggers[i]).chainhook.uuid@ == uuid && applies_to(
            triggers[i],
            block,
        )
}

proof fn applied_keys_are_the_blocks(trigger: TriggerChainhook, block: BlockKey)
    ensures
        applied_keys(trigger.apply@).contains(block) <==> applies_to(trigger, block),
{
    let keys = applied_keys(trigger.apply@);
    if keys.contains(block) {
        let b = choose|b: int| 0 <= b < keys.len() && keys[b] == block;
        assert(trigger.apply@[b].block_identifier@ == block);
    }
    if applies_to(trigger, block) {
        let b = choose|b: int|
            0 <= b < trigger.apply@.len() && (#[trigger] trigger.apply@[b]).block_identifier@
                == block;
        assert(keys[b] == block);
    }
}

/// Exactly the listed pairs are added to what is noted.
pub proof fn pairs_are_noted(
    map: Map<Seq<char>, Set<BlockKey>>,
    pairs: Seq<(String, BlockIdentifier)>,
    uuid: Seq<char>,
    block: BlockKey,
)
    ensures
        is_noted(noted_pairs(map, pairs), uuid, block) <==> is_noted(map, uuid, block) || is_listed(
            pairs,
            uuid,
            block,
        ),
    decreases pairs.len(),
{
    if pairs.len() > 0 {
        let shorter = pairs.drop_last();
        pairs_are_noted(map, shorter, uuid, block);
        if is_listed(shorter, uuid, block) {
            let i = choose|i: int|
                0 <= i < shorter.len() && (#[trigger] shorter[i]).0@ == uuid && shorter[i].1@
                    == block;
            assert(pairs[i] == shorter[i]);
        }
        if is_listed(pairs, uuid, block) {
            let i = choose|i: int|
                0 <= i < pairs.len() && (#[trigger] pairs[i]).0@ == uuid && pairs[i].1@ == block;
            if i < shorter.len() {
                assert(shorter[i] == pairs[i]);
            }
        }
        assert(pairs.last() == pairs[pairs.len() - 1]);
    }
}

/// Exactly the given blocks are added to what is noted of a predicate.
pub proof fn blocks_are_noted(
    map: Map<Seq<char>, Set<BlockKey>>,
    predicate: Seq<char>,
    blocks: Seq<BlockKey>,
    uuid: Seq<char>,
    block: BlockKey,
)
    ensures
        is_noted(noted_blocks(map, predicate, blocks), uuid, block) <==> is_noted(map, uuid, block)
            || (uuid == predicate && blocks.contains(block)),
    decreases blocks.len(),
{
    if blocks.len() > 0 {
        let shorter = blocks.drop_last();
        blocks_are_noted(map, predicate, shorter, uuid, block);
        if shorter.contains(block) {
            let i = choose|i: int| 0 <= i < shorter.len() && shorter[i] == block;
            assert(blocks[i] == block);
        }
        if blocks.contains(block) {
            let i = choose|i: int| 0 <= i < blocks.len() && blocks[i] == block;
            if i < shorter.len() {
                assert(shorter[i] == block);
            }
        }
        assert(blocks.last() == blocks[blocks.len() - 1]);
    }
}

/// Exactly the blocks of the triggers are added to what is noted.
pub proof fn triggers_are_noted(
    map: Map<Seq<char>, Set<BlockKey>>,
    triggers: Seq<TriggerChainhook>,
    uuid: Seq<char>,
    block: BlockKey,
)
    ensures
        is_noted(noted_triggers(map, triggers), uuid, block) <==> is_noted(map, uuid, block)
            || is_triggered(triggers, uuid, block),
    decreases triggers.len(),
{
    if triggers.len() > 0 {
        let shorter = triggers.drop_last();
        let last = triggers.last();
        triggers_are_noted(map, shorter, uuid, block);
        applied_keys_are_the_blocks(last, block);
        blocks_are_noted(
            noted_triggers(map, shorter),
            last.chainhook.uuid@,
            applied_keys(last.apply@),
            uuid,
            block,
        );
        if is_triggered(shorter, uuid, block) {
            let i = choose|i: int|
                0 <= i < shorter.len() && (#[trigger] shorter[i]).chainhook.uuid@ == uuid
                    && applies_to(shorter[i], block);
            assert(triggers[i] == shorter[i]);
        }
        if is_triggered(triggers, uuid, block) {
            let i = choose|i: int|
                0 <= i < triggers.len() && (#[trigger] triggers[i]).chainhook.uuid@ == uuid
                    && applies_to(triggers[i], block);
            if i < shorter.len() {
                assert(shorter[i] == triggers[i]);
            }
        }
        assert(last == triggers[triggers.len() - 1]);
    }
}

/// The report of an evaluation lists exactly what the evaluation found: which
/// predicates were evaluated, triggered and expired, and at which blocks. Also a
/// predicate that has exceeded its occurrences is listed as triggered.
pub proof fn report_lists_what_was_found(
    evaluation: Evaluation,
    uuid: Seq<char>,
    block: BlockKey,
)
    ensures
        is_noted(evaluation.spec_report().evaluated, uuid, block) <==> is_listed(
            evaluation.predicates_evaluated@,
            uuid,
            block,
        ),
        is_noted(evaluation.spec_report().expired, uuid, block) <==> is_listed(
            evaluation.predicates_expired@,
            uuid,
            block,
        ),
        is_noted(evaluation.spec_report().triggered, uuid, block) <==> is_triggered(
            evaluation.predicates_triggered@,
            uuid,
            block,
        ),
{
    pairs_are_noted(Map::empty(), evaluation.predicates_evaluated@, uuid, block);
    pairs_are_noted(Map::empty(), evaluation.predicates_expired@, uuid, block);
    triggers_are_noted(Map::empty(), evaluation.predicates_triggered@, uuid, block);
}

/// Every predicate in a map has some block noted.
pub open spec fn is_without_blanks(map: Map<Seq<char>, Set<BlockKey>>) -> bool {
    forall|uuid: Seq<char>| #[trigger]
        map.contains_key(uuid) ==> exists|block: BlockKey| map[uuid].contains(block)
}

/// Whether a report lists what an evaluation found, all of it and nothing else.
pub open spec fn is_report_on(evaluation: Evaluation, report: ReportView) -> bool {
    &&& is_without_blanks(report.evaluated)
    &&& is_without_blanks(report.triggered)
    &&& is_without_blanks(report.expired)
    &&& forall|uuid: Seq<char>, block: BlockKey| #[trigger]
        is_noted(report.evaluated, uuid, block) <==> is_listed(
            evaluation.predicates_evaluated@,
            uuid,
            block,
        )
    &&& forall|uuid: Seq<char>, block: BlockKey| #[trigger]
        is_noted(report.expired, uuid, block) <==> is_listed(
            evaluation.predicates_expired@,
            uuid,
            block,
        )
    &&& forall|uuid: Seq<char>, block: BlockKey| #[trigger]
        is_noted(report.triggered, uuid, block) <==> is_triggered(
            evaluation.predicates_triggered@,
            uuid,
            block,
        )
}

proof fn noting_leaves_no_blanks(map: Map<Seq<char>, Set<BlockKey>>, uuid: Seq<char>, block: BlockKey)
    requires
        is_without_blanks(map),
    ensures
        is_without_blanks(noted(map, uuid, block)),
{
    let after = noted(map, uuid, block);
    assert forall|other: Seq<char>| #[trigger] after.contains_key(other) implies exists|
        found: BlockKey,
    | after[other].contains(found) by {
        if other == uuid {
            assert(after[other].contains(block));
        } else {
            assert(map.contains_key(other));
            let found = choose|found: BlockKey| map[other].contains(found);
            assert(after[other].contains(found));
        }
    }
}

proof fn pairs_leave_no_blanks(
    map: Map<Seq<char>, Set<BlockKey>>,
    pairs: Seq<(String, BlockIdentifier)>,
)
    requires
        is_without_blanks(map),
    ensures
        is_without_blanks(noted_pairs(map, pairs)),
    decreases pairs.len(),
{
    if pairs.len() > 0 {
        let shorter = pairs.drop_last();
        pairs_leave_no_blanks(map, shorter);
        noting_leaves_no_blanks(noted_pairs(map, shorter), pairs.last().0@, pairs.last().1@);
    }
}

proof fn blocks_leave_no_blanks(
    map: Map<Seq<char>, Set<BlockKey>>,
    uuid: Seq<char>,
    blocks: Seq<BlockKey>,
)
    requires
        is_without_blanks(map),
    ensures
        is_without_blanks(noted_blocks(map, uuid, blocks)),
    decreases blocks.len(),
{
    if blocks.len() > 0 {
        let shorter = blocks.drop_last();
        blocks_leave_no_blanks(map, uuid, shorter);
        noting_leaves_no_blanks(noted_blocks(map, uuid, shorter), uuid, blocks.last());
    }
}

proof fn triggers_leave_no_blanks(
    map: Map<Seq<char>, Set<BlockKey>>,
    triggers: Seq<TriggerChainhook>,
)
    requires
        is_without_blanks(map),
    ensures
        is_without_blanks(noted_triggers(map, triggers)),
    decreases triggers.len(),
{
    if triggers.len() > 0 {
        let shorter = triggers.drop_last();
        triggers_leave_no_blanks(map, shorter);
        blocks_leave_no_blanks(
            noted_triggers(map, shorter),
            triggers.last().chainhook.uuid@,
            applied_keys(triggers.last().apply@),
        );
    }
}

/// The report of an evaluation is a report on it: it lists all that the evaluation
/// found, and nothing else.
pub proof fn evaluation_is_reported_in_full(evaluation: Evaluation)
    ensures
        is_report_on(evaluation, evaluation.spec_report()),
{
    let report = evaluation.spec_report();
    pairs_leave_no_blanks(Map::empty(), evaluation.predicates_evaluated@);
    pairs_leave_no_blanks(Map::empty(), evaluation.predicates_expired@);
    triggers_leave_no_blanks(Map::empty(), evaluation.predicates_triggered@);
    assert forall|uuid: Seq<char>, block: BlockKey| #[trigger]
        is_noted(report.evaluated, uuid, block) <==> is_listed(
            evaluation.predicates_evaluated@,
            uuid,
            block,
        ) by {
        report_lists_what_was_found(evaluation, uuid, block);
    }
    assert forall|uuid: Seq<char>, block: BlockKey| #[trigger]
        is_noted(report.expired, uuid, block) <==> is_listed(
            evaluation.predicates_expired@,
            uuid,
            block,
        ) by {
        report_lists_what_was_found(evaluation, uuid, block);
    }
    assert forall|uuid: Seq<char>, block: BlockKey| #[trigger]
        is_noted(report.triggered, uuid, block) <==> is_triggered(
            evaluation.predicates_triggered@,
            uuid,
            block,
        ) by {
        report_lists_what_was_found(evaluation, uuid, block);
    }
}

/// To note the same block for the same predicate once more changes nothing.
pub proof fn noting_twice_changes_nothing(
    map: Map<Seq<char>, Set<BlockKey>>,
    uuid: Seq<char>,
    block: BlockKey,
)
    ensures
        noted(noted(map, uuid, block), uuid, block) == noted(map, uuid, block),
{
    let once = noted(map, uuid, block);
    assert(once[uuid].insert(block) =~= once[uuid]);
    assert(noted(once, uuid, block) =~= once);
}

/// The order in which blocks are noted makes no difference.
pub proof fn order_of_noting_makes_no_difference(
    map: Map<Seq<char>, Set<BlockKey>>,
    first: (Seq<char>, BlockKey),
    second: (Seq<char>, BlockKey),
)
    ensures
        noted(noted(map, first.0, first.1), second.0, second.1) == noted(
            noted(map, second.0, second.1),
            first.0,
            first.1,
        ),
{
    let left = noted(noted(map, first.0, first.1), second.0, second.1);
    let right = noted(noted(map, second.0, second.1), first.0, first.1);
    if first.0 == second.0 {
        assert(left[first.0] =~= right[first.0]);
    }
    assert(left =~= right);
}

} // verus!
