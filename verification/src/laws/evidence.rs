//! Laws on proofs: which are gone through, in which order, and which are asked for.

use vstd::prelude::*;

use crate::chain::EventView;
use crate::laws::counting::{is_sorted_out, triggers_are_sorted_out};
use crate::laws::course::wants_any;
use crate::laws::handling::deregistrations_follow;
use crate::outside::hex_text;
use crate::proofs::{
    apply_targets, block_targets, has_proof, next_target, trigger_targets, ProofTarget, ProofView,
};
use crate::protocol::{ObserverActionView, ObserverInput, PhaseView, RoundView};
use crate::transition::ObserverView;
use crate::triggers::{all_counted, AppliedBlock, Evaluation, TriggerChainhook};

verus! {

/// The transactions of a block are gone through in order, each with the identifier of
/// the block.
pub proof fn transactions_are_gone_through_in_order(applied: AppliedBlock, x: int)
    ensures
        block_targets(applied).len() == applied.transactions@.len(),
        0 <= x < applied.transactions@.len() ==> block_targets(applied)[x] == (ProofTarget {
            transaction_identifier: applied.transactions@[x],
            block_identifier: applied.block_identifier,
        }),
        apply_targets(seq![applied]) == block_targets(applied),
{
    assert(seq![applied].drop_last() =~= Seq::empty());
    assert(apply_targets(seq![applied].drop_last()) =~= Seq::empty());
    assert(Seq::empty() + block_targets(applied) =~= block_targets(applied));
}

/// Blocks are gone through in order, all of them.
pub proof fn blocks_are_gone_through_in_order(first: Seq<AppliedBlock>, second: Seq<AppliedBlock>)
    ensures
        apply_targets(first + second) == apply_targets(first) + apply_targets(second),
    decreases second.len(),
{
    if second.len() == 0 {
        assert(first + second =~= first);
        assert(apply_targets(first) + apply_targets(second) =~= apply_targets(first));
    } else {
        let shorter = second.drop_last();
        blocks_are_gone_through_in_order(first, shorter);
        assert((first + second).drop_last() =~= first + shorter);
        assert(apply_targets(first) + (apply_targets(shorter) + block_targets(second.last()))
            =~= (apply_targets(first) + apply_targets(shorter)) + block_targets(second.last()));
    }
}

/// Triggers are gone through in order, all of them; one that wants proofs with all its
/// blocks, and one that wants none with no block.
pub proof fn triggers_are_gone_through_in_order(
    first: Seq<TriggerChainhook>,
    second: Seq<TriggerChainhook>,
    trigger: TriggerChainhook,
)
    ensures
        trigger_targets(first + second) == trigger_targets(first) + trigger_targets(second),
        trigger.chainhook.include_proof ==> trigger_targets(seq![trigger]) == apply_targets(
            trigger.apply@,
        ),
        !trigger.chainhook.include_proof ==> trigger_targets(seq![trigger]).len() == 0,
        trigger_targets(Seq::empty()).len() == 0,
    decreases second.len(),
{
    assert(seq![trigger].drop_last() =~= Seq::empty());
    assert(trigger_targets(seq![trigger].drop_last()) =~= Seq::empty());
    assert(Seq::empty() + apply_targets(trigger.apply@) =~= apply_targets(trigger.apply@));
    if second.len() == 0 {
        assert(first + second =~= first);
        assert(trigger_targets(first) + trigger_targets(second) =~= trigger_targets(first));
    } else {
        let shorter = second.drop_last();
        let last = second.last();
        triggers_are_gone_through_in_order(first, shorter, trigger);
        assert((first + second).drop_last() =~= first + shorter);
        assert(trigger_targets(first) + (trigger_targets(shorter) + apply_targets(last.apply@))
            =~= (trigger_targets(first) + trigger_targets(shorter)) + apply_targets(last.apply@));
    }
}

/// A transaction's proof is at hand.
pub open spec fn is_at_hand(proofs: Seq<ProofView>, target: ProofTarget) -> bool {
    exists|k: int|
        0 <= k < proofs.len() && (#[trigger] proofs[k]).hash == target.transaction_identifier.hash@
}

/// Among some transactions, the one at `p` is the next to ask for: the proofs of those
/// before it are at hand, and its own is not.
pub open spec fn is_next(targets: Seq<ProofTarget>, proofs: Seq<ProofView>, p: int) -> bool {
    &&& 0 <= p < targets.len()
    &&& !is_at_hand(proofs, targets[p])
    &&& forall|i: int| 0 <= i < p ==> is_at_hand(proofs, #[trigger] targets[i])
}

proof fn next_target_is_next(targets: Seq<ProofTarget>, proofs: Seq<ProofView>) -> (p: int)
    ensures
        match next_target(targets, proofs) {
            Some((target, rest)) => is_next(targets, proofs, p) && targets[p] == target && rest
                == targets.skip(p + 1),
            None => forall|i: int|
                0 <= i < targets.len() ==> is_at_hand(proofs, #[trigger] targets[i]),
        },
    decreases targets.len(),
{
    if targets.len() == 0 {
        0
    } else {
        let rest = targets.drop_first();
        let q = next_target_is_next(rest, proofs);
        assert forall|i: int| 0 < i < targets.len() implies #[trigger] targets[i] == rest[i
            - 1] by {}
        if is_at_hand(proofs, targets[0]) {
            assert(has_proof(proofs, targets.first().transaction_identifier.hash@));
            if let Some((target, left)) = next_target(rest, proofs) {
                assert forall|i: int| 0 <= i < q + 1 implies is_at_hand(
                    proofs,
                    #[trigger] targets[i],
                ) by {
                    if i > 0 {
                        assert(is_at_hand(proofs, rest[i - 1]));
                    }
                }
                assert(left =~= targets.skip(q + 2));
            } else {
                assert forall|i: int| 0 <= i < targets.len() implies is_at_hand(
                    proofs,
                    #[trigger] targets[i],
                ) by {
                    if i > 0 {
                        assert(is_at_hand(proofs, rest[i - 1]));
                    }
                }
            }
            q + 1
        } else {
            assert(!has_proof(proofs, targets.first().transaction_identifier.hash@));
            assert(rest =~= targets.skip(1));
            0
        }
    }
}

/// The next transaction to ask for is the first whose proof is not at hand, and those
/// behind it are left; there is none exactly if every proof is at hand.
pub proof fn next_proof_is_the_first_not_at_hand(
    targets: Seq<ProofTarget>,
    proofs: Seq<ProofView>,
)
    ensures
        match next_target(targets, proofs) {
            Some((target, rest)) => exists|p: int| #[trigger]
                is_next(targets, proofs, p) && targets[p] == target && rest == targets.skip(p + 1),
            None => forall|i: int|
                0 <= i < targets.len() ==> is_at_hand(proofs, #[trigger] targets[i]),
        },
{
    let p = next_target_is_next(targets, proofs);
    if next_target(targets, proofs) is Some {
        assert(is_next(targets, proofs, p));
    }
}

/// Whether a phase is that of asking for the next of some transactions, with those
/// behind it still to be gone through; or, where no proof is missing, one beyond that.
pub open spec fn asks_for_next(
    targets: Seq<ProofTarget>,
    proofs: Seq<ProofView>,
    phase: PhaseView,
) -> bool {
    match phase {
        PhaseView::CollectingProof(round, target) => exists|p: int| #[trigger]
            is_next(targets, proofs, p) && targets[p] == target && round.targets == targets.skip(
                p + 1,
            ) && round.proofs == proofs,
        _ => forall|i: int| 0 <= i < targets.len() ==> is_at_hand(proofs, #[trigger] targets[i]),
    }
}

proof fn proofs_wanted_asks_for_next(state: ObserverView, round: RoundView)
    ensures
        asks_for_next(
            round.targets,
            round.proofs,
            state.proofs_wanted(round).state.phase,
        ),
{
    let p = next_target_is_next(round.targets, round.proofs);
    if next_target(round.targets, round.proofs) is Some {
        assert(is_next(round.targets, round.proofs, p));
    }
}

/// Proofs are asked for one after the other, in the order in which the transactions are
/// gone through; one that is at hand is passed over.
pub proof fn proofs_are_asked_for_in_order(
    state: ObserverView,
    round: RoundView,
    target: ProofTarget,
    answer: Result<Vec<u8>, String>,
)
    requires
        state.phase == PhaseView::CollectingProof(round, target),
    ensures
        ({
            let phase = state.step(ObserverInput::ProofCollected(answer)).state.phase;
            match answer {
                Ok(bytes) => asks_for_next(
                    round.targets,
                    round.proofs.push(
                        ProofView {
                            hash: target.transaction_identifier.hash@,
                            proof: "0x"@ + hex_text(bytes@),
                        },
                    ),
                    phase,
                ),
                Err(_) => asks_for_next(round.targets, round.proofs, phase),
            }
        }),
{
    let idle = state.in_phase(PhaseView::Idle);
    match answer {
        Ok(bytes) => {
            let more = round.with_proof(target, bytes@);
            proofs_wanted_asks_for_next(idle, more);
        },
        Err(_) => {
            proofs_wanted_asks_for_next(idle, round);
        },
    }
}

/// Once a Bitcoin chain event is evaluated, the first proof to be asked for is the first
/// that a trigger wants which is let through. Before anything else, the node is connected
/// to, where some such trigger wants proofs.
pub proof fn first_proof_is_asked_for_first(
    state: ObserverView,
    event: EventView,
    tip: u64,
    evaluation: Evaluation,
)
    requires
        state.phase == PhaseView::Evaluating(event, tip),
        event is BitcoinChainEvent,
        state.accepts(ObserverInput::Evaluated(evaluation)),
    ensures
        ({
            let step = state.step(ObserverInput::Evaluated(evaluation));
            let after = step.state;
            exists|through: Seq<TriggerChainhook>, gone: Seq<String>| #[trigger]
                is_sorted_out(
                    state.occurrences,
                    evaluation.predicates_triggered@,
                    through,
                    gone,
                    after.occurrences,
                ) && asks_for_next(trigger_targets(through), Seq::empty(), after.phase) && (
                wants_any(through) ==> step.actions.len() > 0 && step.actions[0]
                    == ObserverActionView::ConnectNode)
        }),
{
    let idle = state.in_phase(PhaseView::Idle);
    let counted = ObserverView {
        occurrences: all_counted(idle.occurrences, evaluation.predicates_triggered@),
        ..idle
    };
    let round = idle.first_round(event, tip, evaluation);
    proofs_wanted_asks_for_next(counted, round);
    triggers_are_sorted_out(state.occurrences, evaluation.predicates_triggered@);
    proofs_wanted_keep_the_tally(counted, round);
}

proof fn proofs_wanted_keep_the_tally(state: ObserverView, round: RoundView)
    ensures
        state.proofs_wanted(round).state.occurrences == state.occurrences,
{
    deregistrations_follow(
        state,
        round.event is BitcoinChainEvent,
        round.hooks_ids_to_deregister,
    );
}

} // verus!
