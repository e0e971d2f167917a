//! Triggered predicates: the tally of how often each predicate was triggered,
//! and the limit at which a predicate is dropped.

use vstd::hash_map::StringHashMap;
use vstd::prelude::*;

use crate::chain::{BlockIdentifier, BlockKey, TransactionIdentifier};
use crate::report::{
    noted_blocks, noted_pairs, PredicateEvaluationReport, ReportView,
};
use crate::text::same_text;

verus! {

/// What the observer reads of the predicate behind a trigger.
#[derive(Clone, Debug, PartialEq)]
pub struct TriggeredChainhook {
    pub uuid: String,
    pub expire_after_occurrence: Option<u64>,
    pub include_proof: bool,
}

/// A block that triggered a predicate, and the transactions in it that did.
#[derive(Clone, Debug, PartialEq)]
pub struct AppliedBlock {
    pub block_identifier: BlockIdentifier,
    pub transactions: Vec<TransactionIdentifier>,
}

/// A predicate that a chain event triggered. What its action needs beyond this
/// travels in `content`, in serialised form.
#[derive(Clone, Debug, PartialEq)]
pub struct TriggerChainhook {
    pub chainhook: TriggeredChainhook,
    pub apply: Vec<AppliedBlock>,
    pub content: String,
}

/// What came of evaluating the predicates on a chain event.
#[derive(Clone, Debug, PartialEq)]
pub struct Evaluation {
    pub predicates_triggered: Vec<TriggerChainhook>,
    pub predicates_evaluated: Vec<(String, BlockIdentifier)>,
    pub predicates_expired: Vec<(String, BlockIdentifier)>,
}

/// The identifiers of the blocks that triggered a predicate.
pub open spec fn applied_keys(apply: Seq<AppliedBlock>) -> Seq<BlockKey> {
    apply.map_values(|applied: AppliedBlock| applied.block_identifier@)
}

/// A map in which the blocks of each trigger are noted for its predicate.
pub open spec fn noted_triggers(
    map: Map<Seq<char>, Set<BlockKey>>,
    triggers: Seq<TriggerChainhook>,
) -> Map<Seq<char>, Set<BlockKey>>
    decreases triggers.len(),
{
    if triggers.len() == 0 {
        map
    } else {
        noted_blocks(
            noted_triggers(map, triggers.drop_last()),
            triggers.last().chainhook.uuid@,
            applied_keys(triggers.last().apply@),
        )
    }
}

impl Evaluation {
    /// The report on the evaluation.
    pub open spec fn spec_report(self) -> ReportView {
        ReportView {
            evaluated: noted_pairs(Map::empty(), self.predicates_evaluated@),
            triggered: noted_triggers(Map::empty(), self.predicates_triggered@),
            expired: noted_pairs(Map::empty(), self.predicates_expired@),
        }
    }

    /// Reports on the evaluation.
    pub fn report(&self) -> (report: PredicateEvaluationReport)
        ensures
            report.wf(),
            report@ == self.spec_report(),
    {
        let mut report = PredicateEvaluationReport::new();
        for i in 0..self.predicates_evaluated.len()
            invariant
                report.wf(),
                report@ == (ReportView {
                    evaluated: noted_pairs(
                        Map::empty(),
                        self.predicates_evaluated@.take(i as int),
                    ),
                    ..ReportView::empty()
                }),
        {
            let (uuid, block) = &self.predicates_evaluated[i];
            report.track_evaluation(uuid.as_str(), block);
            assert(self.predicates_evaluated@.take(i + 1).drop_last()
                =~= self.predicates_evaluated@.take(i as int));
        }
        assert(self.predicates_evaluated@.take(self.predicates_evaluated@.len() as int)
            =~= self.predicates_evaluated@);
        let ghost evaluated = report@.evaluated;
        for i in 0..self.predicates_expired.len()
            invariant
                report.wf(),
                report@ == (ReportView {
                    evaluated,
                    expired: noted_pairs(Map::empty(), self.predicates_expired@.take(i as int)),
                    ..ReportView::empty()
                }),
        {
            let (uuid, block) = &self.predicates_expired[i];
            report.track_expiration(uuid.as_str(), block);
            assert(self.predicates_expired@.take(i + 1).drop_last()
                =~= self.predicates_expired@.take(i as int));
        }
        assert(self.predicates_expired@.take(self.predicates_expired@.len() as int)
            =~= self.predicates_expired@);
        let ghost expired = report@.expired;
        for i in 0..self.predicates_triggered.len()
            invariant
                report.wf(),
                report@ == (ReportView {
                    evaluated,
                    expired,
                    triggered: noted_triggers(
                        Map::empty(),
                        self.predicates_triggered@.take(i as int),
                    ),
                }),
        {
            let trigger = &self.predicates_triggered[i];
            let mut blocks: Vec<&BlockIdentifier> = Vec::new();
            for j in 0..trigger.apply.len()
                invariant
                    blocks@.len() == j,
                    forall|k: int|
                        0 <= k < j ==> (#[trigger] blocks@[k])@ == trigger.apply@[k].block_identifier@,
            {
                blocks.push(&trigger.apply[j].block_identifier);
            }
            assert(blocks@.map_values(|block: &BlockIdentifier| block@) =~= applied_keys(
                trigger.apply@,
            ));
            report.track_trigger(trigger.chainhook.uuid.as_str(), &blocks);
            assert(self.predicates_triggered@.take(i + 1).drop_last()
                =~= self.predicates_triggered@.take(i as int));
        }
        assert(self.predicates_triggered@.take(self.predicates_triggered@.len() as int)
            =~= self.predicates_triggered@);
        report
    }
}

/// How often each predicate was triggered.
pub type Tally = Map<Seq<char>, u64>;

/// How often a predicate was triggered.
pub open spec fn count_of(tally: Tally, uuid: Seq<char>) -> u64 {
    if tally.contains_key(uuid) {
        tally[uuid]
    } else {
        0
    }
}

/// How often a predicate may be triggered; zero is no limit.
pub open spec fn limit_of(trigger: TriggerChainhook) -> u64 {
    match trigger.chainhook.expire_after_occurrence {
        Some(limit) => limit,
        None => 0,
    }
}

/// Whether a trigger stays within its predicate's limit.
pub open spec fn within_limit(tally: Tally, trigger: TriggerChainhook) -> bool {
    limit_of(trigger) == 0 || count_of(tally, trigger.chainhook.uuid@) + 1 <= limit_of(trigger)
}

/// The tally after a trigger: one that stays within the limit is counted.
pub open spec fn counted(tally: Tally, trigger: TriggerChainhook) -> Tally {
    if within_limit(tally, trigger) {
        tally.insert(
            trigger.chainhook.uuid@,
            (count_of(tally, trigger.chainhook.uuid@) + 1) as u64,
        )
    } else {
        tally
    }
}

/// The tally after several triggers.
pub open spec fn all_counted(tally: Tally, triggers: Seq<TriggerChainhook>) -> Tally
    decreases triggers.len(),
{
    if triggers.len() == 0 {
        tally
    } else {
        counted(all_counted(tally, triggers.drop_last()), triggers.last())
    }
}

/// The triggers that stay within their limits as they are counted in order.
pub open spec fn admitted(tally: Tally, triggers: Seq<TriggerChainhook>) -> Seq<TriggerChainhook>
    decreases triggers.len(),
{
    if triggers.len() == 0 {
        Seq::empty()
    } else {
        let before = admitted(tally, triggers.drop_last());
        if within_limit(all_counted(tally, triggers.drop_last()), triggers.last()) {
            before.push(triggers.last())
        } else {
            before
        }
    }
}

/// The uuids of the triggers that exceed their limits.
pub open spec fn exhausted(tally: Tally, triggers: Seq<TriggerChainhook>) -> Seq<String>
    decreases triggers.len(),
{
    if triggers.len() == 0 {
        Seq::empty()
    } else {
        let before = exhausted(tally, triggers.drop_last());
        if within_limit(all_counted(tally, triggers.drop_last()), triggers.last()) {
            before
        } else {
            before.push(triggers.last().chainhook.uuid)
        }
    }
}

/// Whether the count that the trigger at `i` leads to can be written down.
pub open spec fn count_fits(tally: Tally, triggers: Seq<TriggerChainhook>, i: int) -> bool {
    count_of(all_counted(tally, triggers.take(i)), triggers[i].chainhook.uuid@) < u64::MAX
}

/// Whether every count that the triggers lead to can be written down.
pub open spec fn tally_fits(tally: Tally, triggers: Seq<TriggerChainhook>) -> bool {
    forall|i: int| 0 <= i < triggers.len() ==> #[trigger] count_fits(tally, triggers, i)
}

/// The tally of triggers.
pub struct OccurrenceTracker {
    counts: StringHashMap<u64>,
}

impl View for OccurrenceTracker {
    type V = Tally;

    closed spec fn view(&self) -> Tally {
        self.counts@
    }
}

impl OccurrenceTracker {
    /// A tally in which nothing was triggered.
    pub fn new() -> (tracker: OccurrenceTracker)
        ensures
            tracker@ == Tally::empty(),
    {
        OccurrenceTracker { counts: StringHashMap::new() }
    }

    /// How often a predicate was triggered.
    pub fn count(&self, uuid: &str) -> (count: u64)
        ensures
            count == count_of(self@, uuid@),
    {
        match self.counts.get(uuid) {
            Some(count) => *count,
            None => 0,
        }
    }

    /// The count of the predicate of the trigger at `i` once the triggers before
    /// it are counted.
    fn count_before(&self, triggers: &Vec<TriggerChainhook>, i: usize) -> (count: u64)
        requires
            i < triggers.len(),
            forall|k: int| 0 <= k < i ==> #[trigger] count_fits(self@, triggers@, k),
        ensures
            count == count_of(
                all_counted(self@, triggers@.take(i as int)),
                triggers@[i as int].chainhook.uuid@,
            ),
    {
        let uuid = &triggers[i].chainhook.uuid;
        let mut count: u64 = self.count(uuid.as_str());
        for j in 0..i
            invariant
                i < triggers.len(),
                forall|k: int| 0 <= k < i ==> #[trigger] count_fits(self@, triggers@, k),
                uuid@ == triggers@[i as int].chainhook.uuid@,
                count == count_of(all_counted(self@, triggers@.take(j as int)), uuid@),
        {
            assert(triggers@.take(j + 1).drop_last() =~= triggers@.take(j as int));
            assert(count_fits(self@, triggers@, j as int));
            if same_text(triggers[j].chainhook.uuid.as_str(), uuid.as_str()) {
                let limit: u64 = triggers[j].chainhook.expire_after_occurrence.unwrap_or(0);
                if limit == 0 || count + 1 <= limit {
                    count += 1;
                }
            }
        }
        count
    }

    /// Whether every count that the triggers lead to can be written down.
    pub fn fits(&self, triggers: &Vec<TriggerChainhook>) -> (fits: bool)
        ensures
            fits == tally_fits(self@, triggers@),
    {
        for i in 0..triggers.len()
            invariant
                forall|k: int| 0 <= k < i ==> #[trigger] count_fits(self@, triggers@, k),
        {
            if self.count_before(triggers, i) == u64::MAX {
                assert(!count_fits(self@, triggers@, i as int));
                return false;
            }
        }
        true
    }

    /// Counts the triggers. Hands back those that stay within their limits, and
    /// the uuids of those that exceed them.
    pub fn count_triggers(&mut self, triggers: Vec<TriggerChainhook>) -> (sorted: (
        Vec<TriggerChainhook>,
        Vec<String>,
    ))
        requires
            tally_fits(old(self)@, triggers@),
        ensures
            final(self)@ == all_counted(old(self)@, triggers@),
            sorted.0@ == admitted(old(self)@, triggers@),
            sorted.1@ == exhausted(old(self)@, triggers@),
    {
        let mut chainhooks_to_trigger: Vec<TriggerChainhook> = Vec::new();
        let mut hooks_ids_to_deregister: Vec<String> = Vec::new();
        for trigger in iter: triggers.into_iter()
            invariant
                iter.seq() == triggers@,
                tally_fits(old(self)@, triggers@),
                self@ == all_counted(old(self)@, triggers@.take(iter.index())),
                chainhooks_to_trigger@ == admitted(old(self)@, triggers@.take(iter.index())),
                hooks_ids_to_deregister@ == exhausted(old(self)@, triggers@.take(iter.index())),
        {
            assert(trigger == triggers@[iter.index()]);
            assert(count_fits(old(self)@, triggers@, iter.index()));
            assert(triggers@.take(iter.index() + 1).drop_last() =~= triggers@.take(iter.index()));
            let total_occurrences: u64 = self.count(trigger.chainhook.uuid.as_str()) + 1;
            let limit: u64 = trigger.chainhook.expire_after_occurrence.unwrap_or(0);
            if limit == 0 || total_occurrences <= limit {
                self.counts.insert(trigger.chainhook.uuid.clone(), total_occurrences);
                chainhooks_to_trigger.push(trigger);
            } else {
                hooks_ids_to_deregister.push(trigger.chainhook.uuid.clone());
            }
        }
        assert(triggers@.take(triggers@.len() as int) =~= triggers@);
        (chainhooks_to_trigger, hooks_ids_to_deregister)
    }
}

} // verus!
