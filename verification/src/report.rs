//! Reports of what the predicates did with a chain event: for each predicate,
//! the blocks on which it was evaluated, triggered and expired.

use vstd::prelude::*;

use crate::chain::{block_before, block_before_is_transitive, BlockIdentifier, BlockKey};
use crate::text::{compare_text, same_text, text_before, text_before_is_transitive, TextOrder};

verus! {

/// The blocks of one predicate, without repetition, the highest first.
#[derive(Debug)]
pub struct PredicateBlocks {
    uuid: String,
    blocks: Vec<BlockIdentifier>,
}

impl Clone for PredicateBlocks {
    fn clone(&self) -> (copy: Self)
        ensures
            copy.spec_uuid() == self.spec_uuid(),
            copy.spec_blocks() == self.spec_blocks(),
            self.wf() ==> copy.wf(),
    {
        let blocks = self.blocks.clone();
        assert(blocks@ =~= self.blocks@);
        PredicateBlocks { uuid: self.uuid.clone(), blocks }
    }
}

/// What a list of identifiers names.
pub open spec fn keys(blocks: Seq<BlockIdentifier>) -> Seq<BlockKey> {
    blocks.map_values(|block: BlockIdentifier| block@)
}

/// The blocks stand in their order, the highest first, which leaves no room for
/// repetition.
pub open spec fn blocks_sorted(blocks: Seq<BlockKey>) -> bool {
    forall|i: int, j: int|
        0 <= i < j < blocks.len() ==> block_before(#[trigger] blocks[i], #[trigger] blocks[j])
}

impl PredicateBlocks {
    /// The predicate's uuid.
    pub closed spec fn spec_uuid(&self) -> Seq<char> {
        self.uuid@
    }

    /// The predicate's blocks, in order.
    pub closed spec fn spec_blocks(&self) -> Seq<BlockKey> {
        keys(self.blocks@)
    }

    /// The blocks stand in their order.
    pub open spec fn wf(&self) -> bool {
        blocks_sorted(self.spec_blocks())
    }

    /// The set of the blocks.
    pub open spec fn set(&self) -> Set<BlockKey> {
        self.spec_blocks().to_set()
    }

    fn new(uuid: &str, block: &BlockIdentifier) -> (entry: PredicateBlocks)
        ensures
            entry.wf(),
            entry.spec_uuid() == uuid@,
            entry.set() == Set::empty().insert(block@),
    {
        let mut blocks: Vec<BlockIdentifier> = Vec::new();
        blocks.push(block.clone());
        let entry = PredicateBlocks { uuid: uuid.to_string(), blocks };
        assert(keys(entry.blocks@) =~= seq![block@]);
        assert(seq![block@][0] == block@);
        assert(entry.set() =~= Set::empty().insert(block@));
        entry
    }

    fn insert(&mut self, block: &BlockIdentifier)
        requires
            old(self).wf(),
        ensures
            final(self).wf(),
            final(self).spec_uuid() == old(self).spec_uuid(),
            final(self).set() == old(self).set().insert(block@),
    {
        let ghost before = self.blocks@;
        let mut i: usize = 0;
        while i < self.blocks.len()
            invariant
                i <= self.blocks.len(),
                self.blocks@ == before,
                self.wf(),
                self.uuid == old(self).uuid,
                forall|j: int| 0 <= j < i ==> block_before(#[trigger] before[j]@, block@),
                before == old(self).blocks@,
            ensures
                self.blocks@ == before,
                self.uuid == old(self).uuid,
                i <= before.len(),
                forall|j: int| 0 <= j < i ==> block_before(#[trigger] before[j]@, block@),
                i < before.len() ==> block_before(block@, before[i as int]@),
            decreases self.blocks.len() - i,
        {
            match self.blocks[i].compare(block) {
                TextOrder::Before => {
                    i += 1;
                },
                TextOrder::Same => {
                    assert(keys(before)[i as int] == block@);
                    assert(old(self).set().insert(block@) =~= old(self).set());
                    return ;
                },
                TextOrder::After => {
                    break ;
                },
            }
        }
        self.blocks.insert(i, block.clone());
        let ghost after = self.blocks@;
        let ghost first = keys(before);
        let ghost sorted = first.insert(i as int, block@);
        assert(keys(after) =~= sorted);
        assert forall|j: int, k: int| 0 <= j < k < sorted.len() implies block_before(
            #[trigger] sorted[j],
            #[trigger] sorted[k],
        ) by {
            if k == i {
                assert(sorted[j] == before[j]@);
            } else if j == i {
                assert(sorted[k] == first[k - 1]);
                if k - 1 > i {
                    assert(block_before(first[i as int], first[k - 1]));
                    block_before_is_transitive(block@, first[i as int], first[k - 1]);
                }
            } else {
                let j0 = if j < i { j } else { j - 1 };
                let k0 = if k < i { k } else { k - 1 };
                assert(block_before(first[j0], first[k0]));
                assert(sorted[j] == first[j0] && sorted[k] == first[k0]);
            }
        }
        assert(self.set() =~= old(self).set().insert(block@)) by {
            assert forall|key: BlockKey| self.set().contains(key) <==> old(self).set().insert(
                block@,
            ).contains(key) by {
                if keys(before).contains(key) {
                    let j = choose|j: int| 0 <= j < keys(before).len() && keys(before)[j] == key;
                    let k = if j < i { j } else { j + 1 };
                    assert(keys(after)[k] == key);
                }
                if key == block@ {
                    assert(keys(after)[i as int] == key);
                }
                if keys(after).contains(key) && key != block@ {
                    let k = choose|k: int| 0 <= k < keys(after).len() && keys(after)[k] == key;
                    let j = if k < i { k } else { k - 1 };
                    assert(keys(before)[j] == key);
                }
            }
        }
    }

    /// The predicate's uuid.
    pub fn uuid(&self) -> (uuid: &str)
        ensures
            uuid@ == self.spec_uuid(),
    {
        self.uuid.as_str()
    }

    /// The predicate's blocks, the highest first.
    pub fn blocks(&self) -> (blocks: &Vec<BlockIdentifier>)
        ensures
            keys(blocks@) == self.spec_blocks(),
            self.wf() ==> blocks_sorted(keys(blocks@)),
    {
        &self.blocks
    }
}

/// A map from predicates to sets of blocks, listed by uuid.
#[derive(Debug)]
pub struct BlocksByPredicate {
    entries: Vec<PredicateBlocks>,
}

/// The entry at `i` is that of the given predicate.
pub open spec fn is_entry_of(entries: Seq<PredicateBlocks>, uuid: Seq<char>, i: int) -> bool {
    0 <= i < entries.len() && entries[i].spec_uuid() == uuid
}

/// What a list of entries maps each predicate to.
pub open spec fn entries_map(entries: Seq<PredicateBlocks>) -> Map<Seq<char>, Set<BlockKey>> {
    Map::new(
        |uuid: Seq<char>| exists|i: int| is_entry_of(entries, uuid, i),
        |uuid: Seq<char>| entries[choose|i: int| is_entry_of(entries, uuid, i)].set(),
    )
}

/// The entries stand in the order of their uuids, one for each predicate.
pub open spec fn entries_sorted(entries: Seq<PredicateBlocks>) -> bool {
    forall|i: int, j: int|
        0 <= i < j < entries.len() ==> text_before(
            #[trigger] entries[i].spec_uuid(),
            #[trigger] entries[j].spec_uuid(),
        )
}

/// A map in which one more block is noted for a predicate.
pub open spec fn noted(
    map: Map<Seq<char>, Set<BlockKey>>,
    uuid: Seq<char>,
    block: BlockKey,
) -> Map<Seq<char>, Set<BlockKey>> {
    let blocks = if map.contains_key(uuid) {
        map[uuid]
    } else {
        Set::empty()
    };
    map.insert(uuid, blocks.insert(block))
}

/// A map in which one more block is noted for each pair of a predicate and a
/// block.
pub open spec fn noted_pairs(
    map: Map<Seq<char>, Set<BlockKey>>,
    pairs: Seq<(String, BlockIdentifier)>,
) -> Map<Seq<char>, Set<BlockKey>>
    decreases pairs.len(),
{
    if pairs.len() == 0 {
        map
    } else {
        noted(noted_pairs(map, pairs.drop_last()), pairs.last().0@, pairs.last().1@)
    }
}

/// A map in which several blocks are noted for a predicate.
pub open spec fn noted_blocks(
    map: Map<Seq<char>, Set<BlockKey>>,
    uuid: Seq<char>,
    blocks: Seq<BlockKey>,
) -> Map<Seq<char>, Set<BlockKey>>
    decreases blocks.len(),
{
    if blocks.len() == 0 {
        map
    } else {
        noted(noted_blocks(map, uuid, blocks.drop_last()), uuid, blocks.last())
    }
}

/// In sorted entries the entry of a predicate is the only one.
proof fn entry_is_unique(entries: Seq<PredicateBlocks>, uuid: Seq<char>, i: int)
    requires
        entries_sorted(entries),
        is_entry_of(entries, uuid, i),
    ensures
        entries_map(entries).contains_key(uuid),
        entries_map(entries)[uuid] == entries[i].set(),
{
    let j = choose|j: int| is_entry_of(entries, uuid, j);
    assert(is_entry_of(entries, uuid, j));
    if j < i {
        assert(text_before(entries[j].spec_uuid(), entries[i].spec_uuid()));
    } else if i < j {
        assert(text_before(entries[i].spec_uuid(), entries[j].spec_uuid()));
    }
}

/// Two maps agree when sorted entries say the same of each predicate.
proof fn entries_give_map(entries: Seq<PredicateBlocks>, map: Map<Seq<char>, Set<BlockKey>>)
    requires
        entries_sorted(entries),
        forall|i: int|
            0 <= i < entries.len() ==> {
                &&& map.contains_key(#[trigger] entries[i].spec_uuid())
                &&& map[entries[i].spec_uuid()] == entries[i].set()
            },
        forall|uuid: Seq<char>| #[trigger]
            map.contains_key(uuid) ==> exists|i: int| is_entry_of(entries, uuid, i),
    ensures
        entries_map(entries) == map,
{
    assert forall|uuid: Seq<char>| entries_map(entries).contains_key(uuid) implies entries_map(
        entries,
    )[uuid] == map[uuid] && map.contains_key(uuid) by {
        let i = choose|i: int| is_entry_of(entries, uuid, i);
        entry_is_unique(entries, uuid, i);
    }
    assert(entries_map(entries) =~= map);
}

impl BlocksByPredicate {
    /// The entries.
    pub closed spec fn spec_entries(&self) -> Seq<PredicateBlocks> {
        self.entries@
    }

    /// The entries stand in order, and so do the blocks of each.
    pub open spec fn wf(&self) -> bool {
        &&& entries_sorted(self.spec_entries())
        &&& forall|i: int|
            0 <= i < self.spec_entries().len() ==> (#[trigger] self.spec_entries()[i]).wf()
    }
}

impl Clone for BlocksByPredicate {
    fn clone(&self) -> (copy: Self)
        ensures
            self.wf() ==> copy.wf() && copy@ == self@,
    {
        let entries = self.entries.clone();
        proof {
            if self.wf() {
                let before = self.entries@;
                let after = entries@;
                assert forall|i: int| 0 <= i < after.len() implies {
                    &&& (#[trigger] after[i]).wf()
                    &&& after[i].spec_uuid() == before[i].spec_uuid()
                    &&& after[i].set() == before[i].set()
                } by {
                    assert(cloned(before[i], after[i]));
                }
                assert forall|i: int| 0 <= i < after.len() implies {
                    &&& self@.contains_key(#[trigger] after[i].spec_uuid())
                    &&& self@[after[i].spec_uuid()] == after[i].set()
                } by {
                    assert(is_entry_of(before, after[i].spec_uuid(), i));
                    entry_is_unique(before, after[i].spec_uuid(), i);
                }
                assert forall|uuid: Seq<char>| #[trigger] self@.contains_key(uuid) implies exists|
                    i: int,
                | is_entry_of(after, uuid, i) by {
                    let i = choose|i: int| is_entry_of(before, uuid, i);
                    assert(is_entry_of(after, uuid, i));
                }
                entries_give_map(after, self@);
            }
        }
        BlocksByPredicate { entries }
    }
}

impl View for BlocksByPredicate {
    type V = Map<Seq<char>, Set<BlockKey>>;

    open spec fn view(&self) -> Map<Seq<char>, Set<BlockKey>> {
        entries_map(self.spec_entries())
    }
}

impl BlocksByPredicate {
    /// The empty map.
    pub fn new() -> (map: BlocksByPredicate)
        ensures
            map.wf(),
            map@ == Map::<Seq<char>, Set<BlockKey>>::empty(),
    {
        let map = BlocksByPredicate { entries: Vec::new() };
        assert(map@ =~= Map::<Seq<char>, Set<BlockKey>>::empty());
        map
    }

    /// The entries, in the order of their uuids.
    pub fn entries(&self) -> (entries: &Vec<PredicateBlocks>)
        ensures
            entries@ == self.spec_entries(),
    {
        &self.entries
    }

    /// Notes a block for a predicate.
    pub fn track(&mut self, uuid: &str, block: &BlockIdentifier)
        requires
            old(self).wf(),
        ensures
            final(self).wf(),
            final(self)@ == noted(old(self)@, uuid@, block@),
    {
        let ghost before = self.entries@;
        let ghost target = noted(self@, uuid@, block@);
        let mut i: usize = 0;
        let mut found = false;
        while i < self.entries.len()
            invariant_except_break
                !found,
            invariant
                i <= self.entries.len(),
                self.entries@ == before,
                self.wf(),
                forall|j: int| 0 <= j < i ==> text_before(#[trigger] before[j].spec_uuid(), uuid@),
            ensures
                self.entries@ == before,
                self.wf(),
                i <= before.len(),
                forall|j: int| 0 <= j < i ==> text_before(#[trigger] before[j].spec_uuid(), uuid@),
                found ==> is_entry_of(before, uuid@, i as int),
                !found && i < before.len() ==> text_before(uuid@, before[i as int].spec_uuid()),
            decreases self.entries.len() - i,
        {
            match compare_text(self.entries[i].uuid(), uuid) {
                TextOrder::Before => {
                    i += 1;
                },
                TextOrder::Same => {
                    found = true;
                    break ;
                },
                TextOrder::After => {
                    break ;
                },
            }
        }
        if found {
            self.entries[i].insert(block);
            proof {
                let after = self.entries@;
                assert(forall|j: int|
                    0 <= j < after.len() ==> #[trigger] after[j].spec_uuid()
                        == before[j].spec_uuid());
                entry_is_unique(before, uuid@, i as int);
                assert forall|j: int| 0 <= j < after.len() implies {
                    &&& target.contains_key(#[trigger] after[j].spec_uuid())
                    &&& target[after[j].spec_uuid()] == after[j].set()
                } by {
                    assert(is_entry_of(before, before[j].spec_uuid(), j));
                    entry_is_unique(before, before[j].spec_uuid(), j);
                    if j < i {
                        assert(text_before(before[j].spec_uuid(), uuid@));
                    } else if i < j {
                        assert(text_before(before[i as int].spec_uuid(), before[j].spec_uuid()));
                    }
                }
                assert forall|u: Seq<char>| #[trigger] target.contains_key(u) implies exists|j: int|
                    is_entry_of(after, u, j) by {
                    if u == uuid@ {
                        assert(is_entry_of(after, u, i as int));
                    } else {
                        let j = choose|j: int| is_entry_of(before, u, j);
                        assert(is_entry_of(before, u, j));
                        assert(is_entry_of(after, u, j));
                    }
                }
                entries_give_map(after, target);
            }
        } else {
            proof {
                assert forall|j: int| i <= j < before.len() implies text_before(
                    uuid@,
                    #[trigger] before[j].spec_uuid(),
                ) by {
                    if i < j {
                        text_before_is_transitive(
                            uuid@,
                            before[i as int].spec_uuid(),
                            before[j].spec_uuid(),
                        );
                    }
                }
                assert(!entries_map(before).contains_key(uuid@));
            }
            self.entries.insert(i, PredicateBlocks::new(uuid, block));
            proof {
                let after = self.entries@;
                assert forall|j: int, k: int| 0 <= j < k < after.len() implies text_before(
                    #[trigger] after[j].spec_uuid(),
                    #[trigger] after[k].spec_uuid(),
                ) by {
                    let j0 = if j < i { j } else { j - 1 };
                    let k0 = if k < i { k } else { k - 1 };
                    if k == i {
                        assert(after[j] == before[j]);
                    } else if j == i {
                        assert(after[k] == before[k0]);
                    } else {
                        assert(after[j] == before[j0] && after[k] == before[k0]);
                    }
                }
                assert forall|j: int| 0 <= j < after.len() implies {
                    &&& (#[trigger] after[j]).wf()
                    &&& target.contains_key(after[j].spec_uuid())
                    &&& target[after[j].spec_uuid()] == after[j].set()
                } by {
                    if j != i {
                        let j0 = if j < i { j } else { j - 1 };
                        assert(after[j] == before[j0]);
                        assert(is_entry_of(before, before[j0].spec_uuid(), j0));
                        entry_is_unique(before, before[j0].spec_uuid(), j0);
                    }
                }
                assert forall|u: Seq<char>| #[trigger] target.contains_key(u) implies exists|j: int|
                    is_entry_of(after, u, j) by {
                    if u == uuid@ {
                        assert(is_entry_of(after, u, i as int));
                    } else {
                        let j = choose|j: int| is_entry_of(before, u, j);
                        assert(is_entry_of(before, u, j));
                        assert(is_entry_of(after, u, if j < i { j } else { j + 1 }));
                    }
                }
                entries_give_map(after, target);
            }
        }
    }

    /// The blocks noted for a predicate, the highest first.
    pub fn get(&self, uuid: &str) -> (blocks: Option<&Vec<BlockIdentifier>>)
        requires
            self.wf(),
        ensures
            match blocks {
                Some(blocks) => {
                    &&& self@.contains_key(uuid@)
                    &&& self@[uuid@] == keys(blocks@).to_set()
                    &&& blocks_sorted(keys(blocks@))
                },
                None => !self@.contains_key(uuid@),
            },
    {
        let mut i: usize = 0;
        while i < self.entries.len()
            invariant
                i <= self.entries.len(),
                self.wf(),
                forall|j: int| 0 <= j < i ==> !is_entry_of(self.entries@, uuid@, j),
            decreases self.entries.len() - i,
        {
            if same_text(self.entries[i].uuid(), uuid) {
                proof {
                    entry_is_unique(self.entries@, uuid@, i as int);
                }
                return Some(self.entries[i].blocks());
            }
            i += 1;
        }
        None
    }
}

/// What the predicates did with a chain event.
#[derive(Debug)]
pub struct PredicateEvaluationReport {
    pub predicates_evaluated: BlocksByPredicate,
    pub predicates_triggered: BlocksByPredicate,
    pub predicates_expired: BlocksByPredicate,
}

impl Clone for PredicateEvaluationReport {
    fn clone(&self) -> (copy: Self)
        ensures
            self.wf() ==> copy.wf() && copy@ == self@,
    {
        PredicateEvaluationReport {
            predicates_evaluated: self.predicates_evaluated.clone(),
            predicates_triggered: self.predicates_triggered.clone(),
            predicates_expired: self.predicates_expired.clone(),
        }
    }
}

/// What a `PredicateEvaluationReport` holds.
pub struct ReportView {
    pub evaluated: Map<Seq<char>, Set<BlockKey>>,
    pub triggered: Map<Seq<char>, Set<BlockKey>>,
    pub expired: Map<Seq<char>, Set<BlockKey>>,
}

impl ReportView {
    /// The report that says nothing.
    pub open spec fn empty() -> ReportView {
        ReportView { evaluated: Map::empty(), triggered: Map::empty(), expired: Map::empty() }
    }
}

impl View for PredicateEvaluationReport {
    type V = ReportView;

    open spec fn view(&self) -> ReportView {
        ReportView {
            evaluated: self.predicates_evaluated@,
            triggered: self.predicates_triggered@,
            expired: self.predicates_expired@,
        }
    }
}

impl PredicateEvaluationReport {
    /// The maps are in order.
    pub open spec fn wf(&self) -> bool {
        &&& self.predicates_evaluated.wf()
        &&& self.predicates_triggered.wf()
        &&& self.predicates_expired.wf()
    }

    /// The report that says nothing.
    pub fn new() -> (report: PredicateEvaluationReport)
        ensures
            report.wf(),
            report@ == ReportView::empty(),
    {
        PredicateEvaluationReport {
            predicates_evaluated: BlocksByPredicate::new(),
            predicates_triggered: BlocksByPredicate::new(),
            predicates_expired: BlocksByPredicate::new(),
        }
    }

    /// Notes that a predicate was evaluated on a block.
    pub fn track_evaluation(&mut self, uuid: &str, block_identifier: &BlockIdentifier)
        requires
            old(self).wf(),
        ensures
            final(self).wf(),
            final(self)@ == (ReportView {
                evaluated: noted(old(self)@.evaluated, uuid@, block_identifier@),
                ..old(self)@
            }),
    {
        self.predicates_evaluated.track(uuid, block_identifier);
    }

    /// Notes that a predicate was triggered by some blocks.
    pub fn track_trigger(&mut self, uuid: &str, blocks: &Vec<&BlockIdentifier>)
        requires
            old(self).wf(),
        ensures
            final(self).wf(),
            final(self)@ == (ReportView {
                triggered: noted_blocks(
                    old(self)@.triggered,
                    uuid@,
                    blocks@.map_values(|block: &BlockIdentifier| block@),
                ),
                ..old(self)@
            }),
    {
        let ghost ids = blocks@.map_values(|block: &BlockIdentifier| block@);
        for i in 0..blocks.len()
            invariant
                self.wf(),
                ids == blocks@.map_values(|block: &BlockIdentifier| block@),
                self@ == (ReportView {
                    triggered: noted_blocks(old(self)@.triggered, uuid@, ids.take(i as int)),
                    ..old(self)@
                }),
        {
            self.predicates_triggered.track(uuid, blocks[i]);
            assert(ids.take(i + 1).drop_last() =~= ids.take(i as int));
        }
        assert(ids.take(blocks@.len() as int) =~= ids);
    }

    /// Notes that a predicate expired on a block.
    pub fn track_expiration(&mut self, uuid: &str, block_identifier: &BlockIdentifier)
        requires
            old(self).wf(),
        ensures
            final(self).wf(),
            final(self)@ == (ReportView {
                expired: noted(old(self)@.expired, uuid@, block_identifier@),
                ..old(self)@
            }),
    {
        self.predicates_expired.track(uuid, block_identifier);
    }
}

} // verus!
