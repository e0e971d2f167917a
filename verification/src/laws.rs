//! What holds of the library as a whole.

use vstd::prelude::*;

pub mod blocks;
pub mod commands;
pub mod counting;
pub mod course;
pub mod events;
pub mod evidence;
pub mod handling;
pub mod hooks;
pub mod lifecycle;
pub mod monitoring;
pub mod observer;
pub mod occurrences;
pub mod report;
pub mod rounds;
pub mod runs;
pub mod selection;
pub mod settings;
pub mod texts;
pub mod triggers;
pub mod validity;
pub mod views;

verus! {

/// A filtered sequence holds what the sequence holds that passes the test.
pub(crate) proof fn filter_keeps_what_passes<A>(items: Seq<A>, test: spec_fn(A) -> bool, item: A)
    ensures
        items.filter(test).contains(item) <==> items.contains(item) && test(item),
    decreases items.len(),
{
    reveal(Seq::filter);
    if items.len() > 0 {
        let shorter = items.drop_last();
        filter_keeps_what_passes(shorter, test, item);
        if items.contains(item) && item != items.last() {
            let i = choose|i: int| 0 <= i < items.len() && items[i] == item;
            assert(shorter[i] == item);
        }
        if shorter.contains(item) {
            let i = choose|i: int| 0 <= i < shorter.len() && shorter[i] == item;
            assert(items[i] == item);
        }
        assert(items[items.len() - 1] == items.last());
        if test(items.last()) {
            let kept = shorter.filter(test);
            assert(items.filter(test) == kept.push(items.last()));
            assert(kept.push(items.last())[kept.len() as int] == items.last());
            if kept.contains(item) {
                let i = choose|i: int| 0 <= i < kept.len() && kept[i] == item;
                assert(kept.push(items.last())[i] == item);
            }
        }
    }
}

} // verus!
