use chainhook_observer::chain::BlockIdentifier;
use chainhook_observer::triggers::{
    AppliedBlock, Evaluation, OccurrenceTracker, TriggerChainhook, TriggeredChainhook,
};

fn trigger(uuid: &str, limit: Option<u64>, blocks: &[u64]) -> TriggerChainhook {
    TriggerChainhook {
        chainhook: TriggeredChainhook {
            uuid: uuid.to_string(),
            expire_after_occurrence: limit,
            include_proof: false,
        },
        apply: blocks
            .iter()
            .map(|index| AppliedBlock {
                block_identifier: BlockIdentifier { index: *index, hash: format!("0x{}", index) },
                transactions: vec![],
            })
            .collect(),
        content: String::new(),
    }
}

fn names(triggers: &Vec<TriggerChainhook>) -> Vec<String> {
    triggers.iter().map(|t| t.chainhook.uuid.clone()).collect()
}

#[test]
fn limit_is_never_exceeded() {
    let mut tracker = OccurrenceTracker::new();
    assert_eq!(tracker.count("a"), 0);
    for round in 1..=2 {
        let (admitted, exhausted) = tracker.count_triggers(vec![trigger("a", Some(2), &[])]);
        assert_eq!(names(&admitted), vec!["a"]);
        assert!(exhausted.is_empty());
        assert_eq!(tracker.count("a"), round);
    }
    let (admitted, exhausted) = tracker.count_triggers(vec![trigger("a", Some(2), &[])]);
    assert!(admitted.is_empty());
    assert_eq!(exhausted, vec!["a"]);
    assert_eq!(tracker.count("a"), 2);
}

#[test]
fn no_limit_and_a_limit_of_zero_admit_everything() {
    let mut tracker = OccurrenceTracker::new();
    for _ in 0..5 {
        let triggers = vec![trigger("a", None, &[]), trigger("b", Some(0), &[])];
        let (admitted, exhausted) = tracker.count_triggers(triggers);
        assert_eq!(names(&admitted), vec!["a", "b"]);
        assert!(exhausted.is_empty());
    }
    assert_eq!(tracker.count("a"), 5);
    assert_eq!(tracker.count("b"), 5);
}

#[test]
fn triggers_of_one_event_are_counted_in_order() {
    let mut tracker = OccurrenceTracker::new();
    let triggers = vec![
        trigger("a", Some(1), &[1]),
        trigger("b", Some(1), &[2]),
        trigger("a", Some(1), &[3]),
        trigger("a", None, &[4]),
    ];
    assert!(tracker.fits(&triggers));
    let (admitted, exhausted) = tracker.count_triggers(triggers);
    assert_eq!(names(&admitted), vec!["a", "b", "a"]);
    assert_eq!(admitted[2].apply[0].block_identifier.index, 4);
    assert_eq!(exhausted, vec!["a"]);
    assert_eq!(tracker.count("a"), 2);
}

#[test]
fn report_lists_what_was_found() {
    let evaluation = Evaluation {
        predicates_triggered: vec![trigger("a", Some(1), &[1, 2]), trigger("a", Some(1), &[3])],
        predicates_evaluated: vec![
            ("a".to_string(), BlockIdentifier { index: 1, hash: "0x1".to_string() }),
            ("b".to_string(), BlockIdentifier { index: 1, hash: "0x1".to_string() }),
        ],
        predicates_expired: vec![(
            "c".to_string(),
            BlockIdentifier { index: 9, hash: "0x9".to_string() },
        )],
    };
    let report = evaluation.report();
    let triggered = report.predicates_triggered.get("a").unwrap();
    let heights: Vec<u64> = triggered.iter().map(|b| b.index).collect();
    assert_eq!(heights, vec![3, 2, 1]);
    assert!(report.predicates_triggered.get("b").is_none());
    assert_eq!(report.predicates_evaluated.entries().len(), 2);
    assert_eq!(report.predicates_evaluated.get("b").unwrap()[0].index, 1);
    assert_eq!(report.predicates_expired.get("c").unwrap()[0].index, 9);
}
