use chainhook_observer::chain::BlockIdentifier;
use chainhook_observer::report::{BlocksByPredicate, PredicateEvaluationReport};

fn block(index: u64, hash: &str) -> BlockIdentifier {
    BlockIdentifier { index, hash: hash.to_string() }
}

fn listed(map: &BlocksByPredicate) -> Vec<(String, Vec<(u64, String)>)> {
    map.entries()
        .iter()
        .map(|entry| {
            let blocks = entry.blocks().iter().map(|b| (b.index, b.hash.clone())).collect();
            (entry.uuid().to_string(), blocks)
        })
        .collect()
}

#[test]
fn new_report_says_nothing() {
    let report = PredicateEvaluationReport::new();
    assert!(report.predicates_evaluated.entries().is_empty());
    assert!(report.predicates_triggered.entries().is_empty());
    assert!(report.predicates_expired.entries().is_empty());
    assert!(report.predicates_evaluated.get("a").is_none());
}

#[test]
fn predicates_are_listed_by_uuid_and_blocks_from_the_highest() {
    let mut report = PredicateEvaluationReport::new();
    report.track_evaluation("b", &block(1, "0x01"));
    report.track_evaluation("a", &block(2, "0x02"));
    report.track_evaluation("b", &block(3, "0x03"));
    report.track_evaluation("b", &block(2, "0x0a"));
    report.track_evaluation("b", &block(2, "0x0b"));
    assert_eq!(
        listed(&report.predicates_evaluated),
        vec![
            ("a".to_string(), vec![(2, "0x02".to_string())]),
            (
                "b".to_string(),
                vec![
                    (3, "0x03".to_string()),
                    (2, "0x0b".to_string()),
                    (2, "0x0a".to_string()),
                    (1, "0x01".to_string()),
                ]
            ),
        ]
    );
}

#[test]
fn noting_twice_and_in_another_order_changes_nothing() {
    let mut first = PredicateEvaluationReport::new();
    first.track_evaluation("a", &block(1, "0x01"));
    first.track_evaluation("a", &block(1, "0x01"));
    first.track_evaluation("b", &block(2, "0x02"));
    let mut second = PredicateEvaluationReport::new();
    second.track_evaluation("b", &block(2, "0x02"));
    second.track_evaluation("a", &block(1, "0x01"));
    assert_eq!(listed(&first.predicates_evaluated), listed(&second.predicates_evaluated));
    assert_eq!(first.predicates_evaluated.get("a").unwrap().len(), 1);
}

#[test]
fn evaluations_triggers_and_expirations_are_kept_apart() {
    let mut report = PredicateEvaluationReport::new();
    report.track_trigger("a", &vec![&block(1, "0x01"), &block(2, "0x02")]);
    report.track_expiration("b", &block(3, "0x03"));
    assert!(report.predicates_evaluated.entries().is_empty());
    assert_eq!(
        listed(&report.predicates_triggered),
        vec![("a".to_string(), vec![(2, "0x02".to_string()), (1, "0x01".to_string())])]
    );
    assert_eq!(
        listed(&report.predicates_expired),
        vec![("b".to_string(), vec![(3, "0x03".to_string())])]
    );
    assert!(report.predicates_triggered.get("b").is_none());
    let copy = report.clone();
    assert_eq!(listed(&copy.predicates_triggered), listed(&report.predicates_triggered));
    assert_eq!(listed(&copy.predicates_expired), listed(&report.predicates_expired));
}

#[test]
fn trigger_without_blocks_is_not_listed() {
    let mut report = PredicateEvaluationReport::new();
    report.track_trigger("a", &vec![]);
    assert!(report.predicates_triggered.entries().is_empty());
}
