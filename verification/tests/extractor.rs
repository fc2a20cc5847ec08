use recall::utils::concurrency::{count_ones, decode_mask, sort_by_popcount};
use recall::{
    Action, ActionExtractor, AnalysisError, BasicAction, Clause, ClauseComposition,
    ClauseCompositionType, Conflict, ConflictType, ContractUtil, DeonticClauseType,
    RelativizedAction,
};

fn basic(id: i32) -> Action {
    Action::Basic(BasicAction::with_value(id))
}

fn fired(sender: i32, action: i32, receiver: i32) -> RelativizedAction {
    RelativizedAction::new(sender, BasicAction::with_value(action), receiver)
}

fn conflict(a: i32, b: i32, kind: ConflictType) -> Conflict {
    Conflict::new(BasicAction::with_value(a), BasicAction::with_value(b), kind)
}

fn joined(mut first: Clause, connective: ClauseCompositionType, second: Clause) -> Clause {
    first.set_composition(ClauseComposition::new(connective, second));
    first
}

#[test]
fn relativized_actions_follow_the_relativization() {
    let e = ActionExtractor::new(vec![]);
    let ids = vec![1, 2, 3];
    let directed = Clause::deontic_directed(1, 2, basic(7), DeonticClauseType::Obligation, None);
    assert_eq!(e.calculate_relativized_actions(&directed, &ids), vec![fired(1, 7, 2)]);
    let relativized = Clause::deontic_relativized(2, basic(7), DeonticClauseType::Obligation, None);
    assert_eq!(
        e.calculate_relativized_actions(&relativized, &ids),
        vec![fired(2, 7, 1), fired(2, 7, 3)]
    );
    let global = Clause::dynamic_global(basic(7), Clause::boolean_true());
    assert_eq!(
        e.calculate_relativized_actions(&global, &vec![1, 2]),
        vec![fired(1, 7, 2), fired(2, 7, 1)]
    );
    assert_eq!(e.calculate_relativized_actions(&global, &vec![4, 4]), vec![fired(4, 7, 4)]);
    assert_eq!(e.calculate_relativized_actions(&relativized, &vec![2]), vec![fired(2, 7, 2)]);
    assert_eq!(e.calculate_relativized_actions(&global, &vec![]), vec![]);
    assert_eq!(e.calculate_relativized_actions(&Clause::boolean_true(), &ids), vec![]);
}

#[test]
fn relativized_actions_of_a_spine_are_joined_without_repeats() {
    let e = ActionExtractor::new(vec![]);
    let first = Clause::deontic_directed(
        1,
        2,
        Action::choice(basic(7), basic(8)),
        DeonticClauseType::Obligation,
        None,
    );
    let second = Clause::deontic_directed(1, 2, basic(7), DeonticClauseType::Prohibition, None);
    let third = Clause::dynamic_directed(2, 1, basic(7), Clause::boolean_true());
    let spine = joined(
        first,
        ClauseCompositionType::And,
        joined(
            Clause::boolean_true(),
            ClauseCompositionType::And,
            joined(second, ClauseCompositionType::Or, third),
        ),
    );
    assert_eq!(
        e.calculate_relativized_actions(&spine, &vec![1, 2]),
        vec![fired(1, 7, 2), fired(1, 8, 2), fired(2, 7, 1)]
    );
}

#[test]
fn individuals_of_a_clause_are_those_of_its_spine() {
    let directed = Clause::deontic_directed(4, 5, basic(7), DeonticClauseType::Obligation, None);
    let relativized = Clause::dynamic_relativized(
        6,
        basic(7),
        Clause::deontic_directed(8, 9, basic(7), DeonticClauseType::Obligation, None),
    );
    let spine = joined(
        directed,
        ClauseCompositionType::And,
        joined(Clause::boolean_true(), ClauseCompositionType::And, relativized),
    );
    assert_eq!(ActionExtractor::calculate_individuals(&spine, vec![1, 2]), vec![5, 4, 6]);
    let global = Clause::deontic_global(basic(7), DeonticClauseType::Obligation, None);
    assert_eq!(ActionExtractor::calculate_individuals(&global, vec![3, 2]), vec![3]);
    assert_eq!(ActionExtractor::calculate_individuals(&global, vec![]), vec![]);
}

#[test]
fn validity_holds_apart_what_the_catalogue_names() {
    let global = vec![conflict(7, 8, ConflictType::Global)];
    let relativized = vec![conflict(7, 8, ConflictType::Relativized)];
    let same_sender = vec![fired(1, 7, 2), fired(1, 8, 3)];
    let other_sender = vec![fired(1, 7, 2), fired(2, 8, 1)];
    assert!(!ContractUtil::is_valid(&vec![], &vec![]));
    assert!(ContractUtil::is_valid(&same_sender, &vec![]));
    assert!(!ContractUtil::is_valid(&same_sender, &global));
    assert!(!ContractUtil::is_valid(&other_sender, &global));
    assert!(!ContractUtil::is_valid(&same_sender, &relativized));
    assert!(ContractUtil::is_valid(&other_sender, &relativized));
    assert!(ContractUtil::is_valid(&vec![fired(1, 7, 2)], &global));
    assert!(ContractUtil::is_valid(&vec![fired(1, 8, 2)], &global));
    assert!(!ContractUtil::is_valid(&vec![fired(1, 7, 2)], &vec![conflict(7, 7, ConflictType::Global)]));
    // a subset of a valid set is valid
    let valid = vec![fired(1, 7, 2), fired(2, 8, 1), fired(2, 9, 1)];
    assert!(ContractUtil::is_valid(&valid, &relativized));
    assert!(ContractUtil::is_valid(&valid[1..].to_vec(), &relativized));
    assert!(ContractUtil::is_valid(&valid[..1].to_vec(), &relativized));
}

#[test]
fn masks_stand_for_subsets_in_source_order() {
    let source = vec![fired(1, 7, 2), fired(1, 8, 2), fired(2, 7, 1)];
    assert_eq!(decode_mask(&source, 0), vec![]);
    assert_eq!(decode_mask(&source, 0b101), vec![source[0], source[2]]);
    assert_eq!(decode_mask(&source, 0b1111_1010), vec![source[1]]);
    assert_eq!(count_ones(0), 0);
    assert_eq!(count_ones(0b1011), 3);
    assert_eq!(count_ones(u32::MAX), 32);
    assert_eq!(sort_by_popcount(&vec![1, 2, 3, 4, 5, 6, 7]), vec![7, 3, 5, 6, 1, 2, 4]);
    assert!(ContractUtil::is_valid_mask(&source, &vec![], 0b10));
    assert!(!ContractUtil::is_valid_mask(&source, &vec![], 0));
    assert!(!ContractUtil::is_valid_mask(&source, &vec![conflict(7, 8, ConflictType::Global)], 0b110));
}

#[test]
fn valid_masks_come_fuller_subsets_first() {
    let source = vec![fired(1, 7, 2), fired(1, 8, 2), fired(2, 7, 1)];
    let all = ContractUtil::calculate_concurrent_relativized_actions(source.clone(), &vec![])
        .expect("three actions are few enough");
    assert_eq!(*all.source_map, source);
    assert_eq!(all.valid_masks, vec![7, 3, 5, 6, 1, 2, 4]);
    let apart = ContractUtil::calculate_concurrent_relativized_actions(
        source.clone(),
        &vec![conflict(7, 8, ConflictType::Relativized)],
    )
    .expect("three actions are few enough");
    assert_eq!(apart.valid_masks, vec![5, 6, 1, 2, 4]);
    let none = ContractUtil::calculate_concurrent_relativized_actions(vec![], &vec![])
        .expect("no action is few enough");
    assert!(none.source_map.is_empty());
    assert!(none.valid_masks.is_empty());
}

#[test]
fn more_than_thirty_actions_are_refused() {
    let many: Vec<RelativizedAction> = (0..31).map(|i| fired(1, 100 + i, 2)).collect();
    assert_eq!(
        ContractUtil::calculate_concurrent_relativized_actions(many, &vec![]).unwrap_err(),
        AnalysisError::CapacityExceeded { actions: 31 }
    );
    let mut extractor = ActionExtractor::new(vec![]);
    let mut action = basic(100);
    for i in 1..31 {
        action = Action::choice(action, basic(100 + i));
    }
    let clause = Clause::deontic_directed(1, 2, action, DeonticClauseType::Obligation, None);
    assert_eq!(
        extractor
            .calculate_concurrent_relativized_actions(&clause, &vec![1, 2])
            .unwrap_err(),
        AnalysisError::CapacityExceeded { actions: 31 }
    );
}

#[test]
fn a_refused_reservation_is_reported_with_the_number_of_subsets() {
    let source = vec![fired(1, 7, 2), fired(1, 8, 2)];
    assert_eq!(
        ContractUtil::enumerate_masks(source.clone(), &vec![], false).unwrap_err(),
        AnalysisError::AllocationRefused { combinations: 4 }
    );
    let ok = ContractUtil::enumerate_masks(source, &vec![], true).expect("memory was reserved");
    assert_eq!(ok.valid_masks, vec![3, 1, 2]);
}

#[test]
fn a_single_action_gets_its_refusal_as_second_bit() {
    let mut extractor = ActionExtractor::new(vec![]);
    let clause = Clause::deontic_directed(1, 2, basic(7), DeonticClauseType::Permission, None);
    let result = extractor
        .calculate_concurrent_relativized_actions(&clause, &vec![1, 2])
        .expect("one action is few enough");
    assert_eq!(
        *result.source_map,
        vec![fired(1, 7, 2), RelativizedAction::negation(&fired(1, 7, 2))]
    );
    assert_eq!(result.valid_masks, vec![1, 2]);
    let again = extractor
        .calculate_concurrent_relativized_actions(&clause, &vec![1, 2, 2])
        .expect("one action is few enough");
    assert_eq!(again.source_map, result.source_map);
    assert_eq!(again.valid_masks, result.valid_masks);

    let mut own_conflict = ActionExtractor::new(vec![conflict(7, 7, ConflictType::Global)]);
    let only_refusal = own_conflict
        .calculate_concurrent_relativized_actions(&clause, &vec![1, 2])
        .expect("one action is few enough");
    assert_eq!(only_refusal.valid_masks, vec![2]);

    let nothing = Clause::deontic_directed(
        1,
        2,
        Action::Basic(BasicAction::skip()),
        DeonticClauseType::Obligation,
        None,
    );
    let empty = extractor
        .calculate_concurrent_relativized_actions(&nothing, &vec![1, 2])
        .expect("no action is few enough");
    assert!(empty.source_map.is_empty());
    assert!(empty.valid_masks.is_empty());
}

#[test]
fn composed_actions_are_rewritten_before_actions_are_extracted() {
    let mut extractor = ActionExtractor::new(vec![conflict(7, 8, ConflictType::Global)]);
    let clause = Clause::deontic_directed(
        1,
        2,
        Action::choice(basic(7), basic(8)),
        DeonticClauseType::Obligation,
        None,
    );
    let result = extractor
        .calculate_concurrent_relativized_actions(&clause, &vec![1, 2])
        .expect("two actions are few enough");
    assert_eq!(*result.source_map, vec![fired(1, 7, 2), fired(1, 8, 2)]);
    assert_eq!(result.valid_masks, vec![1, 2]);
}

#[test]
fn error_messages_name_the_numbers() {
    assert_eq!(
        AnalysisError::CapacityExceeded { actions: 31 }.message(),
        "CRITICAL: Can't calculate the set of concurrent relativized actions. (Number of actions 31). Maximum supported is 30."
    );
    assert_eq!(
        AnalysisError::AllocationRefused { combinations: 1 << 30 }.message(),
        "CRITICAL: Memory allocation of approx 4.00 GB failed for 1073741824 concurrent action combinations."
    );
    assert_eq!(
        AnalysisError::AllocationRefused { combinations: 1 << 25 }.message(),
        "CRITICAL: Memory allocation of approx 0.12 GB failed for 33554432 concurrent action combinations."
    );
    assert_eq!(
        AnalysisError::AllocationRefused { combinations: 1 << 22 }.message(),
        "CRITICAL: Memory allocation of approx 0.02 GB failed for 4194304 concurrent action combinations."
    );
    assert_eq!(
        AnalysisError::IdentifiersExhausted.message(),
        "CRITICAL: No further transition can be numbered."
    );
}

#[test]
fn nested_composed_actions_are_elaborated_before_actions_are_extracted() {
    let mut extractor = ActionExtractor::new(vec![conflict(7, 8, ConflictType::Global)]);
    let clause = Clause::deontic_directed(
        1,
        2,
        Action::concurrency(Action::choice(basic(7), basic(8)), basic(9)),
        DeonticClauseType::Obligation,
        None,
    );
    let result = extractor
        .calculate_concurrent_relativized_actions(&clause, &vec![1, 2])
        .expect("three actions are few enough");
    assert_eq!(*result.source_map, vec![fired(1, 7, 2), fired(1, 8, 2), fired(1, 9, 2)]);
    assert_eq!(result.valid_masks, vec![5, 6, 1, 2, 4]);
}
