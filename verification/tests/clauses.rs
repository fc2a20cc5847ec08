use recall::{
    Action, BasicAction, Clause, ClauseComposition, ClauseCompositionType, DeonticClauseType,
    RelativizationType, SymbolTable, SymbolType,
};

fn table() -> SymbolTable {
    let mut t = SymbolTable::new();
    t.add_symbol("alice".to_string(), SymbolType::Individual);
    t.add_symbol("bob".to_string(), SymbolType::Individual);
    t.add_symbol("pay".to_string(), SymbolType::Action);
    t.add_symbol("ship".to_string(), SymbolType::Action);
    t
}

fn basic(id: i32) -> Action {
    Action::Basic(BasicAction::with_value(id))
}

fn obligation(sender: i32, receiver: i32, action: i32) -> Clause {
    Clause::deontic_directed(sender, receiver, basic(action), DeonticClauseType::Obligation, None)
}

fn joined(mut first: Clause, connective: ClauseCompositionType, second: Clause) -> Clause {
    first.set_composition(ClauseComposition::new(connective, second));
    first
}

fn relativization(clause: &Clause) -> RelativizationType {
    match clause {
        Clause::Deontic { relativization_type, .. } | Clause::Dynamic { relativization_type, .. } => {
            *relativization_type
        }
        Clause::Boolean { .. } => panic!("a Boolean has no relativization"),
    }
}

#[test]
fn directed_constructors_take_relativization_from_signs() {
    assert_eq!(relativization(&obligation(1, 2, 3)), RelativizationType::Directed);
    assert_eq!(relativization(&obligation(1, -1, 3)), RelativizationType::Relativized);
    assert_eq!(relativization(&obligation(-1, 2, 3)), RelativizationType::Global);
    assert_eq!(relativization(&obligation(0, 0, 3)), RelativizationType::Directed);
    let inner = Clause::boolean_true();
    assert_eq!(
        relativization(&Clause::dynamic_directed(1, 2, basic(3), inner.clone())),
        RelativizationType::Directed
    );
    assert_eq!(
        relativization(&Clause::dynamic_directed(1, -5, basic(3), inner.clone())),
        RelativizationType::Relativized
    );
    assert_eq!(
        relativization(&Clause::dynamic_directed(-1, -1, basic(3), inner)),
        RelativizationType::Global
    );
}

#[test]
fn global_and_relativized_constructors_use_minus_one() {
    let g = Clause::deontic_global(basic(3), DeonticClauseType::Permission, None);
    assert_eq!((*g.get_sender(), *g.get_receiver()), (-1, -1));
    assert_eq!(relativization(&g), RelativizationType::Global);
    let r = Clause::deontic_relativized(1, basic(3), DeonticClauseType::Prohibition, Some(g.clone()));
    assert_eq!((*r.get_sender(), *r.get_receiver()), (1, -1));
    assert_eq!(relativization(&r), RelativizationType::Relativized);
    let dg = Clause::dynamic_global(basic(3), g.clone());
    assert_eq!((*dg.get_sender(), *dg.get_receiver()), (-1, -1));
    let dr = Clause::dynamic_relativized(2, basic(3), g);
    assert_eq!((*dr.get_sender(), *dr.get_receiver()), (2, -1));
    assert_eq!(relativization(&dr), RelativizationType::Relativized);
    assert_eq!((*Clause::boolean_true().get_sender(), *Clause::boolean_false().get_receiver()), (0, 0));
    assert_eq!(Clause::boolean_true(), Clause::Boolean { value: true, composition: None });
    assert_eq!(Clause::boolean_false(), Clause::Boolean { value: false, composition: None });
}

#[test]
fn compositions_are_set_read_and_cleared() {
    let mut clause = obligation(1, 2, 3);
    assert!(clause.get_composition().is_none());
    assert!(clause.get_composition_mut().is_none());
    let other = obligation(2, 1, 4);
    clause.set_composition(ClauseComposition::new(ClauseCompositionType::Or, other.clone()));
    let comp = clause.get_composition().expect("the composition was set");
    assert_eq!(comp.composition_type, ClauseCompositionType::Or);
    assert_eq!(*comp.other, other);
    clause.get_composition_mut().expect("the composition was set").composition_type =
        ClauseCompositionType::Xor;
    assert_eq!(
        clause.get_composition().map(|c| c.composition_type),
        Some(ClauseCompositionType::Xor)
    );
    clause.set_composition(ClauseComposition::new(ClauseCompositionType::And, Clause::boolean_true()));
    assert_eq!(*clause.get_composition().unwrap().other, Clause::boolean_true());
    clause.set_composition_to_none();
    assert_eq!(clause, obligation(1, 2, 3));
}

#[test]
fn tail_is_the_last_clause_of_the_spine() {
    let single = obligation(1, 2, 3);
    assert_eq!(*single.get_tail(), single);
    let spine = joined(
        obligation(1, 2, 3),
        ClauseCompositionType::And,
        joined(obligation(2, 1, 4), ClauseCompositionType::Or, Clause::boolean_false()),
    );
    assert_eq!(*spine.get_tail(), Clause::boolean_false());
}

#[test]
fn contains_follows_only_the_given_connective() {
    let a = obligation(1, 2, 3);
    let b = obligation(2, 1, 4);
    let c = obligation(1, 2, 4);
    let spine = joined(
        a.clone(),
        ClauseCompositionType::And,
        joined(b.clone(), ClauseCompositionType::Or, c.clone()),
    );
    assert!(spine.contains(ClauseCompositionType::And, &a));
    assert!(spine.contains(ClauseCompositionType::Or, &a));
    assert!(spine.contains(ClauseCompositionType::And, &b));
    assert!(!spine.contains(ClauseCompositionType::Or, &b));
    assert!(!spine.contains(ClauseCompositionType::And, &c));
    assert!(!spine.contains(ClauseCompositionType::And, &spine));
    assert!(!a.contains(ClauseCompositionType::And, &b));
    assert!(spine.equals(&spine.clone()));
    assert!(!spine.equals(&a));
}

#[test]
fn deontic_type_symbols() {
    assert_eq!(DeonticClauseType::Obligation.symbol(), "OBLIGATION");
    assert_eq!(DeonticClauseType::Permission.symbol(), "PERMISSION");
    assert_eq!(DeonticClauseType::Prohibition.symbol(), "PROHIBITION");
    assert_eq!(DeonticClauseType::Obligation.short_symbol(), "O");
    assert_eq!(DeonticClauseType::Permission.short_symbol(), "P");
    assert_eq!(DeonticClauseType::Prohibition.short_symbol(), "F");
    assert_eq!(ClauseCompositionType::And.symbol(), "AND");
    assert_eq!(ClauseCompositionType::Or.symbol(), "OR");
    assert_eq!(ClauseCompositionType::Xor.symbol(), "XOR");
    assert_eq!(ClauseCompositionType::Absent.symbol(), "NONE");
}

#[test]
fn clauses_print_relativization_type_action_penalty_and_spine() {
    let t = table();
    assert_eq!(Clause::boolean_true().display(&t), "T");
    assert_eq!(Clause::boolean_false().display(&t), "F");
    assert_eq!(obligation(1, 2, 3).display(&t), "{alice,bob}OBLIGATION(pay)");
    assert_eq!(
        Clause::deontic_relativized(2, basic(4), DeonticClauseType::Prohibition, None).display(&t),
        "{bob}PROHIBITION(ship)"
    );
    assert_eq!(
        Clause::deontic_global(basic(3), DeonticClauseType::Permission, None).display(&t),
        "PERMISSION(pay)"
    );
    let with_penalty = Clause::deontic_directed(
        1,
        2,
        basic(3),
        DeonticClauseType::Obligation,
        Some(Clause::boolean_false()),
    );
    assert_eq!(with_penalty.display(&t), "{alice,bob}OBLIGATION(pay)_/F/_");
    let dynamic = Clause::dynamic_relativized(
        1,
        Action::negation(basic(3)),
        joined(obligation(1, 2, 4), ClauseCompositionType::Xor, Clause::boolean_true()),
    );
    assert_eq!(dynamic.display(&t), "{alice}[!pay]({alice,bob}OBLIGATION(ship) XOR T)");
    let spine = joined(with_penalty, ClauseCompositionType::And, dynamic);
    assert_eq!(
        spine.display(&t),
        "{alice,bob}OBLIGATION(pay)_/F/_ AND {alice}[!pay]({alice,bob}OBLIGATION(ship) XOR T)"
    );
    assert_eq!(obligation(9, 2, 3).display(&t), "{GLOBAL,bob}OBLIGATION(pay)");
}
