use recall::{
    Action, Automaton, BasicAction, Clause, Conflict, ConflictType, Contract, DeonticClauseType,
    RelativizedAction, State, StateSituation, StateUpdate, Symbol, SymbolTable, SymbolType,
    Transition,
};
use std::sync::Arc;

fn basic(id: i32) -> Action {
    Action::Basic(BasicAction::with_value(id))
}

fn obligation(action: i32) -> Clause {
    Clause::deontic_directed(1, 2, basic(action), DeonticClauseType::Obligation, None)
}

fn table() -> SymbolTable {
    let mut t = SymbolTable::new();
    t.add_symbol("alice".to_string(), SymbolType::Individual);
    t.add_symbol("bob".to_string(), SymbolType::Individual);
    t.add_symbol("pay".to_string(), SymbolType::Action);
    t.add_symbol("ship".to_string(), SymbolType::Action);
    t
}

fn empty() -> Automaton {
    Automaton::new(&Contract::new(), &table())
}

#[test]
fn symbols_get_ids_in_the_order_in_which_they_are_added() {
    let mut t = SymbolTable::new();
    assert!(t.is_empty());
    assert_eq!(t.add_symbol("pay".to_string(), SymbolType::Action), 1);
    assert_eq!(t.add_symbol("pay".to_string(), SymbolType::Individual), 2);
    assert_eq!(t.add_symbol("bob".to_string(), SymbolType::Individual), 3);
    assert_eq!(t.add_symbol("pay".to_string(), SymbolType::Action), 1);
    assert_eq!(t.add_symbol("pay".to_string(), SymbolType::Individual), 2);
    assert_eq!(t.len(), 3);
    assert!(!t.is_empty());
    let bob = t.get_symbol_by_id(3).expect("the third symbol");
    assert_eq!((bob.id(), bob.value(), bob.symbol_type()), (3, "bob", SymbolType::Individual));
    assert_eq!(*bob, Symbol::new(3, "bob".to_string(), SymbolType::Individual));
    assert!(t.get_symbol_by_id(0).is_none());
    assert!(t.get_symbol_by_id(4).is_none());
    assert!(t.get_symbol_by_id(-1).is_none());
    assert_eq!(t.get_dictionary().len(), 3);
    assert_eq!(t.get_actions().iter().map(|s| s.id).collect::<Vec<_>>(), vec![1]);
    assert_eq!(t.get_individuals().iter().map(|s| s.id).collect::<Vec<_>>(), vec![2, 3]);
    assert_eq!(
        t.display(),
        "Table of Symbols\n(1)      action  pay\n(2)  individual  pay\n(3)  individual  bob\n"
    );
    assert_eq!(bob.clone().display(), "3 | bob | individual\n");
    assert_eq!(SymbolType::Action.name(), "action");
    t.clear();
    assert_eq!(t.len(), 0);
    assert_eq!(t.add_symbol("bob".to_string(), SymbolType::Individual), 1);
    assert!(SymbolTable::default().is_empty());
}

#[test]
fn contracts_collect_individuals_and_actions_of_their_clauses() {
    let inner = Clause::dynamic_relativized(
        4,
        Action::sequence(basic(8), Action::Basic(BasicAction::skip())),
        obligation(9),
    );
    let clause = Clause::deontic_directed(
        2,
        1,
        Action::choice(basic(7), Action::Basic(BasicAction::violation())),
        DeonticClauseType::Prohibition,
        Some(inner),
    );
    let mut contract = Contract::new();
    assert!(contract.add_clause(clause.clone()));
    assert!(!contract.add_clause(clause.clone()));
    assert!(contract.add_clause(Clause::boolean_true()));
    assert_eq!(contract.clauses, vec![clause, Clause::boolean_true()]);
    assert_eq!(contract.individuals, vec![2, 1, 4]);
    assert_eq!(
        contract.actions,
        vec![
            BasicAction::with_value(7),
            BasicAction::with_value(-1),
            BasicAction::with_value(8),
            BasicAction::with_value(9)
        ]
    );
    let global = Conflict::new(BasicAction::with_value(7), BasicAction::with_value(8), ConflictType::Global);
    let relativized =
        Conflict::new(BasicAction::with_value(8), BasicAction::with_value(9), ConflictType::Relativized);
    contract.relativized_conflicts.push(relativized);
    contract.global_conflicts.push(global);
    assert_eq!(contract.get_all_conflicts(), vec![global, relativized]);
    assert_eq!((global.a.value, global.b.value, global.conflict_type), (7, 8, ConflictType::Global));
    assert!(Contract::default().clauses.is_empty());
}

#[test]
fn contracts_print_clauses_and_conflicts() {
    let t = table();
    assert_eq!(Contract::new().display(&t), "Empty contract");
    let mut contract = Contract::with_clauses(vec![obligation(3), Clause::boolean_false()]);
    let pay = BasicAction::with_value(3);
    let ship = BasicAction::with_value(4);
    contract.global_conflicts.push(Conflict::new(pay, ship, ConflictType::Global));
    contract.global_conflicts.push(Conflict::new(ship, pay, ConflictType::Global));
    contract.relativized_conflicts.push(Conflict::new(pay, pay, ConflictType::Relativized));
    assert_eq!(
        contract.display(&t),
        "\n  {alice,bob}OBLIGATION(pay)\n  F\nConflicts:\n\tGlobal: [(pay,ship: GLOBAL), (ship,pay: GLOBAL)]\n\tRelativized: [(pay,pay: RELATIVIZED)]\n"
    );
}

#[test]
fn the_automaton_of_a_contract_starts_with_the_whole_contract() {
    let contract = Contract::with_clauses(vec![obligation(3)]);
    let automaton = Automaton::new(&contract, &table());
    assert_eq!(automaton.states.len(), 1);
    assert_eq!(automaton.states[0].id, 0);
    assert_eq!(automaton.states[0].clause, Some(obligation(3)));
    assert_eq!(automaton.states[0].situation, StateSituation::NotChecked);
    assert!(automaton.states[0].trace.is_empty());
    assert_eq!(automaton.initial.as_ref().map(|s| s.id), Some(0));
    assert!(automaton.transitions.is_empty());
    assert!(!automaton.conflict_found);
    let none = empty();
    assert!(none.states.is_empty());
    assert!(none.initial.is_none());
    assert_eq!(automaton.display(), "States: 1\nTransitions: 0\nConflicting: false\n");
}

#[test]
fn states_are_kept_by_id() {
    let mut a = empty();
    assert!(a.add_state(State::with_auto_id(3, Some(obligation(7)))));
    assert!(a.add_state(State::with_auto_id(1, Some(obligation(8)))));
    assert!(!a.add_state(State::with_auto_id(3, Some(obligation(9)))));
    assert_eq!(a.states.len(), 2);
    assert_eq!(a.get_state_by_id(3).and_then(|s| s.clause.clone()), Some(obligation(7)));
    assert!(a.get_state_by_id(2).is_none());
    assert_eq!(a.get_state_by_clause(&obligation(8)).map(|s| s.id), Some(1));
    assert!(a.get_state_by_clause(&obligation(9)).is_none());

    assert!(a.update_state(1, StateUpdate::Situation(StateSituation::Conflicting)));
    assert!(a.update_state(1, StateUpdate::PushTrace(12)));
    assert!(!a.update_state(2, StateUpdate::PushTrace(12)));
    let one = a.get_state_by_id(1).expect("state 1");
    assert_eq!((one.situation, one.trace.clone()), (StateSituation::Conflicting, vec![12]));
    assert_eq!(a.get_conflicts().iter().map(|s| s.id).collect::<Vec<_>>(), vec![1]);

    let taken = a.get_state_by_id_mut(3).expect("state 3");
    assert_eq!(taken.clause, Some(obligation(7)));
    assert!(a.get_state_by_id(3).is_none());
    assert!(a.get_state_by_id_mut(3).is_none());
    assert!(!a.replace_state(taken));
    assert!(a.replace_state(State::with_auto_id(1, None)));
    assert_eq!(a.states.iter().map(|s| s.id).collect::<Vec<_>>(), vec![1, 3]);
    assert!(a.get_state_by_id(1).expect("state 1").clause.is_none());
    assert!(a.get_conflicts().is_empty());
}

#[test]
fn transitions_are_kept_by_id_and_decode_their_mask() {
    let source = Arc::new(vec![
        RelativizedAction::new(1, BasicAction::with_value(7), 2),
        RelativizedAction::new(2, BasicAction::with_value(7), 1),
        RelativizedAction::new(1, BasicAction::with_value(8), 2),
    ]);
    let t = Transition::new(4, 0, 1, 0b110, source.clone());
    assert_eq!((t.id, t.from, t.to, t.mask), (4, 0, 1, 6));
    assert_eq!(t.actions(), vec![source[1], source[2]]);
    assert_eq!(Transition::new(5, 0, 1, 0, source.clone()).actions(), vec![]);
    assert_eq!(Transition::new(5, 0, 1, 0b1001, source.clone()).actions(), vec![source[0]]);
    assert_eq!(t.display(), "T4: 0 -> 1 [mask: 6]");
    let mut a = empty();
    assert!(a.add_transition(t));
    assert!(!a.add_transition(Transition::new(4, 2, 3, 1, source.clone())));
    assert!(a.add_transition(Transition::new(2, 2, 3, 1, source)));
    assert_eq!(a.get_transition_by_id(4).map(|t| t.to), Some(1));
    assert_eq!(a.get_transition_by_id(2).map(|t| t.to), Some(3));
    assert!(a.get_transition_by_id(1).is_none());
}
