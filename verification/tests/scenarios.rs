use recall::{
    analysis_records, AnalysisError, LogLevel, LogType,
    Action, AutomataConstructor, Automaton, BasicAction, Clause, ClauseComposition,
    ClauseCompositionType, ClauseDecomposer, Conflict, ConflictSearcher, ConflictType, Contract,
    DeonticClauseType, RelativizedAction, RunConfiguration, State, StateSituation, SymbolTable,
    SymbolType,
};

const ALICE: i32 = 1;
const BOB: i32 = 2;
const A: i32 = 3;
const B: i32 = 4;

fn table() -> SymbolTable {
    let mut t = SymbolTable::new();
    assert_eq!(t.add_symbol("alice".to_string(), SymbolType::Individual), ALICE);
    assert_eq!(t.add_symbol("bob".to_string(), SymbolType::Individual), BOB);
    assert_eq!(t.add_symbol("a".to_string(), SymbolType::Action), A);
    assert_eq!(t.add_symbol("b".to_string(), SymbolType::Action), B);
    t
}

fn basic(id: i32) -> Action {
    Action::Basic(BasicAction::with_value(id))
}

fn analyse(contract: &Contract, continue_on_conflict: bool) -> Automaton {
    let mut config = RunConfiguration::new();
    config.set_continue_on_conflict(continue_on_conflict);
    let mut constructor = AutomataConstructor::new(config);
    constructor.process(contract, &table()).expect("the analysis succeeds")
}

fn state_of<'a>(automaton: &'a Automaton, clause: &Clause) -> &'a State {
    automaton.get_state_by_clause(clause).expect("a state stands for the clause")
}

fn target(automaton: &Automaton, from: usize, chosen: &[RelativizedAction]) -> usize {
    let mut found = None;
    for t in &automaton.transitions {
        if t.from == from && t.actions() == chosen {
            assert!(found.is_none());
            found = Some(t.to);
        }
    }
    found.expect("a transition carries the actions")
}

#[test]
fn lone_permission_goes_to_satisfaction_on_both_masks() {
    let clause = Clause::deontic_relativized(ALICE, basic(A), DeonticClauseType::Permission, None);
    let mut contract = Contract::with_clauses(vec![clause.clone()]);
    contract.individuals = vec![ALICE];
    let automaton = analyse(&contract, false);
    assert!(!automaton.conflict_found);
    assert_eq!(automaton.states.len(), 2);
    assert_eq!(automaton.transitions.len(), 2);
    let initial = state_of(&automaton, &clause);
    assert_eq!(initial.id, 0);
    assert_eq!(initial.situation, StateSituation::ConflictFree);
    let done = state_of(&automaton, &Clause::boolean_true());
    assert_eq!(done.situation, StateSituation::Satisfaction);
    let fired = RelativizedAction::new(ALICE, BasicAction::with_value(A), ALICE);
    let refused = RelativizedAction::negation(&fired);
    assert_eq!(automaton.transitions[0].mask, 1);
    assert_eq!(automaton.transitions[1].mask, 2);
    assert_eq!(target(&automaton, 0, &[fired]), done.id);
    assert_eq!(target(&automaton, 0, &[refused]), done.id);
    assert_eq!(done.trace, vec![1]);
}

#[test]
fn obligation_with_compensation_reaches_penalty_then_violation() {
    let penalty = Clause::deontic_directed(ALICE, BOB, basic(B), DeonticClauseType::Obligation, None);
    let clause = Clause::deontic_directed(
        ALICE,
        BOB,
        basic(A),
        DeonticClauseType::Obligation,
        Some(penalty.clone()),
    );
    let contract = Contract::with_clauses(vec![clause.clone()]);
    assert_eq!(contract.individuals, vec![ALICE, BOB]);
    assert_eq!(contract.actions, vec![BasicAction::with_value(A), BasicAction::with_value(B)]);
    let automaton = analyse(&contract, false);
    assert!(!automaton.conflict_found);
    assert_eq!(automaton.states.len(), 4);
    assert_eq!(automaton.transitions.len(), 4);
    let a_done = RelativizedAction::new(ALICE, BasicAction::with_value(A), BOB);
    let b_done = RelativizedAction::new(ALICE, BasicAction::with_value(B), BOB);
    let satisfied = state_of(&automaton, &Clause::boolean_true());
    let violated = state_of(&automaton, &Clause::boolean_false());
    let compensating = state_of(&automaton, &penalty);
    assert_eq!(satisfied.situation, StateSituation::Satisfaction);
    assert_eq!(violated.situation, StateSituation::Violating);
    assert_eq!(compensating.situation, StateSituation::ConflictFree);
    assert_eq!(target(&automaton, 0, &[a_done]), satisfied.id);
    assert_eq!(target(&automaton, 0, &[RelativizedAction::negation(&a_done)]), compensating.id);
    assert_eq!(target(&automaton, compensating.id, &[b_done]), satisfied.id);
    assert_eq!(
        target(&automaton, compensating.id, &[RelativizedAction::negation(&b_done)]),
        violated.id
    );
    for t in &automaton.transitions {
        assert!(t.from != satisfied.id && t.from != violated.id);
        assert!(t.source_map.len() <= 31);
        assert!((t.mask as u64) < (1u64 << t.source_map.len()));
    }
}

#[test]
fn obligation_and_prohibition_of_one_action_conflict() {
    let obligation = Clause::deontic_global(basic(A), DeonticClauseType::Obligation, None);
    let prohibition = Clause::deontic_global(basic(A), DeonticClauseType::Prohibition, None);
    let mut contract = Contract::with_clauses(vec![obligation, prohibition]);
    contract.individuals = vec![ALICE, BOB];
    let stopped = analyse(&contract, false);
    assert!(stopped.conflict_found);
    assert_eq!(stopped.states.len(), 1);
    assert_eq!(stopped.states[0].situation, StateSituation::Conflicting);
    assert!(stopped.transitions.is_empty());
    assert_eq!(stopped.get_conflicts().len(), 1);
    let info = stopped.states[0].conflict_information.as_ref().expect("the conflict is reported");
    assert_eq!(info.conflicting_tags.len(), 1);
    assert_eq!(info.other_set, info.conflicting_tags);
    assert_ne!(info.tag.deontic_type, info.conflicting_tags[0].deontic_type);

    let continued = analyse(&contract, true);
    assert!(continued.conflict_found);
    assert!(!continued.transitions.is_empty());
    assert_eq!(continued.states[0].situation, StateSituation::Conflicting);
}

#[test]
fn full_contract_puts_prohibitions_before_obligations() {
    let obligation = Clause::deontic_global(basic(A), DeonticClauseType::Obligation, None);
    let prohibition = Clause::deontic_global(basic(A), DeonticClauseType::Prohibition, None);
    let contract = Contract::with_clauses(vec![obligation.clone(), prohibition.clone()]);
    let mut expected = prohibition;
    expected.set_composition(ClauseComposition::new(ClauseCompositionType::And, obligation));
    assert_eq!(contract.get_full_contract(&table()), Some(expected));
    assert_eq!(Contract::new().get_full_contract(&table()), None);
}

#[test]
fn sequence_obligation_follows_first_action_with_second() {
    let clause = Clause::deontic_directed(
        ALICE,
        BOB,
        Action::sequence(basic(A), basic(B)),
        DeonticClauseType::Obligation,
        None,
    );
    let contract = Contract::with_clauses(vec![clause.clone()]);
    let automaton = analyse(&contract, false);
    let second = Clause::deontic_directed(ALICE, BOB, basic(B), DeonticClauseType::Obligation, None);
    let a_done = RelativizedAction::new(ALICE, BasicAction::with_value(A), BOB);
    let b_done = RelativizedAction::new(ALICE, BasicAction::with_value(B), BOB);
    // the source map holds the action of each conjunct once: only `a`
    assert_eq!(automaton.transitions[0].source_map.len(), 2);
    let next = state_of(&automaton, &second);
    let violated = state_of(&automaton, &Clause::boolean_false());
    assert_eq!(target(&automaton, 0, &[a_done]), next.id);
    assert_eq!(target(&automaton, 0, &[RelativizedAction::negation(&a_done)]), violated.id);
    let satisfied = state_of(&automaton, &Clause::boolean_true());
    assert_eq!(target(&automaton, next.id, &[b_done]), satisfied.id);
}

#[test]
fn star_over_true_closes_on_itself() {
    let clause = Clause::dynamic_directed(
        ALICE,
        BOB,
        Action::star(basic(A)),
        Clause::boolean_true(),
    );
    let unrolled = ClauseDecomposer::process_composed_actions(&clause);
    let mut expected = Clause::boolean_true();
    expected.set_composition(ClauseComposition::new(
        ClauseCompositionType::And,
        Clause::dynamic_directed(ALICE, BOB, basic(A), clause.clone()),
    ));
    assert_eq!(unrolled, expected);
    let decomposer = ClauseDecomposer::new(vec![ALICE, BOB], true);
    let a_done = RelativizedAction::new(ALICE, BasicAction::with_value(A), BOB);
    assert_eq!(decomposer.decompose(&clause, &[a_done].to_vec()), clause);
    assert_eq!(
        decomposer.decompose(&clause, &[RelativizedAction::negation(&a_done)].to_vec()),
        Clause::boolean_true()
    );
}

#[test]
fn catalogue_sets_obligations_of_conflicting_actions_against_each_other() {
    let conflict = Conflict::new(
        BasicAction::with_value(A),
        BasicAction::with_value(B),
        ConflictType::Relativized,
    );
    let searcher = ConflictSearcher::new(vec![ALICE, BOB], vec![conflict]);
    let check = |first: Clause, second: Clause| {
        let mut clause = first;
        clause.set_composition(ClauseComposition::new(ClauseCompositionType::And, second));
        let mut state = State::with_auto_id(0, Some(clause));
        let found = searcher.has_conflict(&mut state);
        assert_eq!(
            state.situation,
            if found { StateSituation::Conflicting } else { StateSituation::ConflictFree }
        );
        assert_eq!(state.conflict_information.is_some(), found);
        found
    };
    let obliged = |who: i32, what: i32| {
        Clause::deontic_relativized(who, basic(what), DeonticClauseType::Obligation, None)
    };
    let forbidden = |who: i32, what: i32| {
        Clause::deontic_relativized(who, basic(what), DeonticClauseType::Prohibition, None)
    };
    assert!(check(obliged(ALICE, A), obliged(ALICE, B)));
    assert!(!check(obliged(ALICE, A), obliged(BOB, B)));
    assert!(!check(obliged(ALICE, A), forbidden(ALICE, B)));
    assert!(check(obliged(ALICE, A), forbidden(ALICE, A)));
    assert!(!check(obliged(ALICE, A), forbidden(BOB, A)));
}

#[test]
fn two_runs_give_the_same_automaton() {
    let penalty = Clause::deontic_directed(ALICE, BOB, basic(B), DeonticClauseType::Obligation, None);
    let first = Clause::deontic_directed(
        ALICE,
        BOB,
        Action::choice(basic(A), basic(B)),
        DeonticClauseType::Obligation,
        Some(penalty),
    );
    let second = Clause::dynamic_relativized(
        BOB,
        Action::sequence(basic(A), basic(B)),
        Clause::deontic_global(basic(A), DeonticClauseType::Permission, None),
    );
    let contract = Contract::with_clauses(vec![first, second]);
    let one = analyse(&contract, true);
    let two = analyse(&contract, true);
    assert_eq!(one.states.len(), two.states.len());
    assert_eq!(one.transitions.len(), two.transitions.len());
    for (s, t) in one.states.iter().zip(two.states.iter()) {
        assert_eq!(s.id, t.id);
        assert_eq!(s.clause, t.clause);
        assert_eq!(s.situation, t.situation);
        assert_eq!(s.trace, t.trace);
    }
    for (s, t) in one.transitions.iter().zip(two.transitions.iter()) {
        assert_eq!((s.id, s.from, s.to, s.mask), (t.id, t.from, t.to, t.mask));
        assert_eq!(s.source_map, t.source_map);
    }
    for (i, s) in one.states.iter().enumerate() {
        for t in &one.states[i + 1..] {
            assert_ne!(s.clause, t.clause);
        }
    }
}

#[test]
fn a_star_closes_the_automaton_on_itself() {
    let clause = Clause::dynamic_directed(ALICE, BOB, Action::star(basic(A)), Clause::boolean_true());
    let automaton = analyse(&Contract::with_clauses(vec![clause.clone()]), false);
    assert_eq!(automaton.states.len(), 2);
    assert_eq!(automaton.transitions.len(), 2);
    let a_done = RelativizedAction::new(ALICE, BasicAction::with_value(A), BOB);
    assert_eq!(target(&automaton, 0, &[a_done]), 0);
    let satisfied = state_of(&automaton, &Clause::boolean_true());
    assert_eq!(target(&automaton, 0, &[RelativizedAction::negation(&a_done)]), satisfied.id);
}

#[test]
fn every_state_is_followed_once_along_each_valid_mask() {
    let penalty = Clause::deontic_directed(ALICE, BOB, basic(B), DeonticClauseType::Obligation, None);
    let first = Clause::deontic_directed(
        ALICE,
        BOB,
        Action::concurrency(basic(A), basic(B)),
        DeonticClauseType::Obligation,
        Some(penalty),
    );
    let second = Clause::dynamic_relativized(
        BOB,
        Action::choice(basic(A), basic(B)),
        Clause::deontic_global(basic(A), DeonticClauseType::Prohibition, None),
    );
    let mut contract = Contract::with_clauses(vec![first, second]);
    contract.relativized_conflicts.push(Conflict::new(
        BasicAction::with_value(A),
        BasicAction::with_value(B),
        ConflictType::Relativized,
    ));
    for pruning in [true, false] {
        let mut config = RunConfiguration::new();
        config.set_continue_on_conflict(true);
        config.set_use_prunning(pruning);
        let automaton = AutomataConstructor::new(config)
            .process(&contract, &table())
            .expect("the analysis succeeds");
        for (i, state) in automaton.states.iter().enumerate() {
            assert_eq!(state.id, i);
            assert_ne!(state.situation, StateSituation::NotChecked);
            let terminal = matches!(state.clause, Some(Clause::Boolean { .. }));
            assert_eq!(
                terminal,
                matches!(state.situation, StateSituation::Satisfaction | StateSituation::Violating)
            );
            let leaving: Vec<_> = automaton.transitions.iter().filter(|t| t.from == i).collect();
            assert_eq!(leaving.is_empty(), terminal);
            for (k, t) in leaving.iter().enumerate() {
                assert!(leaving[k + 1..].iter().all(|u| u.mask != t.mask));
                assert_eq!(t.source_map, leaving[0].source_map);
                assert!(t.mask != 0 && (t.mask as u64) < (1u64 << t.source_map.len()));
            }
            if i == 0 {
                assert!(state.trace.is_empty());
            } else {
                assert_eq!(state.trace.len(), 1);
                assert_eq!(automaton.get_transition_by_id(state.trace[0]).map(|t| t.to), Some(i));
            }
        }
        for (k, t) in automaton.transitions.iter().enumerate() {
            assert_eq!(t.id, k + 1);
            assert!(t.from < automaton.states.len() && t.to < automaton.states.len());
        }
        assert_eq!(
            automaton.conflict_found,
            automaton.states.iter().any(|s| s.situation == StateSituation::Conflicting)
        );
    }
}

#[test]
fn conflict_sets_of_obligations_and_prohibitions_mirror_each_other() {
    let searcher = ConflictSearcher::new(vec![ALICE, BOB], vec![]);
    let who = [(ALICE, BOB), (ALICE, -1), (BOB, ALICE), (BOB, -1), (-1, -1)];
    for o in who {
        for f in who {
            let obligation =
                Clause::deontic_directed(o.0, o.1, basic(A), DeonticClauseType::Obligation, None);
            let prohibition =
                Clause::deontic_directed(f.0, f.1, basic(A), DeonticClauseType::Prohibition, None);
            let found = |first: &Clause, second: &Clause| {
                let mut clause = first.clone();
                clause.set_composition(ClauseComposition::new(
                    ClauseCompositionType::And,
                    second.clone(),
                ));
                let mut state = State::with_auto_id(0, Some(clause));
                let found = searcher.has_conflict(&mut state);
                (found, state.conflict_information.map(|info| info.tag.deontic_type))
            };
            let (forward, first_tag) = found(&obligation, &prohibition);
            let (backward, second_tag) = found(&prohibition, &obligation);
            assert_eq!(forward, backward);
            if forward {
                // each side finds the other in its own conflict set
                assert_eq!(first_tag, Some(DeonticClauseType::Obligation));
                assert_eq!(second_tag, Some(DeonticClauseType::Prohibition));
            }
        }
    }
}

#[test]
fn a_conflict_found_later_stops_what_comes_behind_it() {
    let mut inner = Clause::deontic_directed(ALICE, BOB, basic(B), DeonticClauseType::Obligation, None);
    inner.set_composition(ClauseComposition::new(
        ClauseCompositionType::And,
        Clause::deontic_directed(ALICE, BOB, basic(B), DeonticClauseType::Prohibition, None),
    ));
    let clause = Clause::dynamic_directed(ALICE, BOB, basic(A), inner);
    let contract = Contract::with_clauses(vec![clause]);

    let stopped = analyse(&contract, false);
    assert!(stopped.conflict_found);
    assert_eq!(stopped.states[0].situation, StateSituation::ConflictFree);
    let first = stopped
        .states
        .iter()
        .position(|s| s.situation == StateSituation::Conflicting)
        .expect("a state is conflicting");
    assert!(first > 0);
    assert!(!stopped.transitions.is_empty());
    for t in &stopped.transitions {
        assert!(t.from < first);
    }
    for s in &stopped.states {
        assert_ne!(s.situation, StateSituation::NotChecked);
    }
    let a_done = RelativizedAction::new(ALICE, BasicAction::with_value(A), BOB);
    assert_eq!(target(&stopped, 0, &[a_done]), first);

    let continued = analyse(&contract, true);
    assert!(continued.conflict_found);
    assert_eq!(continued.states[first].situation, StateSituation::Conflicting);
    assert!(continued.transitions.iter().any(|t| t.from == first));
    assert!(continued.transitions.len() > stopped.transitions.len());
}

#[test]
fn a_contract_that_is_a_boolean_has_one_state() {
    for (clause, situation) in [
        (Clause::boolean_true(), StateSituation::Satisfaction),
        (Clause::boolean_false(), StateSituation::Violating),
    ] {
        for continues in [false, true] {
            let automaton = analyse(&Contract::with_clauses(vec![clause.clone()]), continues);
            assert_eq!(automaton.states.len(), 1);
            assert!(automaton.transitions.is_empty());
            assert_eq!(automaton.states[0].situation, situation);
            assert!(!automaton.conflict_found);
        }
    }
}

#[test]
fn a_new_state_is_analysed_before_the_next_mask_is_taken() {
    let inner = Clause::deontic_directed(ALICE, BOB, basic(B), DeonticClauseType::Obligation, None);
    let clause = Clause::dynamic_directed(ALICE, BOB, basic(A), inner.clone());
    let automaton = analyse(&Contract::with_clauses(vec![clause.clone()]), false);
    let clauses: Vec<Option<Clause>> = automaton.states.iter().map(|s| s.clause.clone()).collect();
    assert_eq!(
        clauses,
        vec![Some(clause), Some(inner), Some(Clause::boolean_true()), Some(Clause::boolean_false())]
    );
    let situations: Vec<StateSituation> = automaton.states.iter().map(|s| s.situation).collect();
    assert_eq!(
        situations,
        vec![
            StateSituation::ConflictFree,
            StateSituation::ConflictFree,
            StateSituation::Satisfaction,
            StateSituation::Violating,
        ]
    );
    let steps: Vec<(usize, usize, u32, usize)> =
        automaton.transitions.iter().map(|t| (t.id, t.from, t.mask, t.to)).collect();
    assert_eq!(steps, vec![(1, 0, 1, 1), (2, 1, 1, 2), (3, 1, 2, 3), (4, 0, 2, 2)]);
    let traces: Vec<Vec<usize>> = automaton.states.iter().map(|s| s.trace.clone()).collect();
    assert_eq!(traces, vec![vec![], vec![1], vec![2], vec![3]]);
}

#[test]
fn a_state_that_can_fire_no_action_has_no_transition() {
    let inner = Clause::deontic_directed(ALICE, BOB, basic(A), DeonticClauseType::Obligation, None);
    let clause = Clause::dynamic_directed(ALICE, BOB, Action::Basic(BasicAction::skip()), inner);
    for continues in [false, true] {
        let automaton = analyse(&Contract::with_clauses(vec![clause.clone()]), continues);
        assert_eq!(automaton.states.len(), 1);
        assert_eq!(automaton.states[0].situation, StateSituation::ConflictFree);
        assert!(automaton.transitions.is_empty());
        assert!(!automaton.conflict_found);
    }
}

#[test]
fn nested_composed_actions_are_elaborated_before_a_state_is_analysed() {
    let obligation = Clause::deontic_global(
        Action::concurrency(Action::concurrency(basic(A), basic(B)), basic(A)),
        DeonticClauseType::Obligation,
        None,
    );
    let mut contract = Contract::with_clauses(vec![obligation]);
    contract.individuals = vec![ALICE];
    contract.global_conflicts.push(Conflict::new(
        BasicAction::with_value(A),
        BasicAction::with_value(B),
        ConflictType::Global,
    ));
    let automaton = analyse(&contract, false);
    assert!(automaton.conflict_found);
    assert_eq!(automaton.states.len(), 1);
    assert_eq!(automaton.states[0].situation, StateSituation::Conflicting);
    assert!(automaton.transitions.is_empty());
}

#[test]
fn the_records_of_an_analysis_follow_its_course() {
    let inner = Clause::deontic_directed(ALICE, BOB, basic(B), DeonticClauseType::Obligation, None);
    let clause = Clause::dynamic_directed(ALICE, BOB, basic(A), inner.clone());
    let contract = Contract::with_clauses(vec![clause.clone()]);
    let mut config = RunConfiguration::new();
    let t = table();
    let automaton =
        AutomataConstructor::new(config.clone()).process(&contract, &t).expect("it succeeds");
    let records = analysis_records(&automaton, &contract, &config, &t);
    let messages: Vec<String> = records.iter().map(|r| r.message.clone()).collect();
    assert!(records.iter().all(|r| r.log_type == LogType::Necessary));
    assert_eq!(
        messages,
        vec![
            format!(
                "Concurrent Relativized Actions for {} is [(alice, a, bob)]",
                clause.display(&t)
            ),
            format!("New State: {}", inner.display(&t)),
            format!(
                "Concurrent Relativized Actions for {} is [(alice, b, bob)]",
                inner.display(&t)
            ),
            format!("New State: {}", Clause::boolean_true().display(&t)),
            format!("New State: {}", Clause::boolean_false().display(&t)),
        ]
    );

    config.set_log_level(LogLevel::Verbose);
    let verbose = analysis_records(&automaton, &contract, &config, &t);
    assert_eq!(verbose.len(), messages.len() + 1);
    assert_eq!(
        verbose[0].message,
        format!("Contract Info: {}\n\nActions:\na b \nIndividuals:\nalice bob ", contract.display(&t))
    );
    let rest: Vec<String> = verbose[1..].iter().map(|r| r.message.clone()).collect();
    assert_eq!(rest, messages);
}

#[test]
fn actions_kept_from_an_earlier_state_are_not_recorded_again() {
    let first = Clause::dynamic_directed(
        ALICE,
        BOB,
        basic(A),
        Clause::deontic_directed(ALICE, BOB, basic(B), DeonticClauseType::Obligation, None),
    );
    let contract = Contract::with_clauses(vec![first]);
    let config = RunConfiguration::new();
    let t = table();
    let mut automaton =
        AutomataConstructor::new(config.clone()).process(&contract, &t).expect("it succeeds");
    let before = analysis_records(&automaton, &contract, &config, &t).len();
    let again = automaton.states[1].clause.clone();
    automaton.states.push(State::with_auto_id(4, again));
    let after = analysis_records(&automaton, &contract, &config, &t);
    assert_eq!(after.len(), before + 1);
    assert!(after.last().expect("a record").message.starts_with("New State: "));
}

#[test]
fn a_first_state_with_too_many_actions_fails_the_analysis() {
    let clause = Clause::deontic_global(
        Action::concurrency(basic(A), basic(B)),
        DeonticClauseType::Obligation,
        None,
    );
    let mut contract = Contract::with_clauses(vec![clause]);
    contract.individuals = vec![ALICE, BOB, 5, 6, 7];
    for continues in [false, true] {
        let mut config = RunConfiguration::new();
        config.set_continue_on_conflict(continues);
        config.set_use_prunning(false);
        let result = AutomataConstructor::new(config).process(&contract, &table());
        assert_eq!(result.unwrap_err(), AnalysisError::CapacityExceeded { actions: 40 });
    }
}
