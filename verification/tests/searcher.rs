use recall::{
    Action, BasicAction, Clause, ClauseComposition, ClauseCompositionType, Conflict,
    ConflictSearcher, ConflictType, DeonticClauseType, DeonticTag, RelativizationType, State,
    StateSituation, SymbolTable, SymbolType,
};

fn basic(id: i32) -> Action {
    Action::Basic(BasicAction::with_value(id))
}

fn joined(mut first: Clause, connective: ClauseCompositionType, second: Clause) -> Clause {
    first.set_composition(ClauseComposition::new(connective, second));
    first
}

fn conflicting(searcher: &ConflictSearcher, first: Clause, second: Clause) -> bool {
    let mut state = State::with_auto_id(5, Some(joined(first, ClauseCompositionType::Or, second)));
    let found = searcher.has_conflict(&mut state);
    assert_eq!(state.id, 5);
    found
}

fn clause(kind: DeonticClauseType, who: (i32, i32), what: i32) -> Clause {
    Clause::deontic_directed(who.0, who.1, basic(what), kind, None)
}

#[test]
fn tags_are_built_by_relativization() {
    let a = BasicAction::with_value(7);
    let g = DeonticTag::global(DeonticClauseType::Obligation, a);
    assert_eq!((g.relativization, g.sender, g.receiver), (RelativizationType::Global, -1, -1));
    let r = DeonticTag::relativized(DeonticClauseType::Permission, a, 4);
    assert_eq!((r.relativization, r.sender, r.receiver), (RelativizationType::Relativized, 4, -1));
    let d = DeonticTag::directed(DeonticClauseType::Prohibition, a, 4, 5);
    assert_eq!((d.relativization, d.sender, d.receiver), (RelativizationType::Directed, 4, 5));
    assert_eq!(
        DeonticTag::new(DeonticClauseType::Prohibition, a, RelativizationType::Directed, 4, 5),
        d
    );
    assert_eq!((d.deontic_type, d.action), (DeonticClauseType::Prohibition, a));
}

#[test]
fn tags_print_with_short_symbols() {
    let mut t = SymbolTable::new();
    t.add_symbol("alice".to_string(), SymbolType::Individual);
    t.add_symbol("bob".to_string(), SymbolType::Individual);
    t.add_symbol("pay".to_string(), SymbolType::Action);
    let a = BasicAction::with_value(3);
    assert_eq!(DeonticTag::global(DeonticClauseType::Obligation, a).format_with_symbols(&t), "O(pay)");
    assert_eq!(
        DeonticTag::relativized(DeonticClauseType::Permission, a, 1).format_with_symbols(&t),
        "P(alice,pay)"
    );
    assert_eq!(
        DeonticTag::directed(DeonticClauseType::Prohibition, a, 1, 2).format_with_symbols(&t),
        "F(alice,pay,bob)"
    );
    assert_eq!(
        DeonticTag::directed(DeonticClauseType::Prohibition, a, 8, 9).format_with_symbols(&t),
        "F(?,pay,?)"
    );
}

#[test]
fn obligations_and_permissions_conflict_with_prohibitions_of_the_action() {
    let s = ConflictSearcher::new(vec![1, 2], vec![]);
    use_kinds(&s, DeonticClauseType::Obligation);
    use_kinds(&s, DeonticClauseType::Permission);
    assert!(!conflicting(
        &s,
        clause(DeonticClauseType::Obligation, (1, 2), 7),
        clause(DeonticClauseType::Permission, (1, 2), 7)
    ));
    assert!(!conflicting(
        &s,
        clause(DeonticClauseType::Obligation, (1, 2), 7),
        clause(DeonticClauseType::Obligation, (1, 2), 7)
    ));
    assert!(!conflicting(
        &s,
        clause(DeonticClauseType::Prohibition, (1, 2), 7),
        clause(DeonticClauseType::Prohibition, (1, 2), 7)
    ));
}

fn use_kinds(s: &ConflictSearcher, kind: DeonticClauseType) {
    let f = DeonticClauseType::Prohibition;
    // the same pair, the sender alone, everyone
    for who in [(1, 2), (1, -1), (-1, -1)] {
        assert!(conflicting(s, clause(kind, (1, 2), 7), clause(f, who, 7)));
        assert!(conflicting(s, clause(f, who, 7), clause(kind, (1, 2), 7)));
    }
    // another receiver, another sender, another action
    assert!(!conflicting(s, clause(kind, (1, 2), 7), clause(f, (1, 1), 7)));
    assert!(!conflicting(s, clause(kind, (1, 2), 7), clause(f, (2, -1), 7)));
    assert!(!conflicting(s, clause(kind, (1, 2), 7), clause(f, (1, 2), 8)));
    // a relativized clause reaches every receiver among the individuals
    assert!(conflicting(s, clause(kind, (1, -1), 7), clause(f, (1, 2), 7)));
    // a receiver outside the individuals is reached from the side of the prohibition
    assert!(conflicting(s, clause(kind, (1, -1), 7), clause(f, (1, 3), 7)));
    assert!(conflicting(s, clause(f, (1, 3), 7), clause(kind, (1, -1), 7)));
    // a global clause reaches every pair of individuals
    assert!(conflicting(s, clause(kind, (-1, -1), 7), clause(f, (2, 1), 7)));
    assert!(conflicting(s, clause(kind, (-1, -1), 7), clause(f, (3, 1), 7)));
}

#[test]
fn the_catalogue_sets_obligations_against_obligations_and_permissions() {
    let o = DeonticClauseType::Obligation;
    let p = DeonticClauseType::Permission;
    let f = DeonticClauseType::Prohibition;
    let relativized = ConflictSearcher::new(
        vec![1, 2],
        vec![Conflict::new(
            BasicAction::with_value(7),
            BasicAction::with_value(8),
            ConflictType::Relativized,
        )],
    );
    assert!(conflicting(&relativized, clause(o, (1, -1), 7), clause(o, (1, -1), 8)));
    assert!(conflicting(&relativized, clause(o, (1, -1), 7), clause(p, (1, 2), 8)));
    assert!(conflicting(&relativized, clause(p, (1, -1), 7), clause(o, (1, 2), 8)));
    assert!(!conflicting(&relativized, clause(p, (1, -1), 7), clause(p, (1, 2), 8)));
    assert!(!conflicting(&relativized, clause(o, (1, -1), 7), clause(o, (2, -1), 8)));
    assert!(!conflicting(&relativized, clause(o, (1, -1), 7), clause(f, (1, -1), 8)));
    assert!(conflicting(&relativized, clause(o, (-1, -1), 7), clause(o, (2, 1), 8)));
    // entries are read from their first action only
    assert!(!conflicting(&relativized, clause(o, (1, -1), 8), clause(p, (1, -1), 9)));
    let global = ConflictSearcher::new(
        vec![1, 2],
        vec![Conflict::new(
            BasicAction::with_value(7),
            BasicAction::with_value(8),
            ConflictType::Global,
        )],
    );
    assert!(conflicting(&global, clause(o, (1, -1), 7), clause(o, (2, -1), 8)));
    assert!(conflicting(&global, clause(o, (1, 2), 7), clause(p, (2, 1), 8)));
    assert!(!conflicting(&global, clause(o, (1, 2), 7), clause(p, (3, 1), 8)));
}

#[test]
fn the_first_conflict_is_reported_with_the_tags_of_the_other_clause() {
    let s = ConflictSearcher::new(vec![1, 2], vec![]);
    let first = clause(DeonticClauseType::Permission, (1, 2), 6);
    let second = Clause::deontic_directed(
        1,
        2,
        Action::choice(basic(7), basic(8)),
        DeonticClauseType::Obligation,
        None,
    );
    let third = Clause::deontic_relativized(
        1,
        Action::concurrency(basic(9), basic(8)),
        DeonticClauseType::Prohibition,
        None,
    );
    let spine = joined(
        first,
        ClauseCompositionType::And,
        joined(second, ClauseCompositionType::And, third),
    );
    let mut state = State::with_auto_id(0, Some(spine.clone()));
    state.push_trace(4);
    assert!(s.has_conflict(&mut state));
    assert_eq!(state.situation, StateSituation::Conflicting);
    assert_eq!(state.clause, Some(spine));
    assert_eq!(state.trace, vec![4]);
    let info = state.conflict_information.expect("the conflict is reported");
    let a8 = BasicAction::with_value(8);
    assert_eq!(info.tag, DeonticTag::directed(DeonticClauseType::Obligation, a8, 1, 2));
    assert_eq!(
        info.conflicting_tags,
        vec![DeonticTag::relativized(DeonticClauseType::Prohibition, a8, 1)]
    );
    assert_eq!(info.other_set, info.conflicting_tags);

    let mut free = State::with_auto_id(1, Some(Clause::boolean_true()));
    assert!(!s.has_conflict(&mut free));
    assert_eq!(free.situation, StateSituation::ConflictFree);
    assert!(free.conflict_information.is_none());
    let mut empty = State::with_auto_id(2, None);
    assert!(!s.has_conflict(&mut empty));
    assert_eq!(empty.situation, StateSituation::ConflictFree);
}

#[test]
fn composed_actions_are_elaborated_before_the_search() {
    let searcher = ConflictSearcher::new(
        vec![1, 2],
        vec![Conflict::new(
            BasicAction::with_value(3),
            BasicAction::with_value(4),
            ConflictType::Global,
        )],
    );
    let over = |action: Action| Clause::deontic_global(action, DeonticClauseType::Obligation, None);
    let both = Action::concurrency(basic(3), basic(4));
    for clause in [
        over(both.clone()),
        over(Action::concurrency(both.clone(), basic(5))),
        over(Action::concurrency(basic(5), both.clone())),
    ] {
        let mut state = State::with_auto_id(0, Some(clause));
        assert!(searcher.has_conflict(&mut state));
        assert_eq!(state.situation, StateSituation::Conflicting);
    }
    let mut state = State::with_auto_id(0, Some(over(Action::concurrency(basic(3), basic(5)))));
    assert!(!searcher.has_conflict(&mut state));
    assert_eq!(state.situation, StateSituation::ConflictFree);
}
