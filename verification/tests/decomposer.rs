use recall::{
    Action, ActionOperator, BasicAction, Clause, ClauseComposition, ClauseCompositionType,
    ClauseDecomposer, ComposedAction, DeonticClauseType, RelativizedAction,
};

const AND: ClauseCompositionType = ClauseCompositionType::And;
const OR: ClauseCompositionType = ClauseCompositionType::Or;
const XOR: ClauseCompositionType = ClauseCompositionType::Xor;

fn basic(id: i32) -> Action {
    Action::Basic(BasicAction::with_value(id))
}

fn fired(sender: i32, action: i32, receiver: i32) -> RelativizedAction {
    RelativizedAction::new(sender, BasicAction::with_value(action), receiver)
}

fn deontic(kind: DeonticClauseType, action: Action) -> Clause {
    Clause::deontic_directed(1, 2, action, kind, Some(Clause::boolean_false()))
}

fn joined(mut first: Clause, connective: ClauseCompositionType, second: Clause) -> Clause {
    first.set_composition(ClauseComposition::new(connective, second));
    first
}

fn dynamic(action: Action, inner: Clause) -> Clause {
    Clause::dynamic_directed(1, 2, action, inner)
}

#[test]
fn obligation_of_concurrent_actions_splits_into_conjunction() {
    let clause = deontic(DeonticClauseType::Obligation, Action::concurrency(basic(3), basic(4)));
    let expected = joined(
        deontic(DeonticClauseType::Obligation, basic(3)),
        ClauseCompositionType::And,
        deontic(DeonticClauseType::Obligation, basic(4)),
    );
    assert_eq!(ClauseDecomposer::process_single_composed_actions(&clause), expected);
    assert_eq!(ClauseDecomposer::process_deontic_composed_actions(&clause), expected);
    assert_eq!(ClauseDecomposer::process_composed_actions(&clause), expected);
    assert_eq!(ClauseDecomposer::process_composed_actions(&expected), expected);
}

#[test]
fn obligation_and_permission_of_a_choice_split_into_disjunction() {
    for kind in [DeonticClauseType::Obligation, DeonticClauseType::Permission] {
        let clause = deontic(kind, Action::choice(basic(3), basic(4)));
        let expected =
            joined(deontic(kind, basic(3)), ClauseCompositionType::Or, deontic(kind, basic(4)));
        assert_eq!(ClauseDecomposer::process_composed_actions(&clause), expected);
    }
}

#[test]
fn prohibition_splits_into_conjunction_or_guarded_disjunction() {
    let kind = DeonticClauseType::Prohibition;
    for action in [Action::choice(basic(3), basic(4)), Action::concurrency(basic(3), basic(4))] {
        let expected =
            joined(deontic(kind, basic(3)), ClauseCompositionType::And, deontic(kind, basic(4)));
        assert_eq!(ClauseDecomposer::process_composed_actions(&deontic(kind, action)), expected);
    }
    let sequence = deontic(kind, Action::sequence(basic(3), basic(4)));
    let expected = joined(
        deontic(kind, basic(3)),
        ClauseCompositionType::Or,
        dynamic(basic(3), deontic(kind, basic(4))),
    );
    assert_eq!(ClauseDecomposer::process_composed_actions(&sequence), expected);
}

#[test]
fn the_composition_of_a_rewritten_clause_moves_to_the_last_new_clause() {
    let tail = Clause::deontic_global(basic(5), DeonticClauseType::Permission, None);
    let clause = joined(
        deontic(DeonticClauseType::Obligation, Action::sequence(basic(3), basic(4))),
        ClauseCompositionType::Xor,
        tail.clone(),
    );
    let expected = joined(
        deontic(DeonticClauseType::Obligation, basic(3)),
        ClauseCompositionType::And,
        joined(
            dynamic(basic(3), deontic(DeonticClauseType::Obligation, basic(4))),
            ClauseCompositionType::Xor,
            tail,
        ),
    );
    assert_eq!(ClauseDecomposer::process_composed_actions(&clause), expected);
    assert_eq!(ClauseDecomposer::process_single_composed_actions(&clause), expected);
}

#[test]
fn dynamic_clauses_are_rewritten_by_operator() {
    let inner = deontic(DeonticClauseType::Obligation, basic(5));
    assert_eq!(
        ClauseDecomposer::process_dynamic_composed_actions(&dynamic(
            Action::sequence(basic(3), basic(4)),
            inner.clone()
        )),
        dynamic(basic(3), dynamic(basic(4), inner.clone()))
    );
    assert_eq!(
        ClauseDecomposer::process_dynamic_composed_actions(&dynamic(
            Action::choice(basic(3), basic(4)),
            inner.clone()
        )),
        joined(
            dynamic(basic(3), inner.clone()),
            ClauseCompositionType::And,
            dynamic(basic(4), inner.clone())
        )
    );
    let star = dynamic(Action::star(basic(3)), inner.clone());
    assert_eq!(
        ClauseDecomposer::process_dynamic_composed_actions(&star),
        joined(inner.clone(), ClauseCompositionType::And, dynamic(basic(3), star.clone()))
    );
    let concurrent = dynamic(Action::concurrency(basic(3), basic(4)), inner.clone());
    assert_eq!(ClauseDecomposer::process_dynamic_composed_actions(&concurrent), concurrent);
    assert_eq!(ClauseDecomposer::process_dynamic_composed_actions(&inner), inner);
    assert_eq!(ClauseDecomposer::process_deontic_composed_actions(&star), star);
}

#[test]
fn negation_is_pushed_down_to_the_basic_actions() {
    let inner = Clause::boolean_false();
    let wrap = |action: Action| dynamic(Action::negation(action), inner.clone());
    let negated = |id: i32| dynamic(Action::Basic(BasicAction::with_value(id).negate()), inner.clone());
    assert_eq!(ClauseDecomposer::process_single_composed_actions(&wrap(basic(3))), negated(3));
    assert_eq!(
        ClauseDecomposer::process_single_composed_actions(&wrap(Action::sequence(basic(3), basic(4)))),
        dynamic(Action::negation(basic(3)), wrap(basic(4)))
    );
    assert_eq!(
        ClauseDecomposer::process_single_composed_actions(&wrap(Action::concurrency(
            basic(3),
            basic(4)
        ))),
        joined(wrap(basic(3)), ClauseCompositionType::And, wrap(basic(4)))
    );
    assert_eq!(
        ClauseDecomposer::process_single_composed_actions(&wrap(Action::choice(basic(3), basic(4)))),
        joined(wrap(basic(3)), ClauseCompositionType::Or, wrap(basic(4)))
    );
    let double = wrap(Action::negation(basic(3)));
    assert_eq!(ClauseDecomposer::process_single_composed_actions(&double), double);
    let no_operand = dynamic(
        Action::Composed(ComposedAction::new(None, None, ActionOperator::Negation)),
        inner.clone(),
    );
    assert_eq!(
        ClauseDecomposer::process_single_composed_actions(&no_operand),
        Clause::boolean_false()
    );

    assert_eq!(ClauseDecomposer::process_composed_actions(&wrap(basic(3))), negated(3));
    assert_eq!(
        ClauseDecomposer::process_composed_actions(&wrap(Action::sequence(basic(3), basic(4)))),
        dynamic(Action::Basic(BasicAction::with_value(3).negate()), wrap(basic(4)))
    );
    assert_eq!(
        ClauseDecomposer::process_composed_actions(&wrap(Action::concurrency(basic(3), basic(4)))),
        joined(negated(3), ClauseCompositionType::And, negated(4))
    );
    assert_eq!(
        ClauseDecomposer::process_composed_actions(&wrap(Action::choice(basic(3), basic(4)))),
        joined(negated(3), ClauseCompositionType::Or, negated(4))
    );
    assert_eq!(ClauseDecomposer::process_composed_actions(&double), double);
    assert_eq!(ClauseDecomposer::process_composed_actions(&no_operand), Clause::boolean_false());
}

#[test]
fn elaboration_rewrites_until_no_rule_applies() {
    let flat = deontic(DeonticClauseType::Obligation, Action::choice(basic(3), basic(4)));
    let once = ClauseDecomposer::process_composed_actions(&flat);
    assert_eq!(ClauseDecomposer::process_composed_actions(&once), once);

    let kind = DeonticClauseType::Obligation;
    let nested = deontic(kind, Action::concurrency(Action::concurrency(basic(3), basic(4)), basic(5)));
    let step = ClauseDecomposer::process_single_composed_actions(&nested);
    assert_eq!(
        step,
        joined(deontic(kind, Action::concurrency(basic(3), basic(4))), AND, deontic(kind, basic(5)))
    );
    let elaborated = ClauseDecomposer::process_composed_actions(&nested);
    assert_eq!(
        elaborated,
        joined(
            deontic(kind, basic(3)),
            AND,
            joined(deontic(kind, basic(4)), AND, deontic(kind, basic(5)))
        )
    );
    assert_eq!(ClauseDecomposer::process_composed_actions(&step), elaborated);
    assert_eq!(ClauseDecomposer::process_composed_actions(&elaborated), elaborated);
    assert_eq!(nested, deontic(kind, Action::concurrency(Action::concurrency(basic(3), basic(4)), basic(5))));
}

#[test]
fn elaboration_goes_through_every_clause_of_the_spine() {
    let kind = DeonticClauseType::Prohibition;
    let tail = dynamic(
        Action::sequence(Action::choice(basic(6), basic(7)), basic(8)),
        Clause::boolean_true(),
    );
    let clause = joined(deontic(kind, Action::sequence(basic(3), basic(4))), XOR, tail);
    let after_six_or_seven = dynamic(basic(8), Clause::boolean_true());
    let expected = joined(
        deontic(kind, basic(3)),
        OR,
        joined(
            dynamic(basic(3), deontic(kind, basic(4))),
            XOR,
            joined(
                dynamic(basic(6), after_six_or_seven.clone()),
                AND,
                dynamic(basic(7), after_six_or_seven),
            ),
        ),
    );
    let elaborated = ClauseDecomposer::process_composed_actions(&clause);
    assert_eq!(elaborated, expected);
    assert_eq!(ClauseDecomposer::process_composed_actions(&elaborated), elaborated);
}

#[test]
fn deontic_residuals_follow_type_and_relativization() {
    let d = ClauseDecomposer::new(vec![1, 2, 3], true);
    let penalty = Clause::deontic_global(basic(9), DeonticClauseType::Permission, None);
    let relativized = |kind| Clause::deontic_relativized(1, basic(5), kind, Some(penalty.clone()));
    let one = vec![fired(1, 5, 3)];
    let none = vec![fired(2, 5, 3), fired(1, 6, 2), fired(1, 5, 1)];
    assert_eq!(d.decompose(&relativized(DeonticClauseType::Obligation), &one), Clause::boolean_true());
    assert_eq!(d.decompose(&relativized(DeonticClauseType::Obligation), &none), penalty);
    assert_eq!(d.decompose(&relativized(DeonticClauseType::Prohibition), &one), penalty);
    assert_eq!(
        d.decompose(&relativized(DeonticClauseType::Prohibition), &none),
        Clause::boolean_true()
    );
    assert_eq!(d.decompose(&relativized(DeonticClauseType::Permission), &one), Clause::boolean_true());
    assert_eq!(d.decompose(&relativized(DeonticClauseType::Permission), &none), Clause::boolean_true());

    let global = Clause::deontic_global(basic(5), DeonticClauseType::Obligation, None);
    let two = ClauseDecomposer::new(vec![1, 2], true);
    assert_eq!(two.decompose(&global, &vec![fired(1, 5, 2)]), Clause::boolean_false());
    assert_eq!(two.decompose(&global, &vec![fired(1, 5, 2), fired(2, 5, 1)]), Clause::boolean_true());
    let alone = ClauseDecomposer::new(vec![1, 1], true);
    assert_eq!(alone.decompose(&global, &vec![fired(1, 5, 1)]), Clause::boolean_true());
    assert_eq!(alone.decompose(&global, &vec![]), Clause::boolean_false());
    let with_self = ClauseDecomposer::new(vec![1, 2], false);
    assert_eq!(
        with_self.decompose(&global, &vec![fired(1, 5, 2), fired(2, 5, 1)]),
        Clause::boolean_false()
    );
}

#[test]
fn skip_and_violation_are_settled_without_looking_at_the_actions() {
    let d = ClauseDecomposer::new(vec![1, 2], true);
    let penalty = Clause::deontic_global(basic(9), DeonticClauseType::Permission, None);
    let on = |kind, action: BasicAction| {
        Clause::deontic_directed(1, 2, Action::Basic(action), kind, Some(penalty.clone()))
    };
    let any = vec![fired(1, 5, 2)];
    assert_eq!(
        d.decompose(&on(DeonticClauseType::Obligation, BasicAction::skip()), &any),
        Clause::boolean_true()
    );
    assert_eq!(d.decompose(&on(DeonticClauseType::Obligation, BasicAction::violation()), &any), penalty);
    assert_eq!(
        d.decompose(&on(DeonticClauseType::Prohibition, BasicAction::violation()), &any),
        Clause::boolean_true()
    );
    assert_eq!(d.decompose(&on(DeonticClauseType::Prohibition, BasicAction::skip()), &any), penalty);
    assert_eq!(
        d.decompose(&on(DeonticClauseType::Permission, BasicAction::violation()), &any),
        Clause::boolean_true()
    );
    let no_penalty = Clause::deontic_directed(
        1,
        2,
        Action::Basic(BasicAction::violation()),
        DeonticClauseType::Obligation,
        None,
    );
    assert_eq!(d.decompose(&no_penalty, &any), Clause::boolean_false());
}

#[test]
fn dynamic_residuals_open_the_inner_clause_when_the_action_fired() {
    let d = ClauseDecomposer::new(vec![1, 2], true);
    let inner = deontic(DeonticClauseType::Obligation, basic(6));
    let clause = dynamic(basic(5), inner.clone());
    assert_eq!(d.decompose(&clause, &vec![fired(1, 5, 2)]), inner);
    assert_eq!(d.decompose(&clause, &vec![fired(2, 5, 1)]), Clause::boolean_true());
    let negated = dynamic(Action::Basic(BasicAction::with_value(5).negate()), inner.clone());
    assert_eq!(d.decompose(&negated, &vec![fired(1, 5, 2)]), Clause::boolean_true());
    assert_eq!(d.decompose(&negated, &vec![fired(2, 5, 1)]), inner);
    let skipping = dynamic(Action::Basic(BasicAction::skip()), inner.clone());
    assert_eq!(d.decompose(&skipping, &vec![]), inner);
    let through_negation = dynamic(Action::negation(basic(5)), inner.clone());
    assert_eq!(d.decompose(&through_negation, &vec![fired(2, 5, 1)]), inner);
}

#[test]
fn residuals_are_combined_with_boolean_simplification() {
    let d = ClauseDecomposer::new(vec![1, 2], true);
    let keep = |id: i32| dynamic(Action::Basic(BasicAction::skip()), deontic(DeonticClauseType::Obligation, basic(id)));
    let kept = |id: i32| deontic(DeonticClauseType::Obligation, basic(id));
    let t = Clause::boolean_true;
    let f = Clause::boolean_false;
    let run = |a: Clause, c: ClauseCompositionType, b: Clause| d.decompose(&joined(a, c, b), &vec![]);
    assert_eq!(run(t(), AND, t()), t());
    assert_eq!(run(t(), AND, f()), f());
    assert_eq!(run(f(), OR, t()), t());
    assert_eq!(run(f(), OR, f()), f());
    assert_eq!(run(t(), XOR, f()), t());
    assert_eq!(run(f(), XOR, t()), t());
    assert_eq!(run(t(), XOR, t()), f());
    assert_eq!(run(f(), XOR, f()), f());
    assert_eq!(run(t(), ClauseCompositionType::Absent, t()), f());
    assert_eq!(run(t(), AND, keep(6)), kept(6));
    assert_eq!(run(keep(6), AND, t()), kept(6));
    assert_eq!(run(f(), AND, keep(6)), f());
    assert_eq!(run(keep(6), AND, f()), f());
    assert_eq!(run(t(), OR, keep(6)), joined(kept(6), OR, t()));
    assert_eq!(run(keep(6), OR, f()), joined(kept(6), OR, f()));
    assert_eq!(run(keep(6), XOR, t()), joined(kept(6), XOR, t()));
    assert_eq!(run(keep(6), ClauseCompositionType::Absent, t()), kept(6));
    assert_eq!(run(keep(6), AND, keep(7)), joined(kept(6), AND, kept(7)));
    assert_eq!(run(keep(6), AND, keep(6)), kept(6));
    assert_eq!(
        run(keep(6), AND, joined(keep(7), AND, keep(6))),
        joined(kept(7), AND, kept(6))
    );
    assert_eq!(
        run(keep(6), OR, joined(keep(7), AND, keep(6))),
        joined(kept(6), OR, joined(kept(7), AND, kept(6)))
    );
}

#[test]
fn a_star_that_would_unroll_without_end_is_left_as_it_is() {
    let d = ClauseDecomposer::new(vec![1, 2], true);
    let nested = dynamic(Action::star(Action::star(basic(5))), Clause::boolean_true());
    assert_eq!(d.decompose(&nested, &vec![fired(1, 5, 2)]), nested);
    let stuck = deontic(DeonticClauseType::Obligation, Action::star(basic(5)));
    assert_eq!(d.decompose(&stuck, &vec![fired(1, 5, 2)]), stuck);
    let fine = dynamic(
        Action::star(Action::sequence(Action::star(basic(5)), basic(6))),
        Clause::boolean_false(),
    );
    assert_eq!(d.decompose(&fine, &vec![]), Clause::boolean_false());
}

#[test]
fn plain_clauses_leave_plain_residuals() {
    let d = ClauseDecomposer::new(vec![1, 2], true);
    let clause = joined(
        Clause::deontic_directed(
            1,
            2,
            basic(5),
            DeonticClauseType::Obligation,
            Some(deontic(DeonticClauseType::Prohibition, basic(6))),
        ),
        ClauseCompositionType::And,
        dynamic(basic(6), deontic(DeonticClauseType::Permission, basic(5))),
    );
    let residual = d.decompose(&clause, &vec![fired(1, 6, 2)]);
    assert_eq!(
        residual,
        joined(
            deontic(DeonticClauseType::Prohibition, basic(6)),
            ClauseCompositionType::And,
            deontic(DeonticClauseType::Permission, basic(5))
        )
    );
    assert_eq!(ClauseDecomposer::process_composed_actions(&residual), residual);
}
