use recall::{
    Action, ActionOperator, ActionTrait, BasicAction, ComposedAction, RelativizedAction, SymbolTable,
    SymbolType,
};

fn table() -> SymbolTable {
    let mut t = SymbolTable::new();
    t.add_symbol("alice".to_string(), SymbolType::Individual);
    t.add_symbol("bob".to_string(), SymbolType::Individual);
    t.add_symbol("pay".to_string(), SymbolType::Action);
    t.add_symbol("ship".to_string(), SymbolType::Action);
    t
}

fn basic(id: i32) -> Action {
    Action::Basic(BasicAction::with_value(id))
}

#[test]
fn skip_and_violation_carry_their_reserved_values() {
    let skip = BasicAction::skip();
    assert_eq!((skip.value, skip.violation, skip.skip, skip.negation), (0, false, true, false));
    let violation = BasicAction::violation();
    assert_eq!(
        (violation.value, violation.violation, violation.skip, violation.negation),
        (-1, true, false, false)
    );
    assert_eq!(BasicAction::new(7, true, true, true).value, 7);
    assert_eq!(BasicAction::with_value(7), BasicAction::new(7, false, false, false));
}

#[test]
fn negate_flips_only_the_negation_mark() {
    let a = BasicAction::new(3, false, false, false);
    let n = a.negate();
    assert_eq!(n, BasicAction::new(3, false, false, true));
    assert_eq!(n.negate(), a);
    assert_ne!(a, n);
}

#[test]
fn basic_actions_are_bare_and_skip_has_none() {
    assert_eq!(BasicAction::skip().get_basic_actions(), vec![]);
    assert_eq!(
        BasicAction::new(3, false, false, true).get_basic_actions(),
        vec![BasicAction::with_value(3)]
    );
    assert_eq!(
        BasicAction::violation().get_basic_actions(),
        vec![BasicAction::with_value(-1)]
    );
    let composed = Action::sequence(
        Action::choice(basic(3), Action::Basic(BasicAction::skip())),
        Action::star(Action::negation(basic(4))),
    );
    assert_eq!(
        composed.get_basic_actions(),
        vec![BasicAction::with_value(3), BasicAction::with_value(4)]
    );
    let inner = ComposedAction::binary(basic(4), basic(3), ActionOperator::Concurrency);
    assert_eq!(
        inner.get_basic_actions(),
        vec![BasicAction::with_value(4), BasicAction::with_value(3)]
    );
    assert_eq!(ComposedAction::empty().get_basic_actions(), vec![]);
}

#[test]
fn composed_action_builders_set_operands_and_operator() {
    let binary = ComposedAction::binary(basic(1), basic(2), ActionOperator::Choice);
    assert_eq!(binary.left, Some(Box::new(basic(1))));
    assert_eq!(binary.right, Some(Box::new(basic(2))));
    assert_eq!(binary.operator, ActionOperator::Choice);
    let unary = ComposedAction::unary(basic(1), ActionOperator::Star);
    assert_eq!(unary.left, Some(Box::new(basic(1))));
    assert_eq!(unary.right, None);
    let empty = ComposedAction::empty();
    assert_eq!((empty.left, empty.right, empty.operator), (None, None, ActionOperator::Absent));
    assert_eq!(ComposedAction::new(None, Some(basic(2)), ActionOperator::Sequence).left, None);
    assert_eq!(Action::choice(basic(1), basic(2)), Action::Composed(binary.clone()));
    assert_eq!(
        Action::concurrency(basic(1), basic(2)),
        Action::Composed(ComposedAction::binary(basic(1), basic(2), ActionOperator::Concurrency))
    );
    assert_eq!(
        Action::negation(basic(1)),
        Action::Composed(ComposedAction::unary(basic(1), ActionOperator::Negation))
    );
    assert!(Action::star(basic(1)).equals(&Action::Composed(unary)));
    assert!(!Action::star(basic(1)).equals(&Action::star(basic(2))));
    assert!(binary.equals(&binary.clone()));
}

#[test]
fn operators_print_as_written() {
    assert_eq!(ActionOperator::Choice.symbol(), "+");
    assert_eq!(ActionOperator::Concurrency.symbol(), "&");
    assert_eq!(ActionOperator::Negation.symbol(), "!");
    assert_eq!(ActionOperator::Sequence.symbol(), ".");
    assert_eq!(ActionOperator::Star.symbol(), "*");
    assert_eq!(ActionOperator::Absent.symbol(), "NONE");
}

#[test]
fn actions_print_with_symbol_names() {
    let t = table();
    assert_eq!(BasicAction::with_value(3).display(&t), "pay");
    assert_eq!(BasicAction::with_value(3).negate().display(&t), "!pay");
    assert_eq!(BasicAction::with_value(99).display(&t), "UNDEF");
    assert_eq!(BasicAction::skip().display(&t), "1");
    assert_eq!(BasicAction::violation().display(&t), "0");
    assert_eq!(BasicAction::skip().format_with_symbols(&t), "SKIP");
    assert_eq!(BasicAction::violation().format_with_symbols(&t), "VIOLATION");
    assert_eq!(BasicAction::with_value(0).format_with_symbols(&t), "SKIP");
    assert_eq!(BasicAction::with_value(4).negate().format_with_symbols(&t), "!ship");
    assert_eq!(BasicAction::with_value(99).format_with_symbols(&t), "UNDEF");
    assert_eq!(Action::sequence(basic(3), basic(4)).display(&t), "(pay . ship)");
    assert_eq!(Action::choice(basic(3), basic(4)).display(&t), "(pay + ship)");
    assert_eq!(Action::concurrency(basic(3), basic(4)).display(&t), "(pay & ship)");
    assert_eq!(Action::star(basic(3)).display(&t), "pay*");
    assert_eq!(Action::negation(basic(3)).display(&t), "!pay");
    assert_eq!(Action::star(Action::negation(basic(3))).display(&t), "!pay*");
    assert_eq!(
        Action::negation(Action::sequence(basic(3), basic(4))).display(&t),
        "!(pay . ship)"
    );
    assert_eq!(Action::Composed(ComposedAction::empty()).display(&t), "");
    assert_eq!(
        Action::Composed(ComposedAction::new(None, Some(basic(4)), ActionOperator::Choice))
            .display(&t),
        "ship"
    );
}

#[test]
fn relativized_actions_print_sender_action_receiver() {
    let t = table();
    let fired = RelativizedAction::new(1, BasicAction::with_value(3), 2);
    assert!(!fired.negation);
    assert_eq!((fired.sender, fired.receiver), (1, 2));
    assert_eq!(fired.format_with_symbols(&t), "(alice, pay, bob)");
    let refused = RelativizedAction::negation(&fired);
    assert!(refused.negation);
    assert_eq!((refused.sender, refused.action, refused.receiver), (1, fired.action, 2));
    assert_eq!(refused.format_with_symbols(&t), "(alice, !pay, bob)");
    assert_eq!(
        RelativizedAction::new(9, BasicAction::with_value(3), -1).format_with_symbols(&t),
        "(?, pay, ?)"
    );
}
