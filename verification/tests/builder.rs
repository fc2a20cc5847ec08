use recall::parser::ast_builder::{build_alpha, build_beta, build_clause, build_rel};
use recall::{
    build_ast, Action, AstError, BasicAction, Clause, ClauseComposition, ClauseCompositionType,
    Conflict, ConflictType, DeonticClauseType, ParsePair, RelativizationType, SymbolTable,
    SymbolType,
};

fn node(rule: &str, inner: Vec<ParsePair>) -> ParsePair {
    ParsePair { rule: rule.to_string(), text: String::new(), inner }
}

fn leaf(rule: &str) -> ParsePair {
    node(rule, vec![])
}

fn id(text: &str) -> ParsePair {
    ParsePair { rule: "ID".to_string(), text: text.to_string(), inner: vec![] }
}

fn basic(id: i32) -> Action {
    Action::Basic(BasicAction::with_value(id))
}

fn rel(names: &[&str]) -> ParsePair {
    match names {
        [] => leaf("rel"),
        [s] => node("rel", vec![leaf("OPEN_REL"), id(s), leaf("CLOSE_REL")]),
        [s, r] => node(
            "rel",
            vec![leaf("OPEN_REL"), id(s), leaf("SEP_REL"), id(r), leaf("CLOSE_REL")],
        ),
        _ => panic!("a relation names at most two individuals"),
    }
}

fn alpha(atoms: Vec<ParsePair>) -> ParsePair {
    node("alpha", atoms)
}

fn atom(inner: ParsePair) -> ParsePair {
    node("alpha_atom", vec![inner])
}

fn op(rule: &str) -> ParsePair {
    node("op", vec![leaf(rule)])
}

fn penalty(clause: Option<ParsePair>) -> ParsePair {
    match clause {
        Some(c) => node("penalty", vec![leaf("OPEN_PTY"), c, leaf("CLOSE_PTY")]),
        None => leaf("penalty"),
    }
}

fn co_atom(who: &[&str], action: ParsePair, pen: ParsePair) -> ParsePair {
    node("co_atom", vec![rel(who), leaf("O"), leaf("OPEN_EXP"), action, leaf("CLOSE_EXP"), pen])
}

fn term(kind: &str, atoms: Vec<ParsePair>) -> ParsePair {
    node("clause_term", vec![node(kind, atoms)])
}

fn clause(terms: Vec<ParsePair>) -> ParsePair {
    node("clause", terms)
}

fn message(result: Result<impl std::fmt::Debug, AstError>) -> String {
    match result {
        Err(AstError::BuildError(m)) => m,
        other => panic!("unexpected outcome {:?}", other),
    }
}

fn joined(mut first: Clause, connective: ClauseCompositionType, second: Clause) -> Clause {
    first.set_composition(ClauseComposition::new(connective, second));
    first
}

#[test]
fn relations_name_none_one_or_two_individuals() {
    let mut t = SymbolTable::new();
    assert_eq!(build_rel(&rel(&[]), &mut t).unwrap(), (-1, -1, RelativizationType::Global));
    assert_eq!(build_rel(&rel(&["bob"]), &mut t).unwrap(), (1, -1, RelativizationType::Relativized));
    assert_eq!(
        build_rel(&rel(&["alice", "bob"]), &mut t).unwrap(),
        (2, 1, RelativizationType::Directed)
    );
    assert_eq!(t.len(), 2);
    assert_eq!(t.get_symbol_by_id(2).unwrap().symbol_type(), SymbolType::Individual);
    assert_eq!(
        message(build_rel(&node("rel", vec![leaf("SEP_REL")]), &mut t)),
        "Unexpected rule in 'rel': SEP_REL"
    );
    assert_eq!(
        message(build_rel(&node("rel", vec![leaf("OPEN_REL")]), &mut t)),
        "Expected ID after '{' in 'rel'"
    );
    assert_eq!(
        message(build_rel(&node("rel", vec![leaf("OPEN_REL"), id("carol")]), &mut t)),
        "Missing '}' in 'rel'"
    );
    assert_eq!(t.len(), 3);
    assert_eq!(
        message(build_rel(&node("rel", vec![leaf("OPEN_REL"), id("a"), leaf("X")]), &mut t)),
        "Expected ',' or '}' in 'rel'"
    );
    assert_eq!(
        message(build_rel(&node("rel", vec![leaf("OPEN_REL"), id("a"), leaf("SEP_REL")]), &mut t)),
        "Expected ID after ',' in 'rel'"
    );
    assert_eq!(
        message(build_rel(
            &node("rel", vec![leaf("OPEN_REL"), id("a"), leaf("SEP_REL"), id("b")]),
            &mut t
        )),
        "Missing '}' in pair relation"
    );
}

#[test]
fn actions_of_deontic_clauses_associate_to_the_left() {
    let mut t = SymbolTable::new();
    let tree = alpha(vec![
        atom(id("pay")),
        op("OP_SEQ"),
        atom(leaf("SKIP")),
        op("OP_CHOICE"),
        atom(node("OPEN_EXP", vec![leaf("("), alpha(vec![atom(leaf("VIOLATION")), op("OP_CONC"), atom(id("pay"))])])),
    ]);
    assert_eq!(
        build_alpha(&tree, &mut t).unwrap(),
        Action::choice(
            Action::sequence(basic(1), Action::Basic(BasicAction::skip())),
            Action::concurrency(Action::Basic(BasicAction::violation()), basic(1))
        )
    );
    assert_eq!(t.get_symbol_by_id(1).map(|s| s.symbol_type()), Some(SymbolType::Action));
    assert_eq!(
        message(build_alpha(&alpha(vec![]), &mut t)),
        "Incomplete action infix tree: expected left term."
    );
    assert_eq!(message(build_alpha(&alpha(vec![leaf("alpha_atom")]), &mut t)), "Empty alpha atom.");
    assert_eq!(
        message(build_alpha(&alpha(vec![atom(leaf("T"))]), &mut t)),
        "Unexpected alpha atom: T"
    );
    assert_eq!(
        message(build_alpha(&alpha(vec![atom(leaf("OPEN_EXP"))]), &mut t)),
        "Expected 'alpha' inside '(...)'"
    );
    assert_eq!(
        message(build_alpha(&alpha(vec![atom(id("a")), leaf("op")]), &mut t)),
        "Empty 'op' rule"
    );
    assert_eq!(
        message(build_alpha(&alpha(vec![atom(id("a")), op("OP_SEQ")]), &mut t)),
        "Incomplete action infix tree: expected right term after operator OP_SEQ."
    );
    assert_eq!(
        message(build_alpha(&alpha(vec![atom(id("a")), op("AND"), atom(id("b"))]), &mut t)),
        "Unknown action operator: AND"
    );
}

#[test]
fn actions_of_dynamic_clauses_take_stars_and_negations() {
    let mut t = SymbolTable::new();
    let beta_term = |inner: Vec<ParsePair>| node("beta_term", inner);
    let tree = node(
        "beta",
        vec![
            beta_term(vec![leaf("UN_OP_NEG"), id("pay"), leaf("UN_OP_IT")]),
            op("OP_CHOICE"),
            beta_term(vec![
                leaf("OPEN_EXP"),
                node("beta", vec![beta_term(vec![id("ship"), leaf("OP_SEQ"), id("pay")])]),
                leaf("CLOSE_EXP"),
                id("ship"),
            ]),
            op("OP_CONC"),
            beta_term(vec![id("pay"), leaf("SKIP")]),
        ],
    );
    assert_eq!(
        build_beta(&tree, &mut t).unwrap(),
        Action::concurrency(
            Action::choice(
                Action::negation(Action::star(basic(1))),
                Action::sequence(Action::sequence(basic(2), basic(1)), basic(2))
            ),
            Action::Basic(BasicAction::skip())
        )
    );
    assert_eq!(
        message(build_beta(&node("beta", vec![beta_term(vec![leaf("UN_OP_NEG")])]), &mut t)),
        "Could not build action body for beta_term"
    );
    assert_eq!(
        build_beta(&node("beta", vec![beta_term(vec![leaf("VIOLATION")])]), &mut t).unwrap(),
        Action::Basic(BasicAction::violation())
    );
}

#[test]
fn clauses_are_joined_into_a_right_leaning_list() {
    let mut t = SymbolTable::new();
    let obligation =
        || co_atom(&["alice", "bob"], alpha(vec![atom(id("pay"))]), penalty(None));
    let permission = node(
        "cp_atom",
        vec![rel(&["bob"]), leaf("P"), leaf("OPEN_EXP"), alpha(vec![atom(id("ship"))]), leaf("CLOSE_EXP")],
    );
    let prohibition = node(
        "cf_term",
        vec![node(
            "cf_atom",
            vec![
                rel(&[]),
                leaf("F"),
                leaf("OPEN_EXP"),
                alpha(vec![atom(id("pay"))]),
                leaf("CLOSE_EXP"),
                penalty(Some(clause(vec![node("clause_term", vec![leaf("T")])]))),
            ],
        )],
    );
    let dynamic = node(
        "cd",
        vec![
            rel(&["alice"]),
            leaf("OPEN_DYN"),
            node("beta", vec![node("beta_term", vec![id("ship")])]),
            leaf("CLOSE_DYN"),
            leaf("OPEN_EXP"),
            clause(vec![node("clause_term", vec![leaf("F")])]),
            leaf("CLOSE_EXP"),
        ],
    );
    let tree = clause(vec![
        term("co", vec![obligation(), leaf("OR"), obligation()]),
        leaf("AND"),
        term("cp", vec![permission]),
        leaf("XOR"),
        node(
            "clause_term",
            vec![node(
                "OPEN_EXP",
                vec![
                    leaf("("),
                    clause(vec![
                        term("cf", vec![prohibition]),
                        leaf("OR"),
                        node("clause_term", vec![dynamic]),
                    ]),
                ],
            )],
        ),
    ]);
    let o = Clause::deontic_directed(
        1,
        2,
        basic(3),
        DeonticClauseType::Obligation,
        Some(Clause::boolean_false()),
    );
    let p = Clause::deontic_relativized(2, basic(4), DeonticClauseType::Permission, None);
    let f = Clause::deontic_global(basic(3), DeonticClauseType::Prohibition, Some(Clause::boolean_true()));
    let d = Clause::dynamic_relativized(1, basic(4), Clause::boolean_false());
    // the second obligation of the first term is replaced when the term is joined to the rest
    let expected = joined(
        o,
        ClauseCompositionType::And,
        joined(p, ClauseCompositionType::Xor, joined(f, ClauseCompositionType::Or, d)),
    );
    assert_eq!(build_clause(&tree, &mut t).unwrap(), expected);
    assert_eq!(t.len(), 4);
}

#[test]
fn clause_errors_name_what_is_missing() {
    let mut t = SymbolTable::new();
    assert_eq!(
        message(build_clause(&clause(vec![]), &mut t)),
        "Incomplete infix tree: expected left term."
    );
    assert_eq!(message(build_clause(&clause(vec![leaf("clause_term")]), &mut t)), "Empty clause term.");
    assert_eq!(
        message(build_clause(&clause(vec![node("clause_term", vec![leaf("rel")])]), &mut t)),
        "Unexpected clause term: rel"
    );
    let truth = || node("clause_term", vec![leaf("T")]);
    assert_eq!(
        message(build_clause(&clause(vec![truth(), leaf("AND")]), &mut t)),
        "Incomplete infix tree: expected right term after operator AND."
    );
    assert_eq!(
        message(build_clause(&clause(vec![truth(), leaf("NOT"), truth()]), &mut t)),
        "Unknown clause operator: NOT"
    );
    assert_eq!(
        message(build_clause(&clause(vec![term("co", vec![leaf("co_atom")])]), &mut t)),
        "Missing 'rel' in 'co_atom'"
    );
    assert_eq!(
        message(build_clause(&clause(vec![term("cp", vec![node("cp_atom", vec![rel(&[])])])]), &mut t)),
        "Missing 'alpha' in 'cp_atom'"
    );
    let no_penalty = node(
        "cf_atom",
        vec![rel(&[]), leaf("F"), leaf("OPEN_EXP"), alpha(vec![atom(id("pay"))]), leaf("CLOSE_EXP")],
    );
    assert_eq!(
        message(build_clause(
            &clause(vec![term("cf", vec![node("cf_term", vec![no_penalty])])]),
            &mut t
        )),
        "Missing 'penalty' in 'cf_atom'"
    );
    assert_eq!(
        message(build_clause(&clause(vec![term("cf", vec![leaf("cf_term")])]), &mut t)),
        "Empty CF term."
    );
    assert_eq!(
        message(build_clause(&clause(vec![term("cf", vec![node("cf_term", vec![leaf("co")])])]), &mut t)),
        "Unexpected CF term: co"
    );
    let with_penalty = |pen: ParsePair| {
        clause(vec![term("co", vec![co_atom(&[], alpha(vec![atom(id("pay"))]), pen)])])
    };
    assert_eq!(
        message(build_clause(&with_penalty(node("penalty", vec![leaf("T")])), &mut t)),
        "Expected OPEN_PTY (_/), found T"
    );
    assert_eq!(
        message(build_clause(&with_penalty(node("penalty", vec![leaf("OPEN_PTY")])), &mut t)),
        "Expected clause in penalty"
    );
    assert_eq!(
        message(build_clause(&with_penalty(node("penalty", vec![leaf("OPEN_PTY"), leaf("co")])), &mut t)),
        "Expected 'clause', found co"
    );
    assert_eq!(
        message(build_clause(
            &with_penalty(node("penalty", vec![leaf("OPEN_PTY"), clause(vec![truth()])])),
            &mut t
        )),
        "Expected CLOSE_PTY (/_)"
    );
    assert_eq!(
        message(build_clause(
            &with_penalty(node("penalty", vec![leaf("OPEN_PTY"), clause(vec![truth()]), leaf("T")])),
            &mut t
        )),
        "Expected CLOSE_PTY (/_), found T"
    );
    let cd = |inner: Vec<ParsePair>| clause(vec![node("clause_term", vec![node("cd", inner)])]);
    let beta = || node("beta", vec![node("beta_term", vec![id("pay")])]);
    assert_eq!(message(build_clause(&cd(vec![]), &mut t)), "Expected relation in cd");
    assert_eq!(message(build_clause(&cd(vec![rel(&[])]), &mut t)), "Expected '[' after relation in cd");
    assert_eq!(message(build_clause(&cd(vec![rel(&[]), leaf("T")]), &mut t)), "Expected '[', found T");
    assert_eq!(
        message(build_clause(&cd(vec![rel(&[]), leaf("OPEN_DYN")]), &mut t)),
        "Expected action (beta) in cd"
    );
    assert_eq!(
        message(build_clause(&cd(vec![rel(&[]), leaf("OPEN_DYN"), beta()]), &mut t)),
        "Expected ']' after action in cd"
    );
    assert_eq!(
        message(build_clause(&cd(vec![rel(&[]), leaf("OPEN_DYN"), beta(), leaf("T")]), &mut t)),
        "Expected ']', found T"
    );
    let open = || vec![rel(&[]), leaf("OPEN_DYN"), beta(), leaf("CLOSE_DYN")];
    assert_eq!(
        build_clause(&cd(open()), &mut t).unwrap(),
        Clause::dynamic_global(basic(1), Clause::boolean_true())
    );
    let extend = |more: Vec<ParsePair>| {
        let mut all = open();
        all.extend(more);
        cd(all)
    };
    assert_eq!(
        message(build_clause(&extend(vec![leaf("T")]), &mut t)),
        "Expected '(' for compensation, found T"
    );
    assert_eq!(
        message(build_clause(&extend(vec![leaf("OPEN_EXP")]), &mut t)),
        "Expected clause in compensation"
    );
    assert_eq!(
        message(build_clause(&extend(vec![leaf("OPEN_EXP"), clause(vec![truth()])]), &mut t)),
        "Expected ')' after compensation"
    );
    assert_eq!(
        message(build_clause(&extend(vec![leaf("OPEN_EXP"), clause(vec![truth()]), leaf("T")]), &mut t)),
        "Expected ')', found T"
    );
    assert_eq!(
        message(build_clause(
            &clause(vec![node("clause_term", vec![leaf("OPEN_EXP")])]),
            &mut t
        )),
        "Expected 'clause' inside '(...)'"
    );
}

#[test]
fn a_contract_is_built_from_conflicts_and_clauses() {
    let pair = |a: &str, b: &str| node("cfPair", vec![id(a), id(b)]);
    let conflicts = node(
        "conflict",
        vec![
            leaf("CONFLICT"),
            node(
                "conflict_body",
                vec![
                    node("cfRel_block", vec![leaf("relativized"), pair("pay", "ship")]),
                    node("cfGlobal_block", vec![pair("ship", "pay"), pair("pay", "send")]),
                    leaf("other"),
                ],
            ),
        ],
    );
    let obligation = || {
        clause(vec![term(
            "co",
            vec![co_atom(&["alice", "bob"], alpha(vec![atom(id("send"))]), penalty(None))],
        )])
    };
    let tree = node(
        "main",
        vec![node(
            "contract",
            vec![conflicts, obligation(), obligation(), leaf("END"), leaf("EOI")],
        )],
    );
    let mut t = SymbolTable::new();
    let contract = build_ast(&tree, &mut t).unwrap();
    let action = |id: i32| BasicAction::with_value(id);
    assert_eq!(
        contract.relativized_conflicts,
        vec![Conflict::new(action(1), action(2), ConflictType::Relativized)]
    );
    assert_eq!(
        contract.global_conflicts,
        vec![
            Conflict::new(action(2), action(1), ConflictType::Global),
            Conflict::new(action(1), action(3), ConflictType::Global)
        ]
    );
    assert_eq!(
        contract.clauses,
        vec![Clause::deontic_directed(
            4,
            5,
            basic(3),
            DeonticClauseType::Obligation,
            Some(Clause::boolean_false())
        )]
    );
    assert_eq!(contract.individuals, vec![4, 5]);
    assert_eq!(contract.actions, vec![action(3)]);
    assert_eq!(t.get_actions().iter().map(|s| s.value()).collect::<Vec<_>>(), vec!["pay", "ship", "send"]);
    assert_eq!(t.get_individuals().iter().map(|s| s.value()).collect::<Vec<_>>(), vec!["alice", "bob"]);
}

#[test]
fn contract_errors_are_reported() {
    let mut t = SymbolTable::new();
    match build_ast(&leaf("clause"), &mut t) {
        Err(e @ AstError::UnexpectedRule { .. }) => {
            assert_eq!(e.message(), "Unexpected rule. Expected main, found clause");
        }
        other => panic!("unexpected outcome {:?}", other),
    }
    let empty = build_ast(&leaf("main"), &mut t);
    assert_eq!(empty.as_ref().unwrap_err().message(), "Build error: Empty contract file.");
    assert_eq!(message(empty), "Empty contract file.");
    assert_eq!(
        message(build_ast(&node("main", vec![node("contract", vec![leaf("T")])]), &mut t)),
        "Unexpected rule in contract: T"
    );
    let broken = node(
        "main",
        vec![node(
            "contract",
            vec![node(
                "conflict",
                vec![node(
                    "conflict_body",
                    vec![node("cfGlobal_block", vec![node("cfPair", vec![id("pay")])])],
                )],
            )],
        )],
    );
    assert_eq!(message(build_ast(&broken, &mut t)), "Missing ID2 in cfPair");
    assert!(t.is_empty());
    assert_eq!(
        message(build_ast(
            &node(
                "main",
                vec![node(
                    "contract",
                    vec![node(
                        "conflict",
                        vec![node("conflict_body", vec![node("cfRel_block", vec![leaf("cfPair")])])]
                    )]
                )]
            ),
            &mut t
        )),
        "Missing ID1 in cfPair"
    );
    assert!(build_ast(&node("main", vec![leaf("contract")]), &mut t).unwrap().clauses.is_empty());
    assert_eq!(AstError::ParseError("line 3".to_string()).message(), "Parse error: line 3");
}
