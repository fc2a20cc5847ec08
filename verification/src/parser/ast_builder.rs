use crate::model::actions::{Action, ActionOperator, BasicAction, ComposedAction};
use crate::model::contracts::{
    clause_actions, clause_individuals, relativization_of, Clause, ClauseComposition,
    ClauseCompositionType, Conflict, ConflictType, Contract, DeonticClauseType, RelativizationType,
};
use crate::utils::ordered::{extend_distinct, insert_distinct};
use std::sync::Arc;
use crate::utils::symbols::{SymbolTable, SymbolType, SYMBOL_CAPACITY};
use vstd::prelude::*;
use vstd::string::StringExecFns;

verus! {

/// A node of a parse tree: the name of the grammar rule that matched, the text that it
/// matched, and the nodes of the rules that matched inside it.
#[derive(Debug)]
pub struct ParsePair {
    pub rule: String,
    pub text: String,
    pub inner: Vec<ParsePair>,
}

/// Why no contract could be built from a parse tree.
#[derive(Debug, PartialEq, Eq)]
pub enum AstError {
    UnexpectedRule { expected: String, found: String },
    BuildError(String),
    ParseError(String),
}

/// An error with its texts as sequences of characters.
pub enum AstErrorView {
    UnexpectedRule { expected: Seq<char>, found: Seq<char> },
    BuildError(Seq<char>),
    ParseError(Seq<char>),
}

impl AstError {
    pub open spec fn view(&self) -> AstErrorView {
        match self {
            AstError::UnexpectedRule { expected, found } => AstErrorView::UnexpectedRule {
                expected: expected@,
                found: found@,
            },
            AstError::BuildError(m) => AstErrorView::BuildError(m@),
            AstError::ParseError(m) => AstErrorView::ParseError(m@),
        }
    }

    /// What the error says.
    pub open spec fn spec_message(&self) -> Seq<char> {
        match self {
            AstError::UnexpectedRule { expected, found } => "Unexpected rule. Expected "@ + expected@
                + ", found "@ + found@,
            AstError::BuildError(m) => "Build error: "@ + m@,
            AstError::ParseError(m) => "Parse error: "@ + m@,
        }
    }

    pub fn message(&self) -> (s: String)
        ensures
            s@ == self.spec_message(),
    {
        match self {
            AstError::UnexpectedRule { expected, found } => {
                let mut out = String::from_str("Unexpected rule. Expected ");
                out.append(expected.as_str());
                out.append(", found ");
                out.append(found.as_str());
                out
            },
            AstError::BuildError(m) => {
                let mut out = String::from_str("Build error: ");
                out.append(m.as_str());
                out
            },
            AstError::ParseError(m) => {
                let mut out = String::from_str("Parse error: ");
                out.append(m.as_str());
                out
            },
        }
    }
}

/// What building a value from a parse tree comes to: the value or an error, and the
/// keys of the symbol table afterwards.
pub struct Parsed<T> {
    pub value: Result<T, AstErrorView>,
    pub keys: Seq<(Seq<char>, SymbolType)>,
}

/// A failure with the given message.
pub open spec fn fail<T>(message: Seq<char>, keys: Seq<(Seq<char>, SymbolType)>) -> Parsed<T> {
    Parsed { value: Err(AstErrorView::BuildError(message)), keys }
}

/// A success with the given value.
pub open spec fn done<T>(value: T, keys: Seq<(Seq<char>, SymbolType)>) -> Parsed<T> {
    Parsed { value: Ok(value), keys }
}

/// The failure of a part as the failure of the whole.
pub open spec fn carry<A, B>(part: Parsed<A>) -> Parsed<B> {
    Parsed {
        value: match part.value {
            Ok(_) => Err(AstErrorView::BuildError(Seq::empty())),
            Err(e) => Err(e),
        },
        keys: part.keys,
    }
}

/// Whether what was built, and the symbol table afterwards, are what was to be built.
pub open spec fn agrees<T>(r: Result<T, AstError>, table: &SymbolTable, expected: Parsed<T>) -> bool {
    &&& table.keys() == expected.keys
    &&& match (r, expected.value) {
        (Ok(a), Ok(b)) => a == b,
        (Err(e), Err(v)) => e.view() == v,
        _ => false,
    }
}

/// The id of a symbol, which is added to the table where it is new. A full table
/// takes no symbol.
pub open spec fn spec_intern(text: Seq<char>, kind: SymbolType, keys: Seq<(Seq<char>, SymbolType)>) -> Parsed<
    i32,
> {
    if keys.len() >= SYMBOL_CAPACITY {
        fail("Too many symbols."@, keys)
    } else {
        done(
            SymbolTable::spec_add(keys, (text, kind)).1 as i32,
            SymbolTable::spec_add(keys, (text, kind)).0,
        )
    }
}

fn build_error<T>(message: &str) -> (r: Result<T, AstError>)
    ensures
        r matches Err(e) && e.view() == AstErrorView::BuildError(message@),
{
    Err(AstError::BuildError(String::from_str(message)))
}

fn rule_error<T>(message: &str, rule: &String) -> (r: Result<T, AstError>)
    ensures
        r matches Err(e) && e.view() == AstErrorView::BuildError(message@ + rule@),
{
    let mut text = String::from_str(message);
    text.append(rule.as_str());
    Err(AstError::BuildError(text))
}

fn rule_error_in<T>(message: &str, rule: &String, end: &str) -> (r: Result<T, AstError>)
    ensures
        r matches Err(e) && e.view() == AstErrorView::BuildError(message@ + rule@ + end@),
{
    let mut text = String::from_str(message);
    text.append(rule.as_str());
    text.append(end);
    Err(AstError::BuildError(text))
}

fn is_rule(pair: &ParsePair, name: &str) -> (b: bool)
    ensures
        b == (pair.rule@ == name@),
{
    pair.rule == String::from_str(name)
}

fn intern(table: &mut SymbolTable, text: &String, kind: SymbolType) -> (r: Result<i32, AstError>)
    requires
        old(table).well_formed(),
    ensures
        final(table).well_formed(),
        agrees(r, final(table), spec_intern(text@, kind, old(table).keys())),
{
    if table.len() >= SYMBOL_CAPACITY {
        return build_error("Too many symbols.");
    }
    Ok(table.add_symbol(text.clone(), kind))
}

/// The sender, the receiver and the relativization that a relation names: nothing in
/// braces is global, one individual is relativized, two are directed.
pub open spec fn spec_build_rel(p: ParsePair, keys: Seq<(Seq<char>, SymbolType)>) -> Parsed<
    (i32, i32, RelativizationType),
> {
    if p.inner@.len() == 0 {
        done((-1i32, -1i32, RelativizationType::Global), keys)
    } else if p.inner@[0].rule@ != "OPEN_REL"@ {
        fail("Unexpected rule in 'rel': "@ + p.inner@[0].rule@, keys)
    } else if p.inner@.len() < 2 {
        fail("Expected ID after '{' in 'rel'"@, keys)
    } else {
        let sender = spec_intern(p.inner@[1].text@, SymbolType::Individual, keys);
        match sender.value {
            Err(_) => carry(sender),
            Ok(s) => {
                if p.inner@.len() < 3 {
                    fail("Missing '}' in 'rel'"@, sender.keys)
                } else if p.inner@[2].rule@ == "SEP_REL"@ {
                    if p.inner@.len() < 4 {
                        fail("Expected ID after ',' in 'rel'"@, sender.keys)
                    } else {
                        let receiver = spec_intern(
                            p.inner@[3].text@,
                            SymbolType::Individual,
                            sender.keys,
                        );
                        match receiver.value {
                            Err(_) => carry(receiver),
                            Ok(r) => if p.inner@.len() < 5 {
                                fail("Missing '}' in pair relation"@, receiver.keys)
                            } else {
                                done((s, r, RelativizationType::Directed), receiver.keys)
                            },
                        }
                    }
                } else if p.inner@[2].rule@ == "CLOSE_REL"@ {
                    done((s, -1i32, RelativizationType::Relativized), sender.keys)
                } else {
                    fail("Expected ',' or '}' in 'rel'"@, sender.keys)
                }
            },
        }
    }
}

pub fn build_rel(pair: &ParsePair, table: &mut SymbolTable) -> (r: Result<
    (i32, i32, RelativizationType),
    AstError,
>)
    requires
        old(table).well_formed(),
    ensures
        final(table).well_formed(),
        agrees(r, final(table), spec_build_rel(*pair, old(table).keys())),
{
    if pair.inner.len() == 0 {
        return Ok((-1, -1, RelativizationType::Global));
    }
    if !is_rule(&pair.inner[0], "OPEN_REL") {
        return rule_error("Unexpected rule in 'rel': ", &pair.inner[0].rule);
    }
    if pair.inner.len() < 2 {
        return build_error("Expected ID after '{' in 'rel'");
    }
    let sender = match intern(table, &pair.inner[1].text, SymbolType::Individual) {
        Ok(s) => s,
        Err(e) => {
            return Err(e);
        },
    };
    if pair.inner.len() < 3 {
        return build_error("Missing '}' in 'rel'");
    }
    if is_rule(&pair.inner[2], "SEP_REL") {
        if pair.inner.len() < 4 {
            return build_error("Expected ID after ',' in 'rel'");
        }
        let receiver = match intern(table, &pair.inner[3].text, SymbolType::Individual) {
            Ok(r) => r,
            Err(e) => {
                return Err(e);
            },
        };
        if pair.inner.len() < 5 {
            return build_error("Missing '}' in pair relation");
        }
        Ok((sender, receiver, RelativizationType::Directed))
    } else if is_rule(&pair.inner[2], "CLOSE_REL") {
        Ok((sender, -1, RelativizationType::Relativized))
    } else {
        build_error("Expected ',' or '}' in 'rel'")
    }
}

/// Which terms an action is made of: those of an obligation, permission or
/// prohibition, or those of a dynamic clause.
#[derive(Debug, Clone, Copy, PartialEq, Eq, Structural)]
pub enum ActionTerms {
    Alpha,
    Beta,
}

/// The operator that a rule name stands for.
pub open spec fn operator_named(rule: Seq<char>) -> Option<ActionOperator> {
    if rule == "OP_CHOICE"@ {
        Some(ActionOperator::Choice)
    } else if rule == "OP_SEQ"@ {
        Some(ActionOperator::Sequence)
    } else if rule == "OP_CONC"@ {
        Some(ActionOperator::Concurrency)
    } else {
        None
    }
}

/// The action of the two operands under the operator.
pub open spec fn binary(left: Action, right: Action, operator: ActionOperator) -> Action {
    Action::Composed(
        ComposedAction { left: Some(Box::new(left)), right: Some(Box::new(right)), operator },
    )
}

/// The skip action.
pub open spec fn skip_action() -> Action {
    Action::Basic(BasicAction { value: 0, violation: false, skip: true, negation: false })
}

/// The violation action.
pub open spec fn violation_action() -> Action {
    Action::Basic(BasicAction { value: -1i32, violation: true, skip: false, negation: false })
}

/// The action of one term of the given kind.
pub open spec fn spec_action_term(p: ParsePair, terms: ActionTerms, keys: Seq<(Seq<char>, SymbolType)>) -> Parsed<
    Action,
>
    decreases p, 3int, 0nat,
{
    match terms {
        ActionTerms::Alpha => spec_build_alpha_atom(p, keys),
        ActionTerms::Beta => spec_build_beta_term(p, keys),
    }
}

/// The action of terms joined by operators: the operators associate to the left.
pub open spec fn spec_action_infix(p: ParsePair, terms: ActionTerms, keys: Seq<(Seq<char>, SymbolType)>) -> Parsed<
    Action,
>
    decreases p, 1int, 0nat,
{
    if p.inner@.len() == 0 {
        fail("Incomplete action infix tree: expected left term."@, keys)
    } else {
        let left = spec_action_term(p.inner@[0], terms, keys);
        match left.value {
            Err(_) => left,
            Ok(l) => spec_action_infix_from(p, terms, 1, l, left.keys),
        }
    }
}

/// The action of `left` and the terms from position `i` on.
pub open spec fn spec_action_infix_from(
    p: ParsePair,
    terms: ActionTerms,
    i: nat,
    left: Action,
    keys: Seq<(Seq<char>, SymbolType)>,
) -> Parsed<Action>
    decreases p, 0int, p.inner@.len() - i,
{
    if i >= p.inner@.len() {
        done(left, keys)
    } else if p.inner@[i as int].inner@.len() == 0 {
        fail("Empty 'op' rule"@, keys)
    } else if i + 1 >= p.inner@.len() {
        fail(
            "Incomplete action infix tree: expected right term after operator "@
                + p.inner@[i as int].inner@[0].rule@ + "."@,
            keys,
        )
    } else {
        let right = spec_action_term(p.inner@[i as int + 1], terms, keys);
        match right.value {
            Err(_) => right,
            Ok(r) => match operator_named(p.inner@[i as int].inner@[0].rule@) {
                None => fail(
                    "Unknown action operator: "@ + p.inner@[i as int].inner@[0].rule@,
                    right.keys,
                ),
                Some(operator) => spec_action_infix_from(
                    p,
                    terms,
                    i + 2,
                    binary(left, r, operator),
                    right.keys,
                ),
            },
        }
    }
}

/// The action of an atom: skip, violation, a named action, or an action in brackets.
pub open spec fn spec_build_alpha_atom(p: ParsePair, keys: Seq<(Seq<char>, SymbolType)>) -> Parsed<Action>
    decreases p, 2int, 0nat,
{
    if p.inner@.len() == 0 {
        fail("Empty alpha atom."@, keys)
    } else if p.inner@[0].rule@ == "SKIP"@ {
        done(skip_action(), keys)
    } else if p.inner@[0].rule@ == "VIOLATION"@ {
        done(violation_action(), keys)
    } else if p.inner@[0].rule@ == "ID"@ {
        let id = spec_intern(p.inner@[0].text@, SymbolType::Action, keys);
        match id.value {
            Err(_) => carry(id),
            Ok(v) => done(Action::Basic(BasicAction::spec_with_value(v)), id.keys),
        }
    } else if p.inner@[0].rule@ == "OPEN_EXP"@ {
        if p.inner@[0].inner@.len() < 2 {
            fail("Expected 'alpha' inside '(...)'"@, keys)
        } else {
            spec_action_infix(p.inner@[0].inner@[1], ActionTerms::Alpha, keys)
        }
    } else {
        fail("Unexpected alpha atom: "@ + p.inner@[0].rule@, keys)
    }
}

/// `next` behind what was read before: their sequence, or `next` alone.
pub open spec fn then(before: Option<Action>, next: Action) -> Action {
    match before {
        Some(b) => binary(b, next, ActionOperator::Sequence),
        None => next,
    }
}

/// The action of a term of a dynamic clause: named actions and actions in brackets
/// in sequence, under a star where the term iterates, under a negation where it
/// negates.
pub open spec fn spec_build_beta_term(p: ParsePair, keys: Seq<(Seq<char>, SymbolType)>) -> Parsed<Action>
    decreases p, 2int, 0nat,
{
    spec_beta_from(p, 0, None, false, false, keys)
}

/// The action of the part of a term from position `i` on, after `action` was read.
pub open spec fn spec_beta_from(
    p: ParsePair,
    i: nat,
    action: Option<Action>,
    negation: bool,
    iteration: bool,
    keys: Seq<(Seq<char>, SymbolType)>,
) -> Parsed<Action>
    decreases p, 1int, p.inner@.len() - i,
{
    if i >= p.inner@.len() {
        match action {
            None => fail("Could not build action body for beta_term"@, keys),
            Some(a) => {
                let starred = if iteration {
                    Action::Composed(
                        ComposedAction {
                            left: Some(Box::new(a)),
                            right: None,
                            operator: ActionOperator::Star,
                        },
                    )
                } else {
                    a
                };
                done(
                    if negation {
                        Action::spec_negation(starred)
                    } else {
                        starred
                    },
                    keys,
                )
            },
        }
    } else if p.inner@[i as int].rule@ == "UN_OP_NEG"@ {
        spec_beta_from(p, i + 1, action, true, iteration, keys)
    } else if p.inner@[i as int].rule@ == "UN_OP_IT"@ {
        spec_beta_from(p, i + 1, action, negation, true, keys)
    } else if p.inner@[i as int].rule@ == "ID"@ {
        let id = spec_intern(p.inner@[i as int].text@, SymbolType::Action, keys);
        match id.value {
            Err(_) => carry(id),
            Ok(v) => spec_beta_from(
                p,
                i + 1,
                Some(then(action, Action::Basic(BasicAction::spec_with_value(v)))),
                negation,
                iteration,
                id.keys,
            ),
        }
    } else if p.inner@[i as int].rule@ == "SKIP"@ {
        spec_beta_from(p, i + 1, Some(skip_action()), negation, iteration, keys)
    } else if p.inner@[i as int].rule@ == "VIOLATION"@ {
        spec_beta_from(p, i + 1, Some(violation_action()), negation, iteration, keys)
    } else if p.inner@[i as int].rule@ == "beta"@ {
        let inner = spec_action_infix(p.inner@[i as int], ActionTerms::Beta, keys);
        match inner.value {
            Err(_) => inner,
            Ok(a) => spec_beta_from(p, i + 1, Some(then(action, a)), negation, iteration, inner.keys),
        }
    } else {
        spec_beta_from(p, i + 1, action, negation, iteration, keys)
    }
}

fn build_action_term(pair: &ParsePair, terms: ActionTerms, table: &mut SymbolTable) -> (r: Result<
    Action,
    AstError,
>)
    requires
        old(table).well_formed(),
    ensures
        final(table).well_formed(),
        agrees(r, final(table), spec_action_term(*pair, terms, old(table).keys())),
    decreases *pair, 3int, 0nat,
{
    match terms {
        ActionTerms::Alpha => build_alpha_atom(pair, table),
        ActionTerms::Beta => build_beta_term(pair, table),
    }
}

#[verifier::loop_isolation(false)]
fn build_action_infix_tree(pair: &ParsePair, terms: ActionTerms, table: &mut SymbolTable) -> (r: Result<
    Action,
    AstError,
>)
    requires
        old(table).well_formed(),
    ensures
        final(table).well_formed(),
        agrees(r, final(table), spec_action_infix(*pair, terms, old(table).keys())),
    decreases *pair, 1int, 0nat,
{
    if pair.inner.len() == 0 {
        return build_error("Incomplete action infix tree: expected left term.");
    }
    let mut left = match build_action_term(&pair.inner[0], terms, table) {
        Ok(l) => l,
        Err(e) => {
            return Err(e);
        },
    };
    let ghost goal = spec_action_infix(*pair, terms, old(table).keys());
    let mut i: usize = 1;
    while i < pair.inner.len()
        invariant
            1 <= i,
            table.well_formed(),
            goal == spec_action_infix_from(*pair, terms, i as nat, left, table.keys()),
        decreases pair.inner.len() - i,
    {
        let op_pair = &pair.inner[i];
        if op_pair.inner.len() == 0 {
            return build_error("Empty 'op' rule");
        }
        let op_rule = &op_pair.inner[0];
        if i + 1 >= pair.inner.len() {
            return rule_error_in(
                "Incomplete action infix tree: expected right term after operator ",
                &op_rule.rule,
                ".",
            );
        }
        let right = match build_action_term(&pair.inner[i + 1], terms, table) {
            Ok(r) => r,
            Err(e) => {
                return Err(e);
            },
        };
        let operator = if is_rule(op_rule, "OP_CHOICE") {
            ActionOperator::Choice
        } else if is_rule(op_rule, "OP_SEQ") {
            ActionOperator::Sequence
        } else if is_rule(op_rule, "OP_CONC") {
            ActionOperator::Concurrency
        } else {
            return rule_error("Unknown action operator: ", &op_rule.rule);
        };
        left = Action::Composed(ComposedAction::binary(left, right, operator));
        i += 2;
    }
    Ok(left)
}

pub fn build_alpha(pair: &ParsePair, table: &mut SymbolTable) -> (r: Result<Action, AstError>)
    requires
        old(table).well_formed(),
    ensures
        final(table).well_formed(),
        agrees(r, final(table), spec_action_infix(*pair, ActionTerms::Alpha, old(table).keys())),
    decreases *pair, 2int, 0nat,
{
    build_action_infix_tree(pair, ActionTerms::Alpha, table)
}

fn build_alpha_atom(pair: &ParsePair, table: &mut SymbolTable) -> (r: Result<Action, AstError>)
    requires
        old(table).well_formed(),
    ensures
        final(table).well_formed(),
        agrees(r, final(table), spec_build_alpha_atom(*pair, old(table).keys())),
    decreases *pair, 2int, 0nat,
{
    if pair.inner.len() == 0 {
        return build_error("Empty alpha atom.");
    }
    let inner = &pair.inner[0];
    if is_rule(inner, "SKIP") {
        Ok(Action::Basic(BasicAction::skip()))
    } else if is_rule(inner, "VIOLATION") {
        Ok(Action::Basic(BasicAction::violation()))
    } else if is_rule(inner, "ID") {
        match intern(table, &inner.text, SymbolType::Action) {
            Ok(id) => Ok(Action::Basic(BasicAction::with_value(id))),
            Err(e) => Err(e),
        }
    } else if is_rule(inner, "OPEN_EXP") {
        if inner.inner.len() < 2 {
            return build_error("Expected 'alpha' inside '(...)'");
        }
        build_action_infix_tree(&inner.inner[1], ActionTerms::Alpha, table)
    } else {
        rule_error("Unexpected alpha atom: ", &inner.rule)
    }
}

pub fn build_beta(pair: &ParsePair, table: &mut SymbolTable) -> (r: Result<Action, AstError>)
    requires
        old(table).well_formed(),
    ensures
        final(table).well_formed(),
        agrees(r, final(table), spec_action_infix(*pair, ActionTerms::Beta, old(table).keys())),
    decreases *pair, 2int, 0nat,
{
    build_action_infix_tree(pair, ActionTerms::Beta, table)
}

fn follow(before: Option<Action>, next: Action) -> (r: Action)
    ensures
        r == then(before, next),
{
    match before {
        Some(b) => Action::Composed(ComposedAction::binary(b, next, ActionOperator::Sequence)),
        None => next,
    }
}

#[verifier::loop_isolation(false)]
fn build_beta_term(pair: &ParsePair, table: &mut SymbolTable) -> (r: Result<Action, AstError>)
    requires
        old(table).well_formed(),
    ensures
        final(table).well_formed(),
        agrees(r, final(table), spec_build_beta_term(*pair, old(table).keys())),
    decreases *pair, 2int, 0nat,
{
    let mut action: Option<Action> = None;
    let mut negation = false;
    let mut iteration = false;
    let ghost goal = spec_build_beta_term(*pair, old(table).keys());
    let mut i: usize = 0;
    while i < pair.inner.len()
        invariant
            table.well_formed(),
            goal == spec_beta_from(*pair, i as nat, action, negation, iteration, table.keys()),
        decreases pair.inner.len() - i,
    {
        let inner_pair = &pair.inner[i];
        if is_rule(inner_pair, "UN_OP_NEG") {
            negation = true;
        } else if is_rule(inner_pair, "UN_OP_IT") {
            iteration = true;
        } else if is_rule(inner_pair, "ID") {
            let id = match intern(table, &inner_pair.text, SymbolType::Action) {
                Ok(id) => id,
                Err(e) => {
                    return Err(e);
                },
            };
            action = Some(follow(action, Action::Basic(BasicAction::with_value(id))));
        } else if is_rule(inner_pair, "SKIP") {
            action = Some(Action::Basic(BasicAction::skip()));
        } else if is_rule(inner_pair, "VIOLATION") {
            action = Some(Action::Basic(BasicAction::violation()));
        } else if is_rule(inner_pair, "beta") {
            let inner_action = match build_action_infix_tree(inner_pair, ActionTerms::Beta, table) {
                Ok(a) => a,
                Err(e) => {
                    return Err(e);
                },
            };
            action = Some(follow(action, inner_action));
        }
        i += 1;
    }
    let mut final_action = match action {
        Some(a) => a,
        None => {
            return build_error("Could not build action body for beta_term");
        },
    };
    if iteration {
        final_action = Action::star(final_action);
    }
    if negation {
        final_action = Action::negation(final_action);
    }
    Ok(final_action)
}

/// Which terms a clause is made of.
#[derive(Debug, Clone, Copy, PartialEq, Eq, Structural)]
pub enum ClauseTerms {
    /// Any clause term.
    Clause,
    /// Obligations.
    Co,
    /// Permissions.
    Cp,
    /// Prohibitions and dynamic clauses.
    Cf,
}

/// The connective that a rule name stands for.
pub open spec fn connective_named(rule: Seq<char>) -> Option<ClauseCompositionType> {
    if rule == "AND"@ {
        Some(ClauseCompositionType::And)
    } else if rule == "OR"@ {
        Some(ClauseCompositionType::Or)
    } else if rule == "XOR"@ {
        Some(ClauseCompositionType::Xor)
    } else {
        None
    }
}

/// The clauses from position `n` on as one clause: each stands before the rest, joined
/// to it by the connective at its position. A composition that a clause had before
/// is replaced.
pub open spec fn spec_fold(built: Seq<Clause>, ops: Seq<ClauseCompositionType>, n: nat) -> Clause
    decreases built.len() - n,
{
    if n + 1 >= built.len() {
        built.last()
    } else {
        built[n as int].with_composition(
            Some(
                ClauseComposition {
                    composition_type: ops[n as int],
                    other: Arc::new(spec_fold(built, ops, n + 1)),
                },
            ),
        )
    }
}

/// The deontic clause of the given relativization.
pub open spec fn deontic_of(
    relation: (i32, i32, RelativizationType),
    action: Action,
    deontic_type: DeonticClauseType,
    penalty: Option<Clause>,
) -> Clause {
    match relation.2 {
        RelativizationType::Global => Clause::Deontic {
            sender: -1i32,
            receiver: -1i32,
            relativization_type: RelativizationType::Global,
            action,
            deontic_type,
            penalty: Clause::spec_wrap(penalty),
            composition: None,
        },
        RelativizationType::Relativized => Clause::Deontic {
            sender: relation.0,
            receiver: -1i32,
            relativization_type: RelativizationType::Relativized,
            action,
            deontic_type,
            penalty: Clause::spec_wrap(penalty),
            composition: None,
        },
        RelativizationType::Directed => Clause::Deontic {
            sender: relation.0,
            receiver: relation.1,
            relativization_type: relativization_of(relation.0, relation.1),
            action,
            deontic_type,
            penalty: Clause::spec_wrap(penalty),
            composition: None,
        },
    }
}

/// The dynamic clause of the given relativization.
pub open spec fn dynamic_of(relation: (i32, i32, RelativizationType), action: Action, inner: Clause) -> Clause {
    match relation.2 {
        RelativizationType::Global => Clause::Dynamic {
            sender: -1i32,
            receiver: -1i32,
            relativization_type: RelativizationType::Global,
            action,
            clause: Arc::new(inner),
            composition: None,
        },
        RelativizationType::Relativized => Clause::Dynamic {
            sender: relation.0,
            receiver: -1i32,
            relativization_type: RelativizationType::Relativized,
            action,
            clause: Arc::new(inner),
            composition: None,
        },
        RelativizationType::Directed => Clause::spec_dynamic_directed(
            relation.0,
            relation.1,
            action,
            inner,
        ),
    }
}

/// The name of the atom of a deontic type in messages.
pub open spec fn atom_name(deontic_type: DeonticClauseType) -> Seq<char> {
    match deontic_type {
        DeonticClauseType::Obligation => "co_atom"@,
        DeonticClauseType::Permission => "cp_atom"@,
        DeonticClauseType::Prohibition => "cf_atom"@,
    }
}

/// The clause of one term of the given kind.
pub open spec fn spec_clause_term_of(p: ParsePair, terms: ClauseTerms, keys: Seq<(Seq<char>, SymbolType)>) -> Parsed<
    Clause,
>
    decreases p, 3int, 0nat,
{
    match terms {
        ClauseTerms::Clause => spec_build_clause_term(p, keys),
        ClauseTerms::Co => spec_deontic_atom(p, DeonticClauseType::Obligation, keys),
        ClauseTerms::Cp => spec_deontic_atom(p, DeonticClauseType::Permission, keys),
        ClauseTerms::Cf => spec_build_cf_term(p, keys),
    }
}

/// The clause of terms joined by connectives: a right-leaning list.
pub open spec fn spec_infix(p: ParsePair, terms: ClauseTerms, keys: Seq<(Seq<char>, SymbolType)>) -> Parsed<
    Clause,
>
    decreases p, 1int, 0nat,
{
    if p.inner@.len() == 0 {
        fail("Incomplete infix tree: expected left term."@, keys)
    } else {
        let first = spec_clause_term_of(p.inner@[0], terms, keys);
        match first.value {
            Err(_) => first,
            Ok(t) => spec_infix_from(p, terms, 1, seq![t], Seq::empty(), first.keys),
        }
    }
}

/// The clause of the terms `built` and the terms from position `i` on.
pub open spec fn spec_infix_from(
    p: ParsePair,
    terms: ClauseTerms,
    i: nat,
    built: Seq<Clause>,
    ops: Seq<ClauseCompositionType>,
    keys: Seq<(Seq<char>, SymbolType)>,
) -> Parsed<Clause>
    decreases p, 0int, p.inner@.len() - i,
{
    if i >= p.inner@.len() {
        done(spec_fold(built, ops, 0), keys)
    } else if i + 1 >= p.inner@.len() {
        fail(
            "Incomplete infix tree: expected right term after operator "@ + p.inner@[i as int].rule@
                + "."@,
            keys,
        )
    } else {
        let right = spec_clause_term_of(p.inner@[i as int + 1], terms, keys);
        match right.value {
            Err(_) => right,
            Ok(r) => match connective_named(p.inner@[i as int].rule@) {
                None => fail("Unknown clause operator: "@ + p.inner@[i as int].rule@, right.keys),
                Some(c) => spec_infix_from(p, terms, i + 2, built.push(r), ops.push(c), right.keys),
            },
        }
    }
}

/// The clause of a clause term: an obligation, permission, prohibition or dynamic
/// clause, true, false, or a clause in brackets.
pub open spec fn spec_build_clause_term(p: ParsePair, keys: Seq<(Seq<char>, SymbolType)>) -> Parsed<Clause>
    decreases p, 2int, 0nat,
{
    if p.inner@.len() == 0 {
        fail("Empty clause term."@, keys)
    } else if p.inner@[0].rule@ == "co"@ {
        spec_infix(p.inner@[0], ClauseTerms::Co, keys)
    } else if p.inner@[0].rule@ == "cp"@ {
        spec_infix(p.inner@[0], ClauseTerms::Cp, keys)
    } else if p.inner@[0].rule@ == "cf"@ {
        spec_infix(p.inner@[0], ClauseTerms::Cf, keys)
    } else if p.inner@[0].rule@ == "cd"@ {
        spec_build_cd(p.inner@[0], keys)
    } else if p.inner@[0].rule@ == "T"@ {
        done(Clause::spec_boolean(true), keys)
    } else if p.inner@[0].rule@ == "F"@ {
        done(Clause::spec_boolean(false), keys)
    } else if p.inner@[0].rule@ == "OPEN_EXP"@ {
        if p.inner@[0].inner@.len() < 2 {
            fail("Expected 'clause' inside '(...)'"@, keys)
        } else {
            spec_infix(p.inner@[0].inner@[1], ClauseTerms::Clause, keys)
        }
    } else {
        fail("Unexpected clause term: "@ + p.inner@[0].rule@, keys)
    }
}

/// The clause of a prohibition term: a dynamic clause or a prohibition.
pub open spec fn spec_build_cf_term(p: ParsePair, keys: Seq<(Seq<char>, SymbolType)>) -> Parsed<Clause>
    decreases p, 2int, 0nat,
{
    if p.inner@.len() == 0 {
        fail("Empty CF term."@, keys)
    } else if p.inner@[0].rule@ == "cd"@ {
        spec_build_cd(p.inner@[0], keys)
    } else if p.inner@[0].rule@ == "cf_atom"@ {
        spec_deontic_atom(p.inner@[0], DeonticClauseType::Prohibition, keys)
    } else {
        fail("Unexpected CF term: "@ + p.inner@[0].rule@, keys)
    }
}

/// The clause of a deontic atom: its relation, its action and, but for a permission,
/// its penalty.
pub open spec fn spec_deontic_atom(
    p: ParsePair,
    deontic_type: DeonticClauseType,
    keys: Seq<(Seq<char>, SymbolType)>,
) -> Parsed<Clause>
    decreases p, 2int, 0nat,
{
    if p.inner@.len() == 0 {
        fail("Missing 'rel' in '"@ + atom_name(deontic_type) + "'"@, keys)
    } else {
        let relation = spec_build_rel(p.inner@[0], keys);
        match relation.value {
            Err(_) => carry(relation),
            Ok(rel) => if p.inner@.len() < 4 {
                fail("Missing 'alpha' in '"@ + atom_name(deontic_type) + "'"@, relation.keys)
            } else {
                let action = spec_action_infix(p.inner@[3], ActionTerms::Alpha, relation.keys);
                match action.value {
                    Err(_) => carry(action),
                    Ok(a) => if deontic_type == DeonticClauseType::Permission {
                        done(deontic_of(rel, a, deontic_type, None), action.keys)
                    } else if p.inner@.len() < 6 {
                        fail(
                            "Missing 'penalty' in '"@ + atom_name(deontic_type) + "'"@,
                            action.keys,
                        )
                    } else {
                        let penalty = spec_build_penalty(p.inner@[5], action.keys);
                        match penalty.value {
                            Err(_) => penalty,
                            Ok(pen) => done(
                                deontic_of(rel, a, deontic_type, Some(pen)),
                                penalty.keys,
                            ),
                        }
                    },
                }
            },
        }
    }
}

/// The clause of a penalty: the clause between the penalty brackets, or false where
/// there is none.
pub open spec fn spec_build_penalty(p: ParsePair, keys: Seq<(Seq<char>, SymbolType)>) -> Parsed<Clause>
    decreases p, 2int, 0nat,
{
    if p.inner@.len() == 0 {
        done(Clause::spec_boolean(false), keys)
    } else if p.inner@[0].rule@ != "OPEN_PTY"@ {
        fail("Expected OPEN_PTY (_/), found "@ + p.inner@[0].rule@, keys)
    } else if p.inner@.len() < 2 {
        fail("Expected clause in penalty"@, keys)
    } else if p.inner@[1].rule@ != "clause"@ {
        fail("Expected 'clause', found "@ + p.inner@[1].rule@, keys)
    } else {
        let clause = spec_infix(p.inner@[1], ClauseTerms::Clause, keys);
        match clause.value {
            Err(_) => clause,
            Ok(c) => if p.inner@.len() < 3 {
                fail("Expected CLOSE_PTY (/_)"@, clause.keys)
            } else if p.inner@[2].rule@ != "CLOSE_PTY"@ {
                fail("Expected CLOSE_PTY (/_), found "@ + p.inner@[2].rule@, clause.keys)
            } else {
                clause
            },
        }
    }
}

/// The clause of a dynamic clause: its relation, its action in square brackets and,
/// in round brackets, the clause that follows the action; true where none is given.
pub open spec fn spec_build_cd(p: ParsePair, keys: Seq<(Seq<char>, SymbolType)>) -> Parsed<Clause>
    decreases p, 2int, 0nat,
{
    if p.inner@.len() == 0 {
        fail("Expected relation in cd"@, keys)
    } else {
        let relation = spec_build_rel(p.inner@[0], keys);
        match relation.value {
            Err(_) => carry(relation),
            Ok(rel) => if p.inner@.len() < 2 {
                fail("Expected '[' after relation in cd"@, relation.keys)
            } else if p.inner@[1].rule@ != "OPEN_DYN"@ {
                fail("Expected '[', found "@ + p.inner@[1].rule@, relation.keys)
            } else if p.inner@.len() < 3 {
                fail("Expected action (beta) in cd"@, relation.keys)
            } else {
                let action = spec_action_infix(p.inner@[2], ActionTerms::Beta, relation.keys);
                match action.value {
                    Err(_) => carry(action),
                    Ok(a) => if p.inner@.len() < 4 {
                        fail("Expected ']' after action in cd"@, action.keys)
                    } else if p.inner@[3].rule@ != "CLOSE_DYN"@ {
                        fail("Expected ']', found "@ + p.inner@[3].rule@, action.keys)
                    } else if p.inner@.len() < 5 {
                        done(dynamic_of(rel, a, Clause::spec_boolean(true)), action.keys)
                    } else if p.inner@[4].rule@ != "OPEN_EXP"@ {
                        fail("Expected '(' for compensation, found "@ + p.inner@[4].rule@, action.keys)
                    } else if p.inner@.len() < 6 {
                        fail("Expected clause in compensation"@, action.keys)
                    } else {
                        let inner = spec_infix(p.inner@[5], ClauseTerms::Clause, action.keys);
                        match inner.value {
                            Err(_) => inner,
                            Ok(c) => if p.inner@.len() < 7 {
                                fail("Expected ')' after compensation"@, inner.keys)
                            } else if p.inner@[6].rule@ != "CLOSE_EXP"@ {
                                fail("Expected ')', found "@ + p.inner@[6].rule@, inner.keys)
                            } else {
                                done(dynamic_of(rel, a, c), inner.keys)
                            },
                        }
                    },
                }
            },
        }
    }
}

fn make_deontic(
    relation: (i32, i32, RelativizationType),
    action: Action,
    deontic_type: DeonticClauseType,
    penalty: Option<Clause>,
) -> (r: Clause)
    ensures
        r == deontic_of(relation, action, deontic_type, penalty),
{
    match relation.2 {
        RelativizationType::Global => Clause::deontic_global(action, deontic_type, penalty),
        RelativizationType::Relativized => Clause::deontic_relativized(
            relation.0,
            action,
            deontic_type,
            penalty,
        ),
        RelativizationType::Directed => Clause::deontic_directed(
            relation.0,
            relation.1,
            action,
            deontic_type,
            penalty,
        ),
    }
}

fn make_dynamic(relation: (i32, i32, RelativizationType), action: Action, inner: Clause) -> (r: Clause)
    ensures
        r == dynamic_of(relation, action, inner),
{
    match relation.2 {
        RelativizationType::Global => Clause::dynamic_global(action, inner),
        RelativizationType::Relativized => Clause::dynamic_relativized(relation.0, action, inner),
        RelativizationType::Directed => Clause::dynamic_directed(
            relation.0,
            relation.1,
            action,
            inner,
        ),
    }
}

fn build_term(pair: &ParsePair, terms: ClauseTerms, table: &mut SymbolTable) -> (r: Result<
    Clause,
    AstError,
>)
    requires
        old(table).well_formed(),
    ensures
        final(table).well_formed(),
        agrees(r, final(table), spec_clause_term_of(*pair, terms, old(table).keys())),
    decreases *pair, 3int, 0nat,
{
    match terms {
        ClauseTerms::Clause => build_clause_term(pair, table),
        ClauseTerms::Co => build_co_atom(pair, table),
        ClauseTerms::Cp => build_cp_atom(pair, table),
        ClauseTerms::Cf => build_cf_term(pair, table),
    }
}

fn fold_terms(terms: Vec<Clause>, ops: Vec<ClauseCompositionType>) -> (r: Clause)
    requires
        terms@.len() == ops@.len() + 1,
    ensures
        r == spec_fold(terms@, ops@, 0),
{
    let mut terms = terms;
    let mut ops = ops;
    let ghost built = terms@;
    let ghost links = ops@;
    let mut current = match terms.pop() {
        Some(c) => c,
        None => Clause::boolean_false(),
    };
    proof {
        assert(terms@ =~= built.take(terms@.len() as int));
        assert(ops@ =~= links.take(ops@.len() as int));
    }
    while ops.len() > 0
        invariant
            terms@.len() == ops@.len(),
            ops@.len() <= links.len(),
            built.len() == links.len() + 1,
            terms@ == built.take(terms@.len() as int),
            ops@ == links.take(ops@.len() as int),
            current == spec_fold(built, links, terms@.len()),
        decreases ops.len(),
    {
        let ghost n = ops@.len();
        let op = match ops.pop() {
            Some(o) => o,
            None => ClauseCompositionType::And,
        };
        let mut prev = match terms.pop() {
            Some(c) => c,
            None => Clause::boolean_false(),
        };
        proof {
            assert(op == links[n - 1]);
            assert(prev == built[n - 1]);
            assert(terms@ =~= built.take(n - 1));
            assert(ops@ =~= links.take(n - 1));
        }
        prev.set_composition(ClauseComposition::new(op, current));
        current = prev;
    }
    current
}

#[verifier::loop_isolation(false)]
fn build_infix_tree(pair: &ParsePair, kind: ClauseTerms, table: &mut SymbolTable) -> (r: Result<
    Clause,
    AstError,
>)
    requires
        old(table).well_formed(),
    ensures
        final(table).well_formed(),
        agrees(r, final(table), spec_infix(*pair, kind, old(table).keys())),
    decreases *pair, 1int, 0nat,
{
    if pair.inner.len() == 0 {
        return build_error("Incomplete infix tree: expected left term.");
    }
    let first_term = match build_term(&pair.inner[0], kind, table) {
        Ok(t) => t,
        Err(e) => {
            return Err(e);
        },
    };
    let ghost goal = spec_infix(*pair, kind, old(table).keys());
    let mut terms: Vec<Clause> = Vec::new();
    terms.push(first_term);
    let mut ops: Vec<ClauseCompositionType> = Vec::new();
    proof {
        assert(terms@ =~= seq![first_term]);
        assert(ops@ =~= Seq::<ClauseCompositionType>::empty());
    }
    let mut i: usize = 1;
    while i < pair.inner.len()
        invariant
            1 <= i,
            table.well_formed(),
            terms@.len() == ops@.len() + 1,
            goal == spec_infix_from(*pair, kind, i as nat, terms@, ops@, table.keys()),
        decreases pair.inner.len() - i,
    {
        let op_pair = &pair.inner[i];
        if i + 1 >= pair.inner.len() {
            return rule_error_in(
                "Incomplete infix tree: expected right term after operator ",
                &op_pair.rule,
                ".",
            );
        }
        let right_term = match build_term(&pair.inner[i + 1], kind, table) {
            Ok(t) => t,
            Err(e) => {
                return Err(e);
            },
        };
        let comp_type = if is_rule(op_pair, "AND") {
            ClauseCompositionType::And
        } else if is_rule(op_pair, "OR") {
            ClauseCompositionType::Or
        } else if is_rule(op_pair, "XOR") {
            ClauseCompositionType::Xor
        } else {
            return rule_error("Unknown clause operator: ", &op_pair.rule);
        };
        ops.push(comp_type);
        terms.push(right_term);
        i += 2;
    }
    Ok(fold_terms(terms, ops))
}

pub fn build_clause(pair: &ParsePair, table: &mut SymbolTable) -> (r: Result<Clause, AstError>)
    requires
        old(table).well_formed(),
    ensures
        final(table).well_formed(),
        agrees(r, final(table), spec_infix(*pair, ClauseTerms::Clause, old(table).keys())),
    decreases *pair, 2int, 0nat,
{
    build_infix_tree(pair, ClauseTerms::Clause, table)
}

fn build_co(pair: &ParsePair, table: &mut SymbolTable) -> (r: Result<Clause, AstError>)
    requires
        old(table).well_formed(),
    ensures
        final(table).well_formed(),
        agrees(r, final(table), spec_infix(*pair, ClauseTerms::Co, old(table).keys())),
    decreases *pair, 2int, 0nat,
{
    build_infix_tree(pair, ClauseTerms::Co, table)
}

fn build_cp(pair: &ParsePair, table: &mut SymbolTable) -> (r: Result<Clause, AstError>)
    requires
        old(table).well_formed(),
    ensures
        final(table).well_formed(),
        agrees(r, final(table), spec_infix(*pair, ClauseTerms::Cp, old(table).keys())),
    decreases *pair, 2int, 0nat,
{
    build_infix_tree(pair, ClauseTerms::Cp, table)
}

fn build_cf(pair: &ParsePair, table: &mut SymbolTable) -> (r: Result<Clause, AstError>)
    requires
        old(table).well_formed(),
    ensures
        final(table).well_formed(),
        agrees(r, final(table), spec_infix(*pair, ClauseTerms::Cf, old(table).keys())),
    decreases *pair, 2int, 0nat,
{
    build_infix_tree(pair, ClauseTerms::Cf, table)
}

fn build_clause_term(pair: &ParsePair, table: &mut SymbolTable) -> (r: Result<Clause, AstError>)
    requires
        old(table).well_formed(),
    ensures
        final(table).well_formed(),
        agrees(r, final(table), spec_build_clause_term(*pair, old(table).keys())),
    decreases *pair, 2int, 0nat,
{
    if pair.inner.len() == 0 {
        return build_error("Empty clause term.");
    }
    let inner = &pair.inner[0];
    if is_rule(inner, "co") {
        build_co(inner, table)
    } else if is_rule(inner, "cp") {
        build_cp(inner, table)
    } else if is_rule(inner, "cf") {
        build_cf(inner, table)
    } else if is_rule(inner, "cd") {
        build_cd(inner, table)
    } else if is_rule(inner, "T") {
        Ok(Clause::boolean_true())
    } else if is_rule(inner, "F") {
        Ok(Clause::boolean_false())
    } else if is_rule(inner, "OPEN_EXP") {
        if inner.inner.len() < 2 {
            return build_error("Expected 'clause' inside '(...)'");
        }
        build_clause(&inner.inner[1], table)
    } else {
        rule_error("Unexpected clause term: ", &inner.rule)
    }
}

fn build_cf_term(pair: &ParsePair, table: &mut SymbolTable) -> (r: Result<Clause, AstError>)
    requires
        old(table).well_formed(),
    ensures
        final(table).well_formed(),
        agrees(r, final(table), spec_build_cf_term(*pair, old(table).keys())),
    decreases *pair, 2int, 0nat,
{
    if pair.inner.len() == 0 {
        return build_error("Empty CF term.");
    }
    let inner = &pair.inner[0];
    if is_rule(inner, "cd") {
        build_cd(inner, table)
    } else if is_rule(inner, "cf_atom") {
        build_cf_atom(inner, table)
    } else {
        rule_error("Unexpected CF term: ", &inner.rule)
    }
}

fn build_cd(pair: &ParsePair, table: &mut SymbolTable) -> (r: Result<Clause, AstError>)
    requires
        old(table).well_formed(),
    ensures
        final(table).well_formed(),
        agrees(r, final(table), spec_build_cd(*pair, old(table).keys())),
    decreases *pair, 2int, 0nat,
{
    if pair.inner.len() == 0 {
        return build_error("Expected relation in cd");
    }
    let relation = match build_rel(&pair.inner[0], table) {
        Ok(r) => r,
        Err(e) => {
            return Err(e);
        },
    };
    if pair.inner.len() < 2 {
        return build_error("Expected '[' after relation in cd");
    }
    if !is_rule(&pair.inner[1], "OPEN_DYN") {
        return rule_error("Expected '[', found ", &pair.inner[1].rule);
    }
    if pair.inner.len() < 3 {
        return build_error("Expected action (beta) in cd");
    }
    let action = match build_beta(&pair.inner[2], table) {
        Ok(a) => a,
        Err(e) => {
            return Err(e);
        },
    };
    if pair.inner.len() < 4 {
        return build_error("Expected ']' after action in cd");
    }
    if !is_rule(&pair.inner[3], "CLOSE_DYN") {
        return rule_error("Expected ']', found ", &pair.inner[3].rule);
    }
    let inner_clause = if pair.inner.len() >= 5 {
        if !is_rule(&pair.inner[4], "OPEN_EXP") {
            return rule_error("Expected '(' for compensation, found ", &pair.inner[4].rule);
        }
        if pair.inner.len() < 6 {
            return build_error("Expected clause in compensation");
        }
        let clause = match build_clause(&pair.inner[5], table) {
            Ok(c) => c,
            Err(e) => {
                return Err(e);
            },
        };
        if pair.inner.len() < 7 {
            return build_error("Expected ')' after compensation");
        }
        if !is_rule(&pair.inner[6], "CLOSE_EXP") {
            return rule_error("Expected ')', found ", &pair.inner[6].rule);
        }
        clause
    } else {
        Clause::boolean_true()
    };
    Ok(make_dynamic(relation, action, inner_clause))
}

fn atom_label(deontic_type: DeonticClauseType) -> (r: String)
    ensures
        r@ == atom_name(deontic_type),
{
    match deontic_type {
        DeonticClauseType::Obligation => String::from_str("co_atom"),
        DeonticClauseType::Permission => String::from_str("cp_atom"),
        DeonticClauseType::Prohibition => String::from_str("cf_atom"),
    }
}

fn build_deontic_atom(pair: &ParsePair, deontic_type: DeonticClauseType, table: &mut SymbolTable) -> (r:
    Result<Clause, AstError>)
    requires
        old(table).well_formed(),
    ensures
        final(table).well_formed(),
        agrees(r, final(table), spec_deontic_atom(*pair, deontic_type, old(table).keys())),
    decreases *pair, 2int, 1nat,
{
    if pair.inner.len() == 0 {
        return rule_error_in("Missing 'rel' in '", &atom_label(deontic_type), "'");
    }
    let relation = match build_rel(&pair.inner[0], table) {
        Ok(r) => r,
        Err(e) => {
            return Err(e);
        },
    };
    if pair.inner.len() < 4 {
        return rule_error_in("Missing 'alpha' in '", &atom_label(deontic_type), "'");
    }
    let action = match build_alpha(&pair.inner[3], table) {
        Ok(a) => a,
        Err(e) => {
            return Err(e);
        },
    };
    if deontic_type == DeonticClauseType::Permission {
        return Ok(make_deontic(relation, action, deontic_type, None));
    }
    if pair.inner.len() < 6 {
        return rule_error_in("Missing 'penalty' in '", &atom_label(deontic_type), "'");
    }
    let penalty = match build_penalty(&pair.inner[5], table) {
        Ok(p) => p,
        Err(e) => {
            return Err(e);
        },
    };
    Ok(make_deontic(relation, action, deontic_type, Some(penalty)))
}

fn build_co_atom(pair: &ParsePair, table: &mut SymbolTable) -> (r: Result<Clause, AstError>)
    requires
        old(table).well_formed(),
    ensures
        final(table).well_formed(),
        agrees(
            r,
            final(table),
            spec_deontic_atom(*pair, DeonticClauseType::Obligation, old(table).keys()),
        ),
    decreases *pair, 2int, 2nat,
{
    build_deontic_atom(pair, DeonticClauseType::Obligation, table)
}

fn build_cp_atom(pair: &ParsePair, table: &mut SymbolTable) -> (r: Result<Clause, AstError>)
    requires
        old(table).well_formed(),
    ensures
        final(table).well_formed(),
        agrees(
            r,
            final(table),
            spec_deontic_atom(*pair, DeonticClauseType::Permission, old(table).keys()),
        ),
    decreases *pair, 2int, 2nat,
{
    build_deontic_atom(pair, DeonticClauseType::Permission, table)
}

fn build_cf_atom(pair: &ParsePair, table: &mut SymbolTable) -> (r: Result<Clause, AstError>)
    requires
        old(table).well_formed(),
    ensures
        final(table).well_formed(),
        agrees(
            r,
            final(table),
            spec_deontic_atom(*pair, DeonticClauseType::Prohibition, old(table).keys()),
        ),
    decreases *pair, 2int, 2nat,
{
    build_deontic_atom(pair, DeonticClauseType::Prohibition, table)
}

fn build_penalty(pair: &ParsePair, table: &mut SymbolTable) -> (r: Result<Clause, AstError>)
    requires
        old(table).well_formed(),
    ensures
        final(table).well_formed(),
        agrees(r, final(table), spec_build_penalty(*pair, old(table).keys())),
    decreases *pair, 2int, 0nat,
{
    if pair.inner.len() == 0 {
        return Ok(Clause::boolean_false());
    }
    if !is_rule(&pair.inner[0], "OPEN_PTY") {
        return rule_error("Expected OPEN_PTY (_/), found ", &pair.inner[0].rule);
    }
    if pair.inner.len() < 2 {
        return build_error("Expected clause in penalty");
    }
    if !is_rule(&pair.inner[1], "clause") {
        return rule_error("Expected 'clause', found ", &pair.inner[1].rule);
    }
    let clause = match build_clause(&pair.inner[1], table) {
        Ok(c) => c,
        Err(e) => {
            return Err(e);
        },
    };
    if pair.inner.len() < 3 {
        return build_error("Expected CLOSE_PTY (/_)");
    }
    if !is_rule(&pair.inner[2], "CLOSE_PTY") {
        return rule_error("Expected CLOSE_PTY (/_), found ", &pair.inner[2].rule);
    }
    Ok(clause)
}

/// A contract as plain sequences.
pub struct ContractModel {
    pub clauses: Seq<Clause>,
    pub global_conflicts: Seq<Conflict>,
    pub relativized_conflicts: Seq<Conflict>,
    pub individuals: Seq<i32>,
    pub actions: Seq<BasicAction>,
}

/// The contract as plain sequences.
pub open spec fn model_of(c: Contract) -> ContractModel {
    ContractModel {
        clauses: c.clauses@,
        global_conflicts: c.global_conflicts@,
        relativized_conflicts: c.relativized_conflicts@,
        individuals: c.individuals@,
        actions: c.actions@,
    }
}

/// The contract without clauses and conflicts.
pub open spec fn empty_model() -> ContractModel {
    ContractModel {
        clauses: Seq::empty(),
        global_conflicts: Seq::empty(),
        relativized_conflicts: Seq::empty(),
        individuals: Seq::empty(),
        actions: Seq::empty(),
    }
}

/// The contract with one more clause, and with the individuals and actions that the
/// clause names.
pub open spec fn with_clause(m: ContractModel, clause: Clause) -> ContractModel {
    ContractModel {
        clauses: insert_distinct(m.clauses, clause),
        individuals: extend_distinct(m.individuals, clause_individuals(clause)),
        actions: extend_distinct(m.actions, clause_actions(clause)),
        ..m
    }
}

/// The contract with more conflicts of one type.
pub open spec fn with_conflicts(m: ContractModel, conflict_type: ConflictType, conflicts: Seq<Conflict>) -> ContractModel {
    match conflict_type {
        ConflictType::Global => ContractModel { global_conflicts: conflicts, ..m },
        ConflictType::Relativized => ContractModel { relativized_conflicts: conflicts, ..m },
    }
}

/// The conflicts of one type.
pub open spec fn conflicts_of(m: ContractModel, conflict_type: ConflictType) -> Seq<Conflict> {
    match conflict_type {
        ConflictType::Global => m.global_conflicts,
        ConflictType::Relativized => m.relativized_conflicts,
    }
}

/// The two actions of a conflict pair.
pub open spec fn spec_build_cf_pair(p: ParsePair, keys: Seq<(Seq<char>, SymbolType)>) -> Parsed<
    (BasicAction, BasicAction),
> {
    if p.inner@.len() < 1 {
        fail("Missing ID1 in cfPair"@, keys)
    } else if p.inner@.len() < 2 {
        fail("Missing ID2 in cfPair"@, keys)
    } else {
        let first = spec_intern(p.inner@[0].text@, SymbolType::Action, keys);
        match first.value {
            Err(_) => carry(first),
            Ok(a) => {
                let second = spec_intern(p.inner@[1].text@, SymbolType::Action, first.keys);
                match second.value {
                    Err(_) => carry(second),
                    Ok(b) => done(
                        (BasicAction::spec_with_value(a), BasicAction::spec_with_value(b)),
                        second.keys,
                    ),
                }
            },
        }
    }
}

/// `conflicts` and the conflicts of the pairs of a block from position `i` on.
pub open spec fn spec_block_from(
    body: ParsePair,
    conflict_type: ConflictType,
    i: nat,
    conflicts: Seq<Conflict>,
    keys: Seq<(Seq<char>, SymbolType)>,
) -> Parsed<Seq<Conflict>>
    decreases body.inner@.len() - i,
{
    if i >= body.inner@.len() {
        done(conflicts, keys)
    } else if body.inner@[i as int].rule@ == "cfPair"@ {
        let pair = spec_build_cf_pair(body.inner@[i as int], keys);
        match pair.value {
            Err(_) => carry(pair),
            Ok(ab) => spec_block_from(
                body,
                conflict_type,
                i + 1,
                conflicts.push(Conflict { a: ab.0, b: ab.1, conflict_type }),
                pair.keys,
            ),
        }
    } else {
        spec_block_from(body, conflict_type, i + 1, conflicts, keys)
    }
}

/// The contract `m` with the conflicts of the blocks of a conflict body from position
/// `i` on.
pub open spec fn spec_bodies_from(
    part: ParsePair,
    i: nat,
    m: ContractModel,
    keys: Seq<(Seq<char>, SymbolType)>,
) -> Parsed<ContractModel>
    decreases part.inner@.len() - i,
{
    if i >= part.inner@.len() {
        done(m, keys)
    } else if part.inner@[i as int].rule@ == "cfGlobal_block"@ || part.inner@[i as int].rule@
        == "cfRel_block"@ {
        let conflict_type = if part.inner@[i as int].rule@ == "cfGlobal_block"@ {
            ConflictType::Global
        } else {
            ConflictType::Relativized
        };
        let block = spec_block_from(
            part.inner@[i as int],
            conflict_type,
            0,
            conflicts_of(m, conflict_type),
            keys,
        );
        match block.value {
            Err(_) => carry(block),
            Ok(conflicts) => spec_bodies_from(
                part,
                i + 1,
                with_conflicts(m, conflict_type, conflicts),
                block.keys,
            ),
        }
    } else {
        spec_bodies_from(part, i + 1, m, keys)
    }
}

/// The contract `m` with the conflicts of the conflict bodies of a conflict section
/// from position `i` on.
pub open spec fn spec_conflict_from(
    section: ParsePair,
    i: nat,
    m: ContractModel,
    keys: Seq<(Seq<char>, SymbolType)>,
) -> Parsed<ContractModel>
    decreases section.inner@.len() - i,
{
    if i >= section.inner@.len() {
        done(m, keys)
    } else if section.inner@[i as int].rule@ == "conflict_body"@ {
        let body = spec_bodies_from(section.inner@[i as int], 0, m, keys);
        match body.value {
            Err(_) => body,
            Ok(next) => spec_conflict_from(section, i + 1, next, body.keys),
        }
    } else {
        spec_conflict_from(section, i + 1, m, keys)
    }
}

/// The contract `m` with the conflicts and clauses of a contract from position `i` on.
pub open spec fn spec_contract_from(
    p: ParsePair,
    i: nat,
    m: ContractModel,
    keys: Seq<(Seq<char>, SymbolType)>,
) -> Parsed<ContractModel>
    decreases p.inner@.len() - i,
{
    if i >= p.inner@.len() {
        done(m, keys)
    } else if p.inner@[i as int].rule@ == "conflict"@ {
        let section = spec_conflict_from(p.inner@[i as int], 0, m, keys);
        match section.value {
            Err(_) => section,
            Ok(next) => spec_contract_from(p, i + 1, next, section.keys),
        }
    } else if p.inner@[i as int].rule@ == "clause"@ {
        let clause = spec_infix(p.inner@[i as int], ClauseTerms::Clause, keys);
        match clause.value {
            Err(_) => carry(clause),
            Ok(c) => spec_contract_from(p, i + 1, with_clause(m, c), clause.keys),
        }
    } else if p.inner@[i as int].rule@ == "EOI"@ || p.inner@[i as int].rule@ == "END"@ {
        spec_contract_from(p, i + 1, m, keys)
    } else {
        fail("Unexpected rule in contract: "@ + p.inner@[i as int].rule@, keys)
    }
}

/// The contract of a parse tree: the first node inside the main node, read as a
/// contract.
pub open spec fn spec_build_ast(p: ParsePair, keys: Seq<(Seq<char>, SymbolType)>) -> Parsed<
    ContractModel,
> {
    if p.rule@ != "main"@ {
        Parsed {
            value: Err(AstErrorView::UnexpectedRule { expected: "main"@, found: p.rule@ }),
            keys,
        }
    } else if p.inner@.len() == 0 {
        fail("Empty contract file."@, keys)
    } else {
        spec_contract_from(p.inner@[0], 0, empty_model(), keys)
    }
}

/// Whether the contract that was built, and the symbol table afterwards, are what was
/// to be built.
pub open spec fn contract_agrees(
    r: Result<Contract, AstError>,
    table: &SymbolTable,
    expected: Parsed<ContractModel>,
) -> bool {
    &&& table.keys() == expected.keys
    &&& match (r, expected.value) {
        (Ok(c), Ok(m)) => model_of(c) == m,
        (Err(e), Err(v)) => e.view() == v,
        _ => false,
    }
}

fn build_cf_pair(pair: &ParsePair, table: &mut SymbolTable) -> (r: Result<
    (BasicAction, BasicAction),
    AstError,
>)
    requires
        old(table).well_formed(),
    ensures
        final(table).well_formed(),
        agrees(r, final(table), spec_build_cf_pair(*pair, old(table).keys())),
{
    if pair.inner.len() < 1 {
        return build_error("Missing ID1 in cfPair");
    }
    if pair.inner.len() < 2 {
        return build_error("Missing ID2 in cfPair");
    }
    let act1_id = match intern(table, &pair.inner[0].text, SymbolType::Action) {
        Ok(id) => id,
        Err(e) => {
            return Err(e);
        },
    };
    let act2_id = match intern(table, &pair.inner[1].text, SymbolType::Action) {
        Ok(id) => id,
        Err(e) => {
            return Err(e);
        },
    };
    Ok((BasicAction::with_value(act1_id), BasicAction::with_value(act2_id)))
}

#[verifier::loop_isolation(false)]
fn build_conflict_block(
    body: &ParsePair,
    conflict_type: ConflictType,
    conflicts: &mut Vec<Conflict>,
    table: &mut SymbolTable,
) -> (r: Result<(), AstError>)
    requires
        old(table).well_formed(),
    ensures
        final(table).well_formed(),
        final(table).keys() == spec_block_from(
            *body,
            conflict_type,
            0,
            old(conflicts)@,
            old(table).keys(),
        ).keys,
        match (r, spec_block_from(*body, conflict_type, 0, old(conflicts)@, old(table).keys()).value) {
            (Ok(_), Ok(all)) => final(conflicts)@ == all,
            (Err(e), Err(v)) => e.view() == v,
            _ => false,
        },
{
    let ghost goal = spec_block_from(*body, conflict_type, 0, old(conflicts)@, old(table).keys());
    let mut i: usize = 0;
    while i < body.inner.len()
        invariant
            table.well_formed(),
            goal == spec_block_from(*body, conflict_type, i as nat, conflicts@, table.keys()),
        decreases body.inner.len() - i,
    {
        if is_rule(&body.inner[i], "cfPair") {
            let (act1, act2) = match build_cf_pair(&body.inner[i], table) {
                Ok(ab) => ab,
                Err(e) => {
                    return Err(e);
                },
            };
            conflicts.push(Conflict::new(act1, act2, conflict_type));
        }
        i += 1;
    }
    Ok(())
}

#[verifier::loop_isolation(false)]
fn build_conflict_bodies(part: &ParsePair, contract: &mut Contract, table: &mut SymbolTable) -> (r: Result<
    (),
    AstError,
>)
    requires
        old(table).well_formed(),
    ensures
        final(table).well_formed(),
        final(table).keys() == spec_bodies_from(
            *part,
            0,
            model_of(*old(contract)),
            old(table).keys(),
        ).keys,
        match (r, spec_bodies_from(*part, 0, model_of(*old(contract)), old(table).keys()).value) {
            (Ok(_), Ok(m)) => model_of(*final(contract)) == m,
            (Err(e), Err(v)) => e.view() == v,
            _ => false,
        },
{
    let ghost goal = spec_bodies_from(*part, 0, model_of(*old(contract)), old(table).keys());
    let mut i: usize = 0;
    while i < part.inner.len()
        invariant
            table.well_formed(),
            goal == spec_bodies_from(*part, i as nat, model_of(*contract), table.keys()),
        decreases part.inner.len() - i,
    {
        let body = &part.inner[i];
        if is_rule(body, "cfGlobal_block") {
            match build_conflict_block(
                body,
                ConflictType::Global,
                &mut contract.global_conflicts,
                table,
            ) {
                Ok(()) => {},
                Err(e) => {
                    return Err(e);
                },
            }
        } else if is_rule(body, "cfRel_block") {
            match build_conflict_block(
                body,
                ConflictType::Relativized,
                &mut contract.relativized_conflicts,
                table,
            ) {
                Ok(()) => {},
                Err(e) => {
                    return Err(e);
                },
            }
        }
        i += 1;
    }
    Ok(())
}

#[verifier::loop_isolation(false)]
fn build_conflicts(section: &ParsePair, contract: &mut Contract, table: &mut SymbolTable) -> (r: Result<
    (),
    AstError,
>)
    requires
        old(table).well_formed(),
    ensures
        final(table).well_formed(),
        final(table).keys() == spec_conflict_from(
            *section,
            0,
            model_of(*old(contract)),
            old(table).keys(),
        ).keys,
        match (r, spec_conflict_from(*section, 0, model_of(*old(contract)), old(table).keys()).value) {
            (Ok(_), Ok(m)) => model_of(*final(contract)) == m,
            (Err(e), Err(v)) => e.view() == v,
            _ => false,
        },
{
    let ghost goal = spec_conflict_from(*section, 0, model_of(*old(contract)), old(table).keys());
    let mut i: usize = 0;
    while i < section.inner.len()
        invariant
            table.well_formed(),
            goal == spec_conflict_from(*section, i as nat, model_of(*contract), table.keys()),
        decreases section.inner.len() - i,
    {
        if is_rule(&section.inner[i], "conflict_body") {
            match build_conflict_bodies(&section.inner[i], contract, table) {
                Ok(()) => {},
                Err(e) => {
                    return Err(e);
                },
            }
        }
        i += 1;
    }
    Ok(())
}

#[verifier::loop_isolation(false)]
fn build_contract(pair: &ParsePair, table: &mut SymbolTable) -> (r: Result<Contract, AstError>)
    requires
        old(table).well_formed(),
    ensures
        final(table).well_formed(),
        contract_agrees(
            r,
            final(table),
            spec_contract_from(*pair, 0, empty_model(), old(table).keys()),
        ),
{
    let mut contract = Contract::new();
    let ghost goal = spec_contract_from(*pair, 0, empty_model(), old(table).keys());
    proof {
        assert(model_of(contract).clauses =~= empty_model().clauses);
        assert(model_of(contract).global_conflicts =~= empty_model().global_conflicts);
        assert(model_of(contract).relativized_conflicts =~= empty_model().relativized_conflicts);
        assert(model_of(contract).individuals =~= empty_model().individuals);
        assert(model_of(contract).actions =~= empty_model().actions);
    }
    let mut i: usize = 0;
    while i < pair.inner.len()
        invariant
            table.well_formed(),
            goal == spec_contract_from(*pair, i as nat, model_of(contract), table.keys()),
        decreases pair.inner.len() - i,
    {
        let inner_pair = &pair.inner[i];
        if is_rule(inner_pair, "conflict") {
            match build_conflicts(inner_pair, &mut contract, table) {
                Ok(()) => {},
                Err(e) => {
                    return Err(e);
                },
            }
        } else if is_rule(inner_pair, "clause") {
            let clause = match build_clause(inner_pair, table) {
                Ok(c) => c,
                Err(e) => {
                    return Err(e);
                },
            };
            contract.add_clause(clause);
        } else if is_rule(inner_pair, "EOI") || is_rule(inner_pair, "END") {
        } else {
            return rule_error("Unexpected rule in contract: ", &inner_pair.rule);
        }
        i += 1;
    }
    Ok(contract)
}

/// Builds the contract of a parse tree and enters its individuals and actions into the
/// symbol table.
pub fn build_ast(pair: &ParsePair, table: &mut SymbolTable) -> (r: Result<Contract, AstError>)
    requires
        old(table).well_formed(),
    ensures
        final(table).well_formed(),
        contract_agrees(r, final(table), spec_build_ast(*pair, old(table).keys())),
{
    if !is_rule(pair, "main") {
        return Err(
            AstError::UnexpectedRule {
                expected: String::from_str("main"),
                found: pair.rule.clone(),
            },
        );
    }
    if pair.inner.len() == 0 {
        return build_error("Empty contract file.");
    }
    build_contract(&pair.inner[0], table)
}

} // verus!
