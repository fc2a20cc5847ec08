use crate::algorithms::firing::{firings, push_firings};
use crate::model::actions::{Action, ActionOperator, RelativizedAction};
use crate::model::contracts::{
    Clause, ClauseComposition, ClauseCompositionType, DeonticClauseType, RelativizationType,
};
use crate::utils::ordered::{distinct, distinct_items, holds};
use std::sync::Arc;
use vstd::prelude::*;

verus! {

/// The composition that joins a clause to `other` by `connective`.
pub open spec fn link(connective: ClauseCompositionType, other: Clause) -> Option<ClauseComposition> {
    Some(ClauseComposition { composition_type: connective, other: Arc::new(other) })
}

/// The deontic clause `c` with another action and composition.
pub open spec fn deontic_like(c: Clause, action: Action, composition: Option<ClauseComposition>) -> Clause {
    match c {
        Clause::Deontic { sender, receiver, relativization_type, deontic_type, penalty, .. } => {
            Clause::Deontic {
                sender,
                receiver,
                relativization_type,
                action,
                deontic_type,
                penalty,
                composition,
            }
        },
        _ => c,
    }
}

/// The dynamic clause `c` with another action, inner clause and composition.
pub open spec fn dynamic_like(
    c: Clause,
    action: Action,
    inner: Clause,
    composition: Option<ClauseComposition>,
) -> Clause {
    match c {
        Clause::Dynamic { sender, receiver, relativization_type, .. } => Clause::Dynamic {
            sender,
            receiver,
            relativization_type,
            action,
            clause: Arc::new(inner),
            composition,
        },
        _ => c,
    }
}

/// The connective between the two halves of a split deontic clause: a prohibition of
/// a choice or of concurrent actions forbids both, a prohibition of a sequence forbids
/// the first action or, after it, the second; an obligation or permission follows the
/// operator.
pub open spec fn deontic_connective(
    deontic_type: DeonticClauseType,
    operator: ActionOperator,
) -> ClauseCompositionType {
    match deontic_type {
        DeonticClauseType::Prohibition => match operator {
            ActionOperator::Sequence => ClauseCompositionType::Or,
            _ => ClauseCompositionType::And,
        },
        _ => match operator {
            ActionOperator::Choice => ClauseCompositionType::Or,
            _ => ClauseCompositionType::And,
        },
    }
}

/// One rewriting step on a deontic clause over a composed action. The composition of
/// the clause moves to the last clause of the result. A clause that no rule applies
/// to is returned as it is.
pub open spec fn spec_process_deontic(c: Clause) -> Clause {
    match c {
        Clause::Deontic {
            sender,
            receiver,
            action: Action::Composed(composed),
            deontic_type,
            composition,
            ..
        } => match (composed.left, composed.right) {
            (Some(l), Some(r)) => {
                let connective = deontic_connective(deontic_type, composed.operator);
                match composed.operator {
                    ActionOperator::Concurrency | ActionOperator::Choice => deontic_like(
                        c,
                        *l,
                        link(connective, deontic_like(c, *r, composition)),
                    ),
                    ActionOperator::Sequence => deontic_like(
                        c,
                        *l,
                        link(
                            connective,
                            Clause::spec_dynamic_directed(
                                sender,
                                receiver,
                                *l,
                                deontic_like(c, *r, None),
                            ).with_composition(composition),
                        ),
                    ),
                    _ => c,
                }
            },
            _ => c,
        },
        _ => c,
    }
}

/// One rewriting step on a dynamic clause whose action is a negation.
pub open spec fn spec_process_negation(c: Clause) -> Clause {
    match c {
        Clause::Dynamic { action: Action::Composed(composed), clause, composition, .. } => {
            match composed.left {
                Some(x) => match *x {
                    Action::Basic(b) => dynamic_like(
                        c,
                        Action::Basic(b.spec_negate()),
                        *clause,
                        composition,
                    ),
                    Action::Composed(inner) => match (inner.left, inner.right) {
                        (Some(l), Some(r)) => match inner.operator {
                            ActionOperator::Sequence => dynamic_like(
                                c,
                                Action::spec_negation(*l),
                                dynamic_like(c, Action::spec_negation(*r), *clause, None),
                                composition,
                            ),
                            ActionOperator::Concurrency => dynamic_like(
                                c,
                                Action::spec_negation(*l),
                                *clause,
                                link(
                                    ClauseCompositionType::And,
                                    dynamic_like(c, Action::spec_negation(*r), *clause, composition),
                                ),
                            ),
                            ActionOperator::Choice => dynamic_like(
                                c,
                                Action::spec_negation(*l),
                                *clause,
                                link(
                                    ClauseCompositionType::Or,
                                    dynamic_like(c, Action::spec_negation(*r), *clause, composition),
                                ),
                            ),
                            _ => c,
                        },
                        _ => c,
                    },
                },
                None => Clause::spec_boolean(false),
            }
        },
        _ => c,
    }
}

/// One rewriting step on a dynamic clause over a composed action. A star is unrolled
/// once: the inner clause, its own composition replaced, and then the star again after
/// one more round.
pub open spec fn spec_process_dynamic(c: Clause) -> Clause {
    match c {
        Clause::Dynamic { action: Action::Composed(composed), clause, composition, .. } => {
            match composed.operator {
                ActionOperator::Star => match composed.left {
                    Some(l) => clause.with_composition(
                        link(ClauseCompositionType::And, dynamic_like(c, *l, c, composition)),
                    ),
                    None => c,
                },
                ActionOperator::Sequence => match (composed.left, composed.right) {
                    (Some(l), Some(r)) => dynamic_like(
                        c,
                        *l,
                        dynamic_like(c, *r, *clause, None),
                        composition,
                    ),
                    _ => c,
                },
                ActionOperator::Choice => match (composed.left, composed.right) {
                    (Some(l), Some(r)) => dynamic_like(
                        c,
                        *l,
                        *clause,
                        link(ClauseCompositionType::And, dynamic_like(c, *r, *clause, composition)),
                    ),
                    _ => c,
                },
                ActionOperator::Negation => spec_process_negation(c),
                _ => c,
            }
        },
        _ => c,
    }
}

/// One rewriting step on the head of `c`; a head over a basic action stays.
pub open spec fn spec_process_single(c: Clause) -> Clause {
    match c {
        Clause::Boolean { .. } => c,
        Clause::Deontic { action, .. } => if action is Basic {
            c
        } else {
            spec_process_deontic(c)
        },
        Clause::Dynamic { action, .. } => if action is Basic {
            c
        } else {
            spec_process_dynamic(c)
        },
    }
}

/// `clause` with `new_clause` attached by `connective` behind the last clause of its
/// spine.
pub open spec fn spec_append_composition(
    clause: Clause,
    new_clause: Clause,
    connective: ClauseCompositionType,
) -> Clause
    decreases clause,
{
    match clause.composition() {
        Some(comp) => clause.with_composition(
            link(
                comp.composition_type,
                spec_append_composition(*comp.other, new_clause, connective),
            ),
        ),
        None => clause.with_composition(link(connective, new_clause)),
    }
}

/// Whether processing a dynamic clause over `a` comes to process the head of its inner
/// clause as well: an unrolled star does, a sequence does where both parts do, a choice
/// where either part does.
pub open spec fn opens(a: Action) -> bool
    decreases a,
{
    match a {
        Action::Basic(_) => false,
        Action::Composed(c) => match c.operator {
            ActionOperator::Star => match c.left {
                Some(l) => !opens(*l),
                None => false,
            },
            ActionOperator::Sequence => match (c.left, c.right) {
                (Some(l), Some(r)) => opens(*l) && opens(*r),
                _ => false,
            },
            ActionOperator::Choice => match (c.left, c.right) {
                (Some(l), Some(r)) => opens(*l) || opens(*r),
                _ => false,
            },
            ActionOperator::Negation => match c.left {
                Some(x) => opens_negated(*x),
                None => false,
            },
            _ => false,
        },
    }
}

/// [`opens`] for the negation of `x`.
pub open spec fn opens_negated(x: Action) -> bool
    decreases x,
{
    match x {
        Action::Basic(_) => false,
        Action::Composed(c) => match (c.left, c.right) {
            (Some(l), Some(r)) => match c.operator {
                ActionOperator::Sequence => opens_negated(*l) && opens_negated(*r),
                ActionOperator::Concurrency | ActionOperator::Choice => opens_negated(*l)
                    || opens_negated(*r),
                _ => false,
            },
            _ => false,
        },
    }
}

/// A star whose body opens the inner clause: unrolling it would come back to the same
/// clause without end, so it is never unrolled when a step is taken.
pub open spec fn blocked(c: Clause) -> bool {
    match c {
        Clause::Dynamic { action: Action::Composed(composed), .. } => composed.operator
            == ActionOperator::Star && match composed.left {
            Some(l) => opens(*l),
            None => false,
        },
        _ => false,
    }
}

/// Whether a step rewrites the head `c` before it takes its residual.
pub open spec fn reducible(c: Clause) -> bool {
    !blocked(c) && spec_process_single(c) != c
}

/// How much rewriting the negation of `x`, over an inner clause of weight `k`, can take.
pub open spec fn negation_weight(x: Action, k: nat) -> nat
    decreases x,
{
    match x {
        Action::Basic(_) => 0,
        Action::Composed(c) => match (c.left, c.right) {
            (Some(l), Some(r)) => match c.operator {
                ActionOperator::Sequence => 2 + negation_weight(*l, 1 + negation_weight(*r, k)),
                ActionOperator::Concurrency | ActionOperator::Choice => 4 + negation_weight(*l, k)
                    + negation_weight(*r, k),
                _ => 0,
            },
            _ => 0,
        },
    }
}

/// How much rewriting a dynamic clause over `a`, with an inner clause of weight `k`,
/// can take.
pub open spec fn dynamic_weight(a: Action, k: nat) -> nat
    decreases a,
{
    match a {
        Action::Basic(_) => 0,
        Action::Composed(c) => match c.operator {
            ActionOperator::Star => match c.left {
                Some(l) => if opens(*l) {
                    0
                } else {
                    2 + k + dynamic_weight(*l, 0)
                },
                None => 0,
            },
            ActionOperator::Sequence => match (c.left, c.right) {
                (Some(l), Some(r)) => 1 + dynamic_weight(*l, dynamic_weight(*r, k)),
                _ => 0,
            },
            ActionOperator::Choice => match (c.left, c.right) {
                (Some(l), Some(r)) => 2 + dynamic_weight(*l, k) + dynamic_weight(*r, k),
                _ => 0,
            },
            ActionOperator::Negation => match c.left {
                Some(x) => 1 + negation_weight(*x, k),
                None => 1,
            },
            _ => 0,
        },
    }
}

/// How much rewriting a deontic clause over `a` can take.
pub open spec fn deontic_weight(a: Action) -> nat
    decreases a,
{
    match a {
        Action::Basic(_) => 0,
        Action::Composed(c) => match (c.left, c.right) {
            (Some(l), Some(r)) => match c.operator {
                ActionOperator::Concurrency | ActionOperator::Choice => 2 + deontic_weight(*l)
                    + deontic_weight(*r),
                ActionOperator::Sequence => 2 + deontic_weight(*l) + dynamic_weight(
                    *l,
                    deontic_weight(*r),
                ),
                _ => 0,
            },
            _ => 0,
        },
    }
}

/// The weight of the head of `c`: a bound on the rewriting that one step does on it.
pub open spec fn head_weight(c: Clause) -> nat
    decreases c,
{
    match c {
        Clause::Boolean { .. } => 0,
        Clause::Deontic { action, .. } => deontic_weight(action),
        Clause::Dynamic { action, clause, .. } => dynamic_weight(action, head_weight(*clause)),
    }
}

/// The weight of the whole spine of `c`.
pub open spec fn spine_weight(c: Clause) -> nat
    decreases c,
{
    head_weight(c) + match c.composition() {
        Some(comp) => 1 + spine_weight(*comp.other),
        None => 0,
    }
}

/// Where an action does not open the inner clause, its weight does not depend on the
/// weight of that clause.
pub proof fn lemma_negation_weight_independent(x: Action, k1: nat, k2: nat)
    requires
        !opens_negated(x),
    ensures
        negation_weight(x, k1) == negation_weight(x, k2),
    decreases x,
{
    match x {
        Action::Basic(_) => {},
        Action::Composed(c) => match (c.left, c.right) {
            (Some(l), Some(r)) => match c.operator {
                ActionOperator::Sequence => {
                    if !opens_negated(*l) {
                        lemma_negation_weight_independent(
                            *l,
                            1 + negation_weight(*r, k1),
                            1 + negation_weight(*r, k2),
                        );
                    } else {
                        lemma_negation_weight_independent(*r, k1, k2);
                    }
                },
                ActionOperator::Concurrency | ActionOperator::Choice => {
                    lemma_negation_weight_independent(*l, k1, k2);
                    lemma_negation_weight_independent(*r, k1, k2);
                },
                _ => {},
            },
            _ => {},
        },
    }
}

/// Where an action does not open the inner clause, its weight does not depend on the
/// weight of that clause.
pub proof fn lemma_dynamic_weight_independent(a: Action, k1: nat, k2: nat)
    requires
        !opens(a),
    ensures
        dynamic_weight(a, k1) == dynamic_weight(a, k2),
    decreases a,
{
    match a {
        Action::Basic(_) => {},
        Action::Composed(c) => match c.operator {
            ActionOperator::Sequence => match (c.left, c.right) {
                (Some(l), Some(r)) => {
                    if !opens(*l) {
                        lemma_dynamic_weight_independent(
                            *l,
                            dynamic_weight(*r, k1),
                            dynamic_weight(*r, k2),
                        );
                    } else {
                        lemma_dynamic_weight_independent(*r, k1, k2);
                    }
                },
                _ => {},
            },
            ActionOperator::Choice => match (c.left, c.right) {
                (Some(l), Some(r)) => {
                    lemma_dynamic_weight_independent(*l, k1, k2);
                    lemma_dynamic_weight_independent(*r, k1, k2);
                },
                _ => {},
            },
            ActionOperator::Negation => match c.left {
                Some(x) => {
                    lemma_negation_weight_independent(*x, k1, k2);
                },
                None => {},
            },
            _ => {},
        },
    }
}

/// The weight of a spine of two clauses.
pub proof fn lemma_weight_of_pair(x: Clause, connective: ClauseCompositionType, y: Clause)
    requires
        y.composition().is_none(),
    ensures
        spine_weight(x.with_composition(link(connective, y))) == head_weight(x) + 1 + head_weight(y),
        head_weight(x.with_composition(link(connective, y))) == head_weight(x),
{
    let z = x.with_composition(link(connective, y));
    assert(z.composition() == link(connective, y));
    assert(*z.composition().unwrap().other == y);
    assert(spine_weight(y) == head_weight(y));
    assert(head_weight(z) == head_weight(x));
}

/// The inner clause of a dynamic clause.
pub open spec fn dynamic_inner(c: Clause) -> Clause {
    match c {
        Clause::Dynamic { clause, .. } => *clause,
        _ => c,
    }
}

/// A rewriting step on a head makes the clause lighter.
pub proof fn lemma_step_weight(h: Clause)
    requires
        h.composition().is_none(),
        reducible(h),
    ensures
        spine_weight(spec_process_single(h)) < head_weight(h),
{
    let p = spec_process_single(h);
    match h {
        Clause::Boolean { .. } => {},
        Clause::Deontic { sender, receiver, action, .. } => {
            match action {
                Action::Basic(_) => {},
                Action::Composed(composed) => match (composed.left, composed.right) {
                    (Some(l), Some(r)) => {
                        let connective = deontic_connective(h->deontic_type, composed.operator);
                        match composed.operator {
                            ActionOperator::Concurrency | ActionOperator::Choice => {
                                let y = deontic_like(h, *r, None);
                                let x = deontic_like(h, *l, None);
                                assert(p == x.with_composition(link(connective, y)));
                                lemma_weight_of_pair(x, connective, y);
                            },
                            ActionOperator::Sequence => {
                                let inner = deontic_like(h, *r, None);
                                let y = Clause::spec_dynamic_directed(sender, receiver, *l, inner);
                                let x = deontic_like(h, *l, None);
                                assert(y.with_composition(None) == y);
                                assert(p == x.with_composition(link(connective, y)));
                                assert(head_weight(inner) == deontic_weight(*r));
                                assert(head_weight(y) == dynamic_weight(*l, head_weight(inner)));
                                lemma_weight_of_pair(x, connective, y);
                            },
                            _ => {},
                        }
                    },
                    _ => {},
                },
            }
        },
        Clause::Dynamic { action, .. } => {
            let psi = dynamic_inner(h);
            let k = head_weight(psi);
            match action {
                Action::Basic(_) => {},
                Action::Composed(composed) => match composed.operator {
                    ActionOperator::Star => match composed.left {
                        Some(l) => {
                            let y = dynamic_like(h, *l, h, None);
                            assert(p == psi.with_composition(link(ClauseCompositionType::And, y)));
                            lemma_weight_of_pair(psi, ClauseCompositionType::And, y);
                            assert(head_weight(y) == dynamic_weight(*l, head_weight(h)));
                            lemma_dynamic_weight_independent(*l, head_weight(h), 0);
                        },
                        None => {},
                    },
                    ActionOperator::Sequence => match (composed.left, composed.right) {
                        (Some(l), Some(r)) => {
                            let inner = dynamic_like(h, *r, psi, None);
                            assert(p == dynamic_like(h, *l, inner, None));
                            assert(head_weight(inner) == dynamic_weight(*r, k));
                            assert(head_weight(p) == dynamic_weight(*l, head_weight(inner)));
                            assert(spine_weight(p) == head_weight(p));
                        },
                        _ => {},
                    },
                    ActionOperator::Choice => match (composed.left, composed.right) {
                        (Some(l), Some(r)) => {
                            let x = dynamic_like(h, *l, psi, None);
                            let y = dynamic_like(h, *r, psi, None);
                            assert(p == x.with_composition(link(ClauseCompositionType::And, y)));
                            lemma_weight_of_pair(x, ClauseCompositionType::And, y);
                        },
                        _ => {},
                    },
                    ActionOperator::Negation => match composed.left {
                        Some(x) => match *x {
                            Action::Basic(b) => {
                                assert(p == dynamic_like(
                                    h,
                                    Action::Basic(b.spec_negate()),
                                    psi,
                                    None,
                                ));
                                assert(spine_weight(p) == head_weight(p));
                            },
                            Action::Composed(inner) => match (inner.left, inner.right) {
                                (Some(l), Some(r)) => match inner.operator {
                                    ActionOperator::Sequence => {
                                        let nl = Action::spec_negation(*l);
                                        let nr = Action::spec_negation(*r);
                                        let mid = dynamic_like(h, nr, psi, None);
                                        assert(p == dynamic_like(h, nl, mid, None));
                                        assert(head_weight(mid) == dynamic_weight(nr, k));
                                        assert(dynamic_weight(nr, k) == 1 + negation_weight(*r, k));
                                        assert(head_weight(p) == dynamic_weight(nl, head_weight(mid)));
                                        assert(dynamic_weight(nl, head_weight(mid)) == 1
                                            + negation_weight(*l, head_weight(mid)));
                                        assert(spine_weight(p) == head_weight(p));
                                    },
                                    ActionOperator::Concurrency | ActionOperator::Choice => {
                                        let nl = Action::spec_negation(*l);
                                        let nr = Action::spec_negation(*r);
                                        let connective = if inner.operator
                                            == ActionOperator::Concurrency {
                                            ClauseCompositionType::And
                                        } else {
                                            ClauseCompositionType::Or
                                        };
                                        let x1 = dynamic_like(h, nl, psi, None);
                                        let y1 = dynamic_like(h, nr, psi, None);
                                        assert(p == x1.with_composition(link(connective, y1)));
                                        lemma_weight_of_pair(x1, connective, y1);
                                        assert(dynamic_weight(nl, k) == 1 + negation_weight(*l, k));
                                        assert(dynamic_weight(nr, k) == 1 + negation_weight(*r, k));
                                    },
                                    _ => {},
                                },
                                _ => {},
                            },
                        },
                        None => {
                            assert(p == Clause::spec_boolean(false));
                            assert(spine_weight(p) == head_weight(p));
                        },
                    },
                    _ => {},
                },
            }
        },
    }
}

/// The head of `c` elaborated: rewritten, and what the rewriting gives rewritten again,
/// until no rule applies to any clause that came of it. A star that would unroll
/// without end stays as it is.
pub open spec fn spec_elaborate_single(c: Clause) -> Clause
    decreases head_weight(c), 0int,
{
    let h = c.head();
    if reducible(h) {
        proof {
            lemma_step_weight(h);
        }
        spec_elaborate(spec_process_single(h))
    } else {
        h
    }
}

/// The clause `c` elaborated: every clause of its spine elaborated, and the results
/// joined again by the connectives of `c`, each behind the last clause of what stands
/// before it.
pub open spec fn spec_elaborate(c: Clause) -> Clause
    decreases spine_weight(c), 1int,
{
    match c.composition() {
        Some(comp) => spec_append_composition(
            spec_elaborate_single(c.head()),
            spec_elaborate(*comp.other),
            comp.composition_type,
        ),
        None => spec_elaborate_single(c),
    }
}

/// The Boolean that two Booleans combine to.
pub open spec fn spec_evaluate_boolean(v1: bool, v2: bool, connective: ClauseCompositionType) -> Clause {
    Clause::spec_boolean(
        match connective {
            ClauseCompositionType::And => v1 && v2,
            ClauseCompositionType::Or => v1 || v2,
            ClauseCompositionType::Xor => v1 != v2,
            ClauseCompositionType::Absent => false,
        },
    )
}

/// A clause combined with a Boolean: a conjunction with true is the clause, with false
/// is false; a disjunction keeps the Boolean behind the clause.
pub open spec fn spec_combine_clause(c1: Clause, c2: Clause, connective: ClauseCompositionType) -> Clause {
    match c2 {
        Clause::Boolean { value, .. } => match connective {
            ClauseCompositionType::And => if value {
                c1
            } else {
                c2
            },
            ClauseCompositionType::Or | ClauseCompositionType::Xor => c1.with_composition(
                link(connective, c2),
            ),
            ClauseCompositionType::Absent => c1,
        },
        _ => c1,
    }
}

/// The two residuals joined again: Booleans are evaluated or absorbed; of two other
/// clauses the first is dropped where the second holds it already down its spine.
pub open spec fn spec_combine(c1: Clause, c2: Clause, connective: ClauseCompositionType) -> Clause {
    if c1 is Boolean && c2 is Boolean {
        spec_evaluate_boolean(c1->value, c2->value, connective)
    } else if c1 is Boolean {
        spec_combine_clause(c2, c1, connective)
    } else if c2 is Boolean {
        spec_combine_clause(c1, c2, connective)
    } else if c2.spec_contains(connective, c1) {
        c2
    } else {
        c1.with_composition(link(connective, c2))
    }
}

/// Whether some chosen action is one of the clause's.
pub open spec fn intersects(chosen: Seq<RelativizedAction>, of_clause: Seq<RelativizedAction>) -> bool {
    exists|x: RelativizedAction| chosen.contains(x) && of_clause.contains(x)
}

/// Whether every action of the clause was chosen.
pub open spec fn covers(chosen: Seq<RelativizedAction>, of_clause: Seq<RelativizedAction>) -> bool {
    forall|x: RelativizedAction| of_clause.contains(x) ==> chosen.contains(x)
}

/// The penalty of a deontic clause, or false where it has none.
pub open spec fn penalty_or_false(c: Clause) -> Clause {
    match c {
        Clause::Deontic { penalty: Some(p), .. } => *p,
        _ => Clause::spec_boolean(false),
    }
}

/// The individuals over which clauses are read, each once, and whether an individual's
/// actions towards itself are left out when there is more than one individual.
pub struct Roster {
    pub ids: Seq<i32>,
    pub ignore_self_actions: bool,
}

/// Computes what is left of a clause after a set of relativized actions.
pub struct ClauseDecomposer {
    individuals: Vec<i32>,
    ignore_self_actions: bool,
}

impl ClauseDecomposer {
    /// The individuals, each once, in the order given.
    pub closed spec fn individuals(&self) -> Seq<i32> {
        self.individuals@
    }

    /// Whether an individual's actions towards itself are left out when there is more
    /// than one individual.
    pub closed spec fn ignore_self_actions(&self) -> bool {
        self.ignore_self_actions
    }

    /// The individuals and the setting that the residuals are taken over.
    pub closed spec fn roster(&self) -> Roster {
        Roster { ids: self.individuals@, ignore_self_actions: self.ignore_self_actions }
    }

    pub fn new(individuals: Vec<i32>, ignore_self_actions: bool) -> (d: Self)
        ensures
            d.individuals() == distinct(individuals@),
            d.ignore_self_actions() == ignore_self_actions,
            d.roster() == (Roster { ids: distinct(individuals@), ignore_self_actions }),
    {
        ClauseDecomposer { individuals: distinct_items(&individuals), ignore_self_actions }
    }

    fn deontic_with(clause: &Clause, action: &Action, composition: Option<ClauseComposition>) -> (r:
        Clause)
        requires
            clause is Deontic,
        ensures
            r == deontic_like(*clause, *action, composition),
    {
        match clause {
            Clause::Deontic { sender, receiver, relativization_type, deontic_type, penalty, .. } => {
                let p = match penalty {
                    Some(p) => Some((&**p).clone()),
                    None => None,
                };
                let mut r = Clause::deontic_directed(
                    *sender,
                    *receiver,
                    action.clone(),
                    *deontic_type,
                    p,
                );
                match &mut r {
                    Clause::Deontic { relativization_type: t, composition: c, .. } => {
                        *t = *relativization_type;
                        *c = composition;
                    },
                    _ => {},
                }
                r
            },
            _ => clause.clone(),
        }
    }

    fn dynamic_with(
        clause: &Clause,
        action: Action,
        inner: Clause,
        composition: Option<ClauseComposition>,
    ) -> (r: Clause)
        requires
            clause is Dynamic,
        ensures
            r == dynamic_like(*clause, action, inner, composition),
    {
        match clause {
            Clause::Dynamic { sender, receiver, relativization_type, .. } => Clause::Dynamic {
                sender: *sender,
                receiver: *receiver,
                relativization_type: *relativization_type,
                action,
                clause: Arc::new(inner),
                composition,
            },
            _ => clause.clone(),
        }
    }

    fn composition_of(clause: &Clause) -> (r: Option<ClauseComposition>)
        ensures
            r == clause.composition(),
    {
        match clause.get_composition() {
            Some(c) => Some(c.clone()),
            None => None,
        }
    }

    fn inner_of(clause: &Clause) -> (r: Clause)
        requires
            clause is Dynamic,
        ensures
            Arc::new(r) == clause->clause,
    {
        match clause {
            Clause::Dynamic { clause: inner, .. } => (&**inner).clone(),
            _ => clause.clone(),
        }
    }

    fn process_composed_obligation(clause: &Clause) -> (r: Clause)
        ensures
            clause is Deontic && (clause->Deontic_action) is Composed ==> r == spec_process_deontic(
                *clause,
            ),
    {
        Self::split_deontic(clause)
    }

    fn process_composed_prohibition(clause: &Clause) -> (r: Clause)
        ensures
            clause is Deontic && (clause->Deontic_action) is Composed ==> r == spec_process_deontic(
                *clause,
            ),
    {
        Self::split_deontic(clause)
    }

    fn process_composed_permission(clause: &Clause) -> (r: Clause)
        ensures
            clause is Deontic && (clause->Deontic_action) is Composed ==> r == spec_process_deontic(
                *clause,
            ),
    {
        Self::process_composed_obligation(clause)
    }

    /// The split of a deontic clause over a binary action into two clauses; the
    /// connective between them depends on the deontic type and the operator.
    fn split_deontic(clause: &Clause) -> (r: Clause)
        ensures
            r == spec_process_deontic(*clause),
    {
        if let Clause::Deontic { sender, receiver, action, deontic_type, .. } = clause {
            if let Action::Composed(composed) = action {
                if let (Some(left), Some(right)) = (&composed.left, &composed.right) {
                    let connective = match deontic_type {
                        DeonticClauseType::Prohibition => match composed.operator {
                            ActionOperator::Sequence => ClauseCompositionType::Or,
                            _ => ClauseCompositionType::And,
                        },
                        _ => match composed.operator {
                            ActionOperator::Choice => ClauseCompositionType::Or,
                            _ => ClauseCompositionType::And,
                        },
                    };
                    match composed.operator {
                        ActionOperator::Concurrency | ActionOperator::Choice => {
                            let c2 = Self::deontic_with(
                                clause,
                                &**right,
                                Self::composition_of(clause),
                            );
                            return Self::deontic_with(
                                clause,
                                &**left,
                                Some(ClauseComposition::new(connective, c2)),
                            );
                        },
                        ActionOperator::Sequence => {
                            let c2 = Self::deontic_with(clause, &**right, None);
                            let mut cd = Clause::dynamic_directed(
                                *sender,
                                *receiver,
                                (&**left).clone(),
                                c2,
                            );
                            if let Some(comp) = clause.get_composition() {
                                cd.set_composition(comp.clone());
                            }
                            return Self::deontic_with(
                                clause,
                                &**left,
                                Some(ClauseComposition::new(connective, cd)),
                            );
                        },
                        _ => {},
                    }
                }
            }
        }
        clause.clone()
    }

    pub fn process_deontic_composed_actions(clause: &Clause) -> (r: Clause)
        ensures
            r == (if clause is Deontic && (clause->Deontic_action) is Composed {
                spec_process_deontic(*clause)
            } else {
                *clause
            }),
    {
        if let Clause::Deontic { action, deontic_type, .. } = clause {
            if let Action::Composed(_composed) = action {
                return match deontic_type {
                    DeonticClauseType::Obligation => Self::process_composed_obligation(clause),
                    DeonticClauseType::Prohibition => Self::process_composed_prohibition(clause),
                    DeonticClauseType::Permission => Self::process_composed_permission(clause),
                };
            }
        }
        clause.clone()
    }

    fn process_negation_composed_actions(clause: &Clause) -> (r: Clause)
        ensures
            r == spec_process_negation(*clause),
    {
        if let Clause::Dynamic { action, .. } = clause {
            if let Action::Composed(composed) = action {
                if let Some(left) = &composed.left {
                    match &**left {
                        Action::Basic(ba) => {
                            return Self::dynamic_with(
                                clause,
                                Action::Basic(ba.negate()),
                                Self::inner_of(clause),
                                Self::composition_of(clause),
                            );
                        },
                        Action::Composed(inner) => {
                            if let (Some(l), Some(r)) = (&inner.left, &inner.right) {
                                match inner.operator {
                                    ActionOperator::Sequence => {
                                        let c1 = Self::dynamic_with(
                                            clause,
                                            Action::negation((&**r).clone()),
                                            Self::inner_of(clause),
                                            None,
                                        );
                                        return Self::dynamic_with(
                                            clause,
                                            Action::negation((&**l).clone()),
                                            c1,
                                            Self::composition_of(clause),
                                        );
                                    },
                                    ActionOperator::Concurrency | ActionOperator::Choice => {
                                        let connective = match inner.operator {
                                            ActionOperator::Concurrency => ClauseCompositionType::And,
                                            _ => ClauseCompositionType::Or,
                                        };
                                        let c2 = Self::dynamic_with(
                                            clause,
                                            Action::negation((&**r).clone()),
                                            Self::inner_of(clause),
                                            Self::composition_of(clause),
                                        );
                                        return Self::dynamic_with(
                                            clause,
                                            Action::negation((&**l).clone()),
                                            Self::inner_of(clause),
                                            Some(ClauseComposition::new(connective, c2)),
                                        );
                                    },
                                    _ => {},
                                }
                            }
                        },
                    }
                } else {
                    return Clause::boolean_false();
                }
            }
        }
        clause.clone()
    }

    pub fn process_dynamic_composed_actions(clause: &Clause) -> (r: Clause)
        ensures
            r == spec_process_dynamic(*clause),
    {
        if let Clause::Dynamic { action, .. } = clause {
            if let Action::Composed(composed) = action {
                match composed.operator {
                    ActionOperator::Star => {
                        if let Some(left) = &composed.left {
                            let dc = Self::dynamic_with(
                                clause,
                                (&**left).clone(),
                                clause.clone(),
                                Self::composition_of(clause),
                            );
                            let mut clause2 = Self::inner_of(clause);
                            clause2.set_composition(
                                ClauseComposition::new(ClauseCompositionType::And, dc),
                            );
                            return clause2;
                        }
                    },
                    ActionOperator::Sequence => {
                        if let (Some(left), Some(right)) = (&composed.left, &composed.right) {
                            let c1 = Self::dynamic_with(
                                clause,
                                (&**right).clone(),
                                Self::inner_of(clause),
                                None,
                            );
                            return Self::dynamic_with(
                                clause,
                                (&**left).clone(),
                                c1,
                                Self::composition_of(clause),
                            );
                        }
                    },
                    ActionOperator::Choice => {
                        if let (Some(left), Some(right)) = (&composed.left, &composed.right) {
                            let c2 = Self::dynamic_with(
                                clause,
                                (&**right).clone(),
                                Self::inner_of(clause),
                                Self::composition_of(clause),
                            );
                            return Self::dynamic_with(
                                clause,
                                (&**left).clone(),
                                Self::inner_of(clause),
                                Some(ClauseComposition::new(ClauseCompositionType::And, c2)),
                            );
                        }
                    },
                    ActionOperator::Negation => {
                        return Self::process_negation_composed_actions(clause);
                    },
                    _ => {},
                }
            }
        }
        clause.clone()
    }

    pub fn process_single_composed_actions(clause: &Clause) -> (r: Clause)
        ensures
            r == spec_process_single(*clause),
    {
        match clause {
            Clause::Boolean { .. } => clause.clone(),
            Clause::Deontic { action, .. } => {
                if let Action::Basic(_) = action {
                    clause.clone()
                } else {
                    Self::process_deontic_composed_actions(clause)
                }
            },
            Clause::Dynamic { action, .. } => {
                if let Action::Basic(_) = action {
                    clause.clone()
                } else {
                    Self::process_dynamic_composed_actions(clause)
                }
            },
        }
    }

    fn append_composition(clause: Clause, new_clause: Clause, comp_type: ClauseCompositionType) -> (r:
        Clause)
        ensures
            r == spec_append_composition(clause, new_clause, comp_type),
        decreases clause,
    {
        let mut clause = clause;
        let link = match clause.get_composition() {
            Some(comp) => {
                let other = (&*comp.other).clone();
                let updated = Self::append_composition(other, new_clause, comp_type);
                ClauseComposition::new(comp.composition_type, updated)
            },
            None => ClauseComposition::new(comp_type, new_clause),
        };
        clause.set_composition(link);
        clause
    }

    /// Elaborates a clause that stands alone.
    fn elaborate_single(clause: &Clause) -> (r: Clause)
        requires
            clause.composition().is_none(),
        ensures
            r == spec_elaborate_single(*clause),
        decreases head_weight(*clause), 0int,
    {
        proof {
            assert(clause.head() == *clause);
        }
        if Self::is_blocked(clause) {
            return clause.clone();
        }
        let rewritten = Self::process_single_composed_actions(clause);
        if rewritten.equals(clause) {
            return rewritten;
        }
        proof {
            lemma_step_weight(*clause);
        }
        Self::process_composed_actions(&rewritten)
    }

    /// Elaborates `clause`: rewrites every clause of the spine that stands over a
    /// composed action until no rule applies any more.
    pub fn process_composed_actions(clause: &Clause) -> (r: Clause)
        ensures
            r == spec_elaborate(*clause),
        decreases spine_weight(*clause), 1int,
    {
        if let Some(comp) = clause.get_composition() {
            let mut clause_copy = clause.clone();
            clause_copy.set_composition_to_none();
            let c1 = Self::elaborate_single(&clause_copy);
            let c2 = Self::process_composed_actions(&*comp.other);
            Self::append_composition(c1, c2, comp.composition_type)
        } else {
            Self::elaborate_single(clause)
        }
    }

    /// Whether firings of an individual towards itself are left out.
    pub open spec fn ignores_self(roster: Roster) -> bool {
        roster.ids.len() > 1 && roster.ignore_self_actions
    }

    /// The relativized actions of the head of `c`.
    pub open spec fn head_firings(roster: Roster, c: Clause) -> Seq<RelativizedAction> {
        match c {
            Clause::Deontic { sender, receiver, relativization_type, action, .. }
            | Clause::Dynamic { sender, receiver, relativization_type, action, .. } => firings(
                sender,
                receiver,
                relativization_type,
                action.spec_basic_actions(),
                roster.ids,
                Self::ignores_self(roster),
            ),
            Clause::Boolean { .. } => Seq::empty(),
        }
    }

    /// Whether the chosen actions fulfil the head of `c`: for a relativized head one
    /// of its actions is enough, for a global or directed head all are needed.
    pub open spec fn fulfilled(roster: Roster, c: Clause, chosen: Seq<RelativizedAction>) -> bool {
        match c {
            Clause::Deontic { relativization_type, .. } | Clause::Dynamic { relativization_type, .. } => {
                if relativization_type == RelativizationType::Relativized {
                    intersects(chosen, Self::head_firings(roster, c))
                } else {
                    covers(chosen, Self::head_firings(roster, c))
                }
            },
            Clause::Boolean { .. } => false,
        }
    }

    /// What is left of a deontic head over a basic action once `chosen` was performed.
    pub open spec fn deontic_residual(roster: Roster, c: Clause, chosen: Seq<RelativizedAction>) -> Clause {
        match c {
            Clause::Deontic { action: Action::Basic(b), deontic_type, .. } => {
                if b.violation || b.skip {
                    match deontic_type {
                        DeonticClauseType::Obligation => if b.skip {
                            Clause::spec_boolean(true)
                        } else {
                            penalty_or_false(c)
                        },
                        DeonticClauseType::Prohibition => if b.violation {
                            Clause::spec_boolean(true)
                        } else {
                            penalty_or_false(c)
                        },
                        DeonticClauseType::Permission => Clause::spec_boolean(true),
                    }
                } else {
                    match deontic_type {
                        DeonticClauseType::Obligation => if Self::fulfilled(roster, c, chosen) {
                            Clause::spec_boolean(true)
                        } else {
                            penalty_or_false(c)
                        },
                        DeonticClauseType::Prohibition => if !intersects(
                            chosen,
                            Self::head_firings(roster, c),
                        ) {
                            Clause::spec_boolean(true)
                        } else {
                            penalty_or_false(c)
                        },
                        DeonticClauseType::Permission => Clause::spec_boolean(true),
                    }
                }
            },
            _ => c,
        }
    }

    /// What is left of a dynamic head over a basic action once `chosen` was performed:
    /// the inner clause where the action fired (for a negated action: where it did
    /// not), else true.
    pub open spec fn dynamic_residual(roster: Roster, c: Clause, chosen: Seq<RelativizedAction>) -> Clause {
        match c {
            Clause::Dynamic { action: Action::Basic(b), clause, .. } => {
                if b.skip {
                    *clause
                } else if Self::fulfilled(roster, c, chosen) != b.negation {
                    *clause
                } else {
                    Clause::spec_boolean(true)
                }
            },
            _ => c,
        }
    }

    /// What is left of the head of `c` once `chosen` was performed. A head over a
    /// composed action is rewritten first, as long as a rule applies to it.
    pub open spec fn residual_single(roster: Roster, c: Clause, chosen: Seq<RelativizedAction>) -> Clause
        decreases head_weight(c), 0int,
    {
        let h = c.head();
        match h {
            Clause::Boolean { .. } => h,
            Clause::Deontic { action, .. } => if action is Basic {
                Self::deontic_residual(roster, h, chosen)
            } else if reducible(h) {
                proof {
                    lemma_step_weight(h);
                }
                Self::residual(roster, spec_process_single(h), chosen)
            } else {
                h
            },
            Clause::Dynamic { action, .. } => if action is Basic {
                Self::dynamic_residual(roster, h, chosen)
            } else if reducible(h) {
                proof {
                    lemma_step_weight(h);
                }
                Self::residual(roster, spec_process_single(h), chosen)
            } else {
                h
            },
        }
    }

    /// The clause that remains of `c` once the actions `chosen` were performed
    /// together: the residual of each clause of the spine, combined by the connectives
    /// of `c`.
    pub open spec fn residual(roster: Roster, c: Clause, chosen: Seq<RelativizedAction>) -> Clause
        decreases spine_weight(c), 1int,
    {
        match c.composition() {
            Some(comp) => spec_combine(
                Self::residual_single(roster, c.head(), chosen),
                Self::residual(roster, *comp.other, chosen),
                comp.composition_type,
            ),
            None => Self::residual_single(roster, c, chosen),
        }
    }

    fn opens_negated(x: &Action) -> (b: bool)
        ensures
            b == opens_negated(*x),
        decreases *x,
    {
        match x {
            Action::Basic(_) => false,
            Action::Composed(c) => match (&c.left, &c.right) {
                (Some(l), Some(r)) => match c.operator {
                    ActionOperator::Sequence => Self::opens_negated(&**l) && Self::opens_negated(
                        &**r,
                    ),
                    ActionOperator::Concurrency | ActionOperator::Choice => Self::opens_negated(&**l)
                        || Self::opens_negated(&**r),
                    _ => false,
                },
                _ => false,
            },
        }
    }

    fn opens(a: &Action) -> (b: bool)
        ensures
            b == opens(*a),
        decreases *a,
    {
        match a {
            Action::Basic(_) => false,
            Action::Composed(c) => match c.operator {
                ActionOperator::Star => match &c.left {
                    Some(l) => !Self::opens(&**l),
                    None => false,
                },
                ActionOperator::Sequence => match (&c.left, &c.right) {
                    (Some(l), Some(r)) => Self::opens(&**l) && Self::opens(&**r),
                    _ => false,
                },
                ActionOperator::Choice => match (&c.left, &c.right) {
                    (Some(l), Some(r)) => Self::opens(&**l) || Self::opens(&**r),
                    _ => false,
                },
                ActionOperator::Negation => match &c.left {
                    Some(x) => Self::opens_negated(&**x),
                    None => false,
                },
                _ => false,
            },
        }
    }

    fn is_blocked(clause: &Clause) -> (b: bool)
        ensures
            b == blocked(*clause),
    {
        match clause {
            Clause::Dynamic { action: Action::Composed(composed), .. } => {
                composed.operator == ActionOperator::Star && match &composed.left {
                    Some(l) => Self::opens(&**l),
                    None => false,
                }
            },
            _ => false,
        }
    }

    fn any_common(chosen: &Vec<RelativizedAction>, of_clause: &Vec<RelativizedAction>) -> (b: bool)
        ensures
            b == intersects(chosen@, of_clause@),
    {
        let mut i: usize = 0;
        while i < chosen.len()
            invariant
                i <= chosen.len(),
                forall|k: int| 0 <= k < i ==> !of_clause@.contains(chosen@[k]),
            decreases chosen.len() - i,
        {
            if holds(of_clause, &chosen[i]) {
                proof {
                    assert(chosen@.contains(chosen@[i as int]));
                }
                return true;
            }
            i += 1;
        }
        proof {
            assert forall|x: RelativizedAction| chosen@.contains(x) implies !of_clause@.contains(x) by {
                let k = choose|k: int| 0 <= k < chosen@.len() && chosen@[k] == x;
            }
        }
        false
    }

    fn all_within(chosen: &Vec<RelativizedAction>, of_clause: &Vec<RelativizedAction>) -> (b: bool)
        ensures
            b == covers(chosen@, of_clause@),
    {
        let mut i: usize = 0;
        while i < of_clause.len()
            invariant
                i <= of_clause.len(),
                forall|k: int| 0 <= k < i ==> chosen@.contains(of_clause@[k]),
            decreases of_clause.len() - i,
        {
            if !holds(chosen, &of_clause[i]) {
                proof {
                    assert(of_clause@.contains(of_clause@[i as int]));
                }
                return false;
            }
            i += 1;
        }
        proof {
            assert forall|x: RelativizedAction| of_clause@.contains(x) implies chosen@.contains(x) by {
                let k = choose|k: int| 0 <= k < of_clause@.len() && of_clause@[k] == x;
            }
        }
        true
    }

    fn generate_relativized_actions(&self, clause: &Clause) -> (r: Vec<RelativizedAction>)
        ensures
            r@ == Self::head_firings(self.roster(), *clause),
    {
        let ignore = if self.individuals.len() > 1 {
            self.ignore_self_actions
        } else {
            false
        };
        let mut set: Vec<RelativizedAction> = Vec::new();
        match clause {
            Clause::Deontic { sender, receiver, relativization_type, action, .. }
            | Clause::Dynamic { sender, receiver, relativization_type, action, .. } => {
                let basic_actions = action.get_basic_actions();
                push_firings(
                    *sender,
                    *receiver,
                    *relativization_type,
                    &basic_actions,
                    &self.individuals,
                    ignore,
                    &mut set,
                );
                proof {
                    assert(set@ =~= Self::head_firings(self.roster(), *clause));
                }
            },
            Clause::Boolean { .. } => {},
        }
        set
    }

    fn is_fulfilled(&self, clause: &Clause, actions: &Vec<RelativizedAction>) -> (b: bool)
        requires
            !(clause is Boolean),
        ensures
            b == Self::fulfilled(self.roster(), *clause, actions@),
    {
        let clause_actions = self.generate_relativized_actions(clause);
        let relativized = match clause {
            Clause::Deontic { relativization_type, .. } | Clause::Dynamic { relativization_type, .. } => {
                *relativization_type == RelativizationType::Relativized
            },
            Clause::Boolean { .. } => false,
        };
        if relativized {
            Self::any_common(actions, &clause_actions)
        } else {
            Self::all_within(actions, &clause_actions)
        }
    }

    fn penalty_of(clause: &Clause) -> (r: Clause)
        ensures
            r == penalty_or_false(*clause),
    {
        match clause {
            Clause::Deontic { penalty: Some(p), .. } => (&**p).clone(),
            _ => Clause::boolean_false(),
        }
    }

    fn decompose_dynamic(&self, clause: &Clause, actions: &Vec<RelativizedAction>) -> (r: Clause)
        ensures
            r == Self::dynamic_residual(self.roster(), *clause, actions@),
    {
        if let Clause::Dynamic { action, clause: inner_clause, .. } = clause {
            if let Action::Basic(basic_action) = action {
                if basic_action.skip {
                    return (&**inner_clause).clone();
                }
                let mut sat = self.is_fulfilled(clause, actions);
                if basic_action.negation {
                    sat = !sat;
                }
                if sat {
                    return (&**inner_clause).clone();
                } else {
                    return Clause::boolean_true();
                }
            }
        }
        clause.clone()
    }

    fn decompose_deontic(&self, clause: &Clause, actions: &Vec<RelativizedAction>) -> (r: Clause)
        ensures
            r == Self::deontic_residual(self.roster(), *clause, actions@),
    {
        if let Clause::Deontic { action, deontic_type, .. } = clause {
            if let Action::Basic(basic_action) = action {
                if basic_action.violation || basic_action.skip {
                    return self.decompose_deontic_special(clause, actions);
                }
                return match deontic_type {
                    DeonticClauseType::Obligation => {
                        if self.is_fulfilled(clause, actions) {
                            Clause::boolean_true()
                        } else {
                            Self::penalty_of(clause)
                        }
                    },
                    DeonticClauseType::Prohibition => {
                        let clause_actions = self.generate_relativized_actions(clause);
                        if !Self::any_common(actions, &clause_actions) {
                            Clause::boolean_true()
                        } else {
                            Self::penalty_of(clause)
                        }
                    },
                    DeonticClauseType::Permission => Clause::boolean_true(),
                };
            }
        }
        clause.clone()
    }

    fn decompose_deontic_special(&self, clause: &Clause, _actions: &Vec<RelativizedAction>) -> (r:
        Clause)
        requires
            clause is Deontic,
            (clause->Deontic_action) is Basic,
            (clause->Deontic_action)->Basic_0.violation || (clause->Deontic_action)->Basic_0.skip,
        ensures
            r == Self::deontic_residual(self.roster(), *clause, _actions@),
    {
        if let Clause::Deontic { action, deontic_type, .. } = clause {
            if let Action::Basic(basic_action) = action {
                return match deontic_type {
                    DeonticClauseType::Obligation => {
                        if basic_action.skip {
                            Clause::boolean_true()
                        } else {
                            Self::penalty_of(clause)
                        }
                    },
                    DeonticClauseType::Prohibition => {
                        if basic_action.violation {
                            Clause::boolean_true()
                        } else {
                            Self::penalty_of(clause)
                        }
                    },
                    DeonticClauseType::Permission => Clause::boolean_true(),
                };
            }
        }
        clause.clone()
    }

    fn evaluate_boolean(&self, v1: bool, v2: bool, comp_type: ClauseCompositionType) -> (r: Clause)
        ensures
            r == spec_evaluate_boolean(v1, v2, comp_type),
    {
        let result = match comp_type {
            ClauseCompositionType::And => v1 && v2,
            ClauseCompositionType::Or => v1 || v2,
            ClauseCompositionType::Xor => (v1 && !v2) || (!v1 && v2),
            ClauseCompositionType::Absent => false,
        };
        if result {
            Clause::boolean_true()
        } else {
            Clause::boolean_false()
        }
    }

    fn combine_clause(&self, c1: Clause, c2: Clause, comp_type: ClauseCompositionType) -> (r: Clause)
        ensures
            r == spec_combine_clause(c1, c2, comp_type),
    {
        let value = match &c2 {
            Clause::Boolean { value, .. } => *value,
            _ => {
                return c1;
            },
        };
        match comp_type {
            ClauseCompositionType::And => {
                if value {
                    c1
                } else {
                    c2
                }
            },
            ClauseCompositionType::Or | ClauseCompositionType::Xor => {
                let mut result = c1;
                result.set_composition(ClauseComposition::new(comp_type, c2));
                result
            },
            ClauseCompositionType::Absent => c1,
        }
    }

    fn combine(&self, c1: Clause, c2: Clause, comp_type: ClauseCompositionType) -> (r: Clause)
        ensures
            r == spec_combine(c1, c2, comp_type),
    {
        let b1 = match &c1 {
            Clause::Boolean { value, .. } => Some(*value),
            _ => None,
        };
        let b2 = match &c2 {
            Clause::Boolean { value, .. } => Some(*value),
            _ => None,
        };
        match (b1, b2) {
            (Some(v1), Some(v2)) => self.evaluate_boolean(v1, v2, comp_type),
            (Some(_), None) => self.combine_clause(c2, c1, comp_type),
            (None, Some(_)) => self.combine_clause(c1, c2, comp_type),
            (None, None) => {
                if c2.contains(comp_type, &c1) {
                    c2
                } else {
                    let mut result = c1;
                    result.set_composition(ClauseComposition::new(comp_type, c2));
                    result
                }
            },
        }
    }

    fn decompose_single(&self, clause: &Clause, actions: &Vec<RelativizedAction>) -> (r: Clause)
        requires
            clause.composition().is_none(),
        ensures
            r == Self::residual_single(self.roster(), *clause, actions@),
        decreases head_weight(*clause), 0int,
    {
        proof {
            assert(clause.head() == *clause);
        }
        let composed = match clause {
            Clause::Boolean { .. } => {
                return clause.clone();
            },
            Clause::Deontic { action, .. } => Self::is_composed_action(action),
            Clause::Dynamic { action, .. } => Self::is_composed_action(action),
        };
        if composed {
            if Self::is_blocked(clause) {
                return clause.clone();
            }
            let processed = Self::process_single_composed_actions(clause);
            if processed.equals(clause) {
                return processed;
            }
            proof {
                lemma_step_weight(*clause);
            }
            self.decompose(&processed, actions)
        } else {
            match clause {
                Clause::Deontic { .. } => self.decompose_deontic(clause, actions),
                _ => self.decompose_dynamic(clause, actions),
            }
        }
    }

    /// The clause that remains of `clause` once the actions in `actions` were
    /// performed together.
    pub fn decompose(&self, clause: &Clause, actions: &Vec<RelativizedAction>) -> (r: Clause)
        ensures
            r == Self::residual(self.roster(), *clause, actions@),
        decreases spine_weight(*clause), 1int,
    {
        if let Some(comp) = clause.get_composition() {
            let mut clause_copy = clause.clone();
            clause_copy.set_composition_to_none();
            let c1 = self.decompose_single(&clause_copy, actions);
            let c2 = self.decompose(&*comp.other, actions);
            self.combine(c1, c2, comp.composition_type)
        } else {
            self.decompose_single(clause, actions)
        }
    }

    fn is_composed_action(action: &Action) -> (b: bool)
        ensures
            b == (action is Composed),
    {
        matches!(action, Action::Composed(_))
    }
}

} // verus!
