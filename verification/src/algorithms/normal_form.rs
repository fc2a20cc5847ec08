use crate::algorithms::clause_decomposer::{
    blocked, head_weight, lemma_step_weight, link, penalty_or_false, reducible,
    spec_append_composition, spec_combine, spec_elaborate, spec_elaborate_single,
    spec_process_single, spine_weight, ClauseDecomposer, Roster,
};
use crate::model::actions::{Action, ActionOperator, RelativizedAction};
use crate::model::contracts::{Clause, ClauseComposition, ClauseCompositionType};
use std::sync::Arc;
use vstd::prelude::*;

verus! {

/// Whether the clause is elaborated: no rewriting is left to do on any clause of its
/// spine. Each head is a Boolean, stands over a basic action, or stands over a
/// composed action for which there is no rule or which is a star that would unroll
/// without end.
pub open spec fn is_elaborated(c: Clause) -> bool
    decreases c,
{
    !reducible(c.head()) && rest_elaborated(c.composition())
}

/// [`is_elaborated`] for the clauses behind a composition.
pub open spec fn rest_elaborated(composition: Option<ClauseComposition>) -> bool
    decreases composition,
{
    match composition {
        Some(comp) => is_elaborated(*comp.other),
        None => true,
    }
}

/// The clause behind a composition, or `fallback` where there is none.
pub open spec fn behind(composition: Option<ClauseComposition>, fallback: Clause) -> Clause {
    match composition {
        Some(comp) => *comp.other,
        None => fallback,
    }
}

/// A clause is its head with its composition.
pub proof fn lemma_head_with_composition(c: Clause)
    ensures
        c.head().with_composition(c.composition()) == c,
        c.head().composition().is_none(),
        c.head().head() == c.head(),
{
}

/// Appending keeps the head of the first clause and adds the spines.
pub proof fn lemma_append_spine(a: Clause, b: Clause, connective: ClauseCompositionType)
    ensures
        spec_append_composition(a, b, connective).head() == a.head(),
        spec_append_composition(a, b, connective).spine_len() == a.spine_len() + b.spine_len(),
        spec_append_composition(a, b, connective).composition().is_some(),
        a.composition().is_none() ==> spec_append_composition(a, b, connective).composition()
            == link(connective, b),
    decreases a,
{
    match a.composition() {
        Some(comp) => {
            lemma_append_spine(behind(a.composition(), a), b, connective);
        },
        None => {},
    }
}

/// Appending an elaborated clause to an elaborated clause gives an elaborated clause.
pub proof fn lemma_append_elaborated(a: Clause, b: Clause, connective: ClauseCompositionType)
    requires
        is_elaborated(a),
        is_elaborated(b),
    ensures
        is_elaborated(spec_append_composition(a, b, connective)),
    decreases a,
{
    let joined = spec_append_composition(a, b, connective);
    lemma_append_spine(a, b, connective);
    match a.composition() {
        Some(comp) => {
            let rest = behind(a.composition(), a);
            lemma_append_elaborated(rest, b, connective);
            assert(joined.composition() == link(
                comp.composition_type,
                spec_append_composition(rest, b, connective),
            ));
        },
        None => {
            assert(joined.composition() == link(connective, b));
        },
    }
}

/// What elaboration of a head gives is elaborated.
pub proof fn lemma_single_elaborated(c: Clause)
    ensures
        is_elaborated(spec_elaborate_single(c)),
    decreases head_weight(c), 0int,
{
    let h = c.head();
    lemma_head_with_composition(c);
    if reducible(h) {
        lemma_step_weight(h);
        lemma_elaborate_elaborated(spec_process_single(h));
    }
}

/// What elaboration gives is elaborated.
pub proof fn lemma_elaborate_elaborated(c: Clause)
    ensures
        is_elaborated(spec_elaborate(c)),
    decreases spine_weight(c), 1int,
{
    match c.composition() {
        Some(comp) => {
            let rest = behind(c.composition(), c);
            lemma_single_elaborated(c.head());
            lemma_elaborate_elaborated(rest);
            lemma_append_elaborated(
                spec_elaborate_single(c.head()),
                spec_elaborate(rest),
                comp.composition_type,
            );
        },
        None => {
            lemma_single_elaborated(c);
        },
    }
}

/// Elaboration leaves an elaborated clause as it is.
pub proof fn lemma_elaborated_stays(c: Clause)
    requires
        is_elaborated(c),
    ensures
        spec_elaborate(c) == c,
    decreases c,
{
    lemma_head_with_composition(c);
    match c.composition() {
        Some(comp) => {
            let rest = behind(c.composition(), c);
            lemma_elaborated_stays(rest);
            assert(spec_elaborate_single(c.head()) == c.head());
            assert(spec_append_composition(c.head(), rest, comp.composition_type)
                == c.head().with_composition(link(comp.composition_type, rest)));
            assert(link(comp.composition_type, rest) == c.composition());
        },
        None => {
            assert(c.head() == c);
        },
    }
}

/// Elaboration is idempotent: elaborating what elaboration gave changes nothing.
pub proof fn lemma_elaboration_idempotent(c: Clause)
    ensures
        spec_elaborate(spec_elaborate(c)) == spec_elaborate(c),
{
    lemma_elaborate_elaborated(c);
    lemma_elaborated_stays(spec_elaborate(c));
}

/// Whether a rewriting rule exists for the head of `c`: a deontic clause over a
/// choice, a sequence or concurrent actions; a dynamic clause over a star, a sequence
/// or a choice, or over the negation of a basic action, of a sequence, of a choice, of
/// concurrent actions or of nothing.
pub open spec fn has_rule(c: Clause) -> bool {
    match c {
        Clause::Boolean { .. } => false,
        Clause::Deontic { action: Action::Composed(composed), .. } => composed.left.is_some()
            && composed.right.is_some() && (composed.operator == ActionOperator::Concurrency
            || composed.operator == ActionOperator::Choice || composed.operator
            == ActionOperator::Sequence),
        Clause::Dynamic { action: Action::Composed(composed), .. } => match composed.operator {
            ActionOperator::Star => composed.left.is_some(),
            ActionOperator::Sequence | ActionOperator::Choice => composed.left.is_some()
                && composed.right.is_some(),
            ActionOperator::Negation => match composed.left {
                Some(x) => match *x {
                    Action::Basic(_) => true,
                    Action::Composed(inner) => inner.left.is_some() && inner.right.is_some() && (
                    inner.operator == ActionOperator::Sequence || inner.operator
                        == ActionOperator::Concurrency || inner.operator == ActionOperator::Choice),
                },
                None => true,
            },
            _ => false,
        },
        _ => false,
    }
}

/// A head for which a rule exists is changed by it.
pub proof fn lemma_rule_rewrites(h: Clause)
    requires
        h.composition().is_none(),
        has_rule(h),
    ensures
        spec_process_single(h) != h,
{
    let p = spec_process_single(h);
    match h {
        Clause::Deontic { action: Action::Composed(composed), .. } => {
            assert(p.composition().is_some());
        },
        Clause::Dynamic { action: Action::Composed(composed), .. } => {
            match composed.operator {
                ActionOperator::Star => {
                    assert(p.composition().is_some());
                },
                ActionOperator::Choice => {
                    assert(p.composition().is_some());
                },
                ActionOperator::Sequence => {
                    let l = *composed.left.unwrap();
                    assert(p->Dynamic_action == l);
                    assert(decreases_to!(h->Dynamic_action => l));
                },
                ActionOperator::Negation => match composed.left {
                    Some(x) => match *x {
                        Action::Basic(_) => {},
                        Action::Composed(inner) => {
                            if inner.operator == ActionOperator::Sequence {
                                let l = *inner.left.unwrap();
                                assert(p->Dynamic_action == Action::spec_negation(l));
                                assert(decreases_to!(*x => l));
                            } else {
                                assert(p.composition().is_some());
                            }
                        },
                    },
                    None => {},
                },
                _ => {},
            }
        },
        _ => {},
    }
}

/// After elaboration a head stands over a composed action only where no rule exists
/// for it, or where it is a star that would unroll without end.
pub proof fn lemma_elaborated_head(c: Clause)
    ensures
        !has_rule(spec_elaborate(c).head()) || blocked(spec_elaborate(c).head()),
{
    let h = spec_elaborate(c).head();
    lemma_elaborate_elaborated(c);
    lemma_head_with_composition(spec_elaborate(c));
    if has_rule(h) {
        lemma_rule_rewrites(h);
    }
}

/// Whether every action of the clause, at any depth, is a basic action.
pub open spec fn is_plain(c: Clause) -> bool
    decreases c, 1int,
{
    (match c {
        Clause::Boolean { .. } => true,
        Clause::Deontic { action, penalty, .. } => action is Basic && plain_penalty(penalty),
        Clause::Dynamic { action, clause, .. } => action is Basic && is_plain(*clause),
    }) && plain_rest(c.composition())
}

pub open spec fn plain_penalty(penalty: Option<Arc<Clause>>) -> bool
    decreases penalty, 0int,
{
    match penalty {
        Some(p) => is_plain(*p),
        None => true,
    }
}

pub open spec fn plain_rest(composition: Option<ClauseComposition>) -> bool
    decreases composition, 0int,
{
    match composition {
        Some(comp) => is_plain(*comp.other),
        None => true,
    }
}

/// A plain clause is elaborated.
pub proof fn lemma_plain_is_elaborated(c: Clause)
    requires
        is_plain(c),
    ensures
        is_elaborated(c),
    decreases c,
{
    reveal_with_fuel(is_plain, 2);
    reveal_with_fuel(plain_rest, 2);
    reveal_with_fuel(plain_penalty, 2);
    match c.composition() {
        Some(comp) => {
            lemma_plain_is_elaborated(behind(c.composition(), c));
        },
        None => {},
    }
}

/// Joining plain clauses gives a plain clause.
pub proof fn lemma_combine_plain(c1: Clause, c2: Clause, connective: ClauseCompositionType)
    requires
        is_plain(c1),
        is_plain(c2),
    ensures
        is_plain(spec_combine(c1, c2, connective)),
{
    reveal_with_fuel(is_plain, 3);
    reveal_with_fuel(plain_rest, 3);
    reveal_with_fuel(plain_penalty, 3);
    let joined12 = c1.with_composition(link(connective, c2));
    let joined21 = c2.with_composition(link(connective, c1));
    assert(is_plain(joined12)) by {
        assert(joined12.composition() == link(connective, c2));
    }
    assert(is_plain(joined21)) by {
        assert(joined21.composition() == link(connective, c1));
    }
    assert(is_plain(Clause::spec_boolean(true)));
    assert(is_plain(Clause::spec_boolean(false)));
}

/// What is left of a plain clause after any set of actions is plain again: a Boolean
/// or a clause over basic actions only.
pub proof fn lemma_residual_plain(roster: Roster, c: Clause, chosen: Seq<RelativizedAction>)
    requires
        is_plain(c),
    ensures
        is_plain(ClauseDecomposer::residual(roster, c, chosen)),
    decreases c,
{
    reveal_with_fuel(is_plain, 3);
    reveal_with_fuel(plain_rest, 3);
    reveal_with_fuel(plain_penalty, 3);
    let h = c.head();
    assert(is_plain(h));
    let one = ClauseDecomposer::residual_single(roster, h, chosen);
    assert(h.head() == h);
    assert(is_plain(Clause::spec_boolean(true)));
    assert(is_plain(Clause::spec_boolean(false)));
    assert(is_plain(one)) by {
        match h {
            Clause::Boolean { .. } => {},
            Clause::Deontic { penalty, .. } => {
                assert(is_plain(penalty_or_false(h)));
            },
            Clause::Dynamic { .. } => {},
        }
    }
    match c.composition() {
        Some(comp) => {
            let rest = behind(c.composition(), c);
            lemma_residual_plain(roster, rest, chosen);
            lemma_combine_plain(
                one,
                ClauseDecomposer::residual(roster, rest, chosen),
                comp.composition_type,
            );
        },
        None => {
            assert(c == h);
        },
    }
}

} // verus!
