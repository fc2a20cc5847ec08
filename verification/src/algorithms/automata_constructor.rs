use crate::algorithms::action_extractor::{
    lemma_concurrent_bounds, lemma_no_action_no_mask, spec_concurrent, spec_individuals, spec_relativized_actions,
    ActionExtractor,
};
use crate::algorithms::clause_decomposer::{spec_elaborate, ClauseDecomposer, Roster};
use crate::algorithms::conflict_searcher::{
    lemma_first_report_unique, reports_first, spec_has_conflict, ConflictSearcher,
};
use crate::model::actions::RelativizedAction;
use crate::model::automata::{Automaton, State, StateSituation, Transition};
use crate::model::contracts::{spec_full_contract, Clause, Conflict, Contract};
use crate::utils::concurrency::{
    decode, decode_mask, lemma_pow2_bound, pow2, refusal, AnalysisError,
    CompressedConcurrentActions, MAX_CONCURRENT_ACTIONS,
};
use crate::utils::config::RunConfiguration;
use crate::utils::ordered::{copy_of, distinct};
use crate::utils::shared::share;
use crate::utils::symbols::SymbolTable;
use rayon::iter::{IntoParallelRefIterator, ParallelIterator};
use std::sync::Arc;
use vstd::prelude::*;

verus! {

/// The number of masks whose successors are computed in one parallel round.
pub const BATCH_SIZE: usize = 500;

/// What an analysis is run over: the individuals and the conflict catalogue of the
/// contract, whether each state is read over the individuals of its own clause only,
/// and whether the analysis goes on after a conflict.
pub struct Setting {
    pub individuals: Seq<i32>,
    pub conflicts: Seq<Conflict>,
    pub pruning: bool,
    pub continues: bool,
}

/// What an analysis of `contract` with the settings `config` is run over.
pub open spec fn setting_for(config: RunConfiguration, contract: &Contract) -> Setting {
    Setting {
        individuals: contract.individuals@,
        conflicts: contract.global_conflicts@ + contract.relativized_conflicts@,
        pruning: config.use_prunning,
        continues: config.continue_on_conflict,
    }
}

/// The individuals over which the clause of a state is read.
pub open spec fn individuals_for(c: Clause, setting: Setting) -> Seq<i32> {
    if setting.pruning {
        spec_individuals(c, setting.individuals)
    } else {
        setting.individuals
    }
}

/// The roster over which the successors of a state are computed: nobody acts towards
/// itself where there is more than one individual.
pub open spec fn roster_for(c: Clause, setting: Setting) -> Roster {
    Roster { ids: distinct(individuals_for(c, setting)), ignore_self_actions: true }
}

/// The source map and the valid masks of a state.
pub open spec fn concurrent_for(c: Clause, setting: Setting) -> (Seq<RelativizedAction>, Seq<u32>) {
    spec_concurrent(c, individuals_for(c, setting), setting.conflicts)
}

/// The clause that a state with the clause `c` goes to on the actions of `mask`.
pub open spec fn successor(c: Clause, mask: u32, setting: Setting) -> Clause {
    ClauseDecomposer::residual(
        roster_for(c, setting),
        c,
        decode(concurrent_for(c, setting).0, mask),
    )
}

/// Whether the clause of a state holds a conflict.
pub open spec fn conflicting(c: Clause, setting: Setting) -> bool {
    spec_has_conflict(
        ConflictSearcher::tags_of(Some(c)),
        setting.conflicts,
        distinct(individuals_for(c, setting)),
    )
}

/// Whether a state carries the situation that its clause calls for: satisfaction for
/// true, violation for false, and for any other clause conflicting or free of
/// conflicts. A conflicting state reports the first conflict that the search comes
/// to; no other state reports one.
pub open spec fn settled(s: State, setting: Setting) -> bool {
    match s.clause {
        None => s.situation == StateSituation::Satisfaction,
        Some(Clause::Boolean { value, .. }) => s.conflict_information.is_none() && s.situation == (
        if value {
            StateSituation::Satisfaction
        } else {
            StateSituation::Violating
        }),
        Some(c) => if conflicting(c, setting) {
            s.situation == StateSituation::Conflicting && s.conflict_information.is_some()
                && reports_first(
                s.conflict_information.unwrap(),
                ConflictSearcher::tags_of(Some(c)),
                setting.conflicts,
                distinct(individuals_for(c, setting)),
            )
        } else {
            s.situation == StateSituation::ConflictFree && s.conflict_information.is_none()
        },
    }
}

/// Whether a transition is a step of the analysis: it leaves a state whose clause is
/// no Boolean, carries the source map of that clause and one of its valid masks, and
/// arrives at the state of the successor clause. Its mask has no bit beyond the
/// source map, which holds at most 31 actions.
pub open spec fn step_ok(t: Transition, clauses: Seq<Option<Clause>>, setting: Setting) -> bool {
    &&& t.from < clauses.len()
    &&& t.to < clauses.len()
    &&& clauses[t.from as int].is_some()
    &&& !(clauses[t.from as int].unwrap() is Boolean)
    &&& t.source_map@ == concurrent_for(clauses[t.from as int].unwrap(), setting).0
    &&& concurrent_for(clauses[t.from as int].unwrap(), setting).1.contains(t.mask)
    &&& clauses[t.to as int] == Some(successor(clauses[t.from as int].unwrap(), t.mask, setting))
    &&& t.source_map@.len() <= MAX_CONCURRENT_ACTIONS + 1
    &&& t.mask < pow2(t.source_map@.len())
}

/// The clauses of the states, in their order.
pub open spec fn clauses_of(states: Seq<State>) -> Seq<Option<Clause>> {
    states.map_values(|s: State| s.clause)
}

/// What holds of an automaton during an analysis: states and transitions are numbered
/// in their order, states from 0 and transitions from 1; every state has a clause and
/// no two states the same; every state but the one at `pending`, which reports no
/// conflict yet, is settled; every transition is a step; a conflict counts as found
/// exactly when a settled state is conflicting; every state carries its trace; no two
/// transitions leave one state on one mask; no transition leaves the state at
/// `pending`; and, where the analysis stops at a conflict, no transition leaves a
/// conflicting state or a state behind one.
pub open spec fn consistent(a: Automaton, setting: Setting, pending: int) -> bool {
    &&& forall|i: int|
        0 <= i < a.states@.len() ==> (#[trigger] a.states@[i]).id == i && a.states@[i].clause.is_some()
    &&& forall|k: int| 0 <= k < a.transitions@.len() ==> (#[trigger] a.transitions@[k]).id == k + 1
    &&& forall|i: int, j: int|
        0 <= i < j < a.states@.len() ==> (#[trigger] a.states@[i]).clause != (
        #[trigger] a.states@[j]).clause
    &&& forall|i: int|
        0 <= i < a.states@.len() && i != pending ==> settled(#[trigger] a.states@[i], setting)
    &&& 0 <= pending < a.states@.len() ==> a.states@[pending].conflict_information.is_none()
    &&& forall|k: int|
        0 <= k < a.transitions@.len() ==> step_ok(
            #[trigger] a.transitions@[k],
            clauses_of(a.states@),
            setting,
        )
    &&& a.conflict_found <==> exists|i: int|
        0 <= i < a.states@.len() && i != pending && (#[trigger] a.states@[i]).situation
            == StateSituation::Conflicting
    &&& forall|i: int| 0 <= i < a.states@.len() ==> traced(a, i)
    &&& forall|j: int, k: int|
        0 <= j < k < a.transitions@.len() ==> !((#[trigger] a.transitions@[j]).from == (
        #[trigger] a.transitions@[k]).from && a.transitions@[j].mask == a.transitions@[k].mask)
    &&& forall|k: int|
        0 <= k < a.transitions@.len() ==> (#[trigger] a.transitions@[k]).from != pending
    &&& !setting.continues ==> forall|k: int|
        0 <= k < a.transitions@.len() ==> !conflict_by(a, (#[trigger] a.transitions@[k]).from as int)
}

/// Whether the state at `i` carries its trace: none for the first state, and for any
/// other state the one transition on which it was found, which leaves an earlier
/// state and is the first to reach the state.
pub open spec fn traced(a: Automaton, i: int) -> bool {
    if i == 0 {
        a.states@[i].trace@.len() == 0
    } else {
        &&& a.states@[i].trace@.len() == 1
        &&& 1 <= a.states@[i].trace@[0] <= a.transitions@.len()
        &&& a.transitions@[a.states@[i].trace@[0] - 1].to == i
        &&& a.transitions@[a.states@[i].trace@[0] - 1].from < i
        &&& forall|k: int|
            0 <= k < a.states@[i].trace@[0] - 1 ==> (#[trigger] a.transitions@[k]).to != i
    }
}

/// Whether the transitions that `later` has beyond those of `earlier` leave the state
/// `from` or a state that `earlier` did not have.
pub open spec fn grown_from(earlier: Automaton, later: Automaton, from: int) -> bool {
    forall|k: int|
        earlier.transitions@.len() <= k < later.transitions@.len() ==> (
        #[trigger] later.transitions@[k]).from == from || later.transitions@[k].from
            >= earlier.states@.len()
}

/// Whether a transition leaves the state `from` on `mask`.
pub open spec fn has_step(transitions: Seq<Transition>, from: int, mask: u32) -> bool {
    exists|k: int|
        0 <= k < transitions.len() && (#[trigger] transitions[k]).from == from && transitions[k].mask
            == mask
}

/// Whether the state at `i` is followed along each valid mask of its clause. A state
/// whose clause is a Boolean has nothing to follow.
pub open spec fn followed(a: Automaton, i: int, setting: Setting) -> bool {
    match a.states@[i].clause {
        Some(c) => c is Boolean || forall|q: int|
            0 <= q < concurrent_for(c, setting).1.len() ==> has_step(
                a.transitions@,
                i,
                #[trigger] concurrent_for(c, setting).1[q],
            ),
        None => true,
    }
}

/// Whether the state at `i`, or a state before it, is conflicting.
pub open spec fn conflict_by(a: Automaton, i: int) -> bool {
    exists|k: int|
        0 <= k <= i && k < a.states@.len() && (#[trigger] a.states@[k]).situation
            == StateSituation::Conflicting
}

/// Whether the state at `i` is followed, or the analysis had been stopped by a
/// conflict when it came to the state.
pub open spec fn covered(a: Automaton, i: int, setting: Setting) -> bool {
    followed(a, i, setting) || (!setting.continues && conflict_by(a, i))
}

/// Whether `later` came from `earlier` by adding transitions, with no conflict
/// forgotten.
pub open spec fn extends(earlier: Automaton, later: Automaton) -> bool {
    &&& earlier.transitions@.len() <= later.transitions@.len()
    &&& forall|k: int|
        0 <= k < earlier.transitions@.len() ==> (#[trigger] later.transitions@[k])
            == earlier.transitions@[k]
    &&& earlier.conflict_found ==> later.conflict_found
}

/// A step that was taken stays.
pub proof fn lemma_step_persists(earlier: Automaton, later: Automaton, from: int, mask: u32)
    requires
        extends(earlier, later),
        has_step(earlier.transitions@, from, mask),
    ensures
        has_step(later.transitions@, from, mask),
{
    let k = choose|k: int|
        0 <= k < earlier.transitions@.len() && (#[trigger] earlier.transitions@[k]).from == from
            && earlier.transitions@[k].mask == mask;
    assert(later.transitions@[k] == earlier.transitions@[k]);
}

/// A state that was covered stays covered.
pub proof fn lemma_covered_persists(
    earlier: Automaton,
    later: Automaton,
    i: int,
    setting: Setting,
)
    requires
        extends(earlier, later),
        0 <= i < earlier.states@.len(),
        i < later.states@.len(),
        later.states@[i].clause == earlier.states@[i].clause,
        forall|k: int|
            0 <= k <= i ==> (#[trigger] later.states@[k]).situation == earlier.states@[k].situation,
        covered(earlier, i, setting),
    ensures
        covered(later, i, setting),
{
    if !setting.continues && conflict_by(earlier, i) {
        let k = choose|k: int|
            0 <= k <= i && k < earlier.states@.len() && (#[trigger] earlier.states@[k]).situation
                == StateSituation::Conflicting;
        assert(later.states@[k].situation == StateSituation::Conflicting);
    }
    if followed(earlier, i, setting) {
        match earlier.states@[i].clause {
            Some(c) => {
                if !(c is Boolean) {
                    assert forall|q: int| 0 <= q < concurrent_for(c, setting).1.len() implies has_step(
                        later.transitions@,
                        i,
                        #[trigger] concurrent_for(c, setting).1[q],
                    ) by {
                        lemma_step_persists(earlier, later, i, concurrent_for(c, setting).1[q]);
                    }
                }
            },
            None => {},
        }
    }
}

/// Whether a conflict lies at or before a state depends on the situations up to that
/// state only.
pub proof fn lemma_conflict_by_agrees(a: Automaton, b: Automaton, i: int)
    requires
        0 <= i < a.states@.len(),
        i < b.states@.len(),
        forall|k: int| 0 <= k <= i ==> (#[trigger] b.states@[k]).situation == a.states@[k].situation,
    ensures
        conflict_by(a, i) == conflict_by(b, i),
{
    if conflict_by(a, i) {
        let k = choose|k: int|
            0 <= k <= i && k < a.states@.len() && (#[trigger] a.states@[k]).situation
                == StateSituation::Conflicting;
        assert(b.states@[k].situation == StateSituation::Conflicting);
    }
    if conflict_by(b, i) {
        let k = choose|k: int|
            0 <= k <= i && k < b.states@.len() && (#[trigger] b.states@[k]).situation
                == StateSituation::Conflicting;
        assert(b.states@[k].situation == a.states@[k].situation);
        assert(a.states@[k].situation == StateSituation::Conflicting);
    }
}

/// Changing the situation of the last state leaves traces and transitions as they
/// are.
pub proof fn lemma_resettled(before: Automaton, after: Automaton, setting: Setting, at: int)
    requires
        consistent(before, setting, at),
        0 <= at < before.states@.len(),
        after.states@.len() == before.states@.len(),
        after.transitions == before.transitions,
        forall|i: int|
            0 <= i < before.states@.len() && i != at ==> after.states@[i] == before.states@[i],
        after.states@[at].trace@ == before.states@[at].trace@,
        at + 1 == before.states@.len(),
    ensures
        forall|i: int| 0 <= i < after.states@.len() ==> traced(after, i),
        forall|j: int, k: int|
            0 <= j < k < after.transitions@.len() ==> !((#[trigger] after.transitions@[j]).from == (
            #[trigger] after.transitions@[k]).from && after.transitions@[j].mask
                == after.transitions@[k].mask),
        !setting.continues ==> forall|k: int|
            0 <= k < after.transitions@.len() ==> !conflict_by(
                after,
                (#[trigger] after.transitions@[k]).from as int,
            ),
{
    assert forall|i: int| 0 <= i < after.states@.len() implies traced(after, i) by {
        assert(traced(before, i));
    }
    if !setting.continues {
        assert forall|k: int| 0 <= k < after.transitions@.len() implies !conflict_by(
            after,
            (#[trigger] after.transitions@[k]).from as int,
        ) by {
            let from = before.transitions@[k].from as int;
            assert(step_ok(before.transitions@[k], clauses_of(before.states@), setting));
            assert(from != at);
            assert(!conflict_by(before, from));
            lemma_conflict_by_agrees(before, after, from);
        }
    }
}

/// Adding a transition that leaves a state on a mask on which none left it before
/// keeps traces, and keeps the transitions apart.
pub proof fn lemma_transition_added(before: Automaton, after: Automaton, setting: Setting, pending: int)
    requires
        consistent(before, setting, pending),
        after.states@.len() >= before.states@.len(),
        forall|i: int| 0 <= i < before.states@.len() ==> after.states@[i] == before.states@[i],
        after.transitions@.len() == before.transitions@.len() + 1,
        forall|k: int|
            0 <= k < before.transitions@.len() ==> after.transitions@[k] == before.transitions@[k],
        !has_step(
            before.transitions@,
            after.transitions@.last().from as int,
            after.transitions@.last().mask,
        ),
    ensures
        forall|i: int| 0 <= i < before.states@.len() ==> traced(after, i),
        forall|j: int, k: int|
            0 <= j < k < after.transitions@.len() ==> !((#[trigger] after.transitions@[j]).from == (
            #[trigger] after.transitions@[k]).from && after.transitions@[j].mask
                == after.transitions@[k].mask),
{
    assert forall|i: int| 0 <= i < before.states@.len() implies traced(after, i) by {
        assert(traced(before, i));
    }
    assert forall|j: int, k: int| 0 <= j < k < after.transitions@.len() implies !((
    #[trigger] after.transitions@[j]).from == (#[trigger] after.transitions@[k]).from
        && after.transitions@[j].mask == after.transitions@[k].mask) by {
        if k < before.transitions@.len() {
            assert(after.transitions@[j] == before.transitions@[j]);
            assert(after.transitions@[k] == before.transitions@[k]);
        } else {
            assert(after.transitions@[j] == before.transitions@[j]);
            assert(after.transitions@[k] == after.transitions@.last());
        }
    }
}

/// Whether the analysis of a state with the clause `c` ends at the state itself: the
/// clause is a Boolean, or the analysis stops at conflicts and one was found before
/// or is found in `c`.
pub open spec fn ends_at(c: Clause, setting: Setting, found_before: bool) -> bool {
    c is Boolean || (!setting.continues && (found_before || conflicting(c, setting)))
}

/// What holds of the automaton of a finished analysis.
pub open spec fn analysed(a: Automaton, setting: Setting) -> bool {
    consistent(a, setting, -1)
}

/// In an analysed automaton no transition leaves a state of satisfaction or of
/// violation.
pub proof fn lemma_terminal_states(a: Automaton, setting: Setting, k: int)
    requires
        analysed(a, setting),
        0 <= k < a.transitions@.len(),
    ensures
        a.transitions@[k].from < a.states@.len(),
        a.states@[a.transitions@[k].from as int].situation != StateSituation::Satisfaction,
        a.states@[a.transitions@[k].from as int].situation != StateSituation::Violating,
{
    let t = a.transitions@[k];
    assert(step_ok(t, clauses_of(a.states@), setting));
    let s = a.states@[t.from as int];
    assert(clauses_of(a.states@)[t.from as int] == s.clause);
    assert(settled(s, setting));
}

/// Where the analysis stops at a conflict, no transition of an analysed automaton
/// leaves a conflicting state, nor a state that was found after one.
pub proof fn lemma_stopped_at_conflict(a: Automaton, setting: Setting, k: int, i: int)
    requires
        analysed(a, setting),
        !setting.continues,
        0 <= k < a.transitions@.len(),
        0 <= i <= a.transitions@[k].from,
    ensures
        a.transitions@[k].from < a.states@.len(),
        a.states@[i].situation != StateSituation::Conflicting,
{
    let t = a.transitions@[k];
    assert(step_ok(t, clauses_of(a.states@), setting));
    assert(!conflict_by(a, t.from as int));
}

/// In an analysed automaton no transition leaves a state whose clause can fire no
/// action.
pub proof fn lemma_no_action_no_transition(a: Automaton, setting: Setting, k: int)
    requires
        analysed(a, setting),
        0 <= k < a.transitions@.len(),
    ensures
        a.transitions@[k].from < a.states@.len(),
        a.states@[a.transitions@[k].from as int].clause.is_some(),
        action_count(a.states@[a.transitions@[k].from as int].clause.unwrap(), setting) > 0,
{
    let t = a.transitions@[k];
    assert(step_ok(t, clauses_of(a.states@), setting));
    let c = a.states@[t.from as int].clause.unwrap();
    assert(clauses_of(a.states@)[t.from as int] == a.states@[t.from as int].clause);
    if action_count(c, setting) == 0 {
        lemma_no_action_no_mask(
            spec_elaborate(c),
            distinct(individuals_for(c, setting)),
            setting.conflicts,
        );
        assert(concurrent_for(c, setting).1.len() == 0);
    }
}

/// In an analysed automaton the mask of a transition sets no bit beyond its source map,
/// which holds at most 31 actions.
pub proof fn lemma_masks_within_source(a: Automaton, setting: Setting, k: int)
    requires
        analysed(a, setting),
        0 <= k < a.transitions@.len(),
    ensures
        a.transitions@[k].source_map@.len() <= MAX_CONCURRENT_ACTIONS + 1,
        a.transitions@[k].mask < pow2(a.transitions@[k].source_map@.len()),
{
    assert(step_ok(a.transitions@[k], clauses_of(a.states@), setting));
}

/// In an analysed automaton states with different ids stand for different clauses.
pub proof fn lemma_states_apart(a: Automaton, setting: Setting, i: int, j: int)
    requires
        analysed(a, setting),
        0 <= i < a.states@.len(),
        0 <= j < a.states@.len(),
        a.states@[i].id != a.states@[j].id,
    ensures
        a.states@[i].clause != a.states@[j].clause,
{
    if i < j {
        assert(a.states@[i].clause != a.states@[j].clause);
    } else if j < i {
        assert(a.states@[j].clause != a.states@[i].clause);
    }
}

/// Two analyses over one setting agree on every state that both hold and follow: a
/// transition that leaves the state in one automaton has its like in the other, on the
/// same mask over the same source map, to a state of the same clause.
pub proof fn lemma_runs_agree(a: Automaton, b: Automaton, setting: Setting, ka: int, j: int)
    requires
        analysed(a, setting),
        analysed(b, setting),
        0 <= ka < a.transitions@.len(),
        0 <= j < b.states@.len(),
        b.states@[j].clause == a.states@[a.transitions@[ka].from as int].clause,
        followed(b, j, setting),
    ensures
        exists|kb: int|
            0 <= kb < b.transitions@.len() && (#[trigger] b.transitions@[kb]).from == j
                && b.transitions@[kb].mask == a.transitions@[ka].mask
                && b.transitions@[kb].source_map@ == a.transitions@[ka].source_map@
                && b.states@[b.transitions@[kb].to as int].clause
                == a.states@[a.transitions@[ka].to as int].clause,
{
    let t = a.transitions@[ka];
    assert(step_ok(t, clauses_of(a.states@), setting));
    let c = a.states@[t.from as int].clause.unwrap();
    assert(clauses_of(a.states@)[t.from as int] == a.states@[t.from as int].clause);
    assert(clauses_of(a.states@)[t.to as int] == a.states@[t.to as int].clause);
    let masks = concurrent_for(c, setting).1;
    assert(masks.contains(t.mask));
    let q = choose|q: int| 0 <= q < masks.len() && masks[q] == t.mask;
    assert(has_step(b.transitions@, j, masks[q]));
    let kb = choose|kb: int|
        0 <= kb < b.transitions@.len() && (#[trigger] b.transitions@[kb]).from == j
            && b.transitions@[kb].mask == t.mask;
    assert(step_ok(b.transitions@[kb], clauses_of(b.states@), setting));
    assert(clauses_of(b.states@)[j] == b.states@[j].clause);
    let to = b.transitions@[kb].to as int;
    assert(clauses_of(b.states@)[to] == b.states@[to].clause);
}

/// Whether every state of the automaton is followed.
pub open spec fn complete(a: Automaton, setting: Setting) -> bool {
    forall|i: int| 0 <= i < a.states@.len() ==> followed(a, i, setting)
}

/// A clause that has a state in one analysed automaton has a state in any other that
/// starts from the same clause over the same setting and follows all its states.
pub proof fn lemma_states_shared(a: Automaton, b: Automaton, setting: Setting, i: int)
    requires
        analysed(a, setting),
        analysed(b, setting),
        complete(b, setting),
        0 <= i < a.states@.len(),
        b.states@.len() > 0,
        b.states@[0].clause == a.states@[0].clause,
    ensures
        exists|j: int|
            0 <= j < b.states@.len() && (#[trigger] b.states@[j]).clause == a.states@[i].clause,
    decreases i,
{
    if i == 0 {
        assert(b.states@[0].clause == a.states@[i].clause);
    } else {
        assert(traced(a, i));
        let k = a.states@[i].trace@[0] - 1;
        let from = a.transitions@[k].from as int;
        lemma_states_shared(a, b, setting, from);
        let j = choose|j: int|
            0 <= j < b.states@.len() && (#[trigger] b.states@[j]).clause == a.states@[from].clause;
        lemma_runs_agree(a, b, setting, k, j);
        let kb = choose|kb: int|
            0 <= kb < b.transitions@.len() && (#[trigger] b.transitions@[kb]).from == j
                && b.transitions@[kb].mask == a.transitions@[k].mask
                && b.transitions@[kb].source_map@ == a.transitions@[k].source_map@
                && b.states@[b.transitions@[kb].to as int].clause
                == a.states@[a.transitions@[k].to as int].clause;
        assert(step_ok(b.transitions@[kb], clauses_of(b.states@), setting));
        let to = b.transitions@[kb].to as int;
        assert(b.states@[to].clause == a.states@[i].clause);
    }
}

/// Each transition by the clause that it leaves and its mask.
pub open spec fn step_keys(a: Automaton) -> Seq<(Option<Clause>, u32)> {
    Seq::new(
        a.transitions@.len(),
        |k: int| (a.states@[a.transitions@[k].from as int].clause, a.transitions@[k].mask),
    )
}

/// In an analysed automaton no two states have one clause, and no two transitions
/// leave one clause on one mask.
pub proof fn lemma_keys_apart(a: Automaton, setting: Setting)
    requires
        analysed(a, setting),
    ensures
        clauses_of(a.states@).no_duplicates(),
        step_keys(a).no_duplicates(),
{
    let keys = step_keys(a);
    assert forall|j: int, k: int| 0 <= j < keys.len() && 0 <= k < keys.len() && j != k implies keys[j]
        != keys[k] by {
        let t = a.transitions@[j];
        let u = a.transitions@[k];
        assert(step_ok(t, clauses_of(a.states@), setting));
        assert(step_ok(u, clauses_of(a.states@), setting));
        if keys[j] == keys[k] {
            lemma_states_apart(a, setting, t.from as int, u.from as int);
            if j < k {
                assert(!(a.transitions@[j].from == a.transitions@[k].from && a.transitions@[j].mask
                    == a.transitions@[k].mask));
            } else {
                assert(!(a.transitions@[k].from == a.transitions@[j].from && a.transitions@[k].mask
                    == a.transitions@[j].mask));
            }
        }
    }
}

/// The clauses and the steps of one complete analysis are among those of another that
/// starts from the same clause over the same setting.
proof fn lemma_keys_within(a: Automaton, b: Automaton, setting: Setting)
    requires
        analysed(a, setting),
        analysed(b, setting),
        complete(b, setting),
        a.states@.len() > 0 ==> b.states@.len() > 0 && b.states@[0].clause == a.states@[0].clause,
    ensures
        clauses_of(a.states@).to_set().subset_of(clauses_of(b.states@).to_set()),
        step_keys(a).to_set().subset_of(step_keys(b).to_set()),
{
    assert forall|x: Option<Clause>| clauses_of(a.states@).to_set().contains(x) implies clauses_of(
        b.states@,
    ).to_set().contains(x) by {
        let i = choose|i: int| 0 <= i < a.states@.len() && clauses_of(a.states@)[i] == x;
        lemma_states_shared(a, b, setting, i);
        let j = choose|j: int|
            0 <= j < b.states@.len() && (#[trigger] b.states@[j]).clause == a.states@[i].clause;
        assert(clauses_of(b.states@)[j] == x);
    }
    assert forall|x: (Option<Clause>, u32)| step_keys(a).to_set().contains(x) implies step_keys(
        b,
    ).to_set().contains(x) by {
        let k = choose|k: int| 0 <= k < a.transitions@.len() && step_keys(a)[k] == x;
        let t = a.transitions@[k];
        assert(step_ok(t, clauses_of(a.states@), setting));
        lemma_states_shared(a, b, setting, t.from as int);
        let j = choose|j: int|
            0 <= j < b.states@.len() && (#[trigger] b.states@[j]).clause
                == a.states@[t.from as int].clause;
        lemma_runs_agree(a, b, setting, k, j);
        let kb = choose|kb: int|
            0 <= kb < b.transitions@.len() && (#[trigger] b.transitions@[kb]).from == j
                && b.transitions@[kb].mask == a.transitions@[k].mask
                && b.transitions@[kb].source_map@ == a.transitions@[k].source_map@
                && b.states@[b.transitions@[kb].to as int].clause
                == a.states@[a.transitions@[k].to as int].clause;
        assert(step_keys(b)[kb] == x);
    }
}

/// Two complete analyses that start from the same clause over the same setting have
/// as many states and as many transitions, and hold the same clauses and the same
/// steps.
pub proof fn lemma_runs_same_size(a: Automaton, b: Automaton, setting: Setting)
    requires
        analysed(a, setting),
        analysed(b, setting),
        complete(a, setting),
        complete(b, setting),
        (a.states@.len() > 0) == (b.states@.len() > 0),
        a.states@.len() > 0 ==> a.states@[0].clause == b.states@[0].clause,
    ensures
        a.states@.len() == b.states@.len(),
        a.transitions@.len() == b.transitions@.len(),
        clauses_of(a.states@).to_set() == clauses_of(b.states@).to_set(),
        step_keys(a).to_set() == step_keys(b).to_set(),
{
    lemma_keys_within(a, b, setting);
    lemma_keys_within(b, a, setting);
    lemma_keys_apart(a, setting);
    lemma_keys_apart(b, setting);
    assert(clauses_of(a.states@).to_set() =~= clauses_of(b.states@).to_set());
    assert(step_keys(a).to_set() =~= step_keys(b).to_set());
    clauses_of(a.states@).unique_seq_to_set();
    clauses_of(b.states@).unique_seq_to_set();
    step_keys(a).unique_seq_to_set();
    step_keys(b).unique_seq_to_set();
}

/// An analysed automaton is fixed by its course: two with one course have the same
/// states, with the same clauses, situations, traces and reports of conflicts, and the
/// same transitions.
pub proof fn lemma_course_fixes(a: Automaton, b: Automaton, setting: Setting)
    requires
        analysed(a, setting),
        analysed(b, setting),
        course_of(a) == course_of(b),
    ensures
        a.states@.len() == b.states@.len(),
        a.transitions@.len() == b.transitions@.len(),
        a.conflict_found == b.conflict_found,
        forall|i: int| 0 <= i < a.states@.len() ==> (#[trigger] a.states@[i]).same_as(&b.states@[i]),
        forall|k: int|
            0 <= k < a.transitions@.len() ==> {
                &&& (#[trigger] a.transitions@[k]).id == b.transitions@[k].id
                &&& a.transitions@[k].from == b.transitions@[k].from
                &&& a.transitions@[k].to == b.transitions@[k].to
                &&& a.transitions@[k].mask == b.transitions@[k].mask
                &&& a.transitions@[k].source_map@ == b.transitions@[k].source_map@
            },
{
    assert(course_of(a).clauses.len() == a.states@.len());
    assert(course_of(b).clauses.len() == b.states@.len());
    assert(course_of(a).steps.len() == a.transitions@.len());
    assert(course_of(b).steps.len() == b.transitions@.len());
    assert forall|k: int| 0 <= k < a.transitions@.len() implies {
        &&& (#[trigger] a.transitions@[k]).id == b.transitions@[k].id
        &&& a.transitions@[k].from == b.transitions@[k].from
        &&& a.transitions@[k].to == b.transitions@[k].to
        &&& a.transitions@[k].mask == b.transitions@[k].mask
        &&& a.transitions@[k].source_map@ == b.transitions@[k].source_map@
    } by {
        assert(course_of(a).steps[k] == course_of(b).steps[k]);
        assert(step_ok(a.transitions@[k], clauses_of(a.states@), setting));
        assert(step_ok(b.transitions@[k], clauses_of(b.states@), setting));
    }
    assert forall|i: int| 0 <= i < a.states@.len() implies (#[trigger] a.states@[i]).same_as(
        &b.states@[i],
    ) by {
        let x = a.states@[i];
        let y = b.states@[i];
        assert(course_of(a).clauses[i] == x.clause);
        assert(course_of(b).clauses[i] == y.clause);
        assert(settled(x, setting) && settled(y, setting));
        assert(traced(a, i) && traced(b, i));
        if i > 0 {
            let ta = x.trace@[0] - 1;
            let tb = y.trace@[0] - 1;
            assert(a.transitions@[ta].to == b.transitions@[ta].to);
            assert(a.transitions@[tb].to == b.transitions@[tb].to);
            assert(ta == tb);
        }
        assert(x.trace@ =~= y.trace@);
        match x.clause {
            Some(c) => {
                if !(c is Boolean) && conflicting(c, setting) {
                    lemma_first_report_unique(
                        x.conflict_information.unwrap(),
                        y.conflict_information.unwrap(),
                        ConflictSearcher::tags_of(Some(c)),
                        setting.conflicts,
                        distinct(individuals_for(c, setting)),
                    );
                }
            },
            None => {},
        }
    }
}

/// An analysed automaton is well formed.
pub proof fn lemma_analysed_well_formed(a: Automaton, setting: Setting, pending: int)
    requires
        consistent(a, setting, pending),
    ensures
        a.well_formed(),
{
}

/// The course of an analysis: the clauses of the states in the order in which they
/// were found; the steps in the order in which they were taken, each with the state
/// that it leaves, its mask and the state that it reaches; and whether a conflict was
/// found.
pub struct Course {
    pub clauses: Seq<Option<Clause>>,
    pub steps: Seq<(int, u32, int)>,
    pub conflict: bool,
}

/// The course that led to the automaton.
pub open spec fn course_of(a: Automaton) -> Course {
    Course {
        clauses: clauses_of(a.states@),
        steps: Seq::new(
            a.transitions@.len(),
            |k: int|
                (a.transitions@[k].from as int, a.transitions@[k].mask, a.transitions@[k].to as int),
        ),
        conflict: a.conflict_found,
    }
}

/// The number of relativized actions that the clause of a state can fire.
pub open spec fn action_count(c: Clause, setting: Setting) -> nat {
    spec_relativized_actions(spec_elaborate(c), individuals_for(c, setting)).len()
}

/// Whether the clause can fire more actions than an analysis takes.
pub open spec fn overfull(c: Clause, setting: Setting) -> bool {
    action_count(c, setting) > MAX_CONCURRENT_ACTIONS
}

/// Whether `combinations` is the number of subsets of a set of actions that an
/// analysis takes.
pub open spec fn subsets_of_some(combinations: u64) -> bool {
    exists|n: nat| n <= MAX_CONCURRENT_ACTIONS && combinations == #[trigger] pow2(n)
}

/// Whether the course is one that the machine can number: it has fewer states and
/// fewer steps than the largest number of its word.
pub open spec fn within_reach(course: Option<Course>) -> bool {
    course matches Some(g) && g.clauses.len() < usize::MAX && g.steps.len() < usize::MAX
}

/// The position of the state of `c`.
pub open spec fn held_at(clauses: Seq<Option<Clause>>, c: Clause) -> int {
    choose|j: int| 0 <= j < clauses.len() && clauses[j] == Some(c)
}

/// The course of the analysis from the state `s` on, which was found last: a Boolean
/// ends it; so does a conflict, found now or before, where the analysis stops at
/// conflicts; any other state is followed along its masks from the first on. `None`
/// where a state can fire more actions than an analysis takes.
pub open spec fn explore(g: Course, s: int, setting: Setting) -> Option<Course>
    decreases usize::MAX - g.clauses.len(), 1int, 0int,
{
    if !(0 <= s < g.clauses.len() <= usize::MAX) || g.clauses[s].is_none() {
        Some(g)
    } else {
        let c = g.clauses[s].unwrap();
        let found = g.conflict || conflicting(c, setting);
        if c is Boolean {
            Some(g)
        } else if found && !setting.continues {
            Some(Course { conflict: found, ..g })
        } else if overfull(c, setting) {
            None
        } else {
            expand(Course { conflict: found, ..g }, s, 0, setting)
        }
    }
}

/// The masks of the state `s`.
pub open spec fn masks_at(g: Course, s: int, setting: Setting) -> Seq<u32> {
    if 0 <= s < g.clauses.len() && g.clauses[s].is_some() {
        concurrent_for(g.clauses[s].unwrap(), setting).1
    } else {
        Seq::empty()
    }
}

/// The course of the analysis that follows the state `s` along its masks from the
/// one at `q` on. A step to a clause that has a state is recorded; a step to any other
/// clause is recorded with a new state, from which the analysis goes on before it
/// comes back to the next mask of `s`.
pub open spec fn expand(g: Course, s: int, q: int, setting: Setting) -> Option<Course>
    decreases usize::MAX - g.clauses.len(), 0int, masks_at(g, s, setting).len() - q,
{
    let masks = masks_at(g, s, setting);
    if !(g.clauses.len() <= usize::MAX) || !(0 <= q < masks.len()) {
        Some(g)
    } else {
        let next = successor(g.clauses[s].unwrap(), masks[q], setting);
        if g.clauses.contains(Some(next)) {
            expand(
                Course { steps: g.steps.push((s, masks[q], held_at(g.clauses, next))), ..g },
                s,
                q + 1,
                setting,
            )
        } else if g.clauses.len() == usize::MAX {
            Some(g)
        } else {
            let n = g.clauses.len() as int;
            let grown = Course {
                clauses: g.clauses.push(Some(next)),
                steps: g.steps.push((s, masks[q], n)),
                ..g
            };
            match explore(grown, n, setting) {
                Some(after) => if g.clauses.len() < after.clauses.len() <= usize::MAX {
                    expand(after, s, q + 1, setting)
                } else {
                    Some(after)
                },
                None => None,
            }
        }
    }
}

/// An analysis never takes a state or a step back.
pub proof fn lemma_explore_grows(g: Course, s: int, setting: Setting)
    ensures
        explore(g, s, setting) matches Some(h) ==> h.clauses.len() >= g.clauses.len()
            && h.steps.len() >= g.steps.len(),
    decreases usize::MAX - g.clauses.len(), 1int, 0int,
{
    if !(0 <= s < g.clauses.len() <= usize::MAX) || g.clauses[s].is_none() {
    } else {
        let c = g.clauses[s].unwrap();
        let found = g.conflict || conflicting(c, setting);
        if c is Boolean {
        } else if found && !setting.continues {
        } else if overfull(c, setting) {
        } else {
            lemma_expand_grows(Course { conflict: found, ..g }, s, 0, setting);
        }
    }
}

/// Following a state never takes a state or a step back.
pub proof fn lemma_expand_grows(g: Course, s: int, q: int, setting: Setting)
    ensures
        expand(g, s, q, setting) matches Some(h) ==> h.clauses.len() >= g.clauses.len()
            && h.steps.len() >= g.steps.len(),
    decreases usize::MAX - g.clauses.len(), 0int, masks_at(g, s, setting).len() - q,
{
    let masks = masks_at(g, s, setting);
    if !(g.clauses.len() <= usize::MAX) || !(0 <= q < masks.len()) {
    } else {
        let next = successor(g.clauses[s].unwrap(), masks[q], setting);
        if g.clauses.contains(Some(next)) {
            lemma_expand_grows(
                Course { steps: g.steps.push((s, masks[q], held_at(g.clauses, next))), ..g },
                s,
                q + 1,
                setting,
            );
        } else if g.clauses.len() == usize::MAX {
        } else {
            let n = g.clauses.len() as int;
            let grown = Course {
                clauses: g.clauses.push(Some(next)),
                steps: g.steps.push((s, masks[q], n)),
                ..g
            };
            lemma_explore_grows(grown, n, setting);
            match explore(grown, n, setting) {
                Some(after) => {
                    if g.clauses.len() < after.clauses.len() <= usize::MAX {
                        lemma_expand_grows(after, s, q + 1, setting);
                    }
                },
                None => {},
            }
        }
    }
}

/// Whether a state with the clause `p` goes to the clause `c` on `mask`.
pub open spec fn steps_to(p: Clause, mask: u32, c: Clause, setting: Setting) -> bool {
    !(p is Boolean) && concurrent_for(p, setting).1.contains(mask) && c == successor(p, mask, setting)
}

/// Whether at most `n` steps lead from the clause `first` to the clause `c`.
pub open spec fn reaches(first: Clause, c: Clause, setting: Setting, n: nat) -> bool
    decreases n,
{
    c == first || (n > 0 && exists|p: Clause, mask: u32|
        reaches(first, p, setting, (n - 1) as nat) && #[trigger] steps_to(p, mask, c, setting))
}

/// Whether `e` is the refusal of the actions of a clause that an analysis from `first`
/// can come to.
pub open spec fn refused_on_the_way(e: AnalysisError, first: Clause, setting: Setting) -> bool {
    exists|c: Clause, n: nat| #[trigger]
        reaches(first, c, setting, n) && action_count(c, setting) <= usize::MAX && e == refusal(
            action_count(c, setting),
        )
}

/// What an error says of an analysis from the clause `first` and of the course that
/// it was on. A clause that the analysis can come to can fire too many actions, and
/// there is no course; or no memory could be reserved for the subsets of the actions
/// of such a clause; or the course has more states or steps than the machine can
/// number.
pub open spec fn error_fits(
    e: AnalysisError,
    first: Clause,
    course: Option<Course>,
    setting: Setting,
) -> bool {
    match e {
        AnalysisError::CapacityExceeded { actions } => refused_on_the_way(e, first, setting)
            && actions > MAX_CONCURRENT_ACTIONS && course.is_none(),
        AnalysisError::AllocationRefused { combinations } => refused_on_the_way(e, first, setting)
            && subsets_of_some(combinations),
        AnalysisError::IdentifiersExhausted => !within_reach(course),
    }
}

/// What leads to a clause in some steps leads to it in more.
pub proof fn lemma_reaches_longer(first: Clause, c: Clause, setting: Setting, n: nat, m: nat)
    requires
        reaches(first, c, setting, n),
        n <= m,
    ensures
        reaches(first, c, setting, m),
    decreases n,
{
    if c != first {
        let (p, mask) = choose|p: Clause, mask: u32|
            reaches(first, p, setting, (n - 1) as nat) && #[trigger] steps_to(p, mask, c, setting);
        lemma_reaches_longer(first, p, setting, (n - 1) as nat, (m - 1) as nat);
        assert(steps_to(p, mask, c, setting));
    }
}

/// The clause of every state is one that the analysis from the first clause can come
/// to.
pub proof fn lemma_states_reached(a: Automaton, setting: Setting, pending: int, i: int)
    requires
        consistent(a, setting, pending),
        0 <= i < a.states@.len(),
    ensures
        reaches(a.states@[0].clause.unwrap(), a.states@[i].clause.unwrap(), setting, i as nat),
    decreases i,
{
    if i > 0 {
        assert(traced(a, i));
        let k = a.states@[i].trace@[0] - 1;
        let t = a.transitions@[k];
        assert(step_ok(t, clauses_of(a.states@), setting));
        let from = t.from as int;
        assert(clauses_of(a.states@)[from] == a.states@[from].clause);
        assert(clauses_of(a.states@)[i] == a.states@[i].clause);
        lemma_states_reached(a, setting, pending, from);
        let first = a.states@[0].clause.unwrap();
        let p = a.states@[from].clause.unwrap();
        lemma_reaches_longer(first, p, setting, from as nat, (i - 1) as nat);
        assert(steps_to(p, t.mask, a.states@[i].clause.unwrap(), setting));
    }
}

/// The course of the analysis of a contract with the clause `first`; without a clause
/// it has no state. `None` where the analysis comes to a state that can fire more
/// actions than an analysis takes.
pub open spec fn spec_course(first: Option<Clause>, setting: Setting) -> Option<Course> {
    match first {
        Some(c) => explore(
            Course { clauses: seq![Some(c)], steps: Seq::empty(), conflict: false },
            0,
            setting,
        ),
        None => Some(Course { clauses: Seq::empty(), steps: Seq::empty(), conflict: false }),
    }
}

/// Settling a state leaves the course as it is, but for the conflict that it may find.
proof fn lemma_course_settled(before: Automaton, after: Automaton)
    requires
        after.states@.len() == before.states@.len(),
        forall|i: int|
            0 <= i < before.states@.len() ==> (#[trigger] after.states@[i]).clause
                == before.states@[i].clause,
        after.transitions == before.transitions,
    ensures
        course_of(after) == (Course { conflict: after.conflict_found, ..course_of(before) }),
{
    assert(clauses_of(after.states@) =~= clauses_of(before.states@));
    assert(course_of(after).steps =~= course_of(before).steps);
}

/// A step to a clause that has a state adds the step to the course.
proof fn lemma_course_step(before: Automaton, after: Automaton, setting: Setting, c: Clause, q: int)
    requires
        consistent(before, setting, -1),
        after.states == before.states,
        after.conflict_found == before.conflict_found,
        after.transitions@.len() == before.transitions@.len() + 1,
        forall|k: int|
            0 <= k < before.transitions@.len() ==> after.transitions@[k] == before.transitions@[k],
        after.transitions@.last().from < before.states@.len(),
        after.transitions@.last().to < before.states@.len(),
        before.states@[after.transitions@.last().from as int].clause == Some(c),
        0 <= q < concurrent_for(c, setting).1.len(),
        after.transitions@.last().mask == concurrent_for(c, setting).1[q],
        before.states@[after.transitions@.last().to as int].clause == Some(
            successor(c, after.transitions@.last().mask, setting),
        ),
    ensures
        expand(course_of(before), after.transitions@.last().from as int, q, setting) == expand(
            course_of(after),
            after.transitions@.last().from as int,
            q + 1,
            setting,
        ),
{
    let t = after.transitions@.last();
    let g = course_of(before);
    let next = successor(c, t.mask, setting);
    assert(g.clauses.len() == before.states.len());
    assert(g.clauses[t.to as int] == Some(next));
    assert(g.clauses.contains(Some(next)));
    let j = held_at(g.clauses, next);
    assert(0 <= j < g.clauses.len() && g.clauses[j] == Some(next));
    if j != t.to {
        lemma_states_apart(before, setting, j, t.to as int);
    }
    assert(course_of(after).steps =~= g.steps.push((t.from as int, t.mask, j)));
    assert(course_of(after) == (Course { steps: g.steps.push((t.from as int, t.mask, j)), ..g }));
    assert(masks_at(g, t.from as int, setting) == concurrent_for(c, setting).1);
}

/// A step to a clause that has no state adds the state and the step to the course.
proof fn lemma_course_grown(before: Automaton, grown: Automaton, setting: Setting, c: Clause, q: int)
    requires
        consistent(before, setting, -1),
        before.states@.len() < usize::MAX,
        grown.states@.len() == before.states@.len() + 1,
        forall|i: int|
            0 <= i < before.states@.len() ==> (#[trigger] grown.states@[i]).clause
                == before.states@[i].clause,
        grown.conflict_found == before.conflict_found,
        grown.transitions@.len() == before.transitions@.len() + 1,
        forall|k: int|
            0 <= k < before.transitions@.len() ==> grown.transitions@[k] == before.transitions@[k],
        grown.transitions@.last().from < before.states@.len(),
        grown.transitions@.last().to == before.states@.len(),
        before.states@[grown.transitions@.last().from as int].clause == Some(c),
        0 <= q < concurrent_for(c, setting).1.len(),
        grown.transitions@.last().mask == concurrent_for(c, setting).1[q],
        grown.states@.last().clause == Some(successor(c, grown.transitions@.last().mask, setting)),
        !before.has_clause(successor(c, grown.transitions@.last().mask, setting)),
    ensures
        expand(course_of(before), grown.transitions@.last().from as int, q, setting) == (
        match explore(course_of(grown), before.states@.len() as int, setting) {
            Some(after) => if before.states@.len() < after.clauses.len() <= usize::MAX {
                expand(after, grown.transitions@.last().from as int, q + 1, setting)
            } else {
                Some(after)
            },
            None => None,
        }),
{
    let t = grown.transitions@.last();
    let g = course_of(before);
    let next = successor(c, t.mask, setting);
    if g.clauses.contains(Some(next)) {
        let j = choose|j: int| 0 <= j < g.clauses.len() && g.clauses[j] == Some(next);
        assert(before.states@[j].clause == Some(next));
    }
    assert(course_of(grown).clauses =~= g.clauses.push(Some(next)));
    assert(course_of(grown).steps =~= g.steps.push((t.from as int, t.mask, g.clauses.len() as int)));
    assert(course_of(grown) == (Course {
        clauses: g.clauses.push(Some(next)),
        steps: g.steps.push((t.from as int, t.mask, g.clauses.len() as int)),
        ..g
    }));
    assert(masks_at(g, t.from as int, setting) == concurrent_for(c, setting).1);
}

/// The clause that `mask` leads to, beside the mask.
pub fn step(
    decomposer: &ClauseDecomposer,
    clause: &Clause,
    source: &Vec<RelativizedAction>,
    mask: u32,
) -> (r: (u32, Clause))
    ensures
        r.0 == mask,
        r.1 == ClauseDecomposer::residual(decomposer.roster(), *clause, decode(source@, mask)),
{
    let chosen = decode_mask(source, mask);
    (mask, decomposer.decompose(clause, &chosen))
}

/// rayon's `par_iter`, `map` and `collect` over `masks[start..end]`: for each mask, in
/// the order of the masks, what `step` returns for it.
#[verifier::external_body]
fn par_steps(
    decomposer: &ClauseDecomposer,
    clause: &Clause,
    source: &Vec<RelativizedAction>,
    masks: &Vec<u32>,
    start: usize,
    end: usize,
) -> (r: Vec<(u32, Clause)>)
    requires
        start <= end <= masks.len(),
    ensures
        r@.len() == end - start,
        forall|k: int|
            0 <= k < r@.len() ==> (#[trigger] r@[k]).0 == masks@[start + k] && r@[k].1
                == ClauseDecomposer::residual(
                decomposer.roster(),
                *clause,
                decode(source@, masks@[start + k]),
            ),
{
    masks[start..end].par_iter().map(|mask| step(decomposer, clause, source, *mask)).collect()
}

/// Builds the automaton of a contract.
pub struct AutomataConstructor {
    config: RunConfiguration,
}

impl AutomataConstructor {
    /// The settings of the run.
    pub closed spec fn config(&self) -> RunConfiguration {
        self.config
    }

    pub fn new(config: RunConfiguration) -> (c: Self)
        ensures
            c.config() == config,
    {
        AutomataConstructor { config }
    }

    /// What the analysis of `contract` is run over.
    pub open spec fn setting(&self, contract: &Contract) -> Setting {
        setting_for(self.config(), contract)
    }

    /// The automaton of `contract`. Its states and transitions are those of the course
    /// of the analysis, in the order of the course: from the state of the whole
    /// contract, every state is settled and followed along each of its valid masks,
    /// and a state that is new is analysed before the next mask is taken. Where the
    /// analysis stops at conflicts, a conflicting state and the states found after it
    /// are settled and not followed. An analysis that ends at its first state
    /// succeeds. One whose first state can fire too many actions fails on it. Any other
    /// error tells of the analysis what [`error_fits`] says: a state on the way can
    /// fire too many actions, no memory could be had for the subsets of its actions,
    /// or the course has more states or steps than can be numbered.
    pub fn process(&mut self, contract: &Contract, symbol_table: &SymbolTable) -> (r: Result<
        Automaton,
        AnalysisError,
    >)
        requires
            symbol_table.well_formed(),
        ensures
            final(self).config() == old(self).config(),
            spec_full_contract(contract.clauses@, symbol_table).is_none() ==> r is Ok,
            spec_full_contract(contract.clauses@, symbol_table) matches Some(c) && ends_at(
                c,
                old(self).setting(contract),
                false,
            ) ==> (r matches Ok(a) && a.states@.len() == 1 && a.transitions@.len() == 0),
            match spec_full_contract(contract.clauses@, symbol_table) {
                Some(c) => !ends_at(c, old(self).setting(contract), false) && overfull(
                    c,
                    old(self).setting(contract),
                ) ==> (r matches Err(AnalysisError::CapacityExceeded { actions }) && actions
                    == action_count(c, old(self).setting(contract))),
                None => true,
            },
            r matches Err(e) ==> error_fits(
                e,
                spec_full_contract(contract.clauses@, symbol_table).unwrap(),
                spec_course(
                    spec_full_contract(contract.clauses@, symbol_table),
                    old(self).setting(contract),
                ),
                old(self).setting(contract),
            ),
            r matches Ok(a) ==> {
                &&& spec_course(
                    spec_full_contract(contract.clauses@, symbol_table),
                    old(self).setting(contract),
                ) == Some(course_of(a))
                &&& analysed(a, old(self).setting(contract))
                &&& forall|i: int|
                    0 <= i < a.states@.len() ==> covered(
                        a,
                        i,
                        old(self).setting(contract),
                    )
                &&& match spec_full_contract(contract.clauses@, symbol_table) {
                    Some(c) => a.states@.len() >= 1 && a.states@[0].clause == Some(c)
                        && a.initial.is_some() && a.initial.unwrap().is_fresh(0, Some(c)),
                    None => a.states@.len() == 0 && a.initial.is_none(),
                }
            },
    {
        let conflicts = contract.get_all_conflicts();
        let mut extractor = ActionExtractor::new(copy_of(&conflicts));
        let mut automaton = Automaton::new(contract, symbol_table);
        proof {
            assert(course_of(automaton).steps =~= Seq::empty());
            match spec_full_contract(contract.clauses@, symbol_table) {
                Some(c) => {
                    assert(course_of(automaton).clauses =~= seq![Some(c)]);
                },
                None => {
                    assert(course_of(automaton).clauses =~= Seq::empty());
                },
            }
        }
        if automaton.states.len() > 0 {
            match self.construct_automaton(&mut automaton, &mut extractor, contract, &conflicts, 0) {
                Ok(()) => {},
                Err(e) => {
                    return Err(e);
                },
            }
        }
        Ok(automaton)
    }

    /// Settles the state `state_id` and, unless a conflict stops the analysis, follows
    /// it along each of its valid masks.
    fn construct_automaton(
        &self,
        automaton: &mut Automaton,
        extractor: &mut ActionExtractor,
        contract: &Contract,
        conflicts: &Vec<Conflict>,
        state_id: usize,
    ) -> (r: Result<(), AnalysisError>)
        requires
            consistent(*old(automaton), self.setting(contract), state_id as int),
            state_id + 1 == old(automaton).states@.len(),
            old(extractor).well_formed(),
            old(extractor).conflicts() == conflicts@,
            conflicts@ == self.setting(contract).conflicts,
        ensures
            final(extractor).well_formed(),
            final(extractor).conflicts() == conflicts@,
            final(automaton).states@.len() >= old(automaton).states@.len(),
            final(automaton).initial == old(automaton).initial,
            extends(*old(automaton), *final(automaton)),
            r matches Err(e) ==> error_fits(
                e,
                old(automaton).states@[0].clause.unwrap(),
                explore(course_of(*old(automaton)), state_id as int, self.setting(contract)),
                self.setting(contract),
            ),
            !ends_at(
                old(automaton).states@[state_id as int].clause.unwrap(),
                self.setting(contract),
                old(automaton).conflict_found,
            ) && overfull(old(automaton).states@[state_id as int].clause.unwrap(), self.setting(contract))
                ==> (r matches Err(AnalysisError::CapacityExceeded { actions }) && actions
                == action_count(
                old(automaton).states@[state_id as int].clause.unwrap(),
                self.setting(contract),
            )),
            r is Ok ==> explore(course_of(*old(automaton)), state_id as int, self.setting(contract))
                == Some(course_of(*final(automaton))),
            r is Ok ==> consistent(*final(automaton), self.setting(contract), -1) && forall|i: int|
                0 <= i < old(automaton).states@.len() ==> (#[trigger] final(automaton).states@[i]).clause
                    == old(automaton).states@[i].clause,
            r is Ok ==> grown_from(*old(automaton), *final(automaton), state_id as int),
            ends_at(
                old(automaton).states@[state_id as int].clause.unwrap(),
                self.setting(contract),
                old(automaton).conflict_found,
            ) ==> r is Ok && final(automaton).states@.len() == old(automaton).states@.len()
                && final(automaton).transitions == old(automaton).transitions,
            r is Ok ==> forall|i: int|
                0 <= i < state_id ==> (#[trigger] final(automaton).states@[i]).situation
                    == old(automaton).states@[i].situation,
            r is Ok ==> forall|j: int|
                (j == state_id || old(automaton).states@.len() <= j) && 0 <= j
                    < final(automaton).states@.len() ==> covered(
                    *final(automaton),
                    j,
                    self.setting(contract),
                ),
        decreases usize::MAX - old(automaton).states.len(), 2int,
    {
        let ghost setting = self.setting(contract);
        let ghost continues = self.config().continue_on_conflict;
        let ghost before = *automaton;
        proof {
            assert(automaton.states@.len() == automaton.states.len());
        }
        let clause = match &automaton.states[state_id].clause {
            Some(c) => c.clone(),
            None => {
                return Ok(());
            },
        };
        let individuals = self.get_individuals(&clause, contract);
        if let Clause::Boolean { value, .. } = clause {
            self.mark_boolean_state(automaton, state_id, value, Ghost(setting));
            proof {
                lemma_course_settled(before, *automaton);
            }
            return Ok(());
        }
        let has_conflict = self.check_conflict_without_clone(
            automaton,
            state_id,
            &individuals,
            conflicts,
            Ghost(setting),
        );
        proof {
            lemma_course_settled(before, *automaton);
        }
        if automaton.conflict_found && !self.config.is_continue_on_conflict() {
            proof {
                assert(conflict_by(*automaton, state_id as int));
            }
            return Ok(());
        }
        proof {
            if !continues && conflict_by(*automaton, state_id as int) {
                assert(automaton.conflict_found);
            }
        }
        let compressed = match self.generate_actions(extractor, &clause, &individuals) {
            Ok(c) => c,
            Err(e) => {
                proof {
                    let n = action_count(clause, setting);
                    lemma_states_reached(before, setting, state_id as int, state_id as int);
                    assert(reaches(
                        before.states@[0].clause.unwrap(),
                        clause,
                        setting,
                        state_id as nat,
                    ));
                    assert(refused_on_the_way(e, before.states@[0].clause.unwrap(), setting));
                    if n <= MAX_CONCURRENT_ACTIONS {
                        lemma_pow2_bound(n);
                        assert(e == (AnalysisError::AllocationRefused { combinations: pow2(n) as u64 }));
                        assert(subsets_of_some(pow2(n) as u64));
                    }
                }
                return Err(e);
            },
        };
        self.follow(automaton, extractor, contract, conflicts, state_id, clause, individuals, compressed)
    }

    /// Follows the settled state `state_id` along each of its valid masks, in their
    /// order.
    #[verifier::loop_isolation(false)]
    fn follow(
        &self,
        automaton: &mut Automaton,
        extractor: &mut ActionExtractor,
        contract: &Contract,
        conflicts: &Vec<Conflict>,
        state_id: usize,
        clause: Clause,
        individuals: Vec<i32>,
        compressed: CompressedConcurrentActions,
    ) -> (r: Result<(), AnalysisError>)
        requires
            consistent(*old(automaton), self.setting(contract), -1),
            state_id < old(automaton).states@.len(),
            old(automaton).states@[state_id as int].clause == Some(clause),
            !(clause is Boolean),
            forall|k: int|
                0 <= k < old(automaton).transitions@.len() ==> (
                #[trigger] old(automaton).transitions@[k]).from != state_id,
            !self.setting(contract).continues ==> !conflict_by(*old(automaton), state_id as int),
            individuals@ == individuals_for(clause, self.setting(contract)),
            (compressed.source_map@, compressed.valid_masks@) == concurrent_for(
                clause,
                self.setting(contract),
            ),
            !overfull(clause, self.setting(contract)),
            old(extractor).well_formed(),
            old(extractor).conflicts() == conflicts@,
            conflicts@ == self.setting(contract).conflicts,
        ensures
            final(extractor).well_formed(),
            final(extractor).conflicts() == conflicts@,
            final(automaton).states@.len() >= old(automaton).states@.len(),
            final(automaton).initial == old(automaton).initial,
            extends(*old(automaton), *final(automaton)),
            r matches Err(e) ==> error_fits(
                e,
                old(automaton).states@[0].clause.unwrap(),
                expand(course_of(*old(automaton)), state_id as int, 0, self.setting(contract)),
                self.setting(contract),
            ),
            r is Ok ==> expand(course_of(*old(automaton)), state_id as int, 0, self.setting(contract))
                == Some(course_of(*final(automaton))),
            r is Ok ==> consistent(*final(automaton), self.setting(contract), -1),
            r is Ok ==> forall|i: int|
                0 <= i < old(automaton).states@.len() ==> (#[trigger] final(automaton).states@[i]).clause
                    == old(automaton).states@[i].clause && final(automaton).states@[i].situation
                    == old(automaton).states@[i].situation,
            r is Ok ==> grown_from(*old(automaton), *final(automaton), state_id as int),
            r is Ok ==> forall|j: int|
                (j == state_id || old(automaton).states@.len() <= j) && 0 <= j
                    < final(automaton).states@.len() ==> covered(
                    *final(automaton),
                    j,
                    self.setting(contract),
                ),
        decreases usize::MAX - old(automaton).states.len(), 1int,
    {
        let ghost setting = self.setting(contract);
        let ghost continues = self.config().continue_on_conflict;
        proof {
            lemma_concurrent_bounds(
                spec_elaborate(clause),
                distinct(individuals_for(clause, setting)),
                setting.conflicts,
            );
        }
        let decomposer = ClauseDecomposer::new(copy_of(&individuals), true);
        let source_map = &compressed.source_map;
        let masks = &compressed.valid_masks;
        proof {
            let bounded = concurrent_for(clause, setting);
            assert(bounded.0 == source_map@ && bounded.1 == masks@);
            assert(masks@.no_duplicates());
            assert forall|i: int| 0 <= i < masks@.len() implies (#[trigger] masks@[i]) < pow2(
                source_map@.len(),
            ) by {
                assert(masks@[i] == bounded.1[i]);
            }
        }
        let mut start: usize = 0;
        while start < masks.len()
            invariant
                start <= masks.len(),
                setting == self.setting(contract),
                consistent(*automaton, setting, -1),
                state_id < old(automaton).states@.len(),
                automaton.states@.len() >= old(automaton).states@.len(),
                automaton.initial == old(automaton).initial,
                forall|i: int|
                    0 <= i < old(automaton).states@.len() ==> (#[trigger] automaton.states@[i]).clause
                        == old(automaton).states@[i].clause,
                old(automaton).states@[state_id as int].clause == Some(clause),
                !(clause is Boolean),
                extractor.well_formed(),
                extractor.conflicts() == conflicts@,
                conflicts@ == setting.conflicts,
                (source_map@, masks@) == concurrent_for(clause, setting),
                decomposer.roster() == roster_for(clause, setting),
                source_map@.len() <= MAX_CONCURRENT_ACTIONS + 1,
                forall|i: int| 0 <= i < masks@.len() ==> (#[trigger] masks@[i]) < pow2(source_map@.len()),
                continues == self.config().continue_on_conflict,
                !continues ==> !conflict_by(*automaton, state_id as int),
                forall|i: int|
                    0 <= i < old(automaton).states@.len() ==> (#[trigger] automaton.states@[i]).situation
                        == old(automaton).states@[i].situation,
                expand(course_of(*old(automaton)), state_id as int, 0, setting) == expand(
                    course_of(*automaton),
                    state_id as int,
                    start as int,
                    setting,
                ),
                extends(*old(automaton), *automaton),
                forall|j: int|
                    old(automaton).states@.len() <= j < automaton.states@.len() ==> covered(
                        *automaton,
                        j,
                        setting,
                    ),
                forall|q: int|
                    0 <= q < start ==> has_step(automaton.transitions@, state_id as int, #[trigger] masks@[q]),
                masks@.no_duplicates(),
                grown_from(*old(automaton), *automaton, state_id as int),
                forall|k: int|
                    0 <= k < automaton.transitions@.len() && (
                    #[trigger] automaton.transitions@[k]).from == state_id ==> exists|q: int|
                        0 <= q < start && #[trigger] masks@[q] == automaton.transitions@[k].mask,
            decreases masks.len() - start,
        {
            let end: usize = if masks.len() - start > BATCH_SIZE {
                start + BATCH_SIZE
            } else {
                masks.len()
            };
            let batch = par_steps(&decomposer, &clause, &**source_map, masks, start, end);
            let mut k: usize = 0;
            while k < batch.len()
                invariant
                    k <= batch.len(),
                    start < end <= masks.len(),
                    batch@.len() == end - start,
                    forall|q: int|
                        0 <= q < batch@.len() ==> (#[trigger] batch@[q]).0 == masks@[start + q]
                            && batch@[q].1 == ClauseDecomposer::residual(
                            decomposer.roster(),
                            clause,
                            decode(source_map@, masks@[start + q]),
                        ),
                    setting == self.setting(contract),
                    consistent(*automaton, setting, -1),
                    state_id < old(automaton).states@.len(),
                    automaton.states@.len() >= old(automaton).states@.len(),
                    automaton.initial == old(automaton).initial,
                    forall|i: int|
                        0 <= i < old(automaton).states@.len() ==> (
                        #[trigger] automaton.states@[i]).clause == old(automaton).states@[i].clause,
                    old(automaton).states@[state_id as int].clause == Some(clause),
                    !(clause is Boolean),
                    extractor.well_formed(),
                    extractor.conflicts() == conflicts@,
                    conflicts@ == setting.conflicts,
                    (source_map@, masks@) == concurrent_for(clause, setting),
                    decomposer.roster() == roster_for(clause, setting),
                    source_map@.len() <= MAX_CONCURRENT_ACTIONS + 1,
                    forall|i: int|
                        0 <= i < masks@.len() ==> (#[trigger] masks@[i]) < pow2(source_map@.len()),
                    continues == self.config().continue_on_conflict,
                    !continues ==> !conflict_by(*automaton, state_id as int),
                    forall|i: int|
                        0 <= i < old(automaton).states@.len() ==> (
                        #[trigger] automaton.states@[i]).situation
                            == old(automaton).states@[i].situation,
                    expand(course_of(*old(automaton)), state_id as int, 0, setting) == expand(
                        course_of(*automaton),
                        state_id as int,
                        start + k,
                        setting,
                    ),
                    extends(*old(automaton), *automaton),
                    forall|j: int|
                        old(automaton).states@.len() <= j < automaton.states@.len() ==> covered(
                            *automaton,
                            j,
                            setting,
                        ),
                    forall|q: int|
                        0 <= q < start + k ==> has_step(
                            automaton.transitions@,
                            state_id as int,
                            #[trigger] masks@[q],
                        ),
                    masks@.no_duplicates(),
                    grown_from(*old(automaton), *automaton, state_id as int),
                    forall|t: int|
                        0 <= t < automaton.transitions@.len() && (
                        #[trigger] automaton.transitions@[t]).from == state_id ==> exists|q: int|
                            0 <= q < start + k && #[trigger] masks@[q] == automaton.transitions@[t].mask,
                decreases batch.len() - k,
            {
                let mask = batch[k].0;
                let next_clause = batch[k].1.clone();
                proof {
                    assert(mask == masks@[start + k]);
                    assert(masks@.contains(mask));
                    assert(automaton.states@[state_id as int].clause == Some(clause));
                    if has_step(automaton.transitions@, state_id as int, mask) {
                        let t = choose|t: int|
                            0 <= t < automaton.transitions@.len() && (
                            #[trigger] automaton.transitions@[t]).from == state_id
                                && automaton.transitions@[t].mask == mask;
                        let q = choose|q: int|
                            0 <= q < start + k && #[trigger] masks@[q] == automaton.transitions@[t].mask;
                        assert(masks@[q] == masks@[start + k]);
                    }
                }
                let ghost earlier = *automaton;
                match self.integrate(
                    automaton,
                    extractor,
                    contract,
                    conflicts,
                    state_id,
                    mask,
                    next_clause,
                    source_map,
                    Ghost(clause),
                    Ghost(start + k),
                ) {
                    Ok(()) => {},
                    Err(e) => {
                        return Err(e);
                    },
                }
                proof {
                    lemma_conflict_by_agrees(earlier, *automaton, state_id as int);
                    assert forall|j: int|
                        old(automaton).states@.len() <= j < automaton.states@.len() implies covered(
                        *automaton,
                        j,
                        setting,
                    ) by {
                        if j < earlier.states@.len() {
                            lemma_covered_persists(earlier, *automaton, j, setting);
                        }
                    }
                    assert forall|q: int| 0 <= q < start + k + 1 implies has_step(
                        automaton.transitions@,
                        state_id as int,
                        #[trigger] masks@[q],
                    ) by {
                        if q < start + k {
                            lemma_step_persists(earlier, *automaton, state_id as int, masks@[q]);
                        }
                    }
                    assert forall|t: int|
                        0 <= t < automaton.transitions@.len() && (
                        #[trigger] automaton.transitions@[t]).from == state_id implies exists|q: int|
                        0 <= q < start + k + 1 && #[trigger] masks@[q]
                            == automaton.transitions@[t].mask by {
                        if t < earlier.transitions@.len() {
                            assert(automaton.transitions@[t] == earlier.transitions@[t]);
                            let q = choose|q: int|
                                0 <= q < start + k && #[trigger] masks@[q]
                                    == earlier.transitions@[t].mask;
                            assert(masks@[q] == automaton.transitions@[t].mask);
                        } else if t == earlier.transitions@.len() {
                            assert(masks@[start + k] == automaton.transitions@[t].mask);
                        }
                    }
                    assert forall|t: int|
                        old(automaton).transitions@.len() <= t
                            < automaton.transitions@.len() implies (
                    #[trigger] automaton.transitions@[t]).from == state_id
                        || automaton.transitions@[t].from >= old(automaton).states@.len() by {
                        if t < earlier.transitions@.len() {
                            assert(automaton.transitions@[t] == earlier.transitions@[t]);
                        }
                    }
                }
                k += 1;
            }
            start = end;
        }
        proof {
            assert(followed(*automaton, state_id as int, setting));
            assert(automaton.states@.len() == automaton.states.len());
            assert(masks_at(course_of(*automaton), state_id as int, setting) == masks@);
        }
        Ok(())
    }

    /// Records the step from the state `from` on `mask` to the state of `next_clause`;
    /// a state that is new is added and analysed in turn.
    fn integrate(
        &self,
        automaton: &mut Automaton,
        extractor: &mut ActionExtractor,
        contract: &Contract,
        conflicts: &Vec<Conflict>,
        from: usize,
        mask: u32,
        next_clause: Clause,
        source_map: &Arc<Vec<RelativizedAction>>,
        Ghost(clause): Ghost<Clause>,
        Ghost(q): Ghost<int>,
    ) -> (r: Result<(), AnalysisError>)
        requires
            consistent(*old(automaton), self.setting(contract), -1),
            from < old(automaton).states@.len(),
            old(automaton).states@[from as int].clause == Some(clause),
            !(clause is Boolean),
            source_map@ == concurrent_for(clause, self.setting(contract)).0,
            0 <= q < concurrent_for(clause, self.setting(contract)).1.len(),
            concurrent_for(clause, self.setting(contract)).1[q] == mask,
            next_clause == successor(clause, mask, self.setting(contract)),
            !has_step(old(automaton).transitions@, from as int, mask),
            !self.setting(contract).continues ==> !conflict_by(*old(automaton), from as int),
            source_map@.len() <= MAX_CONCURRENT_ACTIONS + 1,
            mask < pow2(source_map@.len()),
            old(extractor).well_formed(),
            old(extractor).conflicts() == conflicts@,
            conflicts@ == self.setting(contract).conflicts,
        ensures
            final(extractor).well_formed(),
            final(extractor).conflicts() == conflicts@,
            final(automaton).states@.len() >= old(automaton).states@.len(),
            final(automaton).initial == old(automaton).initial,
            extends(*old(automaton), *final(automaton)),
            r matches Err(e) ==> error_fits(
                e,
                old(automaton).states@[0].clause.unwrap(),
                expand(course_of(*old(automaton)), from as int, q, self.setting(contract)),
                self.setting(contract),
            ),
            r is Ok ==> expand(course_of(*old(automaton)), from as int, q, self.setting(contract))
                == expand(course_of(*final(automaton)), from as int, q + 1, self.setting(contract)),
            r is Ok ==> consistent(*final(automaton), self.setting(contract), -1) && forall|i: int|
                0 <= i < old(automaton).states@.len() ==> (#[trigger] final(automaton).states@[i]).clause
                    == old(automaton).states@[i].clause,
            r is Ok ==> has_step(final(automaton).transitions@, from as int, mask),
            r is Ok ==> forall|i: int|
                0 <= i < old(automaton).states@.len() ==> (#[trigger] final(automaton).states@[i])
                    .situation == old(automaton).states@[i].situation,
            r is Ok ==> final(automaton).transitions@.len() > old(automaton).transitions@.len()
                && final(automaton).transitions@[old(automaton).transitions@.len() as int].from
                == from && final(automaton).transitions@[old(
                automaton,
            ).transitions@.len() as int].mask == mask && forall|k: int|
                old(automaton).transitions@.len() < k < final(automaton).transitions@.len() ==> (
                #[trigger] final(automaton).transitions@[k]).from >= old(automaton).states@.len(),
            r is Ok ==> forall|j: int|
                old(automaton).states@.len() <= j < final(automaton).states@.len() ==> covered(
                    *final(automaton),
                    j,
                    self.setting(contract),
                ),
        decreases usize::MAX - old(automaton).states.len(), 0int,
    {
        let ghost setting = self.setting(contract);
        let transition_id = match automaton.transitions.len().checked_add(1) {
            Some(id) => id,
            None => {
                proof {
                    assert(course_of(*automaton).steps.len() == automaton.transitions.len());
                    lemma_expand_grows(course_of(*automaton), from as int, q, setting);
                }
                return Err(AnalysisError::IdentifiersExhausted);
            },
        };
        let existing = match automaton.get_state_by_clause(&next_clause) {
            Some(s) => Some(s.id),
            None => None,
        };
        match existing {
            Some(to) => {
                let transition = Transition::new(transition_id, from, to, mask, share(source_map));
                proof {
                    assert(step_ok(transition, clauses_of(automaton.states@), setting));
                }
                let ghost before = *automaton;
                automaton.transitions.push(transition);
                proof {
                    assert(automaton.transitions@[before.transitions@.len() as int].from == from);
                    assert(has_step(automaton.transitions@, from as int, mask));
                    lemma_transition_added(before, *automaton, setting, -1);
                    lemma_course_step(before, *automaton, setting, clause, q);
                    if !setting.continues {
                        assert forall|k: int|
                            0 <= k < automaton.transitions@.len() implies !conflict_by(
                            *automaton,
                            (#[trigger] automaton.transitions@[k]).from as int,
                        ) by {
                            let source = automaton.transitions@[k].from as int;
                            if k < before.transitions@.len() {
                                assert(automaton.transitions@[k] == before.transitions@[k]);
                                assert(step_ok(
                                    before.transitions@[k],
                                    clauses_of(before.states@),
                                    setting,
                                ));
                            }
                            lemma_conflict_by_agrees(before, *automaton, source);
                        }
                    }
                    assert forall|k: int| 0 <= k < automaton.transitions@.len() implies step_ok(
                        #[trigger] automaton.transitions@[k],
                        clauses_of(automaton.states@),
                        setting,
                    ) by {
                        if k < before.transitions@.len() {
                            assert(step_ok(
                                before.transitions@[k],
                                clauses_of(before.states@),
                                setting,
                            ));
                        }
                    }
                }
                Ok(())
            },
            None => {
                let new_state_id = automaton.states.len();
                if new_state_id == usize::MAX {
                    proof {
                        assert(course_of(*automaton).clauses.len() == automaton.states.len());
                        lemma_expand_grows(course_of(*automaton), from as int, q, setting);
                    }
                    return Err(AnalysisError::IdentifiersExhausted);
                }
                let ghost before = *automaton;
                let new_state = State::with_auto_id(new_state_id, Some(next_clause));
                automaton.states.push(new_state);
                let transition = Transition::new(
                    transition_id,
                    from,
                    new_state_id,
                    mask,
                    share(source_map),
                );
                proof {
                    assert(clauses_of(automaton.states@) =~= clauses_of(before.states@).push(
                        Some(next_clause),
                    ));
                    assert(step_ok(transition, clauses_of(automaton.states@), setting));
                    assert forall|k: int| 0 <= k < automaton.transitions@.len() implies step_ok(
                        #[trigger] automaton.transitions@[k],
                        clauses_of(automaton.states@),
                        setting,
                    ) by {
                        assert(step_ok(before.transitions@[k], clauses_of(before.states@), setting));
                    }
                    assert forall|i: int, j: int| 0 <= i < j < automaton.states@.len() implies (
                    #[trigger] automaton.states@[i]).clause != (#[trigger] automaton.states@[j]).clause by {
                        if j == new_state_id {
                            assert(before.states@[i].clause != Some(next_clause));
                        } else {
                            assert(before.states@[i].clause != before.states@[j].clause);
                        }
                    }
                }
                automaton.transitions.push(transition);
                let mut found_state = automaton.states[new_state_id].duplicate();
                found_state.push_trace(transition_id);
                automaton.states.set(new_state_id, found_state);
                proof {
                    assert(clauses_of(automaton.states@) =~= clauses_of(before.states@).push(
                        Some(next_clause),
                    ));
                    assert forall|i: int|
                        0 <= i < automaton.states@.len() && i != new_state_id implies settled(
                        #[trigger] automaton.states@[i],
                        setting,
                    ) by {
                        assert(automaton.states@[i] == before.states@[i]);
                    }
                    assert forall|i: int, j: int| 0 <= i < j < automaton.states@.len() implies (
                    #[trigger] automaton.states@[i]).clause != (#[trigger] automaton.states@[j]).clause by {
                        assert(clauses_of(automaton.states@)[i] == automaton.states@[i].clause);
                        assert(clauses_of(automaton.states@)[j] == automaton.states@[j].clause);
                        if j == new_state_id {
                            assert(before.states@[i].clause != Some(next_clause));
                        } else {
                            assert(before.states@[i].clause != before.states@[j].clause);
                        }
                    }
                    assert(automaton.conflict_found <==> exists|i: int|
                        0 <= i < automaton.states@.len() && i != new_state_id && (
                        #[trigger] automaton.states@[i]).situation == StateSituation::Conflicting) by {
                        if before.conflict_found {
                            let w = choose|i: int|
                                0 <= i < before.states@.len() && i != -1 && (
                                #[trigger] before.states@[i]).situation
                                    == StateSituation::Conflicting;
                            assert(automaton.states@[w] == before.states@[w]);
                        }
                        if exists|i: int|
                            0 <= i < automaton.states@.len() && i != new_state_id && (
                            #[trigger] automaton.states@[i]).situation
                                == StateSituation::Conflicting {
                            let w = choose|i: int|
                                0 <= i < automaton.states@.len() && i != new_state_id && (
                                #[trigger] automaton.states@[i]).situation
                                    == StateSituation::Conflicting;
                            assert(automaton.states@[w] == before.states@[w]);
                        }
                    }
                    assert forall|i: int| 0 <= i < automaton.states@.len() implies traced(
                        *automaton,
                        i,
                    ) by {
                        if i < before.states@.len() {
                            assert(traced(before, i));
                            assert(automaton.states@[i] == before.states@[i]);
                            if i > 0 {
                                assert(automaton.transitions@[before.states@[i].trace@[0] - 1]
                                    == before.transitions@[before.states@[i].trace@[0] - 1]);
                            }
                        }
                    }
                    assert forall|j: int, k: int|
                        0 <= j < k < automaton.transitions@.len() implies !((
                    #[trigger] automaton.transitions@[j]).from == (
                    #[trigger] automaton.transitions@[k]).from && automaton.transitions@[j].mask
                        == automaton.transitions@[k].mask) by {
                        assert(automaton.transitions@[j] == before.transitions@[j]);
                        if k < before.transitions@.len() {
                            assert(automaton.transitions@[k] == before.transitions@[k]);
                        }
                    }
                    assert forall|k: int| 0 <= k < automaton.transitions@.len() implies (
                    #[trigger] automaton.transitions@[k]).from != new_state_id by {
                        if k < before.transitions@.len() {
                            assert(step_ok(
                                before.transitions@[k],
                                clauses_of(before.states@),
                                setting,
                            ));
                        }
                    }
                    if !setting.continues {
                        assert forall|k: int|
                            0 <= k < automaton.transitions@.len() implies !conflict_by(
                            *automaton,
                            (#[trigger] automaton.transitions@[k]).from as int,
                        ) by {
                            let source = automaton.transitions@[k].from as int;
                            if k < before.transitions@.len() {
                                assert(automaton.transitions@[k] == before.transitions@[k]);
                                assert(step_ok(
                                    before.transitions@[k],
                                    clauses_of(before.states@),
                                    setting,
                                ));
                            }
                            assert forall|q: int| 0 <= q <= source implies (
                            #[trigger] automaton.states@[q]).situation
                                == before.states@[q].situation by {
                                assert(automaton.states@[q] == before.states@[q]);
                            }
                            lemma_conflict_by_agrees(before, *automaton, source);
                        }
                    }
                    assert(consistent(*automaton, setting, new_state_id as int));
                }
                let ghost grown = *automaton;
                proof {
                    lemma_course_grown(before, grown, setting, clause, q);
                }
                let r = self.construct_automaton(
                    automaton,
                    extractor,
                    contract,
                    conflicts,
                    new_state_id,
                );
                proof {
                    assert(grown.transitions@[before.transitions@.len() as int].from == from);
                    assert(has_step(grown.transitions@, from as int, mask));
                    assert(extends(before, grown));
                    assert(automaton.states@.len() == automaton.states.len());
                    match explore(course_of(grown), new_state_id as int, setting) {
                        Some(after) => {
                            lemma_explore_grows(course_of(grown), new_state_id as int, setting);
                            lemma_expand_grows(after, from as int, q + 1, setting);
                        },
                        None => {},
                    }
                    if r is Ok {
                        assert forall|i: int| 0 <= i < before.states@.len() implies (
                        #[trigger] automaton.states@[i]).clause == before.states@[i].clause by {
                            assert(grown.states@[i] == before.states@[i]);
                        }
                        assert forall|i: int| 0 <= i < before.states@.len() implies (
                        #[trigger] automaton.states@[i]).situation
                            == before.states@[i].situation by {
                            assert(grown.states@[i] == before.states@[i]);
                        }
                        lemma_step_persists(grown, *automaton, from as int, mask);
                        assert(automaton.transitions@[before.transitions@.len() as int]
                            == grown.transitions@[before.transitions@.len() as int]);
                        assert forall|k: int|
                            before.transitions@.len() < k < automaton.transitions@.len() implies (
                        #[trigger] automaton.transitions@[k]).from >= before.states@.len() by {
                            assert(grown.transitions@.len() == before.transitions@.len() + 1);
                        }
                    }
                }
                r
            },
        }
    }

    /// Settles the state `state_id` by the conflicts of its clause; says whether it
    /// holds one.
    fn check_conflict_without_clone(
        &self,
        automaton: &mut Automaton,
        state_id: usize,
        indiv: &Vec<i32>,
        conflicts: &Vec<Conflict>,
        Ghost(setting): Ghost<Setting>,
    ) -> (found: bool)
        requires
            consistent(*old(automaton), setting, state_id as int),
            state_id + 1 == old(automaton).states@.len(),
            old(automaton).states@[state_id as int].clause.is_some(),
            !(old(automaton).states@[state_id as int].clause.unwrap() is Boolean),
            indiv@ == individuals_for(old(automaton).states@[state_id as int].clause.unwrap(), setting),
            conflicts@ == setting.conflicts,
        ensures
            consistent(*final(automaton), setting, -1),
            final(automaton).states@.len() == old(automaton).states@.len(),
            final(automaton).initial == old(automaton).initial,
            final(automaton).transitions == old(automaton).transitions,
            final(automaton).conflict_found == (old(automaton).conflict_found || found),
            found == conflicting(old(automaton).states@[state_id as int].clause.unwrap(), setting),
            forall|i: int|
                0 <= i < old(automaton).states@.len() ==> (#[trigger] final(automaton).states@[i]).clause
                    == old(automaton).states@[i].clause,
            forall|i: int|
                0 <= i < state_id ==> (#[trigger] final(automaton).states@[i]).situation
                    == old(automaton).states@[i].situation,
    {
        let ghost before = *automaton;
        let searcher = ConflictSearcher::new(copy_of(indiv), copy_of(conflicts));
        let mut state = automaton.states[state_id].duplicate();
        let found = searcher.has_conflict(&mut state);
        automaton.states.set(state_id, state);
        if found {
            automaton.conflict_found = true;
        }
        proof {
            lemma_resettled(before, *automaton, setting, state_id as int);
            assert(clauses_of(automaton.states@) =~= clauses_of(before.states@));
            assert forall|i: int| 0 <= i < automaton.states@.len() implies settled(
                #[trigger] automaton.states@[i],
                setting,
            ) by {
                if i != state_id {
                    assert(automaton.states@[i] == before.states@[i]);
                }
            }
            assert forall|k: int| 0 <= k < automaton.transitions@.len() implies step_ok(
                #[trigger] automaton.transitions@[k],
                clauses_of(automaton.states@),
                setting,
            ) by {
                assert(step_ok(before.transitions@[k], clauses_of(before.states@), setting));
            }
            assert forall|i: int, j: int| 0 <= i < j < automaton.states@.len() implies (
            #[trigger] automaton.states@[i]).clause != (#[trigger] automaton.states@[j]).clause by {
                assert(before.states@[i].clause != before.states@[j].clause);
            }
            if before.conflict_found {
                let w = choose|i: int|
                    0 <= i < before.states@.len() && i != state_id && (
                    #[trigger] before.states@[i]).situation == StateSituation::Conflicting;
                assert(automaton.states@[w] == before.states@[w]);
            }
            if found {
                assert(automaton.states@[state_id as int].situation == StateSituation::Conflicting);
            }
            if exists|i: int|
                0 <= i < automaton.states@.len() && i != -1 && (
                #[trigger] automaton.states@[i]).situation == StateSituation::Conflicting {
                let w = choose|i: int|
                    0 <= i < automaton.states@.len() && i != -1 && (
                    #[trigger] automaton.states@[i]).situation == StateSituation::Conflicting;
                if w != state_id {
                    assert(automaton.states@[w] == before.states@[w]);
                }
            }
        }
        found
    }

    /// Settles a state whose clause is a Boolean: satisfaction for true, violation for
    /// false.
    fn mark_boolean_state(
        &self,
        automaton: &mut Automaton,
        state_id: usize,
        value: bool,
        Ghost(setting): Ghost<Setting>,
    )
        requires
            consistent(*old(automaton), setting, state_id as int),
            state_id + 1 == old(automaton).states@.len(),
            old(automaton).states@[state_id as int].clause matches Some(Clause::Boolean { value: v, .. })
                && v == value,
        ensures
            consistent(*final(automaton), setting, -1),
            final(automaton).states@.len() == old(automaton).states@.len(),
            final(automaton).initial == old(automaton).initial,
            final(automaton).transitions == old(automaton).transitions,
            final(automaton).conflict_found == old(automaton).conflict_found,
            forall|i: int|
                0 <= i < old(automaton).states@.len() ==> (#[trigger] final(automaton).states@[i]).clause
                    == old(automaton).states@[i].clause,
            forall|i: int|
                0 <= i < state_id ==> (#[trigger] final(automaton).states@[i]).situation
                    == old(automaton).states@[i].situation,
    {
        let ghost before = *automaton;
        let mut state = automaton.states[state_id].duplicate();
        state.situation = if value {
            StateSituation::Satisfaction
        } else {
            StateSituation::Violating
        };
        automaton.states.set(state_id, state);
        proof {
            lemma_resettled(before, *automaton, setting, state_id as int);
            assert(clauses_of(automaton.states@) =~= clauses_of(before.states@));
            assert forall|i: int| 0 <= i < automaton.states@.len() implies settled(
                #[trigger] automaton.states@[i],
                setting,
            ) by {
                if i != state_id {
                    assert(automaton.states@[i] == before.states@[i]);
                }
            }
            assert forall|k: int| 0 <= k < automaton.transitions@.len() implies step_ok(
                #[trigger] automaton.transitions@[k],
                clauses_of(automaton.states@),
                setting,
            ) by {
                assert(step_ok(before.transitions@[k], clauses_of(before.states@), setting));
            }
            assert forall|i: int, j: int| 0 <= i < j < automaton.states@.len() implies (
            #[trigger] automaton.states@[i]).clause != (#[trigger] automaton.states@[j]).clause by {
                assert(before.states@[i].clause != before.states@[j].clause);
            }
            if before.conflict_found {
                let w = choose|i: int|
                    0 <= i < before.states@.len() && i != state_id && (
                    #[trigger] before.states@[i]).situation == StateSituation::Conflicting;
                assert(automaton.states@[w] == before.states@[w]);
            }
            if exists|i: int|
                0 <= i < automaton.states@.len() && i != -1 && (
                #[trigger] automaton.states@[i]).situation == StateSituation::Conflicting {
                let w = choose|i: int|
                    0 <= i < automaton.states@.len() && i != -1 && (
                    #[trigger] automaton.states@[i]).situation == StateSituation::Conflicting;
                if w != state_id {
                    assert(automaton.states@[w] == before.states@[w]);
                }
            }
        }
    }

    /// The source map and the valid masks of `clause`.
    fn generate_actions(&self, extractor: &mut ActionExtractor, clause: &Clause, indiv: &Vec<i32>) -> (r:
        Result<CompressedConcurrentActions, AnalysisError>)
        requires
            old(extractor).well_formed(),
        ensures
            final(extractor).well_formed(),
            final(extractor).conflicts() == old(extractor).conflicts(),
            spec_relativized_actions(spec_elaborate(*clause), indiv@).len() > MAX_CONCURRENT_ACTIONS
                ==> r is Err,
            spec_relativized_actions(spec_elaborate(*clause), indiv@).len() <= usize::MAX,
            match r {
                Ok(c) => (c.source_map@, c.valid_masks@) == spec_concurrent(
                    *clause,
                    indiv@,
                    old(extractor).conflicts(),
                ) && spec_relativized_actions(spec_elaborate(*clause), indiv@).len()
                    <= MAX_CONCURRENT_ACTIONS,
                Err(e) => e == refusal(
                    spec_relativized_actions(spec_elaborate(*clause), indiv@).len(),
                ),
            },
    {
        extractor.calculate_concurrent_relativized_actions(clause, indiv)
    }

    /// The individuals over which `clause` is read: with pruning those that its spine
    /// names, else those of the contract.
    fn get_individuals(&self, clause: &Clause, contract: &Contract) -> (r: Vec<i32>)
        ensures
            r@ == individuals_for(*clause, self.setting(contract)),
    {
        if self.config.is_use_prunning() {
            ActionExtractor::calculate_individuals(clause, copy_of(&contract.individuals))
        } else {
            copy_of(&contract.individuals)
        }
    }
}

} // verus!
