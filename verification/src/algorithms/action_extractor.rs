use crate::algorithms::clause_decomposer::{spec_elaborate, ClauseDecomposer};
use crate::algorithms::firing::{firings, push_firings};
use crate::model::actions::RelativizedAction;
use crate::model::contracts::{Clause, ClauseComposition, Conflict};
use crate::utils::concurrency::{
    lemma_no_action, lemma_single_action, lemma_valid_masks_bound, lemma_valid_masks_distinct, pow2, refusal,
    spec_valid_masks, AnalysisError, CompressedConcurrentActions, ContractUtil,
    MAX_CONCURRENT_ACTIONS,
};
use crate::utils::ordered::{copy_of, distinct, distinct_items};
use std::sync::Arc;
use vstd::prelude::*;

verus! {

/// The relativized actions that the clauses of the spine of `c` can fire, spine order.
/// A Boolean fires nothing.
pub open spec fn spine_firings(c: Clause, individuals: Seq<i32>, ignore_self: bool) -> Seq<
    RelativizedAction,
>
    decreases c,
{
    (match c {
        Clause::Deontic { sender, receiver, relativization_type, action, .. }
        | Clause::Dynamic { sender, receiver, relativization_type, action, .. } => firings(
            sender,
            receiver,
            relativization_type,
            action.spec_basic_actions(),
            individuals,
            ignore_self,
        ),
        Clause::Boolean { .. } => Seq::empty(),
    }) + rest_firings(c.composition(), individuals, ignore_self)
}

/// The relativized actions of the clauses behind a composition.
pub open spec fn rest_firings(
    composition: Option<ClauseComposition>,
    individuals: Seq<i32>,
    ignore_self: bool,
) -> Seq<RelativizedAction>
    decreases composition,
{
    match composition {
        Some(comp) => spine_firings(*comp.other, individuals, ignore_self),
        None => Seq::empty(),
    }
}

/// The relativized actions of `c` over the individuals `ids`, which are distinct: each
/// action once, in the order in which the spine first fires it. With more than one
/// individual nobody acts towards itself.
pub open spec fn actions_over(c: Clause, ids: Seq<i32>) -> Seq<RelativizedAction> {
    distinct(spine_firings(c, ids, ids.len() > 1))
}

/// The relativized actions of `c` over the set of individuals listed in `indiv`.
pub open spec fn spec_relativized_actions(c: Clause, indiv: Seq<i32>) -> Seq<RelativizedAction> {
    actions_over(c, distinct(indiv))
}

/// The mask of the refusal that is added behind a single action.
pub const REFUSAL_MASK: u32 = 2;

/// The source map and the valid masks of an elaborated clause. Where a single action
/// can fire, its refusal takes the next bit and the mask of that bit alone comes last.
/// Where no action can fire, there is no mask and no refusal: nothing can be done
/// about such a clause, and its state in an automaton has no transition.
pub open spec fn concurrent_over(c: Clause, ids: Seq<i32>, conflicts: Seq<Conflict>) -> (
    Seq<RelativizedAction>,
    Seq<u32>,
) {
    let source = actions_over(c, ids);
    let masks = spec_valid_masks(source, conflicts);
    if source.len() == 1 {
        (source.push(RelativizedAction::spec_negation(&source[0])), masks.push(REFUSAL_MASK))
    } else {
        (source, masks)
    }
}

/// A clause that can fire no action has no source and no mask.
pub proof fn lemma_no_action_no_mask(c: Clause, ids: Seq<i32>, conflicts: Seq<Conflict>)
    requires
        actions_over(c, ids).len() == 0,
    ensures
        concurrent_over(c, ids, conflicts) == (Seq::<RelativizedAction>::empty(), Seq::<u32>::empty()),
{
    lemma_no_action(conflicts);
    assert(actions_over(c, ids) =~= Seq::<RelativizedAction>::empty());
}

/// A clause that can fire a single action, which no catalogue entry sets against
/// itself, has two valid masks: that of the action and that of its refusal.
pub proof fn lemma_single_action_masks(c: Clause, ids: Seq<i32>, conflicts: Seq<Conflict>)
    requires
        actions_over(c, ids).len() == 1,
        forall|k: int|
            0 <= k < conflicts.len() ==> !((#[trigger] conflicts[k]).a.value == actions_over(
                c,
                ids,
            )[0].action.value && conflicts[k].b.value == actions_over(c, ids)[0].action.value),
    ensures
        concurrent_over(c, ids, conflicts).0 == seq![
            actions_over(c, ids)[0],
            RelativizedAction::spec_negation(&actions_over(c, ids)[0]),
        ],
        concurrent_over(c, ids, conflicts).1 == seq![1u32, REFUSAL_MASK],
{
    let source = actions_over(c, ids);
    assert(source =~= seq![source[0]]);
    lemma_single_action(source[0], conflicts);
    assert(concurrent_over(c, ids, conflicts).0 =~= seq![
        source[0],
        RelativizedAction::spec_negation(&source[0]),
    ]);
    assert(concurrent_over(c, ids, conflicts).1 =~= seq![1u32, REFUSAL_MASK]);
}

/// A source map holds at most 31 actions; no mask has a bit beyond it, and none is
/// listed twice.
pub proof fn lemma_concurrent_bounds(c: Clause, ids: Seq<i32>, conflicts: Seq<Conflict>)
    requires
        actions_over(c, ids).len() <= MAX_CONCURRENT_ACTIONS,
    ensures
        concurrent_over(c, ids, conflicts).0.len() <= MAX_CONCURRENT_ACTIONS + 1,
        concurrent_over(c, ids, conflicts).1.no_duplicates(),
        forall|i: int|
            0 <= i < concurrent_over(c, ids, conflicts).1.len() ==> (#[trigger] concurrent_over(
                c,
                ids,
                conflicts,
            ).1[i]) < pow2(concurrent_over(c, ids, conflicts).0.len()),
{
    let source = actions_over(c, ids);
    lemma_valid_masks_bound(source, conflicts);
    lemma_valid_masks_distinct(source, conflicts);
    if source.len() == 1 {
        reveal_with_fuel(pow2, 3);
        let masks = spec_valid_masks(source, conflicts);
        let all = masks.push(REFUSAL_MASK);
        assert forall|i: int, j: int| 0 <= i < all.len() && 0 <= j < all.len() && i != j implies all[i]
            != all[j] by {
            if i < masks.len() {
                assert(masks[i] < pow2(1));
            }
            if j < masks.len() {
                assert(masks[j] < pow2(1));
            }
        }
    }
}

/// The source map and the valid masks of `c`, elaborated first.
pub open spec fn spec_concurrent(c: Clause, indiv: Seq<i32>, conflicts: Seq<Conflict>) -> (
    Seq<RelativizedAction>,
    Seq<u32>,
) {
    concurrent_over(spec_elaborate(c), distinct(indiv), conflicts)
}

/// The positive receivers and senders of the clauses of the spine, receiver first.
pub open spec fn spine_individuals(c: Clause) -> Seq<i32>
    decreases c,
{
    (if c.spec_receiver() > 0 {
        seq![c.spec_receiver()]
    } else {
        Seq::empty()
    }) + (if c.spec_sender() > 0 {
        seq![c.spec_sender()]
    } else {
        Seq::empty()
    }) + rest_individuals(c.composition())
}

/// The individuals of the clauses behind a composition.
pub open spec fn rest_individuals(composition: Option<ClauseComposition>) -> Seq<i32>
    decreases composition,
{
    match composition {
        Some(comp) => spine_individuals(*comp.other),
        None => Seq::empty(),
    }
}

/// The individuals that the spine of `c` names, each once; where it names none, the
/// first of `all_individuals`.
pub open spec fn spec_individuals(c: Clause, all_individuals: Seq<i32>) -> Seq<i32> {
    let named = distinct(spine_individuals(c));
    if named.len() == 0 && all_individuals.len() > 0 {
        seq![all_individuals[0]]
    } else {
        named
    }
}

/// What was computed for one clause over one list of individuals.
pub struct CacheEntry {
    clause: Clause,
    individuals: Vec<i32>,
    result: CompressedConcurrentActions,
}

/// Computes the relativized actions of clauses and the subsets of them that may be
/// performed together, and keeps what it computed.
pub struct ActionExtractor {
    conflicts: Vec<Conflict>,
    cache: Vec<CacheEntry>,
}

impl ActionExtractor {
    /// The conflict catalogue.
    pub closed spec fn conflicts(&self) -> Seq<Conflict> {
        self.conflicts@
    }

    spec fn entry_valid(&self, e: CacheEntry) -> bool {
        &&& (e.result.source_map@, e.result.valid_masks@) == concurrent_over(
            e.clause,
            e.individuals@,
            self.conflicts@,
        )
        &&& actions_over(e.clause, e.individuals@).len() <= MAX_CONCURRENT_ACTIONS
    }

    /// Whether the source map and the masks of the elaborated clause `clause` over the
    /// individuals `ids` are kept from an earlier call.
    pub closed spec fn keeps(&self, clause: Clause, ids: Seq<i32>) -> bool {
        exists|k: int| 0 <= k < self.cache.len() && self.kept_at(k, clause, ids)
    }

    /// Everything kept is what would be computed again.
    pub closed spec fn well_formed(&self) -> bool {
        forall|k: int| 0 <= k < self.cache.len() ==> self.entry_valid(#[trigger] self.cache[k])
    }

    pub fn new(conflicts: Vec<Conflict>) -> (e: Self)
        ensures
            e.well_formed(),
            e.conflicts() == conflicts@,
            forall|c: Clause, ids: Seq<i32>| !e.keeps(c, ids),
    {
        ActionExtractor { conflicts, cache: Vec::new() }
    }

    /// Whether the two lists hold the same individuals in the same order.
    pub fn same_ids(a: &Vec<i32>, b: &Vec<i32>) -> (r: bool)
        ensures
            r == (a@ == b@),
    {
        if a.len() != b.len() {
            return false;
        }
        let mut i: usize = 0;
        while i < a.len()
            invariant
                i <= a.len(),
                a.len() == b.len(),
                forall|k: int| 0 <= k < i ==> a@[k] == b@[k],
            decreases a.len() - i,
        {
            if a[i] != b[i] {
                return false;
            }
            i += 1;
        }
        proof {
            assert(a@ =~= b@);
        }
        true
    }

    /// Whether the entry at `k` was computed for `clause` over `ids`.
    spec fn kept_at(&self, k: int, clause: Clause, ids: Seq<i32>) -> bool {
        self.cache[k].clause == clause && self.cache[k].individuals@ == ids
    }

    /// The position of the first entry that was computed for `clause` over `ids`; `None`
    /// where nothing was kept for them.
    fn lookup(&self, clause: &Clause, ids: &Vec<i32>) -> (r: Option<usize>)
        ensures
            match r {
                Some(k) => k < self.cache.len() && self.kept_at(k as int, *clause, ids@) && forall|
                    j: int,
                | 0 <= j < k ==> !self.kept_at(j, *clause, ids@),
                None => forall|j: int| 0 <= j < self.cache.len() ==> !self.kept_at(j, *clause, ids@),
            },
    {
        let mut k: usize = 0;
        while k < self.cache.len()
            invariant
                k <= self.cache.len(),
                forall|j: int| 0 <= j < k ==> !self.kept_at(j, *clause, ids@),
            decreases self.cache.len() - k,
        {
            if Self::same_ids(&self.cache[k].individuals, ids) && self.cache[k].clause.equals(clause) {
                return Some(k);
            }
            k += 1;
        }
        None
    }

    /// The source map and the valid masks of `clause` over the individuals in `indiv`.
    /// A clause that can fire more than 30 relativized actions is refused; so is one
    /// for whose masks no memory can be reserved, unless they were kept from an
    /// earlier call.
    pub fn calculate_concurrent_relativized_actions(&mut self, clause: &Clause, indiv: &Vec<i32>) -> (r:
        Result<CompressedConcurrentActions, AnalysisError>)
        requires
            old(self).well_formed(),
        ensures
            final(self).well_formed(),
            final(self).conflicts() == old(self).conflicts(),
            forall|c: Clause, ids: Seq<i32>| old(self).keeps(c, ids) ==> final(self).keeps(c, ids),
            old(self).keeps(spec_elaborate(*clause), distinct(indiv@)) ==> r is Ok,
            r is Ok ==> final(self).keeps(spec_elaborate(*clause), distinct(indiv@)),
            spec_relativized_actions(spec_elaborate(*clause), indiv@).len() > MAX_CONCURRENT_ACTIONS
                ==> r is Err,
            spec_relativized_actions(spec_elaborate(*clause), indiv@).len() <= usize::MAX,
            match r {
                Ok(c) => (c.source_map@, c.valid_masks@) == spec_concurrent(
                    *clause,
                    indiv@,
                    old(self).conflicts(),
                ) && spec_relativized_actions(spec_elaborate(*clause), indiv@).len()
                    <= MAX_CONCURRENT_ACTIONS,
                Err(e) => e == refusal(
                    spec_relativized_actions(spec_elaborate(*clause), indiv@).len(),
                ),
            },
    {
        let processed = ClauseDecomposer::process_composed_actions(clause);
        let ids = distinct_items(indiv);
        if let Some(k) = self.lookup(&processed, &ids) {
            assert(self.entry_valid(self.cache[k as int]));
            assert(self.kept_at(k as int, processed, ids@));
            return Ok(self.cache[k].result.clone());
        }
        let actions = Self::actions_of(&processed, &ids);
        proof {
            assert(actions@.len() == actions.len());
        }
        let mut compressed = match ContractUtil::calculate_concurrent_relativized_actions(
            actions,
            &self.conflicts,
        ) {
            Ok(c) => c,
            Err(e) => {
                return Err(e);
            },
        };
        if compressed.source_map.len() == 1 {
            let mut source = copy_of(&*compressed.source_map);
            let negation = RelativizedAction::negation(&source[0]);
            source.push(negation);
            compressed.source_map = Arc::new(source);
            compressed.valid_masks.push(REFUSAL_MASK);
        }
        let entry = CacheEntry { clause: processed, individuals: ids, result: compressed.clone() };
        proof {
            assert(self.entry_valid(entry));
        }
        let ghost before = *self;
        self.cache.push(entry);
        proof {
            assert forall|c: Clause, ids: Seq<i32>| before.keeps(c, ids) implies self.keeps(c, ids) by {
                let k = choose|k: int| 0 <= k < before.cache.len() && before.kept_at(k, c, ids);
                assert(self.cache@[k] == before.cache@[k]);
                assert(self.kept_at(k, c, ids));
            }
            assert(self.cache@[before.cache.len() as int] == entry);
            assert(self.kept_at(before.cache.len() as int, entry.clause, entry.individuals@));
        }
        Ok(compressed)
    }

    fn collect_spine(clause: &Clause, ids: &Vec<i32>, ignore_self: bool, out: &mut Vec<RelativizedAction>)
        ensures
            final(out)@ == old(out)@ + spine_firings(*clause, ids@, ignore_self),
        decreases *clause,
    {
        match clause {
            Clause::Deontic { sender, receiver, relativization_type, action, .. }
            | Clause::Dynamic { sender, receiver, relativization_type, action, .. } => {
                let basic_actions = action.get_basic_actions();
                push_firings(
                    *sender,
                    *receiver,
                    *relativization_type,
                    &basic_actions,
                    ids,
                    ignore_self,
                    out,
                );
            },
            Clause::Boolean { .. } => {
                proof {
                    assert(out@ =~= old(out)@ + Seq::<RelativizedAction>::empty());
                }
            },
        }
        let ghost mid = out@;
        if let Some(composition) = clause.get_composition() {
            Self::collect_spine(&*composition.other, ids, ignore_self, out);
        }
        proof {
            let rest = rest_firings(clause.composition(), ids@, ignore_self);
            assert(out@ =~= mid + rest);
            assert(out@ =~= old(out)@ + spine_firings(*clause, ids@, ignore_self));
        }
    }

    fn actions_of(clause: &Clause, ids: &Vec<i32>) -> (r: Vec<RelativizedAction>)
        ensures
            r@ == actions_over(*clause, ids@),
            r@.no_duplicates(),
    {
        let ignore_self = ids.len() > 1;
        let mut raw: Vec<RelativizedAction> = Vec::new();
        Self::collect_spine(clause, ids, ignore_self, &mut raw);
        proof {
            assert(raw@ =~= spine_firings(*clause, ids@, ignore_self));
        }
        distinct_items(&raw)
    }

    /// The relativized actions that `clause` can fire, over the individuals in `indiv`.
    pub fn calculate_relativized_actions(&self, clause: &Clause, indiv: &Vec<i32>) -> (r: Vec<
        RelativizedAction,
    >)
        ensures
            r@ == spec_relativized_actions(*clause, indiv@),
            r@.no_duplicates(),
    {
        let ids = distinct_items(indiv);
        Self::actions_of(clause, &ids)
    }

    /// The individuals that the spine of `clause` names; where it names none, the
    /// first of `all_individuals`.
    pub fn calculate_individuals(clause: &Clause, all_individuals: Vec<i32>) -> (r: Vec<i32>)
        ensures
            r@ == spec_individuals(*clause, all_individuals@),
    {
        let mut i = Self::extract_individuals(clause);
        if i.len() == 0 {
            if all_individuals.len() > 0 {
                i.push(all_individuals[0]);
                proof {
                    assert(i@ =~= seq![all_individuals@[0]]);
                }
            }
        }
        i
    }

    fn collect_individuals(clause: &Clause, out: &mut Vec<i32>)
        ensures
            final(out)@ == old(out)@ + spine_individuals(*clause),
        decreases *clause,
    {
        let receiver = *clause.get_receiver();
        let sender = *clause.get_sender();
        if receiver > 0 {
            out.push(receiver);
        }
        if sender > 0 {
            out.push(sender);
        }
        let ghost mid = out@;
        if let Some(composition) = clause.get_composition() {
            Self::collect_individuals(&*composition.other, out);
        }
        proof {
            let r = if clause.spec_receiver() > 0 {
                seq![clause.spec_receiver()]
            } else {
                Seq::empty()
            };
            let s = if clause.spec_sender() > 0 {
                seq![clause.spec_sender()]
            } else {
                Seq::empty()
            };
            let rest = rest_individuals(clause.composition());
            assert(mid =~= old(out)@ + r + s);
            assert(out@ =~= mid + rest);
            assert(out@ =~= old(out)@ + (r + s + rest));
        }
    }

    fn extract_individuals(clause: &Clause) -> (r: Vec<i32>)
        ensures
            r@ == distinct(spine_individuals(*clause)),
    {
        let mut raw: Vec<i32> = Vec::new();
        Self::collect_individuals(clause, &mut raw);
        proof {
            assert(raw@ =~= spine_individuals(*clause));
        }
        distinct_items(&raw)
    }
}

} // verus!
