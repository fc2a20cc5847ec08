use crate::algorithms::clause_decomposer::{spec_elaborate, ClauseDecomposer};
use crate::model::actions::BasicAction;
use crate::model::automata::{ConflictInformation, DeonticTag, State, StateSituation};
use crate::model::contracts::{
    Clause, ClauseComposition, Conflict, ConflictType, DeonticClauseType, RelativizationType,
};
use crate::utils::ordered::{copy_of, distinct, distinct_items, holds};
use vstd::prelude::*;

verus! {

/// The tag of a deontic head with the given relativization on one basic action. A
/// global tag names no individual, a relativized tag no receiver.
pub open spec fn tag_for(
    deontic_type: DeonticClauseType,
    action: BasicAction,
    relativization: RelativizationType,
    sender: i32,
    receiver: i32,
) -> DeonticTag {
    match relativization {
        RelativizationType::Global => DeonticTag::spec_global(deontic_type, action),
        RelativizationType::Relativized => DeonticTag::spec_relativized(deontic_type, action, sender),
        RelativizationType::Directed => DeonticTag::spec_directed(
            deontic_type,
            action,
            sender,
            receiver,
        ),
    }
}

/// The tags of a deontic head: one for each of its basic actions, each once.
pub open spec fn head_tags(c: Clause) -> Seq<DeonticTag> {
    match c {
        Clause::Deontic { sender, receiver, relativization_type, action, deontic_type, .. } => {
            distinct(
                action.spec_basic_actions().map_values(
                    |b: BasicAction| tag_for(deontic_type, b, relativization_type, sender, receiver),
                ),
            )
        },
        _ => Seq::empty(),
    }
}

/// The tag sets of the deontic clauses of the spine, in spine order, whatever the
/// connectives between them.
pub open spec fn spec_extract_tags(c: Clause) -> Seq<Seq<DeonticTag>>
    decreases c,
{
    (if c is Deontic {
        seq![head_tags(c)]
    } else {
        Seq::empty()
    }) + rest_tags(c.composition())
}

/// The tag sets of the clauses behind a composition.
pub open spec fn rest_tags(composition: Option<ClauseComposition>) -> Seq<Seq<DeonticTag>>
    decreases composition,
{
    match composition {
        Some(comp) => spec_extract_tags(*comp.other),
        None => Seq::empty(),
    }
}

/// Whether `u` is one of the tags of type `deontic_type` on `action` that a tag with
/// the given relativization, sender and receiver is set against: always the global
/// tag; for a global pivot every relativized and directed tag over the individuals,
/// for a relativized pivot those of its sender, for a directed pivot those of its
/// sender and its receiver.
pub open spec fn in_expansion(
    u: DeonticTag,
    deontic_type: DeonticClauseType,
    action: BasicAction,
    relativization: RelativizationType,
    sender: i32,
    receiver: i32,
    individuals: Seq<i32>,
) -> bool {
    match relativization {
        RelativizationType::Global => {
            ||| u == DeonticTag::spec_global(deontic_type, action)
            ||| u == DeonticTag::spec_relativized(deontic_type, action, u.sender)
                && individuals.contains(u.sender)
            ||| u == DeonticTag::spec_directed(deontic_type, action, u.sender, u.receiver)
                && individuals.contains(u.sender) && individuals.contains(u.receiver)
        },
        RelativizationType::Relativized => {
            ||| u == DeonticTag::spec_global(deontic_type, action)
            ||| u == DeonticTag::spec_relativized(deontic_type, action, sender)
            ||| u == DeonticTag::spec_directed(deontic_type, action, sender, u.receiver)
                && individuals.contains(u.receiver)
        },
        RelativizationType::Directed => {
            ||| u == DeonticTag::spec_global(deontic_type, action)
            ||| u == DeonticTag::spec_relativized(deontic_type, action, sender)
            ||| u == DeonticTag::spec_directed(deontic_type, action, sender, receiver)
        },
    }
}

/// Whether the catalogue entry `c` sets the tag `t` against `u`: the entry starts
/// with the action of `t`, and `u` is a tag on its other action. A global entry, or a
/// global `t`, reaches every individual; a relativized entry the sender of `t`.
pub open spec fn by_entry(u: DeonticTag, t: DeonticTag, c: Conflict, individuals: Seq<i32>) -> bool {
    c.a == t.action && if c.conflict_type == ConflictType::Global || t.relativization
        == RelativizationType::Global {
        in_expansion(u, u.deontic_type, c.b, RelativizationType::Global, -1i32, -1i32, individuals)
    } else {
        in_expansion(
            u,
            u.deontic_type,
            c.b,
            RelativizationType::Relativized,
            t.sender,
            -1i32,
            individuals,
        )
    }
}

/// Whether some entry of the catalogue sets `t` against `u`.
pub open spec fn in_predefined(
    u: DeonticTag,
    t: DeonticTag,
    conflicts: Seq<Conflict>,
    individuals: Seq<i32>,
) -> bool {
    exists|k: int| 0 <= k < conflicts.len() && by_entry(u, t, #[trigger] conflicts[k], individuals)
}

/// Whether `u` is in the conflict set of `t`. An obligation conflicts with the
/// prohibitions of its action and, by the catalogue, with obligations and permissions;
/// a permission with the prohibitions of its action and, by the catalogue, with
/// obligations; a prohibition with the obligations and permissions of its action.
pub open spec fn spec_conflicts_with(
    t: DeonticTag,
    u: DeonticTag,
    conflicts: Seq<Conflict>,
    individuals: Seq<i32>,
) -> bool {
    match t.deontic_type {
        DeonticClauseType::Obligation => {
            ||| in_expansion(
                u,
                DeonticClauseType::Prohibition,
                t.action,
                t.relativization,
                t.sender,
                t.receiver,
                individuals,
            )
            ||| (u.deontic_type == DeonticClauseType::Obligation || u.deontic_type
                == DeonticClauseType::Permission) && in_predefined(u, t, conflicts, individuals)
        },
        DeonticClauseType::Permission => {
            ||| in_expansion(
                u,
                DeonticClauseType::Prohibition,
                t.action,
                t.relativization,
                t.sender,
                t.receiver,
                individuals,
            )
            ||| u.deontic_type == DeonticClauseType::Obligation && in_predefined(
                u,
                t,
                conflicts,
                individuals,
            )
        },
        DeonticClauseType::Prohibition => {
            ||| in_expansion(
                u,
                DeonticClauseType::Obligation,
                t.action,
                t.relativization,
                t.sender,
                t.receiver,
                individuals,
            )
            ||| in_expansion(
                u,
                DeonticClauseType::Permission,
                t.action,
                t.relativization,
                t.sender,
                t.receiver,
                individuals,
            )
        },
    }
}

/// The tags of `others` that are in the conflict set of `t`, in their order.
pub open spec fn conflicting_among(
    t: DeonticTag,
    others: Seq<DeonticTag>,
    conflicts: Seq<Conflict>,
    individuals: Seq<i32>,
) -> Seq<DeonticTag>
    decreases others.len(),
{
    if others.len() == 0 {
        Seq::empty()
    } else if spec_conflicts_with(t, others.last(), conflicts, individuals) {
        conflicting_among(t, others.drop_last(), conflicts, individuals).push(others.last())
    } else {
        conflicting_among(t, others.drop_last(), conflicts, individuals)
    }
}

/// Whether tag `k` of set `i` conflicts with a tag of another set `j`.
pub open spec fn hit(
    delta: Seq<Seq<DeonticTag>>,
    i: int,
    j: int,
    k: int,
    conflicts: Seq<Conflict>,
    individuals: Seq<i32>,
) -> bool {
    &&& 0 <= i < delta.len()
    &&& 0 <= j < delta.len()
    &&& i != j
    &&& 0 <= k < delta[i].len()
    &&& conflicting_among(delta[i][k], delta[j], conflicts, individuals).len() > 0
}

/// Whether `(i, j, k)` comes before `(i2, j2, k2)` in the order of the search.
pub open spec fn before(i: int, j: int, k: int, i2: int, j2: int, k2: int) -> bool {
    i < i2 || (i == i2 && (j < j2 || (j == j2 && k < k2)))
}

/// Whether the tag sets hold a conflict.
pub open spec fn spec_has_conflict(
    delta: Seq<Seq<DeonticTag>>,
    conflicts: Seq<Conflict>,
    individuals: Seq<i32>,
) -> bool {
    exists|i: int, j: int, k: int| hit(delta, i, j, k, conflicts, individuals)
}

/// Whether `info` reports the first conflict that the search over `delta` comes to.
pub open spec fn reports_first(
    info: ConflictInformation,
    delta: Seq<Seq<DeonticTag>>,
    conflicts: Seq<Conflict>,
    individuals: Seq<i32>,
) -> bool {
    exists|i: int, j: int, k: int|
        {
            &&& #[trigger] hit(delta, i, j, k, conflicts, individuals)
            &&& forall|i2: int, j2: int, k2: int|
                before(i2, j2, k2, i, j, k) ==> !#[trigger] hit(
                    delta,
                    i2,
                    j2,
                    k2,
                    conflicts,
                    individuals,
                )
            &&& info.tag == delta[i][k]
            &&& info.other_set@ == delta[j]
            &&& info.conflicting_tags@ == conflicting_among(
                delta[i][k],
                delta[j],
                conflicts,
                individuals,
            )
        }
}

/// The report of the first conflict is fixed by the tags, the catalogue and the
/// individuals.
pub proof fn lemma_first_report_unique(
    x: ConflictInformation,
    y: ConflictInformation,
    delta: Seq<Seq<DeonticTag>>,
    conflicts: Seq<Conflict>,
    individuals: Seq<i32>,
)
    requires
        reports_first(x, delta, conflicts, individuals),
        reports_first(y, delta, conflicts, individuals),
    ensures
        x.same_as(&y),
{
    let (i, j, k) = choose|i: int, j: int, k: int|
        {
            &&& #[trigger] hit(delta, i, j, k, conflicts, individuals)
            &&& forall|i2: int, j2: int, k2: int|
                before(i2, j2, k2, i, j, k) ==> !#[trigger] hit(
                    delta,
                    i2,
                    j2,
                    k2,
                    conflicts,
                    individuals,
                )
            &&& x.tag == delta[i][k]
            &&& x.other_set@ == delta[j]
            &&& x.conflicting_tags@ == conflicting_among(
                delta[i][k],
                delta[j],
                conflicts,
                individuals,
            )
        };
    let (i2, j2, k2) = choose|i2: int, j2: int, k2: int|
        {
            &&& #[trigger] hit(delta, i2, j2, k2, conflicts, individuals)
            &&& forall|i3: int, j3: int, k3: int|
                before(i3, j3, k3, i2, j2, k2) ==> !#[trigger] hit(
                    delta,
                    i3,
                    j3,
                    k3,
                    conflicts,
                    individuals,
                )
            &&& y.tag == delta[i2][k2]
            &&& y.other_set@ == delta[j2]
            &&& y.conflicting_tags@ == conflicting_among(
                delta[i2][k2],
                delta[j2],
                conflicts,
                individuals,
            )
        };
    if before(i, j, k, i2, j2, k2) {
        assert(!hit(delta, i, j, k, conflicts, individuals));
    }
    if before(i2, j2, k2, i, j, k) {
        assert(!hit(delta, i2, j2, k2, conflicts, individuals));
    }
    assert(i == i2 && j == j2 && k == k2);
}

/// Whether a tag names individuals as its relativization asks: a global tag none, a
/// relativized tag a sender among `individuals`, a directed tag a sender and a
/// receiver among them.
pub open spec fn tag_well_formed(t: DeonticTag, individuals: Seq<i32>) -> bool {
    match t.relativization {
        RelativizationType::Global => t.sender == -1 && t.receiver == -1,
        RelativizationType::Relativized => t.receiver == -1 && individuals.contains(t.sender),
        RelativizationType::Directed => individuals.contains(t.sender) && individuals.contains(
            t.receiver,
        ),
    }
}

/// An obligation or permission and a prohibition are in each other's conflict set or
/// in neither, whatever the catalogue holds.
pub proof fn lemma_conflict_symmetric(
    t: DeonticTag,
    u: DeonticTag,
    conflicts: Seq<Conflict>,
    individuals: Seq<i32>,
)
    requires
        t.deontic_type != DeonticClauseType::Prohibition,
        u.deontic_type == DeonticClauseType::Prohibition,
        tag_well_formed(t, individuals),
        tag_well_formed(u, individuals),
    ensures
        spec_conflicts_with(t, u, conflicts, individuals) <==> spec_conflicts_with(
            u,
            t,
            conflicts,
            individuals,
        ),
{
}

/// Looks for conflicts between the deontic clauses of a state.
pub struct ConflictSearcher {
    individuals: Vec<i32>,
    conflicts: Vec<Conflict>,
}

impl ConflictSearcher {
    /// The individuals, each once, in the order given.
    pub closed spec fn individuals(&self) -> Seq<i32> {
        self.individuals@
    }

    /// The conflict catalogue.
    pub closed spec fn conflicts(&self) -> Seq<Conflict> {
        self.conflicts@
    }

    pub fn new(individuals: Vec<i32>, conflicts: Vec<Conflict>) -> (s: Self)
        ensures
            s.individuals() == distinct(individuals@),
            s.conflicts() == conflicts@,
    {
        ConflictSearcher { individuals: distinct_items(&individuals), conflicts }
    }

    /// The tag sets of the clause of a state, elaborated.
    pub open spec fn tags_of(clause: Option<Clause>) -> Seq<Seq<DeonticTag>> {
        match clause {
            Some(c) => spec_extract_tags(spec_elaborate(c)),
            None => Seq::empty(),
        }
    }

    /// Marks `state` as conflicting, with the first conflict that the search comes to,
    /// or as free of conflicts; says whether a conflict was found.
    pub fn has_conflict(&self, state: &mut State) -> (found: bool)
        ensures
            found == spec_has_conflict(
                Self::tags_of(old(state).clause),
                self.conflicts(),
                self.individuals(),
            ),
            final(state).id == old(state).id,
            final(state).clause == old(state).clause,
            final(state).trace == old(state).trace,
            found ==> final(state).situation == StateSituation::Conflicting
                && final(state).conflict_information.is_some() && reports_first(
                final(state).conflict_information.unwrap(),
                Self::tags_of(old(state).clause),
                self.conflicts(),
                self.individuals(),
            ),
            !found ==> final(state).situation == StateSituation::ConflictFree
                && final(state).conflict_information == old(state).conflict_information,
    {
        let delta = match &state.clause {
            Some(clause) => {
                let processed_clause = ClauseDecomposer::process_composed_actions(clause);
                self.extract_tags(&processed_clause)
            },
            None => Vec::new(),
        };
        let ghost d = Self::tags_of(state.clause);
        let ghost cs = self.conflicts();
        let ghost ids = self.individuals();
        proof {
            assert(delta@.map_values(|s: Vec<DeonticTag>| s@) =~= d);
        }
        let mut i: usize = 0;
        while i < delta.len()
            invariant
                i <= delta.len(),
                d == delta@.map_values(|s: Vec<DeonticTag>| s@),
                cs == self.conflicts(),
                ids == self.individuals(),
                *state == *old(state),
                d == Self::tags_of(old(state).clause),
                forall|i2: int, j2: int, k2: int|
                    i2 < i ==> !#[trigger] hit(d, i2, j2, k2, cs, ids),
            decreases delta.len() - i,
        {
            let mut j: usize = 0;
            while j < delta.len()
                invariant
                    i < delta.len(),
                    j <= delta.len(),
                    d == delta@.map_values(|s: Vec<DeonticTag>| s@),
                    cs == self.conflicts(),
                    ids == self.individuals(),
                    *state == *old(state),
                    d == Self::tags_of(old(state).clause),
                d == Self::tags_of(old(state).clause),
                    forall|i2: int, j2: int, k2: int|
                        i2 < i || (i2 == i && j2 < j) ==> !#[trigger] hit(d, i2, j2, k2, cs, ids),
                decreases delta.len() - j,
            {
                if i != j {
                    let mut k: usize = 0;
                    while k < delta[i].len()
                        invariant
                            i < delta.len(),
                            j < delta.len(),
                            i != j,
                            k <= delta[i as int].len(),
                            d == delta@.map_values(|s: Vec<DeonticTag>| s@),
                            cs == self.conflicts(),
                            ids == self.individuals(),
                            *state == *old(state),
                            d == Self::tags_of(old(state).clause),
                    d == Self::tags_of(old(state).clause),
                d == Self::tags_of(old(state).clause),
                            forall|i2: int, j2: int, k2: int|
                                before(i2, j2, k2, i as int, j as int, k as int) ==> !#[trigger] hit(
                                    d,
                                    i2,
                                    j2,
                                    k2,
                                    cs,
                                    ids,
                                ),
                        decreases delta[i as int].len() - k,
                    {
                        let tag = delta[i][k];
                        let intersection = self.conflicting_tags(&tag, &delta[j]);
                        if intersection.len() > 0 {
                            let info = ConflictInformation::new(
                                tag,
                                intersection,
                                copy_of(&delta[j]),
                            );
                            proof {
                                assert(d[i as int] == delta@[i as int]@);
                                assert(d[j as int] == delta@[j as int]@);
                                assert(hit(d, i as int, j as int, k as int, cs, ids));
                                assert(reports_first(info, d, cs, ids));
                            }
                            state.situation = StateSituation::Conflicting;
                            state.conflict_information = Some(info);
                            return true;
                        }
                        proof {
                            assert(d[i as int] == delta@[i as int]@);
                            assert(d[j as int] == delta@[j as int]@);
                            assert(!hit(d, i as int, j as int, k as int, cs, ids));
                        }
                        k += 1;
                    }
                }
                proof {
                    assert(d[i as int] == delta@[i as int]@);
                }
                j += 1;
            }
            i += 1;
        }
        state.situation = StateSituation::ConflictFree;
        false
    }

    fn conflicting_tags(&self, tag: &DeonticTag, others: &Vec<DeonticTag>) -> (r: Vec<DeonticTag>)
        ensures
            r@ == conflicting_among(*tag, others@, self.conflicts(), self.individuals()),
    {
        let mut out: Vec<DeonticTag> = Vec::new();
        let mut i: usize = 0;
        while i < others.len()
            invariant
                i <= others.len(),
                out@ == conflicting_among(
                    *tag,
                    others@.take(i as int),
                    self.conflicts(),
                    self.individuals(),
                ),
            decreases others.len() - i,
        {
            proof {
                assert(others@.take(i + 1).drop_last() =~= others@.take(i as int));
            }
            if self.generate_conflict_set(tag, &others[i]) {
                out.push(others[i]);
            }
            i += 1;
        }
        proof {
            assert(others@.take(i as int) =~= others@);
        }
        out
    }

    fn head_tags(clause: &Clause) -> (r: Vec<DeonticTag>)
        requires
            clause is Deontic,
        ensures
            r@ == head_tags(*clause),
    {
        let mut raw: Vec<DeonticTag> = Vec::new();
        if let Clause::Deontic { sender, receiver, relativization_type, action, deontic_type, .. } =
            clause {
            let basic_actions = action.get_basic_actions();
            let ghost f = |b: BasicAction|
                tag_for(*deontic_type, b, *relativization_type, *sender, *receiver);
            let mut i: usize = 0;
            while i < basic_actions.len()
                invariant
                    i <= basic_actions.len(),
                    f == |b: BasicAction|
                        tag_for(*deontic_type, b, *relativization_type, *sender, *receiver),
                    raw@ == basic_actions@.take(i as int).map_values(f),
                decreases basic_actions.len() - i,
            {
                let ba = basic_actions[i];
                let tag = match relativization_type {
                    RelativizationType::Global => DeonticTag::global(*deontic_type, ba),
                    RelativizationType::Relativized => DeonticTag::relativized(
                        *deontic_type,
                        ba,
                        *sender,
                    ),
                    RelativizationType::Directed => DeonticTag::directed(
                        *deontic_type,
                        ba,
                        *sender,
                        *receiver,
                    ),
                };
                raw.push(tag);
                proof {
                    assert(raw@ =~= basic_actions@.take(i + 1).map_values(f));
                }
                i += 1;
            }
            proof {
                assert(basic_actions@.take(i as int) =~= basic_actions@);
            }
        }
        distinct_items(&raw)
    }

    fn extract_tags(&self, clause: &Clause) -> (r: Vec<Vec<DeonticTag>>)
        ensures
            r@.map_values(|s: Vec<DeonticTag>| s@) == spec_extract_tags(*clause),
        decreases *clause,
    {
        let mut result: Vec<Vec<DeonticTag>> = Vec::new();
        if let Clause::Deontic { .. } = clause {
            result.push(Self::head_tags(clause));
        }
        let ghost first = result@.map_values(|s: Vec<DeonticTag>| s@);
        if let Some(composition) = clause.get_composition() {
            let mut other_tags = self.extract_tags(&*composition.other);
            let ghost rest = other_tags@.map_values(|s: Vec<DeonticTag>| s@);
            result.append(&mut other_tags);
            proof {
                assert(result@.map_values(|s: Vec<DeonticTag>| s@) =~= first + rest);
            }
        } else {
            proof {
                assert(result@.map_values(|s: Vec<DeonticTag>| s@) =~= first + Seq::<
                    Seq<DeonticTag>,
                >::empty());
            }
        }
        proof {
            assert(first =~= if *clause is Deontic {
                seq![head_tags(*clause)]
            } else {
                Seq::empty()
            });
        }
        result
    }

    /// Whether `u` is in the conflict set of `tag`.
    fn generate_conflict_set(&self, tag: &DeonticTag, u: &DeonticTag) -> (b: bool)
        ensures
            b == spec_conflicts_with(*tag, *u, self.conflicts(), self.individuals()),
    {
        match tag.deontic_type {
            DeonticClauseType::Obligation => {
                self.generate_tags_by_type(DeonticClauseType::Prohibition, tag, u) || ((
                u.deontic_type == DeonticClauseType::Obligation || u.deontic_type
                    == DeonticClauseType::Permission) && self.get_predefined_conflicts(tag, u))
            },
            DeonticClauseType::Permission => {
                self.generate_tags_by_type(DeonticClauseType::Prohibition, tag, u) || (
                u.deontic_type == DeonticClauseType::Obligation && self.get_predefined_conflicts(
                    tag,
                    u,
                ))
            },
            DeonticClauseType::Prohibition => {
                self.generate_tags_by_type(DeonticClauseType::Obligation, tag, u)
                    || self.generate_tags_by_type(DeonticClauseType::Permission, tag, u)
            },
        }
    }

    /// Whether an entry of the catalogue sets `tag` against `u`.
    fn get_predefined_conflicts(&self, tag: &DeonticTag, u: &DeonticTag) -> (b: bool)
        ensures
            b == in_predefined(*u, *tag, self.conflicts(), self.individuals()),
    {
        let mut k: usize = 0;
        while k < self.conflicts.len()
            invariant
                k <= self.conflicts.len(),
                forall|q: int|
                    0 <= q < k ==> !by_entry(*u, *tag, #[trigger] self.conflicts@[q], self.individuals@),
            decreases self.conflicts.len() - k,
        {
            let conflict = &self.conflicts[k];
            if conflict.a == tag.action {
                let everyone = match conflict.conflict_type {
                    ConflictType::Global => true,
                    ConflictType::Relativized => tag.relativization == RelativizationType::Global,
                };
                let found = if everyone {
                    self.generate_tags_by_type(
                        u.deontic_type,
                        &DeonticTag::global(u.deontic_type, conflict.b),
                        u,
                    )
                } else {
                    self.generate_relativized_tags(u.deontic_type, &conflict.b, tag.sender, u)
                };
                if found {
                    proof {
                        assert(by_entry(*u, *tag, self.conflicts@[k as int], self.individuals@));
                    }
                    return true;
                }
            }
            k += 1;
        }
        false
    }

    /// Whether `u` is the global tag, the relativized tag of `sender`, or a directed tag
    /// from `sender` to an individual, of the given type on `action`.
    fn generate_relativized_tags(
        &self,
        deontic_type: DeonticClauseType,
        action: &BasicAction,
        sender: i32,
        u: &DeonticTag,
    ) -> (b: bool)
        ensures
            b == in_expansion(
                *u,
                deontic_type,
                *action,
                RelativizationType::Relativized,
                sender,
                -1i32,
                self.individuals(),
            ),
    {
        *u == DeonticTag::global(deontic_type, *action) || *u == DeonticTag::relativized(
            deontic_type,
            *action,
            sender,
        ) || (*u == DeonticTag::directed(deontic_type, *action, sender, u.receiver) && holds(
            &self.individuals,
            &u.receiver,
        ))
    }

    /// Whether `u` is one of the tags of the given type that `tag` is set against.
    fn generate_tags_by_type(&self, deontic_type: DeonticClauseType, tag: &DeonticTag, u: &DeonticTag) -> (b:
        bool)
        ensures
            b == in_expansion(
                *u,
                deontic_type,
                tag.action,
                tag.relativization,
                tag.sender,
                tag.receiver,
                self.individuals(),
            ),
    {
        let action = tag.action;
        if *u == DeonticTag::global(deontic_type, action) {
            return true;
        }
        match tag.relativization {
            RelativizationType::Global => {
                (*u == DeonticTag::relativized(deontic_type, action, u.sender) && holds(
                    &self.individuals,
                    &u.sender,
                )) || (*u == DeonticTag::directed(deontic_type, action, u.sender, u.receiver)
                    && holds(&self.individuals, &u.sender) && holds(&self.individuals, &u.receiver))
            },
            RelativizationType::Relativized => {
                *u == DeonticTag::relativized(deontic_type, action, tag.sender) || (*u
                    == DeonticTag::directed(deontic_type, action, tag.sender, u.receiver) && holds(
                    &self.individuals,
                    &u.receiver,
                ))
            },
            RelativizationType::Directed => {
                *u == DeonticTag::relativized(deontic_type, action, tag.sender) || *u
                    == DeonticTag::directed(deontic_type, action, tag.sender, tag.receiver)
            },
        }
    }
}

} // verus!
