use crate::model::actions::{BasicAction, RelativizedAction};
use crate::model::contracts::{
    spec_full_contract, Clause, Contract, DeonticClauseType, RelativizationType,
};
use crate::utils::concurrency::{decode, decode_mask};
use crate::utils::ordered::copy_of;
use crate::utils::symbols::SymbolTable;
use crate::utils::text::{decimal, push_decimal};
use std::sync::Arc;
use vstd::prelude::*;
use vstd::string::StringExecFns;

verus! {

/// What the analysis found out about a state.
#[derive(Debug, Clone, Copy, PartialEq, Eq, Hash, Structural)]
pub enum StateSituation {
    Violating,
    Satisfaction,
    Conflicting,
    ConflictFree,
    NotChecked,
}

/// One deontic statement about one basic action.
#[derive(Debug, Clone, Copy, PartialEq, Eq, Hash, Structural)]
pub struct DeonticTag {
    pub deontic_type: DeonticClauseType,
    pub action: BasicAction,
    pub relativization: RelativizationType,
    pub sender: i32,
    pub receiver: i32,
}

impl crate::utils::ordered::Item for DeonticTag {
    fn same(&self, other: &Self) -> (b: bool) {
        *self == *other
    }
}

impl DeonticTag {
    pub fn new(
        deontic_type: DeonticClauseType,
        action: BasicAction,
        relativization: RelativizationType,
        sender: i32,
        receiver: i32,
    ) -> (t: Self)
        ensures
            t == (DeonticTag { deontic_type, action, relativization, sender, receiver }),
    {
        DeonticTag { deontic_type, action, relativization, sender, receiver }
    }

    pub open spec fn spec_directed(
        deontic_type: DeonticClauseType,
        action: BasicAction,
        sender: i32,
        receiver: i32,
    ) -> Self {
        DeonticTag {
            deontic_type,
            action,
            relativization: RelativizationType::Directed,
            sender,
            receiver,
        }
    }

    #[verifier::when_used_as_spec(spec_directed)]
    pub fn directed(
        deontic_type: DeonticClauseType,
        action: BasicAction,
        sender: i32,
        receiver: i32,
    ) -> (t: Self)
        ensures
            t == Self::spec_directed(deontic_type, action, sender, receiver),
    {
        Self::new(deontic_type, action, RelativizationType::Directed, sender, receiver)
    }

    pub open spec fn spec_relativized(
        deontic_type: DeonticClauseType,
        action: BasicAction,
        sender: i32,
    ) -> Self {
        DeonticTag {
            deontic_type,
            action,
            relativization: RelativizationType::Relativized,
            sender,
            receiver: -1i32,
        }
    }

    #[verifier::when_used_as_spec(spec_relativized)]
    pub fn relativized(deontic_type: DeonticClauseType, action: BasicAction, sender: i32) -> (t: Self)
        ensures
            t == Self::spec_relativized(deontic_type, action, sender),
    {
        Self::new(deontic_type, action, RelativizationType::Relativized, sender, -1)
    }

    pub open spec fn spec_global(deontic_type: DeonticClauseType, action: BasicAction) -> Self {
        DeonticTag {
            deontic_type,
            action,
            relativization: RelativizationType::Global,
            sender: -1i32,
            receiver: -1i32,
        }
    }

    #[verifier::when_used_as_spec(spec_global)]
    pub fn global(deontic_type: DeonticClauseType, action: BasicAction) -> (t: Self)
        ensures
            t == Self::spec_global(deontic_type, action),
    {
        Self::new(deontic_type, action, RelativizationType::Global, -1, -1)
    }

    /// `O(sender,action,receiver)`, `O(sender,action)` or `O(action)`, with the short
    /// symbol of the deontic type and the symbols' names.
    pub open spec fn spec_format_with_symbols(self, table: &SymbolTable) -> Seq<char> {
        let act = self.action.spec_format_with_symbols(table);
        self.deontic_type.spec_short_symbol() + "("@ + (match self.relativization {
            RelativizationType::Directed => table.name_or(self.sender as int, "?"@) + ","@ + act
                + ","@ + table.name_or(self.receiver as int, "?"@),
            RelativizationType::Relativized => table.name_or(self.sender as int, "?"@) + ","@ + act,
            RelativizationType::Global => act,
        }) + ")"@
    }

    fn write_name(id: i32, symbol_table: &SymbolTable, out: &mut String)
        requires
            symbol_table.well_formed(),
        ensures
            final(out)@ == old(out)@ + symbol_table.name_or(id as int, "?"@),
    {
        match symbol_table.get_symbol_by_id(id) {
            Some(s) => out.append(s.value()),
            None => out.append("?"),
        }
    }

    /// Appends the formatted tag to `out`.
    pub fn write_with_symbols(&self, symbol_table: &SymbolTable, out: &mut String)
        requires
            symbol_table.well_formed(),
        ensures
            final(out)@ == old(out)@ + self.spec_format_with_symbols(symbol_table),
    {
        let ghost act = self.action.spec_format_with_symbols(symbol_table);
        out.append(self.deontic_type.short_symbol());
        out.append("(");
        let ghost head = out@;
        let action = self.action.format_with_symbols(symbol_table);
        match self.relativization {
            RelativizationType::Directed => {
                Self::write_name(self.sender, symbol_table, out);
                out.append(",");
                out.append(action.as_str());
                out.append(",");
                Self::write_name(self.receiver, symbol_table, out);
                proof {
                    assert(out@ =~= head + (symbol_table.name_or(self.sender as int, "?"@) + ","@
                        + act + ","@ + symbol_table.name_or(self.receiver as int, "?"@)));
                }
            },
            RelativizationType::Relativized => {
                Self::write_name(self.sender, symbol_table, out);
                out.append(",");
                out.append(action.as_str());
                proof {
                    assert(out@ =~= head + (symbol_table.name_or(self.sender as int, "?"@) + ","@
                        + act));
                }
            },
            RelativizationType::Global => {
                out.append(action.as_str());
            },
        }
        out.append(")");
        proof {
            assert(head =~= old(out)@ + (self.deontic_type.spec_short_symbol() + "("@));
            assert(out@ =~= old(out)@ + self.spec_format_with_symbols(symbol_table));
        }
    }

    pub fn format_with_symbols(&self, symbol_table: &SymbolTable) -> (s: String)
        requires
            symbol_table.well_formed(),
        ensures
            s@ == self.spec_format_with_symbols(symbol_table),
    {
        let mut out = String::new();
        self.write_with_symbols(symbol_table, &mut out);
        proof {
            assert(Seq::<char>::empty() + self.spec_format_with_symbols(symbol_table)
                =~= self.spec_format_with_symbols(symbol_table));
        }
        out
    }
}

/// The formatted tags, separated by a comma and a space.
pub open spec fn spec_join_tags(tags: Seq<DeonticTag>, table: &SymbolTable) -> Seq<char>
    decreases tags.len(),
{
    if tags.len() == 0 {
        Seq::empty()
    } else if tags.len() == 1 {
        tags[0].spec_format_with_symbols(table)
    } else {
        spec_join_tags(tags.drop_last(), table) + ", "@ + tags.last().spec_format_with_symbols(table)
    }
}

/// Why a state is conflicting: a tag, the tags of another clause that conflict with
/// it, and all tags of that clause.
#[derive(Debug)]
pub struct ConflictInformation {
    pub tag: DeonticTag,
    pub conflicting_tags: Vec<DeonticTag>,
    pub other_set: Vec<DeonticTag>,
}

impl ConflictInformation {
    pub fn new(tag: DeonticTag, conflicting_tags: Vec<DeonticTag>, other_set: Vec<DeonticTag>) -> (c:
        Self)
        ensures
            c.tag == tag,
            c.conflicting_tags == conflicting_tags,
            c.other_set == other_set,
    {
        ConflictInformation { tag, conflicting_tags, other_set }
    }

    /// Whether the two records say the same.
    pub open spec fn same_as(&self, other: &ConflictInformation) -> bool {
        &&& self.tag == other.tag
        &&& self.conflicting_tags@ == other.conflicting_tags@
        &&& self.other_set@ == other.other_set@
    }

    /// A copy of the record.
    pub fn duplicate(&self) -> (c: Self)
        ensures
            c.same_as(self),
    {
        ConflictInformation {
            tag: self.tag,
            conflicting_tags: copy_of(&self.conflicting_tags),
            other_set: copy_of(&self.other_set),
        }
    }

    /// `tag conflicts with [tags]`.
    pub open spec fn spec_display(&self, table: &SymbolTable) -> Seq<char> {
        self.tag.spec_format_with_symbols(table) + " conflicts with ["@ + spec_join_tags(
            self.conflicting_tags@,
            table,
        ) + "]"@
    }

    pub fn display(&self, symbol_table: &SymbolTable) -> (s: String)
        requires
            symbol_table.well_formed(),
        ensures
            s@ == self.spec_display(symbol_table),
    {
        let mut out = self.tag.format_with_symbols(symbol_table);
        out.append(" conflicts with [");
        let ghost head = out@;
        let mut i: usize = 0;
        while i < self.conflicting_tags.len()
            invariant
                symbol_table.well_formed(),
                i <= self.conflicting_tags.len(),
                out@ == head + spec_join_tags(self.conflicting_tags@.take(i as int), symbol_table),
            decreases self.conflicting_tags.len() - i,
        {
            let ghost before = spec_join_tags(self.conflicting_tags@.take(i as int), symbol_table);
            proof {
                assert(self.conflicting_tags@.take(i + 1).drop_last()
                    =~= self.conflicting_tags@.take(i as int));
            }
            if i > 0 {
                out.append(", ");
            }
            self.conflicting_tags[i].write_with_symbols(symbol_table, &mut out);
            proof {
                let t = self.conflicting_tags@[i as int].spec_format_with_symbols(symbol_table);
                if i == 0 {
                    assert(before =~= Seq::<char>::empty());
                    assert(out@ =~= head + t);
                } else {
                    assert(out@ =~= head + (before + ", "@ + t));
                }
            }
            i += 1;
        }
        proof {
            assert(self.conflicting_tags@.take(i as int) =~= self.conflicting_tags@);
        }
        out.append("]");
        out
    }
}

/// A step of the automaton: from one state to another on a set of relativized
/// actions, given as a mask over a source map.
#[derive(Debug)]
pub struct Transition {
    pub id: usize,
    pub from: usize,
    pub to: usize,
    pub mask: u32,
    pub source_map: Arc<Vec<RelativizedAction>>,
}

impl Transition {
    pub fn new(id: usize, from: usize, to: usize, mask: u32, source_map: Arc<Vec<RelativizedAction>>) -> (t:
        Self)
        ensures
            t.id == id,
            t.from == from,
            t.to == to,
            t.mask == mask,
            t.source_map == source_map,
    {
        Transition { id, from, to, mask, source_map }
    }

    /// The actions of the transition: those of the source map whose bit is set.
    pub open spec fn spec_actions(&self) -> Seq<RelativizedAction> {
        decode(self.source_map@, self.mask)
    }

    pub fn actions(&self) -> (r: Vec<RelativizedAction>)
        ensures
            r@ == self.spec_actions(),
    {
        decode_mask(&*self.source_map, self.mask)
    }

    /// `T7: 0 -> 3 [mask: 5]`.
    pub open spec fn spec_display(&self) -> Seq<char> {
        "T"@ + decimal(self.id as nat) + ": "@ + decimal(self.from as nat) + " -> "@ + decimal(
            self.to as nat,
        ) + " [mask: "@ + decimal(self.mask as nat) + "]"@
    }

    pub fn display(&self) -> (s: String)
        ensures
            s@ == self.spec_display(),
    {
        let mut out = String::from_str("T");
        push_decimal(&mut out, self.id as u64);
        out.append(": ");
        push_decimal(&mut out, self.from as u64);
        out.append(" -> ");
        push_decimal(&mut out, self.to as u64);
        out.append(" [mask: ");
        push_decimal(&mut out, self.mask as u64);
        out.append("]");
        out
    }
}

/// A state of the automaton: the clause that is still to be fulfilled.
#[derive(Debug)]
pub struct State {
    pub id: usize,
    pub clause: Option<Clause>,
    pub situation: StateSituation,
    pub conflict_information: Option<ConflictInformation>,
    pub trace: Vec<usize>,
}

impl State {
    /// A state that was not checked yet.
    pub open spec fn is_fresh(&self, id: usize, clause: Option<Clause>) -> bool {
        &&& self.id == id
        &&& self.clause == clause
        &&& self.situation == StateSituation::NotChecked
        &&& self.conflict_information.is_none()
        &&& self.trace@.len() == 0
    }

    /// A state that was not checked yet, with the given id.
    pub fn with_auto_id(id: usize, clause: Option<Clause>) -> (s: Self)
        ensures
            s.id == id,
            s.clause == clause,
            s.situation == StateSituation::NotChecked,
            s.conflict_information.is_none(),
            s.trace@.len() == 0,
    {
        State {
            id,
            clause,
            situation: StateSituation::NotChecked,
            conflict_information: None,
            trace: Vec::new(),
        }
    }

    pub fn push_trace(&mut self, transition_id: usize)
        ensures
            final(self).trace@ == old(self).trace@.push(transition_id),
            final(self).id == old(self).id,
            final(self).clause == old(self).clause,
            final(self).situation == old(self).situation,
            final(self).conflict_information == old(self).conflict_information,
    {
        self.trace.push(transition_id);
    }

    /// Whether the two states say the same.
    pub open spec fn same_as(&self, other: &State) -> bool {
        &&& self.id == other.id
        &&& self.clause == other.clause
        &&& self.situation == other.situation
        &&& self.trace@ == other.trace@
        &&& match (self.conflict_information, other.conflict_information) {
            (Some(a), Some(b)) => a.same_as(&b),
            (None, None) => true,
            _ => false,
        }
    }

    /// A copy of the state.
    pub fn duplicate(&self) -> (s: Self)
        ensures
            s.same_as(self),
    {
        State {
            id: self.id,
            clause: match &self.clause {
                Some(c) => Some(c.clone()),
                None => None,
            },
            situation: self.situation,
            conflict_information: match &self.conflict_information {
                Some(c) => Some(c.duplicate()),
                None => None,
            },
            trace: copy_of(&self.trace),
        }
    }

    /// The printed clause of the state, or `<empty>`.
    pub open spec fn spec_display(&self, table: &SymbolTable) -> Seq<char> {
        match self.clause {
            Some(c) => c.spec_display(table),
            None => "<empty>"@,
        }
    }

    pub fn display(&self, symbol_table: &SymbolTable) -> (s: String)
        requires
            symbol_table.well_formed(),
        ensures
            s@ == self.spec_display(symbol_table),
    {
        match &self.clause {
            Some(c) => c.display(symbol_table),
            None => String::from_str("<empty>"),
        }
    }
}

/// A change to one state of an automaton.
#[derive(Debug, Clone, Copy, PartialEq, Eq, Structural)]
pub enum StateUpdate {
    /// The state gets this situation.
    Situation(StateSituation),
    /// The id of a transition is added to the trace of the state.
    PushTrace(usize),
}

/// The states and transitions that an analysis found.
#[derive(Debug)]
pub struct Automaton {
    pub states: Vec<State>,
    pub initial: Option<State>,
    pub transitions: Vec<Transition>,
    pub conflict_found: bool,
}

impl Automaton {
    /// Whether a state has the id `id`.
    pub open spec fn has_state(&self, id: usize) -> bool {
        exists|i: int| 0 <= i < self.states@.len() && (#[trigger] self.states@[i]).id == id
    }

    /// Whether a transition has the id `id`.
    pub open spec fn has_transition(&self, id: usize) -> bool {
        exists|i: int| 0 <= i < self.transitions@.len() && (#[trigger] self.transitions@[i]).id == id
    }

    /// Whether a state stands for the clause `clause`.
    pub open spec fn has_clause(&self, clause: Clause) -> bool {
        exists|i: int|
            0 <= i < self.states@.len() && (#[trigger] self.states@[i]).clause == Some(clause)
    }

    /// No two states share an id, and no two transitions.
    pub open spec fn well_formed(&self) -> bool {
        &&& forall|i: int, j: int|
            0 <= i < j < self.states@.len() ==> (#[trigger] self.states@[i]).id != (
            #[trigger] self.states@[j]).id
        &&& forall|i: int, j: int|
            0 <= i < j < self.transitions@.len() ==> (#[trigger] self.transitions@[i]).id != (
            #[trigger] self.transitions@[j]).id
    }

    /// The automaton of a contract before the analysis: the whole contract as the
    /// clause of the initial state, which has id 0; no state for an empty contract.
    pub fn new(contract: &Contract, symbol_table: &SymbolTable) -> (a: Self)
        requires
            symbol_table.well_formed(),
        ensures
            a.well_formed(),
            a.transitions@.len() == 0,
            !a.conflict_found,
            match spec_full_contract(contract.clauses@, symbol_table) {
                Some(c) => a.states@.len() == 1 && a.states@[0].is_fresh(0, Some(c))
                    && a.initial.is_some() && a.initial.unwrap().is_fresh(0, Some(c)),
                None => a.states@.len() == 0 && a.initial.is_none(),
            },
    {
        let full_contract = contract.get_full_contract(symbol_table);
        match full_contract {
            Some(clause) => {
                let initial = State::with_auto_id(0, Some(clause));
                let mut states: Vec<State> = Vec::new();
                states.push(initial.duplicate());
                Automaton {
                    states,
                    initial: Some(initial),
                    transitions: Vec::new(),
                    conflict_found: false,
                }
            },
            None => Automaton {
                states: Vec::new(),
                initial: None,
                transitions: Vec::new(),
                conflict_found: false,
            },
        }
    }

    fn find_state(&self, id: usize) -> (r: Option<usize>)
        ensures
            match r {
                Some(i) => i < self.states@.len() && self.states@[i as int].id == id,
                None => !self.has_state(id),
            },
    {
        let mut i: usize = 0;
        while i < self.states.len()
            invariant
                i <= self.states.len(),
                forall|k: int| 0 <= k < i ==> (#[trigger] self.states@[k]).id != id,
            decreases self.states.len() - i,
        {
            if self.states[i].id == id {
                return Some(i);
            }
            i += 1;
        }
        None
    }

    /// Adds a state, unless a state has its id already; says whether it was added.
    pub fn add_state(&mut self, state: State) -> (added: bool)
        requires
            old(self).well_formed(),
        ensures
            final(self).well_formed(),
            added == !old(self).has_state(state.id),
            final(self).states@ == (if added {
                old(self).states@.push(state)
            } else {
                old(self).states@
            }),
            final(self).transitions == old(self).transitions,
            final(self).initial == old(self).initial,
            final(self).conflict_found == old(self).conflict_found,
    {
        match self.find_state(state.id) {
            Some(_) => false,
            None => {
                self.states.push(state);
                true
            },
        }
    }

    /// Adds a transition, unless a transition has its id already; says whether it was
    /// added.
    pub fn add_transition(&mut self, transition: Transition) -> (added: bool)
        requires
            old(self).well_formed(),
        ensures
            final(self).well_formed(),
            added == !old(self).has_transition(transition.id),
            final(self).transitions@ == (if added {
                old(self).transitions@.push(transition)
            } else {
                old(self).transitions@
            }),
            final(self).states == old(self).states,
            final(self).initial == old(self).initial,
            final(self).conflict_found == old(self).conflict_found,
    {
        let mut i: usize = 0;
        while i < self.transitions.len()
            invariant
                i <= self.transitions.len(),
                *self == *old(self),
                self.well_formed(),
                forall|k: int| 0 <= k < i ==> (#[trigger] self.transitions@[k]).id != transition.id,
            decreases self.transitions.len() - i,
        {
            if self.transitions[i].id == transition.id {
                return false;
            }
            i += 1;
        }
        self.transitions.push(transition);
        true
    }

    /// The first state that stands for `clause`.
    pub fn get_state_by_clause(&self, clause: &Clause) -> (r: Option<&State>)
        ensures
            match r {
                Some(s) => exists|i: int|
                    0 <= i < self.states@.len() && #[trigger] self.states@[i] == *s && s.clause
                        == Some(*clause) && forall|k: int|
                        0 <= k < i ==> (#[trigger] self.states@[k]).clause != Some(*clause),
                None => !self.has_clause(*clause),
            },
    {
        let mut i: usize = 0;
        while i < self.states.len()
            invariant
                i <= self.states.len(),
                forall|k: int| 0 <= k < i ==> (#[trigger] self.states@[k]).clause != Some(*clause),
            decreases self.states.len() - i,
        {
            let same = match &self.states[i].clause {
                Some(c) => c.equals(clause),
                None => false,
            };
            if same {
                return Some(&self.states[i]);
            }
            i += 1;
        }
        None
    }

    /// The state with the id `id`.
    pub fn get_state_by_id(&self, id: usize) -> (r: Option<&State>)
        ensures
            match r {
                Some(s) => s.id == id && self.states@.contains(*s),
                None => !self.has_state(id),
            },
    {
        match self.find_state(id) {
            Some(i) => Some(&self.states[i]),
            None => None,
        }
    }

    /// What a state is after an update.
    pub open spec fn updated(s: State, update: StateUpdate, r: State) -> bool {
        &&& r.id == s.id
        &&& r.clause == s.clause
        &&& match (s.conflict_information, r.conflict_information) {
            (Some(a), Some(b)) => b.same_as(&a),
            (None, None) => true,
            _ => false,
        }
        &&& match update {
            StateUpdate::Situation(x) => r.situation == x && r.trace@ == s.trace@,
            StateUpdate::PushTrace(t) => r.situation == s.situation && r.trace@ == s.trace@.push(t),
        }
    }

    /// Applies `update` to the state with the id `id`; says whether there is such a
    /// state.
    pub fn update_state(&mut self, id: usize, update: StateUpdate) -> (found: bool)
        requires
            old(self).well_formed(),
        ensures
            final(self).well_formed(),
            found == old(self).has_state(id),
            final(self).states@.len() == old(self).states@.len(),
            forall|i: int|
                0 <= i < old(self).states@.len() ==> if old(self).states@[i].id == id {
                    Self::updated(old(self).states@[i], update, #[trigger] final(self).states@[i])
                } else {
                    final(self).states@[i] == old(self).states@[i]
                },
            final(self).transitions == old(self).transitions,
            final(self).initial == old(self).initial,
            final(self).conflict_found == old(self).conflict_found,
    {
        match self.find_state(id) {
            Some(i) => {
                let mut state = self.states[i].duplicate();
                match update {
                    StateUpdate::Situation(x) => {
                        state.situation = x;
                    },
                    StateUpdate::PushTrace(t) => {
                        state.push_trace(t);
                    },
                }
                self.states.set(i, state);
                true
            },
            None => false,
        }
    }

    /// Takes the state with the id `id` out of the automaton.
    pub fn get_state_by_id_mut(&mut self, id: usize) -> (r: Option<State>)
        requires
            old(self).well_formed(),
        ensures
            final(self).well_formed(),
            match r {
                Some(s) => exists|i: int|
                    0 <= i < old(self).states@.len() && #[trigger] old(self).states@[i] == s && s.id
                        == id && final(self).states@ == old(self).states@.remove(i),
                None => !old(self).has_state(id) && final(self).states@ == old(self).states@,
            },
            final(self).transitions == old(self).transitions,
            final(self).initial == old(self).initial,
            final(self).conflict_found == old(self).conflict_found,
    {
        match self.find_state(id) {
            Some(i) => Some(self.states.remove(i)),
            None => None,
        }
    }

    /// Puts `state` in the place of the state with its id, or adds it where there is
    /// none; says whether a state was replaced.
    pub fn replace_state(&mut self, state: State) -> (replaced: bool)
        requires
            old(self).well_formed(),
        ensures
            final(self).well_formed(),
            replaced == old(self).has_state(state.id),
            replaced ==> exists|i: int|
                0 <= i < old(self).states@.len() && (#[trigger] old(self).states@[i]).id == state.id
                    && final(self).states@ == old(self).states@.update(i, state),
            !replaced ==> final(self).states@ == old(self).states@.push(state),
            final(self).transitions == old(self).transitions,
            final(self).initial == old(self).initial,
            final(self).conflict_found == old(self).conflict_found,
    {
        match self.find_state(state.id) {
            Some(i) => {
                self.states.set(i, state);
                true
            },
            None => {
                self.states.push(state);
                false
            },
        }
    }

    /// The conflicting states among the first `n`, in their order.
    pub open spec fn conflicts_among(states: Seq<State>, n: nat) -> Seq<State>
        decreases n,
    {
        if n == 0 {
            Seq::empty()
        } else if states[n - 1].situation == StateSituation::Conflicting {
            Self::conflicts_among(states, (n - 1) as nat).push(states[n - 1])
        } else {
            Self::conflicts_among(states, (n - 1) as nat)
        }
    }

    /// The conflicting states.
    pub fn get_conflicts(&self) -> (r: Vec<&State>)
        ensures
            r@.map_values(|s: &State| *s) == Self::conflicts_among(self.states@, self.states@.len()),
    {
        let mut out: Vec<&State> = Vec::new();
        let mut i: usize = 0;
        while i < self.states.len()
            invariant
                i <= self.states.len(),
                out@.map_values(|s: &State| *s) == Self::conflicts_among(self.states@, i as nat),
            decreases self.states.len() - i,
        {
            let ghost before = out@.map_values(|s: &State| *s);
            if self.states[i].situation == StateSituation::Conflicting {
                out.push(&self.states[i]);
                proof {
                    assert(out@.map_values(|s: &State| *s) =~= before.push(self.states@[i as int]));
                }
            }
            i += 1;
        }
        out
    }

    /// The transition with the id `id`.
    pub fn get_transition_by_id(&self, id: usize) -> (r: Option<&Transition>)
        ensures
            match r {
                Some(t) => t.id == id && self.transitions@.contains(*t),
                None => !self.has_transition(id),
            },
    {
        let mut i: usize = 0;
        while i < self.transitions.len()
            invariant
                i <= self.transitions.len(),
                forall|k: int| 0 <= k < i ==> (#[trigger] self.transitions@[k]).id != id,
            decreases self.transitions.len() - i,
        {
            if self.transitions[i].id == id {
                return Some(&self.transitions[i]);
            }
            i += 1;
        }
        None
    }

    /// `States: n`, `Transitions: n` and `Conflicting: bool`, a line each.
    pub open spec fn spec_display(&self) -> Seq<char> {
        "States: "@ + decimal(self.states@.len()) + "\nTransitions: "@ + decimal(
            self.transitions@.len(),
        ) + "\nConflicting: "@ + (if self.conflict_found {
            "true"@
        } else {
            "false"@
        }) + "\n"@
    }

    pub fn display(&self) -> (s: String)
        ensures
            s@ == self.spec_display(),
    {
        let mut out = String::from_str("States: ");
        push_decimal(&mut out, self.states.len() as u64);
        out.append("\nTransitions: ");
        push_decimal(&mut out, self.transitions.len() as u64);
        out.append("\nConflicting: ");
        if self.conflict_found {
            out.append("true");
        } else {
            out.append("false");
        }
        out.append("\n");
        out
    }
}

} // verus!
