use crate::model::actions::{Action, BasicAction};
use crate::utils::ordered::{
    append_distinct, extend_distinct, insert_distinct, sort_positions, sorted_positions, Ranked,
};
use crate::utils::shared::share;
use crate::utils::text::{
    chars_of, contains_text, lemma_views_push, push_joined, spec_contains_text, spec_join,
    spec_string_hash, string_hash, views_of,
};
use crate::utils::symbols::SymbolTable;
use std::sync::Arc;
use vstd::prelude::*;
use vstd::string::StringExecFns;

verus! {

/// The connective of a clause composition.
#[derive(Debug, Clone, Copy, PartialEq, Eq, Hash, Structural)]
pub enum ClauseCompositionType {
    Xor,
    Or,
    And,
    Absent,
}

impl ClauseCompositionType {
    pub open spec fn spec_symbol(self) -> Seq<char> {
        match self {
            ClauseCompositionType::Xor => "XOR"@,
            ClauseCompositionType::Or => "OR"@,
            ClauseCompositionType::And => "AND"@,
            ClauseCompositionType::Absent => "NONE"@,
        }
    }

    /// The connective as a clause prints it.
    pub fn symbol(&self) -> (s: &'static str)
        ensures
            s@ == self.spec_symbol(),
    {
        match self {
            ClauseCompositionType::Xor => "XOR",
            ClauseCompositionType::Or => "OR",
            ClauseCompositionType::And => "AND",
            ClauseCompositionType::Absent => "NONE",
        }
    }
}

/// Whether a catalogue conflict holds for everyone or per sender.
#[derive(Debug, Clone, Copy, PartialEq, Eq, Hash, Structural)]
pub enum ConflictType {
    Global,
    Relativized,
}

#[derive(Debug, Clone, Copy, PartialEq, Eq, Hash, Structural)]
pub enum DeonticClauseType {
    Obligation,
    Permission,
    Prohibition,
}

impl DeonticClauseType {
    pub open spec fn spec_symbol(&self) -> Seq<char> {
        match self {
            DeonticClauseType::Obligation => "OBLIGATION"@,
            DeonticClauseType::Permission => "PERMISSION"@,
            DeonticClauseType::Prohibition => "PROHIBITION"@,
        }
    }

    pub fn symbol(&self) -> (s: &str)
        ensures
            s@ == self.spec_symbol(),
    {
        match self {
            DeonticClauseType::Obligation => "OBLIGATION",
            DeonticClauseType::Permission => "PERMISSION",
            DeonticClauseType::Prohibition => "PROHIBITION",
        }
    }

    pub open spec fn spec_short_symbol(&self) -> Seq<char> {
        match self {
            DeonticClauseType::Obligation => "O"@,
            DeonticClauseType::Permission => "P"@,
            DeonticClauseType::Prohibition => "F"@,
        }
    }

    pub fn short_symbol(&self) -> (s: &str)
        ensures
            s@ == self.spec_short_symbol(),
    {
        match self {
            DeonticClauseType::Obligation => "O",
            DeonticClauseType::Permission => "P",
            DeonticClauseType::Prohibition => "F",
        }
    }
}

/// How sender and receiver of a clause are quantified.
#[derive(Debug, Clone, Copy, PartialEq, Eq, Hash, Structural)]
pub enum RelativizationType {
    Global,
    Relativized,
    Directed,
}

/// A connective and the clause that follows it on the spine.
#[derive(Debug, PartialEq, Eq, Hash)]
pub struct ClauseComposition {
    pub composition_type: ClauseCompositionType,
    pub other: Arc<Clause>,
}

/// A clause: its head, and optionally a composition with the rest of a right-leaning
/// list of clauses.
#[derive(Debug, PartialEq, Eq, Hash)]
pub enum Clause {
    Boolean { value: bool, composition: Option<ClauseComposition> },
    Deontic {
        sender: i32,
        receiver: i32,
        relativization_type: RelativizationType,
        action: Action,
        deontic_type: DeonticClauseType,
        penalty: Option<Arc<Clause>>,
        composition: Option<ClauseComposition>,
    },
    Dynamic {
        sender: i32,
        receiver: i32,
        relativization_type: RelativizationType,
        action: Action,
        clause: Arc<Clause>,
        composition: Option<ClauseComposition>,
    },
}

/// The relativization that a sender and a receiver stand for: a negative sender means
/// everyone, a negative receiver means every receiver.
pub open spec fn relativization_of(sender: i32, receiver: i32) -> RelativizationType {
    if sender < 0 {
        RelativizationType::Global
    } else if receiver < 0 {
        RelativizationType::Relativized
    } else {
        RelativizationType::Directed
    }
}

impl ClauseComposition {
    pub open spec fn spec_new(composition_type: ClauseCompositionType, other: Clause) -> Self {
        ClauseComposition { composition_type, other: Arc::new(other) }
    }

    #[verifier::when_used_as_spec(spec_new)]
    pub fn new(composition_type: ClauseCompositionType, other: Clause) -> (c: Self)
        ensures
            c == Self::spec_new(composition_type, other),
    {
        ClauseComposition { composition_type, other: Arc::new(other) }
    }
}

impl Clone for ClauseComposition {
    fn clone(&self) -> (res: Self)
        ensures
            res == *self,
    {
        ClauseComposition { composition_type: self.composition_type, other: share(&self.other) }
    }
}

impl Clone for Clause {
    fn clone(&self) -> (res: Self)
        ensures
            res == *self,
    {
        match self {
            Clause::Boolean { value, composition } => Clause::Boolean {
                value: *value,
                composition: Self::clone_composition(composition),
            },
            Clause::Deontic {
                sender,
                receiver,
                relativization_type,
                action,
                deontic_type,
                penalty,
                composition,
            } => Clause::Deontic {
                sender: *sender,
                receiver: *receiver,
                relativization_type: *relativization_type,
                action: action.clone(),
                deontic_type: *deontic_type,
                penalty: Self::clone_penalty(penalty),
                composition: Self::clone_composition(composition),
            },
            Clause::Dynamic { sender, receiver, relativization_type, action, clause, composition } => {
                Clause::Dynamic {
                    sender: *sender,
                    receiver: *receiver,
                    relativization_type: *relativization_type,
                    action: action.clone(),
                    clause: share(clause),
                    composition: Self::clone_composition(composition),
                }
            },
        }
    }
}

impl Clause {
    fn clone_composition(composition: &Option<ClauseComposition>) -> (res: Option<ClauseComposition>)
        ensures
            res == *composition,
    {
        match composition {
            Some(c) => Some(c.clone()),
            None => None,
        }
    }

    fn clone_penalty(penalty: &Option<Arc<Clause>>) -> (res: Option<Arc<Clause>>)
        ensures
            res == *penalty,
    {
        match penalty {
            Some(p) => Some(share(p)),
            None => None,
        }
    }

    fn wrap_penalty(penalty: Option<Clause>) -> (res: Option<Arc<Clause>>)
        ensures
            res == Self::spec_wrap(penalty),
    {
        match penalty {
            Some(p) => Some(Arc::new(p)),
            None => None,
        }
    }

    pub open spec fn spec_wrap(penalty: Option<Clause>) -> Option<Arc<Clause>> {
        match penalty {
            Some(p) => Some(Arc::new(p)),
            None => None,
        }
    }

    pub open spec fn spec_boolean(value: bool) -> Clause {
        Clause::Boolean { value, composition: None }
    }

    pub fn boolean_true() -> (c: Self)
        ensures
            c == Self::spec_boolean(true),
    {
        Clause::Boolean { value: true, composition: None }
    }

    pub fn boolean_false() -> (c: Self)
        ensures
            c == Self::spec_boolean(false),
    {
        Clause::Boolean { value: false, composition: None }
    }

    pub fn deontic_global(action: Action, deontic_type: DeonticClauseType, penalty: Option<Clause>) -> (c:
        Self)
        ensures
            c == (Clause::Deontic {
                sender: -1i32,
                receiver: -1i32,
                relativization_type: RelativizationType::Global,
                action,
                deontic_type,
                penalty: Self::spec_wrap(penalty),
                composition: None,
            }),
    {
        Clause::Deontic {
            sender: -1,
            receiver: -1,
            relativization_type: RelativizationType::Global,
            action,
            deontic_type,
            penalty: Self::wrap_penalty(penalty),
            composition: None,
        }
    }

    pub fn deontic_relativized(
        sender: i32,
        action: Action,
        deontic_type: DeonticClauseType,
        penalty: Option<Clause>,
    ) -> (c: Self)
        ensures
            c == (Clause::Deontic {
                sender,
                receiver: -1i32,
                relativization_type: RelativizationType::Relativized,
                action,
                deontic_type,
                penalty: Self::spec_wrap(penalty),
                composition: None,
            }),
    {
        Clause::Deontic {
            sender,
            receiver: -1,
            relativization_type: RelativizationType::Relativized,
            action,
            deontic_type,
            penalty: Self::wrap_penalty(penalty),
            composition: None,
        }
    }

    /// A deontic clause whose relativization follows from the signs of sender and
    /// receiver.
    pub fn deontic_directed(
        sender: i32,
        receiver: i32,
        action: Action,
        deontic_type: DeonticClauseType,
        penalty: Option<Clause>,
    ) -> (c: Self)
        ensures
            c == (Clause::Deontic {
                sender,
                receiver,
                relativization_type: relativization_of(sender, receiver),
                action,
                deontic_type,
                penalty: Self::spec_wrap(penalty),
                composition: None,
            }),
    {
        let relativization_type = if sender < 0 {
            RelativizationType::Global
        } else if receiver < 0 {
            RelativizationType::Relativized
        } else {
            RelativizationType::Directed
        };
        Clause::Deontic {
            sender,
            receiver,
            relativization_type,
            action,
            deontic_type,
            penalty: Self::wrap_penalty(penalty),
            composition: None,
        }
    }

    pub fn dynamic_global(action: Action, clause: Clause) -> (c: Self)
        ensures
            c == (Clause::Dynamic {
                sender: -1i32,
                receiver: -1i32,
                relativization_type: RelativizationType::Global,
                action,
                clause: Arc::new(clause),
                composition: None,
            }),
    {
        Clause::Dynamic {
            sender: -1,
            receiver: -1,
            relativization_type: RelativizationType::Global,
            action,
            clause: Arc::new(clause),
            composition: None,
        }
    }

    pub fn dynamic_relativized(sender: i32, action: Action, clause: Clause) -> (c: Self)
        ensures
            c == (Clause::Dynamic {
                sender,
                receiver: -1i32,
                relativization_type: RelativizationType::Relativized,
                action,
                clause: Arc::new(clause),
                composition: None,
            }),
    {
        Clause::Dynamic {
            sender,
            receiver: -1,
            relativization_type: RelativizationType::Relativized,
            action,
            clause: Arc::new(clause),
            composition: None,
        }
    }

    pub open spec fn spec_dynamic_directed(
        sender: i32,
        receiver: i32,
        action: Action,
        clause: Clause,
    ) -> Clause {
        Clause::Dynamic {
            sender,
            receiver,
            relativization_type: relativization_of(sender, receiver),
            action,
            clause: Arc::new(clause),
            composition: None,
        }
    }

    /// A dynamic clause whose relativization follows from the signs of sender and
    /// receiver.
    pub fn dynamic_directed(sender: i32, receiver: i32, action: Action, clause: Clause) -> (c: Self)
        ensures
            c == Self::spec_dynamic_directed(sender, receiver, action, clause),
    {
        let relativization_type = if sender < 0 {
            RelativizationType::Global
        } else if receiver < 0 {
            RelativizationType::Relativized
        } else {
            RelativizationType::Directed
        };
        Clause::Dynamic {
            sender,
            receiver,
            relativization_type,
            action,
            clause: Arc::new(clause),
            composition: None,
        }
    }

    /// The receiver of the head; `0` for a Boolean.
    pub open spec fn spec_receiver(&self) -> i32 {
        match self {
            Clause::Deontic { receiver, .. } => *receiver,
            Clause::Dynamic { receiver, .. } => *receiver,
            Clause::Boolean { .. } => 0,
        }
    }

    pub fn get_receiver(&self) -> (r: &i32)
        ensures
            *r == self.spec_receiver(),
    {
        match self {
            Clause::Deontic { receiver, .. } => receiver,
            Clause::Dynamic { receiver, .. } => receiver,
            Clause::Boolean { .. } => &0,
        }
    }

    /// The sender of the head; `0` for a Boolean.
    pub open spec fn spec_sender(&self) -> i32 {
        match self {
            Clause::Deontic { sender, .. } => *sender,
            Clause::Dynamic { sender, .. } => *sender,
            Clause::Boolean { .. } => 0,
        }
    }

    pub fn get_sender(&self) -> (r: &i32)
        ensures
            *r == self.spec_sender(),
    {
        match self {
            Clause::Deontic { sender, .. } => sender,
            Clause::Dynamic { sender, .. } => sender,
            Clause::Boolean { .. } => &0,
        }
    }

    /// The composition of the clause, if it has one.
    pub open spec fn composition(self) -> Option<ClauseComposition> {
        match self {
            Clause::Boolean { composition, .. } => composition,
            Clause::Deontic { composition, .. } => composition,
            Clause::Dynamic { composition, .. } => composition,
        }
    }

    /// The clause with its composition replaced.
    pub open spec fn with_composition(self, c: Option<ClauseComposition>) -> Clause {
        match self {
            Clause::Boolean { value, .. } => Clause::Boolean { value, composition: c },
            Clause::Deontic {
                sender,
                receiver,
                relativization_type,
                action,
                deontic_type,
                penalty,
                ..
            } => Clause::Deontic {
                sender,
                receiver,
                relativization_type,
                action,
                deontic_type,
                penalty,
                composition: c,
            },
            Clause::Dynamic { sender, receiver, relativization_type, action, clause, .. } => {
                Clause::Dynamic {
                    sender,
                    receiver,
                    relativization_type,
                    action,
                    clause,
                    composition: c,
                }
            },
        }
    }

    /// The first clause of the spine, on its own.
    pub open spec fn head(self) -> Clause {
        self.with_composition(None)
    }

    /// The clause after the head on the spine.
    pub open spec fn rest(self) -> Clause
        recommends
            self.composition().is_some(),
    {
        *self.composition().unwrap().other
    }

    /// The number of clauses on the spine.
    pub open spec fn spine_len(self) -> nat
        decreases self,
    {
        match self.composition() {
            Some(c) => 1 + c.other.spine_len(),
            None => 1,
        }
    }

    pub fn set_composition(&mut self, composition: ClauseComposition)
        ensures
            *final(self) == old(self).with_composition(Some(composition)),
    {
        match self {
            Clause::Boolean { composition: c, .. } => *c = Some(composition),
            Clause::Deontic { composition: c, .. } => *c = Some(composition),
            Clause::Dynamic { composition: c, .. } => *c = Some(composition),
        }
    }

    pub fn get_composition(&self) -> (r: Option<&ClauseComposition>)
        ensures
            match r {
                Some(c) => self.composition() == Some(*c),
                None => self.composition().is_none(),
            },
    {
        match self {
            Clause::Boolean { composition, .. } => composition.as_ref(),
            Clause::Deontic { composition, .. } => composition.as_ref(),
            Clause::Dynamic { composition, .. } => composition.as_ref(),
        }
    }

    pub fn get_composition_mut(&mut self) -> (r: Option<&mut ClauseComposition>)
        ensures
            match r {
                Some(c) => old(self).composition() == Some(*c) && *final(self) == old(
                    self,
                ).with_composition(Some(*final(c))),
                None => old(self).composition().is_none() && *final(self) == *old(self),
            },
    {
        match self {
            Clause::Boolean { composition, .. } => match composition {
                Some(c) => Some(c),
                None => None,
            },
            Clause::Deontic { composition, .. } => match composition {
                Some(c) => Some(c),
                None => None,
            },
            Clause::Dynamic { composition, .. } => match composition {
                Some(c) => Some(c),
                None => None,
            },
        }
    }

    pub fn set_composition_to_none(&mut self)
        ensures
            *final(self) == old(self).head(),
    {
        match self {
            Clause::Boolean { composition, .. } => *composition = None,
            Clause::Deontic { composition, .. } => *composition = None,
            Clause::Dynamic { composition, .. } => *composition = None,
        }
    }

    /// The last clause of the spine.
    pub open spec fn spec_tail(self) -> Clause
        decreases self,
    {
        match self.composition() {
            Some(c) => c.other.spec_tail(),
            None => self,
        }
    }

    pub fn get_tail(&self) -> (r: &Clause)
        ensures
            *r == self.spec_tail(),
            r.composition().is_none(),
        decreases *self,
    {
        match self.get_composition() {
            Some(comp) => (&*comp.other).get_tail(),
            None => self,
        }
    }

    /// Whether the heads of the two clauses are equal, whatever follows them.
    fn same_head(&self, other: &Clause) -> (b: bool)
        ensures
            b == (self.head() == other.head()),
        decreases *self, 0int,
    {
        match (self, other) {
            (Clause::Boolean { value: v1, .. }, Clause::Boolean { value: v2, .. }) => *v1 == *v2,
            (
                Clause::Deontic {
                    sender: s1,
                    receiver: r1,
                    relativization_type: t1,
                    action: a1,
                    deontic_type: d1,
                    penalty: p1,
                    ..
                },
                Clause::Deontic {
                    sender: s2,
                    receiver: r2,
                    relativization_type: t2,
                    action: a2,
                    deontic_type: d2,
                    penalty: p2,
                    ..
                },
            ) => {
                if !(*s1 == *s2 && *r1 == *r2 && *t1 == *t2 && *d1 == *d2) {
                    return false;
                }
                if !a1.equals(a2) {
                    return false;
                }
                match (p1, p2) {
                    (Some(x), Some(y)) => (&**x).equals(&**y),
                    (None, None) => true,
                    _ => false,
                }
            },
            (
                Clause::Dynamic {
                    sender: s1,
                    receiver: r1,
                    relativization_type: t1,
                    action: a1,
                    clause: c1,
                    ..
                },
                Clause::Dynamic {
                    sender: s2,
                    receiver: r2,
                    relativization_type: t2,
                    action: a2,
                    clause: c2,
                    ..
                },
            ) => {
                if !(*s1 == *s2 && *r1 == *r2 && *t1 == *t2) {
                    return false;
                }
                if !a1.equals(a2) {
                    return false;
                }
                (&**c1).equals(&**c2)
            },
            _ => false,
        }
    }

    /// Structural equality.
    pub fn equals(&self, other: &Clause) -> (b: bool)
        ensures
            b == (*self == *other),
        decreases *self, 1int,
    {
        if !self.same_head(other) {
            return false;
        }
        proof {
            assert(*self == self.head().with_composition(self.composition()));
            assert(*other == other.head().with_composition(other.composition()));
        }
        match (self.get_composition(), other.get_composition()) {
            (Some(c1), Some(c2)) => c1.composition_type == c2.composition_type && (&*c1.other).equals(
                &*c2.other,
            ),
            (None, None) => true,
            _ => false,
        }
    }

    /// Whether `target` is the head of this clause or of a clause further down the
    /// spine, reached through compositions of type `comp_type` only.
    pub open spec fn spec_contains(self, comp_type: ClauseCompositionType, target: Clause) -> bool
        decreases self,
    {
        self.head() == target || match self.composition() {
            Some(c) => c.composition_type == comp_type && c.other.spec_contains(comp_type, target),
            None => false,
        }
    }

    pub fn contains(&self, comp_type: ClauseCompositionType, target: &Clause) -> (b: bool)
        ensures
            b == self.spec_contains(comp_type, *target),
        decreases *self,
    {
        if target.get_composition().is_none() && self.same_head(target) {
            proof {
                assert(*target == target.head());
            }
            return true;
        }
        proof {
            if self.head() == *target {
                assert(target.composition().is_none());
                assert(target.head() == *target);
            }
        }
        match self.get_composition() {
            Some(comp) => {
                if comp.composition_type != comp_type {
                    return false;
                }
                (&*comp.other).contains(comp_type, target)
            },
            None => false,
        }
    }

    /// `{sender}` or `{sender,receiver}` with names; nothing for a global clause or a
    /// Boolean.
    pub open spec fn spec_format_relativization(self, table: &SymbolTable) -> Seq<char> {
        match self {
            Clause::Boolean { .. } => Seq::empty(),
            Clause::Deontic { sender, receiver, relativization_type, .. }
            | Clause::Dynamic { sender, receiver, relativization_type, .. } => {
                match relativization_type {
                    RelativizationType::Global => Seq::empty(),
                    RelativizationType::Relativized => "{"@ + Self::spec_format_individual(
                        sender,
                        table,
                    ) + "}"@,
                    RelativizationType::Directed => "{"@ + Self::spec_format_individual(
                        sender,
                        table,
                    ) + ","@ + Self::spec_format_individual(receiver, table) + "}"@,
                }
            },
        }
    }

    /// The name of an individual; `GLOBAL` for a negative or unknown id.
    pub open spec fn spec_format_individual(id: i32, table: &SymbolTable) -> Seq<char> {
        if id < 0 {
            "GLOBAL"@
        } else {
            table.name_or(id as int, "GLOBAL"@)
        }
    }

    fn write_individual(id: i32, symbol_table: &SymbolTable, out: &mut String)
        requires
            symbol_table.well_formed(),
        ensures
            final(out)@ == old(out)@ + Self::spec_format_individual(id, symbol_table),
    {
        if id < 0 {
            out.append("GLOBAL");
        } else {
            match symbol_table.get_symbol_by_id(id) {
                Some(s) => out.append(s.value()),
                None => out.append("GLOBAL"),
            }
        }
    }

    fn write_relativization(&self, symbol_table: &SymbolTable, out: &mut String)
        requires
            symbol_table.well_formed(),
        ensures
            final(out)@ == old(out)@ + self.spec_format_relativization(symbol_table),
    {
        match self {
            Clause::Boolean { .. } => {
                proof {
                    assert(out@ =~= old(out)@ + Seq::<char>::empty());
                }
            },
            Clause::Deontic { sender, receiver, relativization_type, .. }
            | Clause::Dynamic { sender, receiver, relativization_type, .. } => {
                match relativization_type {
                    RelativizationType::Global => {
                        proof {
                            assert(out@ =~= old(out)@ + Seq::<char>::empty());
                        }
                    },
                    RelativizationType::Relativized => {
                        out.append("{");
                        Self::write_individual(*sender, symbol_table, out);
                        out.append("}");
                        proof {
                            assert(out@ =~= old(out)@ + ("{"@ + Self::spec_format_individual(
                                *sender,
                                symbol_table,
                            ) + "}"@));
                        }
                    },
                    RelativizationType::Directed => {
                        out.append("{");
                        Self::write_individual(*sender, symbol_table, out);
                        out.append(",");
                        Self::write_individual(*receiver, symbol_table, out);
                        out.append("}");
                        proof {
                            assert(out@ =~= old(out)@ + ("{"@ + Self::spec_format_individual(
                                *sender,
                                symbol_table,
                            ) + ","@ + Self::spec_format_individual(*receiver, symbol_table) + "}"@));
                        }
                    },
                }
            },
        }
    }

    /// The printed head: what the clause prints before its composition.
    pub open spec fn spec_display_head(self, table: &SymbolTable) -> Seq<char>
        decreases self, 0int,
    {
        match self {
            Clause::Boolean { value, .. } => if value {
                "T"@
            } else {
                "F"@
            },
            Clause::Deontic { action, deontic_type, penalty, .. } => self.spec_format_relativization(
                table,
            ) + deontic_type.spec_symbol() + "("@ + action.spec_display(table) + ")"@
                + Self::spec_display_penalty(penalty, table),
            Clause::Dynamic { action, clause, .. } => self.spec_format_relativization(table) + "["@
                + action.spec_display(table) + "]("@ + clause.spec_display(table) + ")"@,
        }
    }

    /// The printed clause: the head, then each composition as a space, the connective,
    /// a space and the clause that follows.
    pub open spec fn spec_display(self, table: &SymbolTable) -> Seq<char>
        decreases self, 1int,
    {
        self.spec_display_head(table) + Self::spec_display_composition(self.composition(), table)
    }

    /// The printed penalty between `_/` and `/_`; nothing where there is none.
    pub open spec fn spec_display_penalty(penalty: Option<Arc<Clause>>, table: &SymbolTable) -> Seq<
        char,
    >
        decreases penalty, 2int,
    {
        match penalty {
            Some(p) => "_/"@ + p.spec_display(table) + "/_"@,
            None => Seq::empty(),
        }
    }

    /// A space, the connective, a space and the clause that follows; nothing where
    /// there is no composition.
    pub open spec fn spec_display_composition(
        composition: Option<ClauseComposition>,
        table: &SymbolTable,
    ) -> Seq<char>
        decreases composition, 2int,
    {
        match composition {
            Some(c) => " "@ + c.composition_type.spec_symbol() + " "@ + c.other.spec_display(table),
            None => Seq::empty(),
        }
    }

    fn write_penalty(penalty: &Option<Arc<Clause>>, symbol_table: &SymbolTable, out: &mut String)
        requires
            symbol_table.well_formed(),
        ensures
            final(out)@ == old(out)@ + Self::spec_display_penalty(*penalty, symbol_table),
        decreases *penalty, 2int,
    {
        match penalty {
            Some(p) => {
                out.append("_/");
                (&**p).write_display(symbol_table, out);
                out.append("/_");
                proof {
                    assert(out@ =~= old(out)@ + ("_/"@ + p.spec_display(symbol_table) + "/_"@));
                }
            },
            None => {
                proof {
                    assert(out@ =~= old(out)@ + Seq::<char>::empty());
                }
            },
        }
    }

    fn write_composition(
        composition: Option<&ClauseComposition>,
        symbol_table: &SymbolTable,
        out: &mut String,
    )
        requires
            symbol_table.well_formed(),
        ensures
            final(out)@ == old(out)@ + Self::spec_display_composition(
                match composition {
                    Some(c) => Some(*c),
                    None => None,
                },
                symbol_table,
            ),
        decreases composition, 2int,
    {
        match composition {
            Some(c) => {
                out.append(" ");
                out.append(c.composition_type.symbol());
                out.append(" ");
                (&*c.other).write_display(symbol_table, out);
                proof {
                    assert(out@ =~= old(out)@ + (" "@ + c.composition_type.spec_symbol() + " "@
                        + c.other.spec_display(symbol_table)));
                }
            },
            None => {
                proof {
                    assert(out@ =~= old(out)@ + Seq::<char>::empty());
                }
            },
        }
    }

    fn write_head(&self, symbol_table: &SymbolTable, out: &mut String)
        requires
            symbol_table.well_formed(),
        ensures
            final(out)@ == old(out)@ + self.spec_display_head(symbol_table),
        decreases *self, 0int,
    {
        match self {
            Clause::Boolean { value, .. } => {
                if *value {
                    out.append("T");
                } else {
                    out.append("F");
                }
            },
            Clause::Deontic { action, deontic_type, penalty, .. } => {
                self.write_relativization(symbol_table, out);
                out.append(deontic_type.symbol());
                out.append("(");
                action.write_display(symbol_table, out);
                out.append(")");
                let ghost mid = out@;
                proof {
                    assert(mid =~= old(out)@ + (self.spec_format_relativization(symbol_table)
                        + deontic_type.spec_symbol() + "("@ + action.spec_display(symbol_table)
                        + ")"@));
                }
                Self::write_penalty(penalty, symbol_table, out);
                proof {
                    assert(out@ =~= old(out)@ + self.spec_display_head(symbol_table));
                }
            },
            Clause::Dynamic { action, clause, .. } => {
                self.write_relativization(symbol_table, out);
                out.append("[");
                action.write_display(symbol_table, out);
                out.append("](");
                let ghost mid = out@;
                proof {
                    assert(mid =~= old(out)@ + (self.spec_format_relativization(symbol_table) + "["@
                        + action.spec_display(symbol_table) + "]("@));
                }
                (&**clause).write_display(symbol_table, out);
                out.append(")");
                proof {
                    assert(out@ =~= old(out)@ + self.spec_display_head(symbol_table));
                }
            },
        }
    }

    /// Appends the printed clause to `out`.
    pub fn write_display(&self, symbol_table: &SymbolTable, out: &mut String)
        requires
            symbol_table.well_formed(),
        ensures
            final(out)@ == old(out)@ + self.spec_display(symbol_table),
        decreases *self, 1int,
    {
        self.write_head(symbol_table, out);
        let ghost after_head = out@;
        Self::write_composition(self.get_composition(), symbol_table, out);
        proof {
            let tail = Self::spec_display_composition(self.composition(), symbol_table);
            assert(out@ == after_head + tail);
            assert(out@ =~= old(out)@ + (self.spec_display_head(symbol_table) + tail));
        }
    }

    /// The printed clause.
    pub fn display(&self, symbol_table: &SymbolTable) -> (s: String)
        requires
            symbol_table.well_formed(),
        ensures
            s@ == self.spec_display(symbol_table),
    {
        let mut out = String::new();
        self.write_display(symbol_table, &mut out);
        proof {
            assert(Seq::<char>::empty() + self.spec_display(symbol_table) =~= self.spec_display(
                symbol_table,
            ));
        }
        out
    }
}

/// Two basic actions that may not occur together.
#[derive(Debug, Clone, Copy, PartialEq, Eq, Structural)]
pub struct Conflict {
    pub a: BasicAction,
    pub b: BasicAction,
    pub conflict_type: ConflictType,
}

impl Conflict {
    pub fn new(a: BasicAction, b: BasicAction, conflict_type: ConflictType) -> (c: Self)
        ensures
            c == (Conflict { a, b, conflict_type }),
    {
        Conflict { a, b, conflict_type }
    }

    /// `(a,b: TYPE)` with the actions as clauses print them.
    pub open spec fn spec_display(self, table: &SymbolTable) -> Seq<char> {
        "("@ + self.a.spec_display(table) + ","@ + self.b.spec_display(table) + ": "@ + (
        match self.conflict_type {
            ConflictType::Global => "GLOBAL"@,
            ConflictType::Relativized => "RELATIVIZED"@,
        }) + ")"@
    }

    pub fn display(&self, symbol_table: &SymbolTable) -> (s: String)
        requires
            symbol_table.well_formed(),
        ensures
            s@ == self.spec_display(symbol_table),
    {
        let mut out = String::from_str("(");
        let a = self.a.display(symbol_table);
        out.append(a.as_str());
        out.append(",");
        let b = self.b.display(symbol_table);
        out.append(b.as_str());
        out.append(": ");
        match self.conflict_type {
            ConflictType::Global => out.append("GLOBAL"),
            ConflictType::Relativized => out.append("RELATIVIZED"),
        }
        out.append(")");
        out
    }
}

/// The individuals that a clause names anywhere: sender and receiver of each clause
/// where they are not negative, then those of its penalty or inner clause, then those
/// of the clauses behind it.
pub open spec fn clause_individuals(c: Clause) -> Seq<i32>
    decreases c, 1int,
{
    (match c {
        Clause::Boolean { .. } => Seq::empty(),
        Clause::Deontic { sender, receiver, penalty, .. } => named(sender) + named(receiver)
            + penalty_individuals(penalty),
        Clause::Dynamic { sender, receiver, clause, .. } => named(sender) + named(receiver)
            + clause_individuals(*clause),
    }) + composition_individuals(c.composition())
}

/// The individual `id`, unless it is negative.
pub open spec fn named(id: i32) -> Seq<i32> {
    if id >= 0 {
        seq![id]
    } else {
        Seq::empty()
    }
}

pub open spec fn penalty_individuals(penalty: Option<Arc<Clause>>) -> Seq<i32>
    decreases penalty, 0int,
{
    match penalty {
        Some(p) => clause_individuals(*p),
        None => Seq::empty(),
    }
}

pub open spec fn composition_individuals(composition: Option<ClauseComposition>) -> Seq<i32>
    decreases composition, 0int,
{
    match composition {
        Some(comp) => clause_individuals(*comp.other),
        None => Seq::empty(),
    }
}

/// The basic actions that a clause names anywhere, in the same order of clauses.
pub open spec fn clause_actions(c: Clause) -> Seq<BasicAction>
    decreases c, 1int,
{
    (match c {
        Clause::Boolean { .. } => Seq::empty(),
        Clause::Deontic { action, penalty, .. } => action.spec_basic_actions() + penalty_actions(
            penalty,
        ),
        Clause::Dynamic { action, clause, .. } => action.spec_basic_actions() + clause_actions(
            *clause,
        ),
    }) + composition_actions(c.composition())
}

pub open spec fn penalty_actions(penalty: Option<Arc<Clause>>) -> Seq<BasicAction>
    decreases penalty, 0int,
{
    match penalty {
        Some(p) => clause_actions(*p),
        None => Seq::empty(),
    }
}

pub open spec fn composition_actions(composition: Option<ClauseComposition>) -> Seq<BasicAction>
    decreases composition, 0int,
{
    match composition {
        Some(comp) => clause_actions(*comp.other),
        None => Seq::empty(),
    }
}

/// `clause` with `other` attached by a conjunction behind the last clause of its spine.
pub open spec fn append_tail(clause: Clause, other: Clause) -> Clause
    decreases clause,
{
    match clause.composition() {
        Some(comp) => clause.with_composition(
            Some(
                ClauseComposition {
                    composition_type: comp.composition_type,
                    other: Arc::new(append_tail(*comp.other, other)),
                },
            ),
        ),
        None => clause.with_composition(
            Some(
                ClauseComposition {
                    composition_type: ClauseCompositionType::And,
                    other: Arc::new(other),
                },
            ),
        ),
    }
}

/// The group of a clause by its printed form: clauses over a negated action first,
/// then prohibitions, then obligations, then the rest.
pub open spec fn spec_clause_category(text: Seq<char>) -> u8 {
    if spec_contains_text(text, "[!"@) {
        0
    } else if spec_contains_text(text, "PROHIBITION"@) {
        1
    } else if spec_contains_text(text, "OBLIGATION"@) {
        2
    } else {
        3
    }
}

/// Where a clause stands among the clauses of a contract: its group, then the hash of
/// its printed form.
#[derive(Debug, Clone, Copy, PartialEq, Eq, Structural)]
pub struct ClauseKey {
    pub category: u8,
    pub hash: i32,
}

impl Ranked for ClauseKey {
    /// A key ranks by its group, then by its hash.
    open spec fn rank_le(self, other: ClauseKey) -> bool {
        self.category < other.category || (self.category == other.category && self.hash
            <= other.hash)
    }

    fn le(&self, other: &ClauseKey) -> (b: bool) {
        self.category < other.category || (self.category == other.category && self.hash
            <= other.hash)
    }
}

/// The key of a clause with the given printed form.
pub open spec fn key_of_text(text: Seq<char>) -> ClauseKey {
    ClauseKey { category: spec_clause_category(text), hash: spec_string_hash(text) }
}

/// The clauses at the first `n` of the given positions, joined into one clause by
/// conjunctions.
pub open spec fn joined(clauses: Seq<Clause>, order: Seq<int>, n: nat) -> Clause
    decreases n,
{
    if n <= 1 {
        clauses[order[0]]
    } else {
        append_tail(joined(clauses, order, (n - 1) as nat), clauses[order[n - 1]])
    }
}

/// The keys of the clauses, by their printed forms.
pub open spec fn keys_of(clauses: Seq<Clause>, table: &SymbolTable) -> Seq<ClauseKey> {
    clauses.map_values(|c: Clause| key_of_text(c.spec_display(table)))
}

/// The whole contract as one clause: its clauses sorted by key and joined by
/// conjunctions; nothing for a contract without clauses.
pub open spec fn spec_full_contract(clauses: Seq<Clause>, table: &SymbolTable) -> Option<Clause> {
    if clauses.len() == 0 {
        None
    } else {
        Some(
            joined(
                clauses,
                sorted_positions(keys_of(clauses, table), clauses.len()),
                clauses.len(),
            ),
        )
    }
}

/// The clauses of a contract with its conflict catalogue, and the individuals and
/// actions that the clauses name.
#[derive(Debug)]
pub struct Contract {
    pub clauses: Vec<Clause>,
    pub global_conflicts: Vec<Conflict>,
    pub relativized_conflicts: Vec<Conflict>,
    pub individuals: Vec<i32>,
    pub actions: Vec<BasicAction>,
}

impl Contract {
    pub fn new() -> (c: Self)
        ensures
            c.clauses@.len() == 0,
            c.global_conflicts@.len() == 0,
            c.relativized_conflicts@.len() == 0,
            c.individuals@.len() == 0,
            c.actions@.len() == 0,
    {
        Contract {
            clauses: Vec::new(),
            global_conflicts: Vec::new(),
            relativized_conflicts: Vec::new(),
            individuals: Vec::new(),
            actions: Vec::new(),
        }
    }

    /// The clauses of a contract built from `clauses`: each once, in the order given.
    pub open spec fn spec_with_clauses(clauses: Seq<Clause>) -> Seq<Clause> {
        extend_distinct(Seq::empty(), clauses)
    }

    /// The individuals of a contract built from `clauses`.
    pub open spec fn individuals_of(clauses: Seq<Clause>) -> Seq<i32>
        decreases clauses.len(),
    {
        if clauses.len() == 0 {
            Seq::empty()
        } else {
            extend_distinct(
                Self::individuals_of(clauses.drop_last()),
                clause_individuals(clauses.last()),
            )
        }
    }

    /// The actions of a contract built from `clauses`.
    pub open spec fn actions_of(clauses: Seq<Clause>) -> Seq<BasicAction>
        decreases clauses.len(),
    {
        if clauses.len() == 0 {
            Seq::empty()
        } else {
            extend_distinct(Self::actions_of(clauses.drop_last()), clause_actions(clauses.last()))
        }
    }

    pub fn with_clauses(clauses: Vec<Clause>) -> (c: Self)
        ensures
            c.clauses@ == Self::spec_with_clauses(clauses@),
            c.individuals@ == Self::individuals_of(clauses@),
            c.actions@ == Self::actions_of(clauses@),
            c.global_conflicts@.len() == 0,
            c.relativized_conflicts@.len() == 0,
    {
        let mut contract = Self::new();
        let mut i: usize = 0;
        while i < clauses.len()
            invariant
                i <= clauses.len(),
                contract.clauses@ == Self::spec_with_clauses(clauses@.take(i as int)),
                contract.individuals@ == Self::individuals_of(clauses@.take(i as int)),
                contract.actions@ == Self::actions_of(clauses@.take(i as int)),
                contract.global_conflicts@.len() == 0,
                contract.relativized_conflicts@.len() == 0,
            decreases clauses.len() - i,
        {
            proof {
                assert(clauses@.take(i + 1).drop_last() =~= clauses@.take(i as int));
            }
            contract.add_clause(clauses[i].clone());
            i += 1;
        }
        proof {
            assert(clauses@.take(i as int) =~= clauses@);
        }
        contract
    }

    /// Adds a clause, and the individuals and actions that it names; says whether the
    /// contract did not hold the clause before.
    pub fn add_clause(&mut self, clause: Clause) -> (added: bool)
        ensures
            added == !old(self).clauses@.contains(clause),
            final(self).clauses@ == insert_distinct(old(self).clauses@, clause),
            final(self).individuals@ == extend_distinct(
                old(self).individuals@,
                clause_individuals(clause),
            ),
            final(self).actions@ == extend_distinct(old(self).actions@, clause_actions(clause)),
            final(self).global_conflicts == old(self).global_conflicts,
            final(self).relativized_conflicts == old(self).relativized_conflicts,
    {
        let mut ids: Vec<i32> = Vec::new();
        let mut acts: Vec<BasicAction> = Vec::new();
        Self::extract_from_clause(&clause, &mut ids, &mut acts);
        proof {
            assert(ids@ =~= clause_individuals(clause));
            assert(acts@ =~= clause_actions(clause));
        }
        append_distinct(&mut self.individuals, &ids);
        append_distinct(&mut self.actions, &acts);
        let mut i: usize = 0;
        while i < self.clauses.len()
            invariant
                i <= self.clauses.len(),
                self.clauses == old(self).clauses,
                self.global_conflicts == old(self).global_conflicts,
                self.relativized_conflicts == old(self).relativized_conflicts,
                self.individuals@ == extend_distinct(
                    old(self).individuals@,
                    clause_individuals(clause),
                ),
                self.actions@ == extend_distinct(old(self).actions@, clause_actions(clause)),
                forall|k: int| 0 <= k < i ==> self.clauses@[k] != clause,
            decreases self.clauses.len() - i,
        {
            if self.clauses[i].equals(&clause) {
                return false;
            }
            i += 1;
        }
        self.clauses.push(clause);
        true
    }

    fn extract_from_clause(clause: &Clause, ids: &mut Vec<i32>, acts: &mut Vec<BasicAction>)
        ensures
            final(ids)@ == old(ids)@ + clause_individuals(*clause),
            final(acts)@ == old(acts)@ + clause_actions(*clause),
        decreases *clause,
    {
        match clause {
            Clause::Boolean { .. } => {},
            Clause::Deontic { sender, receiver, action, penalty, .. } => {
                if *sender >= 0 {
                    ids.push(*sender);
                }
                if *receiver >= 0 {
                    ids.push(*receiver);
                }
                let mut basics = action.get_basic_actions();
                acts.append(&mut basics);
                let ghost ids1 = ids@;
                let ghost acts1 = acts@;
                if let Some(pen) = penalty {
                    Self::extract_from_clause(&**pen, ids, acts);
                }
                proof {
                    assert(ids1 =~= old(ids)@ + (named(*sender) + named(*receiver)));
                    assert(ids@ =~= ids1 + penalty_individuals(*penalty));
                    assert(acts@ =~= acts1 + penalty_actions(*penalty));
                }
            },
            Clause::Dynamic { sender, receiver, action, clause: inner_clause, .. } => {
                if *sender >= 0 {
                    ids.push(*sender);
                }
                if *receiver >= 0 {
                    ids.push(*receiver);
                }
                let mut basics = action.get_basic_actions();
                acts.append(&mut basics);
                let ghost ids1 = ids@;
                proof {
                    assert(ids1 =~= old(ids)@ + (named(*sender) + named(*receiver)));
                }
                Self::extract_from_clause(&**inner_clause, ids, acts);
            },
        }
        let ghost ids2 = ids@;
        let ghost acts2 = acts@;
        if let Some(comp) = clause.get_composition() {
            Self::extract_from_clause(&*comp.other, ids, acts);
        }
        proof {
            assert(ids@ =~= ids2 + composition_individuals(clause.composition()));
            assert(acts@ =~= acts2 + composition_actions(clause.composition()));
            assert(ids@ =~= old(ids)@ + clause_individuals(*clause));
            assert(acts@ =~= old(acts)@ + clause_actions(*clause));
        }
    }

    /// The global conflicts, then the relativized ones.
    pub fn get_all_conflicts(&self) -> (r: Vec<Conflict>)
        ensures
            r@ == self.global_conflicts@ + self.relativized_conflicts@,
    {
        let mut conflicts: Vec<Conflict> = Vec::new();
        let mut i: usize = 0;
        while i < self.global_conflicts.len()
            invariant
                i <= self.global_conflicts.len(),
                conflicts@ == self.global_conflicts@.take(i as int),
            decreases self.global_conflicts.len() - i,
        {
            conflicts.push(self.global_conflicts[i]);
            proof {
                assert(conflicts@ =~= self.global_conflicts@.take(i + 1));
            }
            i += 1;
        }
        proof {
            assert(self.global_conflicts@.take(i as int) =~= self.global_conflicts@);
        }
        let mut j: usize = 0;
        while j < self.relativized_conflicts.len()
            invariant
                j <= self.relativized_conflicts.len(),
                conflicts@ == self.global_conflicts@ + self.relativized_conflicts@.take(j as int),
            decreases self.relativized_conflicts.len() - j,
        {
            conflicts.push(self.relativized_conflicts[j]);
            proof {
                assert(conflicts@ =~= self.global_conflicts@ + self.relativized_conflicts@.take(
                    j + 1,
                ));
            }
            j += 1;
        }
        proof {
            assert(self.relativized_conflicts@.take(j as int) =~= self.relativized_conflicts@);
        }
        conflicts
    }

    fn java_string_hashcode(s: &str) -> (h: i32)
        ensures
            h == spec_string_hash(s@),
    {
        let chars = chars_of(s);
        string_hash(&chars)
    }

    fn clause_category(clause_str: &str) -> (c: u8)
        ensures
            c == spec_clause_category(clause_str@),
    {
        let text = chars_of(clause_str);
        if contains_text(&text, &chars_of("[!")) {
            0
        } else if contains_text(&text, &chars_of("PROHIBITION")) {
            1
        } else if contains_text(&text, &chars_of("OBLIGATION")) {
            2
        } else {
            3
        }
    }

    fn keys(&self, symbol_table: &SymbolTable) -> (r: Vec<ClauseKey>)
        requires
            symbol_table.well_formed(),
        ensures
            r@ == keys_of(self.clauses@, symbol_table),
    {
        let mut out: Vec<ClauseKey> = Vec::new();
        let mut i: usize = 0;
        while i < self.clauses.len()
            invariant
                symbol_table.well_formed(),
                i <= self.clauses.len(),
                out@ == keys_of(self.clauses@.take(i as int), symbol_table),
            decreases self.clauses.len() - i,
        {
            let s = self.clauses[i].display(symbol_table);
            let category = Self::clause_category(s.as_str());
            let hash = Self::java_string_hashcode(s.as_str());
            out.push(ClauseKey { category, hash });
            proof {
                assert(out@ =~= keys_of(self.clauses@.take(i + 1), symbol_table));
            }
            i += 1;
        }
        proof {
            assert(self.clauses@.take(i as int) =~= self.clauses@);
        }
        out
    }

    fn append_clause_recursive(target: Clause, other: Clause) -> (r: Clause)
        ensures
            r == append_tail(target, other),
        decreases target,
    {
        let mut target = target;
        let link = match target.get_composition() {
            Some(comp) => {
                let rest = (&*comp.other).clone();
                ClauseComposition::new(
                    comp.composition_type,
                    Self::append_clause_recursive(rest, other),
                )
            },
            None => ClauseComposition::new(ClauseCompositionType::And, other),
        };
        target.set_composition(link);
        target
    }

    /// The printed clauses of the first `n` clauses: two blanks, the clause and a line
    /// end each.
    pub open spec fn clause_lines(clauses: Seq<Clause>, n: nat, table: &SymbolTable) -> Seq<char>
        decreases n,
    {
        if n == 0 {
            Seq::empty()
        } else {
            Self::clause_lines(clauses, (n - 1) as nat, table) + ("  "@ + clauses[n - 1].spec_display(
                table,
            ) + "\n"@)
        }
    }

    /// The printed conflicts.
    pub open spec fn conflict_texts(conflicts: Seq<Conflict>, table: &SymbolTable) -> Seq<Seq<char>> {
        conflicts.map_values(|c: Conflict| c.spec_display(table))
    }

    /// The contract as a log shows it: the clauses, then the global and the relativized
    /// conflicts; `Empty contract` for a contract without clauses.
    pub open spec fn spec_display(&self, table: &SymbolTable) -> Seq<char> {
        if self.clauses@.len() == 0 {
            "Empty contract"@
        } else {
            "\n"@ + Self::clause_lines(self.clauses@, self.clauses@.len(), table)
                + "Conflicts:\n\tGlobal: ["@ + spec_join(
                Self::conflict_texts(self.global_conflicts@, table),
                ", "@,
            ) + "]\n\tRelativized: ["@ + spec_join(
                Self::conflict_texts(self.relativized_conflicts@, table),
                ", "@,
            ) + "]\n"@
        }
    }

    fn push_conflicts(out: &mut String, conflicts: &Vec<Conflict>, symbol_table: &SymbolTable)
        requires
            symbol_table.well_formed(),
        ensures
            final(out)@ == old(out)@ + spec_join(Self::conflict_texts(conflicts@, symbol_table), ", "@),
    {
        let mut parts: Vec<String> = Vec::new();
        let mut i: usize = 0;
        while i < conflicts.len()
            invariant
                symbol_table.well_formed(),
                i <= conflicts.len(),
                views_of(parts@) == Self::conflict_texts(conflicts@.take(i as int), symbol_table),
            decreases conflicts.len() - i,
        {
            let ghost earlier = parts@;
            let text = conflicts[i].display(symbol_table);
            proof {
                lemma_views_push(earlier, text);
                assert(Self::conflict_texts(conflicts@.take(i + 1), symbol_table)
                    =~= Self::conflict_texts(conflicts@.take(i as int), symbol_table).push(
                    conflicts@[i as int].spec_display(symbol_table),
                ));
            }
            parts.push(text);
            i += 1;
        }
        proof {
            assert(conflicts@.take(i as int) =~= conflicts@);
        }
        push_joined(out, &parts, ", ");
    }

    /// The contract as a log shows it.
    pub fn display(&self, symbol_table: &SymbolTable) -> (s: String)
        requires
            symbol_table.well_formed(),
        ensures
            s@ == self.spec_display(symbol_table),
    {
        if self.clauses.len() == 0 {
            return String::from_str("Empty contract");
        }
        let mut out = String::from_str("\n");
        let ghost head = out@;
        proof {
            assert(out@ =~= head + Seq::<char>::empty());
        }
        let mut i: usize = 0;
        while i < self.clauses.len()
            invariant
                symbol_table.well_formed(),
                i <= self.clauses.len(),
                out@ == head + Self::clause_lines(self.clauses@, i as nat, symbol_table),
            decreases self.clauses.len() - i,
        {
            let ghost before = Self::clause_lines(self.clauses@, i as nat, symbol_table);
            out.append("  ");
            self.clauses[i].write_display(symbol_table, &mut out);
            out.append("\n");
            proof {
                assert(out@ =~= head + (before + ("  "@ + self.clauses@[i as int].spec_display(
                    symbol_table,
                ) + "\n"@)));
            }
            i += 1;
        }
        out.append("Conflicts:\n\tGlobal: [");
        Self::push_conflicts(&mut out, &self.global_conflicts, symbol_table);
        out.append("]\n\tRelativized: [");
        Self::push_conflicts(&mut out, &self.relativized_conflicts, symbol_table);
        out.append("]\n");
        proof {
            assert(out@ =~= self.spec_display(symbol_table));
        }
        out
    }

    /// The whole contract as one clause, or nothing for a contract without clauses.
    pub fn get_full_contract(&self, symbol_table: &SymbolTable) -> (r: Option<Clause>)
        requires
            symbol_table.well_formed(),
        ensures
            r == spec_full_contract(self.clauses@, symbol_table),
    {
        if self.clauses.len() == 0 {
            return None;
        }
        let keys = self.keys(symbol_table);
        let order = sort_positions(&keys);
        let ghost positions = order@.map_values(|p: usize| p as int);
        let mut head = self.clauses[order[0]].clone();
        let mut i: usize = 1;
        while i < order.len()
            invariant
                1 <= i <= order.len(),
                order@.len() == self.clauses@.len(),
                positions == order@.map_values(|p: usize| p as int),
                forall|k: int| 0 <= k < order@.len() ==> (#[trigger] order@[k]) < self.clauses@.len(),
                head == joined(self.clauses@, positions, i as nat),
            decreases order.len() - i,
        {
            proof {
                assert(positions[i as int] == order@[i as int] as int);
            }
            head = Self::append_clause_recursive(head, self.clauses[order[i]].clone());
            i += 1;
        }
        Some(head)
    }
}

impl Default for Contract {
    fn default() -> (c: Self)
        ensures
            c.clauses@.len() == 0,
    {
        Self::new()
    }
}

} // verus!
