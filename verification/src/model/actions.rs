use crate::utils::symbols::SymbolTable;
use vstd::prelude::*;
use vstd::string::StringExecFns;

verus! {

/// How a composed action joins its operands.
#[derive(Debug, Clone, Copy, PartialEq, Eq, Hash, Structural)]
pub enum ActionOperator {
    Choice,
    Concurrency,
    Sequence,
    Negation,
    Star,
    Absent,
}

impl ActionOperator {
    pub open spec fn spec_symbol(self) -> Seq<char> {
        match self {
            ActionOperator::Choice => "+"@,
            ActionOperator::Concurrency => "&"@,
            ActionOperator::Negation => "!"@,
            ActionOperator::Sequence => "."@,
            ActionOperator::Star => "*"@,
            ActionOperator::Absent => "NONE"@,
        }
    }

    /// The operator as it is written in a contract.
    pub fn symbol(&self) -> (s: &'static str)
        ensures
            s@ == self.spec_symbol(),
    {
        match self {
            ActionOperator::Choice => "+",
            ActionOperator::Concurrency => "&",
            ActionOperator::Negation => "!",
            ActionOperator::Sequence => ".",
            ActionOperator::Star => "*",
            ActionOperator::Absent => "NONE",
        }
    }
}

/// An atomic action: an action identifier and three marks.
#[derive(Debug, Clone, Copy, PartialEq, Eq, Hash, Structural)]
pub struct BasicAction {
    pub value: i32,
    pub violation: bool,
    pub skip: bool,
    pub negation: bool,
}

/// Anything that can say which basic actions it is made of.
pub trait ActionTrait {
    /// The basic actions, left to right.
    spec fn basic_actions(&self) -> Seq<BasicAction>;

    fn get_basic_actions(&self) -> (r: Vec<BasicAction>)
        ensures
            r@ == self.basic_actions(),
    ;
}

impl BasicAction {
    /// The action that always fires.
    pub fn skip() -> (a: Self)
        ensures
            a == (BasicAction { value: 0, violation: false, skip: true, negation: false }),
    {
        BasicAction { value: 0, violation: false, skip: true, negation: false }
    }

    /// The action that marks a violation.
    pub fn violation() -> (a: Self)
        ensures
            a == (BasicAction { value: -1i32, violation: true, skip: false, negation: false }),
    {
        BasicAction { value: -1, violation: true, skip: false, negation: false }
    }

    pub fn new(value: i32, violation: bool, skip: bool, negation: bool) -> (a: Self)
        ensures
            a == (BasicAction { value, violation, skip, negation }),
    {
        BasicAction { value, violation, skip, negation }
    }

    pub open spec fn spec_with_value(value: i32) -> Self {
        BasicAction { value, violation: false, skip: false, negation: false }
    }

    #[verifier::when_used_as_spec(spec_with_value)]
    pub fn with_value(value: i32) -> (a: Self)
        ensures
            a == Self::spec_with_value(value),
    {
        BasicAction::new(value, false, false, false)
    }

    pub open spec fn spec_negate(&self) -> Self {
        BasicAction { negation: !self.negation, ..*self }
    }

    /// The same action with its negation mark flipped.
    #[verifier::when_used_as_spec(spec_negate)]
    pub fn negate(&self) -> (a: Self)
        ensures
            a == self.spec_negate(),
    {
        BasicAction {
            value: self.value,
            violation: self.violation,
            skip: self.skip,
            negation: !self.negation,
        }
    }

    /// The action as traces and exports show it.
    pub open spec fn spec_format_with_symbols(self, table: &SymbolTable) -> Seq<char> {
        if self.violation {
            "VIOLATION"@
        } else if self.skip || self.value == 0 {
            "SKIP"@
        } else if self.negation {
            "!"@ + table.name_or(self.value as int, "UNDEF"@)
        } else {
            table.name_or(self.value as int, "UNDEF"@)
        }
    }

    pub fn format_with_symbols(&self, symbol_table: &SymbolTable) -> (s: String)
        requires
            symbol_table.well_formed(),
        ensures
            s@ == self.spec_format_with_symbols(symbol_table),
    {
        if self.violation {
            return String::from_str("VIOLATION");
        }
        if self.skip || self.value == 0 {
            return String::from_str("SKIP");
        }
        let mut out = if self.negation {
            String::from_str("!")
        } else {
            String::new()
        };
        match symbol_table.get_symbol_by_id(self.value) {
            Some(s) => out.append(s.value()),
            None => out.append("UNDEF"),
        }
        proof {
            assert(Seq::<char>::empty() + symbol_table.name_or(self.value as int, "UNDEF"@)
                =~= symbol_table.name_or(self.value as int, "UNDEF"@));
        }
        out
    }

    /// The action as a clause prints it: `1` for skip, `0` for violation.
    pub open spec fn spec_display(self, table: &SymbolTable) -> Seq<char> {
        if self.skip {
            "1"@
        } else if self.violation {
            "0"@
        } else if self.negation {
            "!"@ + table.name_or(self.value as int, "UNDEF"@)
        } else {
            table.name_or(self.value as int, "UNDEF"@)
        }
    }

    pub fn display(&self, symbol_table: &SymbolTable) -> (s: String)
        requires
            symbol_table.well_formed(),
        ensures
            s@ == self.spec_display(symbol_table),
    {
        if self.skip {
            return String::from_str("1");
        }
        if self.violation {
            return String::from_str("0");
        }
        let mut out = if self.negation {
            String::from_str("!")
        } else {
            String::new()
        };
        match symbol_table.get_symbol_by_id(self.value) {
            Some(s) => out.append(s.value()),
            None => out.append("UNDEF"),
        }
        proof {
            assert(Seq::<char>::empty() + symbol_table.name_or(self.value as int, "UNDEF"@)
                =~= symbol_table.name_or(self.value as int, "UNDEF"@));
        }
        out
    }
}

impl ActionTrait for BasicAction {
    /// Skip stands for no action; any other action for its bare identifier.
    open spec fn basic_actions(&self) -> Seq<BasicAction> {
        if self.skip {
            Seq::empty()
        } else {
            seq![BasicAction::spec_with_value(self.value)]
        }
    }

    fn get_basic_actions(&self) -> (r: Vec<BasicAction>) {
        let mut actions = Vec::new();
        if !self.skip {
            actions.push(BasicAction::with_value(self.value));
        }
        actions
    }
}

/// An operator with up to two operands.
#[derive(Debug, PartialEq, Eq, Hash)]
pub struct ComposedAction {
    pub left: Option<Box<Action>>,
    pub right: Option<Box<Action>>,
    pub operator: ActionOperator,
}

/// A basic action or a composed one.
#[derive(Debug, PartialEq, Eq, Hash)]
pub enum Action {
    Basic(BasicAction),
    Composed(ComposedAction),
}

impl ComposedAction {
    pub fn new(left: Option<Action>, right: Option<Action>, operator: ActionOperator) -> (c: Self)
        ensures
            c.operator == operator,
            c.left == (match left {
                Some(a) => Some(Box::new(a)),
                None => None,
            }),
            c.right == (match right {
                Some(a) => Some(Box::new(a)),
                None => None,
            }),
    {
        let l = match left {
            Some(a) => Some(Box::new(a)),
            None => None,
        };
        let r = match right {
            Some(a) => Some(Box::new(a)),
            None => None,
        };
        ComposedAction { left: l, right: r, operator }
    }

    pub fn binary(left: Action, right: Action, operator: ActionOperator) -> (c: Self)
        ensures
            c == (ComposedAction {
                left: Some(Box::new(left)),
                right: Some(Box::new(right)),
                operator,
            }),
    {
        ComposedAction::new(Some(left), Some(right), operator)
    }

    pub fn unary(action: Action, operator: ActionOperator) -> (c: Self)
        ensures
            c == (ComposedAction { left: Some(Box::new(action)), right: None, operator }),
    {
        ComposedAction::new(Some(action), None, operator)
    }

    pub fn empty() -> (c: Self)
        ensures
            c == (ComposedAction { left: None, right: None, operator: ActionOperator::Absent }),
    {
        ComposedAction::new(None, None, ActionOperator::Absent)
    }

    /// Structural equality.
    pub fn equals(&self, other: &ComposedAction) -> (b: bool)
        ensures
            b == (*self == *other),
        decreases *self,
    {
        if self.operator != other.operator {
            return false;
        }
        let l = match (&self.left, &other.left) {
            (Some(a), Some(b)) => (&**a).equals(&**b),
            (None, None) => true,
            _ => false,
        };
        if !l {
            return false;
        }
        match (&self.right, &other.right) {
            (Some(a), Some(b)) => (&**a).equals(&**b),
            (None, None) => true,
            _ => false,
        }
    }
}

impl Clone for ComposedAction {
    fn clone(&self) -> (res: Self)
        ensures
            res == *self,
        decreases *self,
    {
        let l = match &self.left {
            Some(a) => Some(Box::new((&**a).clone())),
            None => None,
        };
        let r = match &self.right {
            Some(a) => Some(Box::new((&**a).clone())),
            None => None,
        };
        ComposedAction { left: l, right: r, operator: self.operator }
    }
}

impl Clone for Action {
    fn clone(&self) -> (res: Self)
        ensures
            res == *self,
        decreases *self,
    {
        match self {
            Action::Basic(b) => Action::Basic(*b),
            Action::Composed(c) => Action::Composed(c.clone()),
        }
    }
}

impl ActionTrait for ComposedAction {
    open spec fn basic_actions(&self) -> Seq<BasicAction> {
        Action::Composed(*self).spec_basic_actions()
    }

    fn get_basic_actions(&self) -> (r: Vec<BasicAction>) {
        let mut actions = Vec::new();
        Action::collect_composed(self, &mut actions);
        actions
    }
}

impl Action {
    /// The basic actions of every leaf, left to right.
    pub open spec fn spec_basic_actions(self) -> Seq<BasicAction>
        decreases self,
    {
        match self {
            Action::Basic(b) => b.basic_actions(),
            Action::Composed(c) => Self::operand_basic_actions(c.left)
                + Self::operand_basic_actions(c.right),
        }
    }

    /// The basic actions of an operand; none where the operand is missing.
    pub open spec fn operand_basic_actions(operand: Option<Box<Action>>) -> Seq<BasicAction>
        decreases operand,
    {
        match operand {
            Some(a) => a.spec_basic_actions(),
            None => Seq::empty(),
        }
    }

    fn collect(&self, out: &mut Vec<BasicAction>)
        ensures
            final(out)@ == old(out)@ + self.spec_basic_actions(),
        decreases *self, 1int,
    {
        match self {
            Action::Basic(b) => {
                if !b.skip {
                    out.push(BasicAction::with_value(b.value));
                    proof {
                        assert(out@ =~= old(out)@ + self.spec_basic_actions());
                    }
                } else {
                    proof {
                        assert(out@ =~= old(out)@ + self.spec_basic_actions());
                    }
                }
            },
            Action::Composed(c) => Action::collect_composed(c, out),
        }
    }

    fn collect_composed(c: &ComposedAction, out: &mut Vec<BasicAction>)
        ensures
            final(out)@ == old(out)@ + Action::Composed(*c).spec_basic_actions(),
        decreases *c, 0int,
    {
        if let Some(l) = &c.left {
            (&**l).collect(out);
        }
        let ghost mid = out@;
        if let Some(r) = &c.right {
            (&**r).collect(out);
        }
        proof {
            let ls = Action::operand_basic_actions(c.left);
            let rs = Action::operand_basic_actions(c.right);
            assert(mid =~= old(out)@ + ls);
            assert(out@ =~= old(out)@ + (ls + rs));
        }
    }

    pub fn get_basic_actions(&self) -> (r: Vec<BasicAction>)
        ensures
            r@ == self.spec_basic_actions(),
    {
        let mut actions = Vec::new();
        self.collect(&mut actions);
        proof {
            assert(Seq::<BasicAction>::empty() + self.spec_basic_actions()
                =~= self.spec_basic_actions());
        }
        actions
    }

    pub fn choice(left: Action, right: Action) -> (a: Self)
        ensures
            a == Action::Composed(
                ComposedAction {
                    left: Some(Box::new(left)),
                    right: Some(Box::new(right)),
                    operator: ActionOperator::Choice,
                },
            ),
    {
        Action::Composed(ComposedAction::binary(left, right, ActionOperator::Choice))
    }

    pub fn concurrency(left: Action, right: Action) -> (a: Self)
        ensures
            a == Action::Composed(
                ComposedAction {
                    left: Some(Box::new(left)),
                    right: Some(Box::new(right)),
                    operator: ActionOperator::Concurrency,
                },
            ),
    {
        Action::Composed(ComposedAction::binary(left, right, ActionOperator::Concurrency))
    }

    pub fn sequence(left: Action, right: Action) -> (a: Self)
        ensures
            a == Action::Composed(
                ComposedAction {
                    left: Some(Box::new(left)),
                    right: Some(Box::new(right)),
                    operator: ActionOperator::Sequence,
                },
            ),
    {
        Action::Composed(ComposedAction::binary(left, right, ActionOperator::Sequence))
    }

    pub open spec fn spec_negation(action: Action) -> Action {
        Action::Composed(
            ComposedAction {
                left: Some(Box::new(action)),
                right: None,
                operator: ActionOperator::Negation,
            },
        )
    }

    #[verifier::when_used_as_spec(spec_negation)]
    pub fn negation(action: Action) -> (a: Self)
        ensures
            a == Action::spec_negation(action),
    {
        Action::Composed(ComposedAction::unary(action, ActionOperator::Negation))
    }

    pub fn star(action: Action) -> (a: Self)
        ensures
            a == Action::Composed(
                ComposedAction {
                    left: Some(Box::new(action)),
                    right: None,
                    operator: ActionOperator::Star,
                },
            ),
    {
        Action::Composed(ComposedAction::unary(action, ActionOperator::Star))
    }

    /// The action as a clause prints it. A star over a negation is written `!x*`; a
    /// missing operand prints as nothing.
    pub open spec fn spec_display(self, table: &SymbolTable) -> Seq<char>
        decreases self,
    {
        match self {
            Action::Basic(b) => b.spec_display(table),
            Action::Composed(c) => {
                if c.operator == ActionOperator::Star && Self::negated_operand(c.left).is_some() {
                    "!"@ + Self::operand_display(Self::negated_operand(c.left).unwrap(), table)
                        + "*"@
                } else {
                    match (c.left, c.right) {
                        (None, Some(r)) => r.spec_display(table),
                        (Some(l), None) => {
                            if c.operator == ActionOperator::Star {
                                l.spec_display(table) + "*"@
                            } else if c.operator == ActionOperator::Negation {
                                "!"@ + l.spec_display(table)
                            } else {
                                l.spec_display(table)
                            }
                        },
                        (Some(l), Some(r)) => "("@ + l.spec_display(table) + " "@
                            + c.operator.spec_symbol() + " "@ + r.spec_display(table) + ")"@,
                        (None, None) => Seq::empty(),
                    }
                }
            },
        }
    }

    /// Where `operand` is a negation, what it negates.
    pub open spec fn negated_operand(operand: Option<Box<Action>>) -> Option<Option<Box<Action>>> {
        match operand {
            Some(a) => match *a {
                Action::Composed(inner) => if inner.operator == ActionOperator::Negation {
                    Some(inner.left)
                } else {
                    None
                },
                Action::Basic(_) => None,
            },
            None => None,
        }
    }

    pub open spec fn operand_display(operand: Option<Box<Action>>, table: &SymbolTable) -> Seq<char>
        decreases operand,
    {
        match operand {
            Some(a) => a.spec_display(table),
            None => Seq::empty(),
        }
    }

    /// Appends the printed action to `out`.
    pub fn write_display(&self, symbol_table: &SymbolTable, out: &mut String)
        requires
            symbol_table.well_formed(),
        ensures
            final(out)@ == old(out)@ + self.spec_display(symbol_table),
        decreases *self,
    {
        match self {
            Action::Basic(b) => {
                let s = b.display(symbol_table);
                out.append(s.as_str());
            },
            Action::Composed(c) => {
                if c.operator == ActionOperator::Star {
                    if let Some(l) = &c.left {
                        if let Action::Composed(inner) = &**l {
                            if inner.operator == ActionOperator::Negation {
                                out.append("!");
                                let ghost mid = out@;
                                if let Some(x) = &inner.left {
                                    (&**x).write_display(symbol_table, out);
                                }
                                out.append("*");
                                proof {
                                    let d = Self::operand_display(inner.left, symbol_table);
                                    assert(mid =~= old(out)@ + "!"@);
                                    assert(out@ =~= old(out)@ + ("!"@ + d + "*"@));
                                }
                                return ;
                            }
                        }
                    }
                }
                assert(!(c.operator == ActionOperator::Star && Self::negated_operand(c.left).is_some()));
                match (&c.left, &c.right) {
                    (None, Some(r)) => {
                        (&**r).write_display(symbol_table, out);
                    },
                    (Some(l), None) => {
                        if c.operator == ActionOperator::Star {
                            (&**l).write_display(symbol_table, out);
                            out.append("*");
                            proof {
                                assert(out@ =~= old(out)@ + (l.spec_display(symbol_table) + "*"@));
                            }
                        } else if c.operator == ActionOperator::Negation {
                            out.append("!");
                            (&**l).write_display(symbol_table, out);
                            proof {
                                assert(out@ =~= old(out)@ + ("!"@ + l.spec_display(symbol_table)));
                            }
                        } else {
                            (&**l).write_display(symbol_table, out);
                        }
                    },
                    (Some(l), Some(r)) => {
                        out.append("(");
                        (&**l).write_display(symbol_table, out);
                        out.append(" ");
                        out.append(c.operator.symbol());
                        out.append(" ");
                        (&**r).write_display(symbol_table, out);
                        out.append(")");
                        proof {
                            assert(out@ =~= old(out)@ + ("("@ + l.spec_display(symbol_table) + " "@
                                + c.operator.spec_symbol() + " "@ + r.spec_display(symbol_table)
                                + ")"@));
                        }
                    },
                    (None, None) => {
                        proof {
                            assert(out@ =~= old(out)@ + Seq::<char>::empty());
                        }
                    },
                }
            },
        }
    }

    /// The printed action.
    pub fn display(&self, symbol_table: &SymbolTable) -> (s: String)
        requires
            symbol_table.well_formed(),
        ensures
            s@ == self.spec_display(symbol_table),
    {
        let mut out = String::new();
        self.write_display(symbol_table, &mut out);
        proof {
            assert(Seq::<char>::empty() + self.spec_display(symbol_table) =~= self.spec_display(
                symbol_table,
            ));
        }
        out
    }

    /// Structural equality.
    pub fn equals(&self, other: &Action) -> (b: bool)
        ensures
            b == (*self == *other),
        decreases *self,
    {
        match (self, other) {
            (Action::Basic(a), Action::Basic(b)) => *a == *b,
            (Action::Composed(a), Action::Composed(b)) => a.equals(b),
            _ => false,
        }
    }
}

/// One firing of a basic action by a sender towards a receiver.
#[derive(Debug, Clone, Copy, PartialEq, Eq, Hash, Structural)]
pub struct RelativizedAction {
    pub negation: bool,
    pub sender: i32,
    pub action: BasicAction,
    pub receiver: i32,
}

impl RelativizedAction {
    pub open spec fn spec_new(sender: i32, action: BasicAction, receiver: i32) -> Self {
        RelativizedAction { negation: false, sender, action, receiver }
    }

    #[verifier::when_used_as_spec(spec_new)]
    pub fn new(sender: i32, action: BasicAction, receiver: i32) -> (a: Self)
        ensures
            a == Self::spec_new(sender, action, receiver),
    {
        RelativizedAction { negation: false, sender, action, receiver }
    }

    pub open spec fn spec_negation(action: &RelativizedAction) -> Self {
        RelativizedAction { negation: true, ..*action }
    }

    /// The refusal of `action`: the same firing, marked as negated.
    #[verifier::when_used_as_spec(spec_negation)]
    pub fn negation(action: &RelativizedAction) -> (a: Self)
        ensures
            a == Self::spec_negation(action),
    {
        RelativizedAction {
            negation: true,
            sender: action.sender,
            action: action.action,
            receiver: action.receiver,
        }
    }

    /// `(sender, action, receiver)` with the symbols' names.
    pub open spec fn spec_format_with_symbols(self, table: &SymbolTable) -> Seq<char> {
        "("@ + table.name_or(self.sender as int, "?"@) + ", "@ + (if self.negation {
            "!"@ + self.action.spec_format_with_symbols(table)
        } else {
            self.action.spec_format_with_symbols(table)
        }) + ", "@ + table.name_or(self.receiver as int, "?"@) + ")"@
    }

    pub fn format_with_symbols(&self, symbol_table: &SymbolTable) -> (s: String)
        requires
            symbol_table.well_formed(),
        ensures
            s@ == self.spec_format_with_symbols(symbol_table),
    {
        let mut out = String::from_str("(");
        match symbol_table.get_symbol_by_id(self.sender) {
            Some(s) => out.append(s.value()),
            None => out.append("?"),
        }
        out.append(", ");
        let ghost head = out@;
        if self.negation {
            out.append("!");
        }
        let action_str = self.action.format_with_symbols(symbol_table);
        out.append(action_str.as_str());
        proof {
            assert(out@ =~= head + (if self.negation {
                "!"@ + self.action.spec_format_with_symbols(symbol_table)
            } else {
                self.action.spec_format_with_symbols(symbol_table)
            }));
        }
        out.append(", ");
        match symbol_table.get_symbol_by_id(self.receiver) {
            Some(s) => out.append(s.value()),
            None => out.append("?"),
        }
        out.append(")");
        out
    }
}

impl crate::utils::ordered::Item for BasicAction {
    fn same(&self, other: &Self) -> (b: bool) {
        *self == *other
    }
}

impl crate::utils::ordered::Item for RelativizedAction {
    fn same(&self, other: &Self) -> (b: bool) {
        *self == *other
    }
}

} // verus!
