use crate::model::actions::RelativizedAction;
use crate::model::automata::{Automaton, State, StateSituation, Transition};
use crate::utils::ordered::{sort_positions, sorted_positions, Ranked};
use crate::utils::symbols::{Symbol, SymbolTable, SymbolType};
use crate::utils::text::{
    decimal, decimal_string, lemma_views_push, push_decimal, push_escaped, push_joined,
    spec_escape_quotes,
    spec_join, views_of,
};
use vstd::prelude::*;
use vstd::string::StringExecFns;

verus! {

/// The name of a situation in a state dump.
pub open spec fn situation_name(s: StateSituation) -> Seq<char> {
    match s {
        StateSituation::Violating => "violating"@,
        StateSituation::Satisfaction => "satisfaction"@,
        StateSituation::Conflicting => "conflicting"@,
        StateSituation::ConflictFree => "conflictFree"@,
        StateSituation::NotChecked => "notChecked"@,
    }
}

/// The printed clause of a state; nothing for a state without a clause.
pub open spec fn clause_text(s: State, table: &SymbolTable) -> Seq<char> {
    match s.clause {
        Some(c) => c.spec_display(table),
        None => Seq::empty(),
    }
}

/// `id;clause;situation` and a line end.
pub open spec fn state_row(s: State, table: &SymbolTable) -> Seq<char> {
    decimal(s.id as nat) + ";"@ + clause_text(s, table) + ";"@ + situation_name(s.situation)
        + "\n"@
}

/// The rows of the states at the first `n` of the given positions.
pub open spec fn state_rows(states: Seq<State>, order: Seq<int>, n: nat, table: &SymbolTable) -> Seq<char>
    decreases n,
{
    if n == 0 {
        Seq::empty()
    } else {
        state_rows(states, order, (n - 1) as nat, table) + state_row(states[order[n - 1]], table)
    }
}

/// The ids of the states, in their order.
pub open spec fn ids_of(states: Seq<State>) -> Seq<usize> {
    states.map_values(|s: State| s.id)
}

/// The states as a table: a header, then a row for each state, by rising id.
pub open spec fn spec_dump_states(a: &Automaton, table: &SymbolTable) -> Seq<char> {
    "id;clause;situation\n"@ + state_rows(
        a.states@,
        sorted_positions(ids_of(a.states@), a.states@.len()),
        a.states@.len(),
        table,
    )
}

/// The group of a situation in a graph: unchecked and conflict-free states first,
/// then violating, satisfied and conflicting ones.
pub open spec fn group_of(s: StateSituation) -> nat {
    match s {
        StateSituation::NotChecked | StateSituation::ConflictFree => 0,
        StateSituation::Violating => 1,
        StateSituation::Satisfaction => 2,
        StateSituation::Conflicting => 3,
    }
}

/// How the nodes of a group are drawn: black, red, green or orange.
pub open spec fn node_attributes(group: nat) -> Seq<char> {
    if group == 0 {
        "color=black, fontcolor=black"@
    } else if group == 1 {
        "color=red, fontcolor=white, style=filled, fillcolor=red"@
    } else if group == 2 {
        "color=green, fontcolor=white, style=filled, fillcolor=green"@
    } else {
        "color=orange, fontcolor=white, style=filled, fillcolor=orange"@
    }
}

/// The node of a state: its clause as tooltip, with quotes escaped.
pub open spec fn node_line(s: State, table: &SymbolTable) -> Seq<char> {
    "node [shape = circle, "@ + node_attributes(group_of(s.situation)) + ", tooltip=\""@
        + spec_escape_quotes(clause_text(s, table)) + "\"]; S"@ + decimal(s.id as nat) + " ;\n"@
}

/// The nodes of the states of one group among the first `n` states.
pub open spec fn node_lines(states: Seq<State>, n: nat, group: nat, table: &SymbolTable) -> Seq<char>
    decreases n,
{
    if n == 0 {
        Seq::empty()
    } else if group_of(states[n - 1].situation) == group {
        node_lines(states, (n - 1) as nat, group, table) + node_line(states[n - 1], table)
    } else {
        node_lines(states, (n - 1) as nat, group, table)
    }
}

/// The head of a graph: the start point, the nodes group by group, and the edge from
/// the start point to the initial state.
pub open spec fn graph_head(a: &Automaton, table: &SymbolTable) -> Seq<char> {
    "digraph contract {\nrankdir=LR;\nnode [shape = point, color=white, fontcolor=white]; start;\n"@
        + node_lines(a.states@, a.states@.len(), 0, table) + node_lines(
        a.states@,
        a.states@.len(),
        1,
        table,
    ) + node_lines(a.states@, a.states@.len(), 2, table) + node_lines(
        a.states@,
        a.states@.len(),
        3,
        table,
    ) + (match a.initial {
        Some(s) => "start -> S"@ + decimal(s.id as nat) + "\n"@,
        None => Seq::empty(),
    })
}

/// The formatted actions.
pub open spec fn action_texts(actions: Seq<RelativizedAction>, table: &SymbolTable) -> Seq<Seq<char>> {
    actions.map_values(|a: RelativizedAction| a.spec_format_with_symbols(table))
}

/// The label of a set of actions: the formatted actions, or `ε` for none.
pub open spec fn spec_format_actions(actions: Seq<RelativizedAction>, table: &SymbolTable) -> Seq<char> {
    if actions.len() == 0 {
        "ε"@
    } else {
        spec_join(action_texts(actions, table), ", "@)
    }
}

/// The edge between two states with its label, quotes escaped.
pub open spec fn edge_line(
    from: usize,
    to: usize,
    actions: Seq<RelativizedAction>,
    table: &SymbolTable,
) -> Seq<char> {
    "\tS"@ + decimal(from as nat) + " -> S"@ + decimal(to as nat) + " [ label = \""@
        + spec_escape_quotes(spec_format_actions(actions, table)) + "\" ];\n"@
}

/// The edges of the first `n` transitions.
pub open spec fn edge_lines(transitions: Seq<Transition>, n: nat, table: &SymbolTable) -> Seq<char>
    decreases n,
{
    if n == 0 {
        Seq::empty()
    } else {
        edge_lines(transitions, (n - 1) as nat, table) + edge_line(
            transitions[n - 1].from,
            transitions[n - 1].to,
            transitions[n - 1].spec_actions(),
            table,
        )
    }
}

/// The automaton as a graph: every state a node, every transition an edge.
pub open spec fn spec_dump_to_dot(a: &Automaton, table: &SymbolTable) -> Seq<char> {
    graph_head(a, table) + edge_lines(a.transitions@, a.transitions@.len(), table) + "}\n"@
}

/// The end points of an edge.
#[derive(Debug, Clone, Copy, PartialEq, Eq, Structural)]
pub struct EdgeKey {
    pub from: usize,
    pub to: usize,
}

impl Ranked for EdgeKey {
    /// Edges rank by their source, then by their target.
    open spec fn rank_le(self, other: EdgeKey) -> bool {
        self.from < other.from || (self.from == other.from && self.to <= other.to)
    }

    fn le(&self, other: &EdgeKey) -> (b: bool) {
        self.from < other.from || (self.from == other.from && self.to <= other.to)
    }
}

/// The position of the first of `keys` from `start` on that equals `key`, or the
/// length of `keys` where there is none.
pub open spec fn first_key(keys: Seq<EdgeKey>, key: EdgeKey, start: nat) -> nat
    decreases keys.len() - start,
{
    if start >= keys.len() {
        keys.len()
    } else if keys[start as int] == key {
        start
    } else {
        first_key(keys, key, start + 1)
    }
}

/// The edges that the first `n` transitions merge to, as end points and actions: of
/// the transitions between two states the first with the most actions stays.
pub open spec fn merged(transitions: Seq<Transition>, n: nat) -> (Seq<EdgeKey>, Seq<Seq<RelativizedAction>>)
    decreases n,
{
    if n == 0 {
        (Seq::empty(), Seq::empty())
    } else {
        let (keys, sets) = merged(transitions, (n - 1) as nat);
        let t = transitions[n - 1];
        let key = EdgeKey { from: t.from, to: t.to };
        let at = first_key(keys, key, 0);
        if at < keys.len() {
            if t.spec_actions().len() > sets[at as int].len() {
                (keys, sets.update(at as int, t.spec_actions()))
            } else {
                (keys, sets)
            }
        } else {
            (keys.push(key), sets.push(t.spec_actions()))
        }
    }
}

/// The edges at the first `n` of the given positions.
pub open spec fn merged_lines(
    keys: Seq<EdgeKey>,
    sets: Seq<Seq<RelativizedAction>>,
    order: Seq<int>,
    n: nat,
    table: &SymbolTable,
) -> Seq<char>
    decreases n,
{
    if n == 0 {
        Seq::empty()
    } else {
        merged_lines(keys, sets, order, (n - 1) as nat, table) + edge_line(
            keys[order[n - 1]].from,
            keys[order[n - 1]].to,
            sets[order[n - 1]],
            table,
        )
    }
}

/// The automaton as a graph with one edge between two states, by rising end points.
pub open spec fn spec_dump_to_min_dot(a: &Automaton, table: &SymbolTable) -> Seq<char> {
    let (keys, sets) = merged(a.transitions@, a.transitions@.len());
    graph_head(a, table) + merged_lines(
        keys,
        sets,
        sorted_positions(keys, keys.len()),
        keys.len(),
        table,
    ) + "}\n"@
}

/// The texts of the symbols.
pub open spec fn names_of(symbols: Seq<Symbol>) -> Seq<Seq<char>> {
    symbols.map_values(|s: Symbol| s.value@)
}

/// The ids of the states with the given situation among the first `n` states.
pub open spec fn ids_with(states: Seq<State>, n: nat, situation: StateSituation) -> Seq<usize>
    decreases n,
{
    if n == 0 {
        Seq::empty()
    } else if states[n - 1].situation == situation {
        ids_with(states, (n - 1) as nat, situation).push(states[n - 1].id)
    } else {
        ids_with(states, (n - 1) as nat, situation)
    }
}

/// The decimal forms of the numbers at the given positions.
pub open spec fn decimals_in_order(values: Seq<usize>, order: Seq<int>) -> Seq<Seq<char>> {
    order.map_values(|p: int| decimal(values[p] as nat))
}

/// The numbers by rising value, separated by semicolons.
pub open spec fn sorted_list(values: Seq<usize>) -> Seq<char> {
    spec_join(decimals_in_order(values, sorted_positions(values, values.len())), ";"@)
}

/// `sender?action?receiver` with the symbols' names.
pub open spec fn action_part(a: RelativizedAction, table: &SymbolTable) -> Seq<char> {
    table.name_or(a.sender as int, "?"@) + "?"@ + table.name_or(a.action.value as int, "?"@) + "?"@
        + table.name_or(a.receiver as int, "?"@)
}

/// `from-actions-to;` with the actions separated by commas.
pub open spec fn transition_text(t: Transition, table: &SymbolTable) -> Seq<char> {
    decimal(t.from as nat) + "-"@ + spec_join(
        t.spec_actions().map_values(|a: RelativizedAction| action_part(a, table)),
        ","@,
    ) + "-"@ + decimal(t.to as nat) + ";"@
}

/// The texts of the first `n` transitions.
pub open spec fn transition_texts(transitions: Seq<Transition>, n: nat, table: &SymbolTable) -> Seq<char>
    decreases n,
{
    if n == 0 {
        Seq::empty()
    } else {
        transition_texts(transitions, (n - 1) as nat, table) + transition_text(
            transitions[n - 1],
            table,
        )
    }
}

/// The automaton as text: the actions, the individuals, the states, the violating
/// states, the satisfied states and the transitions, a line each.
pub open spec fn spec_dump_to_text(a: &Automaton, table: &SymbolTable) -> Seq<char> {
    "A:"@ + spec_join(names_of(table.entries_of(SymbolType::Action)), ";"@) + "\nI:"@ + spec_join(
        names_of(table.entries_of(SymbolType::Individual)),
        ";"@,
    ) + "\nQ:"@ + sorted_list(ids_of(a.states@)) + "\nV:"@ + sorted_list(
        ids_with(a.states@, a.states@.len(), StateSituation::Violating),
    ) + "\nS:"@ + sorted_list(ids_with(a.states@, a.states@.len(), StateSituation::Satisfaction))
        + "\nT:"@ + transition_texts(a.transitions@, a.transitions@.len(), table) + "\n"@
}

fn push_clause_text(out: &mut String, state: &State, symbol_table: &SymbolTable, escape: bool)
    requires
        symbol_table.well_formed(),
    ensures
        final(out)@ == old(out)@ + (if escape {
            spec_escape_quotes(clause_text(*state, symbol_table))
        } else {
            clause_text(*state, symbol_table)
        }),
{
    match &state.clause {
        Some(c) => {
            let text = c.display(symbol_table);
            if escape {
                push_escaped(out, text.as_str());
            } else {
                out.append(text.as_str());
            }
        },
        None => {
            proof {
                assert(spec_escape_quotes(Seq::<char>::empty()) =~= Seq::<char>::empty());
                assert(out@ =~= old(out)@ + Seq::<char>::empty());
            }
        },
    }
}

fn situation_str(s: StateSituation) -> (r: &'static str)
    ensures
        r@ == situation_name(s),
{
    match s {
        StateSituation::Violating => "violating",
        StateSituation::Satisfaction => "satisfaction",
        StateSituation::Conflicting => "conflicting",
        StateSituation::ConflictFree => "conflictFree",
        StateSituation::NotChecked => "notChecked",
    }
}

fn push_state_row(out: &mut String, state: &State, symbol_table: &SymbolTable)
    requires
        symbol_table.well_formed(),
    ensures
        final(out)@ == old(out)@ + state_row(*state, symbol_table),
{
    push_decimal(out, state.id as u64);
    out.append(";");
    push_clause_text(out, state, symbol_table, false);
    out.append(";");
    out.append(situation_str(state.situation));
    out.append("\n");
    proof {
        assert(out@ =~= old(out)@ + state_row(*state, symbol_table));
    }
}

fn group_index(s: StateSituation) -> (g: usize)
    ensures
        g == group_of(s),
{
    match s {
        StateSituation::NotChecked | StateSituation::ConflictFree => 0,
        StateSituation::Violating => 1,
        StateSituation::Satisfaction => 2,
        StateSituation::Conflicting => 3,
    }
}

fn push_node_line(out: &mut String, state: &State, symbol_table: &SymbolTable)
    requires
        symbol_table.well_formed(),
    ensures
        final(out)@ == old(out)@ + node_line(*state, symbol_table),
{
    let group = group_index(state.situation);
    out.append("node [shape = circle, ");
    if group == 0 {
        out.append("color=black, fontcolor=black");
    } else if group == 1 {
        out.append("color=red, fontcolor=white, style=filled, fillcolor=red");
    } else if group == 2 {
        out.append("color=green, fontcolor=white, style=filled, fillcolor=green");
    } else {
        out.append("color=orange, fontcolor=white, style=filled, fillcolor=orange");
    }
    out.append(", tooltip=\"");
    let ghost mid = out@;
    proof {
        assert(mid =~= old(out)@ + ("node [shape = circle, "@ + node_attributes(group as nat)
            + ", tooltip=\""@));
    }
    push_clause_text(out, state, symbol_table, true);
    out.append("\"]; S");
    push_decimal(out, state.id as u64);
    out.append(" ;\n");
    proof {
        assert(out@ =~= old(out)@ + node_line(*state, symbol_table));
    }
}

fn push_node_lines(out: &mut String, states: &Vec<State>, group: usize, symbol_table: &SymbolTable)
    requires
        symbol_table.well_formed(),
    ensures
        final(out)@ == old(out)@ + node_lines(states@, states@.len(), group as nat, symbol_table),
{
    let mut i: usize = 0;
    proof {
        assert(out@ =~= old(out)@ + Seq::<char>::empty());
    }
    while i < states.len()
        invariant
            symbol_table.well_formed(),
            i <= states.len(),
            out@ == old(out)@ + node_lines(states@, i as nat, group as nat, symbol_table),
        decreases states.len() - i,
    {
        let ghost before = node_lines(states@, i as nat, group as nat, symbol_table);
        if group_index(states[i].situation) == group {
            push_node_line(out, &states[i], symbol_table);
            proof {
                assert(out@ =~= old(out)@ + (before + node_line(states@[i as int], symbol_table)));
            }
        }
        i += 1;
    }
}

fn push_graph_head(out: &mut String, automaton: &Automaton, symbol_table: &SymbolTable)
    requires
        symbol_table.well_formed(),
    ensures
        final(out)@ == old(out)@ + graph_head(automaton, symbol_table),
{
    out.append(
        "digraph contract {\nrankdir=LR;\nnode [shape = point, color=white, fontcolor=white]; start;\n",
    );
    push_node_lines(out, &automaton.states, 0, symbol_table);
    push_node_lines(out, &automaton.states, 1, symbol_table);
    push_node_lines(out, &automaton.states, 2, symbol_table);
    push_node_lines(out, &automaton.states, 3, symbol_table);
    let ghost mid = out@;
    if let Some(initial) = &automaton.initial {
        out.append("start -> S");
        push_decimal(out, initial.id as u64);
        out.append("\n");
        proof {
            assert(out@ =~= mid + ("start -> S"@ + decimal(initial.id as nat) + "\n"@));
        }
    } else {
        proof {
            assert(out@ =~= mid + Seq::<char>::empty());
        }
    }
    proof {
        assert(out@ =~= old(out)@ + graph_head(automaton, symbol_table));
    }
}

fn push_edge_line(
    out: &mut String,
    from: usize,
    to: usize,
    actions: &Vec<RelativizedAction>,
    symbol_table: &SymbolTable,
)
    requires
        symbol_table.well_formed(),
    ensures
        final(out)@ == old(out)@ + edge_line(from, to, actions@, symbol_table),
{
    out.append("\tS");
    push_decimal(out, from as u64);
    out.append(" -> S");
    push_decimal(out, to as u64);
    out.append(" [ label = \"");
    let ghost mid = out@;
    proof {
        assert(mid =~= old(out)@ + ("\tS"@ + decimal(from as nat) + " -> S"@ + decimal(to as nat)
            + " [ label = \""@));
    }
    let label = AutomatonExporter::format_actions(actions, symbol_table);
    push_escaped(out, label.as_str());
    out.append("\" ];\n");
    proof {
        assert(out@ =~= old(out)@ + edge_line(from, to, actions@, symbol_table));
    }
}

fn push_sorted_list(out: &mut String, values: &Vec<usize>)
    ensures
        final(out)@ == old(out)@ + sorted_list(values@),
{
    let order = sort_positions(values);
    let ghost positions = order@.map_values(|p: usize| p as int);
    let mut parts: Vec<String> = Vec::new();
    let mut i: usize = 0;
    while i < order.len()
        invariant
            i <= order.len(),
            positions == order@.map_values(|p: usize| p as int),
            forall|k: int| 0 <= k < order@.len() ==> (#[trigger] order@[k]) < values@.len(),
            views_of(parts@) == decimals_in_order(values@, positions.take(i as int)),
        decreases order.len() - i,
    {
        let ghost earlier = parts@;
        let text = decimal_string(values[order[i]] as u64);
        proof {
            assert(positions[i as int] == order@[i as int] as int);
            lemma_views_push(earlier, text);
            assert(decimals_in_order(values@, positions.take(i + 1)) =~= decimals_in_order(
                values@,
                positions.take(i as int),
            ).push(decimal(values@[positions[i as int]] as nat)));
        }
        parts.push(text);
        i += 1;
    }
    proof {
        assert(positions.take(i as int) =~= positions);
    }
    push_joined(out, &parts, ";");
}

fn names(symbols: &Vec<&Symbol>) -> (r: Vec<String>)
    ensures
        views_of(r@) == names_of(symbols@.map_values(|s: &Symbol| *s)),
{
    let mut out: Vec<String> = Vec::new();
    let mut i: usize = 0;
    while i < symbols.len()
        invariant
            i <= symbols.len(),
            views_of(out@) == names_of(symbols@.map_values(|s: &Symbol| *s).take(i as int)),
        decreases symbols.len() - i,
    {
        let ghost earlier = out@;
        let text = symbols[i].value.clone();
        proof {
            lemma_views_push(earlier, text);
            assert(names_of(symbols@.map_values(|s: &Symbol| *s).take(i + 1)) =~= names_of(
                symbols@.map_values(|s: &Symbol| *s).take(i as int),
            ).push(symbols@[i as int].value@));
        }
        out.push(text);
        i += 1;
    }
    proof {
        assert(symbols@.map_values(|s: &Symbol| *s).take(i as int) =~= symbols@.map_values(
            |s: &Symbol| *s,
        ));
    }
    out
}

fn ids_in(states: &Vec<State>, situation: StateSituation) -> (r: Vec<usize>)
    ensures
        r@ == ids_with(states@, states@.len(), situation),
{
    let mut out: Vec<usize> = Vec::new();
    let mut i: usize = 0;
    while i < states.len()
        invariant
            i <= states.len(),
            out@ == ids_with(states@, i as nat, situation),
        decreases states.len() - i,
    {
        if states[i].situation == situation {
            out.push(states[i].id);
        }
        i += 1;
    }
    out
}

fn all_ids(states: &Vec<State>) -> (r: Vec<usize>)
    ensures
        r@ == ids_of(states@),
{
    let mut out: Vec<usize> = Vec::new();
    let mut i: usize = 0;
    while i < states.len()
        invariant
            i <= states.len(),
            out@ == ids_of(states@.take(i as int)),
        decreases states.len() - i,
    {
        out.push(states[i].id);
        proof {
            assert(out@ =~= ids_of(states@.take(i + 1)));
        }
        i += 1;
    }
    proof {
        assert(states@.take(i as int) =~= states@);
    }
    out
}

fn push_name(out: &mut String, id: i32, symbol_table: &SymbolTable)
    requires
        symbol_table.well_formed(),
    ensures
        final(out)@ == old(out)@ + symbol_table.name_or(id as int, "?"@),
{
    match symbol_table.get_symbol_by_id(id) {
        Some(s) => out.append(s.value()),
        None => out.append("?"),
    }
}

fn push_transition_text(out: &mut String, transition: &Transition, symbol_table: &SymbolTable)
    requires
        symbol_table.well_formed(),
    ensures
        final(out)@ == old(out)@ + transition_text(*transition, symbol_table),
{
    let actions = transition.actions();
    let ghost f = |a: RelativizedAction| action_part(a, symbol_table);
    let mut parts: Vec<String> = Vec::new();
    let mut i: usize = 0;
    while i < actions.len()
        invariant
            symbol_table.well_formed(),
            i <= actions.len(),
            f == |a: RelativizedAction| action_part(a, symbol_table),
            views_of(parts@) == actions@.take(i as int).map_values(f),
        decreases actions.len() - i,
    {
        let mut part = String::new();
        push_name(&mut part, actions[i].sender, symbol_table);
        part.append("?");
        push_name(&mut part, actions[i].action.value, symbol_table);
        part.append("?");
        push_name(&mut part, actions[i].receiver, symbol_table);
        proof {
            assert(part@ =~= action_part(actions@[i as int], symbol_table));
        }
        let ghost earlier = parts@;
        proof {
            lemma_views_push(earlier, part);
            assert(actions@.take(i + 1).map_values(f) =~= actions@.take(i as int).map_values(f).push(
                action_part(actions@[i as int], symbol_table),
            ));
        }
        parts.push(part);
        i += 1;
    }
    proof {
        assert(actions@.take(i as int) =~= actions@);
    }
    push_decimal(out, transition.from as u64);
    out.append("-");
    push_joined(out, &parts, ",");
    out.append("-");
    push_decimal(out, transition.to as u64);
    out.append(";");
    proof {
        assert(out@ =~= old(out)@ + transition_text(*transition, symbol_table));
    }
}

/// Writes an automaton down as a table, a graph or text.
pub struct AutomatonExporter;

impl AutomatonExporter {
    /// The states as a table.
    pub fn dump_states(automaton: &Automaton, symbol_table: &SymbolTable) -> (s: String)
        requires
            symbol_table.well_formed(),
        ensures
            s@ == spec_dump_states(automaton, symbol_table),
    {
        let mut output = String::from_str("id;clause;situation\n");
        let ids = all_ids(&automaton.states);
        let order = sort_positions(&ids);
        let ghost positions = order@.map_values(|p: usize| p as int);
        let ghost head = output@;
        proof {
            assert(output@ =~= head + Seq::<char>::empty());
        }
        let mut i: usize = 0;
        while i < order.len()
            invariant
                symbol_table.well_formed(),
                i <= order.len(),
                order@.len() == automaton.states@.len(),
                positions == order@.map_values(|p: usize| p as int),
                forall|k: int|
                    0 <= k < order@.len() ==> (#[trigger] order@[k]) < automaton.states@.len(),
                output@ == head + state_rows(automaton.states@, positions, i as nat, symbol_table),
            decreases order.len() - i,
        {
            let ghost before = state_rows(automaton.states@, positions, i as nat, symbol_table);
            proof {
                assert(positions[i as int] == order@[i as int] as int);
            }
            push_state_row(&mut output, &automaton.states[order[i]], symbol_table);
            proof {
                assert(output@ =~= head + (before + state_row(
                    automaton.states@[positions[i as int]],
                    symbol_table,
                )));
            }
            i += 1;
        }
        output
    }

    /// The automaton as a graph.
    pub fn dump_to_dot(automaton: &Automaton, symbol_table: &SymbolTable) -> (s: String)
        requires
            symbol_table.well_formed(),
        ensures
            s@ == spec_dump_to_dot(automaton, symbol_table),
    {
        let mut output = String::new();
        push_graph_head(&mut output, automaton, symbol_table);
        let ghost head = output@;
        proof {
            assert(head =~= graph_head(automaton, symbol_table));
            assert(output@ =~= head + Seq::<char>::empty());
        }
        let mut i: usize = 0;
        while i < automaton.transitions.len()
            invariant
                symbol_table.well_formed(),
                i <= automaton.transitions.len(),
                output@ == head + edge_lines(automaton.transitions@, i as nat, symbol_table),
            decreases automaton.transitions.len() - i,
        {
            let ghost before = edge_lines(automaton.transitions@, i as nat, symbol_table);
            let t = &automaton.transitions[i];
            let actions = t.actions();
            push_edge_line(&mut output, t.from, t.to, &actions, symbol_table);
            proof {
                assert(output@ =~= head + (before + edge_line(
                    t.from,
                    t.to,
                    t.spec_actions(),
                    symbol_table,
                )));
            }
            i += 1;
        }
        output.append("}\n");
        output
    }

    /// The automaton as text.
    pub fn dump_to_text(automaton: &Automaton, symbol_table: &SymbolTable) -> (s: String)
        requires
            symbol_table.well_formed(),
        ensures
            s@ == spec_dump_to_text(automaton, symbol_table),
    {
        let mut output = String::from_str("A:");
        push_joined(&mut output, &names(&symbol_table.get_actions()), ";");
        output.append("\nI:");
        push_joined(&mut output, &names(&symbol_table.get_individuals()), ";");
        output.append("\nQ:");
        push_sorted_list(&mut output, &all_ids(&automaton.states));
        output.append("\nV:");
        push_sorted_list(&mut output, &ids_in(&automaton.states, StateSituation::Violating));
        output.append("\nS:");
        push_sorted_list(&mut output, &ids_in(&automaton.states, StateSituation::Satisfaction));
        output.append("\nT:");
        let ghost head = output@;
        proof {
            assert(head =~= "A:"@ + spec_join(
                names_of(symbol_table.entries_of(SymbolType::Action)),
                ";"@,
            ) + "\nI:"@ + spec_join(names_of(symbol_table.entries_of(SymbolType::Individual)), ";"@)
                + "\nQ:"@ + sorted_list(ids_of(automaton.states@)) + "\nV:"@ + sorted_list(
                ids_with(automaton.states@, automaton.states@.len(), StateSituation::Violating),
            ) + "\nS:"@ + sorted_list(
                ids_with(automaton.states@, automaton.states@.len(), StateSituation::Satisfaction),
            ) + "\nT:"@);
            assert(output@ =~= head + Seq::<char>::empty());
        }
        let mut i: usize = 0;
        while i < automaton.transitions.len()
            invariant
                symbol_table.well_formed(),
                i <= automaton.transitions.len(),
                output@ == head + transition_texts(automaton.transitions@, i as nat, symbol_table),
            decreases automaton.transitions.len() - i,
        {
            let ghost before = transition_texts(automaton.transitions@, i as nat, symbol_table);
            push_transition_text(&mut output, &automaton.transitions[i], symbol_table);
            proof {
                assert(output@ =~= head + (before + transition_text(
                    automaton.transitions@[i as int],
                    symbol_table,
                )));
            }
            i += 1;
        }
        output.append("\n");
        output
    }

    /// The automaton as a graph with one edge between two states.
    pub fn dump_to_min_dot(automaton: &Automaton, symbol_table: &SymbolTable) -> (s: String)
        requires
            symbol_table.well_formed(),
        ensures
            s@ == spec_dump_to_min_dot(automaton, symbol_table),
    {
        let mut output = String::new();
        push_graph_head(&mut output, automaton, symbol_table);
        let mut keys: Vec<EdgeKey> = Vec::new();
        let mut sets: Vec<Vec<RelativizedAction>> = Vec::new();
        let mut n: usize = 0;
        while n < automaton.transitions.len()
            invariant
                n <= automaton.transitions.len(),
                keys@.len() == sets@.len(),
                (keys@, sets@.map_values(|v: Vec<RelativizedAction>| v@)) == merged(
                    automaton.transitions@,
                    n as nat,
                ),
            decreases automaton.transitions.len() - n,
        {
            let t = &automaton.transitions[n];
            let key = EdgeKey { from: t.from, to: t.to };
            let actions = t.actions();
            let ghost old_sets = sets@.map_values(|v: Vec<RelativizedAction>| v@);
            let mut at: usize = 0;
            while at < keys.len() && keys[at] != key
                invariant
                    at <= keys.len(),
                    first_key(keys@, key, 0) == first_key(keys@, key, at as nat),
                decreases keys.len() - at,
            {
                at += 1;
            }
            if at < keys.len() {
                if actions.len() > sets[at].len() {
                    sets.set(at, actions);
                    proof {
                        assert(sets@.map_values(|v: Vec<RelativizedAction>| v@) =~= old_sets.update(
                            at as int,
                            t.spec_actions(),
                        ));
                    }
                }
            } else {
                keys.push(key);
                sets.push(actions);
                proof {
                    assert(sets@.map_values(|v: Vec<RelativizedAction>| v@) =~= old_sets.push(
                        t.spec_actions(),
                    ));
                }
            }
            n += 1;
        }
        let order = sort_positions(&keys);
        let ghost positions = order@.map_values(|p: usize| p as int);
        let ghost views = sets@.map_values(|v: Vec<RelativizedAction>| v@);
        let ghost head = output@;
        proof {
            assert(head =~= graph_head(automaton, symbol_table));
            assert(output@ =~= head + Seq::<char>::empty());
        }
        let mut i: usize = 0;
        while i < order.len()
            invariant
                symbol_table.well_formed(),
                i <= order.len(),
                order@.len() == keys@.len(),
                keys@.len() == sets@.len(),
                positions == order@.map_values(|p: usize| p as int),
                views == sets@.map_values(|v: Vec<RelativizedAction>| v@),
                forall|k: int| 0 <= k < order@.len() ==> (#[trigger] order@[k]) < keys@.len(),
                output@ == head + merged_lines(keys@, views, positions, i as nat, symbol_table),
            decreases order.len() - i,
        {
            let ghost before = merged_lines(keys@, views, positions, i as nat, symbol_table);
            let p = order[i];
            proof {
                assert(positions[i as int] == p as int);
                assert(views[p as int] == sets@[p as int]@);
            }
            push_edge_line(&mut output, keys[p].from, keys[p].to, &sets[p], symbol_table);
            proof {
                assert(output@ =~= head + (before + edge_line(
                    keys@[p as int].from,
                    keys@[p as int].to,
                    views[p as int],
                    symbol_table,
                )));
            }
            i += 1;
        }
        output.append("}\n");
        output
    }

    /// The label of a set of actions.
    pub fn format_actions(actions: &Vec<RelativizedAction>, symbol_table: &SymbolTable) -> (s: String)
        requires
            symbol_table.well_formed(),
        ensures
            s@ == spec_format_actions(actions@, symbol_table),
    {
        if actions.len() == 0 {
            return String::from_str("ε");
        }
        let mut parts: Vec<String> = Vec::new();
        let mut i: usize = 0;
        while i < actions.len()
            invariant
                symbol_table.well_formed(),
                i <= actions.len(),
                views_of(parts@) == action_texts(actions@.take(i as int), symbol_table),
            decreases actions.len() - i,
        {
            let ghost earlier = parts@;
            let text = actions[i].format_with_symbols(symbol_table);
            proof {
                lemma_views_push(earlier, text);
                assert(action_texts(actions@.take(i + 1), symbol_table) =~= action_texts(
                    actions@.take(i as int),
                    symbol_table,
                ).push(actions@[i as int].spec_format_with_symbols(symbol_table)));
            }
            parts.push(text);
            i += 1;
        }
        proof {
            assert(actions@.take(i as int) =~= actions@);
        }
        let mut out = String::new();
        push_joined(&mut out, &parts, ", ");
        proof {
            assert(out@ =~= spec_join(action_texts(actions@, symbol_table), ", "@));
        }
        out
    }
}

} // verus!
