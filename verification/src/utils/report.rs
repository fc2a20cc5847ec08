use crate::model::automata::{Automaton, State, StateSituation, Transition};
use crate::utils::export::{action_texts, AutomatonExporter};
use crate::utils::symbols::SymbolTable;
use crate::utils::text::{decimal, push_decimal, spec_join};
use vstd::prelude::*;
use vstd::string::StringExecFns;

verus! {

/// The escape sequences that colour console output.
pub struct ConsoleColors;

impl ConsoleColors {
    pub const RESET: &'static str = "\u{001B}[0m";

    pub const FG_RED: &'static str = "\u{001B}[31m";

    pub const FG_GREEN: &'static str = "\u{001B}[32m";

    pub const FG_YELLOW: &'static str = "\u{001B}[33m";

    pub const FG_BLUE: &'static str = "\u{001B}[34m";

    pub const FG_WHITE: &'static str = "\u{001B}[37m";
}

/// The line that separates the parts of a report.
pub open spec fn rule() -> Seq<char> {
    "-------------------------------------------------------\n"@
}

/// The position of the first state from `start` on with the id `id`, or the number of
/// states where there is none.
pub open spec fn first_state(states: Seq<State>, id: usize, start: nat) -> nat
    decreases states.len() - start,
{
    if start >= states.len() {
        states.len()
    } else if states[start as int].id == id {
        start
    } else {
        first_state(states, id, start + 1)
    }
}

/// The position of the first transition from `start` on with the id `id`, or the
/// number of transitions where there is none.
pub open spec fn first_transition(transitions: Seq<Transition>, id: usize, start: nat) -> nat
    decreases transitions.len() - start,
{
    if start >= transitions.len() {
        transitions.len()
    } else if transitions[start as int].id == id {
        start
    } else {
        first_transition(transitions, id, start + 1)
    }
}

/// `(s7)`.
pub open spec fn state_mark(id: usize) -> Seq<char> {
    "(s"@ + decimal(id as nat) + ")"@
}

/// `(s7)` in yellow.
pub open spec fn yellow_mark(id: usize) -> Seq<char> {
    ConsoleColors::FG_YELLOW@ + state_mark(id) + ConsoleColors::RESET@
}

/// One step back in a trace, in the short form: the state reached and the transition
/// that led to it.
pub open spec fn step_summary(t: Transition) -> Seq<char> {
    state_mark(t.to) + "<--T"@ + decimal(t.id as nat) + "--"@
}

/// The state with the id `id` in the long form of a trace: its mark, and its clause
/// where the automaton holds the state.
pub open spec fn reached_text(a: &Automaton, id: usize, table: &SymbolTable) -> Seq<char> {
    yellow_mark(id) + (if first_state(a.states@, id, 0) < a.states@.len() {
        " - "@ + a.states@[first_state(a.states@, id, 0) as int].spec_display(table) + "\n"@
    } else {
        Seq::empty()
    })
}

/// A transition in the long form of a trace: its number in red and its actions in
/// blue.
pub open spec fn transition_label(t: Transition, table: &SymbolTable) -> Seq<char> {
    ConsoleColors::FG_RED@ + "<T"@ + decimal(t.id as nat) + "> - "@ + ConsoleColors::FG_BLUE@ + "["@
        + spec_join(action_texts(t.spec_actions(), table), ", "@) + "]"@ + ConsoleColors::RESET@
        + "\n"@
}

/// One step back in a trace, in the long form: the state reached and the transition
/// that led to it.
pub open spec fn step_details(a: &Automaton, t: Transition, table: &SymbolTable) -> Seq<char> {
    reached_text(a, t.to, table) + transition_label(t, table)
}

/// The way back from the state at `at` along the first transition of each trace, for
/// at most `fuel` steps: the short form, the long form, and the position of the state
/// where the way ends.
pub open spec fn trace_walk(a: &Automaton, at: int, fuel: nat, table: &SymbolTable) -> (
    Seq<char>,
    Seq<char>,
    int,
)
    decreases fuel,
{
    if fuel == 0 || a.states@[at].trace@.len() == 0 {
        (Seq::empty(), Seq::empty(), at)
    } else {
        let k = first_transition(a.transitions@, a.states@[at].trace@[0], 0);
        if k >= a.transitions@.len() {
            (Seq::empty(), Seq::empty(), at)
        } else {
            let t = a.transitions@[k as int];
            let from = first_state(a.states@, t.from, 0);
            if from >= a.states@.len() {
                (step_summary(t), step_details(a, t, table), at)
            } else {
                let rest = trace_walk(a, from as int, (fuel - 1) as nat, table);
                (step_summary(t) + rest.0, step_details(a, t, table) + rest.1, rest.2)
            }
        }
    }
}

/// The head of the report on a conflicting state: the state and its conflict.
pub open spec fn report_head(s: State, table: &SymbolTable) -> Seq<char> {
    "Conflict found in state "@ + state_mark(s.id) + "\n"@ + (match s.conflict_information {
        Some(info) => "Conflict: "@ + info.spec_display(table) + "\n"@,
        None => Seq::empty(),
    })
}

/// The state at which a trace ends, in the long form: its mark, and its clause where
/// it has one.
pub open spec fn last_text(s: State, table: &SymbolTable) -> Seq<char> {
    yellow_mark(s.id) + (match s.clause {
        Some(c) => " - "@ + c.spec_display(table) + "\n"@,
        None => Seq::empty(),
    })
}

/// The upper part of the report on a conflicting state: the conflict, and the way
/// back in the short form, which ends at the state with the id `last`.
pub open spec fn report_top(s: State, summary: Seq<char>, last: usize, table: &SymbolTable) -> Seq<char> {
    report_head(s, table) + rule() + ("Trace: "@ + summary + state_mark(last) + "\n"@) + rule()
}

/// The lower part of the report on a conflicting state: the way back in the long
/// form, which ends at the state `last`.
pub open spec fn report_bottom(details: Seq<char>, last: State, table: &SymbolTable) -> Seq<char> {
    "Stacktrace: \n"@ + details + last_text(last, table) + rule()
}

/// The report on the conflicting state at `at`: the conflict and the way back from
/// the state.
pub open spec fn conflict_report(a: &Automaton, at: int, table: &SymbolTable) -> Seq<char> {
    let walk = trace_walk(a, at, a.states@.len(), table);
    report_top(a.states@[at], walk.0, a.states@[walk.2].id, table) + report_bottom(
        walk.1,
        a.states@[walk.2],
        table,
    )
}

/// The reports on the conflicting states among the first `n` states.
pub open spec fn conflict_reports(a: &Automaton, n: nat, table: &SymbolTable) -> Seq<char>
    decreases n,
{
    if n == 0 {
        Seq::empty()
    } else if a.states@[n - 1].situation == StateSituation::Conflicting {
        conflict_reports(a, (n - 1) as nat, table) + conflict_report(a, n - 1, table)
    } else {
        conflict_reports(a, (n - 1) as nat, table)
    }
}

/// The conflicts of an automaton with the way to each.
pub open spec fn spec_print_trace(a: &Automaton, table: &SymbolTable) -> Seq<char> {
    "\n"@ + rule() + conflict_reports(a, a.states@.len(), table)
}

/// The verdict on an automaton.
pub open spec fn verdict(a: &Automaton, table: &SymbolTable) -> Seq<char> {
    if a.conflict_found {
        ConsoleColors::FG_RED@ + "[CONFLICT] "@ + ConsoleColors::FG_WHITE@
            + "A conflict was found in the analyzed contract."@ + ConsoleColors::RESET@ + "\n"@
            + spec_print_trace(a, table)
    } else {
        ConsoleColors::FG_GREEN@ + "[CONFLICT-FREE] "@ + ConsoleColors::FG_WHITE@
            + "The analyzed contract is conflict-free."@ + ConsoleColors::RESET@ + "\n"@
    }
}

/// The result of an analysis: the verdict, the time and the memory used.
pub open spec fn spec_print_result(a: &Automaton, ms: u64, rss: u64, total: u64, table: &SymbolTable) -> Seq<
    char,
> {
    "\n"@ + rule() + "\n"@ + verdict(a, table) + "\n"@ + rule() + "Completed in "@ + decimal(
        ms as nat,
    ) + "ms\nMax RAM: "@ + decimal(rss as nat) + "MB\nMax Total Memory: "@ + decimal(total as nat)
        + "MB\n"@ + rule()
}

fn find_state(states: &Vec<State>, id: usize) -> (r: usize)
    ensures
        r == first_state(states@, id, 0),
        r <= states@.len(),
{
    let mut i: usize = 0;
    while i < states.len() && states[i].id != id
        invariant
            i <= states.len(),
            first_state(states@, id, 0) == first_state(states@, id, i as nat),
        decreases states.len() - i,
    {
        i += 1;
    }
    i
}

fn find_transition(transitions: &Vec<Transition>, id: usize) -> (r: usize)
    ensures
        r == first_transition(transitions@, id, 0),
        r <= transitions@.len(),
{
    let mut i: usize = 0;
    while i < transitions.len() && transitions[i].id != id
        invariant
            i <= transitions.len(),
            first_transition(transitions@, id, 0) == first_transition(transitions@, id, i as nat),
        decreases transitions.len() - i,
    {
        i += 1;
    }
    i
}

fn push_state_mark(out: &mut String, id: usize)
    ensures
        final(out)@ == old(out)@ + state_mark(id),
{
    out.append("(s");
    push_decimal(out, id as u64);
    out.append(")");
    proof {
        assert(out@ =~= old(out)@ + state_mark(id));
    }
}

fn push_yellow_mark(out: &mut String, id: usize)
    ensures
        final(out)@ == old(out)@ + yellow_mark(id),
{
    out.append(ConsoleColors::FG_YELLOW);
    push_state_mark(out, id);
    out.append(ConsoleColors::RESET);
    proof {
        assert(out@ =~= old(out)@ + yellow_mark(id));
    }
}

fn push_rule(out: &mut String)
    ensures
        final(out)@ == old(out)@ + rule(),
{
    out.append("-------------------------------------------------------\n");
}

fn push_reached(details: &mut String, automaton: &Automaton, id: usize, symbol_table: &SymbolTable)
    requires
        symbol_table.well_formed(),
    ensures
        final(details)@ == old(details)@ + reached_text(automaton, id, symbol_table),
{
    push_yellow_mark(details, id);
    let ghost d1 = details@;
    let to = find_state(&automaton.states, id);
    if to < automaton.states.len() {
        details.append(" - ");
        let text = automaton.states[to].display(symbol_table);
        details.append(text.as_str());
        details.append("\n");
        proof {
            assert(details@ =~= d1 + (" - "@ + automaton.states@[to as int].spec_display(symbol_table)
                + "\n"@));
        }
    } else {
        proof {
            assert(details@ =~= d1 + Seq::<char>::empty());
        }
    }
    proof {
        assert(details@ =~= old(details)@ + reached_text(automaton, id, symbol_table));
    }
}

fn push_label_head(details: &mut String, id: usize)
    ensures
        final(details)@ == old(details)@ + (ConsoleColors::FG_RED@ + "<T"@ + decimal(id as nat)
            + "> - "@ + ConsoleColors::FG_BLUE@ + "["@),
{
    details.append(ConsoleColors::FG_RED);
    details.append("<T");
    push_decimal(details, id as u64);
    details.append("> - ");
    details.append(ConsoleColors::FG_BLUE);
    details.append("[");
    proof {
        assert(details@ =~= old(details)@ + (ConsoleColors::FG_RED@ + "<T"@ + decimal(id as nat)
            + "> - "@ + ConsoleColors::FG_BLUE@ + "["@));
    }
}

fn push_label_tail(details: &mut String)
    ensures
        final(details)@ == old(details)@ + ("]"@ + ConsoleColors::RESET@ + "\n"@),
{
    details.append("]");
    details.append(ConsoleColors::RESET);
    details.append("\n");
    proof {
        assert(details@ =~= old(details)@ + ("]"@ + ConsoleColors::RESET@ + "\n"@));
    }
}

fn push_transition_label(details: &mut String, transition: &Transition, symbol_table: &SymbolTable)
    requires
        symbol_table.well_formed(),
    ensures
        final(details)@ == old(details)@ + transition_label(*transition, symbol_table),
{
    push_label_head(details, transition.id);
    let ghost d1 = details@;
    let actions = transition.actions();
    let ghost joined = spec_join(action_texts(actions@, symbol_table), ", "@);
    if actions.len() > 0 {
        let label = AutomatonExporter::format_actions(&actions, symbol_table);
        details.append(label.as_str());
    } else {
        proof {
            assert(action_texts(actions@, symbol_table) =~= Seq::<Seq<char>>::empty());
            assert(details@ =~= d1 + joined);
        }
    }
    let ghost d2 = details@;
    assert(d2 == d1 + joined);
    push_label_tail(details);
    proof {
        let head = ConsoleColors::FG_RED@ + "<T"@ + decimal(transition.id as nat) + "> - "@
            + ConsoleColors::FG_BLUE@ + "["@;
        let tail = "]"@ + ConsoleColors::RESET@ + "\n"@;
        assert(details@ == old(details)@ + head + joined + tail);
        assert(transition_label(*transition, symbol_table) =~= head + joined + tail);
        assert(old(details)@ + head + joined + tail =~= old(details)@ + (head + joined + tail));
    }
}

fn push_step_summary(summary: &mut String, transition: &Transition)
    ensures
        final(summary)@ == old(summary)@ + step_summary(*transition),
{
    push_state_mark(summary, transition.to);
    summary.append("<--T");
    push_decimal(summary, transition.id as u64);
    summary.append("--");
    proof {
        assert(summary@ =~= old(summary)@ + step_summary(*transition));
    }
}

fn push_step_details(
    details: &mut String,
    automaton: &Automaton,
    transition: &Transition,
    symbol_table: &SymbolTable,
)
    requires
        symbol_table.well_formed(),
    ensures
        final(details)@ == old(details)@ + step_details(automaton, *transition, symbol_table),
{
    push_reached(details, automaton, transition.to, symbol_table);
    push_transition_label(details, transition, symbol_table);
    proof {
        assert(details@ =~= old(details)@ + step_details(automaton, *transition, symbol_table));
    }
}

/// The way back from the state at `at`: the short form, the long form, and the
/// position of the state where the way ends.
fn walk_back(automaton: &Automaton, at: usize, symbol_table: &SymbolTable) -> (r: (String, String, usize))
    requires
        symbol_table.well_formed(),
        at < automaton.states@.len(),
    ensures
        r.0@ == trace_walk(automaton, at as int, automaton.states@.len(), symbol_table).0,
        r.1@ == trace_walk(automaton, at as int, automaton.states@.len(), symbol_table).1,
        r.2 == trace_walk(automaton, at as int, automaton.states@.len(), symbol_table).2,
        r.2 < automaton.states@.len(),
{
    let ghost walk = trace_walk(automaton, at as int, automaton.states@.len(), symbol_table);
    let mut trace_summary = String::new();
    let mut trace_details = String::new();
    let mut current: usize = at;
    let mut fuel: usize = automaton.states.len();
    proof {
        assert(trace_summary@ + walk.0 =~= walk.0);
        assert(trace_details@ + walk.1 =~= walk.1);
    }
    while fuel > 0 && automaton.states[current].trace.len() > 0
        invariant
            symbol_table.well_formed(),
            current < automaton.states@.len(),
            walk.0 == trace_summary@ + trace_walk(
                automaton,
                current as int,
                fuel as nat,
                symbol_table,
            ).0,
            walk.1 == trace_details@ + trace_walk(
                automaton,
                current as int,
                fuel as nat,
                symbol_table,
            ).1,
            walk.2 == trace_walk(automaton, current as int, fuel as nat, symbol_table).2,
        decreases fuel,
    {
        let ghost here = trace_walk(automaton, current as int, fuel as nat, symbol_table);
        let ghost s0 = trace_summary@;
        let ghost d0 = trace_details@;
        let transition_id = automaton.states[current].trace[0];
        let k = find_transition(&automaton.transitions, transition_id);
        if k >= automaton.transitions.len() {
            proof {
                assert(here.0 =~= Seq::<char>::empty());
                assert(here.1 =~= Seq::<char>::empty());
                assert(here.2 == current);
            }
            fuel = 0;
        } else {
            let transition = &automaton.transitions[k];
            push_step_summary(&mut trace_summary, transition);
            push_step_details(&mut trace_details, automaton, transition, symbol_table);
            let from = find_state(&automaton.states, transition.from);
            if from >= automaton.states.len() {
                proof {
                    assert(here.0 == step_summary(*transition));
                    assert(here.1 == step_details(automaton, *transition, symbol_table));
                    assert(here.2 == current);
                    assert(trace_summary@ + Seq::<char>::empty() =~= trace_summary@);
                    assert(trace_details@ + Seq::<char>::empty() =~= trace_details@);
                }
                fuel = 0;
            } else {
                proof {
                    let rest = trace_walk(automaton, from as int, (fuel - 1) as nat, symbol_table);
                    assert(here.0 == step_summary(*transition) + rest.0);
                    assert(here.1 == step_details(automaton, *transition, symbol_table) + rest.1);
                    assert(trace_summary@ + rest.0 =~= s0 + (step_summary(*transition) + rest.0));
                    assert(trace_details@ + rest.1 =~= d0 + (step_details(
                        automaton,
                        *transition,
                        symbol_table,
                    ) + rest.1));
                }
                current = from;
                fuel -= 1;
            }
        }
    }
    proof {
        let end = trace_walk(automaton, current as int, fuel as nat, symbol_table);
        assert(end.0 =~= Seq::<char>::empty());
        assert(end.1 =~= Seq::<char>::empty());
        assert(trace_summary@ + Seq::<char>::empty() =~= trace_summary@);
        assert(trace_details@ + Seq::<char>::empty() =~= trace_details@);
    }
    (trace_summary, trace_details, current)
}

fn push_report_head(out: &mut String, state: &State, symbol_table: &SymbolTable)
    requires
        symbol_table.well_formed(),
    ensures
        final(out)@ == old(out)@ + report_head(*state, symbol_table),
{
    out.append("Conflict found in state ");
    push_state_mark(out, state.id);
    out.append("\n");
    let ghost o1 = out@;
    if let Some(info) = &state.conflict_information {
        out.append("Conflict: ");
        let text = info.display(symbol_table);
        out.append(text.as_str());
        out.append("\n");
        proof {
            assert(out@ =~= o1 + ("Conflict: "@ + info.spec_display(symbol_table) + "\n"@));
        }
    } else {
        proof {
            assert(out@ =~= o1 + Seq::<char>::empty());
        }
    }
    proof {
        assert(o1 =~= old(out)@ + ("Conflict found in state "@ + state_mark(state.id) + "\n"@));
        assert(out@ =~= old(out)@ + report_head(*state, symbol_table));
    }
}

fn push_last(out: &mut String, state: &State, symbol_table: &SymbolTable)
    requires
        symbol_table.well_formed(),
    ensures
        final(out)@ == old(out)@ + last_text(*state, symbol_table),
{
    push_yellow_mark(out, state.id);
    let ghost t1 = out@;
    if let Some(clause) = &state.clause {
        out.append(" - ");
        let text = clause.display(symbol_table);
        out.append(text.as_str());
        out.append("\n");
        proof {
            assert(out@ =~= t1 + (" - "@ + clause.spec_display(symbol_table) + "\n"@));
        }
    } else {
        proof {
            assert(out@ =~= t1 + Seq::<char>::empty());
        }
    }
    proof {
        assert(out@ =~= old(out)@ + last_text(*state, symbol_table));
    }
}

fn push_trace_line(out: &mut String, summary: &String, last: usize)
    ensures
        final(out)@ == old(out)@ + ("Trace: "@ + summary@ + state_mark(last) + "\n"@),
{
    out.append("Trace: ");
    out.append(summary.as_str());
    push_state_mark(out, last);
    out.append("\n");
    proof {
        assert(out@ =~= old(out)@ + ("Trace: "@ + summary@ + state_mark(last) + "\n"@));
    }
}

fn push_report_top(out: &mut String, state: &State, summary: &String, last: usize, symbol_table: &SymbolTable)
    requires
        symbol_table.well_formed(),
    ensures
        final(out)@ == old(out)@ + report_top(*state, summary@, last, symbol_table),
{
    push_report_head(out, state, symbol_table);
    push_rule(out);
    push_trace_line(out, summary, last);
    push_rule(out);
    proof {
        let a = report_head(*state, symbol_table);
        let b = "Trace: "@ + summary@ + state_mark(last) + "\n"@;
        assert(out@ == old(out)@ + a + rule() + b + rule());
        assert(old(out)@ + a + rule() + b + rule() =~= old(out)@ + (a + rule() + b + rule()));
    }
}

fn push_report_bottom(out: &mut String, details: &String, last: &State, symbol_table: &SymbolTable)
    requires
        symbol_table.well_formed(),
    ensures
        final(out)@ == old(out)@ + report_bottom(details@, *last, symbol_table),
{
    out.append("Stacktrace: \n");
    out.append(details.as_str());
    push_last(out, last, symbol_table);
    push_rule(out);
    proof {
        let a = "Stacktrace: \n"@;
        let b = last_text(*last, symbol_table);
        assert(out@ == old(out)@ + a + details@ + b + rule());
        assert(old(out)@ + a + details@ + b + rule() =~= old(out)@ + (a + details@ + b + rule()));
    }
}

fn push_conflict_report(out: &mut String, automaton: &Automaton, at: usize, symbol_table: &SymbolTable)
    requires
        symbol_table.well_formed(),
        at < automaton.states@.len(),
    ensures
        final(out)@ == old(out)@ + conflict_report(automaton, at as int, symbol_table),
{
    let (summary, details, last) = walk_back(automaton, at, symbol_table);
    let ghost top = report_top(
        automaton.states@[at as int],
        summary@,
        automaton.states@[last as int].id,
        symbol_table,
    );
    let ghost bottom = report_bottom(details@, automaton.states@[last as int], symbol_table);
    push_report_top(out, &automaton.states[at], &summary, automaton.states[last].id, symbol_table);
    push_report_bottom(out, &details, &automaton.states[last], symbol_table);
    proof {
        assert(out@ == old(out)@ + top + bottom);
        assert(old(out)@ + top + bottom =~= old(out)@ + (top + bottom));
    }
}

/// The conflicts of an automaton, each with the states and transitions that lead back
/// from it.
pub fn print_trace(automaton: &Automaton, symbol_table: &SymbolTable) -> (s: String)
    requires
        symbol_table.well_formed(),
    ensures
        s@ == spec_print_trace(automaton, symbol_table),
{
    let mut output = String::from_str("\n");
    push_rule(&mut output);
    let ghost head = output@;
    proof {
        assert(output@ =~= head + Seq::<char>::empty());
    }
    let mut i: usize = 0;
    while i < automaton.states.len()
        invariant
            symbol_table.well_formed(),
            i <= automaton.states.len(),
            output@ == head + conflict_reports(automaton, i as nat, symbol_table),
        decreases automaton.states.len() - i,
    {
        let ghost before = conflict_reports(automaton, i as nat, symbol_table);
        if automaton.states[i].situation == StateSituation::Conflicting {
            push_conflict_report(&mut output, automaton, i, symbol_table);
            proof {
                assert(output@ =~= head + (before + conflict_report(automaton, i as int, symbol_table)));
            }
        }
        i += 1;
    }
    output
}

/// The result of an analysis as the console shows it.
pub fn print_result(automaton: &Automaton, ms: u64, rss: u64, total: u64, symbol_table: &SymbolTable) -> (s:
    String)
    requires
        symbol_table.well_formed(),
    ensures
        s@ == spec_print_result(automaton, ms, rss, total, symbol_table),
{
    let mut output = String::from_str("\n");
    push_rule(&mut output);
    output.append("\n");
    let ghost o1 = output@;
    if automaton.conflict_found {
        output.append(ConsoleColors::FG_RED);
        output.append("[CONFLICT] ");
        output.append(ConsoleColors::FG_WHITE);
        output.append("A conflict was found in the analyzed contract.");
        output.append(ConsoleColors::RESET);
        output.append("\n");
        let trace = print_trace(automaton, symbol_table);
        output.append(trace.as_str());
    } else {
        output.append(ConsoleColors::FG_GREEN);
        output.append("[CONFLICT-FREE] ");
        output.append(ConsoleColors::FG_WHITE);
        output.append("The analyzed contract is conflict-free.");
        output.append(ConsoleColors::RESET);
        output.append("\n");
    }
    proof {
        assert(output@ =~= o1 + verdict(automaton, symbol_table));
    }
    output.append("\n");
    push_rule(&mut output);
    output.append("Completed in ");
    push_decimal(&mut output, ms);
    output.append("ms\nMax RAM: ");
    push_decimal(&mut output, rss);
    output.append("MB\nMax Total Memory: ");
    push_decimal(&mut output, total);
    output.append("MB\n");
    push_rule(&mut output);
    proof {
        assert(output@ =~= spec_print_result(automaton, ms, rss, total, symbol_table));
    }
    output
}

} // verus!
