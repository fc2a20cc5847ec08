use crate::algorithms::action_extractor::{spec_relativized_actions, ActionExtractor};
use crate::algorithms::automata_constructor::{
    conflict_by, individuals_for, setting_for, Setting,
};
use crate::algorithms::clause_decomposer::{spec_elaborate, ClauseDecomposer};
use crate::model::actions::{BasicAction, RelativizedAction};
use crate::model::automata::{Automaton, State, StateSituation};
use crate::model::contracts::{Clause, Contract};
use crate::utils::config::{LogLevel, LogType, RunConfiguration};
use crate::utils::export::{action_texts, spec_format_actions, AutomatonExporter};
use crate::utils::ordered::{copy_of, distinct, distinct_items};
use crate::utils::symbols::SymbolTable;
use crate::utils::text::spec_join;
use vstd::prelude::*;
use vstd::string::StringExecFns;

verus! {

/// A record of what an analysis did, for a log.
#[derive(Debug)]
pub struct LogRecord {
    pub log_type: LogType,
    pub message: String,
}

/// What a record says, and how important it is.
pub struct RecordView {
    pub log_type: LogType,
    pub message: Seq<char>,
}

impl View for LogRecord {
    type V = RecordView;

    open spec fn view(&self) -> RecordView {
        RecordView { log_type: self.log_type, message: self.message@ }
    }
}

/// What the records say, in their order.
pub open spec fn record_views(records: Seq<LogRecord>) -> Seq<RecordView> {
    records.map_values(|r: LogRecord| r@)
}

/// A record that a run shows at every level.
pub open spec fn necessary(message: Seq<char>) -> RecordView {
    RecordView { log_type: LogType::Necessary, message }
}

/// The first `n` actions of a contract, each followed by a blank.
pub open spec fn actions_text(actions: Seq<BasicAction>, n: nat, table: &SymbolTable) -> Seq<char>
    decreases n,
{
    if n == 0 {
        Seq::empty()
    } else {
        actions_text(actions, (n - 1) as nat, table) + actions[n - 1].spec_display(table) + " "@
    }
}

/// The names of the first `n` individuals of a contract that have a symbol, each
/// followed by a blank.
pub open spec fn individuals_text(ids: Seq<i32>, n: nat, table: &SymbolTable) -> Seq<char>
    decreases n,
{
    if n == 0 {
        Seq::empty()
    } else {
        individuals_text(ids, (n - 1) as nat, table) + (match table.spec_symbol_by_id(
            ids[n - 1] as int,
        ) {
            Some(s) => s.value@ + " "@,
            None => Seq::empty(),
        })
    }
}

/// The record of a contract: its clauses and conflicts, its actions and its
/// individuals.
pub open spec fn contract_message(contract: &Contract, table: &SymbolTable) -> Seq<char> {
    "Contract Info: "@ + contract.spec_display(table) + "\n"@ + "\nActions:\n"@ + actions_text(
        contract.actions@,
        contract.actions@.len(),
        table,
    ) + "\nIndividuals:\n"@ + individuals_text(
        contract.individuals@,
        contract.individuals@.len(),
        table,
    )
}

/// The record of a state that was found.
pub open spec fn state_message(s: State, table: &SymbolTable) -> Seq<char> {
    "New State: "@ + s.spec_display(table)
}

/// The record of the relativized actions that the clause `c` of a state can fire: the
/// clause, elaborated, and the actions.
pub open spec fn actions_message(c: Clause, setting: Setting, table: &SymbolTable) -> Seq<char> {
    "Concurrent Relativized Actions for "@ + spec_elaborate(c).spec_display(table) + " is ["@
        + spec_join(
        action_texts(
            spec_relativized_actions(spec_elaborate(c), individuals_for(c, setting)),
            table,
        ),
        ", "@,
    ) + "]"@
}

/// Whether the analysis computed the actions of the state at `i`: its clause is no
/// Boolean, and no conflict had stopped the analysis.
pub open spec fn explored(a: Automaton, i: int, setting: Setting) -> bool {
    &&& a.states@[i].clause.is_some()
    &&& !(a.states@[i].clause.unwrap() is Boolean)
    &&& (setting.continues || !conflict_by(a, i))
}

/// What the actions of a clause are kept under: the clause, elaborated, and the
/// individuals over which it is read, each once.
pub open spec fn kind_of(c: Clause, setting: Setting) -> (Clause, Seq<i32>) {
    (spec_elaborate(c), distinct(individuals_for(c, setting)))
}

/// Whether an explored state before the one at `i` is of the kind `kind`.
pub open spec fn seen_before(a: Automaton, i: int, setting: Setting, kind: (Clause, Seq<i32>)) -> bool {
    exists|j: int|
        0 <= j < i && j < a.states@.len() && #[trigger] explored(a, j, setting) && kind_of(
            a.states@[j].clause.unwrap(),
            setting,
        ) == kind
}

/// The records of the state at `i`: that it was found, unless it is the first state;
/// and its actions, where the analysis computed them and had not kept them from an
/// earlier state of the same kind.
pub open spec fn state_records(a: Automaton, i: int, setting: Setting, table: &SymbolTable) -> Seq<
    RecordView,
> {
    (if i > 0 {
        seq![necessary(state_message(a.states@[i], table))]
    } else {
        Seq::empty()
    }) + (if explored(a, i, setting) && !seen_before(
        a,
        i,
        setting,
        kind_of(a.states@[i].clause.unwrap(), setting),
    ) {
        seq![necessary(actions_message(a.states@[i].clause.unwrap(), setting, table))]
    } else {
        Seq::empty()
    })
}

/// The records of the first `n` states, in the order of the states.
pub open spec fn records_upto(a: Automaton, n: nat, setting: Setting, table: &SymbolTable) -> Seq<
    RecordView,
>
    decreases n,
{
    if n == 0 {
        Seq::empty()
    } else {
        records_upto(a, (n - 1) as nat, setting, table) + state_records(a, n - 1, setting, table)
    }
}

/// The records of an analysis that gave the automaton `a`, in the order in which the
/// analysis went: in a verbose run the contract; then state by state what
/// [`state_records`] says.
pub open spec fn spec_records(
    a: Automaton,
    contract: &Contract,
    config: RunConfiguration,
    table: &SymbolTable,
) -> Seq<RecordView> {
    (if config.log_level == LogLevel::Verbose {
        seq![necessary(contract_message(contract, table))]
    } else {
        Seq::empty()
    }) + records_upto(a, a.states@.len(), setting_for(config, contract), table)
}

/// The kind of an explored state.
struct Kind {
    clause: Clause,
    ids: Vec<i32>,
}

fn contract_record(contract: &Contract, table: &SymbolTable) -> (r: LogRecord)
    requires
        table.well_formed(),
    ensures
        r@ == necessary(contract_message(contract, table)),
{
    let mut out = String::from_str("Contract Info: ");
    out.append(contract.display(table).as_str());
    out.append("\n");
    out.append("\nActions:\n");
    let ghost head = out@;
    let mut i: usize = 0;
    while i < contract.actions.len()
        invariant
            table.well_formed(),
            i <= contract.actions.len(),
            out@ == head + actions_text(contract.actions@, i as nat, table),
        decreases contract.actions.len() - i,
    {
        let ghost earlier = out@;
        let text = contract.actions[i].display(table);
        out.append(text.as_str());
        out.append(" ");
        proof {
            assert(out@ =~= head + (actions_text(contract.actions@, i as nat, table)
                + contract.actions@[i as int].spec_display(table) + " "@));
        }
        i += 1;
    }
    out.append("\nIndividuals:\n");
    let ghost middle = out@;
    let mut k: usize = 0;
    while k < contract.individuals.len()
        invariant
            table.well_formed(),
            k <= contract.individuals.len(),
            out@ == middle + individuals_text(contract.individuals@, k as nat, table),
        decreases contract.individuals.len() - k,
    {
        match table.get_symbol_by_id(contract.individuals[k]) {
            Some(symbol) => {
                out.append(symbol.value());
                out.append(" ");
                proof {
                    assert(out@ =~= middle + (individuals_text(contract.individuals@, k as nat, table)
                        + (symbol.value@ + " "@)));
                }
            },
            None => {
                proof {
                    assert(out@ =~= middle + (individuals_text(contract.individuals@, k as nat, table)
                        + Seq::<char>::empty()));
                }
            },
        }
        k += 1;
    }
    proof {
        assert(out@ =~= contract_message(contract, table));
    }
    LogRecord { log_type: LogType::Necessary, message: out }
}

fn state_record(state: &State, table: &SymbolTable) -> (r: LogRecord)
    requires
        table.well_formed(),
    ensures
        r@ == necessary(state_message(*state, table)),
{
    let mut out = String::from_str("New State: ");
    out.append(state.display(table).as_str());
    LogRecord { log_type: LogType::Necessary, message: out }
}

fn actions_record(
    elaborated: &Clause,
    individuals: &Vec<i32>,
    table: &SymbolTable,
    Ghost(c): Ghost<Clause>,
    Ghost(setting): Ghost<Setting>,
) -> (r: LogRecord)
    requires
        table.well_formed(),
        *elaborated == spec_elaborate(c),
        individuals@ == individuals_for(c, setting),
    ensures
        r@ == necessary(actions_message(c, setting, table)),
{
    let extractor = ActionExtractor::new(Vec::new());
    let actions = extractor.calculate_relativized_actions(elaborated, individuals);
    let mut out = String::from_str("Concurrent Relativized Actions for ");
    out.append(elaborated.display(table).as_str());
    out.append(" is [");
    if actions.len() > 0 {
        out.append(AutomatonExporter::format_actions(&actions, table).as_str());
    } else {
        proof {
            assert(action_texts(actions@, table) =~= Seq::<Seq<char>>::empty());
            assert(spec_join(action_texts(actions@, table), ", "@) =~= Seq::<char>::empty());
        }
    }
    out.append("]");
    proof {
        assert(out@ =~= actions_message(c, setting, table));
    }
    LogRecord { log_type: LogType::Necessary, message: out }
}

fn known(kinds: &Vec<Kind>, clause: &Clause, ids: &Vec<i32>) -> (b: bool)
    ensures
        b == exists|t: int|
            0 <= t < kinds@.len() && (#[trigger] kinds@[t]).clause == *clause && kinds@[t].ids@
                == ids@,
{
    let mut t: usize = 0;
    while t < kinds.len()
        invariant
            t <= kinds.len(),
            forall|u: int|
                0 <= u < t ==> !((#[trigger] kinds@[u]).clause == *clause && kinds@[u].ids@ == ids@),
        decreases kinds.len() - t,
    {
        if ActionExtractor::same_ids(&kinds[t].ids, ids) && kinds[t].clause.equals(clause) {
            return true;
        }
        t += 1;
    }
    false
}

/// The records of the analysis that gave `automaton`, in the order in which the
/// analysis went.
pub fn analysis_records(
    automaton: &Automaton,
    contract: &Contract,
    config: &RunConfiguration,
    table: &SymbolTable,
) -> (r: Vec<LogRecord>)
    requires
        table.well_formed(),
    ensures
        record_views(r@) == spec_records(*automaton, contract, *config, table),
{
    let ghost setting = setting_for(*config, contract);
    let mut out: Vec<LogRecord> = Vec::new();
    if config.log_level() == LogLevel::Verbose {
        let record = contract_record(contract, table);
        out.push(record);
    }
    let ghost head = record_views(out@);
    proof {
        assert(head =~= (if config.log_level == LogLevel::Verbose {
            seq![necessary(contract_message(contract, table))]
        } else {
            Seq::empty()
        }));
    }
    let mut kinds: Vec<Kind> = Vec::new();
    let mut stopped = false;
    let mut i: usize = 0;
    while i < automaton.states.len()
        invariant
            table.well_formed(),
            i <= automaton.states.len(),
            setting == setting_for(*config, contract),
            record_views(out@) == head + records_upto(*automaton, i as nat, setting, table),
            stopped == conflict_by(*automaton, i - 1),
            forall|t: int|
                0 <= t < kinds@.len() ==> seen_before(
                    *automaton,
                    i as int,
                    setting,
                    ((#[trigger] kinds@[t]).clause, kinds@[t].ids@),
                ),
            forall|j: int|
                0 <= j < i && #[trigger] explored(*automaton, j, setting) ==> exists|t: int|
                    0 <= t < kinds@.len() && ((#[trigger] kinds@[t]).clause, kinds@[t].ids@)
                        == kind_of(automaton.states@[j].clause.unwrap(), setting),
        decreases automaton.states.len() - i,
    {
        let state = &automaton.states[i];
        let ghost earlier = out@;
        let ghost earlier_kinds = kinds@;
        if i > 0 {
            let record = state_record(state, table);
            out.push(record);
        }
        let ghost found = record_views(out@);
        if state.situation == StateSituation::Conflicting {
            stopped = true;
        }
        proof {
            if conflict_by(*automaton, i as int) {
                let k = choose|k: int|
                    0 <= k <= i && k < automaton.states@.len() && (
                    #[trigger] automaton.states@[k]).situation == StateSituation::Conflicting;
                if k < i {
                    assert(conflict_by(*automaton, i - 1));
                }
            }
            if conflict_by(*automaton, i - 1) {
                let k = choose|k: int|
                    0 <= k <= i - 1 && k < automaton.states@.len() && (
                    #[trigger] automaton.states@[k]).situation == StateSituation::Conflicting;
                assert(automaton.states@[k].situation == StateSituation::Conflicting);
            }
            if state.situation == StateSituation::Conflicting {
                assert(automaton.states@[i as int].situation == StateSituation::Conflicting);
            }
            assert(stopped == conflict_by(*automaton, i as int));
        }
        let mut is_explored = false;
        match &state.clause {
            Some(c) => {
                if !is_boolean(c) && (config.is_continue_on_conflict() || !stopped) {
                    is_explored = true;
                    let individuals = read_over(c, contract, config);
                    let elaborated = ClauseDecomposer::process_composed_actions(c);
                    let ids = distinct_items(&individuals);
                    let seen = known(&kinds, &elaborated, &ids);
                    proof {
                        let kind = kind_of(*c, setting);
                        assert(kind == (elaborated, ids@));
                        if seen {
                            let t = choose|t: int|
                                0 <= t < kinds@.len() && (#[trigger] kinds@[t]).clause == elaborated
                                    && kinds@[t].ids@ == ids@;
                            assert(seen_before(
                                *automaton,
                                i as int,
                                setting,
                                (kinds@[t].clause, kinds@[t].ids@),
                            ));
                        }
                        if seen_before(*automaton, i as int, setting, kind) {
                            let j = choose|j: int|
                                0 <= j < i && j < automaton.states@.len() && #[trigger] explored(
                                    *automaton,
                                    j,
                                    setting,
                                ) && kind_of(automaton.states@[j].clause.unwrap(), setting) == kind;
                            let t = choose|t: int|
                                0 <= t < kinds@.len() && ((#[trigger] kinds@[t]).clause, kinds@[t].ids@)
                                    == kind_of(automaton.states@[j].clause.unwrap(), setting);
                            assert(kinds@[t].clause == elaborated && kinds@[t].ids@ == ids@);
                        }
                        assert(seen == seen_before(*automaton, i as int, setting, kind));
                    }
                    if !seen {
                        let record = actions_record(
                            &elaborated,
                            &individuals,
                            table,
                            Ghost(*c),
                            Ghost(setting),
                        );
                        out.push(record);
                    }
                    kinds.push(Kind { clause: elaborated, ids });
                }
            },
            None => {},
        }
        proof {
            assert(is_explored == explored(*automaton, i as int, setting));
            let own = state_records(*automaton, i as int, setting, table);
            assert(record_views(out@) =~= record_views(earlier) + own);
            assert(record_views(out@) =~= head + (records_upto(*automaton, i as nat, setting, table)
                + own));
            assert forall|t: int| 0 <= t < kinds@.len() implies seen_before(
                *automaton,
                i + 1,
                setting,
                ((#[trigger] kinds@[t]).clause, kinds@[t].ids@),
            ) by {
                let kind = (kinds@[t].clause, kinds@[t].ids@);
                if t < earlier_kinds.len() {
                    assert(kinds@[t] == earlier_kinds[t]);
                    assert(seen_before(*automaton, i as int, setting, kind));
                    let j = choose|j: int|
                        0 <= j < i && j < automaton.states@.len() && #[trigger] explored(
                            *automaton,
                            j,
                            setting,
                        ) && kind_of(automaton.states@[j].clause.unwrap(), setting) == kind;
                    assert(explored(*automaton, j, setting));
                } else {
                    assert(explored(*automaton, i as int, setting));
                }
            }
            assert forall|j: int| 0 <= j < i + 1 && #[trigger] explored(
                *automaton,
                j,
                setting,
            ) implies exists|t: int|
                0 <= t < kinds@.len() && ((#[trigger] kinds@[t]).clause, kinds@[t].ids@) == kind_of(
                    automaton.states@[j].clause.unwrap(),
                    setting,
                ) by {
                if j < i {
                    let t = choose|t: int|
                        0 <= t < earlier_kinds.len() && ((#[trigger] earlier_kinds[t]).clause, earlier_kinds[t].ids@)
                            == kind_of(automaton.states@[j].clause.unwrap(), setting);
                    assert(kinds@[t] == earlier_kinds[t]);
                } else {
                    assert(kinds@[kinds@.len() - 1].clause == kinds@.last().clause);
                }
            }
        }
        i += 1;
    }
    out
}

/// Whether the clause is a Boolean.
fn is_boolean(clause: &Clause) -> (b: bool)
    ensures
        b == (*clause is Boolean),
{
    matches!(clause, Clause::Boolean { .. })
}

/// The individuals over which `clause` is read.
fn read_over(clause: &Clause, contract: &Contract, config: &RunConfiguration) -> (r: Vec<i32>)
    ensures
        r@ == individuals_for(*clause, setting_for(*config, contract)),
{
    if config.is_use_prunning() {
        ActionExtractor::calculate_individuals(clause, copy_of(&contract.individuals))
    } else {
        copy_of(&contract.individuals)
    }
}

} // verus!
