use crate::model::automata::{Automaton, StateSituation};
use crate::model::contracts::Contract;
use crate::utils::text::{decimal, hundredths_of, push_decimal, push_in_units, two_decimals};
use vstd::prelude::*;
use vstd::string::StringExecFns;

verus! {

/// The bytes of a megabyte.
pub const MEGABYTE: u64 = 0x10_0000;

/// The number of conflicting states among the first `n` states.
pub open spec fn conflict_count(a: &Automaton, n: nat) -> nat
    decreases n,
{
    if n == 0 {
        0
    } else {
        conflict_count(a, (n - 1) as nat) + if a.states@[n - 1].situation
            == StateSituation::Conflicting {
            1nat
        } else {
            0nat
        }
    }
}

/// The numbers of states, transitions, individuals and actions, a semicolon behind
/// each.
pub open spec fn counts_text(a: &Automaton, contract: &Contract) -> Seq<char> {
    decimal(a.states@.len()) + ";"@ + decimal(a.transitions@.len()) + ";"@ + decimal(
        contract.individuals@.len(),
    ) + ";"@ + decimal(contract.actions@.len()) + ";"@
}

/// Whether a conflict was found, as `1` or `0`, and the number of conflicting states,
/// a semicolon behind each.
pub open spec fn conflict_text(a: &Automaton) -> Seq<char> {
    (if a.conflict_found {
        "1"@
    } else {
        "0"@
    }) + ";"@ + decimal(conflict_count(a, a.states@.len())) + ";"@
}

/// The size of the automaton in megabytes and the memory used in megabytes, both with
/// two decimals, and `success`.
pub open spec fn usage_text(size_bytes: u64, memory: u64) -> Seq<char> {
    two_decimals(hundredths_of(size_bytes as nat, MEGABYTE as nat)) + ";"@ + decimal(memory as nat)
        + ".00;success"@
}

/// The metrics of an analysis in one line: the time, the counts, the conflicts and
/// the memory, separated by semicolons.
pub open spec fn spec_automaton_data(
    time: u64,
    memory: u64,
    a: &Automaton,
    contract: &Contract,
    size_bytes: u64,
) -> Seq<char> {
    decimal(time as nat) + ";"@ + counts_text(a, contract) + conflict_text(a) + usage_text(
        size_bytes,
        memory,
    )
}

fn count_conflicts(automaton: &Automaton) -> (n: usize)
    ensures
        n == conflict_count(automaton, automaton.states@.len()),
{
    let mut count: usize = 0;
    let mut i: usize = 0;
    while i < automaton.states.len()
        invariant
            i <= automaton.states.len(),
            count == conflict_count(automaton, i as nat),
            count <= i,
        decreases automaton.states.len() - i,
    {
        if automaton.states[i].situation == StateSituation::Conflicting {
            count += 1;
        }
        i += 1;
    }
    count
}

fn push_counts(out: &mut String, automaton: &Automaton, contract: &Contract)
    ensures
        final(out)@ == old(out)@ + counts_text(automaton, contract),
{
    push_decimal(out, automaton.states.len() as u64);
    out.append(";");
    push_decimal(out, automaton.transitions.len() as u64);
    out.append(";");
    push_decimal(out, contract.individuals.len() as u64);
    out.append(";");
    push_decimal(out, contract.actions.len() as u64);
    out.append(";");
    proof {
        assert(out@ =~= old(out)@ + counts_text(automaton, contract));
    }
}

fn push_conflicts(out: &mut String, automaton: &Automaton)
    ensures
        final(out)@ == old(out)@ + conflict_text(automaton),
{
    if automaton.conflict_found {
        out.append("1");
    } else {
        out.append("0");
    }
    out.append(";");
    push_decimal(out, count_conflicts(automaton) as u64);
    out.append(";");
    proof {
        assert(out@ =~= old(out)@ + conflict_text(automaton));
    }
}

fn push_usage(out: &mut String, size_bytes: u64, memory: u64)
    ensures
        final(out)@ == old(out)@ + usage_text(size_bytes, memory),
{
    push_in_units(out, size_bytes, MEGABYTE);
    out.append(";");
    push_decimal(out, memory);
    out.append(".00;success");
    proof {
        assert(out@ =~= old(out)@ + usage_text(size_bytes, memory));
    }
}

/// The metrics of an analysis in one line, for an automaton that takes `size_bytes`
/// bytes.
pub fn get_automaton_data(
    time: u64,
    memory: u64,
    automaton: &Automaton,
    contract: &Contract,
    size_bytes: u64,
) -> (s: String)
    ensures
        s@ == spec_automaton_data(time, memory, automaton, contract, size_bytes),
{
    let mut out = String::new();
    push_decimal(&mut out, time);
    out.append(";");
    let ghost head = out@;
    push_counts(&mut out, automaton, contract);
    push_conflicts(&mut out, automaton);
    push_usage(&mut out, size_bytes, memory);
    proof {
        let a = counts_text(automaton, contract);
        let b = conflict_text(automaton);
        let c = usage_text(size_bytes, memory);
        assert(head =~= decimal(time as nat) + ";"@);
        assert(out@ == head + a + b + c);
    }
    out
}

} // verus!
