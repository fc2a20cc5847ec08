use recall::utils::cli::output_names;
use recall::utils::logging::{format_global, format_local, global_line, local_line, route};
use recall::utils::text::{
    chars_of, contains_text, decimal_string, push_escaped, push_joined, push_signed, string_hash,
};
use recall::{
    parse_command_line, print_result, print_trace, print_usage, strip_ansi_codes, Action,
    AutomataConstructor, Automaton, AutomatonExporter, BasicAction, Clause, ClauseComposition,
    ClauseCompositionType, CommandLine, ConsoleColors, Contract, DeonticClauseType, LogLevel,
    LogRoute, LogType, RelativizedAction, RunConfiguration, State, StateSituation, SymbolTable,
    SymbolType, Transition,
};
use std::sync::Arc;

const RULE: &str = "-------------------------------------------------------\n";

fn table() -> SymbolTable {
    let mut t = SymbolTable::new();
    t.add_symbol("alice".to_string(), SymbolType::Individual);
    t.add_symbol("bob".to_string(), SymbolType::Individual);
    t.add_symbol("pay".to_string(), SymbolType::Action);
    t.add_symbol("ship".to_string(), SymbolType::Action);
    t
}

fn basic(id: i32) -> Action {
    Action::Basic(BasicAction::with_value(id))
}

fn joined(mut first: Clause, connective: ClauseCompositionType, second: Clause) -> Clause {
    first.set_composition(ClauseComposition::new(connective, second));
    first
}

fn analyse(contract: &Contract) -> Automaton {
    let mut constructor = AutomataConstructor::new(RunConfiguration::new());
    constructor.process(contract, &table()).expect("the analysis succeeds")
}

fn compensated() -> Automaton {
    let penalty = Clause::deontic_directed(1, 2, basic(4), DeonticClauseType::Obligation, None);
    let clause =
        Clause::deontic_directed(1, 2, basic(3), DeonticClauseType::Obligation, Some(penalty));
    analyse(&Contract::with_clauses(vec![clause]))
}

fn args(words: &[&str]) -> Vec<String> {
    words.iter().map(|w| w.to_string()).collect()
}

#[test]
fn numbers_and_texts_are_written_exactly() {
    assert_eq!(decimal_string(0), "0");
    assert_eq!(decimal_string(7), "7");
    assert_eq!(decimal_string(10), "10");
    assert_eq!(decimal_string(u64::MAX), "18446744073709551615");
    let mut out = String::from("x");
    push_signed(&mut out, -120);
    push_signed(&mut out, 0);
    push_signed(&mut out, i64::MIN);
    assert_eq!(out, "x-1200-9223372036854775808");
    let mut escaped = String::new();
    push_escaped(&mut escaped, "say \"hi\" \\ é");
    assert_eq!(escaped, "say \\\"hi\\\" \\ é");
    let mut list = String::from("[");
    push_joined(&mut list, &args(&["a", "", "bc"]), ", ");
    push_joined(&mut list, &vec![], ", ");
    push_joined(&mut list, &args(&["d"]), ", ");
    assert_eq!(list, "[a, , bcd");
    assert_eq!(chars_of("aé"), vec!['a', 'é']);
}

#[test]
fn texts_are_searched_and_hashed() {
    let hay = chars_of("a[b[!c");
    assert!(contains_text(&hay, &chars_of("[!")));
    assert!(contains_text(&hay, &chars_of("")));
    assert!(contains_text(&hay, &chars_of("a[b[!c")));
    assert!(!contains_text(&hay, &chars_of("!]")));
    assert!(!contains_text(&hay, &chars_of("a[b[!cd")));
    assert!(!contains_text(&chars_of(""), &chars_of("a")));
    assert_eq!(string_hash(&chars_of("")), 0);
    assert_eq!(string_hash(&chars_of("abc")), 96354);
    assert_eq!(string_hash(&chars_of("hello")), 99162322);
    assert_eq!(string_hash(&chars_of("polygenelubricants")), i32::MIN);
    assert_eq!(string_hash(&chars_of("é")), 233);
    assert_eq!(string_hash(&chars_of("{alice,bob}OBLIGATION(ship)")), 2001725202);
}

#[test]
fn clauses_of_a_contract_are_ordered_by_group_then_hash() {
    let o_pay = Clause::deontic_directed(1, 2, basic(3), DeonticClauseType::Obligation, None);
    let o_ship = Clause::deontic_directed(1, 2, basic(4), DeonticClauseType::Obligation, None);
    let f_ship = Clause::deontic_relativized(2, basic(4), DeonticClauseType::Prohibition, None);
    let p_pay = Clause::deontic_global(basic(3), DeonticClauseType::Permission, None);
    let not_pay = Clause::dynamic_relativized(1, Action::negation(basic(3)), Clause::boolean_true());
    let after_pay = Clause::dynamic_relativized(1, basic(3), Clause::boolean_true());
    let contract = Contract::with_clauses(vec![
        o_ship.clone(),
        o_pay.clone(),
        f_ship.clone(),
        p_pay.clone(),
        Clause::boolean_true(),
        not_pay.clone(),
        after_pay.clone(),
    ]);
    let and = ClauseCompositionType::And;
    let expected = joined(
        not_pay,
        and,
        joined(
            f_ship,
            and,
            joined(
                o_pay,
                and,
                joined(o_ship, and, joined(after_pay, and, joined(p_pay, and, Clause::boolean_true()))),
            ),
        ),
    );
    assert_eq!(contract.get_full_contract(&table()), Some(expected));
}

#[test]
fn colour_codes_are_stripped_and_lines_are_laid_out() {
    assert_eq!(strip_ansi_codes("\u{1b}[31mred\u{1b}[0m and \u{1b}[1;32mgreen\u{1b}[m"), "red and green");
    assert_eq!(strip_ansi_codes("plain [31m"), "plain [31m");
    assert_eq!(global_line("2024-01-02 03:04:05", "shop", "done"), "2024-01-02 03:04:05 [shop]: done");
    assert_eq!(local_line("2024-01-02 03:04:05", "done"), "2024-01-02 03:04:05: done");
    assert_eq!(format_global("d", "c", "\u{1b}[33mx\u{1b}[0m"), "d [c]: x");
    assert_eq!(format_local("d", "\u{1b}[33mx\u{1b}[0m"), "d: x");
    let all = LogRoute { global: true, local: true, console: true };
    let local = LogRoute { global: false, local: true, console: false };
    assert_eq!(route(LogLevel::Normal, LogType::Minimal), all);
    assert_eq!(route(LogLevel::Normal, LogType::Necessary), all);
    assert_eq!(route(LogLevel::Normal, LogType::Additional), local);
    assert_eq!(route(LogLevel::Verbose, LogType::Minimal), all);
    assert_eq!(route(LogLevel::Verbose, LogType::Additional), all);
    assert_eq!(ConsoleColors::RESET, "\u{1b}[0m");
    assert_eq!(ConsoleColors::FG_RED, "\u{1b}[31m");
    assert_eq!(ConsoleColors::FG_GREEN, "\u{1b}[32m");
    assert_eq!(ConsoleColors::FG_YELLOW, "\u{1b}[33m");
    assert_eq!(ConsoleColors::FG_BLUE, "\u{1b}[34m");
    assert_eq!(ConsoleColors::FG_WHITE, "\u{1b}[37m");
}

#[test]
fn run_configuration_starts_with_pruning_only() {
    let mut c = RunConfiguration::new();
    assert_eq!(c.contract_file_name(), "");
    assert_eq!(c.result_file_name(), "");
    assert_eq!(c.decompositions_file_name(), "");
    assert_eq!(c.automaton_file_name(), "");
    assert_eq!(c.min_automaton_file_name(), "");
    assert_eq!(c.global_log_filename(), "");
    assert!(c.is_use_prunning());
    assert!(!c.is_export_decompositions() && !c.is_export_automaton() && !c.is_test());
    assert!(!c.is_continue_on_conflict() && !c.is_export_min_automaton());
    assert_eq!(c.log_level(), LogLevel::Normal);
    c.set_contract_file_name("a".to_string());
    c.set_result_file_name("b".to_string());
    c.set_decompositions_file_name("c".to_string());
    c.set_automaton_file_name("d".to_string());
    c.set_min_automaton_file_name("e".to_string());
    c.set_global_log_filename("f".to_string());
    c.set_export_decompositions(true);
    c.set_export_automaton(true);
    c.set_continue_on_conflict(true);
    c.set_export_min_automaton(true);
    c.set_use_prunning(false);
    c.set_test(true);
    c.set_log_level(LogLevel::Verbose);
    let d = c.clone();
    assert_eq!(
        (d.contract_file_name(), d.result_file_name(), d.decompositions_file_name()),
        ("a", "b", "c")
    );
    assert_eq!(
        (d.automaton_file_name(), d.min_automaton_file_name(), d.global_log_filename()),
        ("d", "e", "f")
    );
    assert!(d.is_export_decompositions() && d.is_export_automaton() && d.is_test());
    assert!(d.is_continue_on_conflict() && d.is_export_min_automaton() && !d.is_use_prunning());
    assert_eq!(d.log_level(), LogLevel::Verbose);
    assert!(RunConfiguration::default().is_use_prunning());
}

#[test]
fn command_lines_name_a_contract_and_options() {
    match parse_command_line(&args(&["dir/shop.rcl", "-vg", "--continue", "-t"])) {
        CommandLine::Run(c) => {
            assert_eq!(c.contract_file_name(), "dir/shop.rcl");
            assert_eq!(c.result_file_name(), "dir/shop.result");
            assert_eq!(c.global_log_filename(), "dir/shop.log");
            assert_eq!(c.automaton_file_name(), "dir/shop.dot");
            assert_eq!(c.min_automaton_file_name(), "dir/shop_min.dot");
            assert_eq!(c.decompositions_file_name(), "dir/shop.csv");
            assert_eq!(c.log_level(), LogLevel::Verbose);
            assert!(c.is_export_automaton() && c.is_export_decompositions());
            assert!(c.is_continue_on_conflict() && c.is_test() && c.is_use_prunning());
            assert!(!c.is_export_min_automaton());
        }
        other => panic!("unexpected outcome {:?}", other),
    }
    match parse_command_line(&args(&["shop.rcl", "-n", "-m"])) {
        CommandLine::Run(c) => {
            assert_eq!(c.result_file_name(), "shop.result");
            assert!(!c.is_use_prunning());
            assert!(c.is_export_automaton() && c.is_export_min_automaton());
            assert!(!c.is_export_decompositions() && !c.is_test() && !c.is_continue_on_conflict());
            assert_eq!(c.log_level(), LogLevel::Normal);
        }
        other => panic!("unexpected outcome {:?}", other),
    }
    for words in [&["shop.rcl", "--verbose"][..], &["shop.rcl", "-v"], &["shop.rcl", "-nv"]] {
        assert!(matches!(
            parse_command_line(&args(words)),
            CommandLine::Run(c) if c.log_level() == LogLevel::Verbose
        ));
    }
    assert!(matches!(
        parse_command_line(&args(&["shop.rcl", "--no-prunning", "-c", "-g"])),
        CommandLine::Run(c) if !c.is_use_prunning() && c.is_continue_on_conflict() && c.is_export_decompositions()
    ));
}

#[test]
fn command_lines_without_contract_ask_for_the_usage() {
    assert!(matches!(parse_command_line(&vec![]), CommandLine::Usage(c) if c.contract_file_name() == ""));
    assert!(matches!(parse_command_line(&args(&["-v", "shop.rcl"])), CommandLine::Usage(_)));
    assert!(matches!(parse_command_line(&args(&["--help"])), CommandLine::Usage(_)));
    assert!(matches!(parse_command_line(&args(&["shop.rcl", "-h"])), CommandLine::Help));
    assert!(matches!(parse_command_line(&args(&["shop.rcl", "-v", "--help", "-x"])), CommandLine::Help));
    assert!(matches!(parse_command_line(&args(&["shop.rcl", "-vhx"])), CommandLine::Help));
    let unknown = |words: &[&str]| match parse_command_line(&args(words)) {
        CommandLine::UnknownOption(o) => o,
        other => panic!("unexpected outcome {:?}", other),
    };
    assert_eq!(unknown(&["shop.rcl", "-x"]), "-x");
    assert_eq!(unknown(&["shop.rcl", "-vxh"]), "-x");
    assert_eq!(unknown(&["shop.rcl", "--bogus", "-h"]), "--bogus");
    assert_eq!(unknown(&["shop.rcl", "other.rcl"]), "other.rcl");
    assert_eq!(unknown(&["shop.rcl", "-"]), "-");
    assert_eq!(unknown(&["shop.rcl", "-é"]), "-é");
    assert_eq!(unknown(&["shop.rcl", "--v"]), "--v");
    let usage = print_usage();
    assert!(usage.starts_with("recall - RelativizEd ContrAct Language anaLyser (v1.0)\n\nUSAGE:\n"));
    assert!(usage.contains("    -n, --no-prunning   Don't use the prunning method\n"));
    assert!(usage.ends_with("More information: https://recall-site.github.io/\n"));
    assert_eq!(usage.lines().count(), 23);
}

#[test]
fn states_are_dumped_as_table() {
    let automaton = compensated();
    assert_eq!(
        AutomatonExporter::dump_states(&automaton, &table()),
        "id;clause;situation\n\
         0;{alice,bob}OBLIGATION(pay)_/{alice,bob}OBLIGATION(ship)/_;conflictFree\n\
         1;T;satisfaction\n\
         2;{alice,bob}OBLIGATION(ship);conflictFree\n\
         3;F;violating\n"
    );
    let mut shuffled = Automaton::new(&Contract::new(), &table());
    shuffled.add_state(State::with_auto_id(9, None));
    shuffled.add_state(State::with_auto_id(2, Some(Clause::boolean_true())));
    assert_eq!(
        AutomatonExporter::dump_states(&shuffled, &table()),
        "id;clause;situation\n2;T;notChecked\n9;;notChecked\n"
    );
}

#[test]
fn automata_are_dumped_as_graph_and_text() {
    let automaton = compensated();
    let head = "digraph contract {\nrankdir=LR;\n\
        node [shape = point, color=white, fontcolor=white]; start;\n\
        node [shape = circle, color=black, fontcolor=black, tooltip=\"{alice,bob}OBLIGATION(pay)_/{alice,bob}OBLIGATION(ship)/_\"]; S0 ;\n\
        node [shape = circle, color=black, fontcolor=black, tooltip=\"{alice,bob}OBLIGATION(ship)\"]; S2 ;\n\
        node [shape = circle, color=red, fontcolor=white, style=filled, fillcolor=red, tooltip=\"F\"]; S3 ;\n\
        node [shape = circle, color=green, fontcolor=white, style=filled, fillcolor=green, tooltip=\"T\"]; S1 ;\n\
        start -> S0\n";
    let edges = "\tS0 -> S1 [ label = \"(alice, pay, bob)\" ];\n\
        \tS0 -> S2 [ label = \"(alice, !pay, bob)\" ];\n\
        \tS2 -> S1 [ label = \"(alice, ship, bob)\" ];\n\
        \tS2 -> S3 [ label = \"(alice, !ship, bob)\" ];\n";
    assert_eq!(
        AutomatonExporter::dump_to_dot(&automaton, &table()),
        format!("{}{}}}\n", head, edges)
    );
    assert_eq!(
        AutomatonExporter::dump_to_min_dot(&automaton, &table()),
        format!("{}{}}}\n", head, edges)
    );
    assert_eq!(
        AutomatonExporter::dump_to_text(&automaton, &table()),
        "A:pay;ship\nI:alice;bob\nQ:0;1;2;3\nV:3\nS:1\n\
         T:0-alice?pay?bob-1;0-alice?pay?bob-2;2-alice?ship?bob-1;2-alice?ship?bob-3;\n"
    );
}

#[test]
fn the_small_graph_keeps_the_fullest_transition_between_two_states() {
    let pay = RelativizedAction::new(1, BasicAction::with_value(3), 2);
    let ship = RelativizedAction::new(2, BasicAction::with_value(4), 1);
    let source = Arc::new(vec![pay, ship]);
    let mut automaton = Automaton::new(&Contract::new(), &table());
    let mut conflicting = State::with_auto_id(1, Some(Clause::boolean_true()));
    conflicting.situation = StateSituation::Conflicting;
    automaton.add_state(conflicting);
    automaton.add_state(State::with_auto_id(0, None));
    automaton.add_transition(Transition::new(1, 1, 0, 0b01, source.clone()));
    automaton.add_transition(Transition::new(2, 0, 1, 0, source.clone()));
    automaton.add_transition(Transition::new(3, 1, 0, 0b11, source.clone()));
    automaton.add_transition(Transition::new(4, 1, 0, 0b10, source.clone()));
    automaton.add_transition(Transition::new(5, 0, 0, 0b10, source));
    let nodes = "digraph contract {\nrankdir=LR;\n\
        node [shape = point, color=white, fontcolor=white]; start;\n\
        node [shape = circle, color=black, fontcolor=black, tooltip=\"\"]; S0 ;\n\
        node [shape = circle, color=orange, fontcolor=white, style=filled, fillcolor=orange, tooltip=\"T\"]; S1 ;\n";
    assert_eq!(
        AutomatonExporter::dump_to_min_dot(&automaton, &table()),
        format!(
            "{}\tS0 -> S0 [ label = \"(bob, ship, alice)\" ];\n\
             \tS0 -> S1 [ label = \"ε\" ];\n\
             \tS1 -> S0 [ label = \"(alice, pay, bob), (bob, ship, alice)\" ];\n}}\n",
            nodes
        )
    );
    assert_eq!(AutomatonExporter::format_actions(&vec![], &table()), "ε");
    assert_eq!(
        AutomatonExporter::format_actions(&vec![ship, RelativizedAction::negation(&pay)], &table()),
        "(bob, ship, alice), (alice, !pay, bob)"
    );
}

#[test]
fn the_result_of_a_conflict_free_analysis_is_reported() {
    let automaton = compensated();
    assert_eq!(
        print_result(&automaton, 12, 3, 4, &table()),
        format!(
            "\n{}\n\u{1b}[32m[CONFLICT-FREE] \u{1b}[37mThe analyzed contract is conflict-free.\u{1b}[0m\n\n{}Completed in 12ms\nMax RAM: 3MB\nMax Total Memory: 4MB\n{}",
            RULE, RULE, RULE
        )
    );
    assert_eq!(print_trace(&automaton, &table()), format!("\n{}", RULE));
}

#[test]
fn a_conflict_is_reported_with_the_way_to_it() {
    let both = joined(
        Clause::deontic_directed(1, 2, basic(4), DeonticClauseType::Obligation, None),
        ClauseCompositionType::And,
        Clause::deontic_directed(1, 2, basic(4), DeonticClauseType::Prohibition, None),
    );
    let clause = Clause::dynamic_directed(1, 2, basic(3), both);
    let automaton = analyse(&Contract::with_clauses(vec![clause]));
    assert!(automaton.conflict_found);
    assert_eq!(automaton.states.len(), 3);
    let trace = format!(
        "\n{rule}Conflict found in state (s1)\n\
         Conflict: O(alice,ship,bob) conflicts with [F(alice,ship,bob)]\n\
         {rule}Trace: (s1)<--T1--(s0)\n\
         {rule}Stacktrace: \n\
         {y}(s1){r} - {{alice,bob}}OBLIGATION(ship) AND {{alice,bob}}PROHIBITION(ship)\n\
         {red}<T1> - {b}[(alice, pay, bob)]{r}\n\
         {y}(s0){r} - {{alice,bob}}[pay]({{alice,bob}}OBLIGATION(ship) AND {{alice,bob}}PROHIBITION(ship))\n\
         {rule}",
        rule = RULE,
        y = "\u{1b}[33m",
        r = "\u{1b}[0m",
        red = "\u{1b}[31m",
        b = "\u{1b}[34m"
    );
    assert_eq!(print_trace(&automaton, &table()), trace);
    assert_eq!(
        print_result(&automaton, 0, 0, 0, &table()),
        format!(
            "\n{rule}\n\u{1b}[31m[CONFLICT] \u{1b}[37mA conflict was found in the analyzed contract.\u{1b}[0m\n{trace}\n{rule}Completed in 0ms\nMax RAM: 0MB\nMax Total Memory: 0MB\n{rule}",
            rule = RULE,
            trace = trace
        )
    );
}

#[test]
fn output_files_are_named_after_the_contract_file() {
    let names = output_names(Some("shop".to_string()), Some("dir/sub".to_string()));
    assert_eq!(names.directory, "dir/sub");
    assert_eq!(names.result, "shop.result");
    assert_eq!(names.log, "shop.log");
    assert_eq!(names.automaton, "shop.dot");
    assert_eq!(names.min_automaton, "shop_min.dot");
    assert_eq!(names.decompositions, "shop.csv");
    let bare = output_names(None, None);
    assert_eq!(bare.directory, "");
    assert_eq!(bare.result, "contract.result");
    assert_eq!(bare.log, "contract.log");
    assert_eq!(bare.automaton, "contract.dot");
    assert_eq!(bare.min_automaton, "contract_min.dot");
    assert_eq!(bare.decompositions, "contract.csv");
}
