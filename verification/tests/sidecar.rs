use recall::utils::metrics::get_automaton_data;
use recall::utils::sidecar::{
    batch_error, batch_header, batch_row, failure, is_contract_file, is_forwarded, lines,
    mode_arguments, remove_all, result_csv, sanitize, starts_with, summary, trim,
};
use recall::utils::text::chars_of;
use recall::utils::watchdog::{
    bounded_limit, exceeded_message, limit_exceeded, peak_summary, share_percent, total_memory,
};
use recall::{
    parse_options, Action, AutomataConstructor, BasicAction, Clause, ClauseComposition,
    ClauseCompositionType, CommandLine, Contract, DeonticClauseType, LogLevel, RunConfiguration,
    SymbolTable,
};

#[test]
fn texts_are_trimmed_and_split_into_lines() {
    assert_eq!(trim("  a b \t\n"), "a b");
    assert_eq!(trim("\u{a0}x\u{2003}"), "x");
    assert_eq!(trim(" \n "), "");
    assert_eq!(trim(""), "");
    assert_eq!(trim("x"), "x");
    assert_eq!(lines("a\nb\r\n\nc"), vec!["a", "b", "", "c"]);
    assert_eq!(lines("a\n"), vec!["a"]);
    assert_eq!(lines("\n"), vec![""]);
    assert_eq!(lines(""), Vec::<String>::new());
    assert_eq!(lines("a\rb\r"), vec!["a\rb\r"]);
    assert_eq!(lines("\r\n\r\r\n"), vec!["", "\r"]);
    assert!(starts_with(&chars_of("RESULT"), &chars_of("RES")));
    assert!(starts_with(&chars_of("RES"), &chars_of("")));
    assert!(!starts_with(&chars_of("RES"), &chars_of("RESULT")));
    assert!(!starts_with(&chars_of("xRES"), &chars_of("RES")));
    assert_eq!(remove_all("abcabcab", "abc"), "ab");
    assert_eq!(remove_all("aaa", "aa"), "a");
    assert_eq!(remove_all("abc", ""), "abc");
    assert_eq!(remove_all("abc", "abcd"), "abc");
    assert_eq!(sanitize("a;b\nc,d"), "a,b c,d");
}

#[test]
fn the_metrics_line_is_found_among_the_output() {
    let stdout = "Loaded\n  RESULT_CSV:12;4;4;2;2;0;0;0.01;3.00;success  \nRESULT_CSV:other\n";
    assert_eq!(result_csv(stdout), "12;4;4;2;2;0;0;0.01;3.00;success");
    assert_eq!(result_csv("x RESULT_CSV:1\n"), "");
    assert_eq!(result_csv(""), "");
    assert_eq!(result_csv("RESULT_CSV:RESULT_CSV:1"), "1");
}

#[test]
fn batch_rows_hold_metrics_or_the_error() {
    let ok = "RESULT_CSV:12;4;4;2;2;0;0;0.01;3.00;success\n";
    assert_eq!(
        batch_row("shop.rcl", true, ok, "warning", 15, Some(0)),
        "shop.rcl;12;4;4;2;2;0;0;0.01;3.00;success\n"
    );
    assert_eq!(
        batch_row("shop.rcl", false, ok, " out of memory;\nstopped ", 15, Some(137)),
        "shop.rcl;15;-;-;-;-;-;-;-;-;out of memory, stopped (Exit 137)\n"
    );
    assert_eq!(
        batch_row("shop.rcl", true, "nothing\n  CRITICAL: too many actions \n", "  ", 7, None),
        "shop.rcl;7;-;-;-;-;-;-;-;-;CRITICAL: too many actions (Exit -1)\n"
    );
    assert_eq!(
        batch_row("shop.rcl", true, "", "", 0, Some(-3)),
        "shop.rcl;0;-;-;-;-;-;-;-;-;Unknown error (Exit -3)\n"
    );
    assert_eq!(batch_error("", "a\nb"), "Unknown error");
    assert_eq!(batch_error(" bad ", "CRITICAL: x"), "bad");
    assert_eq!(
        batch_header(),
        "file;time_ms;states;transitions;individuals;actions;conflicting;conflict_count;automaton_size_mb;max_memory_mb;obs\n"
    );
}

#[test]
fn the_summary_is_what_stands_between_the_marks() {
    let stdout = "Memory guard active:\nFINAL_SUMMARY_START\n\n  first\nsecond  \nFINAL_SUMMARY_END\nAnalysis completed.\nFINAL_SUMMARY_START\nthird\n";
    assert_eq!(summary(stdout), "first\nsecond  \nthird");
    let unmarked = "  one\nRESULT_CSV:1;2\nAnalysis completed.\n RESULT_CSV:kept\ntwo\n\n";
    assert_eq!(summary(unmarked), "one\n RESULT_CSV:kept\ntwo");
    assert_eq!(summary("FINAL_SUMMARY_START\nFINAL_SUMMARY_END\nplain\n"), "plain");
    assert_eq!(summary(" FINAL_SUMMARY_START\nx\n"), "FINAL_SUMMARY_START\nx");
    assert_eq!(summary(""), "");
    assert!(is_forwarded("Loaded"));
    assert!(!is_forwarded("  FINAL_SUMMARY_START \n"));
    assert!(!is_forwarded("FINAL_SUMMARY_END"));
    assert!(is_forwarded("FINAL_SUMMARY_END."));
}

#[test]
fn failures_name_the_error_the_critical_line_or_the_exit_code() {
    assert_eq!(failure(" broken pipe\n", "CRITICAL: x", Some(1)), "broken pipe");
    assert_eq!(failure("", "fine\n  CRITICAL: Memory usage exceeded! \n", Some(137)), "CRITICAL: Memory usage exceeded!");
    assert_eq!(failure(" ", "fine", Some(101)), "Analysis failed with exit code Some(101)");
    assert_eq!(failure("", "", Some(-1)), "Analysis failed with exit code Some(-1)");
    assert_eq!(failure("", "", None), "Analysis failed with exit code None");
}

#[test]
fn modes_of_the_desktop_become_options() {
    assert_eq!(mode_arguments("a.rcl".to_string(), "Verbose"), vec!["a.rcl", "-v"]);
    assert_eq!(mode_arguments("a.rcl".to_string(), "Test"), vec!["a.rcl", "-t"]);
    assert_eq!(mode_arguments("a.rcl".to_string(), "Normal"), vec!["a.rcl"]);
    assert_eq!(mode_arguments("a.rcl".to_string(), "verbose"), vec!["a.rcl"]);
    assert!(is_contract_file(Some("rcl")));
    assert!(!is_contract_file(Some("RCL")));
    assert!(!is_contract_file(Some("txt")));
    assert!(!is_contract_file(None));
}

#[test]
fn the_watchdog_counts_the_larger_of_footprint_and_resident_memory() {
    assert_eq!(total_memory(100, 0), 100);
    assert_eq!(total_memory(100, 250), 250);
    assert_eq!(total_memory(100, 50), 100);
    assert!(limit_exceeded(11, 10));
    assert!(!limit_exceeded(10, 10));
    assert_eq!(
        exceeded_message(90, 120, 100, 4321),
        "CRITICAL: Memory usage exceeded! RAM: 90MB, Total Memory: 120MB (Limit: 100MB) - Execution Time: 4321ms"
    );
    assert_eq!(
        peak_summary(4321, 90, 120),
        "\n-------------------------------------------------------\nCompleted in 4321ms\nMax RAM: 90MB\nMax Total Memory: 120MB\n-------------------------------------------------------\n"
    );
}

#[test]
fn the_metrics_of_an_analysis_are_written_in_one_line() {
    let mut table = SymbolTable::new();
    table.add_symbol("alice".to_string(), recall::SymbolType::Individual);
    let basic = |id: i32| Action::Basic(BasicAction::with_value(id));
    let mut both = Clause::deontic_directed(1, 2, basic(4), DeonticClauseType::Obligation, None);
    both.set_composition(ClauseComposition::new(
        ClauseCompositionType::And,
        Clause::deontic_directed(1, 2, basic(4), DeonticClauseType::Prohibition, None),
    ));
    let contract = Contract::with_clauses(vec![Clause::dynamic_directed(1, 2, basic(3), both)]);
    let mut constructor = AutomataConstructor::new(RunConfiguration::new());
    let automaton = constructor.process(&contract, &table).expect("the analysis succeeds");
    assert_eq!(
        get_automaton_data(25, 7, &automaton, &contract, 1536 * 1024),
        "25;3;2;2;2;1;1;1.50;7.00;success"
    );
    assert_eq!(
        get_automaton_data(0, 0, &automaton, &contract, 5243),
        "0;3;2;2;2;1;1;0.01;0.00;success"
    );
    assert_eq!(
        get_automaton_data(0, 0, &automaton, &contract, 5242),
        "0;3;2;2;2;1;1;0.00;0.00;success"
    );
    let empty = Contract::new();
    let none = constructor.process(&empty, &table).expect("nothing is to be analysed");
    assert_eq!(get_automaton_data(1, 2, &none, &empty, 0), "1;0;0;0;0;0;0;0.00;2.00;success");
}

#[test]
fn options_are_read_on_top_of_a_configuration() {
    let mut start = RunConfiguration::new();
    start.set_contract_file_name("kept.rcl".to_string());
    start.set_log_level(LogLevel::Verbose);
    let words: Vec<String> = ["ignored", "-t", "-c"].iter().map(|w| w.to_string()).collect();
    match parse_options(start, &words) {
        CommandLine::Run(c) => {
            assert_eq!(c.contract_file_name(), "kept.rcl");
            assert_eq!(c.log_level(), LogLevel::Verbose);
            assert!(c.is_test() && c.is_continue_on_conflict() && c.is_use_prunning());
        }
        other => panic!("unexpected outcome {:?}", other),
    }
    assert!(matches!(parse_options(RunConfiguration::new(), &vec![]), CommandLine::Run(_)));
}

#[test]
fn the_share_of_the_memory_grows_with_the_memory() {
    assert_eq!(share_percent(0), 85);
    assert_eq!(share_percent(16 * 1024 - 1), 85);
    assert_eq!(share_percent(16 * 1024), 90);
    assert_eq!(share_percent(32 * 1024 - 1), 90);
    assert_eq!(share_percent(32 * 1024), 95);
    assert_eq!(share_percent(u64::MAX), 95);
}

#[test]
fn the_limit_leaves_room_for_the_system() {
    assert_eq!(bounded_limit(8192, 6963), 6144);
    assert_eq!(bounded_limit(65536, 62259), 62259);
    assert_eq!(bounded_limit(4097, 3482), 2049);
    assert_eq!(bounded_limit(4096, 3481), 3481);
    assert_eq!(bounded_limit(1000, 850), 1024);
    assert_eq!(bounded_limit(0, 0), 1024);
}
