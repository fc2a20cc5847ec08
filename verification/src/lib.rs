//! Analysis of contracts in a relativized contract language: obligations, permissions
//! and prohibitions of individuals over actions, and clauses that come into force
//! after actions.
//!
//! From a contract the analysis builds an automaton. Its states are the clauses that
//! remain to be fulfilled, its transitions the sets of relativized actions that may be
//! performed together. On the way it looks for normative conflicts: deontic statements
//! that ask incompatible things of the same individuals.
//!
//! - [`model`] holds actions, clauses, contracts and automata.
//! - [`algorithms`] holds the rewriting of composed actions and the residual of a
//!   clause after a step, the extraction of relativized actions, the search for
//!   conflicts, the construction of the automaton, and the records of an analysis.
//! - [`parser`] builds contracts from parse trees.
//! - [`utils`] holds the symbol table, the enumeration of concurrent actions, the
//!   command line, exports and reports.

pub mod algorithms;
pub mod model;
pub mod parser;
pub mod utils;

pub use algorithms::action_extractor::ActionExtractor;
pub use algorithms::automata_constructor::AutomataConstructor;
pub use algorithms::clause_decomposer::ClauseDecomposer;
pub use algorithms::conflict_searcher::ConflictSearcher;
pub use algorithms::records::{analysis_records, LogRecord};
pub use model::actions::{
    Action, ActionOperator, ActionTrait, BasicAction, ComposedAction, RelativizedAction,
};
pub use model::automata::{
    Automaton, ConflictInformation, DeonticTag, State, StateSituation, StateUpdate, Transition,
};
pub use model::contracts::{
    Clause, ClauseComposition, ClauseCompositionType, Conflict, ConflictType, Contract,
    DeonticClauseType, RelativizationType,
};
pub use utils::concurrency::{AnalysisError, CompressedConcurrentActions, ContractUtil};
pub use utils::config::{LogLevel, LogType, RunConfiguration};
pub use utils::symbols::{Symbol, SymbolTable, SymbolType};
pub use utils::cli::{parse_command_line, parse_options, print_usage, CommandLine};
pub use utils::export::AutomatonExporter;
pub use utils::logging::{strip_ansi_codes, LogRoute};
pub use utils::report::{print_result, print_trace, ConsoleColors};
pub use parser::ast_builder::{build_ast, AstError, ParsePair};
