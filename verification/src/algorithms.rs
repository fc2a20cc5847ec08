pub mod action_extractor;
pub mod automata_constructor;
pub mod clause_decomposer;
pub mod conflict_searcher;
pub mod firing;
pub mod normal_form;
pub mod records;
