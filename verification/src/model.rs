pub mod actions;
pub mod automata;
pub mod contracts;
