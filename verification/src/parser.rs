pub mod ast_builder;
