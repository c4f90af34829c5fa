//! Core of the Shire action language: the typed syntax tree, the
//! recursive-descent parser for Shire source files, and the expression
//! evaluator that executors run over a variable scope.

pub mod ast;
pub mod bridge;
pub mod file_run_service;
pub mod numbers;
pub mod parser;
pub mod render;
pub mod text;
pub mod value_text;
