//! The typed syntax tree: the value model, the pattern-action function
//! catalogue, and the statement and expression model.

pub mod front_matter_type;
pub mod pattern_action_fun;
pub mod shire_expression;
