//! A GraphQL validation rule that limits how many aliased fields one
//! operation may hold, together with the small document scanner that feeds it.

pub mod position;
pub mod validation;
pub mod visitor;
pub mod limit_number_of_aliases;
pub mod alias_laws;
pub mod lexer;
pub mod document;
pub mod text;
pub mod value;
pub mod scalar_token;
pub mod datetime;
pub mod scalars;
pub mod split_laws;
