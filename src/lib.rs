pub mod location;
pub mod name;
pub mod mir;
pub mod hir;
pub mod error;
pub mod availability;
pub mod signals;
pub mod stages;
pub mod substitution;
pub mod pipelines;
pub mod liveness;
pub mod lexer;
pub mod ast;
pub mod resolved;
pub mod parse_error;
pub mod constraints;
pub mod unification;
pub mod items;
pub mod text;
pub mod render;
