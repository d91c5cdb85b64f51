//! PHP lint rules: what each rule decides about the nodes it is given.
pub mod ast;
pub mod meta;
pub mod report;
pub mod rules;
