//! Verified core of a PHP formatter's docblock rewriting and of a set of
//! PHP lint rules.
pub mod comment;
pub mod docblock;
pub mod lint;
pub mod text;
