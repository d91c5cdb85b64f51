//! The rules, one module each.
pub mod global_namespace_import;
pub mod line_length_limit;
pub mod no_alternative_syntax;
pub mod no_break_comment;
pub mod no_null_property_init;
pub mod no_unneeded_import_alias;
pub mod no_unused_closure_import;
pub mod prefer_pre_increment;
pub mod switch_continue_to_break;
pub mod yoda_conditions;
