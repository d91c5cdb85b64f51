//! Reformatting of PHP docblock comments.
pub mod layout;
pub mod line_shape;
pub mod model;
pub mod null_order;
pub mod parts;
pub mod properties;
pub mod reformat;
pub mod types;
