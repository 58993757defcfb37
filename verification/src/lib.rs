//! The addressing and value core of an interpreter for branching stories.
//!
//! A story is a tree of content containers ([`tree`]). A [`pointer::Pointer`] is a cursor
//! into that tree that owns nothing and may outlive what it points at. A [`value::Value`]
//! is what expressions of the story evaluate to, with its rules of truth and conversion;
//! [`decimal`] and [`float`] hold the arithmetic that those conversions rest on.

pub mod decimal;
pub mod float;
pub mod list;
pub mod path;
pub mod pointer;
pub mod tree;
pub mod try_as_ref;
pub mod value;
