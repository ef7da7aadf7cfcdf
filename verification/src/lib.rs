//! A decode engine that projects a dynamic, self-describing document value
//! onto statically described target shapes.
//!
//! The target declares which shapes it accepts; the engine supplies whichever
//! shape the value actually has, or fails with a structured error. Two
//! traversals exist: one that consumes the value ([`de`]) and one that only
//! reads it ([`de_ref`]). Both are proved to compute the same mathematical
//! function, [`model::decode_model`].
//!
//! - [`value`] holds the document model, [`shape`] what a target can ask
//!   for, [`decoded`] what it receives and [`error`] how a decode fails.
//! - [`key`] classifies and decodes object keys; [`parse`] reads decimal
//!   integers; [`number`] narrows numeric literals.
//! - [`laws`] and [`roundtrip`] state what holds of every decode.
//! - [`message`] renders an error for display; [`text`] and [`walk`] hold
//!   small helpers.

pub mod de;
pub mod de_ref;
pub mod decoded;
pub mod error;
pub mod key;
pub mod laws;
pub mod message;
pub mod model;
pub mod number;
pub mod parse;
pub mod roundtrip;
pub mod shape;
pub mod text;
pub mod value;
pub mod walk;
