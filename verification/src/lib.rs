//! A parser for type expressions such as `List[Integer]` or
//! `Map[Text, Integer | None]`.
//!
//! The grammar is matched by recursive descent over the bytes of the input.
//! A successful match gives a parse tree whose nodes carry their production
//! and their span; the tree is then reduced to a `TypeExpr`. A failed match
//! gives the offset it stopped at together with the productions that could
//! have continued there, which `translate` turns into a `Diagnostic`.
//!
//! - `grammar`: the productions, the byte classes, the set of productions
//!   that a failure reports
//! - `tree`: parse trees and what it means for one to be well built
//! - `syntax`: what matching a production gives, as functions of the input
//! - `derivation`: the grammar as a relation between a tree and the input
//! - `engine`: the matching itself, `AxisParser`
//! - `complete`: every derivation is found by matching
//! - `ast`: type expressions and the reduction of a tree to one
//! - `diagnostic`: failures told as line, column and expected productions
//! - `report`: the long form of a diagnostic, written by pest
//! - `entry`: `parse_type_expr`
//! - `laws`: what holds of parsing whatever the input

pub mod grammar;
pub mod tree;
pub mod syntax;
pub mod derivation;
pub mod engine;
pub mod ast;
pub mod diagnostic;
pub mod report;
pub mod entry;
pub mod laws;
pub mod complete;

pub use engine::AxisParser;
pub use entry::parse_type_expr;
