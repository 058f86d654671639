//! The description of a message protocol: primitive and composite types,
//! their definitions as read from a protocol document, and their resolution
//! into laid-out types.
pub mod primitive;
pub mod resolved;
pub mod text;
pub mod types;
pub mod error;
pub mod table;
pub mod definitions;
pub mod xml;
pub mod parse;
