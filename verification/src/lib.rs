//! A generator of protocol bindings from a JSON-Schema document: the schema's
//! definitions are translated into a small intermediate representation, from
//! which data types, request bindings and event bindings are emitted as text.

pub mod bindings;
pub mod casing;
pub mod data_types;
pub mod emit;
pub mod error;
pub mod event_markers;
pub mod generate;
pub mod invariants;
pub mod ir;
pub mod json;
pub mod names;
pub mod table;
pub mod text;
pub mod translate;
pub mod writer;
