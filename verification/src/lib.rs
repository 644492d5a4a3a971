//! Schemaless protobuf wire-format inspector.
//!
//! Decodes an arbitrary byte buffer as if it were a protobuf message, with no
//! schema available, and renders an indentable, filterable tree of the fields
//! it finds.  Length-delimited payloads are disambiguated between "opaque
//! bytes" and "embedded message" purely by attempting a nested decode.

pub mod varint;
pub mod wire;
pub mod parse;
pub mod laws;
pub mod select_query;
pub mod indent;
pub mod numfmt;
pub mod wire_type_2;
pub mod color;
pub mod render;
