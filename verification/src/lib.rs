//! Decoding of recorded robotics messages: a parser for textual message
//! definitions, a registry of the types a definition declares, and a decoder
//! that turns a little-endian payload into a tree of field values.

pub mod decoder;
pub mod encoding;
pub mod guarantees;
pub mod layout;
pub mod message_parser;
pub mod message_parsing;
pub mod message_size;
pub mod records;
pub mod registry;
pub mod schema;
pub mod text;
pub mod value;
