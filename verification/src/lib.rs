//! A framework for describing binary protocols as ordered lists of typed
//! fields, dissecting bytes into layered packets and building them back.
//!
//! The value model is in `types`, the byte codecs in `wire` and `integer`,
//! the field types in `fields`, and packet classes, their registry, packet
//! instances and the binding rules in `packet`.

pub mod error;
pub mod fields;
pub mod integer;
pub mod namemap;
pub mod packet;
pub mod structs;
pub mod text;
pub mod types;
pub mod utils;
pub mod wire;
