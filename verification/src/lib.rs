//! Decoder for the TES5 plugin container format: one plugin-header record
//! followed by nested groups that hold world and cell records. The decoder
//! walks the byte stream by declared sizes, inflates compressed cell
//! payloads, and extracts typed fields into plain data structures.
pub mod model;
pub mod prim;
pub mod codecs;
pub mod headers;
pub mod fields;
pub mod walk;
pub mod decode;

pub use decode::parse_plugin;
pub use model::{Cell, DecodeError, Plugin, PluginHeader, UnparsedCell, World};
