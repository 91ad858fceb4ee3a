//! Verified core of a pluggable file-format editor.
//!
//! An opaque binary file is round-tripped through a human-editable textual
//! presentation by a sandboxed wasm plugin chosen from a catalog.  This crate
//! holds the parts worth proving: the container codec binding a payload to a
//! format identifier, the catalog model and its lookups, the plugin ABI and
//! the host driver that marshals calls across it, a verified model guest, the
//! converter-selection protocol, and the content-addressed cache keys.
//! Engine bindings, file I/O and the interactive menus live outside, in the
//! application around this library.

pub mod abi;
pub mod byte_sequence;
pub mod cache;
pub mod catalog;
pub mod container;
pub mod driver;
pub mod errors;
pub mod guest;
pub mod indent;
pub mod json_like_indent;
pub mod mock;
pub mod parse;
pub mod pretty;
pub mod selection;
pub mod strutil;
pub mod test_client;
pub mod tokenizer;
pub mod value;
pub mod wasm_text;
