//! The wasm-text converter: a wasm binary is presented as its textual
//! form, and such text is assembled back into a binary.  Both directions
//! are the work of outside crates; each is trusted under a name for its
//! result, and the converter's own contract is exact in those names.

use vstd::prelude::*;
use crate::guest::GalaxyFormat;

verus! {

/// What printing a wasm binary yields: the module's text, or the printer's
/// message on malformed input.  A function of the bytes alone.
pub uninterp spec fn wat_print(b: Seq<u8>) -> Result<Seq<char>, Seq<char>>;

/// What assembling wasm text yields: the module's binary encoding, or a
/// message naming the parse failure.  A function of the text alone.
pub uninterp spec fn wat_parse(t: Seq<char>) -> Result<Seq<u8>, Seq<char>>;

/// Relies on wasmprinter's `print_bytes`: it renders an in-memory wasm
/// binary into its textual representation, a deterministic function of the
/// bytes, and reports malformed input as an error value.
#[verifier::external_body]
fn wasmprinter_print(b: &[u8]) -> (r: Result<String, String>)
    ensures
        match (r, wat_print(b@)) {
            (Ok(s), Ok(t)) => s@ == t,
            (Err(e), Err(t)) => e@ == t,
            _ => false,
        },
{
    match wasmprinter::print_bytes(b) {
        Ok(s) => Ok(s),
        Err(e) => Err(e.to_string()),
    }
}

/// Relies on wat's `parse_str`: it assembles wasm text into the binary
/// encoding, a deterministic function of the text, and reports a parse
/// failure as an error value.
#[verifier::external_body]
fn wat_parse_text(s: &str) -> (r: Result<Vec<u8>, String>)
    ensures
        match (r, wat_parse(s@)) {
            (Ok(v), Ok(t)) => v@ == t,
            (Err(e), Err(t)) => e@ == t,
            _ => false,
        },
{
    match wat::parse_str(s) {
        Ok(v) => Ok(v),
        Err(e) => Err(format!("This didn't work: {}", e)),
    }
}

/// The wasm-text converter.
pub struct WasmTextFormat;

impl GalaxyFormat for WasmTextFormat {
    open spec fn spec_present(bytes: Seq<u8>) -> Result<Seq<char>, Seq<char>> {
        wat_print(bytes)
    }

    open spec fn spec_store(text: Seq<char>) -> Result<Seq<u8>, Seq<char>> {
        wat_parse(text)
    }

    fn present(bytes: &[u8]) -> (r: Result<String, String>) {
        wasmprinter_print(bytes)
    }

    fn store(s: &str) -> (r: Result<Vec<u8>, String>) {
        wat_parse_text(s)
    }
}

} // verus!
