//! The JSON-like converter over the indentation-structured form: binary
//! values in, indented text out, and back.

use vstd::prelude::*;
use crate::guest::GalaxyFormat;
use crate::pretty::{lemma_deser_depth, spec_print2};
use crate::value::{spec_deser, spec_serialize, Value, VModel};

verus! {

/// The JSON-like indentation converter.
pub struct JsonLikeIndentFormat;

impl JsonLikeIndentFormat {
    /// Present binary value bytes as indented text.  Exactly the decoded
    /// value's rendering comes back; bytes that do not decode are refused
    /// with the decoding failure's message.
    pub fn present(bytes: &[u8]) -> (r: Result<String, String>)
        ensures
            match spec_deser(bytes@) {
                Some((m, _rest)) => r matches Ok(s) && s@ == spec_print2(m, 0),
                None => r is Err,
            },
    {
        match Value::deserialize(bytes) {
            Ok(v) => {
                let n = bytes.len();
                proof {
                    lemma_deser_depth(bytes@);
                    assert(n == bytes@.len());
                }
                Ok(v.pretty_print_2())
            },
            Err(e) => Err(e.message()),
        }
    }

    /// Store edited indented text back into binary value bytes.  Whatever
    /// comes back is the binary form of some value.
    pub fn store(s: &str) -> (r: Result<Vec<u8>, String>)
        ensures
            r matches Ok(b) ==> exists|m: VModel| b@ == spec_serialize(m),
    {
        match Value::parse_indented(s) {
            Ok(v) => {
                let b = v.serialize();
                proof {
                    assert(b@ == spec_serialize(v.dview()));
                }
                Ok(b)
            },
            Err(e) => Err(e),
        }
    }
}

} // verus!
