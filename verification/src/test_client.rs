//! The exercising converter: the byte-sequence pair with deliberate
//! reported failures, used to walk a host through the recoverable error
//! path.  Empty input is refused on presenting; unparsable text is refused
//! on storing.

use vstd::prelude::*;
use crate::byte_sequence::{csv_of_bytes, lemma_csv_round_trip, parse_csv_text, spec_csv, spec_parse_csv};
use crate::guest::GalaxyFormat;

verus! {

/// The converter that dislikes empty input.
pub struct TestClientFormat;

impl GalaxyFormat for TestClientFormat {
    open spec fn spec_present(bytes: Seq<u8>) -> Result<Seq<char>, Seq<char>> {
        if bytes.len() == 0 {
            Err("I don't like empty Strings!"@)
        } else {
            Ok(spec_csv(bytes))
        }
    }

    open spec fn spec_store(text: Seq<char>) -> Result<Seq<u8>, Seq<char>> {
        match spec_parse_csv(text) {
            Some(b) => Ok(b),
            None => Err("I don't store this!"@),
        }
    }

    fn present(bytes: &[u8]) -> (r: Result<String, String>) {
        if bytes.len() == 0 {
            Err("I don't like empty Strings!".to_owned())
        } else {
            Ok(csv_of_bytes(bytes))
        }
    }

    fn store(s: &str) -> (r: Result<Vec<u8>, String>) {
        match parse_csv_text(s) {
            Some(v) => Ok(v),
            None => Err("I don't store this!".to_owned()),
        }
    }
}


/// This converter's own round trip: storing what it presents gives the
/// bytes back, for every input it presents at all — it refuses the empty
/// sequence outright.
pub proof fn lemma_test_client_round_trip(b: Seq<u8>)
    requires
        b.len() >= 1,
    ensures
        TestClientFormat::spec_present(b) matches Ok(t) && TestClientFormat::spec_store(t)
            == Ok::<Seq<u8>, Seq<char>>(b),
{
    lemma_csv_round_trip(b);
}

} // verus!
