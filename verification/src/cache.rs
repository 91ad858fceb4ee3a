//! Content-addressed cache keys for compiled plugin modules.
//!
//! The key of a module is the hash of its raw wasm bytes: equal bytes give
//! equal keys in every process, so a compiled artifact written under its
//! key can be found again by anyone holding the same source.  The cache is
//! never a source of correctness, only of latency; what this module pins
//! down is that the key is a function of the bytes alone and where the
//! artifact lives.

use vstd::prelude::*;
use crate::strutil::str_concat;

verus! {

/// The hash of a byte sequence, in lowercase hexadecimal: a function of
/// the bytes alone, in every process and on every machine.
pub uninterp spec fn blake3_hex(b: Seq<u8>) -> Seq<char>;

/// A lowercase hexadecimal digit.
pub open spec fn is_hex_char(c: char) -> bool {
    (0x30 <= c as u32 <= 0x39) || (0x61 <= c as u32 <= 0x66)
}

/// Relies on blake3's `hash` and `Hash::to_hex`: a 32-byte digest of the
/// input alone, rendered as 64 lowercase hexadecimal characters.
#[verifier::external_body]
fn blake3_hash_hex(b: &[u8]) -> (r: String)
    ensures
        r@ == blake3_hex(b@),
        r@.len() == 64,
        forall|i: int| 0 <= i < 64 ==> is_hex_char(#[trigger] r@[i]),
{
    blake3::hash(b).to_hex().as_str().to_owned()
}

/// The cache key of a module: the hash of its raw wasm bytes.
pub fn module_cache_key(bytes: &[u8]) -> (r: String)
    ensures
        r@ == blake3_hex(bytes@),
        r@.len() == 64,
        forall|i: int| 0 <= i < 64 ==> is_hex_char(#[trigger] r@[i]),
{
    blake3_hash_hex(bytes)
}

/// Where a pre-compiled artifact lives, relative to the cache root.
pub fn compiled_cache_path(key: &str) -> (r: String)
    ensures
        r@ == "cache/compiled/"@ + key@,
{
    str_concat("cache/compiled/", key)
}

/// The file name a plugin's source blob is resolved from, by its hash.
pub fn plugin_blob_name(key: &str) -> (r: String)
    ensures
        r@ == key@ + ".wasm"@,
{
    str_concat(key, ".wasm")
}

} // verus!
