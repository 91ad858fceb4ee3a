//! The container codec: `MAGIC ‖ format id (u64 LE) ‖ payload`, and the
//! classification of input bytes into tagged and untagged files.

use vstd::prelude::*;
use vstd::bytes::{spec_u64_from_le_bytes, spec_u64_to_le_bytes, u64_from_le_bytes, u64_to_le_bytes};
use vstd::slice::{slice_subrange, slice_to_vec};
use crate::catalog::FormatId;
use crate::errors::HostError;

verus! {

/// The eight magic bytes `FMTGALv1` that open every container file.
pub open spec fn magic() -> Seq<u8> {
    seq![0x46u8, 0x4du8, 0x54u8, 0x47u8, 0x41u8, 0x4cu8, 0x76u8, 0x31u8]
}

/// A container envelope: magic, the format id in little-endian, the payload.
pub open spec fn spec_encode_container(id: u64, payload: Seq<u8>) -> Seq<u8> {
    magic() + spec_u64_to_le_bytes(id) + payload
}

/// Bytes that decode: long enough for magic and id, and opened by the magic.
pub open spec fn container_well_formed(bytes: Seq<u8>) -> bool {
    bytes.len() >= 16 && bytes.subrange(0, 8) == magic()
}

/// What a well-formed container holds: the format id and the payload.
pub open spec fn spec_decode_container(bytes: Seq<u8>) -> (u64, Seq<u8>)
    recommends
        container_well_formed(bytes),
{
    (spec_u64_from_le_bytes(bytes.subrange(8, 16)), bytes.skip(16))
}

/// Decoding inverts encoding, for every id and payload.
pub proof fn lemma_container_round_trip(id: u64, payload: Seq<u8>)
    ensures
        container_well_formed(spec_encode_container(id, payload)),
        spec_decode_container(spec_encode_container(id, payload)).0 == id,
        spec_decode_container(spec_encode_container(id, payload)).1 == payload,
{
    vstd::bytes::lemma_auto_spec_u64_to_from_le_bytes();
    let e = spec_encode_container(id, payload);
    assert(e.subrange(0, 8) =~= magic());
    assert(e.subrange(8, 16) =~= spec_u64_to_le_bytes(id));
    assert(e.skip(16) =~= payload);
}

/// Encoding inverts decoding: re-encoding what was decoded from a
/// well-formed container gives the original bytes back, bit for bit.
pub proof fn lemma_container_round_trip_bytes(bytes: Seq<u8>)
    requires
        container_well_formed(bytes),
    ensures
        spec_encode_container(
            spec_decode_container(bytes).0,
            spec_decode_container(bytes).1,
        ) == bytes,
{
    vstd::bytes::lemma_auto_spec_u64_to_from_le_bytes();
    let (id, payload) = spec_decode_container(bytes);
    assert(spec_u64_to_le_bytes(spec_u64_from_le_bytes(bytes.subrange(8, 16)))
        == bytes.subrange(8, 16));
    assert(spec_encode_container(id, payload) =~= bytes);
}

/// The magic as bytes.
pub fn magic_bytes() -> (r: Vec<u8>)
    ensures
        r@ == magic(),
{
    let mut v: Vec<u8> = Vec::new();
    v.push(0x46);
    v.push(0x4d);
    v.push(0x54);
    v.push(0x47);
    v.push(0x41);
    v.push(0x4c);
    v.push(0x76);
    v.push(0x31);
    proof {
        assert(v@ =~= magic());
    }
    v
}

/// Wrap a payload for a format.  Encoding is total.
pub fn encode_container(id: FormatId, payload: &[u8]) -> (r: Vec<u8>)
    ensures
        r@ == spec_encode_container(id.0, payload@),
{
    let mut out = magic_bytes();
    let mut le = u64_to_le_bytes(id.0);
    out.append(&mut le);
    let mut rest = slice_to_vec(payload);
    out.append(&mut rest);
    proof {
        assert(out@ =~= spec_encode_container(id.0, payload@));
    }
    out
}

/// Unwrap a container; reject anything not opened by the magic or too short
/// to hold magic and format id.
pub fn decode_container(bytes: &[u8]) -> (r: Result<(FormatId, Vec<u8>), HostError>)
    ensures
        container_well_formed(bytes@) ==> (r matches Ok(p)
            && p.0.0 == spec_decode_container(bytes@).0
            && p.1@ == spec_decode_container(bytes@).1),
        !container_well_formed(bytes@) ==> r == Err::<(FormatId, Vec<u8>), HostError>(
            HostError::MalformedContainer,
        ),
{
    if bytes.len() < 16 {
        return Err(HostError::MalformedContainer);
    }
    let m = magic_bytes();
    let mut i: usize = 0;
    while i < 8
        invariant
            bytes@.len() >= 16,
            m@ == magic(),
            0 <= i <= 8,
            forall|j: int| 0 <= j < i ==> bytes@[j] == magic()[j],
        decreases 8 - i,
    {
        if bytes[i] != m[i] {
            proof {
                assert(bytes@.subrange(0, 8)[i as int] != magic()[i as int]);
            }
            return Err(HostError::MalformedContainer);
        }
        i += 1;
    }
    proof {
        assert(bytes@.subrange(0, 8) =~= magic());
    }
    let id_bytes = slice_subrange(bytes, 8, 16);
    let id = u64_from_le_bytes(id_bytes);
    let payload = slice_to_vec(slice_subrange(bytes, 16, bytes.len()));
    proof {
        assert(payload@ =~= bytes@.skip(16));
    }
    Ok((FormatId(id), payload))
}

/// How an input file presents itself: a container carrying a format id, or
/// an untagged file with at most an extension hint.
#[derive(Clone, Debug)]
pub enum FileType {
    /// Untagged bytes; the hint is the path's lowercased last extension.
    Ext(Option<String>),
    /// A container file, already bound to a format.
    FormatId(FormatId),
}

/// Classify input bytes.  A file opened by the magic is a container and must
/// decode; one opened by the magic but too short is malformed, never
/// reclassified as untagged.  Anything else is untagged and keeps the
/// caller's extension hint.
pub fn classify(bytes: &[u8], ext: Option<String>) -> (r: Result<FileType, HostError>)
    ensures
        (bytes@.len() >= 8 && bytes@.subrange(0, 8) == magic()) ==> (match r {
            Ok(FileType::FormatId(fid)) => container_well_formed(bytes@) && fid.0
                == spec_decode_container(bytes@).0,
            Err(e) => !container_well_formed(bytes@) && e == HostError::MalformedContainer,
            _ => false,
        }),
        !(bytes@.len() >= 8 && bytes@.subrange(0, 8) == magic()) ==> (r matches Ok(
            FileType::Ext(h),
        ) && h == ext),
{
    if bytes.len() < 8 {
        return Ok(FileType::Ext(ext));
    }
    let m = magic_bytes();
    let mut i: usize = 0;
    while i < 8
        invariant
            bytes@.len() >= 8,
            m@ == magic(),
            0 <= i <= 8,
            forall|j: int| 0 <= j < i ==> bytes@[j] == magic()[j],
        decreases 8 - i,
    {
        if bytes[i] != m[i] {
            proof {
                assert(bytes@.subrange(0, 8)[i as int] != magic()[i as int]);
            }
            return Ok(FileType::Ext(ext));
        }
        i += 1;
    }
    proof {
        assert(bytes@.subrange(0, 8) =~= magic());
    }
    match decode_container(bytes) {
        Ok((fid, _payload)) => Ok(FileType::FormatId(fid)),
        Err(e) => Err(e),
    }
}


/// The save-mode policy: a tagged input is re-wrapped in the container, an
/// untagged input whose path carries the container extension is wrapped
/// too, and any other output is written raw — so format identity is never
/// silently lost for container files and never silently added for foreign
/// files.
pub fn save_in_container(file_type: &FileType, container_extension: bool) -> (r: bool)
    ensures
        r == (file_type matches FileType::FormatId(_) || container_extension),
{
    match file_type {
        FileType::FormatId(_) => true,
        FileType::Ext(_) => container_extension,
    }
}

} // verus!
