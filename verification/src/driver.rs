//! The host plugin driver: one generic call across the ABI.
//!
//! The driver stages the input into guest memory, invokes the chosen entry
//! point, reads the result descriptor back through the accessors, copies the
//! payload out, and releases the descriptor — in that order, with a bounds
//! check against the re-derived memory length before the copy, so that no
//! out-of-range read can occur.  It is generic over the engine binding and
//! knows nothing of any concrete wasm runtime.
//!
//! Release discipline: one `free` is issued for every call that got as far
//! as reading the payload out — whether the guest reported success or
//! failure — and none for a call that trapped earlier or returned a
//! descriptor out of bounds.  For a modelled guest that faults mid-call
//! this is proved outright: the result is `PluginTrap` and no `free` was
//! issued.  The one case the generic accounting leaves open is a release
//! call that itself comes back as a trap: the `free` was already issued
//! when the trap surfaced, so such a trap carries at most one.

use vstd::prelude::*;
use vstd::utf8::{decode_utf8, encode_utf8, valid_utf8};
use crate::abi::{same_guest, GalaxyFormatPluginV1_, PluginOp, ReturnData};
use crate::errors::{BadOutputKind, HostError};
use crate::strutil::string_from_utf8;

verus! {

/// Room for one driver call on this instance: no descriptor outstanding,
/// the input small enough to stage, and the guest's answer small enough to
/// place in a 32-bit memory.
pub open spec fn can_stage<P: GalaxyFormatPluginV1_>(p: P, op: PluginOp, input: Seq<u8>) -> bool {
    &&& p.results() == Map::<u32, ReturnData>::empty()
    &&& p.mem().len() + input.len() <= 0x8000_0000
    &&& p.mem().len() + input.len() + p.guest_op(op, input).1.len() <= 0xffff_ffff
}

/// What the driver hands back for a guest outcome: the payload on success,
/// the decoded message on a reported failure, and `BadPluginOutput` when a
/// message is not UTF-8.
pub open spec fn spec_outcome(succ: bool, pl: Seq<u8>) -> Result<
    Result<Seq<u8>, Seq<char>>,
    HostError,
> {
    if succ {
        Ok(Ok(pl))
    } else if valid_utf8(pl) {
        Ok(Err(decode_utf8(pl)))
    } else {
        Err(HostError::BadPluginOutput(BadOutputKind::NotUtf8))
    }
}

/// Marshal one operation across the ABI.
///
/// The outer error aborts the session: a trap, a descriptor out of bounds,
/// a message that is not text, input too large to stage.  The inner `Err`
/// is the recoverable plugin-reported failure, message decoded.  On a
/// conforming instance with room, the result is exactly the guest's
/// computed outcome and the instance is reusable afterwards; on any
/// instance, the release discipline of the module comment holds.
pub fn handle_call<P: GalaxyFormatPluginV1_>(p: &mut P, op: PluginOp, bytes: &[u8]) -> (r: Result<
    Result<Vec<u8>, String>,
    HostError,
>)
    ensures
        r matches Ok(_) ==> final(p).frees() == old(p).frees() + 1,
        r == Err::<Result<Vec<u8>, String>, HostError>(
            HostError::BadPluginOutput(BadOutputKind::NotUtf8),
        ) ==> final(p).frees() == old(p).frees() + 1,
        (r matches Err(e) ==> (e matches HostError::BadPluginOutput(k) ==> (k matches
            BadOutputKind::OutOfBounds { ptr, len, memory } ==> (final(p).frees() == old(
            p,
        ).frees() && ptr + len > memory)))),
        r == Err::<Result<Vec<u8>, String>, HostError>(HostError::InputTooLarge)
            ==> final(p).frees() == old(p).frees(),
        r == Err::<Result<Vec<u8>, String>, HostError>(HostError::InputTooLarge) <==> bytes@.len()
            > 0x8000_0000,
        (r matches Err(e) && e matches HostError::PluginTrap(_)) ==> final(p).frees() <= old(
            p,
        ).frees() + 1,
        (old(p).conforming() && can_stage(*old(p), op, bytes@)) ==> {
            let succ = old(p).guest_op(op, bytes@).0;
            let pl = old(p).guest_op(op, bytes@).1;
            if old(p).guest_traps(op, bytes@) {
                &&& r matches Err(HostError::PluginTrap(_))
                &&& final(p).frees() == old(p).frees()
            } else {
                &&& final(p).conforming()
                &&& same_guest(*old(p), *final(p))
                &&& final(p).results() == Map::<u32, ReturnData>::empty()
                &&& final(p).mem().len() <= old(p).mem().len() + bytes@.len() + pl.len()
                &&& match spec_outcome(succ, pl) {
                    Ok(Ok(b)) => r matches Ok(Ok(v)) && v@ == b,
                    Ok(Err(m)) => r matches Ok(Err(s)) && s@ == m,
                    Err(e) => r == Err::<Result<Vec<u8>, String>, HostError>(e),
                }
            }
        },
{
    let ghost p0 = *p;
    let len = bytes.len();
    if len > 0x8000_0000usize {
        return Err(HostError::InputTooLarge);
    }
    let ptr = match p.alloc_bytes(len as u32) {
        Ok(x) => x,
        Err(m) => {
            return Err(HostError::PluginTrap(m));
        },
    };
    let ghost p1 = *p;
    match p.memory_write(ptr, bytes) {
        Ok(_) => (),
        Err(m) => {
            return Err(HostError::PluginTrap(m));
        },
    }
    let ghost p2 = *p;
    proof {
        if p0.conforming() && can_stage(p0, op, bytes@) {
            assert(p1.guest_op(op, bytes@) == p0.guest_op(op, bytes@));
            assert(p2.guest_op(op, bytes@) == p0.guest_op(op, bytes@));
            assert(p1.guest_traps(op, bytes@) == p0.guest_traps(op, bytes@));
            assert(p2.guest_traps(op, bytes@) == p0.guest_traps(op, bytes@));
            assert(p2.mem().subrange(ptr as int, ptr + len) =~= bytes@);
        }
    }
    let call_result = match op {
        PluginOp::Present => p.present(ptr, len as u32),
        PluginOp::Store => p.store(ptr, len as u32),
    };
    let res = match call_result {
        Ok(x) => x,
        Err(m) => {
            return Err(HostError::PluginTrap(m));
        },
    };
    let ghost p3 = *p;
    proof {
        if p0.conforming() && can_stage(p0, op, bytes@) {
            let d = choose|d: ReturnData|
                {
                    &&& p3.results() == Map::<u32, ReturnData>::empty().insert(res, d)
                    &&& d.success == p2.guest_op(op, bytes@).0
                    &&& d.len == p2.guest_op(op, bytes@).1.len()
                    &&& d.ptr + d.len <= p3.mem().len()
                    &&& #[trigger] p3.mem().subrange(d.ptr as int, d.ptr + d.len) == p2.guest_op(
                        op,
                        bytes@,
                    ).1
                };
            assert(p3.results().dom().contains(res));
            assert(p3.results()[res] == d);
            assert(p3.guest_op(op, bytes@) == p0.guest_op(op, bytes@));
            assert(p3.mem().subrange(
                p3.results()[res].ptr as int,
                p3.results()[res].ptr + p3.results()[res].len,
            ) == p0.guest_op(op, bytes@).1);
            assert(p3.results()[res].success == p0.guest_op(op, bytes@).0);
            assert(p3.results()[res].ptr + p3.results()[res].len <= p3.mem().len());
            assert(p3.results().remove(res) =~= Map::<u32, ReturnData>::empty());
        }
    }
    let rp = match p.result_get_ptr(res) {
        Ok(x) => x,
        Err(m) => {
            return Err(HostError::PluginTrap(m));
        },
    };
    let rl = match p.result_get_len(res) {
        Ok(x) => x,
        Err(m) => {
            return Err(HostError::PluginTrap(m));
        },
    };
    let succ = match p.result_get_success(res) {
        Ok(x) => x,
        Err(m) => {
            return Err(HostError::PluginTrap(m));
        },
    };
    let mlen = p.memory_len();
    if rp as u64 + rl as u64 > mlen as u64 {
        return Err(
            HostError::BadPluginOutput(
                BadOutputKind::OutOfBounds { ptr: rp, len: rl, memory: mlen },
            ),
        );
    }
    let v = match p.memory_read(rp, rl) {
        Ok(x) => x,
        Err(m) => {
            return Err(HostError::PluginTrap(m));
        },
    };
    match p.free(res) {
        Ok(_) => (),
        Err(m) => {
            return Err(HostError::PluginTrap(m));
        },
    }
    proof {
        if p0.conforming() && can_stage(p0, op, bytes@) {
            assert(p.results() =~= Map::<u32, ReturnData>::empty());
            assert(p.guest_op(op, bytes@) == p0.guest_op(op, bytes@));
        }
    }
    if succ {
        Ok(Ok(v))
    } else {
        match string_from_utf8(v) {
            Some(s) => Ok(Err(s)),
            None => Err(HostError::BadPluginOutput(BadOutputKind::NotUtf8)),
        }
    }
}

/// The plugin, seen as the pair of operations on plain values that the
/// session orchestrator calls: bytes in, text out, and back.
pub trait GalaxyFormatPluginV1: GalaxyFormatPluginV1_ {
    /// Present bytes as text.  The inner `Err` is the plugin's reported
    /// failure; a success payload that is not UTF-8 is `BadPluginOutput`.
    fn present_bytes(&mut self, bytes: &[u8]) -> (r: Result<Result<String, String>, HostError>)
        ensures
            r matches Ok(_) ==> final(self).frees() == old(self).frees() + 1,
            r == Err::<Result<String, String>, HostError>(
                HostError::BadPluginOutput(BadOutputKind::NotUtf8),
            ) ==> final(self).frees() == old(self).frees() + 1,
            (r matches Err(e) ==> (e matches HostError::BadPluginOutput(k) ==> (k matches
                BadOutputKind::OutOfBounds { ptr, len, memory } ==> (final(self).frees() == old(
                self,
            ).frees() && ptr + len > memory)))),
            r == Err::<Result<String, String>, HostError>(HostError::InputTooLarge)
                ==> final(self).frees() == old(self).frees(),
            r == Err::<Result<String, String>, HostError>(HostError::InputTooLarge)
                <==> bytes@.len() > 0x8000_0000,
            (r matches Err(e) && e matches HostError::PluginTrap(_)) ==> final(self).frees()
                <= old(self).frees() + 1,
            (old(self).conforming() && can_stage(*old(self), PluginOp::Present, bytes@)) ==> {
                let succ = old(self).guest_op(PluginOp::Present, bytes@).0;
                let pl = old(self).guest_op(PluginOp::Present, bytes@).1;
                if old(self).guest_traps(PluginOp::Present, bytes@) {
                    &&& r matches Err(HostError::PluginTrap(_))
                    &&& final(self).frees() == old(self).frees()
                } else {
                    &&& final(self).conforming()
                    &&& same_guest(*old(self), *final(self))
                    &&& final(self).results() == Map::<u32, ReturnData>::empty()
                    &&& final(self).mem().len() <= old(self).mem().len() + bytes@.len()
                        + pl.len()
                    &&& if succ && valid_utf8(pl) {
                        r matches Ok(Ok(s)) && s@ == decode_utf8(pl)
                    } else if !succ && valid_utf8(pl) {
                        r matches Ok(Err(m)) && m@ == decode_utf8(pl)
                    } else {
                        r == Err::<Result<String, String>, HostError>(
                            HostError::BadPluginOutput(BadOutputKind::NotUtf8),
                        )
                    }
                }
            },
    ;

    /// Store edited text back into bytes of the format.
    fn store_text(&mut self, s: &str) -> (r: Result<Result<Vec<u8>, String>, HostError>)
        ensures
            r matches Ok(_) ==> final(self).frees() == old(self).frees() + 1,
            r == Err::<Result<Vec<u8>, String>, HostError>(
                HostError::BadPluginOutput(BadOutputKind::NotUtf8),
            ) ==> final(self).frees() == old(self).frees() + 1,
            (r matches Err(e) ==> (e matches HostError::BadPluginOutput(k) ==> (k matches
                BadOutputKind::OutOfBounds { ptr, len, memory } ==> (final(self).frees() == old(
                self,
            ).frees() && ptr + len > memory)))),
            r == Err::<Result<Vec<u8>, String>, HostError>(HostError::InputTooLarge)
                ==> final(self).frees() == old(self).frees(),
            r == Err::<Result<Vec<u8>, String>, HostError>(HostError::InputTooLarge)
                <==> encode_utf8(s@).len() > 0x8000_0000,
            (r matches Err(e) && e matches HostError::PluginTrap(_)) ==> final(self).frees()
                <= old(self).frees() + 1,
            (old(self).conforming() && can_stage(
                *old(self),
                PluginOp::Store,
                encode_utf8(s@),
            )) ==> {
                let succ = old(self).guest_op(PluginOp::Store, encode_utf8(s@)).0;
                let pl = old(self).guest_op(PluginOp::Store, encode_utf8(s@)).1;
                if old(self).guest_traps(PluginOp::Store, encode_utf8(s@)) {
                    &&& r matches Err(HostError::PluginTrap(_))
                    &&& final(self).frees() == old(self).frees()
                } else {
                    &&& final(self).conforming()
                    &&& same_guest(*old(self), *final(self))
                    &&& final(self).results() == Map::<u32, ReturnData>::empty()
                    &&& final(self).mem().len() <= old(self).mem().len() + encode_utf8(
                        s@,
                    ).len() + pl.len()
                    &&& match spec_outcome(succ, pl) {
                        Ok(Ok(b)) => r matches Ok(Ok(v)) && v@ == b,
                        Ok(Err(m)) => r matches Ok(Err(t)) && t@ == m,
                        Err(e) => r == Err::<Result<Vec<u8>, String>, HostError>(e),
                    }
                }
            },
    ;
}

impl<P: GalaxyFormatPluginV1_> GalaxyFormatPluginV1 for P {
    fn present_bytes(&mut self, bytes: &[u8]) -> (r: Result<Result<String, String>, HostError>) {
        match handle_call(self, PluginOp::Present, bytes) {
            Ok(Ok(v)) => match string_from_utf8(v) {
                Some(s) => Ok(Ok(s)),
                None => Err(HostError::BadPluginOutput(BadOutputKind::NotUtf8)),
            },
            Ok(Err(m)) => Ok(Err(m)),
            Err(e) => Err(e),
        }
    }

    fn store_text(&mut self, s: &str) -> (r: Result<Result<Vec<u8>, String>, HostError>) {
        handle_call(self, PluginOp::Store, s.as_bytes())
    }
}

/// Driver round-trip across the ABI: for a plugin whose own `store`
/// inverts its own `present` on some bytes, the driver's results compose
/// to the identity, bit for bit.  Presenting yields exactly the guest's
/// text; the text re-encodes over the boundary to exactly the bytes the
/// guest's `store` expects; and storing yields exactly the original bytes.
pub proof fn lemma_driver_round_trip<P: GalaxyFormatPluginV1_>(p: P, b: Seq<u8>)
    requires
        p.guest_op(PluginOp::Present, b).0,
        valid_utf8(p.guest_op(PluginOp::Present, b).1),
        p.guest_op(PluginOp::Store, p.guest_op(PluginOp::Present, b).1) == (true, b),
    ensures
        spec_outcome(true, p.guest_op(PluginOp::Present, b).1) == Ok::<
            Result<Seq<u8>, Seq<char>>,
            HostError,
        >(Ok(p.guest_op(PluginOp::Present, b).1)),
        encode_utf8(decode_utf8(p.guest_op(PluginOp::Present, b).1)) == p.guest_op(
            PluginOp::Present,
            b,
        ).1,
        spec_outcome(
            p.guest_op(PluginOp::Store, encode_utf8(decode_utf8(p.guest_op(PluginOp::Present, b).1))).0,
            p.guest_op(PluginOp::Store, encode_utf8(decode_utf8(p.guest_op(PluginOp::Present, b).1))).1,
        ) == Ok::<Result<Seq<u8>, Seq<char>>, HostError>(Ok(b)),
{
    vstd::utf8::decode_utf8_encode_utf8(p.guest_op(PluginOp::Present, b).1);
}


/// The session remains alive after a completed call: a conforming instance
/// that answered one driver call — the driver leaves it conforming, with no
/// descriptor outstanding and its memory grown by at most the staged input
/// and the payload, exactly as `handle_call` ensures — has room for the
/// next call whenever the arithmetic allows it.
pub proof fn lemma_session_remains_alive<P: GalaxyFormatPluginV1_>(
    pre: P,
    post: P,
    op: PluginOp,
    b: Seq<u8>,
    op2: PluginOp,
    b2: Seq<u8>,
)
    requires
        pre.conforming(),
        can_stage(pre, op, b),
        post.conforming(),
        same_guest(pre, post),
        post.results() == Map::<u32, ReturnData>::empty(),
        post.mem().len() <= pre.mem().len() + b.len() + pre.guest_op(op, b).1.len(),
        pre.mem().len() + b.len() + pre.guest_op(op, b).1.len() + b2.len() <= 0x8000_0000,
        pre.mem().len() + b.len() + pre.guest_op(op, b).1.len() + b2.len() + pre.guest_op(
            op2,
            b2,
        ).1.len() <= 0xffff_ffff,
    ensures
        can_stage(post, op2, b2),
{
    assert(post.guest_op(op2, b2) == pre.guest_op(op2, b2));
}

} // verus!
