//! The plugin ABI: the contract between the host and an instantiated guest
//! module, over one shared linear memory.
//!
//! A conformant guest exports `alloc`, `free`, `present`, `store` and the
//! three descriptor accessors; the host only ever reads a result through the
//! accessors, never by probing the descriptor's layout.  The trait below is
//! the capability set an engine binding has to provide; the host driver is
//! generic over it.
//!
//! The ghost state of the trait serves two purposes.  The unconditional
//! clauses do plain bookkeeping — how `frees` counts the `free` calls the
//! host has issued, and that `memory_read` hands back as many bytes as were
//! asked — and hold for any implementation.  The clauses guarded by
//! `conforming()` describe the idealized well-behaved guest, which the
//! verified model guest of this crate implements and proves; an
//! engine-backed instance wrapping an arbitrary module never claims
//! `conforming()`, and nothing is concluded about it beyond the
//! bookkeeping.

use vstd::prelude::*;

verus! {

/// The result descriptor a guest allocates for every operation: where the
/// payload lies, how long it is, the capacity behind it, and whether the
/// operation succeeded.
#[derive(Clone, Copy, Debug, PartialEq, Eq, Structural)]
pub struct ReturnData {
    pub ptr: u32,
    pub len: u32,
    pub capacity: u32,
    pub success: bool,
}

/// The two operations every converter plugin exports.
#[derive(Clone, Copy, Debug, PartialEq, Eq, Structural)]
pub enum PluginOp {
    /// Bytes of the format in, readable text out.
    Present,
    /// Text in, bytes of the format out.
    Store,
}

/// A byte region overwritten inside a larger memory.
pub open spec fn overwrite(mem: Seq<u8>, ptr: int, data: Seq<u8>) -> Seq<u8> {
    Seq::new(mem.len(), |i: int| if ptr <= i < ptr + data.len() { data[i - ptr] } else { mem[i] })
}

/// The capability set of an instantiated plugin.  Engine bindings implement
/// this around a concrete wasm runtime; the model guest implements and
/// proves it.  An implementation whose call into the guest traps returns
/// `Err` with the trap's message and promises nothing else about its state.
pub trait GalaxyFormatPluginV1_: Sized {
    /// The guest's linear memory, as the host would observe it.  The
    /// default stands for an engine binding that models nothing; a
    /// verified guest overrides it.
    open spec fn mem(&self) -> Seq<u8> {
        Seq::empty()
    }

    /// The live result descriptors, by handle.
    open spec fn results(&self) -> Map<u32, ReturnData> {
        Map::empty()
    }

    /// How many `free` calls the host has issued on this instance.
    open spec fn frees(&self) -> nat {
        0
    }

    /// Whether this instance is the idealized conforming guest.  Only the
    /// verified model guest ever asserts it; an engine-backed instance
    /// keeps the default, and every clause guarded by it is vacuous.
    open spec fn conforming(&self) -> bool {
        false
    }

    /// What the guest computes for an operation on given input bytes: the
    /// success flag and the payload it would report.
    open spec fn guest_op(&self, op: PluginOp, input: Seq<u8>) -> (bool, Seq<u8>) {
        (false, Seq::empty())
    }

    /// Whether the guest's own computation faults on this operation and
    /// input.  The verified model guest overrides it; a faulting call comes
    /// back as `Err` and the instance is then discarded.
    open spec fn guest_traps(&self, op: PluginOp, input: Seq<u8>) -> bool {
        false
    }

    /// Stage `size` writable bytes in guest memory and return their address.
    fn alloc_bytes(&mut self, size: u32) -> (r: Result<u32, String>)
        ensures
            final(self).frees() == old(self).frees(),
            old(self).conforming() ==> {
                &&& final(self).conforming()
                &&& forall|op: PluginOp, input: Seq<u8>|
                    (#[trigger] final(self).guest_op(op, input)) == old(self).guest_op(op, input)
                &&& forall|op: PluginOp, input: Seq<u8>|
                    (#[trigger] final(self).guest_traps(op, input)) == old(self).guest_traps(
                        op,
                        input,
                    )
                &&& final(self).results() == old(self).results()
                &&& (old(self).mem().len() + size <= 0x8000_0000 ==> (r matches Ok(p) && p + size
                    <= final(self).mem().len() && final(self).mem().len() == old(self).mem().len()
                    + size))
            },
    ;

    /// Release a result descriptor and the payload it refers to.  Counted
    /// as issued whether or not the call comes back cleanly.
    fn free(&mut self, res: u32) -> (r: Result<(), String>)
        ensures
            final(self).frees() == old(self).frees() + 1,
            (old(self).conforming() && old(self).results().dom().contains(res)) ==> {
                &&& r is Ok
                &&& final(self).conforming()
                &&& forall|op: PluginOp, input: Seq<u8>|
                    (#[trigger] final(self).guest_op(op, input)) == old(self).guest_op(op, input)
                &&& final(self).results() == old(self).results().remove(res)
                &&& final(self).mem().len() <= old(self).mem().len()
            },
    ;

    /// Run the guest's `present` on `len` staged bytes at `ptr`.
    fn present(&mut self, ptr: u32, len: u32) -> (r: Result<u32, String>)
        ensures
            final(self).frees() == old(self).frees(),
            (old(self).conforming() && ptr + len <= old(self).mem().len() && old(self).results()
                == Map::<u32, ReturnData>::empty() && old(self).mem().len() + old(self).guest_op(
                PluginOp::Present,
                old(self).mem().subrange(ptr as int, ptr + len),
            ).1.len() <= 0xffff_ffff) ==> {
                let input = old(self).mem().subrange(ptr as int, ptr + len);
                let succ = old(self).guest_op(PluginOp::Present, input).0;
                let pl = old(self).guest_op(PluginOp::Present, input).1;
                if old(self).guest_traps(PluginOp::Present, input) {
                    r is Err
                } else {
                    &&& final(self).conforming()
                    &&& forall|o: PluginOp, i: Seq<u8>|
                        (#[trigger] final(self).guest_op(o, i)) == old(self).guest_op(o, i)
                    &&& final(self).mem().len() <= old(self).mem().len() + pl.len()
                    &&& r matches Ok(res)
                    &&& exists|d: ReturnData|
                        {
                            &&& final(self).results() == Map::<u32, ReturnData>::empty().insert(
                                r->Ok_0,
                                d,
                            )
                            &&& d.success == succ
                            &&& d.len == pl.len()
                            &&& d.ptr + d.len <= final(self).mem().len()
                            &&& #[trigger] final(self).mem().subrange(d.ptr as int, d.ptr + d.len)
                                == pl
                        }
                }
            },
    ;

    /// Run the guest's `store` on `len` staged bytes at `ptr`.
    fn store(&mut self, ptr: u32, len: u32) -> (r: Result<u32, String>)
        ensures
            final(self).frees() == old(self).frees(),
            (old(self).conforming() && ptr + len <= old(self).mem().len() && old(self).results()
                == Map::<u32, ReturnData>::empty() && old(self).mem().len() + old(self).guest_op(
                PluginOp::Store,
                old(self).mem().subrange(ptr as int, ptr + len),
            ).1.len() <= 0xffff_ffff) ==> {
                let input = old(self).mem().subrange(ptr as int, ptr + len);
                let succ = old(self).guest_op(PluginOp::Store, input).0;
                let pl = old(self).guest_op(PluginOp::Store, input).1;
                if old(self).guest_traps(PluginOp::Store, input) {
                    r is Err
                } else {
                    &&& final(self).conforming()
                    &&& forall|o: PluginOp, i: Seq<u8>|
                        (#[trigger] final(self).guest_op(o, i)) == old(self).guest_op(o, i)
                    &&& final(self).mem().len() <= old(self).mem().len() + pl.len()
                    &&& r matches Ok(res)
                    &&& exists|d: ReturnData|
                        {
                            &&& final(self).results() == Map::<u32, ReturnData>::empty().insert(
                                r->Ok_0,
                                d,
                            )
                            &&& d.success == succ
                            &&& d.len == pl.len()
                            &&& d.ptr + d.len <= final(self).mem().len()
                            &&& #[trigger] final(self).mem().subrange(d.ptr as int, d.ptr + d.len)
                                == pl
                        }
                }
            },
    ;

    /// Read the payload address out of a descriptor.
    fn result_get_ptr(&mut self, res: u32) -> (r: Result<u32, String>)
        ensures
            final(self).frees() == old(self).frees(),
            (old(self).conforming() && old(self).results().dom().contains(res)) ==> (r == Ok::<
                u32,
                String,
            >(old(self).results()[res].ptr) && (final(self).mem() == old(self).mem()
                && final(self).results() == old(self).results()
                && final(self).conforming() == old(self).conforming()
                && (forall|o: PluginOp, i: Seq<u8>|
                    (#[trigger] final(self).guest_op(o, i)) == old(self).guest_op(o, i)))),
    ;

    /// Read the payload length out of a descriptor.
    fn result_get_len(&mut self, res: u32) -> (r: Result<u32, String>)
        ensures
            final(self).frees() == old(self).frees(),
            (old(self).conforming() && old(self).results().dom().contains(res)) ==> (r == Ok::<
                u32,
                String,
            >(old(self).results()[res].len) && (final(self).mem() == old(self).mem()
                && final(self).results() == old(self).results()
                && final(self).conforming() == old(self).conforming()
                && (forall|o: PluginOp, i: Seq<u8>|
                    (#[trigger] final(self).guest_op(o, i)) == old(self).guest_op(o, i)))),
    ;

    /// Read the success flag out of a descriptor.
    fn result_get_success(&mut self, res: u32) -> (r: Result<bool, String>)
        ensures
            final(self).frees() == old(self).frees(),
            (old(self).conforming() && old(self).results().dom().contains(res)) ==> (r == Ok::<
                bool,
                String,
            >(old(self).results()[res].success) && (final(self).mem() == old(self).mem()
                && final(self).results() == old(self).results()
                && final(self).conforming() == old(self).conforming()
                && (forall|o: PluginOp, i: Seq<u8>|
                    (#[trigger] final(self).guest_op(o, i)) == old(self).guest_op(o, i)))),
    ;

    /// Copy bytes into guest memory.  An implementation must refuse a range
    /// beyond the current memory rather than fault.
    fn memory_write(&mut self, ptr: u32, bytes: &[u8]) -> (r: Result<(), String>)
        ensures
            final(self).frees() == old(self).frees(),
            (old(self).conforming() && ptr + bytes@.len() <= old(self).mem().len()) ==> {
                &&& r is Ok
                &&& final(self).conforming()
                &&& forall|op: PluginOp, input: Seq<u8>|
                    (#[trigger] final(self).guest_op(op, input)) == old(self).guest_op(op, input)
                &&& forall|op: PluginOp, input: Seq<u8>|
                    (#[trigger] final(self).guest_traps(op, input)) == old(self).guest_traps(
                        op,
                        input,
                    )
                &&& final(self).results() == old(self).results()
                &&& final(self).mem() == overwrite(old(self).mem(), ptr as int, bytes@)
            },
    ;

    /// Copy bytes out of guest memory.  The host must never ask beyond the
    /// current memory length: re-derive the length first, then read.
    fn memory_read(&mut self, ptr: u32, len: u32) -> (r: Result<Vec<u8>, String>)
        requires
            ptr + len <= old(self).mem().len(),
        ensures
            final(self).frees() == old(self).frees(),
            r matches Ok(v) ==> v@.len() == len,
            old(self).conforming() ==> (r matches Ok(v) && v@ == old(self).mem().subrange(
                ptr as int,
                ptr + len,
            ) && (final(self).mem() == old(self).mem()
                && final(self).results() == old(self).results()
                && final(self).conforming() == old(self).conforming()
                && (forall|o: PluginOp, i: Seq<u8>|
                    (#[trigger] final(self).guest_op(o, i)) == old(self).guest_op(o, i)))),
    ;

    /// The current length of the guest's linear memory.  Observing it runs
    /// no guest code and disturbs nothing.
    fn memory_len(&mut self) -> (r: usize)
        ensures
            final(self).frees() == old(self).frees(),
            r == old(self).mem().len(),
            (final(self).mem() == old(self).mem()
                && final(self).results() == old(self).results()
                && final(self).conforming() == old(self).conforming()
                && (forall|o: PluginOp, i: Seq<u8>|
                    (#[trigger] final(self).guest_op(o, i)) == old(self).guest_op(o, i))),
    ;
}

/// Both states answer every operation alike: the guest's computed behaviour
/// did not change between them.
pub open spec fn same_guest<P: GalaxyFormatPluginV1_>(a: P, b: P) -> bool {
    forall|op: PluginOp, input: Seq<u8>| (#[trigger] b.guest_op(op, input)) == a.guest_op(op, input)
}

} // verus!
