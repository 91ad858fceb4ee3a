//! The guest side of the ABI, as a verified model.
//!
//! A real converter is compiled to wasm around a common scaffolding:
//! `present`/`store` read their input out of linear memory, run the
//! converter, and hand the outcome back through an allocated result
//! descriptor.  `GuestCore` is that scaffolding with a
//! `Vec<u8>` for the linear memory and an explicit descriptor slot, proved
//! to keep the ABI's contract; driving it through the host driver exercises
//! the whole marshalling path with nothing trusted in between.

use vstd::prelude::*;
use vstd::string::StrSliceExecFns;
use vstd::utf8::{decode_utf8, encode_utf8, valid_utf8};
use crate::abi::{GalaxyFormatPluginV1_, PluginOp, ReturnData};
use crate::strutil::string_from_utf8;

verus! {

/// A converter: the present/store pair for one format.  `spec_present` and
/// `spec_store` are the converter's meaning; the executable pair computes
/// exactly them.
pub trait GalaxyFormat {
    /// What presenting these bytes yields: readable text, or a reported
    /// failure with a readable message.
    spec fn spec_present(bytes: Seq<u8>) -> Result<Seq<char>, Seq<char>>;

    /// What storing this text yields: the format's bytes, or a reported
    /// failure with a readable message.
    spec fn spec_store(text: Seq<char>) -> Result<Seq<u8>, Seq<char>>;

    /// Interpret bytes of the format and pretty-print them.
    fn present(bytes: &[u8]) -> (r: Result<String, String>)
        ensures
            match r {
                Ok(s) => Self::spec_present(bytes@) matches Ok(t) && s@ == t,
                Err(e) => Self::spec_present(bytes@) matches Err(t) && e@ == t,
            },
    ;

    /// Parse edited text back into bytes of the format.
    fn store(s: &str) -> (r: Result<Vec<u8>, String>)
        ensures
            match r {
                Ok(v) => Self::spec_store(s@) matches Ok(t) && v@ == t,
                Err(e) => Self::spec_store(s@) matches Err(t) && e@ == t,
            },
    ;
}

/// What the model guest built over a converter computes for one ABI
/// operation: the success flag and the payload bytes it reports.  Text
/// crosses the boundary as UTF-8; storing rejects input that is not.
pub open spec fn spec_guest_op<T: GalaxyFormat>(op: PluginOp, input: Seq<u8>) -> (bool, Seq<u8>) {
    match op {
        PluginOp::Present => match T::spec_present(input) {
            Ok(s) => (true, encode_utf8(s)),
            Err(e) => (false, encode_utf8(e)),
        },
        PluginOp::Store => if valid_utf8(input) {
            match T::spec_store(decode_utf8(input)) {
                Ok(b) => (true, b),
                Err(e) => (false, encode_utf8(e)),
            }
        } else {
            (false, encode_utf8("stored text was not valid UTF-8"@))
        },
    }
}

/// The model guest: the guest-core scaffolding of the ABI around one
/// converter, with its linear memory and descriptor bookkeeping explicit.
pub struct GuestCore<T: GalaxyFormat> {
    memory: Vec<u8>,
    slot: Option<(u32, ReturnData)>,
    next_handle: u32,
    frees_issued: Ghost<nat>,
    trap_on_call: bool,
    _format: core::marker::PhantomData<T>,
}

impl<T: GalaxyFormat> GuestCore<T> {
    /// The guest's structural invariant: memory addressable by `u32`, and
    /// the live descriptor, if any, wholly inside memory.
    pub closed spec fn wf(&self) -> bool {
        &&& self.memory@.len() <= 0xffff_ffff
        &&& (self.slot matches Some((h, d)) ==> d.ptr + d.len <= self.memory@.len())
    }

    /// The live descriptor slot, if an operation's result has not been
    /// freed yet.
    pub closed spec fn pending_result(&self) -> Option<(u32, ReturnData)> {
        self.slot
    }

    /// The guest's linear memory.
    pub closed spec fn memory_view(&self) -> Seq<u8> {
        self.memory@
    }

    /// The length of the guest's linear memory.
    pub open spec fn memory_len_spec(&self) -> nat {
        self.memory_view().len()
    }

    /// How many `free` calls the host has issued.
    pub closed spec fn frees_count(&self) -> nat {
        self.frees_issued@
    }

    /// A fresh instance: empty memory, no descriptor, nothing freed, and a
    /// guest that never faults.
    pub fn new() -> (r: Self)
        ensures
            r.conforming(),
            r.mem() == Seq::<u8>::empty(),
            r.results() == Map::<u32, ReturnData>::empty(),
            r.frees() == 0,
            r.mem().len() == 0,
            r.pending_result() is None,
            forall|op: PluginOp, input: Seq<u8>| !(#[trigger] r.guest_traps(op, input)),
    {
        let r = GuestCore {
            memory: Vec::new(),
            slot: None,
            next_handle: 1,
            frees_issued: Ghost(0),
            trap_on_call: false,
            _format: core::marker::PhantomData,
        };
        proof {
            assert(r.mem() =~= Seq::<u8>::empty());
        }
        r
    }

    /// A fresh instance whose guest faults on every operation — the model
    /// of a plugin that diverges or hits an illegal instruction mid-call.
    pub fn new_trapping() -> (r: Self)
        ensures
            r.conforming(),
            r.mem() == Seq::<u8>::empty(),
            r.results() == Map::<u32, ReturnData>::empty(),
            r.frees() == 0,
            r.mem().len() == 0,
            r.pending_result() is None,
            forall|op: PluginOp, input: Seq<u8>| #[trigger] r.guest_traps(op, input),
    {
        let r = GuestCore {
            memory: Vec::new(),
            slot: None,
            next_handle: 1,
            frees_issued: Ghost(0),
            trap_on_call: true,
            _format: core::marker::PhantomData,
        };
        proof {
            assert(r.mem() =~= Seq::<u8>::empty());
        }
        r
    }

    /// A lens for callers outside this module: the pending-descriptor slot
    /// is exactly what the ABI's `results()` map holds, the memory views
    /// agree, and so do the free counts.
    pub proof fn lemma_state_views(&self)
        ensures
            self.mem() == self.memory_view(),
            self.frees() == self.frees_count(),
            (self.pending_result() is None) <==> self.results() == Map::<u32, ReturnData>::empty(),
            self.pending_result() matches Some((h, d)) ==> self.results() == Map::<
                u32,
                ReturnData,
            >::empty().insert(h, d),
    {
        match self.slot {
            Some((h, d)) => {
                assert(self.results().dom().contains(h));
            },
            None => {},
        }
    }

    /// Place outcome bytes into guest memory behind a fresh descriptor,
    /// as the guest scaffolding does for every operation's result.
    pub fn alloc_result(&mut self, data: Vec<u8>, success: bool) -> (r: u32)
        requires
            old(self).wf(),
            old(self).pending_result() is None,
            old(self).memory_len_spec() + data@.len() <= 0xffff_ffff,
        ensures
            final(self).wf(),
            final(self).frees_count() == old(self).frees_count(),
            final(self).memory_len_spec() == old(self).memory_len_spec() + data@.len(),
            final(self).pending_result() matches Some((h, d)) && h == r && d.success == success
                && d.len == data@.len() && d.ptr + d.len <= final(self).memory_len_spec(),
            final(self).memory_view().subrange(
                final(self).pending_result()->Some_0.1.ptr as int,
                final(self).pending_result()->Some_0.1.ptr + final(self).pending_result()->Some_0.1.len,
            ) == data@,
    {
        let ghost dv = data@;
        let rp: u32 = self.memory.len() as u32;
        let rl: u32 = data.len() as u32;
        let mut payload = data;
        self.memory.append(&mut payload);
        let d = ReturnData { ptr: rp, len: rl, capacity: rl, success };
        let h = self.next_handle;
        self.next_handle = self.next_handle.wrapping_add(1);
        self.slot = Some((h, d));
        proof {
            assert(self.memory@.subrange(rp as int, rp + rl) =~= dv);
        }
        h
    }

    /// What one `present`/`store` call on the model guest promises, over
    /// its own state: the field-level counterpart of the ABI's conforming
    /// call promise.
    spec fn call_outcome(
        pre: GuestCore<T>,
        post: GuestCore<T>,
        op: PluginOp,
        ptr: u32,
        len: u32,
        r: Result<u32, String>,
    ) -> bool {
        (pre.wf() && ptr + len <= pre.memory@.len() && pre.slot is None && pre.memory@.len()
            + spec_guest_op::<T>(op, pre.memory@.subrange(ptr as int, ptr + len)).1.len()
            <= 0xffff_ffff) ==> {
            let input = pre.memory@.subrange(ptr as int, ptr + len);
            let succ = spec_guest_op::<T>(op, input).0;
            let pl = spec_guest_op::<T>(op, input).1;
            if pre.trap_on_call {
                r is Err
            } else {
                &&& post.wf()
                &&& post.memory@.len() <= pre.memory@.len() + pl.len()
                &&& r matches Ok(res)
                &&& post.slot matches Some((h, d)) && h == res && d.success == succ && d.len
                    == pl.len() && d.ptr + d.len <= post.memory@.len()
                &&& post.memory@.subrange(
                    post.slot->Some_0.1.ptr as int,
                    post.slot->Some_0.1.ptr + post.slot->Some_0.1.len,
                ) == pl
            }
        }
    }

    /// Read the staged input, run the converter, and allocate the result:
    /// the body both `present` and `store` share.
    fn run_op(&mut self, op: PluginOp, ptr: u32, len: u32) -> (r: Result<u32, String>)
        ensures
            final(self).frees_issued@ == old(self).frees_issued@,
            Self::call_outcome(*old(self), *final(self), op, ptr, len, r),
    {
        let ghost pre = *self;
        if self.trap_on_call {
            return Err("the guest faulted mid-call".to_owned());
        }
        let mlen = self.memory.len();
        if !(ptr as u64 + len as u64 <= mlen as u64 && mlen as u64 <= 0xffff_ffff) {
            return Err("input region lies outside guest memory".to_owned());
        }
        if self.slot.is_some() {
            return Err("a result descriptor is still outstanding".to_owned());
        }
        let input = vstd::slice::slice_to_vec(
            vstd::slice::slice_subrange(self.memory.as_slice(), ptr as usize, ptr as usize + len as usize),
        );
        let ghost input_spec = pre.mem().subrange(ptr as int, ptr + len);
        proof {
            assert(input@ == input_spec);
        }
        let (payload, success): (Vec<u8>, bool) = match op {
            PluginOp::Present => match T::present(input.as_slice()) {
                Ok(s) => (s.as_str().as_bytes_vec(), true),
                Err(e) => (e.as_str().as_bytes_vec(), false),
            },
            PluginOp::Store => match string_from_utf8(input) {
                Some(s) => match T::store(s.as_str()) {
                    Ok(b) => (b, true),
                    Err(e) => (e.as_str().as_bytes_vec(), false),
                },
                None => ("stored text was not valid UTF-8".as_bytes_vec(), false),
            },
        };
        proof {
            assert(success == spec_guest_op::<T>(op, input_spec).0);
            assert(payload@ == spec_guest_op::<T>(op, input_spec).1);
        }
        let plen = payload.len();
        if !(mlen as u128 + plen as u128 <= 0xffff_ffff) {
            return Err("result does not fit guest memory".to_owned());
        }
        let res = self.alloc_result(payload, success);
        proof {
            assert(self.results() =~= Map::<u32, ReturnData>::empty().insert(
                res,
                self.slot->Some_0.1,
            ));
        }
        Ok(res)
    }
}

impl<T: GalaxyFormat> GalaxyFormatPluginV1_ for GuestCore<T> {
    closed spec fn mem(&self) -> Seq<u8> {
        self.memory@
    }

    closed spec fn results(&self) -> Map<u32, ReturnData> {
        match self.slot {
            None => Map::empty(),
            Some((h, d)) => Map::empty().insert(h, d),
        }
    }

    closed spec fn frees(&self) -> nat {
        self.frees_issued@
    }

    open spec fn conforming(&self) -> bool {
        self.wf()
    }

    open spec fn guest_op(&self, op: PluginOp, input: Seq<u8>) -> (bool, Seq<u8>) {
        spec_guest_op::<T>(op, input)
    }

    closed spec fn guest_traps(&self, op: PluginOp, input: Seq<u8>) -> bool {
        self.trap_on_call
    }

    fn alloc_bytes(&mut self, size: u32) -> (r: Result<u32, String>) {
        let mlen = self.memory.len();
        if !(mlen as u128 + size as u128 <= 0xffff_ffff) {
            return Err("out of guest memory".to_owned());
        }
        let p: u32 = mlen as u32;
        self.memory.resize(mlen + size as usize, 0u8);
        Ok(p)
    }

    fn free(&mut self, res: u32) -> (r: Result<(), String>) {
        let ghost pre = *self;
        proof {
            self.frees_issued@ = self.frees_issued@ + 1;
        }
        match self.slot {
            Some((h, _d)) => {
                if h == res {
                    self.slot = None;
                    proof {
                        assert(self.results() =~= pre.results().remove(res));
                    }
                    Ok(())
                } else {
                    Err("free of an unknown descriptor".to_owned())
                }
            },
            None => Err("free with no outstanding descriptor".to_owned()),
        }
    }

    fn present(&mut self, ptr: u32, len: u32) -> (r: Result<u32, String>) {
        let ghost pre = *self;
        let r = self.run_op(PluginOp::Present, ptr, len);
        proof {
            if pre.conforming() && ptr + len <= pre.mem().len() && pre.results() == Map::<
                u32,
                ReturnData,
            >::empty() && pre.mem().len() + pre.guest_op(
                PluginOp::Present,
                pre.mem().subrange(ptr as int, ptr + len),
            ).1.len() <= 0xffff_ffff {
                assert(pre.slot is None) by {
                    match pre.slot {
                        Some((h, _d)) => {
                            assert(pre.results().dom().contains(h));
                        },
                        None => {},
                    }
                }
                if !pre.trap_on_call {
                    let h = self.slot->Some_0.0;
                    let d = self.slot->Some_0.1;
                    assert(self.results() =~= Map::<u32, ReturnData>::empty().insert(h, d));
                    assert(self.mem().subrange(d.ptr as int, d.ptr + d.len) == spec_guest_op::<T>(
                        PluginOp::Present,
                        pre.mem().subrange(ptr as int, ptr + len),
                    ).1);
                }
            }
        }
        r
    }

    fn store(&mut self, ptr: u32, len: u32) -> (r: Result<u32, String>) {
        let ghost pre = *self;
        let r = self.run_op(PluginOp::Store, ptr, len);
        proof {
            if pre.conforming() && ptr + len <= pre.mem().len() && pre.results() == Map::<
                u32,
                ReturnData,
            >::empty() && pre.mem().len() + pre.guest_op(
                PluginOp::Store,
                pre.mem().subrange(ptr as int, ptr + len),
            ).1.len() <= 0xffff_ffff {
                assert(pre.slot is None) by {
                    match pre.slot {
                        Some((h, _d)) => {
                            assert(pre.results().dom().contains(h));
                        },
                        None => {},
                    }
                }
                if !pre.trap_on_call {
                    let h = self.slot->Some_0.0;
                    let d = self.slot->Some_0.1;
                    assert(self.results() =~= Map::<u32, ReturnData>::empty().insert(h, d));
                    assert(self.mem().subrange(d.ptr as int, d.ptr + d.len) == spec_guest_op::<T>(
                        PluginOp::Store,
                        pre.mem().subrange(ptr as int, ptr + len),
                    ).1);
                }
            }
        }
        r
    }

    fn result_get_ptr(&mut self, res: u32) -> (r: Result<u32, String>) {
        match self.slot {
            Some((h, d)) => {
                if h == res {
                    Ok(d.ptr)
                } else {
                    Err("unknown descriptor".to_owned())
                }
            },
            None => Err("no outstanding descriptor".to_owned()),
        }
    }

    fn result_get_len(&mut self, res: u32) -> (r: Result<u32, String>) {
        match self.slot {
            Some((h, d)) => {
                if h == res {
                    Ok(d.len)
                } else {
                    Err("unknown descriptor".to_owned())
                }
            },
            None => Err("no outstanding descriptor".to_owned()),
        }
    }

    fn result_get_success(&mut self, res: u32) -> (r: Result<bool, String>) {
        match self.slot {
            Some((h, d)) => {
                if h == res {
                    Ok(d.success)
                } else {
                    Err("unknown descriptor".to_owned())
                }
            },
            None => Err("no outstanding descriptor".to_owned()),
        }
    }

    fn memory_write(&mut self, ptr: u32, bytes: &[u8]) -> (r: Result<(), String>) {
        let n = bytes.len();
        if !(ptr as u128 + n as u128 <= self.memory.len() as u128) {
            return Err("write beyond guest memory".to_owned());
        }
        let ghost pre = *self;
        let ghost premem = self.memory@;
        let mut i: usize = 0;
        while i < n
            invariant
                n == bytes@.len(),
                ptr + n <= premem.len(),
                premem.len() <= usize::MAX,
                self.memory@.len() == premem.len(),
                0 <= i <= n,
                self.slot == pre.slot,
                self.next_handle == pre.next_handle,
                self.frees_issued == pre.frees_issued,
                self.trap_on_call == pre.trap_on_call,
                forall|j: int|
                    0 <= j < premem.len() ==> self.memory@[j] == (if ptr <= j < ptr + i {
                        bytes@[j - ptr]
                    } else {
                        premem[j]
                    }),
            decreases n - i,
        {
            self.memory.set(ptr as usize + i, bytes[i]);
            i += 1;
        }
        proof {
            assert(self.memory@ =~= crate::abi::overwrite(premem, ptr as int, bytes@));
        }
        Ok(())
    }

    fn memory_read(&mut self, ptr: u32, len: u32) -> (r: Result<Vec<u8>, String>) {
        let mlen = self.memory.len();
        proof {
            assert(ptr + len <= mlen);
        }
        let out = vstd::slice::slice_to_vec(
            vstd::slice::slice_subrange(
                self.memory.as_slice(),
                ptr as usize,
                ptr as usize + len as usize,
            ),
        );
        Ok(out)
    }

    fn memory_len(&mut self) -> (r: usize) {
        self.memory.len()
    }
}

} // verus!
