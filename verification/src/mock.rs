//! A scripted plugin: an instance whose guest behaves exactly as told,
//! including badly.  It exercises the driver's error paths — traps,
//! descriptors out of bounds, messages that are not text — which a
//! conforming guest never takes, and counts the `free` calls the host
//! issues so a caller can observe the release discipline.

use vstd::prelude::*;
use crate::abi::{GalaxyFormatPluginV1_, PluginOp, ReturnData};

verus! {

/// What the scripted guest does on `present` and `store`.
#[derive(Clone, Copy, Debug, PartialEq, Eq, Structural)]
pub enum ScriptMode {
    /// Echo the staged input back, reporting the given success flag.
    Echo(bool),
    /// Trap on every operation.
    Trap,
    /// Return a descriptor pointing far outside linear memory.
    BadDescriptor,
    /// Report failure with a message that is not valid UTF-8.
    BadMessage,
}

/// The scripted instance.  It never claims to be conforming; only the
/// bookkeeping clauses of the ABI hold of it.
pub struct ScriptedPlugin {
    memory: Vec<u8>,
    mode: ScriptMode,
    slot: Option<(u32, ReturnData)>,
    free_calls: u32,
    frees_issued: Ghost<nat>,
}

impl ScriptedPlugin {
    /// A fresh scripted instance.
    pub fn new(mode: ScriptMode) -> (r: Self)
        ensures
            r.free_calls_spec() == 0,
    {
        ScriptedPlugin { memory: Vec::new(), mode, slot: None, free_calls: 0, frees_issued: Ghost(0) }
    }

    /// How many `free` calls the host has issued, saturating at the
    /// counter's width.
    pub closed spec fn free_calls_spec(&self) -> u32 {
        self.free_calls
    }

    /// Read the counter out.
    pub fn free_count(&self) -> (r: u32)
        ensures
            r == self.free_calls_spec(),
    {
        self.free_calls
    }
}

impl GalaxyFormatPluginV1_ for ScriptedPlugin {
    closed spec fn mem(&self) -> Seq<u8> {
        self.memory@
    }

    closed spec fn results(&self) -> Map<u32, ReturnData> {
        match self.slot {
            None => Map::empty(),
            Some((h, d)) => Map::empty().insert(h, d),
        }
    }

    closed spec fn frees(&self) -> nat {
        self.frees_issued@
    }

    closed spec fn conforming(&self) -> bool {
        false
    }

    closed spec fn guest_op(&self, op: PluginOp, input: Seq<u8>) -> (bool, Seq<u8>) {
        (false, Seq::empty())
    }

    fn alloc_bytes(&mut self, size: u32) -> (r: Result<u32, String>) {
        let mlen = self.memory.len();
        if !(mlen as u128 + size as u128 <= 0xffff_ffff) {
            return Err("out of scripted memory".to_owned());
        }
        self.memory.resize(mlen + size as usize, 0u8);
        Ok(mlen as u32)
    }

    fn free(&mut self, res: u32) -> (r: Result<(), String>) {
        proof {
            self.frees_issued@ = self.frees_issued@ + 1;
        }
        if self.free_calls < u32::MAX {
            self.free_calls = self.free_calls + 1;
        }
        self.slot = None;
        Ok(())
    }

    fn present(&mut self, ptr: u32, len: u32) -> (r: Result<u32, String>) {
        self.scripted_call(ptr, len)
    }

    fn store(&mut self, ptr: u32, len: u32) -> (r: Result<u32, String>) {
        self.scripted_call(ptr, len)
    }

    fn result_get_ptr(&mut self, res: u32) -> (r: Result<u32, String>) {
        match self.slot {
            Some((h, d)) => {
                if h == res {
                    Ok(d.ptr)
                } else {
                    Err("unknown descriptor".to_owned())
                }
            },
            None => Err("no outstanding descriptor".to_owned()),
        }
    }

    fn result_get_len(&mut self, res: u32) -> (r: Result<u32, String>) {
        match self.slot {
            Some((h, d)) => {
                if h == res {
                    Ok(d.len)
                } else {
                    Err("unknown descriptor".to_owned())
                }
            },
            None => Err("no outstanding descriptor".to_owned()),
        }
    }

    fn result_get_success(&mut self, res: u32) -> (r: Result<bool, String>) {
        match self.slot {
            Some((h, d)) => {
                if h == res {
                    Ok(d.success)
                } else {
                    Err("unknown descriptor".to_owned())
                }
            },
            None => Err("no outstanding descriptor".to_owned()),
        }
    }

    fn memory_write(&mut self, ptr: u32, bytes: &[u8]) -> (r: Result<(), String>) {
        let n = bytes.len();
        if !(ptr as u128 + n as u128 <= self.memory.len() as u128) {
            return Err("write beyond scripted memory".to_owned());
        }
        let ghost premem = self.memory@;
        let mut i: usize = 0;
        while i < n
            invariant
                n == bytes@.len(),
                ptr + n <= premem.len(),
                premem.len() <= usize::MAX,
                self.memory@.len() == premem.len(),
                0 <= i <= n,
                self.frees_issued == old(self).frees_issued,
            decreases n - i,
        {
            self.memory.set(ptr as usize + i, bytes[i]);
            i += 1;
        }
        Ok(())
    }

    fn memory_read(&mut self, ptr: u32, len: u32) -> (r: Result<Vec<u8>, String>) {
        let mlen = self.memory.len();
        proof {
            assert(ptr + len <= mlen);
        }
        let out = vstd::slice::slice_to_vec(
            vstd::slice::slice_subrange(
                self.memory.as_slice(),
                ptr as usize,
                ptr as usize + len as usize,
            ),
        );
        Ok(out)
    }

    fn memory_len(&mut self) -> (r: usize) {
        self.memory.len()
    }
}

impl ScriptedPlugin {
    /// Run the script for one operation.
    fn scripted_call(&mut self, ptr: u32, len: u32) -> (r: Result<u32, String>)
        ensures
            final(self).frees() == old(self).frees(),
            !old(self).conforming(),
    {
        match self.mode {
            ScriptMode::Trap => Err("scripted trap".to_owned()),
            ScriptMode::Echo(success) => {
                let d = ReturnData { ptr, len, capacity: len, success };
                self.slot = Some((7, d));
                Ok(7)
            },
            ScriptMode::BadDescriptor => {
                let d = ReturnData { ptr: 0xffff_0000, len: 16, capacity: 16, success: true };
                self.slot = Some((7, d));
                Ok(7)
            },
            ScriptMode::BadMessage => {
                let mlen = self.memory.len();
                if !(mlen as u128 + 2 <= 0xffff_ffff) {
                    return Err("out of scripted memory".to_owned());
                }
                self.memory.push(0xff);
                self.memory.push(0xfe);
                let d = ReturnData { ptr: mlen as u32, len: 2, capacity: 2, success: false };
                self.slot = Some((7, d));
                Ok(7)
            },
        }
    }
}

} // verus!
