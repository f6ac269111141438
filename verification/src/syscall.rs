//! The script-hash load request served to a virtual machine.
//!
//! The store-adjacent read is branch-free, bounded-cost and side-effect
//! free: it hands out a fixed 32-byte identifier and charges a
//! deterministic per-byte cycle cost.  The machine plumbing around it —
//! registers, memory writes — lives outside the library; the decision of
//! whether and what to answer, and at what cost, is made here.

use vstd::prelude::*;
use crate::meta::copy_bytes;

verus! {

/// The syscall number a machine uses to request the script hash.
pub const LOAD_SCRIPT_HASH_SYSCALL_NUMBER: u64 = 2061;

/// The register value reported on a successfully served request.
pub const SUCCESS: u8 = 0;

/// The cycles charged for each byte handed to the machine.
pub const CYCLES_PER_BYTE: u64 = 10;

/// A syscall handler holding the fixed script hash it serves.
pub struct LoadScriptHash {
    pub hash: Vec<u8>,
}

/// What the handler answers: the bytes to copy into machine memory and the
/// cycles to charge for them.
pub struct SyscallResponse {
    pub data: Vec<u8>,
    pub cycles: u64,
}

impl LoadScriptHash {
    /// A handler serving the given hash.
    pub fn new(hash: Vec<u8>) -> (r: LoadScriptHash)
        ensures
            r.hash@ == hash@,
    {
        LoadScriptHash { hash }
    }

    /// Decides a machine call: a request whose syscall-number register does
    /// not name this syscall is not answered; one that does is served the
    /// whole hash at the fixed per-byte cost.
    pub fn ecall_response(&self, syscall_number: u64) -> (r: Option<SyscallResponse>)
        requires
            self.hash@.len() * CYCLES_PER_BYTE <= u64::MAX,
        ensures
            match r {
                Some(resp) => syscall_number == LOAD_SCRIPT_HASH_SYSCALL_NUMBER && resp.data@
                    == self.hash@ && resp.cycles == self.hash@.len() * CYCLES_PER_BYTE,
                None => syscall_number != LOAD_SCRIPT_HASH_SYSCALL_NUMBER,
            },
    {
        if syscall_number != LOAD_SCRIPT_HASH_SYSCALL_NUMBER {
            return None;
        }
        let data = copy_bytes(&self.hash);
        let cycles = (data.len() as u64) * CYCLES_PER_BYTE;
        Some(SyscallResponse { data, cycles })
    }
}

} // verus!
