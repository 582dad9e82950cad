//! The contract frame's immutable half: analyzed bytecode plus calldata
//! and call context. Analysis happens once, here; frames then share the
//! derived jumpdest bitmap and gas-block table.

use vstd::prelude::*;
use crate::bytecode::{
    block_gas_spec, jd_set, fuse_spec, padded_spec, pad_code, analyze_jumpdests, fuse_code,
    build_gas_table, lemma_fuse_bytes, lemma_fuse_len, lemma_fuse_idempotent, lemma_jd_props,
};
use crate::opcode;
use crate::word::W256;

verus! {

/// Largest raw bytecode the analysis accepts; the gas-block table stays
/// far below `u64` overflow at this size on any machine.
pub const MAX_CODE_SIZE: usize = 0xFFFF_0000;

pub struct Contract {
    /// Call data handed to this frame.
    pub input: Vec<u8>,
    /// Analyzed code: raw bytes, padded with 33 implicit STOPs, fused.
    pub code: Vec<u8>,
    /// Length of the raw bytecode, before padding.
    pub code_len: usize,
    /// Valid-jumpdest bitmap, one flag per padded byte.
    pub jumps: Vec<bool>,
    /// Static gas of the basic block starting at each offset.
    pub gas_table: Vec<u64>,
    /// The executing account.
    pub address: W256,
    /// The calling account.
    pub caller: W256,
    /// Value passed with the call.
    pub value: W256,
}

impl Contract {
    /// What analysis guarantees, and every frame relies on: the pad is
    /// STOPs, the bitmap marks only JUMPDEST opcodes in the raw region,
    /// the gas table is exactly the block-gas function of the code, and
    /// the code is already fully fused (a second pass changes nothing).
    pub open spec fn wf(&self) -> bool {
        &&& self.code@.len() == self.code_len + 33
        &&& self.code_len <= MAX_CODE_SIZE
        &&& self.jumps@.len() == self.code@.len()
        &&& self.gas_table@.len() == self.code@.len()
        &&& (forall|k: int|
            0 <= k < self.code@.len() ==> self.gas_table@[k] == block_gas_spec(
                self.code@,
                k as nat,
            ))
        &&& (forall|k: int| self.code_len <= k < self.code@.len() ==> self.code@[k] == 0)
        &&& (forall|k: int|
            0 <= k < self.code@.len() && self.jumps@[k] ==> k < self.code_len && self.code@[k]
                == opcode::JUMPDEST)
        &&& fuse_spec(self.code@, self.jumps@, 0) == self.code@
    }

    /// Analyzes `code_raw` (pad, jumpdest bitmap, fusion, gas blocks) and
    /// builds the frame.
    pub fn new(code_raw: Vec<u8>, input: Vec<u8>, address: W256, caller: W256, value: W256) -> (r:
        Contract)
        requires
            code_raw@.len() <= MAX_CODE_SIZE,
        ensures
            r.wf(),
            r.code_len == code_raw@.len(),
            r.input == input,
            r.address == address,
            r.caller == caller,
            r.value == value,
            forall|k: int|
                0 <= k < r.jumps@.len() ==> r.jumps@[k] == jd_set(
                    padded_spec(code_raw@),
                    0,
                ).contains(k as nat),
            r.code@ == fuse_spec(padded_spec(code_raw@), r.jumps@, 0),
    {
        let code_len = code_raw.len();
        let ghost raw = code_raw@;
        let padded = pad_code(code_raw);
        let jumps = analyze_jumpdests(&padded);
        let mut code = padded;
        fuse_code(&mut code, &jumps);
        let gas_table = build_gas_table(&code);
        proof {
            let p = padded_spec(raw);
            lemma_fuse_len(p, jumps@, 0);
            lemma_fuse_bytes(p, jumps@, 0);
            lemma_fuse_idempotent(p, jumps@, 0);
            lemma_jd_props(p, 0);
            assert forall|k: int| code_len <= k < code@.len() implies code@[k] == 0 by {
                assert(p[k] == 0);
            }
            assert forall|k: int|
                0 <= k < code@.len() && jumps@[k] implies k < code_len && code@[k]
                    == opcode::JUMPDEST by {
                assert(jd_set(p, 0).contains(k as nat));
                assert(p[k] == opcode::JUMPDEST);
                assert(k < code_len);
            }
        }
        Contract { input, code, code_len, jumps, gas_table, address, caller, value }
    }

    /// True iff `pc` is a valid jump target: marked in the bitmap, which
    /// by analysis means a JUMPDEST opcode outside any PUSH immediate.
    pub fn is_valid_jump(&self, pc: usize) -> (r: bool)
        ensures
            r == (pc < self.jumps@.len() && self.jumps@[pc as int]),
    {
        pc < self.jumps.len() && self.jumps[pc]
    }

    /// Static gas of the basic block starting at `pc`.
    pub fn gas_block(&self, pc: usize) -> (r: u64)
        requires
            self.wf(),
            pc < self.code@.len(),
        ensures
            r == block_gas_spec(self.code@, pc as nat),
    {
        self.gas_table[pc]
    }

    /// Static gas of the block the frame enters at offset 0.
    pub fn first_gas_block(&self) -> (r: u64)
        requires
            self.wf(),
        ensures
            r == block_gas_spec(self.code@, 0),
    {
        self.gas_table[0]
    }

    /// The opcode byte at `pc`.
    pub fn opcode_at(&self, pc: usize) -> (r: u8)
        requires
            self.wf(),
            pc < self.code@.len(),
        ensures
            r == self.code@[pc as int],
    {
        self.code[pc]
    }
}

} // verus!
