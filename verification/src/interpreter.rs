//! The interpreter: one frame's fetch/decode/execute loop. It owns the
//! stack, memory, gas meter and return buffer, advances an instruction
//! pointer over analyzed bytecode, and dispatches each opcode. Static gas
//! is charged per basic block; dynamic gas inside the handlers. A handler
//! that halts exceptionally leaves stack, memory and gas exactly as they
//! were before dispatch.

use vstd::prelude::*;
use crate::bytecode::{block_gas_spec, lemma_block_gas_at_jumpdest, lemma_block_gas_bound};
use crate::bytes_support::{bytes_new, bytes_copy_from_slice, bytes_len, bytes_seq};
use crate::contract::Contract;
use crate::gas::{
    Gas, memory_gas_spec, memory_words, lemma_memory_gas_mono, sstore_cost_spec,
    sstore_refund_spec, legacy_sstore_cost_spec, legacy_sstore_refund_spec, SSTORE_SET,
    SSTORE_RESET_LEGACY, SSTORE_CLEARS, SSTORE_CLEARS_LONDON, SLOAD_ISTANBUL, WARM_STORAGE_READ,
    COLD_SLOAD_COST,
};
use crate::host::{CallInputs, Host};
use crate::memory::Memory;
use crate::opcode::{self, push_size, push_size_spec};
use crate::profile::OpcodeProfile;
use crate::stack::{Stack, STACK_LIMIT};
use crate::word::{W256, be_nat, pow256};
use crate::{Return, SpecId};

verus! {

broadcast use vstd::array::group_array_axioms;

/// Gas kept from a value-bearing call; also the floor under which a
/// net-metered storage write refuses to run.
pub const CALL_STIPEND: u64 = 2300;

pub struct Interpreter {
    /// Contract information and invoking data.
    pub contract: Contract,
    /// Offset of the next opcode byte in the analyzed code.
    pub instruction_pointer: usize,
    /// Memory.
    pub memory: Memory,
    /// Stack.
    pub stack: Stack,
    /// Remaining gas and refunds.
    pub gas: Gas,
    /// After a sub-call returns, its output is saved here.
    pub return_data_buffer: bytes::Bytes,
    /// The memory window RETURN/REVERT chose; `usize::MAX` marks none.
    pub return_range: (usize, usize),
    /// Cap on memory bytes; growing past it halts with `MemoryLimitOOG`.
    pub memory_limit: u64,
    /// Protocol revision of this frame.
    pub spec_id: SpecId,
    /// Whether state-changing opcodes are forbidden in this frame.
    pub is_static: bool,
    /// Opt-in opcode n-gram counter.
    pub profile: OpcodeProfile,
}

/// Memory length after an access of `size` bytes at `off`: unchanged for
/// empty accesses, else grown to the word-aligned end of the access.
pub open spec fn grown_len(cur: nat, off: nat, size: nat) -> nat {
    if size == 0 {
        cur
    } else if ((off + size + 31) / 32) * 32 > cur {
        ((off + size + 31) / 32) * 32
    } else {
        cur
    }
}

/// When a charge of `extra` plus the expansion for `[off, off+size)` is
/// owed to succeed: the grown memory fits the machine, respects the
/// frame's cap, and the whole bill fits under the gas limit.
#[verifier::opaque]
pub open spec fn charge_ok(g: Gas, cur: nat, cap: u64, off: nat, size: nat, extra: u64) -> bool {
    let newlen = grown_len(cur, off, size);
    &&& newlen <= usize::MAX
    &&& (size > 0 && newlen > cur ==> newlen <= cap)
    &&& g.used + extra + memory_gas_spec(newlen) <= g.limit
}

impl Interpreter {
    /// Everything the loop preserves: component well-formedness, the gas
    /// meter's memory share equal to the held memory's cost, the pointer
    /// inside the padded code, and a readable return window.
    pub open spec fn wf(&self) -> bool {
        &&& self.contract.wf()
        &&& self.stack@.len() <= STACK_LIMIT
        &&& self.memory.wf()
        &&& self.gas.wf()
        &&& self.gas.memory == memory_gas_spec(self.memory@.len())
        &&& self.instruction_pointer <= self.contract.code_len + 33
        &&& self.profile.wf()
        &&& (self.return_range.0 != usize::MAX ==> self.return_range.0 <= self.return_range.1
            <= self.memory@.len())
    }

    /// A fresh frame: pointer at 0, empty stack and memory, full gas.
    pub fn new(contract: Contract, gas_limit: u64, spec_id: SpecId, is_static: bool) -> (r:
        Interpreter)
        requires
            contract.wf(),
        ensures
            r.wf(),
            r.contract == contract,
            r.instruction_pointer == 0,
            r.stack@.len() == 0,
            r.memory@.len() == 0,
            r.gas.limit == gas_limit,
            r.gas.used == 0,
            r.gas.memory == 0,
            r.gas.refunded == 0,
            r.spec_id == spec_id,
            r.is_static == is_static,
            r.memory_limit == u64::MAX,
            bytes_seq(r.return_data_buffer).len() == 0,
    {
        let r = Interpreter {
            contract,
            instruction_pointer: 0,
            memory: Memory::new(),
            stack: Stack::new(),
            gas: Gas::new(gas_limit),
            return_data_buffer: bytes_new(),
            return_range: (usize::MAX, usize::MAX),
            memory_limit: u64::MAX,
            spec_id,
            is_static,
            profile: OpcodeProfile::new(0),
        };
        proof {
            vstd::arithmetic::div_mod::lemma_basic_div(31, 32);
            vstd::arithmetic::div_mod::lemma_basic_div(0, 512);
            assert(memory_words(0) == 0);
            assert(memory_gas_spec(0) == 0);
            assert(r.gas.wf());
            assert(r.memory.wf());
            assert(r.wf());
        }
        r
    }

    /// A fresh frame with a cap on memory bytes.
    pub fn new_with_memory_limit(
        contract: Contract,
        gas_limit: u64,
        memory_limit: u64,
        spec_id: SpecId,
        is_static: bool,
    ) -> (r: Interpreter)
        requires
            contract.wf(),
        ensures
            r.wf(),
            r.contract == contract,
            r.instruction_pointer == 0,
            r.stack@.len() == 0,
            r.memory@.len() == 0,
            r.gas.limit == gas_limit,
            r.gas.used == 0,
            r.gas.refunded == 0,
            r.memory_limit == memory_limit,
            r.spec_id == spec_id,
            r.is_static == is_static,
    {
        let mut r = Interpreter::new(contract, gas_limit, spec_id, is_static);
        r.memory_limit = memory_limit;
        r
    }

    /// Reference of the contract frame.
    pub fn contract(&self) -> (r: &Contract)
        ensures
            r == &self.contract,
    {
        &self.contract
    }

    /// Reference of the gas meter.
    pub fn gas(&self) -> (r: &Gas)
        ensures
            r == &self.gas,
    {
        &self.gas
    }

    /// Reference of the interpreter stack.
    pub fn stack(&self) -> (r: &Stack)
        ensures
            r == &self.stack,
    {
        &self.stack
    }

    /// The opcode byte under the instruction pointer.
    pub fn current_opcode(&self) -> (r: u8)
        requires
            self.wf(),
            self.instruction_pointer < self.contract.code@.len(),
        ensures
            r == self.contract.code@[self.instruction_pointer as int],
    {
        self.contract.opcode_at(self.instruction_pointer)
    }

    /// The current offset into the code: the pointer is the counter.
    pub fn program_counter(&self) -> (r: usize)
        ensures
            r == self.instruction_pointer,
    {
        self.instruction_pointer
    }

    /// Charges the static gas of the basic block starting at `pc`.
    pub fn add_next_gas_block(&mut self, pc: usize) -> (r: Return)
        requires
            old(self).wf(),
            pc < old(self).contract.code@.len(),
        ensures
            final(self).wf(),
            r == Return::Continue || r == Return::OutOfGas,
            ({
                let blk = block_gas_spec(old(self).contract.code@, pc as nat);
                &&& (r == Return::Continue <==> blk <= old(self).gas.spec_remaining())
                &&& (r == Return::Continue ==> *final(self) == (Interpreter {
                    gas: (Gas { used: (old(self).gas.used + blk) as u64, ..old(self).gas }),
                    ..*old(self)
                }))
                &&& (r != Return::Continue ==> *final(self) == *old(self))
            }),
    {
        proof {
            lemma_block_gas_bound(self.contract.code@, pc as nat);
        }
        let blk = self.contract.gas_block(pc);
        if !self.gas.record_cost(blk) {
            return Return::OutOfGas;
        }
        Return::Continue
    }

    /// Copies the chosen return window out of memory, if any.
    pub fn return_value(&self) -> (r: bytes::Bytes)
        requires
            self.wf(),
        ensures
            self.return_range.0 == usize::MAX ==> bytes_seq(r).len() == 0,
            self.return_range.0 != usize::MAX ==> bytes_seq(r) == self.memory@.subrange(
                self.return_range.0 as int,
                self.return_range.1 as int,
            ),
    {
        if self.return_range.0 == usize::MAX {
            bytes_new()
        } else {
            let data = self.memory.get_copy(
                self.return_range.0,
                self.return_range.1 - self.return_range.0,
            );
            bytes_copy_from_slice(data.as_slice())
        }
    }

    /// The n-gram counter's table: every pair is an entry, no key twice,
    /// every key present; the order is the hasher's.
    pub fn ngram_entries(&self) -> (r: Vec<(u64, u64)>)
        ensures
            forall|i: int|
                0 <= i < r@.len() ==> crate::profile::counts_map(
                    self.profile.counts,
                ).contains_pair(r@[i].0, r@[i].1),
            forall|i: int, j: int| 0 <= i < j < r@.len() ==> r@[i].0 != r@[j].0,
            forall|k: u64|
                crate::profile::counts_map(self.profile.counts).dom().contains(k) ==> exists|i: int|
                    0 <= i < r@.len() && r@[i].0 == k,
    {
        self.profile.entries()
    }

    /// The n-gram counter's table ordered by count, largest first, ready
    /// for an embedding to print.
    pub fn ngram_entries_sorted(&self) -> (r: Vec<(u64, u64)>)
        ensures
            forall|i: int|
                0 <= i < r@.len() ==> crate::profile::counts_map(
                    self.profile.counts,
                ).contains_pair(r@[i].0, r@[i].1),
            forall|i: int, j: int| 0 <= i <= j < r@.len() ==> r@[i].1 >= r@[j].1,
    {
        self.profile.entries_sorted()
    }

    /// Re-runs the fusion pass over the already-analyzed code. Analysis
    /// is idempotent, so this provably changes nothing.
    pub fn analyse(&mut self)
        requires
            old(self).wf(),
        ensures
            final(self).wf(),
            final(self).contract.code@ == old(self).contract.code@,
            final(self).contract.code_len == old(self).contract.code_len,
            final(self).contract.jumps == old(self).contract.jumps,
            final(self).contract.gas_table == old(self).contract.gas_table,
            final(self).contract.input == old(self).contract.input,
            final(self).contract.address == old(self).contract.address,
            final(self).contract.caller == old(self).contract.caller,
            final(self).contract.value == old(self).contract.value,
            final(self).stack@ == old(self).stack@,
            final(self).memory@ == old(self).memory@,
            final(self).gas == old(self).gas,
            final(self).instruction_pointer == old(self).instruction_pointer,
            final(self).spec_id == old(self).spec_id,
            final(self).is_static == old(self).is_static,
            final(self).memory_limit == old(self).memory_limit,
            final(self).profile == old(self).profile,
            final(self).return_range == old(self).return_range,
            final(self).return_data_buffer == old(self).return_data_buffer,
    {
        let ghost pre = self.contract.code@;
        crate::bytecode::fuse_code(&mut self.contract.code, &self.contract.jumps);
        proof {
            assert(self.contract.code@ == pre);
        }
    }
}

/// Rounds, caps, charges and grows: deducts `extra_cost` plus the memory
/// expansion cost for the access `[off, off+size)`, then resizes; on any
/// failure the interpreter is exactly as before. Success happens exactly
/// when `charge_ok` holds; the cap answers `MemoryLimitOOG`, every other
/// failure `OutOfGas`.
pub fn charge_and_resize(interp: &mut Interpreter, off: u64, size: u64, extra_cost: u64) -> (r:
    Return)
    requires
        old(interp).wf(),
    ensures
        final(interp).wf(),
        r == Return::Continue || r == Return::OutOfGas || r == Return::MemoryLimitOOG,
        r != Return::Continue ==> *final(interp) == *old(interp),
        final(interp).contract == old(interp).contract,
        final(interp).instruction_pointer == old(interp).instruction_pointer,
        final(interp).stack@ == old(interp).stack@,
        final(interp).return_range == old(interp).return_range,
        final(interp).return_data_buffer == old(interp).return_data_buffer,
        final(interp).spec_id == old(interp).spec_id,
        final(interp).is_static == old(interp).is_static,
        final(interp).memory_limit == old(interp).memory_limit,
        final(interp).profile == old(interp).profile,
        final(interp).gas.limit == old(interp).gas.limit,
        final(interp).gas.refunded == old(interp).gas.refunded,
        r == Return::Continue ==> {
            let newlen = grown_len(old(interp).memory@.len(), off as nat, size as nat);
            &&& final(interp).memory@.len() == newlen
            &&& final(interp).memory@.subrange(0, old(interp).memory@.len() as int) == old(
                interp,
            ).memory@
            &&& (forall|i: int|
                old(interp).memory@.len() <= i < newlen ==> final(interp).memory@[i] == 0)
            &&& final(interp).gas.used == old(interp).gas.used + extra_cost
            &&& (size > 0 ==> off + size <= newlen)
        },
        r == Return::Continue ==> final(interp).gas.spec_remaining() <= old(
            interp,
        ).gas.spec_remaining(),
        r == Return::Continue <==> charge_ok(
            old(interp).gas,
            old(interp).memory@.len(),
            old(interp).memory_limit,
            off as nat,
            size as nat,
            extra_cost,
        ),
        r == Return::MemoryLimitOOG <==> size > 0 && grown_len(
            old(interp).memory@.len(),
            off as nat,
            size as nat,
        ) > old(interp).memory@.len() && grown_len(
            old(interp).memory@.len(),
            off as nat,
            size as nat,
        ) > old(interp).memory_limit,
{
    proof {
        reveal(charge_ok);
    }
    let cur = interp.memory.len();
    if size == 0 {
        if !interp.gas.record_cost(extra_cost) {
            return Return::OutOfGas;
        }
        return Return::Continue;
    }
    let target128: u128 = off as u128 + size as u128;
    let rounded128: u128 = ((target128 + 31) / 32) * 32;
    proof {
        lemma_ceil32_bounds(target128 as nat);
    }
    if rounded128 <= cur as u128 {
        if !interp.gas.record_cost(extra_cost) {
            return Return::OutOfGas;
        }
        return Return::Continue;
    }
    if rounded128 > interp.memory_limit as u128 {
        return Return::MemoryLimitOOG;
    }
    let w128: u128 = rounded128 / 32;
    proof {
        vstd::arithmetic::div_mod::lemma_div_is_ordered(
            rounded128 as int,
            0x4_0000_0000_0000_0000,
            32,
        );
        assert(0x4_0000_0000_0000_0000int / 32 == 0x2000_0000_0000_0000) by (nonlinear_arith);
        assert(w128 * w128 <= 0x2000_0000_0000_0000 * 0x2000_0000_0000_0000) by (nonlinear_arith)
            requires
                0 <= w128 <= 0x2000_0000_0000_0000,
        ;
    }
    let cost128: u128 = 3 * w128 + (w128 * w128) / 512;
    proof {
        lemma_cost_of_rounded(target128 as nat, cur as nat);
        assert(w128 == memory_words(target128 as nat)) by {
            lemma_ceil32_words(target128 as nat);
        }
    }
    if cost128 > 0xFFFF_FFFF_FFFF_FFFFu128 {
        return Return::OutOfGas;
    }
    let cost = cost128 as u64;
    if (interp.gas.used as u128) + (extra_cost as u128) + (cost as u128) > (
    interp.gas.limit as u128) {
        return Return::OutOfGas;
    }
    if rounded128 > (usize::MAX as u128) {
        return Return::OutOfGas;
    }
    let rounded = rounded128 as usize;
    proof {
        lemma_memory_gas_mono(cur as nat, rounded as nat);
        lemma_memory_gas_strict(cur as nat, rounded as nat);
    }
    let ok1 = interp.gas.record_cost(extra_cost);
    assert(ok1);
    let ok2 = interp.gas.record_memory(cost);
    assert(ok2);
    interp.memory.resize(rounded);
    Return::Continue
}

/// Word-aligned rounding stays within one extra word.
proof fn lemma_ceil32_bounds(t: nat)
    ensures
        t <= ((t + 31) / 32) * 32 < t + 32,
        (((t + 31) / 32) * 32) % 32 == 0,
{
    let q = (t + 31) / 32;
    vstd::arithmetic::div_mod::lemma_fundamental_div_mod((t + 31) as int, 32);
    vstd::arithmetic::div_mod::lemma_mod_bound((t + 31) as int, 32);
    assert(q * 32 == 32 * q) by (nonlinear_arith);
    vstd::arithmetic::div_mod::lemma_mod_multiples_basic(q as int, 32);
}

/// The rounded length needs exactly as many words as the raw target.
proof fn lemma_ceil32_words(t: nat)
    ensures
        (((t + 31) / 32) * 32) / 32 == memory_words(t),
{
    let q = (t + 31) / 32;
    assert(q * 32 == 32 * q) by (nonlinear_arith);
    vstd::arithmetic::div_mod::lemma_div_multiples_vanish(q as int, 32);
}

/// The memory cost of the rounded target equals the cost formula on the
/// raw target, so the meter's memory share matches the resized buffer.
proof fn lemma_cost_of_rounded(t: nat, cur: nat)
    ensures
        memory_gas_spec(((t + 31) / 32) * 32) == memory_gas_spec(t),
{
    lemma_ceil32_words(t);
    let r = ((t + 31) / 32) * 32;
    assert(memory_words(r) == r / 32) by {
        lemma_ceil32_bounds(t);
        vstd::arithmetic::div_mod::lemma_fundamental_div_mod(r as int, 32);
        vstd::arithmetic::div_mod::lemma_fundamental_div_mod_converse(
            (r + 31) as int,
            32,
            (r / 32 + 0) as int + 0,
            31,
        );
    }
}

/// Strictly more aligned memory strictly costs more: growth always
/// raises the meter's memory share.
proof fn lemma_memory_gas_strict(a: nat, b: nat)
    requires
        a % 32 == 0,
        b % 32 == 0,
        a < b,
    ensures
        memory_gas_spec(a) < memory_gas_spec(b),
{
    let wa = memory_words(a);
    let wb = memory_words(b);
    vstd::arithmetic::div_mod::lemma_fundamental_div_mod(a as int, 32);
    vstd::arithmetic::div_mod::lemma_fundamental_div_mod(b as int, 32);
    vstd::arithmetic::div_mod::lemma_fundamental_div_mod_converse(
        (a + 31) as int,
        32,
        (a / 32) as int,
        31,
    );
    vstd::arithmetic::div_mod::lemma_fundamental_div_mod_converse(
        (b + 31) as int,
        32,
        (b / 32) as int,
        31,
    );
    assert(wa == a / 32 && wb == b / 32);
    assert(a / 32 < b / 32) by (nonlinear_arith)
        requires
            a == 32 * (a / 32),
            b == 32 * (b / 32),
            a < b,
    ;
    assert(wa * wa <= wb * wb) by (nonlinear_arith)
        requires
            0 <= wa <= wb,
    ;
    vstd::arithmetic::div_mod::lemma_div_is_ordered((wa * wa) as int, (wb * wb) as int, 512);
}

/// Cost of one storage read under `spec_id`.
pub fn sload_cost(spec_id: SpecId, is_cold: bool) -> (r: u64)
    ensures
        spec_id.rank() >= SpecId::Berlin.rank() ==> r == (if is_cold {
            COLD_SLOAD_COST
        } else {
            WARM_STORAGE_READ
        }),
        spec_id == SpecId::Istanbul ==> r == SLOAD_ISTANBUL,
        spec_id == SpecId::Tangerine ==> r == 200,
        spec_id == SpecId::Frontier ==> r == 50,
{
    if spec_id.at_least(SpecId::Berlin) {
        if is_cold {
            COLD_SLOAD_COST
        } else {
            WARM_STORAGE_READ
        }
    } else if spec_id.at_least(SpecId::Istanbul) {
        SLOAD_ISTANBUL
    } else if spec_id.at_least(SpecId::Tangerine) {
        200
    } else {
        50
    }
}

/// Cost and refund delta of one storage write, from the slot's original,
/// current and new values, per the active schedule.
pub fn sstore_gas_calc(spec_id: SpecId, o: &W256, c: &W256, n: &W256, is_cold: bool) -> (r: (
    u64,
    i64,
))
    ensures
        spec_id.rank() >= SpecId::Istanbul.rank() ==> r.0 == sstore_cost_spec(
            spec_id,
            o.as_nat(),
            c.as_nat(),
            n.as_nat(),
        ) + (if spec_id.rank() >= SpecId::Berlin.rank() && is_cold {
            COLD_SLOAD_COST as nat
        } else {
            0nat
        }),
        spec_id.rank() >= SpecId::Istanbul.rank() ==> r.1 == sstore_refund_spec(
            spec_id,
            o.as_nat(),
            c.as_nat(),
            n.as_nat(),
        ),
        spec_id.rank() < SpecId::Istanbul.rank() ==> r.0 == legacy_sstore_cost_spec(
            c.as_nat(),
            n.as_nat(),
        ) && r.1 == legacy_sstore_refund_spec(c.as_nat(), n.as_nat()),
{
    if !spec_id.at_least(SpecId::Istanbul) {
        let cost = if c.is_zero() && !n.is_zero() {
            SSTORE_SET
        } else {
            SSTORE_RESET_LEGACY
        };
        let refund: i64 = if !c.is_zero() && n.is_zero() {
            SSTORE_CLEARS as i64
        } else {
            0
        };
        return (cost, refund);
    }
    let sload: u64 = if spec_id.at_least(SpecId::Berlin) {
        WARM_STORAGE_READ
    } else {
        SLOAD_ISTANBUL
    };
    let reset: u64 = if spec_id.at_least(SpecId::Berlin) {
        SSTORE_RESET_LEGACY - COLD_SLOAD_COST
    } else {
        SSTORE_RESET_LEGACY
    };
    let clears: u64 = if spec_id.at_least(SpecId::London) {
        SSTORE_CLEARS_LONDON
    } else {
        SSTORE_CLEARS
    };
    let surcharge: u64 = if spec_id.at_least(SpecId::Berlin) && is_cold {
        COLD_SLOAD_COST
    } else {
        0
    };
    let cost: u64 = if c.eq_word(n) {
        sload
    } else if c.eq_word(o) {
        if o.is_zero() {
            SSTORE_SET
        } else {
            reset
        }
    } else {
        sload
    };
    let refund: i64 = if c.eq_word(n) {
        0
    } else if c.eq_word(o) {
        if !o.is_zero() && n.is_zero() {
            clears as i64
        } else {
            0
        }
    } else {
        (if !o.is_zero() {
            (if c.is_zero() {
                -(clears as i64)
            } else {
                0
            }) + (if n.is_zero() {
                clears as i64
            } else {
                0
            })
        } else {
            0
        }) + (if o.eq_word(n) {
            if o.is_zero() {
                (SSTORE_SET - sload) as i64
            } else {
                (reset - sload) as i64
            }
        } else {
            0
        })
    };
    (cost + surcharge, refund)
}


/// Parts of the frame no handler ever changes besides the stack.
pub open spec fn only_stack_changed(pre: Interpreter, post: Interpreter) -> bool {
    &&& post.memory@ == pre.memory@
    &&& post.gas == pre.gas
    &&& post.instruction_pointer == pre.instruction_pointer
    &&& post.return_range == pre.return_range
    &&& post.return_data_buffer == pre.return_data_buffer
}

/// What each two-operand opcode leaves on the stack, from the top
/// operand `a` and the one below it `b`.
pub open spec fn binop_value(op: u8, a: W256, b: W256, w: W256) -> bool {
    if op == opcode::ADD {
        w.as_nat() == (a.as_nat() + b.as_nat()) % pow256(32)
    } else if op == opcode::LT {
        w.as_nat() == (if a.as_nat() < b.as_nat() {
            1nat
        } else {
            0nat
        })
    } else if op == opcode::GT {
        w.as_nat() == (if b.as_nat() < a.as_nat() {
            1nat
        } else {
            0nat
        })
    } else if op == opcode::EQ {
        w.as_nat() == (if a.as_nat() == b.as_nat() {
            1nat
        } else {
            0nat
        })
    } else if op == opcode::AND {
        forall|i: int| 0 <= i < 32 ==> w.bytes@[i] == (a.bytes@[i] & b.bytes@[i])
    } else if op == opcode::OR {
        forall|i: int| 0 <= i < 32 ==> w.bytes@[i] == (a.bytes@[i] | b.bytes@[i])
    } else if op == opcode::XOR {
        forall|i: int| 0 <= i < 32 ==> w.bytes@[i] == (a.bytes@[i] ^ b.bytes@[i])
    } else {
        true
    }
}

/// The word each environment opcode pushes.
pub open spec fn env_word(op: u8, pre: Interpreter, w: W256) -> bool {
    if op == opcode::ADDRESS {
        w == pre.contract.address
    } else if op == opcode::CALLER {
        w == pre.contract.caller
    } else if op == opcode::CALLVALUE {
        w == pre.contract.value
    } else if op == opcode::CALLDATASIZE {
        w.as_nat() == pre.contract.input@.len()
    } else if op == opcode::CODESIZE {
        w.as_nat() == pre.contract.code_len
    } else if op == opcode::RETURNDATASIZE {
        w.as_nat() == bytes_seq(pre.return_data_buffer).len()
    } else if op == opcode::PC {
        w.as_nat() == pre.instruction_pointer - 1
    } else if op == opcode::MSIZE {
        w.as_nat() == pre.memory@.len()
    } else {
        true
    }
}

/// The 32 bytes a calldata read at `idx` yields: the input's bytes,
/// zero-extended past its end.
pub open spec fn calldata_word(input: Seq<u8>, idx: nat) -> Seq<u8> {
    Seq::new(32, |k: int| if idx + k < input.len() {
        input[idx as int + k]
    } else {
        0u8
    })
}

/// Exact effect of every opcode the core group carries, on the inputs
/// spec allows it to succeed on; failures are covered by the dispatcher's
/// unchanged-on-exceptional-halt clause.
pub open spec fn core_effect(op: u8, pre: Interpreter, post: Interpreter, r: Return) -> bool {
    let s = pre.stack@;
    let len = s.len() as int;
    &&& ((op == opcode::ADD || op == opcode::LT || op == opcode::GT || op == opcode::EQ || op
        == opcode::AND || op == opcode::OR || op == opcode::XOR) && len >= 2 ==> {
        &&& r == Return::Continue
        &&& only_stack_changed(pre, post)
        &&& post.stack@.len() == len - 1
        &&& post.stack@.drop_last() == s.drop_last().drop_last()
        &&& binop_value(op, s[len - 1], s[len - 2], post.stack@.last())
    })
    &&& ((op == opcode::ISZERO || op == opcode::NOT) && len >= 1 ==> {
        &&& r == Return::Continue
        &&& only_stack_changed(pre, post)
        &&& post.stack@.len() == len
        &&& post.stack@.drop_last() == s.drop_last()
        &&& (op == opcode::ISZERO ==> post.stack@.last().as_nat() == (if s[len - 1].as_nat()
            == 0 {
            1nat
        } else {
            0nat
        }))
        &&& (op == opcode::NOT ==> forall|i: int|
            0 <= i < 32 ==> post.stack@.last().bytes@[i] == !s[len - 1].bytes@[i])
    })
    &&& ((op == opcode::ADDRESS || op == opcode::CALLER || op == opcode::CALLVALUE || op
        == opcode::CALLDATASIZE || op == opcode::CODESIZE || op == opcode::RETURNDATASIZE || op
        == opcode::PC || op == opcode::MSIZE) && len < 1024 ==> {
        &&& r == Return::Continue
        &&& only_stack_changed(pre, post)
        &&& post.stack@.len() == len + 1
        &&& post.stack@.drop_last() == s
        &&& env_word(op, pre, post.stack@.last())
    })
    &&& (op == opcode::CALLDATALOAD && len >= 1 ==> {
        &&& r == Return::Continue
        &&& only_stack_changed(pre, post)
        &&& post.stack@.len() == len
        &&& post.stack@.drop_last() == s.drop_last()
        &&& post.stack@.last().bytes@ == calldata_word(pre.contract.input@, s[len - 1].as_nat())
    })
    &&& (op == opcode::POP && len >= 1 ==> r == Return::Continue && only_stack_changed(pre, post)
        && post.stack@ == s.drop_last())
    &&& ((opcode::PUSH1 <= op <= opcode::PUSH32) && len < 1024 ==> {
        &&& r == Return::Continue
        &&& post.memory@ == pre.memory@
        &&& post.gas == pre.gas
        &&& post.return_range == pre.return_range
        &&& post.return_data_buffer == pre.return_data_buffer
        &&& post.instruction_pointer == pre.instruction_pointer + push_size_spec(op)
        &&& post.stack@.len() == len + 1
        &&& post.stack@.drop_last() == s
        &&& post.stack@.last().as_nat() == be_nat(pre.contract.code@.subrange(
            pre.instruction_pointer as int,
            pre.instruction_pointer + push_size_spec(op),
        ))
    })
    &&& ((opcode::DUP1 <= op <= opcode::DUP16) && len >= op - opcode::DUP1 + 1 && len < 1024 ==> {
        &&& r == Return::Continue
        &&& only_stack_changed(pre, post)
        &&& post.stack@ == s.push(s[len - (op - opcode::DUP1 + 1)])
    })
    &&& ((opcode::SWAP1 <= op <= opcode::SWAP16) && len > op - opcode::SWAP1 + 1 ==> {
        &&& r == Return::Continue
        &&& only_stack_changed(pre, post)
        &&& post.stack@ == s.update(len - 1, s[len - 1 - (op - opcode::SWAP1 + 1)]).update(
            len - 1 - (op - opcode::SWAP1 + 1),
            s[len - 1],
        )
    })
}

/// The memory grew exactly to hold the access `[off, off+size)`: the old
/// bytes kept, the new ones zero.
pub open spec fn mem_grown(pre: Interpreter, post: Interpreter, off: nat, size: nat) -> bool {
    let cur = pre.memory@.len();
    &&& post.memory@.len() == grown_len(cur, off, size)
    &&& post.memory@.subrange(0, cur as int) == pre.memory@
    &&& (forall|i: int| cur <= i < post.memory@.len() ==> post.memory@[i] == 0)
}

/// Exact effect of the memory group, on the inputs it is owed to succeed
/// on: a representable offset and a payable charge (`charge_ok`).
pub open spec fn memory_effect(op: u8, pre: Interpreter, post: Interpreter, r: Return) -> bool {
    let s = pre.stack@;
    let len = s.len() as int;
    let cur = pre.memory@.len();
    &&& (op == opcode::MLOAD && len >= 1 && s[len - 1].as_nat() < 0x1_0000_0000_0000_0000
        && charge_ok(pre.gas, cur, pre.memory_limit, s[len - 1].as_nat(), 32, 0) ==> {
        let off = s[len - 1].as_nat();
        &&& r == Return::Continue
        &&& mem_grown(pre, post, off, 32)
        &&& post.stack@.len() == len
        &&& post.stack@.drop_last() == s.drop_last()
        &&& post.stack@.last().bytes@ == post.memory@.subrange(off as int, off as int + 32)
        &&& post.gas.used == pre.gas.used
        &&& post.gas.refunded == pre.gas.refunded
        &&& post.instruction_pointer == pre.instruction_pointer
        &&& post.return_range == pre.return_range
        &&& post.return_data_buffer == pre.return_data_buffer
    })
    &&& ((op == opcode::MSTORE || op == opcode::MSTORE8) && len >= 2 && s[len - 1].as_nat()
        < 0x1_0000_0000_0000_0000 && charge_ok(
        pre.gas,
        cur,
        pre.memory_limit,
        s[len - 1].as_nat(),
        (if op == opcode::MSTORE {
            32nat
        } else {
            1nat
        }),
        0,
    ) ==> {
        let off = s[len - 1].as_nat();
        let width = (if op == opcode::MSTORE {
            32nat
        } else {
            1nat
        });
        &&& r == Return::Continue
        &&& post.stack@ == s.drop_last().drop_last()
        &&& post.memory@.len() == grown_len(cur, off, width)
        &&& (forall|i: int|
            off <= i < off + width ==> post.memory@[i] == (if op == opcode::MSTORE {
                s[len - 2].bytes@[i - off]
            } else {
                s[len - 2].bytes@[31]
            }))
        &&& (forall|i: int|
            0 <= i < post.memory@.len() && !(off <= i < off + width) ==> post.memory@[i] == (
            if i < cur {
                pre.memory@[i]
            } else {
                0u8
            }))
        &&& post.gas.used == pre.gas.used
        &&& post.gas.refunded == pre.gas.refunded
        &&& post.instruction_pointer == pre.instruction_pointer
        &&& post.return_range == pre.return_range
        &&& post.return_data_buffer == pre.return_data_buffer
    })
    &&& ((op == opcode::RETURN || op == opcode::REVERT) && len >= 2 ==> {
        let kind = (if op == opcode::RETURN {
            Return::Return
        } else {
            Return::Revert
        });
        &&& (s[len - 2].as_nat() == 0 ==> {
            &&& r == kind
            &&& post.stack@ == s.drop_last().drop_last()
            &&& post.memory@ == pre.memory@
            &&& post.gas == pre.gas
            &&& post.return_range == (usize::MAX, usize::MAX)
            &&& post.return_data_buffer == pre.return_data_buffer
        })
        &&& (s[len - 2].as_nat() > 0 && s[len - 1].as_nat() < 0x1_0000_0000_0000_0000 && s[len
            - 2].as_nat() < 0x1_0000_0000_0000_0000 && charge_ok(
            pre.gas,
            cur,
            pre.memory_limit,
            s[len - 1].as_nat(),
            s[len - 2].as_nat(),
            0,
        ) ==> {
            &&& r == kind
            &&& post.stack@ == s.drop_last().drop_last()
            &&& mem_grown(pre, post, s[len - 1].as_nat(), s[len - 2].as_nat())
            &&& post.gas.used == pre.gas.used
            &&& post.gas.refunded == pre.gas.refunded
            &&& post.return_range == ((s[len - 1].as_nat() as usize), ((s[len - 1].as_nat() + s[
                len - 2].as_nat()) as usize))
            &&& post.return_data_buffer == pre.return_data_buffer
        })
    })
}

/// A marked jump target: the bitmap's word on offset `t`.
pub open spec fn jump_target_ok(c: Contract, t: nat) -> bool {
    t < c.jumps@.len() && c.jumps@[t as int]
}

/// Exact effect of the flow group: jumps land exactly on marked targets
/// and pay 1 gas for the landing block; fallthrough past a block end
/// pays the next block or halts out of gas, never anything else.
pub open spec fn flow_effect(op: u8, pre: Interpreter, post: Interpreter, r: Return) -> bool {
    let s = pre.stack@;
    let len = s.len() as int;
    let code = pre.contract.code@;
    let rem = pre.gas.spec_remaining();
    &&& (op == opcode::JUMP && len >= 1 ==> {
        let t = s[len - 1].as_nat();
        &&& (!jump_target_ok(pre.contract, t) ==> r == Return::InvalidJump)
        &&& (jump_target_ok(pre.contract, t) && rem >= 1 ==> {
            &&& r == Return::Continue
            &&& post.instruction_pointer == t
            &&& post.stack@ == s.drop_last()
            &&& post.memory@ == pre.memory@
            &&& post.gas == (Gas { used: (pre.gas.used + 1) as u64, ..pre.gas })
        })
        &&& (jump_target_ok(pre.contract, t) && rem < 1 ==> r == Return::OutOfGas)
    })
    &&& (op == opcode::JUMPI && len >= 2 ==> {
        let t = s[len - 1].as_nat();
        let taken = s[len - 2].as_nat() != 0;
        &&& (taken && !jump_target_ok(pre.contract, t) ==> r == Return::InvalidJump)
        &&& (taken && jump_target_ok(pre.contract, t) && rem >= 1 ==> {
            &&& r == Return::Continue
            &&& post.instruction_pointer == t
            &&& post.stack@ == s.drop_last().drop_last()
            &&& post.memory@ == pre.memory@
            &&& post.gas == (Gas { used: (pre.gas.used + 1) as u64, ..pre.gas })
        })
        &&& (!taken ==> {
            let blk = block_gas_spec(code, pre.instruction_pointer as nat);
            &&& (blk <= rem ==> r == Return::Continue && post.instruction_pointer
                == pre.instruction_pointer && post.stack@ == s.drop_last().drop_last()
                && post.memory@ == pre.memory@ && post.gas == (Gas {
                used: (pre.gas.used + blk) as u64,
                ..pre.gas
            }))
            &&& (blk > rem ==> r == Return::OutOfGas)
        })
    })
    &&& (op == opcode::JUMPDEST ==> {
        let blk = block_gas_spec(code, pre.instruction_pointer as nat);
        &&& (blk <= rem ==> r == Return::Continue && post.stack@ == s
            && post.instruction_pointer == pre.instruction_pointer && post.memory@ == pre.memory@
            && post.gas == (Gas { used: (pre.gas.used + blk) as u64, ..pre.gas }))
        &&& (blk > rem ==> r == Return::OutOfGas)
    })
    &&& (op == opcode::GAS && len < 1024 ==> {
        let blk = block_gas_spec(code, pre.instruction_pointer as nat);
        &&& (blk <= rem ==> {
            &&& r == Return::Continue
            &&& post.stack@.len() == len + 1
            &&& post.stack@.drop_last() == s
            &&& post.stack@.last().as_nat() == rem
            &&& post.memory@ == pre.memory@
            &&& post.instruction_pointer == pre.instruction_pointer
            &&& post.gas == (Gas { used: (pre.gas.used + blk) as u64, ..pre.gas })
        })
        &&& (blk > rem ==> r == Return::OutOfGas)
    })
}

/// Pure stack, arithmetic, environment and immediate-data opcodes:
/// everything that needs neither the host nor dynamic gas.
#[verifier::rlimit(100)]
fn eval_core(op: u8, interp: &mut Interpreter) -> (r: Return)
    requires
        old(interp).wf(),
        1 <= old(interp).instruction_pointer <= old(interp).contract.code_len + 33,
        op == old(interp).contract.code@[old(interp).instruction_pointer - 1],
    ensures
        final(interp).wf(),
        final(interp).contract == old(interp).contract,
        final(interp).spec_id == old(interp).spec_id,
        final(interp).is_static == old(interp).is_static,
        final(interp).memory_limit == old(interp).memory_limit,
        final(interp).profile == old(interp).profile,
        final(interp).gas.limit == old(interp).gas.limit,
        r == Return::Continue ==> final(interp).instruction_pointer <= old(interp).contract.code_len
            + 32,
        r == Return::Continue ==> final(interp).gas.spec_remaining() <= old(
            interp,
        ).gas.spec_remaining(),
        (r == Return::Continue && final(interp).gas.spec_remaining() == old(
            interp,
        ).gas.spec_remaining()) ==> final(interp).instruction_pointer >= old(
            interp,
        ).instruction_pointer,
        r.is_exceptional() ==> final(interp).stack@ == old(interp).stack@ && final(interp).memory@
            == old(interp).memory@ && final(interp).gas == old(interp).gas && final(interp).instruction_pointer == old(interp).instruction_pointer,
        core_effect(op, *old(interp), *final(interp), r),
{
    let pc = interp.instruction_pointer;
    proof {
        if op != 0 {
            assert(pc - 1 < interp.contract.code_len);
        }
    }
    if op == opcode::ADD {
        if interp.stack.len() < 2 {
            return Return::StackUnderflow;
        }
        let a = match interp.stack.pop() {
            Ok(v) => v,
            Err(e) => { return e; },
        };
        let b = match interp.stack.pop() {
            Ok(v) => v,
            Err(e) => { return e; },
        };
        let _ = interp.stack.push(a.wrapping_add(&b));
        proof {
            let pre = *old(interp);
            let post = *interp;
            assert(post.stack@.len() == pre.stack@.len() - 1);
            assert(post.stack@.drop_last() == pre.stack@.drop_last().drop_last());
            assert(binop_value(
                op,
                pre.stack@[pre.stack@.len() - 1],
                pre.stack@[pre.stack@.len() - 2],
                post.stack@.last(),
            ));
            assert(only_stack_changed(pre, post));
            assert(core_effect(op, pre, post, Return::Continue));
        }
        return Return::Continue;
    }
    if op == opcode::LT || op == opcode::GT || op == opcode::EQ {
        if interp.stack.len() < 2 {
            return Return::StackUnderflow;
        }
        let a = match interp.stack.pop() {
            Ok(v) => v,
            Err(e) => { return e; },
        };
        let b = match interp.stack.pop() {
            Ok(v) => v,
            Err(e) => { return e; },
        };
        let flag = if op == opcode::LT {
            a.lt(&b)
        } else if op == opcode::GT {
            b.lt(&a)
        } else {
            a.eq_word(&b)
        };
        let w = if flag {
            W256::from_u64(1)
        } else {
            W256::zero()
        };
        let _ = interp.stack.push(w);
        proof {
            let pre = *old(interp);
            let post = *interp;
            assert(post.stack@.len() == pre.stack@.len() - 1);
            assert(post.stack@.drop_last() == pre.stack@.drop_last().drop_last());
            assert(binop_value(
                op,
                pre.stack@[pre.stack@.len() - 1],
                pre.stack@[pre.stack@.len() - 2],
                post.stack@.last(),
            ));
            assert(only_stack_changed(pre, post));
            assert(core_effect(op, pre, post, Return::Continue));
        }
        return Return::Continue;
    }
    if op == opcode::ISZERO {
        if interp.stack.len() < 1 {
            return Return::StackUnderflow;
        }
        let a = match interp.stack.pop() {
            Ok(v) => v,
            Err(e) => { return e; },
        };
        let w = if a.is_zero() {
            W256::from_u64(1)
        } else {
            W256::zero()
        };
        let _ = interp.stack.push(w);
        proof {
            let pre = *old(interp);
            let post = *interp;
            assert(post.stack@.len() == pre.stack@.len());
            assert(post.stack@.drop_last() == pre.stack@.drop_last());
            assert(only_stack_changed(pre, post));
            assert(core_effect(op, pre, post, Return::Continue));
        }
        return Return::Continue;
    }
    if op == opcode::AND || op == opcode::OR || op == opcode::XOR {
        if interp.stack.len() < 2 {
            return Return::StackUnderflow;
        }
        let a = match interp.stack.pop() {
            Ok(v) => v,
            Err(e) => { return e; },
        };
        let b = match interp.stack.pop() {
            Ok(v) => v,
            Err(e) => { return e; },
        };
        let w = if op == opcode::AND {
            a.bit_and(&b)
        } else if op == opcode::OR {
            a.bit_or(&b)
        } else {
            a.bit_xor(&b)
        };
        let _ = interp.stack.push(w);
        proof {
            let pre = *old(interp);
            let post = *interp;
            assert(post.stack@.len() == pre.stack@.len() - 1);
            assert(post.stack@.drop_last() == pre.stack@.drop_last().drop_last());
            assert(binop_value(
                op,
                pre.stack@[pre.stack@.len() - 1],
                pre.stack@[pre.stack@.len() - 2],
                post.stack@.last(),
            ));
            assert(only_stack_changed(pre, post));
            assert(core_effect(op, pre, post, Return::Continue));
        }
        return Return::Continue;
    }
    if op == opcode::NOT {
        if interp.stack.len() < 1 {
            return Return::StackUnderflow;
        }
        let a = match interp.stack.pop() {
            Ok(v) => v,
            Err(e) => { return e; },
        };
        let _ = interp.stack.push(a.bit_not());
        proof {
            let pre = *old(interp);
            let post = *interp;
            assert(post.stack@.len() == pre.stack@.len());
            assert(post.stack@.drop_last() == pre.stack@.drop_last());
            assert(only_stack_changed(pre, post));
            assert(core_effect(op, pre, post, Return::Continue));
        }
        return Return::Continue;
    }
    if op == opcode::ADDRESS {
        let w = interp.contract.address;
        let rr = interp.stack.push(w);
        proof {
            let pre = *old(interp);
            let post = *interp;
            if pre.stack@.len() < 1024 {
                assert(post.stack@.len() == pre.stack@.len() + 1);
                assert(post.stack@.drop_last() == pre.stack@);
                assert(env_word(op, pre, post.stack@.last()));
                assert(only_stack_changed(pre, post));
            }
            assert(core_effect(op, pre, post, rr));
        }
        return rr;
    }
    if op == opcode::CALLER {
        let w = interp.contract.caller;
        let rr = interp.stack.push(w);
        proof {
            let pre = *old(interp);
            let post = *interp;
            if pre.stack@.len() < 1024 {
                assert(post.stack@.len() == pre.stack@.len() + 1);
                assert(post.stack@.drop_last() == pre.stack@);
                assert(env_word(op, pre, post.stack@.last()));
                assert(only_stack_changed(pre, post));
            }
            assert(core_effect(op, pre, post, rr));
        }
        return rr;
    }
    if op == opcode::CALLVALUE {
        let w = interp.contract.value;
        let rr = interp.stack.push(w);
        proof {
            let pre = *old(interp);
            let post = *interp;
            if pre.stack@.len() < 1024 {
                assert(post.stack@.len() == pre.stack@.len() + 1);
                assert(post.stack@.drop_last() == pre.stack@);
                assert(env_word(op, pre, post.stack@.last()));
                assert(only_stack_changed(pre, post));
            }
            assert(core_effect(op, pre, post, rr));
        }
        return rr;
    }
    if op == opcode::CALLDATASIZE {
        let w = W256::from_u64(interp.contract.input.len() as u64);
        let rr = interp.stack.push(w);
        proof {
            let pre = *old(interp);
            let post = *interp;
            if pre.stack@.len() < 1024 {
                assert(post.stack@.len() == pre.stack@.len() + 1);
                assert(post.stack@.drop_last() == pre.stack@);
                assert(env_word(op, pre, post.stack@.last()));
                assert(only_stack_changed(pre, post));
            }
            assert(core_effect(op, pre, post, rr));
        }
        return rr;
    }
    if op == opcode::CODESIZE {
        let w = W256::from_u64(interp.contract.code_len as u64);
        let rr = interp.stack.push(w);
        proof {
            let pre = *old(interp);
            let post = *interp;
            if pre.stack@.len() < 1024 {
                assert(post.stack@.len() == pre.stack@.len() + 1);
                assert(post.stack@.drop_last() == pre.stack@);
                assert(env_word(op, pre, post.stack@.last()));
                assert(only_stack_changed(pre, post));
            }
            assert(core_effect(op, pre, post, rr));
        }
        return rr;
    }
    if op == opcode::RETURNDATASIZE {
        let w = W256::from_u64(bytes_len(&interp.return_data_buffer) as u64);
        let rr = interp.stack.push(w);
        proof {
            let pre = *old(interp);
            let post = *interp;
            if pre.stack@.len() < 1024 {
                assert(post.stack@.len() == pre.stack@.len() + 1);
                assert(post.stack@.drop_last() == pre.stack@);
                assert(env_word(op, pre, post.stack@.last()));
                assert(only_stack_changed(pre, post));
            }
            assert(core_effect(op, pre, post, rr));
        }
        return rr;
    }
    if op == opcode::CALLDATALOAD {
        if interp.stack.len() < 1 {
            return Return::StackUnderflow;
        }
        let idx_w = match interp.stack.pop() {
            Ok(v) => v,
            Err(e) => { return e; },
        };
        let ilen = interp.contract.input.len();
        let ghost idx_val = idx_w.as_nat();
        let w = match idx_w.to_u64() {
            None => W256::zero(),
            Some(idx) => {
                let mut buf: Vec<u8> = Vec::new();
                let mut k: usize = 0;
                while k < 32
                    invariant
                        k <= 32,
                        buf@.len() == k,
                        idx == idx_val,
                        ilen == interp.contract.input@.len(),
                        forall|j: int|
                            0 <= j < k ==> buf@[j] == (if idx + j < ilen {
                                interp.contract.input@[idx as int + j]
                            } else {
                                0u8
                            }),
                    decreases 32 - k,
                {
                    let pos: u128 = idx as u128 + k as u128;
                    if pos < ilen as u128 {
                        buf.push(interp.contract.input[(idx as usize) + k]);
                    } else {
                        buf.push(0u8);
                    }
                    k = k + 1;
                }
                proof {
                    assert(buf@ =~= calldata_word(interp.contract.input@, idx_val));
                }
                W256::from_be_slice(buf.as_slice())
            },
        };
        proof {
            if idx_val >= 0x1_0000_0000_0000_0000 {
                assert(w.bytes@ =~= calldata_word(interp.contract.input@, idx_val));
            }
            assert(w.bytes@ == calldata_word(interp.contract.input@, idx_val));
        }
        let _ = interp.stack.push(w);
        proof {
            let pre = *old(interp);
            let post = *interp;
            assert(post.stack@.len() == pre.stack@.len());
            assert(post.stack@.drop_last() == pre.stack@.drop_last());
            assert(only_stack_changed(pre, post));
            assert(core_effect(op, pre, post, Return::Continue));
        }
        return Return::Continue;
    }
    if op == opcode::POP {
        if interp.stack.len() < 1 {
            return Return::StackUnderflow;
        }
        let _ = interp.stack.pop();
        proof {
            assert(core_effect(op, *old(interp), *interp, Return::Continue));
        }
        return Return::Continue;
    }
    if op == opcode::PC {
        let w = W256::from_u64((pc - 1) as u64);
        let rr = interp.stack.push(w);
        proof {
            let pre = *old(interp);
            let post = *interp;
            if pre.stack@.len() < 1024 {
                assert(post.stack@.len() == pre.stack@.len() + 1);
                assert(post.stack@.drop_last() == pre.stack@);
                assert(env_word(op, pre, post.stack@.last()));
                assert(only_stack_changed(pre, post));
            }
            assert(core_effect(op, pre, post, rr));
        }
        return rr;
    }
    if op == opcode::MSIZE {
        let w = W256::from_u64(interp.memory.len() as u64);
        let rr = interp.stack.push(w);
        proof {
            let pre = *old(interp);
            let post = *interp;
            if pre.stack@.len() < 1024 {
                assert(post.stack@.len() == pre.stack@.len() + 1);
                assert(post.stack@.drop_last() == pre.stack@);
                assert(env_word(op, pre, post.stack@.last()));
                assert(only_stack_changed(pre, post));
            }
            assert(core_effect(op, pre, post, rr));
        }
        return rr;
    }
    if opcode::PUSH1 <= op && op <= opcode::PUSH32 {
        let n = push_size(op);
        let mut buf: Vec<u8> = Vec::new();
        let mut k: usize = 0;
        while k < n
            invariant
                k <= n <= 32,
                pc + n < interp.contract.code@.len(),
                interp.contract.wf(),
                buf@.len() == k,
                buf@ =~= interp.contract.code@.subrange(pc as int, pc + k),
                1 <= pc,
            decreases n - k,
        {
            let b = interp.contract.opcode_at(pc + k);
            buf.push(b);
            proof {
                assert(buf@ =~= interp.contract.code@.subrange(pc as int, pc + k + 1));
            }
            k = k + 1;
        }
        let w = W256::from_be_slice(buf.as_slice());
        let rr = interp.stack.push(w);
        if rr != Return::Continue {
            return rr;
        }
        interp.instruction_pointer = pc + n;
        proof {
            let pre = *old(interp);
            let post = *interp;
            assert(post.stack@.len() == pre.stack@.len() + 1);
            assert(post.stack@.drop_last() == pre.stack@);
            assert(post.stack@.last().as_nat() == be_nat(
                pre.contract.code@.subrange(pc as int, pc + push_size_spec(op)),
            ));
            assert(core_effect(op, pre, post, Return::Continue));
        }
        return Return::Continue;
    }
    if opcode::DUP1 <= op && op <= opcode::DUP16 {
        let n = (op - opcode::DUP1 + 1) as usize;
        let rr = interp.stack.dup(n);
        proof {
            let pre = *old(interp);
            let post = *interp;
            assert(n == op - opcode::DUP1 + 1);
            if pre.stack@.len() >= n && pre.stack@.len() < 1024 {
                assert(post.stack@ == pre.stack@.push(pre.stack@[pre.stack@.len() - n]));
                assert(only_stack_changed(pre, post));
            }
            assert(core_effect(op, pre, post, rr));
        }
        return rr;
    }
    if opcode::SWAP1 <= op && op <= opcode::SWAP16 {
        let n = (op - opcode::SWAP1 + 1) as usize;
        let rr = interp.stack.swap(n);
        proof {
            let pre = *old(interp);
            let post = *interp;
            assert(n == op - opcode::SWAP1 + 1);
            if pre.stack@.len() > n {
                assert(post.stack@ == pre.stack@.update(
                    pre.stack@.len() - 1,
                    pre.stack@[pre.stack@.len() - 1 - n],
                ).update(pre.stack@.len() - 1 - n, pre.stack@[pre.stack@.len() - 1]));
                assert(only_stack_changed(pre, post));
            }
            assert(core_effect(op, pre, post, rr));
        }
        return rr;
    }
    Return::InvalidOpcode
}

/// Memory access opcodes and the two output-bearing halts: each charges
/// expansion through one all-or-nothing path before touching anything.
#[verifier::rlimit(100)]
fn eval_memory(op: u8, interp: &mut Interpreter) -> (r: Return)
    requires
        old(interp).wf(),
        1 <= old(interp).instruction_pointer <= old(interp).contract.code_len + 33,
        op == old(interp).contract.code@[old(interp).instruction_pointer - 1],
    ensures
        final(interp).wf(),
        final(interp).contract == old(interp).contract,
        final(interp).spec_id == old(interp).spec_id,
        final(interp).is_static == old(interp).is_static,
        final(interp).memory_limit == old(interp).memory_limit,
        final(interp).profile == old(interp).profile,
        final(interp).gas.limit == old(interp).gas.limit,
        r == Return::Continue ==> final(interp).instruction_pointer <= old(interp).contract.code_len
            + 32,
        r == Return::Continue ==> final(interp).gas.spec_remaining() <= old(
            interp,
        ).gas.spec_remaining(),
        (r == Return::Continue && final(interp).gas.spec_remaining() == old(
            interp,
        ).gas.spec_remaining()) ==> final(interp).instruction_pointer >= old(
            interp,
        ).instruction_pointer,
        r.is_exceptional() ==> final(interp).stack@ == old(interp).stack@ && final(interp).memory@
            == old(interp).memory@ && final(interp).gas == old(interp).gas && final(interp).instruction_pointer == old(interp).instruction_pointer,
        memory_effect(op, *old(interp), *final(interp), r),
{
    let pc = interp.instruction_pointer;
    if op == opcode::MLOAD {
        if interp.stack.len() < 1 {
            return Return::StackUnderflow;
        }
        let off_w = match interp.stack.peek(0) {
            Ok(v) => v,
            Err(e) => { return e; },
        };
        let off = match off_w.to_u64() {
            Some(v) => v,
            None => { return Return::OutOfGas; },
        };
        let rr = charge_and_resize(interp, off, 32, 0);
        if rr != Return::Continue {
            return rr;
        }
        let mlen = interp.memory.len();
        proof {
            assert(off + 32 <= mlen);
        }
        let _ = interp.stack.pop();
        let data = interp.memory.get_copy(off as usize, 32);
        let w = W256::from_be_slice(data.as_slice());
        let _ = interp.stack.push(w);
        proof {
            let pre = *old(interp);
            let post = *interp;
            assert(mem_grown(pre, post, off as nat, 32));
            assert(post.stack@.len() == pre.stack@.len());
            assert(post.stack@.drop_last() == pre.stack@.drop_last());
            assert(data@ == post.memory@.subrange(off as int, off as int + 32));
            assert(data@.len() == 32);
            assert(post.stack@.last().bytes@ == data@);
            assert(memory_effect(op, pre, post, Return::Continue));
        }
        return Return::Continue;
    }
    if op == opcode::MSTORE {
        if interp.stack.len() < 2 {
            return Return::StackUnderflow;
        }
        let off_w = match interp.stack.peek(0) {
            Ok(v) => v,
            Err(e) => { return e; },
        };
        let value = match interp.stack.peek(1) {
            Ok(v) => v,
            Err(e) => { return e; },
        };
        let off = match off_w.to_u64() {
            Some(v) => v,
            None => { return Return::OutOfGas; },
        };
        let rr = charge_and_resize(interp, off, 32, 0);
        if rr != Return::Continue {
            return rr;
        }
        let mlen = interp.memory.len();
        proof {
            assert(off + 32 <= mlen);
        }
        let _ = interp.stack.pop();
        let _ = interp.stack.pop();
        let ghost mem1 = interp.memory@;
        let src_bytes = value.bytes.as_slice();
        proof {
            assert(src_bytes@ == value.bytes@);
        }
        interp.memory.set(off as usize, src_bytes);
        proof {
            let pre = *old(interp);
            let post = *interp;
            assert(post.stack@ == pre.stack@.drop_last().drop_last());
            assert(post.memory@.len() == grown_len(pre.memory@.len(), off as nat, 32));
            assert forall|i: int| off <= i < off + 32 implies post.memory@[i] == value.bytes@[i
                - off] by {}
            assert forall|i: int|
                0 <= i < post.memory@.len() && !(off <= i < off + 32) implies post.memory@[i] == (
                if i < pre.memory@.len() {
                    pre.memory@[i]
                } else {
                    0u8
                }) by {
                assert(post.memory@[i] == mem1[i]);
                if i < pre.memory@.len() {
                    assert(mem1.subrange(0, pre.memory@.len() as int)[i] == pre.memory@[i]);
                }
            }
            assert(memory_effect(op, pre, post, Return::Continue));
        }
        return Return::Continue;
    }
    if op == opcode::MSTORE8 {
        if interp.stack.len() < 2 {
            return Return::StackUnderflow;
        }
        let off_w = match interp.stack.peek(0) {
            Ok(v) => v,
            Err(e) => { return e; },
        };
        let value = match interp.stack.peek(1) {
            Ok(v) => v,
            Err(e) => { return e; },
        };
        let off = match off_w.to_u64() {
            Some(v) => v,
            None => { return Return::OutOfGas; },
        };
        let rr = charge_and_resize(interp, off, 1, 0);
        if rr != Return::Continue {
            return rr;
        }
        let mlen = interp.memory.len();
        proof {
            assert(off + 1 <= mlen);
        }
        let _ = interp.stack.pop();
        let _ = interp.stack.pop();
        let ghost mem1 = interp.memory@;
        let low_byte = value.bytes[31];
        proof {
            assert(low_byte == value.bytes@[31]);
        }
        interp.memory.set_byte(off as usize, low_byte);
        proof {
            let pre = *old(interp);
            let post = *interp;
            assert(post.stack@ == pre.stack@.drop_last().drop_last());
            assert(post.memory@.len() == grown_len(pre.memory@.len(), off as nat, 1));
            assert(post.memory@[off as int] == value.bytes@[31]);
            assert forall|i: int|
                0 <= i < post.memory@.len() && !(off <= i < off + 1) implies post.memory@[i] == (
                if i < pre.memory@.len() {
                    pre.memory@[i]
                } else {
                    0u8
                }) by {
                assert(post.memory@[i] == mem1[i]);
                if i < pre.memory@.len() {
                    assert(mem1.subrange(0, pre.memory@.len() as int)[i] == pre.memory@[i]);
                }
            }
            assert(memory_effect(op, pre, post, Return::Continue));
        }
        return Return::Continue;
    }
    if op == opcode::RETURN || op == opcode::REVERT {
        if interp.stack.len() < 2 {
            return Return::StackUnderflow;
        }
        let off_w = match interp.stack.peek(0) {
            Ok(v) => v,
            Err(e) => { return e; },
        };
        let size_w = match interp.stack.peek(1) {
            Ok(v) => v,
            Err(e) => { return e; },
        };
        if size_w.is_zero() {
            let _ = interp.stack.pop();
            let _ = interp.stack.pop();
            interp.return_range = (usize::MAX, usize::MAX);
            let rr = if op == opcode::RETURN {
                Return::Return
            } else {
                Return::Revert
            };
            proof {
                assert(memory_effect(op, *old(interp), *interp, rr));
            }
            return rr;
        }
        let off = match off_w.to_u64() {
            Some(v) => v,
            None => { return Return::OutOfGas; },
        };
        let size = match size_w.to_u64() {
            Some(v) => v,
            None => { return Return::OutOfGas; },
        };
        let rr = charge_and_resize(interp, off, size, 0);
        if rr != Return::Continue {
            return rr;
        }
        let mlen = interp.memory.len();
        proof {
            assert(off + size <= mlen);
        }
        let _ = interp.stack.pop();
        let _ = interp.stack.pop();
        interp.return_range = (off as usize, (off as usize) + (size as usize));
        let rr = if op == opcode::RETURN {
            Return::Return
        } else {
            Return::Revert
        };
        proof {
            assert(memory_effect(op, *old(interp), *interp, rr));
        }
        return rr;
    }
    Return::InvalidOpcode
}

/// Opcodes that consult the host: storage, self-destruct, and the chain
/// id. Whatever the host answers, a failed charge mutates nothing; a
/// `None` answer halts with `FatalExternalError`, state untouched.
#[verifier::rlimit(100)]
fn eval_host_ops<H: Host>(op: u8, interp: &mut Interpreter, host: &mut H) -> (r: Return)
    requires
        old(interp).wf(),
        1 <= old(interp).instruction_pointer <= old(interp).contract.code_len + 33,
        op == old(interp).contract.code@[old(interp).instruction_pointer - 1],
    ensures
        final(interp).wf(),
        final(interp).contract == old(interp).contract,
        final(interp).spec_id == old(interp).spec_id,
        final(interp).is_static == old(interp).is_static,
        final(interp).memory_limit == old(interp).memory_limit,
        final(interp).profile == old(interp).profile,
        final(interp).gas.limit == old(interp).gas.limit,
        r == Return::Continue ==> final(interp).instruction_pointer <= old(interp).contract.code_len
            + 32,
        r == Return::Continue ==> final(interp).gas.spec_remaining() <= old(
            interp,
        ).gas.spec_remaining(),
        (r == Return::Continue && final(interp).gas.spec_remaining() == old(
            interp,
        ).gas.spec_remaining()) ==> final(interp).instruction_pointer >= old(
            interp,
        ).instruction_pointer,
        r.is_exceptional() ==> final(interp).stack@ == old(interp).stack@ && final(interp).memory@
            == old(interp).memory@ && final(interp).gas == old(interp).gas && final(interp).instruction_pointer == old(interp).instruction_pointer,
{
    let pc = interp.instruction_pointer;
    proof {
        if op != 0 {
            assert(pc - 1 < interp.contract.code_len);
        }
    }
    if op == opcode::CHAINID {
        if !interp.spec_id.at_least(SpecId::Istanbul) {
            return Return::NotActivated;
        }
        let w = host.chain_id();
        return interp.stack.push(w);
    }
    if op == opcode::SLOAD {
        if interp.stack.len() < 1 {
            return Return::StackUnderflow;
        }
        let index = match interp.stack.peek(0) {
            Ok(v) => v,
            Err(e) => { return e; },
        };
        let address = interp.contract.address;
        let (value, is_cold) = match host.sload(&address, &index) {
            Some(v) => v,
            None => { return Return::FatalExternalError; },
        };
        let cost = sload_cost(interp.spec_id, is_cold);
        if !interp.gas.record_cost(cost) {
            return Return::OutOfGas;
        }
        let _ = interp.stack.pop();
        let _ = interp.stack.push(value);
        return Return::Continue;
    }
    if op == opcode::SSTORE {
        if interp.is_static {
            return Return::StateChangeDuringStaticCall;
        }
        if interp.stack.len() < 2 {
            return Return::StackUnderflow;
        }
        let index = match interp.stack.peek(0) {
            Ok(v) => v,
            Err(e) => { return e; },
        };
        let value = match interp.stack.peek(1) {
            Ok(v) => v,
            Err(e) => { return e; },
        };
        if interp.spec_id.at_least(SpecId::Istanbul) {
            if interp.gas.remaining() <= CALL_STIPEND {
                return Return::OutOfGas;
            }
        }
        let address = interp.contract.address;
        let (original, present, new, is_cold) = match host.sstore(&address, &index, &value) {
            Some(v) => v,
            None => { return Return::FatalExternalError; },
        };
        let (cost, refund) = sstore_gas_calc(interp.spec_id, &original, &present, &new, is_cold);
        let blk = interp.contract.gas_block(pc);
        proof {
            lemma_block_gas_bound(interp.contract.code@, pc as nat);
        }
        if !interp.gas.record_cost(cost + blk) {
            return Return::OutOfGas;
        }
        let _ = interp.stack.pop();
        let _ = interp.stack.pop();
        interp.gas.record_refund(refund);
        return Return::Continue;
    }
    if op == opcode::SELFDESTRUCT {
        if interp.is_static {
            return Return::StateChangeDuringStaticCall;
        }
        if interp.stack.len() < 1 {
            return Return::StackUnderflow;
        }
        let target = match interp.stack.peek(0) {
            Ok(v) => v,
            Err(e) => { return e; },
        };
        let address = interp.contract.address;
        let res = match host.selfdestruct(&address, &target) {
            Some(v) => v,
            None => { return Return::FatalExternalError; },
        };
        let mut cost: u64 = if interp.spec_id.at_least(SpecId::Tangerine) {
            5000
        } else {
            0
        };
        if interp.spec_id.at_least(SpecId::Tangerine) && res.had_value && !res.target_exists {
            cost = cost + 25000;
        }
        if interp.spec_id.at_least(SpecId::Berlin) && res.is_cold {
            cost = cost + 2600;
        }
        if !interp.gas.record_cost(cost) {
            return Return::OutOfGas;
        }
        let _ = interp.stack.pop();
        if !res.previously_destroyed && !interp.spec_id.at_least(SpecId::London) {
            interp.gas.record_refund(24000);
        }
        return Return::SelfDestruct;
    }
    Return::InvalidOpcode
}

/// Control flow and block accounting: jumps validate their target against
/// the jumpdest bitmap and pay for the landing block; fallthrough past a
/// block end pays for the next block.
#[verifier::rlimit(100)]
fn eval_flow(op: u8, interp: &mut Interpreter) -> (r: Return)
    requires
        old(interp).wf(),
        1 <= old(interp).instruction_pointer <= old(interp).contract.code_len + 33,
        op == old(interp).contract.code@[old(interp).instruction_pointer - 1],
    ensures
        final(interp).wf(),
        final(interp).contract == old(interp).contract,
        final(interp).spec_id == old(interp).spec_id,
        final(interp).is_static == old(interp).is_static,
        final(interp).memory_limit == old(interp).memory_limit,
        final(interp).profile == old(interp).profile,
        final(interp).gas.limit == old(interp).gas.limit,
        r == Return::Continue ==> final(interp).instruction_pointer <= old(interp).contract.code_len
            + 32,
        r == Return::Continue ==> final(interp).gas.spec_remaining() <= old(
            interp,
        ).gas.spec_remaining(),
        (r == Return::Continue && final(interp).gas.spec_remaining() == old(
            interp,
        ).gas.spec_remaining()) ==> final(interp).instruction_pointer >= old(
            interp,
        ).instruction_pointer,
        r.is_exceptional() ==> final(interp).stack@ == old(interp).stack@ && final(interp).memory@
            == old(interp).memory@ && final(interp).gas == old(interp).gas && final(interp).instruction_pointer == old(interp).instruction_pointer,
        op == opcode::JUMP && r == Return::Continue ==> old(interp).stack@.len() > 0 && ({
            let t = old(interp).stack@.last().as_nat();
            &&& t < old(interp).contract.jumps@.len()
            &&& old(interp).contract.jumps@[t as int]
            &&& old(interp).contract.code@[t as int] == opcode::JUMPDEST
            &&& final(interp).instruction_pointer == t
        }),
        op == opcode::JUMP && old(interp).stack@.len() > 0 ==> ({
            let t = old(interp).stack@.last().as_nat();
            (!(t < old(interp).contract.jumps@.len() && old(interp).contract.jumps@[t as int])
                ==> r == Return::InvalidJump)
        }),
        flow_effect(op, *old(interp), *final(interp), r),
{
    let pc = interp.instruction_pointer;
    proof {
        if op != 0 {
            assert(pc - 1 < interp.contract.code_len);
        }
    }
    if op == opcode::JUMP {
        if interp.stack.len() < 1 {
            return Return::StackUnderflow;
        }
        let t_w = match interp.stack.peek(0) {
            Ok(v) => v,
            Err(e) => { return e; },
        };
        let t = match t_w.to_u64() {
            Some(v) => v,
            None => { return Return::InvalidJump; },
        };
        if (t as u128) > (usize::MAX as u128) {
            return Return::InvalidJump;
        }
        let tp = t as usize;
        if !interp.contract.is_valid_jump(tp) {
            return Return::InvalidJump;
        }
        proof {
            lemma_block_gas_at_jumpdest(interp.contract.code@, tp as nat);
        }
        let rr = interp.add_next_gas_block(tp);
        if rr != Return::Continue {
            return rr;
        }
        let _ = interp.stack.pop();
        interp.instruction_pointer = tp;
        proof {
            assert(flow_effect(op, *old(interp), *interp, Return::Continue));
        }
        return Return::Continue;
    }
    if op == opcode::JUMPI {
        if interp.stack.len() < 2 {
            return Return::StackUnderflow;
        }
        let t_w = match interp.stack.peek(0) {
            Ok(v) => v,
            Err(e) => { return e; },
        };
        let cond = match interp.stack.peek(1) {
            Ok(v) => v,
            Err(e) => { return e; },
        };
        if !cond.is_zero() {
            let t = match t_w.to_u64() {
                Some(v) => v,
                None => { return Return::InvalidJump; },
            };
            if (t as u128) > (usize::MAX as u128) {
                return Return::InvalidJump;
            }
            let tp = t as usize;
            if !interp.contract.is_valid_jump(tp) {
                return Return::InvalidJump;
            }
            proof {
                lemma_block_gas_at_jumpdest(interp.contract.code@, tp as nat);
            }
            let rr = interp.add_next_gas_block(tp);
            if rr != Return::Continue {
                return rr;
            }
            let _ = interp.stack.pop();
            let _ = interp.stack.pop();
            interp.instruction_pointer = tp;
            proof {
                assert(flow_effect(op, *old(interp), *interp, Return::Continue));
            }
            return Return::Continue;
        } else {
            let rr = interp.add_next_gas_block(pc);
            if rr != Return::Continue {
                return rr;
            }
            let _ = interp.stack.pop();
            let _ = interp.stack.pop();
            proof {
                assert(flow_effect(op, *old(interp), *interp, Return::Continue));
            }
            return Return::Continue;
        }
    }
    if op == opcode::PUSH2_JUMPI {
        if interp.stack.len() < 1 {
            return Return::StackUnderflow;
        }
        let cond = match interp.stack.peek(0) {
            Ok(v) => v,
            Err(e) => { return e; },
        };
        let hi = interp.contract.opcode_at(pc);
        let lo = interp.contract.opcode_at(pc + 1);
        let tp = (hi as usize) * 256 + (lo as usize);
        if !cond.is_zero() {
            if !interp.contract.is_valid_jump(tp) {
                return Return::InvalidJump;
            }
            proof {
                lemma_block_gas_at_jumpdest(interp.contract.code@, tp as nat);
            }
            let rr = interp.add_next_gas_block(tp);
            if rr != Return::Continue {
                return rr;
            }
            let _ = interp.stack.pop();
            interp.instruction_pointer = tp;
            proof {
                assert(flow_effect(op, *old(interp), *interp, Return::Continue));
            }
            return Return::Continue;
        } else {
            let rr = interp.add_next_gas_block(pc + 3);
            if rr != Return::Continue {
                return rr;
            }
            let _ = interp.stack.pop();
            interp.instruction_pointer = pc + 3;
            proof {
                assert(flow_effect(op, *old(interp), *interp, Return::Continue));
            }
            return Return::Continue;
        }
    }
    if op == opcode::GAS {
        if interp.stack.len() >= STACK_LIMIT {
            return Return::StackOverflow;
        }
        let blk = interp.contract.gas_block(pc);
        let remaining = interp.gas.remaining();
        if blk > remaining {
            return Return::OutOfGas;
        }
        let _ = interp.stack.push(W256::from_u64(remaining));
        let ok = interp.gas.record_cost(blk);
        assert(ok);
        proof {
            let pre = *old(interp);
            let post = *interp;
            assert(post.stack@.len() == pre.stack@.len() + 1);
            assert(post.stack@.drop_last() == pre.stack@);
            assert(post.stack@.last().as_nat() == pre.gas.spec_remaining());
            assert(post.gas == (Gas {
                used: (pre.gas.used + block_gas_spec(pre.contract.code@,
                    pre.instruction_pointer as nat)) as u64,
                ..pre.gas
            }));
            assert(flow_effect(op, pre, post, Return::Continue));
        }
        return Return::Continue;
    }
    if op == opcode::JUMPDEST {
        let rr = interp.add_next_gas_block(pc);
        proof {
            assert(flow_effect(op, *old(interp), *interp, rr));
        }
        return rr;
    }
    Return::InvalidOpcode
}

/// The CALL opcode: prices the call (cold-account and value surcharges,
/// the all-but-one-64th forwarding cap after the Tangerine revision),
/// expands memory for the input and output windows in one atomic charge,
/// runs the sub-call through the host, returns unspent gas, copies the
/// output into the caller's window and return buffer, and pushes the
/// success flag. Whatever the host answers, the meter never gains gas.
#[verifier::rlimit(100)]
#[verifier::spinoff_prover]
fn eval_call<H: Host>(op: u8, interp: &mut Interpreter, host: &mut H) -> (r: Return)
    requires
        old(interp).wf(),
        1 <= old(interp).instruction_pointer <= old(interp).contract.code_len + 33,
        op == old(interp).contract.code@[old(interp).instruction_pointer - 1],
    ensures
        final(interp).wf(),
        final(interp).contract == old(interp).contract,
        final(interp).spec_id == old(interp).spec_id,
        final(interp).is_static == old(interp).is_static,
        final(interp).memory_limit == old(interp).memory_limit,
        final(interp).profile == old(interp).profile,
        final(interp).gas.limit == old(interp).gas.limit,
        r == Return::Continue ==> final(interp).instruction_pointer <= old(interp).contract.code_len
            + 32,
        r == Return::Continue ==> final(interp).gas.spec_remaining() <= old(interp).gas.spec_remaining(),
        (r == Return::Continue && final(interp).gas.spec_remaining() == old(interp).gas.spec_remaining()) ==> final(interp).instruction_pointer >= old(interp).instruction_pointer,
        r.is_exceptional() ==> final(interp).stack@ == old(interp).stack@ && final(interp).memory@
            == old(interp).memory@ && final(interp).gas == old(interp).gas && final(interp).instruction_pointer == old(interp).instruction_pointer,
{
    let pc = interp.instruction_pointer;
    proof {
        if op != 0 {
            assert(pc - 1 < interp.contract.code_len);
        }
    }
    if op != opcode::CALL {
        return Return::InvalidOpcode;
    }
    if interp.stack.len() < 7 {
        return Return::StackUnderflow;
    }
    let gas_w = match interp.stack.peek(0) {
        Ok(v) => v,
        Err(e) => { return e; },
    };
    let to_w = match interp.stack.peek(1) {
        Ok(v) => v,
        Err(e) => { return e; },
    };
    let value_w = match interp.stack.peek(2) {
        Ok(v) => v,
        Err(e) => { return e; },
    };
    let in_off_w = match interp.stack.peek(3) {
        Ok(v) => v,
        Err(e) => { return e; },
    };
    let in_len_w = match interp.stack.peek(4) {
        Ok(v) => v,
        Err(e) => { return e; },
    };
    let out_off_w = match interp.stack.peek(5) {
        Ok(v) => v,
        Err(e) => { return e; },
    };
    let out_len_w = match interp.stack.peek(6) {
        Ok(v) => v,
        Err(e) => { return e; },
    };
    let has_value = !value_w.is_zero();
    if has_value && interp.is_static {
        return Return::StateChangeDuringStaticCall;
    }
    let in_len = match in_len_w.to_u64() {
        Some(v) => v,
        None => { return Return::OutOfGas; },
    };
    let in_off = if in_len == 0 {
        0u64
    } else {
        match in_off_w.to_u64() {
            Some(v) => v,
            None => { return Return::OutOfGas; },
        }
    };
    let out_len = match out_len_w.to_u64() {
        Some(v) => v,
        None => { return Return::OutOfGas; },
    };
    let out_off = if out_len == 0 {
        0u64
    } else {
        match out_off_w.to_u64() {
            Some(v) => v,
            None => { return Return::OutOfGas; },
        }
    };
    let (acc_cold, acc_exists) = match host.load_account(&to_w) {
        Some(v) => v,
        None => { return Return::FatalExternalError; },
    };
    let mut base: u64 = if interp.spec_id.at_least(SpecId::Berlin) {
        if acc_cold {
            2600
        } else {
            100
        }
    } else if interp.spec_id.at_least(SpecId::Tangerine) {
        700
    } else {
        40
    };
    if has_value {
        base = base + 9000;
        if !acc_exists {
            base = base + 25000;
        }
    }
    let blk = interp.contract.gas_block(pc);
    proof {
        lemma_block_gas_bound(interp.contract.code@, pc as nat);
    }
    let in_end: u128 = if in_len == 0 {
        0
    } else {
        in_off as u128 + in_len as u128
    };
    let out_end: u128 = if out_len == 0 {
        0
    } else {
        out_off as u128 + out_len as u128
    };
    let end128: u128 = if in_end < out_end {
        out_end
    } else {
        in_end
    };
    if end128 > (u64::MAX as u128) {
        return Return::OutOfGas;
    }
    let msize = end128 as u64;
    let req = match gas_w.to_u64() {
        Some(v) => v,
        None => u64::MAX,
    };
    let tangerine = interp.spec_id.at_least(SpecId::Tangerine);
    let extra: u64 = if tangerine {
        base + blk
    } else {
        let tot: u128 = base as u128 + blk as u128 + req as u128;
        if tot > (u64::MAX as u128) {
            return Return::OutOfGas;
        }
        tot as u64
    };
    proof {
        assert(!tangerine ==> extra >= req);
    }
    let rr = charge_and_resize(interp, 0, msize, extra);
    if rr != Return::Continue {
        return rr;
    }
    let mlen = interp.memory.len();
    proof {
        if in_len > 0 {
            assert(in_off + in_len <= mlen);
        }
        if out_len > 0 {
            assert(out_off + out_len <= mlen);
        }
    }
    let forward: u64 = if tangerine {
        let remaining = interp.gas.remaining();
        let cap = remaining - remaining / 64;
        let fwd = if req < cap {
            req
        } else {
            cap
        };
        let ok = interp.gas.record_cost(fwd);
        assert(ok);
        fwd
    } else {
        req
    };
    let ghost used_before_call = interp.gas.used;
    proof {
        assert(used_before_call >= old(interp).gas.used + (if tangerine {
            forward
        } else {
            extra
        }));
    }
    let gas_limit_callee: u64 = if has_value {
        if forward > u64::MAX - CALL_STIPEND {
            u64::MAX
        } else {
            forward + CALL_STIPEND
        }
    } else {
        forward
    };
    let _ = interp.stack.pop();
    let _ = interp.stack.pop();
    let _ = interp.stack.pop();
    let _ = interp.stack.pop();
    let _ = interp.stack.pop();
    let _ = interp.stack.pop();
    let _ = interp.stack.pop();
    let input: Vec<u8> = if in_len == 0 {
        Vec::new()
    } else {
        interp.memory.get_copy(in_off as usize, in_len as usize)
    };
    let address = interp.contract.address;
    let is_static = interp.is_static;
    let inputs = CallInputs {
        contract: to_w,
        transfer_source: address,
        transfer_target: to_w,
        transfer_value: value_w,
        input,
        gas_limit: gas_limit_callee,
        context_caller: address,
        context_address: to_w,
        context_value: value_w,
        is_static,
    };
    let (ret, returned_gas, out) = host.call(inputs);
    proof {
        assert(forward <= interp.gas.used);
        assert(interp.gas.used >= old(interp).gas.used + forward || (!tangerine && interp.gas.used
            >= old(interp).gas.used + extra && forward <= extra));
    }
    let r2 = apply_call_result(interp, ret, returned_gas, out, forward, out_off, out_len);
    proof {
        assert(interp.gas.used >= old(interp).gas.used);
        assert(interp.memory@.len() >= old(interp).memory@.len());
        lemma_memory_gas_mono(old(interp).memory@.len(), interp.memory@.len());
        assert(interp.gas.memory >= old(interp).gas.memory);
    }
    r2
}

/// Applies a finished sub-call's outcome to the frame, exactly: credits
/// back the unspent gas, never more than the `forward` this meter set
/// aside; copies the output's prefix into the caller's chosen window;
/// stores the whole output as the new return-data buffer; and pushes 1
/// exactly for the normal completion kinds, 0 for revert and every halt.
pub fn apply_call_result(
    interp: &mut Interpreter,
    ret: Return,
    returned_gas: u64,
    out: Vec<u8>,
    forward: u64,
    out_off: u64,
    out_len: u64,
) -> (r: Return)
    requires
        old(interp).wf(),
        forward <= old(interp).gas.used,
        old(interp).stack@.len() < STACK_LIMIT,
        out_len > 0 ==> out_off + out_len <= old(interp).memory@.len(),
    ensures
        final(interp).wf(),
        r == Return::Continue,
        final(interp).contract == old(interp).contract,
        final(interp).spec_id == old(interp).spec_id,
        final(interp).is_static == old(interp).is_static,
        final(interp).memory_limit == old(interp).memory_limit,
        final(interp).profile == old(interp).profile,
        final(interp).instruction_pointer == old(interp).instruction_pointer,
        final(interp).return_range == old(interp).return_range,
        final(interp).gas == (Gas {
            used: (old(interp).gas.used - (if returned_gas < forward {
                returned_gas
            } else {
                forward
            })) as u64,
            ..old(interp).gas
        }),
        bytes_seq(final(interp).return_data_buffer) == out@,
        final(interp).stack@.len() == old(interp).stack@.len() + 1,
        final(interp).stack@.drop_last() == old(interp).stack@,
        final(interp).stack@.last().as_nat() == (if ret == Return::Stop || ret == Return::Return
            || ret == Return::SelfDestruct {
            1nat
        } else {
            0nat
        }),
        final(interp).memory@.len() == old(interp).memory@.len(),
        ({
            let n = (if (out_len as nat) <= out@.len() {
                out_len as nat
            } else {
                out@.len()
            });
            &&& (forall|i: int|
                out_len > 0 && out_off <= i < out_off + n ==> final(interp).memory@[i] == out@[i
                    - out_off])
            &&& (forall|i: int|
                0 <= i < old(interp).memory@.len() && !(out_len > 0 && out_off <= i < out_off + n)
                    ==> final(interp).memory@[i] == old(interp).memory@[i])
        }),
{
    let back = if returned_gas < forward {
        returned_gas
    } else {
        forward
    };
    interp.gas.erase_cost(back);
    if out_len > 0 {
        let mlen = interp.memory.len();
        proof {
            assert(out_off + out_len <= mlen);
        }
        let n: usize = if (out.len() as u64) < out_len {
            out.len()
        } else {
            out_len as usize
        };
        let mut prefix: Vec<u8> = Vec::new();
        let mut i: usize = 0;
        while i < n
            invariant
                i <= n <= out@.len(),
                prefix@ =~= out@.subrange(0, i as int),
            decreases n - i,
        {
            prefix.push(out[i]);
            proof {
                assert(prefix@ =~= out@.subrange(0, i + 1));
            }
            i = i + 1;
        }
        let ghost pre_mem = interp.memory@;
        interp.memory.set(out_off as usize, prefix.as_slice());
        proof {
            assert forall|k: int| out_off <= k < out_off + n implies interp.memory@[k] == out@[k
                - out_off] by {
                assert(interp.memory@[k] == prefix@[k - out_off]);
                assert(prefix@[k - out_off] == out@.subrange(0, n as int)[k - out_off]);
            }
        }
    }
    interp.return_data_buffer = bytes_copy_from_slice(out.as_slice());
    let flag = if ret == Return::Stop || ret == Return::Return || ret == Return::SelfDestruct {
        W256::from_u64(1)
    } else {
        W256::zero()
    };
    let _ = interp.stack.push(flag);
    Return::Continue
}

/// Dispatches one fetched opcode to its handler group. The pointer has
/// already moved past the opcode byte. An exceptional halt leaves stack,
/// memory and gas exactly as before dispatch; a `Continue` either
/// consumed gas or advanced the pointer, which bounds the run loop.
pub fn eval<H: Host>(op: u8, interp: &mut Interpreter, host: &mut H) -> (r: Return)
    requires
        old(interp).wf(),
        1 <= old(interp).instruction_pointer <= old(interp).contract.code_len + 33,
        op == old(interp).contract.code@[old(interp).instruction_pointer - 1],
    ensures
        final(interp).wf(),
        final(interp).contract == old(interp).contract,
        final(interp).spec_id == old(interp).spec_id,
        final(interp).is_static == old(interp).is_static,
        final(interp).memory_limit == old(interp).memory_limit,
        final(interp).profile == old(interp).profile,
        final(interp).gas.limit == old(interp).gas.limit,
        r == Return::Continue ==> final(interp).instruction_pointer <= old(interp).contract.code_len
            + 32,
        r == Return::Continue ==> final(interp).gas.spec_remaining() <= old(
            interp,
        ).gas.spec_remaining(),
        (r == Return::Continue && final(interp).gas.spec_remaining() == old(
            interp,
        ).gas.spec_remaining()) ==> final(interp).instruction_pointer >= old(
            interp,
        ).instruction_pointer,
        r.is_exceptional() ==> final(interp).stack@ == old(interp).stack@ && final(interp).memory@
            == old(interp).memory@ && final(interp).gas == old(interp).gas && final(interp).instruction_pointer == old(interp).instruction_pointer,
        op == opcode::JUMP && r == Return::Continue ==> old(interp).stack@.len() > 0 && ({
            let t = old(interp).stack@.last().as_nat();
            &&& t < old(interp).contract.jumps@.len()
            &&& old(interp).contract.jumps@[t as int]
            &&& old(interp).contract.code@[t as int] == opcode::JUMPDEST
            &&& final(interp).instruction_pointer == t
        }),
        op == opcode::JUMP && old(interp).stack@.len() > 0 ==> ({
            let t = old(interp).stack@.last().as_nat();
            (!(t < old(interp).contract.jumps@.len() && old(interp).contract.jumps@[t as int])
                ==> r == Return::InvalidJump)
        }),
        op == opcode::STOP ==> r == Return::Stop,
        op == opcode::INVALID ==> r == Return::InvalidFEOpcode,
        core_effect(op, *old(interp), *final(interp), r),
        memory_effect(op, *old(interp), *final(interp), r),
        flow_effect(op, *old(interp), *final(interp), r),
{
    if op == opcode::STOP {
        return Return::Stop;
    }
    if op == opcode::INVALID {
        return Return::InvalidFEOpcode;
    }
    if op == opcode::JUMP || op == opcode::JUMPI || op == opcode::PUSH2_JUMPI || op == opcode::GAS
        || op == opcode::JUMPDEST {
        return eval_flow(op, interp);
    }
    if op == opcode::MLOAD || op == opcode::MSTORE || op == opcode::MSTORE8 || op == opcode::RETURN
        || op == opcode::REVERT {
        return eval_memory(op, interp);
    }
    if op == opcode::CHAINID || op == opcode::SLOAD || op == opcode::SSTORE || op
        == opcode::SELFDESTRUCT {
        return eval_host_ops(op, interp, host);
    }
    if op == opcode::CALL {
        return eval_call(op, interp, host);
    }
    if op == opcode::ADD || op == opcode::LT || op == opcode::GT || op == opcode::EQ || op
        == opcode::ISZERO || op == opcode::AND || op == opcode::OR || op == opcode::XOR || op
        == opcode::NOT || op == opcode::ADDRESS || op == opcode::CALLER || op == opcode::CALLVALUE
        || op == opcode::CALLDATASIZE || op == opcode::CODESIZE || op == opcode::RETURNDATASIZE
        || op == opcode::CALLDATALOAD || op == opcode::POP || op == opcode::PC || op
        == opcode::MSIZE || (opcode::PUSH1 <= op && op <= opcode::PUSH32) || (opcode::DUP1 <= op
        && op <= opcode::DUP16) || (opcode::SWAP1 <= op && op <= opcode::SWAP16) {
        return eval_core(op, interp);
    }
    Return::InvalidOpcode
}

impl Interpreter {
    /// Runs the frame to completion: analyses, charges the entry block,
    /// then loops fetch/decode/execute until a terminal result. The
    /// result is never `Continue`, and the loop provably terminates: each
    /// step either burns gas or moves the pointer forward, and every
    /// backward jump pays for the landing block.
    pub fn run<H: Host>(&mut self, host: &mut H) -> (r: Return)
        requires
            old(self).wf(),
            old(self).instruction_pointer == 0,
            old(self).stack@.len() == 0,
            old(self).memory@.len() == 0,
            old(self).gas.used == 0,
            old(self).gas.memory == 0,
        ensures
            r != Return::Continue,
            final(self).wf(),
            final(self).contract.code@ == old(self).contract.code@,
            final(self).contract.code_len == old(self).contract.code_len,
            final(self).contract.jumps == old(self).contract.jumps,
            final(self).contract.gas_table == old(self).contract.gas_table,
            final(self).contract.input == old(self).contract.input,
            final(self).contract.address == old(self).contract.address,
            final(self).contract.caller == old(self).contract.caller,
            final(self).contract.value == old(self).contract.value,
            final(self).spec_id == old(self).spec_id,
            final(self).is_static == old(self).is_static,
            final(self).memory_limit == old(self).memory_limit,
            final(self).gas.limit == old(self).gas.limit,
            block_gas_spec(old(self).contract.code@, 0) > old(self).gas.spec_remaining() ==> r
                == Return::OutOfGas && final(self).gas == old(self).gas && final(self).stack@
                == old(self).stack@ && final(self).memory@ == old(self).memory@,
    {
        self.analyse();
        let first = self.contract.first_gas_block();
        if !self.gas.record_cost(first) {
            return Return::OutOfGas;
        }
        loop
            invariant
                self.wf(),
                self.instruction_pointer <= self.contract.code_len + 32,
                self.contract.code@ == old(self).contract.code@,
                self.contract.code_len == old(self).contract.code_len,
                self.contract.jumps == old(self).contract.jumps,
                self.contract.gas_table == old(self).contract.gas_table,
                self.contract.input == old(self).contract.input,
                self.contract.address == old(self).contract.address,
                self.contract.caller == old(self).contract.caller,
                self.contract.value == old(self).contract.value,
                self.spec_id == old(self).spec_id,
                self.is_static == old(self).is_static,
                self.memory_limit == old(self).memory_limit,
                self.gas.limit == old(self).gas.limit,
                block_gas_spec(old(self).contract.code@, 0) <= old(self).gas.spec_remaining(),
            decreases
                    self.gas.spec_remaining(),
                    self.contract.code_len + 33 - self.instruction_pointer,
        {
            let is_static = self.is_static;
            if host.inspect_enabled() {
                let rr = host.step(self, is_static);
                if rr != Return::Continue {
                    return rr;
                }
            }
            let op = self.current_opcode();
            self.profile.record(op);
            self.instruction_pointer = self.instruction_pointer + 1;
            let ret = eval(op, self, host);
            if host.inspect_enabled() {
                let rr = host.step_end(self, is_static, ret);
                if rr != Return::Continue {
                    return rr;
                }
            }
            if ret != Return::Continue {
                return ret;
            }
        }
    }
}


} // verus!
