//! Opcode bytes, their immediate sizes, their static gas costs, and the
//! basic-block structure they induce. Dynamic costs (memory expansion,
//! storage, logs, calls) are charged inside the handlers.

use vstd::prelude::*;

verus! {

pub const STOP: u8 = 0x00;
pub const ADD: u8 = 0x01;
pub const LT: u8 = 0x10;
pub const GT: u8 = 0x11;
pub const EQ: u8 = 0x14;
pub const ISZERO: u8 = 0x15;
pub const AND: u8 = 0x16;
pub const OR: u8 = 0x17;
pub const XOR: u8 = 0x18;
pub const NOT: u8 = 0x19;
pub const ADDRESS: u8 = 0x30;
pub const CALLER: u8 = 0x33;
pub const CALLVALUE: u8 = 0x34;
pub const CALLDATALOAD: u8 = 0x35;
pub const CALLDATASIZE: u8 = 0x36;
pub const CODESIZE: u8 = 0x38;
pub const RETURNDATASIZE: u8 = 0x3d;
pub const CHAINID: u8 = 0x46;
pub const POP: u8 = 0x50;
pub const MLOAD: u8 = 0x51;
pub const MSTORE: u8 = 0x52;
pub const MSTORE8: u8 = 0x53;
pub const SLOAD: u8 = 0x54;
pub const SSTORE: u8 = 0x55;
pub const JUMP: u8 = 0x56;
pub const JUMPI: u8 = 0x57;
pub const PC: u8 = 0x58;
pub const MSIZE: u8 = 0x59;
pub const GAS: u8 = 0x5a;
pub const JUMPDEST: u8 = 0x5b;
pub const PUSH1: u8 = 0x60;
pub const PUSH2: u8 = 0x61;
pub const PUSH32: u8 = 0x7f;
pub const DUP1: u8 = 0x80;
pub const DUP16: u8 = 0x8f;
pub const SWAP1: u8 = 0x90;
pub const SWAP16: u8 = 0x9f;
pub const LOG0: u8 = 0xa0;
pub const LOG4: u8 = 0xa4;
/// Synthetic fused opcode: a `PUSH2 hi lo; JUMPI` pair whose target is a
/// known-valid jump destination, executed as one instruction with the
/// combined gas cost and stack effect.
pub const PUSH2_JUMPI: u8 = 0xb0;
pub const CALL: u8 = 0xf1;
pub const RETURN: u8 = 0xf3;
pub const REVERT: u8 = 0xfd;
pub const INVALID: u8 = 0xfe;
pub const SELFDESTRUCT: u8 = 0xff;

/// How many immediate bytes follow the opcode.
pub open spec fn push_size_spec(op: u8) -> nat {
    if PUSH1 <= op <= PUSH32 {
        (op - PUSH1 + 1) as nat
    } else if op == PUSH2_JUMPI {
        2
    } else {
        0
    }
}

pub fn push_size(op: u8) -> (r: usize)
    ensures
        r == push_size_spec(op),
        r <= 32,
{
    if PUSH1 <= op && op <= PUSH32 {
        (op - PUSH1 + 1) as usize
    } else if op == PUSH2_JUMPI {
        2
    } else {
        0
    }
}

/// True for opcodes that end a basic block: control flow leaves, halts,
/// or may suspend into the host after them.
pub open spec fn is_block_end_spec(op: u8) -> bool {
    op == STOP || op == JUMP || op == JUMPI || op == PUSH2_JUMPI || op == JUMPDEST || op == GAS
        || op == RETURN || op == REVERT || op == INVALID || op == SELFDESTRUCT || op == SSTORE
        || op == CALL || (LOG0 <= op <= LOG4)
}

pub fn is_block_end(op: u8) -> (r: bool)
    ensures
        r == is_block_end_spec(op),
{
    op == STOP || op == JUMP || op == JUMPI || op == PUSH2_JUMPI || op == JUMPDEST || op == GAS
        || op == RETURN || op == REVERT || op == INVALID || op == SELFDESTRUCT || op == SSTORE
        || op == CALL || (LOG0 <= op && op <= LOG4)
}

/// Static gas of one opcode; the largest value is 13 (the fused pair).
/// Opcodes whose whole cost is dynamic, and undefined bytes, are 0 here.
pub open spec fn static_cost_spec(op: u8) -> nat {
    if op == STOP || op == RETURN || op == REVERT || op == INVALID || op == SLOAD || op == SSTORE
        || op == SELFDESTRUCT || (LOG0 <= op <= LOG4) {
        0
    } else if op == JUMPDEST {
        1
    } else if op == ADDRESS || op == CALLER || op == CALLVALUE || op == CALLDATASIZE || op
        == CODESIZE || op == RETURNDATASIZE || op == CHAINID || op == POP || op == PC || op
        == MSIZE || op == GAS {
        2
    } else if op == ADD || op == LT || op == GT || op == EQ || op == ISZERO || op == AND || op
        == OR || op == XOR || op == NOT || op == CALLDATALOAD || op == MLOAD || op == MSTORE || op
        == MSTORE8 || (PUSH1 <= op <= PUSH32) || (DUP1 <= op <= DUP16) || (SWAP1 <= op <= SWAP16) {
        3
    } else if op == JUMP {
        8
    } else if op == JUMPI {
        10
    } else if op == PUSH2_JUMPI {
        13
    } else {
        0
    }
}

pub fn static_cost(op: u8) -> (r: u64)
    ensures
        r == static_cost_spec(op),
        r <= 13,
{
    if op == STOP || op == RETURN || op == REVERT || op == INVALID || op == SLOAD || op == SSTORE
        || op == SELFDESTRUCT || (LOG0 <= op && op <= LOG4) {
        0
    } else if op == JUMPDEST {
        1
    } else if op == ADDRESS || op == CALLER || op == CALLVALUE || op == CALLDATASIZE || op
        == CODESIZE || op == RETURNDATASIZE || op == CHAINID || op == POP || op == PC || op
        == MSIZE || op == GAS {
        2
    } else if op == ADD || op == LT || op == GT || op == EQ || op == ISZERO || op == AND || op
        == OR || op == XOR || op == NOT || op == CALLDATALOAD || op == MLOAD || op == MSTORE || op
        == MSTORE8 || (PUSH1 <= op && op <= PUSH32) || (DUP1 <= op && op <= DUP16) || (SWAP1 <= op
        && op <= SWAP16) {
        3
    } else if op == JUMP {
        8
    } else if op == JUMPI {
        10
    } else if op == PUSH2_JUMPI {
        13
    } else {
        0
    }
}

/// Every static cost fits under one small bound; this is what keeps the
/// per-block gas table far away from overflow.
pub proof fn lemma_static_cost_max(op: u8)
    ensures
        static_cost_spec(op) <= 13,
{
}

/// The printable mnemonic of a defined opcode.
pub fn opcode_name(op: u8) -> (r: Option<&'static str>) {
    if op == STOP {
        Some("STOP")
    } else if op == ADD {
        Some("ADD")
    } else if op == LT {
        Some("LT")
    } else if op == GT {
        Some("GT")
    } else if op == EQ {
        Some("EQ")
    } else if op == ISZERO {
        Some("ISZERO")
    } else if op == AND {
        Some("AND")
    } else if op == OR {
        Some("OR")
    } else if op == XOR {
        Some("XOR")
    } else if op == NOT {
        Some("NOT")
    } else if op == ADDRESS {
        Some("ADDRESS")
    } else if op == CALLER {
        Some("CALLER")
    } else if op == CALLVALUE {
        Some("CALLVALUE")
    } else if op == CALLDATALOAD {
        Some("CALLDATALOAD")
    } else if op == CALLDATASIZE {
        Some("CALLDATASIZE")
    } else if op == CODESIZE {
        Some("CODESIZE")
    } else if op == RETURNDATASIZE {
        Some("RETURNDATASIZE")
    } else if op == CHAINID {
        Some("CHAINID")
    } else if op == POP {
        Some("POP")
    } else if op == MLOAD {
        Some("MLOAD")
    } else if op == MSTORE {
        Some("MSTORE")
    } else if op == MSTORE8 {
        Some("MSTORE8")
    } else if op == SLOAD {
        Some("SLOAD")
    } else if op == SSTORE {
        Some("SSTORE")
    } else if op == JUMP {
        Some("JUMP")
    } else if op == JUMPI {
        Some("JUMPI")
    } else if op == PC {
        Some("PC")
    } else if op == MSIZE {
        Some("MSIZE")
    } else if op == GAS {
        Some("GAS")
    } else if op == JUMPDEST {
        Some("JUMPDEST")
    } else if PUSH1 <= op && op <= PUSH32 {
        Some("PUSH")
    } else if DUP1 <= op && op <= DUP16 {
        Some("DUP")
    } else if SWAP1 <= op && op <= SWAP16 {
        Some("SWAP")
    } else if LOG0 <= op && op <= LOG4 {
        Some("LOG")
    } else if op == PUSH2_JUMPI {
        Some("PUSH2_JUMPI")
    } else if op == RETURN {
        Some("RETURN")
    } else if op == REVERT {
        Some("REVERT")
    } else if op == INVALID {
        Some("INVALID")
    } else if op == CALL {
        Some("CALL")
    } else if op == SELFDESTRUCT {
        Some("SELFDESTRUCT")
    } else {
        None
    }
}

} // verus!
