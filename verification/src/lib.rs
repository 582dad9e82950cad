//! A verified interpreter core for an Ethereum-style stack machine:
//! a fetch/decode/execute loop over analyzed bytecode, with a bounded
//! 256-bit word stack, word-aligned expandable memory, and an exact
//! gas meter, wrapped by a host interface for world-state access.

use vstd::prelude::*;

pub mod bytecode;
pub mod bytes_support;
pub mod contract;
pub mod gas;
pub mod host;
pub mod inspector;
pub mod interpreter;
pub mod memory;
pub mod opcode;
pub mod profile;
pub mod stack;
pub mod word;

verus! {

/// Protocol revision: selects enabled opcodes and the gas schedule. Chosen
/// at frame creation, not globally, so nested frames may differ.
#[derive(Clone, Copy, Debug, PartialEq, Eq, Structural)]
pub enum SpecId {
    Frontier,
    Tangerine,
    Istanbul,
    Berlin,
    London,
}

impl SpecId {
    /// Revisions ordered by age, oldest lowest.
    pub open spec fn rank(self) -> nat {
        match self {
            SpecId::Frontier => 0,
            SpecId::Tangerine => 1,
            SpecId::Istanbul => 2,
            SpecId::Berlin => 3,
            SpecId::London => 4,
        }
    }

    /// True iff this revision is `other` or a later one.
    pub fn at_least(self, other: SpecId) -> (r: bool)
        ensures
            r == (self.rank() >= other.rank()),
    {
        let a = match self {
            SpecId::Frontier => 0u8,
            SpecId::Tangerine => 1,
            SpecId::Istanbul => 2,
            SpecId::Berlin => 3,
            SpecId::London => 4,
        };
        let b = match other {
            SpecId::Frontier => 0u8,
            SpecId::Tangerine => 1,
            SpecId::Istanbul => 2,
            SpecId::Berlin => 3,
            SpecId::London => 4,
        };
        a >= b
    }
}

/// Result of one instruction, or of a whole frame. `Continue` is only
/// ever an intermediate value: it never escapes `run`.
#[derive(Clone, Copy, Debug, PartialEq, Eq, Structural)]
pub enum Return {
    Continue,
    Stop,
    Return,
    SelfDestruct,
    Revert,
    OutOfGas,
    MemoryLimitOOG,
    PrecompileOOG,
    StackUnderflow,
    StackOverflow,
    InvalidJump,
    InvalidOpcode,
    InvalidFEOpcode,
    CallTooDeep,
    OutOfFunds,
    NotActivated,
    StateChangeDuringStaticCall,
    FatalExternalError,
}

impl Return {
    /// Normal termination: remaining gas goes back to the caller.
    pub open spec fn is_normal(self) -> bool {
        self == Return::Stop || self == Return::Return || self == Return::SelfDestruct
    }

    /// Revert: remaining gas goes back, state is rolled back, output kept.
    pub open spec fn is_revert(self) -> bool {
        self == Return::Revert
    }

    /// Exceptional halt: every non-Continue kind that is neither normal
    /// termination nor a revert. The caller consumes all remaining gas.
    pub open spec fn is_exceptional(self) -> bool {
        self != Return::Continue && !self.is_normal() && !self.is_revert()
    }

    /// True for every terminal kind (everything but `Continue`).
    pub fn is_terminal(&self) -> (r: bool)
        ensures
            r == (*self != Return::Continue),
    {
        *self != Return::Continue
    }
}

} // verus!
