//! The host interface: the collaborator that supplies world state
//! (balances, storage, code) and enacts sub-calls, and through which an
//! attached inspector observes every step. The interpreter states what
//! holds of every possible host answer; a host that returns `None` from a
//! state access makes the frame halt with `FatalExternalError`.

use vstd::prelude::*;
use crate::interpreter::Interpreter;
use crate::word::W256;
use crate::Return;

verus! {

/// Inputs of a sub-call (CALL family).
pub struct CallInputs {
    /// The account whose code runs.
    pub contract: W256,
    /// Transfer source.
    pub transfer_source: W256,
    /// Transfer target.
    pub transfer_target: W256,
    /// Transferred value.
    pub transfer_value: W256,
    /// Call data.
    pub input: Vec<u8>,
    /// Gas handed to the callee.
    pub gas_limit: u64,
    /// Apparent caller in the callee's context.
    pub context_caller: W256,
    /// Address whose storage the callee touches.
    pub context_address: W256,
    /// Apparent value in the callee's context.
    pub context_value: W256,
    /// Whether the callee runs under static restrictions.
    pub is_static: bool,
}

/// Inputs of a contract creation (CREATE family).
pub struct CreateInputs {
    /// The creating account.
    pub caller: W256,
    /// `Some(salt)` for the salted scheme, `None` for the plain one.
    pub salt: Option<W256>,
    /// Endowment.
    pub value: W256,
    /// Init code.
    pub init_code: Vec<u8>,
    /// Gas handed to the creation frame.
    pub gas_limit: u64,
}

/// What the host reports of a self-destruct.
pub struct SelfDestructResult {
    pub had_value: bool,
    pub target_exists: bool,
    pub is_cold: bool,
    pub previously_destroyed: bool,
}

/// World-state access and sub-call dispatch, supplied by the embedding.
/// Storage reads return `(value, is_cold)` for access-list pricing; every
/// state access may instead fail (`None`), which the interpreter turns
/// into `FatalExternalError` without touching its own state.
///
/// `step` and `step_end` are the inspection hooks invoked around every
/// instruction when `inspect_enabled` is true. An implementation may stop
/// the frame by returning a terminal kind, but must leave the interpreter
/// exactly as it found it: the frame's state belongs to the frame.
pub trait Host {
    /// Whether the step hooks should be invoked.
    fn inspect_enabled(&self) -> bool;

    /// Observes the interpreter before an instruction; non-Continue stops
    /// the frame with that result.
    fn step(&mut self, interp: &mut Interpreter, is_static: bool) -> (r: Return)
        requires
            old(interp).wf(),
        ensures
            *final(interp) == *old(interp),
    ;

    /// Observes the interpreter after an instruction; non-Continue
    /// overrides the instruction's result.
    fn step_end(&mut self, interp: &mut Interpreter, is_static: bool, eval: Return) -> (r: Return)
        requires
            old(interp).wf(),
        ensures
            *final(interp) == *old(interp),
    ;

    /// The chain identifier of the environment.
    fn chain_id(&mut self) -> (r: W256);

    /// Marks the account warm; returns `(is_cold, exists)`.
    fn load_account(&mut self, address: &W256) -> (r: Option<(bool, bool)>);

    /// The account's balance and whether the access was cold.
    fn balance(&mut self, address: &W256) -> (r: Option<(W256, bool)>);

    /// The account's code and whether the access was cold.
    fn code(&mut self, address: &W256) -> (r: Option<(Vec<u8>, bool)>);

    /// The hash of the account's code and whether the access was cold.
    fn code_hash(&mut self, address: &W256) -> (r: Option<(W256, bool)>);

    /// Reads a storage slot: `(value, is_cold)`.
    fn sload(&mut self, address: &W256, index: &W256) -> (r: Option<(W256, bool)>);

    /// Writes a storage slot: `(original, present, new, is_cold)`, the
    /// slot's value at transaction start, before this write, and after.
    fn sstore(&mut self, address: &W256, index: &W256, value: &W256) -> (r: Option<
        (W256, W256, W256, bool),
    >);

    /// Emits a log record.
    fn log(&mut self, address: &W256, topics: Vec<W256>, data: Vec<u8>);

    /// Marks the account destroyed, moving its funds to `target`.
    fn selfdestruct(&mut self, address: &W256, target: &W256) -> (r: Option<SelfDestructResult>);

    /// Runs a sub-call; returns the result kind, the gas left unspent of
    /// `inputs.gas_limit`, and the output bytes.
    fn call(&mut self, inputs: CallInputs) -> (r: (Return, u64, Vec<u8>));

    /// Runs a creation; returns the result kind, the created address on
    /// success, the gas left unspent, and the output bytes.
    fn create(&mut self, inputs: CreateInputs) -> (r: (Return, Option<W256>, u64, Vec<u8>));
}

} // verus!
