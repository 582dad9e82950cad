//! The inspector protocol: an optional observer invoked around frame
//! initialization, every step, every sub-call and every sub-create. A
//! shadow gas inspector keeps a per-step gas view for tracing consumers;
//! the printing tracer collects one record per step and leaves the
//! formatting and printing to the embedding.

use vstd::prelude::*;
use crate::host::{CallInputs, CreateInputs};
use crate::interpreter::Interpreter;
use crate::word::W256;
use crate::Return;

verus! {

/// Observation points around a frame's life. Implementations may stop
/// the frame by returning a terminal kind from `step`/`step_end`, or
/// rewrite a sub-call's outcome in `call_end`/`create_end`.
pub trait Inspector {
    /// Called once before the loop starts.
    fn initialize_interp(&mut self, interp: &Interpreter, is_static: bool) -> (r: Return)
        requires
            interp.wf(),
    ;

    /// Called before each opcode.
    fn step(&mut self, interp: &Interpreter, is_static: bool) -> (r: Return)
        requires
            interp.wf(),
    ;

    /// Called after each opcode with its result.
    fn step_end(&mut self, interp: &Interpreter, is_static: bool, eval: Return) -> (r: Return)
        requires
            interp.wf(),
    ;

    /// Called before a sub-call; a non-Continue kind short-circuits it
    /// with the returned gas and output.
    fn call(&mut self, inputs: &CallInputs, is_static: bool) -> (r: (Return, u64, Vec<u8>));

    /// Called after a sub-call returns; may rewrite the outcome.
    fn call_end(
        &mut self,
        inputs: &CallInputs,
        remaining_gas: u64,
        ret: Return,
        out: Vec<u8>,
        is_static: bool,
    ) -> (r: (Return, u64, Vec<u8>));

    /// Called before a sub-create; a non-Continue kind short-circuits it.
    fn create(&mut self, inputs: &CreateInputs) -> (r: (Return, Option<W256>, u64, Vec<u8>));

    /// Called after a sub-create returns; may rewrite the outcome.
    fn create_end(
        &mut self,
        inputs: &CreateInputs,
        ret: Return,
        address: Option<W256>,
        remaining_gas: u64,
        out: Vec<u8>,
    ) -> (r: (Return, Option<W256>, u64, Vec<u8>));

    /// Called on SELFDESTRUCT.
    fn selfdestruct(&mut self);
}

/// A shadow gas counter, so tracing consumers can report gas per opcode.
pub struct GasInspector {
    pub gas_remaining: u64,
    pub last_gas_cost: u64,
}

impl Default for GasInspector {
    fn default() -> (r: GasInspector)
        ensures
            r.gas_remaining == 0,
            r.last_gas_cost == 0,
    {
        GasInspector { gas_remaining: 0, last_gas_cost: 0 }
    }
}

impl GasInspector {
    /// Snapshots the frame's remaining gas at initialization.
    pub fn initialize_interp(&mut self, interp: &Interpreter)
        requires
            interp.wf(),
        ensures
            final(self).gas_remaining == interp.gas.spec_remaining(),
            final(self).last_gas_cost == old(self).last_gas_cost,
    {
        self.gas_remaining = interp.gas.remaining();
    }

    /// Updates the shadow counter after an instruction: the gas the
    /// instruction cost is the drop since the last observation.
    pub fn step_end(&mut self, interp: &Interpreter)
        requires
            interp.wf(),
        ensures
            final(self).gas_remaining == interp.gas.spec_remaining(),
            interp.gas.spec_remaining() <= old(self).gas_remaining ==> final(self).last_gas_cost
                == old(self).gas_remaining - interp.gas.spec_remaining(),
    {
        let now = interp.gas.remaining();
        if now <= self.gas_remaining {
            self.last_gas_cost = self.gas_remaining - now;
        } else {
            self.last_gas_cost = 0;
        }
        self.gas_remaining = now;
    }

    /// The shadow counter's current value.
    pub fn gas_remaining(&self) -> (r: u64)
        ensures
            r == self.gas_remaining,
    {
        self.gas_remaining
    }
}

/// One observed step: everything the printing tracer reports per opcode,
/// including the full stack contents at that step.
pub struct TraceRecord {
    pub pc: usize,
    pub opcode: u8,
    pub gas_remaining: u64,
    pub refunded: i64,
    pub stack: Vec<W256>,
    pub stack_len: usize,
    pub memory_len: usize,
}

/// A tracer that records every step, call and create; the embedding
/// formats and prints the records.
pub struct CustomPrintTracer {
    pub gas_inspector: GasInspector,
    pub records: Vec<TraceRecord>,
}

impl CustomPrintTracer {
    pub fn new() -> (r: CustomPrintTracer)
        ensures
            r.gas_inspector.gas_remaining == 0,
            r.gas_inspector.last_gas_cost == 0,
            r.records@.len() == 0,
    {
        CustomPrintTracer { gas_inspector: GasInspector::default(), records: Vec::new() }
    }

    /// The records collected so far, oldest first.
    pub fn records(&self) -> (r: &Vec<TraceRecord>)
        ensures
            r == &self.records,
    {
        &self.records
    }

    /// Snapshots the frame's remaining gas; never stops the run.
    pub fn begin(&mut self, interp: &Interpreter) -> (r: Return)
        requires
            interp.wf(),
        ensures
            r == Return::Continue,
            final(self).gas_inspector.gas_remaining == interp.gas.spec_remaining(),
            final(self).records == old(self).records,
    {
        self.gas_inspector.initialize_interp(interp);
        Return::Continue
    }

    /// Appends exactly one record of the observed frame — the counter,
    /// the opcode under it, the shadow gas, the refund, the whole stack
    /// and the memory size — and never stops the run.
    pub fn observe_step(&mut self, interp: &Interpreter) -> (r: Return)
        requires
            interp.wf(),
        ensures
            r == Return::Continue,
            final(self).gas_inspector == old(self).gas_inspector,
            final(self).records@.len() == old(self).records@.len() + 1,
            final(self).records@.drop_last() == old(self).records@,
            ({
                let rec = final(self).records@.last();
                &&& rec.pc == interp.instruction_pointer
                &&& (interp.instruction_pointer < interp.contract.code_len ==> rec.opcode
                    == interp.contract.code@[interp.instruction_pointer as int])
                &&& rec.gas_remaining == old(self).gas_inspector.gas_remaining
                &&& rec.refunded == interp.gas.refunded
                &&& rec.stack@ == interp.stack@
                &&& rec.stack_len == interp.stack@.len()
                &&& rec.memory_len == interp.memory@.len()
            }),
    {
        let pc = interp.program_counter();
        let op = if pc < interp.contract.code_len {
            interp.contract.opcode_at(pc)
        } else {
            0u8
        };
        let rec = TraceRecord {
            pc,
            opcode: op,
            gas_remaining: self.gas_inspector.gas_remaining(),
            refunded: interp.gas.refunded(),
            stack: copy_words(interp.stack.data()),
            stack_len: interp.stack.len(),
            memory_len: interp.memory.len(),
        };
        self.records.push(rec);
        Return::Continue
    }

    /// Updates the shadow gas counter after an instruction; never stops
    /// the run.
    pub fn finish_step(&mut self, interp: &Interpreter) -> (r: Return)
        requires
            interp.wf(),
        ensures
            r == Return::Continue,
            final(self).records == old(self).records,
            final(self).gas_inspector.gas_remaining == interp.gas.spec_remaining(),
    {
        self.gas_inspector.step_end(interp);
        Return::Continue
    }

    /// This tracer never short-circuits a sub-call: it always answers
    /// Continue with no synthetic gas or output.
    pub fn call_decision(&self) -> (r: (Return, u64, Vec<u8>))
        ensures
            r.0 == Return::Continue,
            r.1 == 0,
            r.2@ =~= Seq::<u8>::empty(),
    {
        (Return::Continue, 0, Vec::new())
    }

    /// This tracer never rewrites a sub-call's outcome.
    pub fn call_outcome(&self, ret: Return, remaining_gas: u64, out: Vec<u8>) -> (r: (
        Return,
        u64,
        Vec<u8>,
    ))
        ensures
            r.0 == ret,
            r.1 == remaining_gas,
            r.2 == out,
    {
        (ret, remaining_gas, out)
    }

    /// This tracer never short-circuits a creation.
    pub fn create_decision(&self) -> (r: (Return, Option<W256>, u64, Vec<u8>))
        ensures
            r.0 == Return::Continue,
            r.1 is None,
            r.2 == 0,
            r.3@ =~= Seq::<u8>::empty(),
    {
        (Return::Continue, None, 0, Vec::new())
    }

    /// This tracer never rewrites a creation's outcome.
    pub fn create_outcome(
        &self,
        ret: Return,
        address: Option<W256>,
        remaining_gas: u64,
        out: Vec<u8>,
    ) -> (r: (Return, Option<W256>, u64, Vec<u8>))
        ensures
            r.0 == ret,
            r.1 == address,
            r.2 == remaining_gas,
            r.3 == out,
    {
        (ret, address, remaining_gas, out)
    }
}

/// A plain copy of the stack's words, bottom first.
fn copy_words(src: &Vec<W256>) -> (r: Vec<W256>)
    ensures
        r@ == src@,
{
    let mut out: Vec<W256> = Vec::new();
    let mut i: usize = 0;
    while i < src.len()
        invariant
            i <= src@.len(),
            out@ =~= src@.subrange(0, i as int),
        decreases src@.len() - i,
    {
        out.push(src[i]);
        proof {
            assert(out@ =~= src@.subrange(0, i + 1));
        }
        i = i + 1;
    }
    proof {
        assert(out@ =~= src@);
    }
    out
}

impl Inspector for CustomPrintTracer {
    fn initialize_interp(&mut self, interp: &Interpreter, _is_static: bool) -> (r: Return) {
        self.begin(interp)
    }

    fn step(&mut self, interp: &Interpreter, _is_static: bool) -> (r: Return) {
        self.observe_step(interp)
    }

    fn step_end(&mut self, interp: &Interpreter, _is_static: bool, _eval: Return) -> (r: Return) {
        self.finish_step(interp)
    }

    fn call(&mut self, _inputs: &CallInputs, _is_static: bool) -> (r: (Return, u64, Vec<u8>)) {
        self.call_decision()
    }

    fn call_end(
        &mut self,
        _inputs: &CallInputs,
        remaining_gas: u64,
        ret: Return,
        out: Vec<u8>,
        _is_static: bool,
    ) -> (r: (Return, u64, Vec<u8>)) {
        self.call_outcome(ret, remaining_gas, out)
    }

    fn create(&mut self, _inputs: &CreateInputs) -> (r: (Return, Option<W256>, u64, Vec<u8>)) {
        self.create_decision()
    }

    fn create_end(
        &mut self,
        _inputs: &CreateInputs,
        ret: Return,
        address: Option<W256>,
        remaining_gas: u64,
        out: Vec<u8>,
    ) -> (r: (Return, Option<W256>, u64, Vec<u8>)) {
        self.create_outcome(ret, address, remaining_gas, out)
    }

    fn selfdestruct(&mut self) {
    }
}

} // verus!
