use revm_interp::contract::Contract;
use revm_interp::host::{CallInputs, CreateInputs, Host, SelfDestructResult};
use revm_interp::interpreter::{charge_and_resize, Interpreter};
use revm_interp::word::W256;
use revm_interp::{Return, SpecId};

/// A host with in-memory storage and no inspection.
struct TestHost {
    storage: Vec<(W256, W256)>,
    original: Vec<(W256, W256)>,
    logs: usize,
    destroyed: bool,
    chain: u64,
    calls: Vec<u64>,
    call_answer: (Return, u64, Vec<u8>),
}

impl TestHost {
    fn new() -> Self {
        TestHost {
            storage: Vec::new(),
            original: Vec::new(),
            logs: 0,
            destroyed: false,
            chain: 1,
            calls: Vec::new(),
            call_answer: (Return::Stop, 0, Vec::new()),
        }
    }

    fn get(map: &Vec<(W256, W256)>, k: &W256) -> W256 {
        for (key, val) in map.iter() {
            if key.bytes == k.bytes {
                return *val;
            }
        }
        W256::zero()
    }

    fn put(map: &mut Vec<(W256, W256)>, k: &W256, v: W256) {
        for entry in map.iter_mut() {
            if entry.0.bytes == k.bytes {
                entry.1 = v;
                return;
            }
        }
        map.push((*k, v));
    }
}

impl Host for TestHost {
    fn inspect_enabled(&self) -> bool {
        false
    }
    fn step(&mut self, _interp: &mut Interpreter, _is_static: bool) -> Return {
        Return::Continue
    }
    fn step_end(&mut self, _interp: &mut Interpreter, _is_static: bool, _eval: Return) -> Return {
        Return::Continue
    }
    fn chain_id(&mut self) -> W256 {
        W256::from_u64(self.chain)
    }
    fn load_account(&mut self, _address: &W256) -> Option<(bool, bool)> {
        Some((false, true))
    }
    fn balance(&mut self, _address: &W256) -> Option<(W256, bool)> {
        Some((W256::zero(), false))
    }
    fn code(&mut self, _address: &W256) -> Option<(Vec<u8>, bool)> {
        Some((Vec::new(), false))
    }
    fn code_hash(&mut self, _address: &W256) -> Option<(W256, bool)> {
        Some((W256::zero(), false))
    }
    fn sload(&mut self, _address: &W256, index: &W256) -> Option<(W256, bool)> {
        Some((TestHost::get(&self.storage, index), false))
    }
    fn sstore(&mut self, _address: &W256, index: &W256, value: &W256) -> Option<(W256, W256, W256, bool)> {
        let present = TestHost::get(&self.storage, index);
        if !self.original.iter().any(|e| e.0.bytes == index.bytes) {
            TestHost::put(&mut self.original, index, present);
        }
        let original = TestHost::get(&self.original, index);
        TestHost::put(&mut self.storage, index, *value);
        Some((original, present, *value, false))
    }
    fn log(&mut self, _address: &W256, _topics: Vec<W256>, _data: Vec<u8>) {
        self.logs += 1;
    }
    fn selfdestruct(&mut self, _address: &W256, _target: &W256) -> Option<SelfDestructResult> {
        self.destroyed = true;
        Some(SelfDestructResult {
            had_value: false,
            target_exists: true,
            is_cold: false,
            previously_destroyed: false,
        })
    }
    fn call(&mut self, inputs: CallInputs) -> (Return, u64, Vec<u8>) {
        self.calls.push(inputs.gas_limit);
        (self.call_answer.0, self.call_answer.1, self.call_answer.2.clone())
    }
    fn create(&mut self, _inputs: CreateInputs) -> (Return, Option<W256>, u64, Vec<u8>) {
        (Return::Stop, None, 0, Vec::new())
    }
}

fn frame(code_hex: &str, gas_limit: u64, spec: SpecId) -> Interpreter {
    let code = hex::decode(code_hex).unwrap();
    let contract = Contract::new(code, Vec::new(), W256::zero(), W256::zero(), W256::zero());
    Interpreter::new(contract, gas_limit, spec, false)
}

fn stack_top_u64(interp: &Interpreter) -> u64 {
    let data = interp.stack.data();
    let top = data.last().expect("stack empty");
    top.to_u64().expect("top too large")
}

#[test]
fn push_add_falls_off_and_stops() {
    let mut host = TestHost::new();
    let mut interp = frame("6001600201", 100, SpecId::Berlin);
    let ret = interp.run(&mut host);
    assert_eq!(ret, Return::Stop);
    assert_eq!(stack_top_u64(&interp), 3);
    assert_eq!(interp.gas.remaining(), 100 - 9);
}

#[test]
fn sstore_writes_sum_to_slot_zero() {
    let mut host = TestHost::new();
    let mut interp = frame("6005600401600055", 40000, SpecId::Istanbul);
    let ret = interp.run(&mut host);
    assert_eq!(ret, Return::Stop);
    let slot = TestHost::get(&host.storage, &W256::zero());
    assert_eq!(slot.to_u64(), Some(9));
}

#[test]
fn revert_returns_empty_output_and_keeps_gas() {
    let mut host = TestHost::new();
    let mut interp = frame("60006000fd", 100, SpecId::Berlin);
    let ret = interp.run(&mut host);
    assert_eq!(ret, Return::Revert);
    let out = interp.return_value();
    assert_eq!(out.len(), 0);
    // Only the entry block (PUSH1 + PUSH1 + REVERT = 3 + 3 + 0) was spent.
    assert_eq!(interp.gas.remaining(), 100 - 6);
}

#[test]
fn truncated_push_pads_with_implicit_stop() {
    let mut host = TestHost::new();
    let mut interp = frame("60ff", 100, SpecId::Berlin);
    let ret = interp.run(&mut host);
    assert_eq!(ret, Return::Stop);
    assert_eq!(stack_top_u64(&interp), 0xff);
}

#[test]
fn jump_to_non_jumpdest_is_invalid() {
    let mut host = TestHost::new();
    let mut interp = frame("600056", 100, SpecId::Berlin);
    let ret = interp.run(&mut host);
    assert_eq!(ret, Return::InvalidJump);
}

#[test]
fn infinite_loop_runs_out_of_gas_after_whole_iterations() {
    // Each iteration is JUMPDEST(1) + PUSH1(3) + JUMP(8) = 12 gas.
    let mut host = TestHost::new();
    let mut interp = frame("5b600056", 120, SpecId::Berlin);
    let ret = interp.run(&mut host);
    assert_eq!(ret, Return::OutOfGas);
    assert_eq!(interp.gas.remaining(), 0);

    let mut host2 = TestHost::new();
    let mut interp2 = frame("5b600056", 125, SpecId::Berlin);
    let ret2 = interp2.run(&mut host2);
    assert_eq!(ret2, Return::OutOfGas);
    // 10 full iterations (120 gas) plus the taken jump's landing charge.
    assert_eq!(interp2.gas.remaining(), 4);
}

#[test]
fn return_copies_memory_window() {
    // Store 0x2a as a word at offset 0, then return those 32 bytes.
    let mut host = TestHost::new();
    let mut interp = frame("602a60005260206000f3", 100, SpecId::Berlin);
    let ret = interp.run(&mut host);
    assert_eq!(ret, Return::Return);
    let out = interp.return_value();
    assert_eq!(out.len(), 32);
    assert_eq!(out[31], 0x2a);
    assert!(out[..31].iter().all(|b| *b == 0));
}

#[test]
fn sload_pushes_host_value() {
    let mut host = TestHost::new();
    TestHost::put(&mut host.storage, &W256::zero(), W256::from_u64(7));
    let mut interp = frame("600054", 1000, SpecId::Istanbul);
    let ret = interp.run(&mut host);
    assert_eq!(ret, Return::Stop);
    assert_eq!(stack_top_u64(&interp), 7);
    // Entry block PUSH1 (3) plus the Istanbul storage-read cost.
    assert_eq!(interp.gas.remaining(), 1000 - 3 - 800);
}

#[test]
fn sstore_in_static_frame_is_rejected() {
    let mut host = TestHost::new();
    let code = hex::decode("6005600055").unwrap();
    let contract = Contract::new(code, Vec::new(), W256::zero(), W256::zero(), W256::zero());
    let mut interp = Interpreter::new(contract, 40000, SpecId::Istanbul, true);
    let ret = interp.run(&mut host);
    assert_eq!(ret, Return::StateChangeDuringStaticCall);
}

#[test]
fn chainid_gated_by_revision() {
    let mut host = TestHost::new();
    let mut interp = frame("46", 100, SpecId::Frontier);
    assert_eq!(interp.run(&mut host), Return::NotActivated);

    let mut host2 = TestHost::new();
    let mut interp2 = frame("46", 100, SpecId::Istanbul);
    assert_eq!(interp2.run(&mut host2), Return::Stop);
    assert_eq!(stack_top_u64(&interp2), 1);
}

#[test]
fn add_on_empty_stack_underflows() {
    let mut host = TestHost::new();
    let mut interp = frame("01", 100, SpecId::Berlin);
    assert_eq!(interp.run(&mut host), Return::StackUnderflow);
}

#[test]
fn designated_invalid_and_undefined_opcodes() {
    let mut host = TestHost::new();
    let mut interp = frame("fe", 100, SpecId::Berlin);
    assert_eq!(interp.run(&mut host), Return::InvalidFEOpcode);

    let mut host2 = TestHost::new();
    let mut interp2 = frame("ef", 100, SpecId::Berlin);
    assert_eq!(interp2.run(&mut host2), Return::InvalidOpcode);
}

#[test]
fn selfdestruct_reports_to_host() {
    let mut host = TestHost::new();
    let mut interp = frame("6000ff", 40000, SpecId::Berlin);
    let ret = interp.run(&mut host);
    assert_eq!(ret, Return::SelfDestruct);
    assert!(host.destroyed);
    // Pre-London self-destructs accumulate the refund.
    assert_eq!(interp.gas.refunded(), 24000);
}

#[test]
fn memory_limit_caps_expansion() {
    let mut host = TestHost::new();
    let code = hex::decode("6001610fff52").unwrap(); // MSTORE at offset 0xfff
    let contract = Contract::new(code, Vec::new(), W256::zero(), W256::zero(), W256::zero());
    let mut interp = Interpreter::new_with_memory_limit(contract, 100000, 64, SpecId::Berlin, false);
    assert_eq!(interp.run(&mut host), Return::MemoryLimitOOG);
}

#[test]
fn memory_expansion_cost_is_additive() {
    // Growing 0 -> 32 -> 64 must cost exactly what 0 -> 64 costs.
    let contract = Contract::new(Vec::new(), Vec::new(), W256::zero(), W256::zero(), W256::zero());
    let mut two_steps = Interpreter::new(contract, 1000, SpecId::Berlin, false);
    assert_eq!(charge_and_resize(&mut two_steps, 0, 32, 0), Return::Continue);
    assert_eq!(charge_and_resize(&mut two_steps, 32, 32, 0), Return::Continue);

    let contract2 = Contract::new(Vec::new(), Vec::new(), W256::zero(), W256::zero(), W256::zero());
    let mut one_step = Interpreter::new(contract2, 1000, SpecId::Berlin, false);
    assert_eq!(charge_and_resize(&mut one_step, 0, 64, 0), Return::Continue);

    assert_eq!(two_steps.gas.remaining(), one_step.gas.remaining());
    assert_eq!(two_steps.gas.remaining(), 1000 - 6); // 3 words-cost per word, no quadratic part yet
}

#[test]
fn calldata_reads_zero_extend() {
    let code = hex::decode("600035").unwrap(); // PUSH1 0; CALLDATALOAD
    let contract = Contract::new(code, vec![0xab, 0xcd], W256::zero(), W256::zero(), W256::zero());
    let mut interp = Interpreter::new(contract, 100, SpecId::Berlin, false);
    let mut host = TestHost::new();
    assert_eq!(interp.run(&mut host), Return::Stop);
    let top = *interp.stack.data().last().unwrap();
    assert_eq!(top.bytes[0], 0xab);
    assert_eq!(top.bytes[1], 0xcd);
    assert!(top.bytes[2..].iter().all(|b| *b == 0));
}

#[test]
fn comparison_and_bitwise_chain() {
    // 2 LT 3 -> 1 (LT pops top as left operand): PUSH 3, PUSH 2, LT.
    let mut host = TestHost::new();
    let mut interp = frame("6003600210", 100, SpecId::Berlin);
    assert_eq!(interp.run(&mut host), Return::Stop);
    assert_eq!(stack_top_u64(&interp), 1);

    let mut host2 = TestHost::new();
    let mut interp2 = frame("600f600316", 100, SpecId::Berlin); // 3 AND 15 = 3
    assert_eq!(interp2.run(&mut host2), Return::Stop);
    assert_eq!(stack_top_u64(&interp2), 3);
}

#[test]
fn dup_swap_pop_work_and_pc_msize_report() {
    // PUSH1 1; PUSH1 2; DUP2; SWAP1; POP; POP; POP -> empty, Stop.
    let mut host = TestHost::new();
    let mut interp = frame("6001600281905050505b", 100, SpecId::Berlin);
    assert_eq!(interp.run(&mut host), Return::Stop);
    assert_eq!(interp.stack.len(), 0);

    let mut host2 = TestHost::new();
    let mut interp2 = frame("58", 100, SpecId::Berlin); // PC at offset 0
    assert_eq!(interp2.run(&mut host2), Return::Stop);
    assert_eq!(stack_top_u64(&interp2), 0);
}


#[test]
fn call_forwards_capped_gas_and_pushes_success() {
    let mut host = TestHost::new();
    // out_len 0, out_off 0, in_len 0, in_off 0, value 0, to 5, gas 0x100.
    let mut interp = frame("600060006000600060006005610100f1", 10000, SpecId::Berlin);
    let ret = interp.run(&mut host);
    assert_eq!(ret, Return::Stop);
    assert_eq!(stack_top_u64(&interp), 1);
    assert_eq!(host.calls, vec![0x100]);
    // Entry block 21, warm account base 100, forwarded 0x100, none returned.
    assert_eq!(interp.gas.remaining(), 10000 - 21 - 100 - 0x100);
}

#[test]
fn call_copies_output_and_fills_return_buffer() {
    let mut host = TestHost::new();
    host.call_answer = (Return::Return, 3, vec![0xaa, 0xbb]);
    // out_len 2, out_off 0, rest zero; to 5; gas 0xff; then RETURNDATASIZE.
    let mut interp = frame("60026000600060006000600560fff13d", 10000, SpecId::Berlin);
    let ret = interp.run(&mut host);
    assert_eq!(ret, Return::Stop);
    // RETURNDATASIZE saw the callee's whole 2-byte output.
    assert_eq!(stack_top_u64(&interp), 2);
    assert_eq!(interp.memory.data()[0], 0xaa);
    assert_eq!(interp.memory.data()[1], 0xbb);
    assert_eq!(host.calls.len(), 1);
}

#[test]
fn value_bearing_call_in_static_frame_is_rejected() {
    let mut host = TestHost::new();
    let code = hex::decode("600060006000600060016005610100f1").unwrap();
    let contract = Contract::new(code, Vec::new(), W256::zero(), W256::zero(), W256::zero());
    let mut interp = Interpreter::new(contract, 10000, SpecId::Berlin, true);
    assert_eq!(interp.run(&mut host), Return::StateChangeDuringStaticCall);
}
