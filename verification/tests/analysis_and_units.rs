use revm_interp::contract::Contract;
use revm_interp::gas::Gas;
use revm_interp::host::{CallInputs, CreateInputs, Host, SelfDestructResult};
use revm_interp::inspector::{CustomPrintTracer, Inspector};
use revm_interp::interpreter::{sstore_gas_calc, Interpreter};
use revm_interp::profile::OpcodeProfile;
use revm_interp::word::W256;
use revm_interp::{Return, SpecId};

struct NullHost;

impl Host for NullHost {
    fn inspect_enabled(&self) -> bool {
        false
    }
    fn step(&mut self, _interp: &mut Interpreter, _is_static: bool) -> Return {
        Return::Continue
    }
    fn step_end(&mut self, _interp: &mut Interpreter, _is_static: bool, _eval: Return) -> Return {
        Return::Continue
    }
    fn chain_id(&mut self) -> W256 {
        W256::zero()
    }
    fn load_account(&mut self, _address: &W256) -> Option<(bool, bool)> {
        Some((false, true))
    }
    fn balance(&mut self, _address: &W256) -> Option<(W256, bool)> {
        Some((W256::zero(), false))
    }
    fn code(&mut self, _address: &W256) -> Option<(Vec<u8>, bool)> {
        Some((Vec::new(), false))
    }
    fn code_hash(&mut self, _address: &W256) -> Option<(W256, bool)> {
        Some((W256::zero(), false))
    }
    fn sload(&mut self, _address: &W256, _index: &W256) -> Option<(W256, bool)> {
        Some((W256::zero(), false))
    }
    fn sstore(&mut self, _a: &W256, _i: &W256, v: &W256) -> Option<(W256, W256, W256, bool)> {
        Some((W256::zero(), W256::zero(), *v, false))
    }
    fn log(&mut self, _address: &W256, _topics: Vec<W256>, _data: Vec<u8>) {}
    fn selfdestruct(&mut self, _address: &W256, _target: &W256) -> Option<SelfDestructResult> {
        None
    }
    fn call(&mut self, _inputs: CallInputs) -> (Return, u64, Vec<u8>) {
        (Return::Stop, 0, Vec::new())
    }
    fn create(&mut self, _inputs: CreateInputs) -> (Return, Option<W256>, u64, Vec<u8>) {
        (Return::Stop, None, 0, Vec::new())
    }
}

fn make_contract(code_hex: &str) -> Contract {
    let code = hex::decode(code_hex).unwrap();
    Contract::new(code, Vec::new(), W256::zero(), W256::zero(), W256::zero())
}

#[test]
fn jumpdest_bitmap_skips_push_immediates() {
    // PUSH1 0x5b; STOP: the 0x5b byte is immediate data, not a JUMPDEST.
    let c = make_contract("605b00");
    assert!(!c.is_valid_jump(1));
    // A real JUMPDEST at offset 0 is marked.
    let c2 = make_contract("5b00");
    assert!(c2.is_valid_jump(0));
}

#[test]
fn jump_into_immediate_is_invalid() {
    // PUSH1 0x5b; PUSH1 1; JUMP: offset 1 is inside the first immediate.
    let mut host = NullHost;
    let code = hex::decode("605b600156").unwrap();
    let contract = Contract::new(code, Vec::new(), W256::zero(), W256::zero(), W256::zero());
    let mut interp = Interpreter::new(contract, 100, SpecId::Berlin, false);
    assert_eq!(interp.run(&mut host), Return::InvalidJump);
}

#[test]
fn fusion_rewrites_push2_jumpi_and_is_idempotent() {
    // PUSH1 0; JUMPDEST; PUSH2 0x0002; JUMPI — target 2 is a valid dest.
    let c = make_contract("60005b61000257");
    assert_eq!(c.code[3], 0xb0);
    let mut interp = Interpreter::new(c, 100, SpecId::Berlin, false);
    let before = interp.contract.code.clone();
    interp.analyse();
    assert_eq!(interp.contract.code, before);
}

#[test]
fn fused_pair_takes_and_skips_like_the_plain_pair() {
    // Not taken: condition 0 falls through past the JUMPI byte to STOP.
    let mut host = NullHost;
    let c = make_contract("60005b61000257");
    let mut interp = Interpreter::new(c, 100, SpecId::Berlin, false);
    assert_eq!(interp.run(&mut host), Return::Stop);

    // Taken: condition 1 lands on the JUMPDEST before the final STOP.
    let mut host2 = NullHost;
    let c2 = make_contract("600161000757005b00"); // PUSH1 1; PUSH2 7; JUMPI; STOP; JUMPDEST; STOP
    assert_eq!(c2.code[2], 0xb0);
    let mut interp2 = Interpreter::new(c2, 100, SpecId::Berlin, false);
    assert_eq!(interp2.run(&mut host2), Return::Stop);
}

#[test]
fn storage_write_round_trip_nets_two_reads() {
    // Istanbul schedule, warm slot: write 5 -> 0, then 0 -> 5 again.
    let o = W256::from_u64(5);
    let five = W256::from_u64(5);
    let zero = W256::zero();
    let (c1, r1) = sstore_gas_calc(SpecId::Istanbul, &o, &five, &zero, false);
    let (c2, r2) = sstore_gas_calc(SpecId::Istanbul, &o, &zero, &five, false);
    assert_eq!(c1, 5000);
    assert_eq!(r1, 15000);
    assert_eq!(c2, 800);
    assert_eq!(r2, -10800);
    let net = c1 as i64 - r1 + c2 as i64 - r2;
    assert_eq!(net, 2 * 800);
}

#[test]
fn legacy_storage_round_trip_nets_two_resets() {
    let five = W256::from_u64(5);
    let zero = W256::zero();
    let (c1, r1) = sstore_gas_calc(SpecId::Frontier, &five, &five, &zero, false);
    let (c2, r2) = sstore_gas_calc(SpecId::Frontier, &five, &zero, &five, false);
    let net = c1 as i64 - r1 + c2 as i64 - r2;
    assert_eq!(net, 2 * 5000);
}

#[test]
fn word_arithmetic_and_comparisons() {
    let max = W256::from_be_slice(&[0xffu8; 32]);
    let one = W256::from_u64(1);
    assert!(max.wrapping_add(&one).is_zero());

    let two = W256::from_u64(2);
    let three = W256::from_u64(3);
    assert!(two.lt(&three));
    assert!(!three.lt(&two));
    assert!(!two.eq_word(&three));
    assert!(two.eq_word(&W256::from_u64(2)));

    assert_eq!(W256::from_u64(0xdead_beef).to_u64(), Some(0xdead_beef));
    assert_eq!(max.to_u64(), None);
}

#[test]
fn gas_meter_is_all_or_nothing() {
    let mut g = Gas::new(10);
    assert!(g.record_cost(4));
    assert_eq!(g.remaining(), 6);
    assert!(!g.record_cost(7));
    assert_eq!(g.remaining(), 6);
    g.record_refund(-3);
    assert_eq!(g.refunded(), -3);
    g.erase_cost(2);
    assert_eq!(g.remaining(), 8);
}

#[test]
fn ngram_profile_counts_opcode_pairs() {
    let mut host = NullHost;
    let code = hex::decode("6001600201").unwrap();
    let contract = Contract::new(code, Vec::new(), W256::zero(), W256::zero(), W256::zero());
    let mut interp = Interpreter::new(contract, 100, SpecId::Berlin, false);
    interp.profile = OpcodeProfile::new(2);
    assert_eq!(interp.run(&mut host), Return::Stop);
    let entries = interp.ngram_entries();
    assert!(entries.contains(&(0x6001, 1)));
    assert!(entries.contains(&(0x6060, 1)));
}

#[test]
fn tracer_records_each_observed_step() {
    let code = hex::decode("6001").unwrap();
    let contract = Contract::new(code, Vec::new(), W256::zero(), W256::zero(), W256::zero());
    let interp = Interpreter::new(contract, 100, SpecId::Berlin, false);
    let mut tracer = CustomPrintTracer::new();
    assert_eq!(tracer.records().len(), 0);
    assert_eq!(tracer.step(&interp, false), Return::Continue);
    assert_eq!(tracer.records().len(), 1);
    assert_eq!(tracer.records()[0].pc, 0);
    assert_eq!(tracer.records()[0].opcode, 0x60);
    assert_eq!(tracer.records()[0].stack_len, 0);
}

#[test]
fn returndatasize_reports_empty_buffer() {
    let mut host = NullHost;
    let code = hex::decode("3d").unwrap();
    let contract = Contract::new(code, Vec::new(), W256::zero(), W256::zero(), W256::zero());
    let mut interp = Interpreter::new(contract, 100, SpecId::Berlin, false);
    assert_eq!(interp.run(&mut host), Return::Stop);
    assert_eq!(interp.stack.data().last().unwrap().to_u64(), Some(0));
}

#[test]
fn fatal_external_error_leaves_state_alone() {
    // NullHost answers selfdestruct with None: a fatal external error.
    let mut host = NullHost;
    let code = hex::decode("6000ff").unwrap();
    let contract = Contract::new(code, Vec::new(), W256::zero(), W256::zero(), W256::zero());
    let mut interp = Interpreter::new(contract, 40000, SpecId::Berlin, false);
    assert_eq!(interp.run(&mut host), Return::FatalExternalError);
    assert_eq!(interp.stack.len(), 1);
}
