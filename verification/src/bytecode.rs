//! Bytecode analysis: padding with implicit STOPs, the valid-jumpdest
//! bitmap, per-basic-block static gas, and the peephole fusion of
//! `PUSH2 hi lo; JUMPI` pairs with known-valid targets. The analysis walks
//! instruction boundaries, so immediate data bytes are never marked and
//! never rewritten; running the fusion pass again changes nothing.

use vstd::prelude::*;
use crate::opcode::{
    self, push_size_spec, push_size, is_block_end_spec, is_block_end, static_cost_spec,
    static_cost, lemma_static_cost_max,
};

verus! {

broadcast use vstd::array::group_array_axioms;

/// Bytes appended to the raw code so that a program counter running off
/// the end, or a PUSH32 reading past it, lands on implicit STOPs.
pub const PAD_LEN: usize = 33;

/// The raw bytes followed by 33 zero (STOP) bytes.
pub open spec fn padded_spec(raw: Seq<u8>) -> Seq<u8> {
    raw + Seq::new(33, |_i: int| 0u8)
}

/// Offsets of valid jump destinations reachable by walking instruction
/// boundaries from `i`: JUMPDEST opcode bytes, never PUSH immediates.
pub open spec fn jd_set(code: Seq<u8>, i: nat) -> Set<nat>
    decreases code.len() - i,
{
    if i >= code.len() {
        Set::empty()
    } else {
        let nx = i + 1 + push_size_spec(code[i as int]);
        let rest = if nx <= code.len() {
            jd_set(code, nx)
        } else {
            Set::<nat>::empty()
        };
        if code[i as int] == opcode::JUMPDEST {
            rest.insert(i)
        } else {
            rest
        }
    }
}

/// Instruction boundaries reachable from `i`: every offset where an
/// opcode (not immediate data) begins.
pub open spec fn boundaries(code: Seq<u8>, i: nat) -> Set<nat>
    decreases code.len() - i,
{
    if i >= code.len() {
        Set::empty()
    } else {
        let nx = i + 1 + push_size_spec(code[i as int]);
        let rest = if nx <= code.len() {
            boundaries(code, nx)
        } else {
            Set::<nat>::empty()
        };
        rest.insert(i)
    }
}

/// One marked offset, examined: it is a JUMPDEST opcode at an
/// instruction boundary, never a byte inside a PUSH immediate.
pub proof fn lemma_jd_elem(code: Seq<u8>, i: nat, k: nat)
    requires
        jd_set(code, i).contains(k),
    ensures
        i <= k < code.len(),
        code[k as int] == opcode::JUMPDEST,
        boundaries(code, i).contains(k),
    decreases code.len() - i,
{
    if i < code.len() {
        let nx = i + 1 + push_size_spec(code[i as int]);
        if k == i {
            if code[i as int] != opcode::JUMPDEST {
                if nx <= code.len() {
                    lemma_jd_elem(code, nx, k);
                }
            }
        } else {
            assert(jd_set(code, nx).contains(k) && nx <= code.len());
            lemma_jd_elem(code, nx, k);
        }
    }
}

/// Everything the bitmap marks is a JUMPDEST opcode at an instruction
/// boundary: no byte inside a PUSH immediate is ever marked.
pub proof fn lemma_jd_props(code: Seq<u8>, i: nat)
    ensures
        forall|k: nat|
            #[trigger] jd_set(code, i).contains(k) ==> i <= k < code.len() && code[k as int]
                == opcode::JUMPDEST && boundaries(code, i).contains(k),
{
    assert forall|k: nat| #[trigger] jd_set(code, i).contains(k) implies i <= k < code.len()
        && code[k as int] == opcode::JUMPDEST && boundaries(code, i).contains(k) by {
        lemma_jd_elem(code, i, k);
    }
}

/// Cumulative static gas of the basic block starting at `i`: the cost of
/// each opcode from `i` up to and including the next block terminator.
/// JUMPDEST terminates a block itself, so the block starting at a jump
/// target is exactly the JUMPDEST's own cost of 1; the block that follows
/// is charged by the JUMPDEST handler.
pub open spec fn block_gas_spec(code: Seq<u8>, i: nat) -> nat
    decreases code.len() - i,
{
    if i >= code.len() {
        0
    } else {
        let op = code[i as int];
        let nx = i + 1 + push_size_spec(op);
        if is_block_end_spec(op) || nx >= code.len() {
            static_cost_spec(op)
        } else {
            static_cost_spec(op) + block_gas_spec(code, nx)
        }
    }
}

/// A block's static gas is bounded by 13 gas per byte.
pub proof fn lemma_block_gas_bound(code: Seq<u8>, i: nat)
    ensures
        block_gas_spec(code, i) <= (if i < code.len() {
            (code.len() - i) * 13
        } else {
            0
        }),
    decreases code.len() - i,
{
    if i < code.len() {
        let op = code[i as int];
        let nx = i + 1 + push_size_spec(op);
        lemma_static_cost_max(op);
        if !(is_block_end_spec(op) || nx >= code.len()) {
            lemma_block_gas_bound(code, nx);
        }
    }
}

/// The block starting at a JUMPDEST is exactly the JUMPDEST's own cost:
/// every successful jump pays exactly 1 gas on landing.
pub proof fn lemma_block_gas_at_jumpdest(code: Seq<u8>, i: nat)
    requires
        i < code.len(),
        code[i as int] == opcode::JUMPDEST,
    ensures
        block_gas_spec(code, i) == 1,
{
}

/// True when the instruction at boundary `i` is a `PUSH2 hi lo; JUMPI`
/// pair whose target the bitmap proves valid.
pub open spec fn fusable_at(code: Seq<u8>, jumps: Seq<bool>, i: nat) -> bool {
    &&& i + 4 <= code.len()
    &&& code[i as int] == opcode::PUSH2
    &&& code[i as int + 3] == opcode::JUMPI
    &&& {
        let target = (code[i as int + 1] as nat) * 256 + (code[i as int + 2] as nat);
        target < jumps.len() && jumps[target as int]
    }
}

/// The fusion pass from boundary `i` on: each fusable pair's PUSH2 byte
/// becomes the fused opcode; everything else is untouched.
pub open spec fn fuse_spec(code: Seq<u8>, jumps: Seq<bool>, i: nat) -> Seq<u8>
    decreases code.len() - i,
{
    if i >= code.len() {
        code
    } else {
        let c1 = if fusable_at(code, jumps, i) {
            code.update(i as int, opcode::PUSH2_JUMPI)
        } else {
            code
        };
        let nx = i + 1 + push_size_spec(c1[i as int]);
        if nx <= code.len() {
            fuse_spec(c1, jumps, nx)
        } else {
            c1
        }
    }
}

/// Fusion keeps the length.
pub proof fn lemma_fuse_len(code: Seq<u8>, jumps: Seq<bool>, i: nat)
    ensures
        fuse_spec(code, jumps, i).len() == code.len(),
    decreases code.len() - i,
{
    if i < code.len() {
        let c1 = if fusable_at(code, jumps, i) {
            code.update(i as int, opcode::PUSH2_JUMPI)
        } else {
            code
        };
        let nx = i + 1 + push_size_spec(c1[i as int]);
        if nx <= code.len() {
            lemma_fuse_len(c1, jumps, nx);
        }
    }
}

/// Fusion from `i` never touches bytes before `i`.
pub proof fn lemma_fuse_prefix(code: Seq<u8>, jumps: Seq<bool>, i: nat)
    ensures
        forall|k: int| 0 <= k < i && k < code.len() ==> fuse_spec(code, jumps, i)[k] == code[k],
    decreases code.len() - i,
{
    if i < code.len() {
        let r = fuse_spec(code, jumps, i);
        let c1 = if fusable_at(code, jumps, i) {
            code.update(i as int, opcode::PUSH2_JUMPI)
        } else {
            code
        };
        let nx = i + 1 + push_size_spec(c1[i as int]);
        if nx <= code.len() {
            lemma_fuse_prefix(c1, jumps, nx);
            lemma_fuse_len(c1, jumps, nx);
            assert forall|k: int| 0 <= k < i && k < code.len() implies r[k] == code[k] by {
                assert(r[k] == c1[k]);
                assert(c1[k] == code[k]);
            }
        }
    }
}

/// Fusion only ever turns a PUSH2 byte into the fused opcode.
pub proof fn lemma_fuse_bytes(code: Seq<u8>, jumps: Seq<bool>, i: nat)
    ensures
        forall|k: int|
            0 <= k < code.len() ==> fuse_spec(code, jumps, i)[k] == code[k] || (code[k]
                == opcode::PUSH2 && fuse_spec(code, jumps, i)[k] == opcode::PUSH2_JUMPI),
    decreases code.len() - i,
{
    if i < code.len() {
        let r = fuse_spec(code, jumps, i);
        let c1 = if fusable_at(code, jumps, i) {
            code.update(i as int, opcode::PUSH2_JUMPI)
        } else {
            code
        };
        let nx = i + 1 + push_size_spec(c1[i as int]);
        if nx <= code.len() {
            lemma_fuse_bytes(c1, jumps, nx);
            lemma_fuse_len(c1, jumps, nx);
            assert forall|k: int|
                0 <= k < code.len() implies (r[k] == code[k] || (code[k] == opcode::PUSH2 && r[k]
                    == opcode::PUSH2_JUMPI)) by {
                assert(r[k] == c1[k] || (c1[k] == opcode::PUSH2 && r[k] == opcode::PUSH2_JUMPI));
                assert(c1[k] == code[k] || (code[k] == opcode::PUSH2 && c1[k]
                    == opcode::PUSH2_JUMPI));
            }
        }
    }
}

/// Fusion is idempotent: a second pass over fused code changes nothing.
pub proof fn lemma_fuse_idempotent(code: Seq<u8>, jumps: Seq<bool>, i: nat)
    ensures
        fuse_spec(fuse_spec(code, jumps, i), jumps, i) == fuse_spec(code, jumps, i),
    decreases code.len() - i,
{
    if i < code.len() {
        let r = fuse_spec(code, jumps, i);
        lemma_fuse_len(code, jumps, i);
        if fusable_at(code, jumps, i) {
            let c1 = code.update(i as int, opcode::PUSH2_JUMPI);
            let nx = i + 1 + push_size_spec(opcode::PUSH2_JUMPI);
            assert(c1[i as int] == opcode::PUSH2_JUMPI);
            if nx <= code.len() {
                lemma_fuse_idempotent(c1, jumps, nx);
                lemma_fuse_prefix(c1, jumps, nx);
                lemma_fuse_len(c1, jumps, nx);
                assert(r == fuse_spec(c1, jumps, nx));
                assert(r[i as int] == opcode::PUSH2_JUMPI);
                assert(!fusable_at(r, jumps, i));
                assert(fuse_spec(r, jumps, i) == fuse_spec(r, jumps, nx));
            } else {
                assert(r == c1);
                assert(r[i as int] == opcode::PUSH2_JUMPI);
                assert(!fusable_at(r, jumps, i));
            }
        } else {
            let nx = i + 1 + push_size_spec(code[i as int]);
            if nx <= code.len() {
                lemma_fuse_idempotent(code, jumps, nx);
                lemma_fuse_prefix(code, jumps, nx);
                lemma_fuse_bytes(code, jumps, nx);
                lemma_fuse_len(code, jumps, nx);
                assert(r == fuse_spec(code, jumps, nx));
                assert(r[i as int] == code[i as int]);
                if code[i as int] == opcode::PUSH2 && i + 4 <= code.len() {
                    assert(r[i as int + 1] == code[i as int + 1]);
                    assert(r[i as int + 2] == code[i as int + 2]);
                    if r[i as int + 3] == opcode::JUMPI {
                        assert(code[i as int + 3] == opcode::JUMPI);
                    }
                    assert(!fusable_at(r, jumps, i));
                } else {
                    assert(!fusable_at(r, jumps, i));
                }
                assert(push_size_spec(r[i as int]) == push_size_spec(code[i as int]));
                assert(fuse_spec(r, jumps, i) == fuse_spec(r, jumps, nx));
            } else {
                assert(r == code);
                assert(!fusable_at(r, jumps, i));
            }
        }
    }
}

/// Appends the 33 implicit STOP bytes.
pub fn pad_code(raw: Vec<u8>) -> (r: Vec<u8>)
    requires
        raw@.len() + 33 <= usize::MAX,
    ensures
        r@ == padded_spec(raw@),
{
    let mut out = raw;
    let ghost orig = out@;
    let mut k: usize = 0;
    while k < 33
        invariant
            k <= 33,
            out@ =~= orig + Seq::new(k as nat, |_i: int| 0u8),
        decreases 33 - k,
    {
        out.push(0u8);
        proof {
            assert(out@ =~= orig + Seq::new((k + 1) as nat, |_i: int| 0u8));
        }
        k = k + 1;
    }
    proof {
        assert(out@ =~= padded_spec(orig));
    }
    out
}

/// Builds the valid-jumpdest bitmap by one walk over the boundaries.
pub fn analyze_jumpdests(code: &Vec<u8>) -> (jumps: Vec<bool>)
    requires
        code@.len() + 33 <= usize::MAX,
    ensures
        jumps@.len() == code@.len(),
        forall|k: int| 0 <= k < code@.len() ==> jumps@[k] == jd_set(code@, 0).contains(k as nat),
{
    let n = code.len();
    let mut jumps: Vec<bool> = Vec::new();
    let mut z: usize = 0;
    while z < n
        invariant
            z <= n,
            jumps@.len() == z,
            forall|k: int| 0 <= k < z ==> jumps@[k] == false,
        decreases n - z,
    {
        jumps.push(false);
        z = z + 1;
    }
    let ghost jd0 = jd_set(code@, 0);
    proof {
        lemma_jd_props(code@, 0);
        assert forall|k: nat| jd0.contains(k) implies k < n && code@[k as int]
            == opcode::JUMPDEST by {
            lemma_jd_elem(code@, 0, k);
        }
    }
    let mut i: usize = 0;
    while i < n
        invariant
            n == code@.len() <= usize::MAX - 33,
            jumps@.len() == n,
            i <= n,
            jd0 == jd_set(code@, 0),
            forall|k: nat| jd0.contains(k) ==> k < n && code@[k as int] == opcode::JUMPDEST,
            forall|k: int| 0 <= k < n && jumps@[k] ==> jd0.contains(k as nat),
            forall|k: nat| jd0.contains(k) && k < i ==> k < n && jumps@[k as int],
            forall|k: nat| jd0.contains(k) && k >= i ==> jd_set(code@, i as nat).contains(k),
            forall|k: nat| jd_set(code@, i as nat).contains(k) ==> jd0.contains(k),
        decreases n - i,
    {
        let ghost i0 = i as nat;
        let op = code[i];
        let ps = push_size(op);
        let ghost nx = i as nat + 1 + push_size_spec(op);
        proof {
            lemma_jd_props(code@, i as nat);
            if nx <= n {
                lemma_jd_props(code@, nx);
            }
        }
        if op == opcode::JUMPDEST {
            jumps.set(i, true);
            proof {
                assert(jd_set(code@, i0).contains(i0));
            }
        }
        i = i + 1 + ps;
        if i > n {
            i = n;
        }
        proof {
            assert forall|k: nat| jd0.contains(k) && k < i implies k < n && jumps@[k as int] by {
                if k >= i0 {
                    assert(jd_set(code@, i0).contains(k));
                    if k != i0 {
                        assert(nx <= n && jd_set(code@, nx).contains(k));
                        lemma_jd_elem(code@, nx, k);
                        assert(false);
                    } else {
                        assert(code@[i0 as int] == opcode::JUMPDEST);
                    }
                }
            }
            assert forall|k: nat| jd0.contains(k) && k >= i implies jd_set(
                code@,
                i as nat,
            ).contains(k) by {
                assert(jd_set(code@, i0).contains(k));
                assert(k != i0);
                assert(nx <= n && jd_set(code@, nx).contains(k));
                if i < n {
                    assert(jd_set(code@, nx) == jd_set(code@, i as nat));
                } else {
                    lemma_jd_elem(code@, nx, k);
                    assert(false);
                }
            }
        }
    }
    proof {
        assert forall|k: int| 0 <= k < n implies jumps@[k] == jd0.contains(k as nat) by {
            if jd0.contains(k as nat) {
                assert(k < i);
            }
        }
    }
    jumps
}

/// Rewrites each fusable pair in place; the bitmap is read, not changed.
pub fn fuse_code(code: &mut Vec<u8>, jumps: &Vec<bool>)
    requires
        old(code)@.len() + 33 <= usize::MAX,
    ensures
        final(code)@ == fuse_spec(old(code)@, jumps@, 0),
        final(code)@.len() == old(code)@.len(),
{
    let ghost orig = code@;
    let n = code.len();
    let mut i: usize = 0;
    while i < n
        invariant
            n == code@.len() == orig.len() <= usize::MAX - 33,
            fuse_spec(code@, jumps@, i as nat) == fuse_spec(orig, jumps@, 0),
        decreases n - i,
    {
        let op = code[i];
        let fusable = i + 4 <= n && op == opcode::PUSH2 && code[i + 3] == opcode::JUMPI && {
            let target = (code[i + 1] as usize) * 256 + (code[i + 2] as usize);
            target < jumps.len() && jumps[target]
        };
        let ghost pre = code@;
        if fusable {
            code.set(i, opcode::PUSH2_JUMPI);
            proof {
                assert(fusable_at(pre, jumps@, i as nat));
                assert(code@ == pre.update(i as int, opcode::PUSH2_JUMPI));
            }
        } else {
            proof {
                assert(!fusable_at(pre, jumps@, i as nat));
            }
        }
        let ps = push_size(code[i]);
        i = i + 1 + ps;
        if i > n {
            i = n;
        }
    }
    proof {
        lemma_fuse_len(code@, jumps@, i as nat);
    }
}

/// Computes the gas-block table: entry `i` is the static gas of the
/// basic block starting at offset `i`, charged in one shot on entry.
pub fn build_gas_table(code: &Vec<u8>) -> (table: Vec<u64>)
    requires
        code@.len() <= 0xFFFF_0021,
    ensures
        table@.len() == code@.len(),
        forall|k: int| 0 <= k < code@.len() ==> table@[k] == block_gas_spec(code@, k as nat),
{
    let n = code.len();
    let mut table: Vec<u64> = Vec::new();
    let mut z: usize = 0;
    while z < n
        invariant
            z <= n,
            table@.len() == z,
        decreases n - z,
    {
        table.push(0u64);
        z = z + 1;
    }
    let mut i: usize = n;
    while i > 0
        invariant
            i <= n == code@.len() <= 0xFFFF_0021,
            table@.len() == n,
            forall|k: int| i <= k < n ==> table@[k] == block_gas_spec(code@, k as nat),
        decreases i,
    {
        i = i - 1;
        let op = code[i];
        let ps = push_size(op);
        let nx = i + 1 + ps;
        let cost = static_cost(op);
        let v: u64 = if is_block_end(op) || nx >= n {
            cost
        } else {
            proof {
                lemma_block_gas_bound(code@, nx as nat);
                assert((code@.len() - nx) * 13 <= 0xFFFF_0021 * 13) by (nonlinear_arith)
                    requires
                        0 <= code@.len() - nx <= 0xFFFF_0021,
                ;
                assert(table@[nx as int] == block_gas_spec(code@, nx as nat));
                assert(table@[nx as int] <= 0xFFFF_0021 * 13);
            }
            cost + table[nx]
        };
        table.set(i, v);
    }
    table
}

} // verus!
