//! The gas meter and the gas schedule: a monotonically decreasing counter
//! with a separate refund accumulator, the quadratic memory-expansion cost,
//! and the storage-write cost/refund schedule of each protocol revision.
//! Every deduction is all-or-nothing: a failed charge changes nothing.

use vstd::prelude::*;
use crate::SpecId;

verus! {

pub const SSTORE_SET: u64 = 20000;
pub const SSTORE_RESET_LEGACY: u64 = 5000;
pub const SSTORE_CLEARS: u64 = 15000;
pub const SSTORE_CLEARS_LONDON: u64 = 4800;
pub const SLOAD_ISTANBUL: u64 = 800;
pub const WARM_STORAGE_READ: u64 = 100;
pub const COLD_SLOAD_COST: u64 = 2100;

/// Words needed to hold `len` bytes.
pub open spec fn memory_words(len: nat) -> nat {
    (len + 31) / 32
}

/// Total static cost of a memory of `len` bytes: `3·words + words²/512`.
pub open spec fn memory_gas_spec(len: nat) -> nat {
    let w = memory_words(len);
    3 * w + w * w / 512
}

/// Cost of growing memory from `from` bytes to `to` bytes.
pub open spec fn memory_expansion_cost_spec(from: nat, to: nat) -> nat {
    if to <= from {
        0
    } else {
        (memory_gas_spec(to) - memory_gas_spec(from)) as nat
    }
}

/// The memory cost never decreases as memory grows.
pub proof fn lemma_memory_gas_mono(a: nat, b: nat)
    requires
        a <= b,
    ensures
        memory_gas_spec(a) <= memory_gas_spec(b),
{
    let wa = memory_words(a);
    let wb = memory_words(b);
    vstd::arithmetic::div_mod::lemma_div_is_ordered((a + 31) as int, (b + 31) as int, 32);
    assert(wa * wa <= wb * wb) by (nonlinear_arith)
        requires
            0 <= wa <= wb,
    ;
    vstd::arithmetic::div_mod::lemma_div_is_ordered((wa * wa) as int, (wb * wb) as int, 512);
}

/// Memory-expansion gas is additive: growing in two steps costs exactly
/// what growing in one step does.
pub proof fn lemma_memory_cost_additive(a: nat, b: nat, c: nat)
    requires
        a <= b <= c,
    ensures
        memory_expansion_cost_spec(a, b) + memory_expansion_cost_spec(b, c)
            == memory_expansion_cost_spec(a, c),
{
    lemma_memory_gas_mono(a, b);
    lemma_memory_gas_mono(b, c);
}

/// A memory too large for any 64-bit gas budget: past this size the total
/// memory cost alone exceeds `u64::MAX`.
pub proof fn lemma_memory_gas_big(len: nat)
    requires
        len > 0x2_0000_0000_0000,
    ensures
        memory_gas_spec(len) > 0xFFFF_FFFF_FFFF_FFFF,
{
    let w = memory_words(len);
    vstd::arithmetic::div_mod::lemma_div_is_ordered(
        0x2_0000_0000_0000,
        (len + 31) as int,
        32,
    );
    assert(0x2_0000_0000_0000int / 32 == 0x1000_0000_0000) by (nonlinear_arith);
    assert(w >= 0x1000_0000_0000);
    assert(w * w >= 0x1000_0000_0000 * 0x1000_0000_0000) by (nonlinear_arith)
        requires
            w >= 0x1000_0000_0000,
    ;
    vstd::arithmetic::div_mod::lemma_div_is_ordered(
        0x1000_0000_0000int * 0x1000_0000_0000,
        (w * w) as int,
        512,
    );
    assert(0x1000_0000_0000int * 0x1000_0000_0000 / 512 == 0x8000_0000_0000_0000_0000)
        by (nonlinear_arith);
}

/// The gas meter. `remaining` is `limit - used - memory`; the memory share
/// always equals the cost of the memory held so far, so an expansion is
/// charged exactly once and exactly by the cost difference.
pub struct Gas {
    pub limit: u64,
    pub used: u64,
    pub memory: u64,
    pub refunded: i64,
}

impl Gas {
    pub open spec fn wf(&self) -> bool {
        self.used + self.memory <= self.limit
    }

    pub open spec fn spec_remaining(&self) -> nat {
        (self.limit - self.used - self.memory) as nat
    }

    pub fn new(limit: u64) -> (r: Gas)
        ensures
            r.wf(),
            r.limit == limit,
            r.used == 0,
            r.memory == 0,
            r.refunded == 0,
    {
        Gas { limit, used: 0, memory: 0, refunded: 0 }
    }

    pub fn limit(&self) -> (r: u64)
        ensures
            r == self.limit,
    {
        self.limit
    }

    pub fn remaining(&self) -> (r: u64)
        requires
            self.wf(),
        ensures
            r == self.spec_remaining(),
    {
        self.limit - self.used - self.memory
    }

    pub fn refunded(&self) -> (r: i64)
        ensures
            r == self.refunded,
    {
        self.refunded
    }

    /// Deducts `cost`, or fails leaving the meter untouched.
    pub fn record_cost(&mut self, cost: u64) -> (r: bool)
        requires
            old(self).wf(),
        ensures
            final(self).wf(),
            cost <= old(self).spec_remaining() ==> r && *final(self) == (Gas {
                used: (old(self).used + cost) as u64,
                ..*old(self)
            }),
            cost > old(self).spec_remaining() ==> !r && *final(self) == *old(self),
    {
        let all_used = self.used + self.memory;
        if cost > self.limit - all_used {
            return false;
        }
        self.used = self.used + cost;
        true
    }

    /// Raises the memory share to `new_memory` (the total cost of the
    /// grown memory), or fails leaving the meter untouched. Never lowers it.
    pub fn record_memory(&mut self, new_memory: u64) -> (r: bool)
        requires
            old(self).wf(),
        ensures
            final(self).wf(),
            new_memory <= old(self).memory ==> r && *final(self) == *old(self),
            new_memory > old(self).memory && old(self).used + new_memory <= old(self).limit ==> r
                && *final(self) == (Gas { memory: new_memory, ..*old(self) }),
            new_memory > old(self).memory && old(self).used + new_memory > old(self).limit ==> !r
                && *final(self) == *old(self),
    {
        if new_memory <= self.memory {
            return true;
        }
        if new_memory > self.limit - self.used {
            return false;
        }
        self.memory = new_memory;
        true
    }

    /// Returns unspent gas from a finished sub-call to this meter.
    pub fn erase_cost(&mut self, returned: u64)
        requires
            old(self).wf(),
            returned <= old(self).used,
        ensures
            final(self).wf(),
            *final(self) == (Gas { used: (old(self).used - returned) as u64, ..*old(self) }),
    {
        self.used = self.used - returned;
    }

    /// Accumulates a (possibly negative) refund, saturating at the
    /// counter's bounds rather than wrapping.
    pub fn record_refund(&mut self, refund: i64)
        ensures
            *final(self) == (Gas {
                refunded: (if old(self).refunded + refund > i64::MAX {
                    i64::MAX
                } else if old(self).refunded + refund < i64::MIN {
                    i64::MIN
                } else {
                    (old(self).refunded + refund) as i64
                }),
                ..*old(self)
            }),
            final(self).wf() == old(self).wf(),
    {
        let s: i128 = self.refunded as i128 + refund as i128;
        self.refunded = if s > i64::MAX as i128 {
            i64::MAX
        } else if s < i64::MIN as i128 {
            i64::MIN
        } else {
            s as i64
        };
    }
}

/// Storage-write cost under the one-shot legacy schedule (before the
/// net-metered revisions).
pub open spec fn legacy_sstore_cost_spec(c: nat, n: nat) -> nat {
    if c == 0 && n != 0 {
        SSTORE_SET as nat
    } else {
        SSTORE_RESET_LEGACY as nat
    }
}

/// Refund of a legacy storage write.
pub open spec fn legacy_sstore_refund_spec(c: nat, n: nat) -> int {
    if c != 0 && n == 0 {
        SSTORE_CLEARS as int
    } else {
        0
    }
}

/// Legacy counterpart of the round-trip law: a write and its reversal
/// net to exactly two reset charges.
pub proof fn lemma_legacy_sstore_round_trip(c: nat, n: nat)
    ensures
        legacy_sstore_cost_spec(c, n) - legacy_sstore_refund_spec(c, n) + legacy_sstore_cost_spec(
            n,
            c,
        ) - legacy_sstore_refund_spec(n, c) == 2 * (SSTORE_RESET_LEGACY as int),
{
}

/// Parameters of the storage-write schedule under `spec_id`, as
/// `(sload_like, reset, clears)`: the dirty/no-op write cost, the
/// clean nonzero-slot reset cost, and the slot-clearing refund.
pub open spec fn sstore_params(spec_id: SpecId) -> (nat, nat, nat) {
    if spec_id == SpecId::Istanbul {
        (SLOAD_ISTANBUL as nat, SSTORE_RESET_LEGACY as nat, SSTORE_CLEARS as nat)
    } else if spec_id == SpecId::Berlin {
        (WARM_STORAGE_READ as nat, (SSTORE_RESET_LEGACY - COLD_SLOAD_COST) as nat, SSTORE_CLEARS as nat)
    } else {
        (WARM_STORAGE_READ as nat, (SSTORE_RESET_LEGACY - COLD_SLOAD_COST) as nat, SSTORE_CLEARS_LONDON as nat)
    }
}

/// Warm storage-write cost under the modern (net-metered) schedules,
/// from the slot's original value `o`, current value `c` and new value `n`.
pub open spec fn sstore_cost_spec(spec_id: SpecId, o: nat, c: nat, n: nat) -> nat {
    let (sload, reset, _clears) = sstore_params(spec_id);
    if c == n {
        sload
    } else if c == o {
        if o == 0 {
            SSTORE_SET as nat
        } else {
            reset
        }
    } else {
        sload
    }
}

/// Refund delta of a warm storage write under the modern schedules.
pub open spec fn sstore_refund_spec(spec_id: SpecId, o: nat, c: nat, n: nat) -> int {
    let (sload, reset, clears) = sstore_params(spec_id);
    if c == n {
        0
    } else if c == o {
        if o != 0 && n == 0 {
            clears as int
        } else {
            0
        }
    } else {
        (if o != 0 {
            (if c == 0 {
                -(clears as int)
            } else {
                0
            }) + (if n == 0 {
                clears as int
            } else {
                0
            })
        } else {
            0
        }) + (if o == n {
            if o == 0 {
                SSTORE_SET - sload
            } else {
                reset - sload
            }
        } else {
            0
        })
    }
}

/// A storage write and its exact reversal net to zero gas beyond the
/// price of two dirty writes: cost minus refund over the round trip is
/// exactly twice the dirty-write cost, so the refund machinery itself
/// neither mints nor destroys gas.
pub proof fn lemma_sstore_round_trip(spec_id: SpecId, o: nat, c: nat, n: nat)
    ensures
        sstore_cost_spec(spec_id, o, c, n) - sstore_refund_spec(spec_id, o, c, n)
            + sstore_cost_spec(spec_id, o, n, c) - sstore_refund_spec(spec_id, o, n, c) == 2 * (
        sstore_params(spec_id).0 as int),
{
}

} // verus!
