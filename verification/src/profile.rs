//! An opt-in opcode n-gram counter: a sliding window of the last opcodes,
//! hashed into a count table. A debugging collaborator outside the core
//! semantics; the interpreter feeds it one opcode per step when enabled.

use vstd::prelude::*;

verus! {

/// The count table. Its `hashbrown` map's generics carry an allocator
/// bound that cannot be declared here, so the whole holder is opaque and
/// its meaning lives in `counts_map` and the wrappers below.
#[verifier::external_body]
pub struct CountsTable {
    table: hashbrown::HashMap<u64, u64>,
}

/// The key-to-count table a `hashbrown::HashMap<u64, u64>` holds.
pub uninterp spec fn counts_map(m: CountsTable) -> Map<u64, u64>;

/// Relies on `hashbrown::HashMap::new`: the empty map.
#[verifier::external_body]
pub fn counts_new() -> (r: CountsTable)
    ensures
        counts_map(r).dom() == Set::<u64>::empty(),
{
    CountsTable { table: hashbrown::HashMap::new() }
}

/// Relies on `hashbrown::HashMap::get`: the value stored under the key.
#[verifier::external_body]
pub fn counts_get(m: &CountsTable, k: u64) -> (r: Option<u64>)
    ensures
        counts_map(*m).dom().contains(k) ==> r == Some(counts_map(*m)[k]),
        !counts_map(*m).dom().contains(k) ==> r.is_none(),
{
    m.table.get(&k).copied()
}

/// Relies on `hashbrown::HashMap::insert`: maps the key to the value.
#[verifier::external_body]
pub fn counts_insert(m: &mut CountsTable, k: u64, v: u64)
    ensures
        counts_map(*final(m)) == counts_map(*old(m)).insert(k, v),
{
    m.table.insert(k, v);
}

/// Relies on `hashbrown::HashMap::iter`: every entry exactly once; the
/// walk order is the hasher's and is promised to nobody.
#[verifier::external_body]
pub fn counts_entries(m: &CountsTable) -> (r: Vec<(u64, u64)>)
    ensures
        forall|i: int| 0 <= i < r@.len() ==> counts_map(*m).contains_pair(r@[i].0, r@[i].1),
        forall|i: int, j: int| 0 <= i < j < r@.len() ==> r@[i].0 != r@[j].0,
        forall|k: u64|
            counts_map(*m).dom().contains(k) ==> exists|i: int|
                0 <= i < r@.len() && r@[i].0 == k,
{
    m.table.iter().map(|(k, v)| (*k, *v)).collect()
}

/// The window key under an `n`-gram mask.
pub open spec fn ngram_mask(n: usize) -> u64 {
    if n >= 8 {
        0xFFFF_FFFF_FFFF_FFFFu64
    } else {
        ((1u64 << ((n * 8) as u64)) - 1) as u64
    }
}

/// The sliding opcode window and its count table. `len` is the n-gram
/// length; 0 disables counting entirely.
pub struct OpcodeProfile {
    pub len: usize,
    pub window: u64,
    pub counts: CountsTable,
}

impl OpcodeProfile {
    pub open spec fn wf(&self) -> bool {
        self.len <= 7
    }

    pub fn new(len: usize) -> (r: OpcodeProfile)
        requires
            len <= 7,
        ensures
            r.wf(),
            r.len == len,
            r.window == 0,
            counts_map(r.counts).dom() == Set::<u64>::empty(),
    {
        OpcodeProfile { len, window: 0, counts: counts_new() }
    }

    /// Shifts the opcode into the window and bumps the n-gram's count
    /// (counts saturate rather than wrap). Disabled profiles do nothing.
    pub fn record(&mut self, op: u8)
        requires
            old(self).wf(),
        ensures
            final(self).wf(),
            final(self).len == old(self).len,
            old(self).len == 0 ==> *final(self) == *old(self),
            old(self).len > 0 ==> final(self).window == ((old(self).window << 8) | (op as u64)),
            old(self).len > 0 ==> {
                let key = (((old(self).window << 8) | (op as u64)) & ngram_mask(old(self).len));
                let prev = if counts_map(old(self).counts).dom().contains(key) {
                    counts_map(old(self).counts)[key]
                } else {
                    0u64
                };
                counts_map(final(self).counts) == counts_map(old(self).counts).insert(
                    key,
                    (if prev < 0xFFFF_FFFF_FFFF_FFFFu64 {
                        (prev + 1) as u64
                    } else {
                        prev
                    }),
                )
            },
    {
        if self.len == 0 {
            return ;
        }
        self.window = (self.window << 8) | (op as u64);
        let sh: u64 = (self.len as u64) * 8;
        proof {
            assert(sh <= 56);
            assert(sh <= 56 ==> (1u64 << sh) >= 1) by (bit_vector);
        }
        let mask: u64 = (1u64 << sh) - 1;
        let key = self.window & mask;
        let prev = match counts_get(&self.counts, key) {
            Some(c) => c,
            None => 0,
        };
        let next = if prev < 0xFFFF_FFFF_FFFF_FFFFu64 {
            prev + 1
        } else {
            prev
        };
        counts_insert(&mut self.counts, key, next);
    }

    /// The table's entries, in no particular order: every pair is in the
    /// table, no key twice, and every key of the table appears.
    pub fn entries(&self) -> (r: Vec<(u64, u64)>)
        ensures
            forall|i: int|
                0 <= i < r@.len() ==> counts_map(self.counts).contains_pair(r@[i].0, r@[i].1),
            forall|i: int, j: int| 0 <= i < j < r@.len() ==> r@[i].0 != r@[j].0,
            forall|k: u64|
                counts_map(self.counts).dom().contains(k) ==> exists|i: int|
                    0 <= i < r@.len() && r@[i].0 == k,
    {
        counts_entries(&self.counts)
    }

    /// The table's entries ordered by count, largest first: every returned
    /// pair is an entry of the table and the counts never increase along
    /// the result.
    pub fn entries_sorted(&self) -> (r: Vec<(u64, u64)>)
        ensures
            forall|i: int|
                0 <= i < r@.len() ==> counts_map(self.counts).contains_pair(r@[i].0, r@[i].1),
            forall|i: int, j: int| 0 <= i <= j < r@.len() ==> r@[i].1 >= r@[j].1,
    {
        let mut v = counts_entries(&self.counts);
        let n = v.len();
        let mut i: usize = 0;
        while i < n
            invariant
                i <= n == v@.len(),
                forall|a: int|
                    0 <= a < n ==> counts_map(self.counts).contains_pair(v@[a].0, v@[a].1),
                forall|a: int, b: int| 0 <= a <= b < i ==> v@[a].1 >= v@[b].1,
                forall|a: int, b: int| 0 <= a < i <= b < n ==> v@[a].1 >= v@[b].1,
            decreases n - i,
        {
            let mut m: usize = i;
            let mut j: usize = i + 1;
            while j < n
                invariant
                    i <= m < j <= n == v@.len(),
                    forall|a: int| i <= a < j ==> v@[m as int].1 >= v@[a].1,
                decreases n - j,
            {
                if v[j].1 > v[m].1 {
                    m = j;
                }
                j = j + 1;
            }
            let ghost pre = v@;
            let vi = v[i];
            let vm = v[m];
            v.set(i, vm);
            v.set(m, vi);
            proof {
                assert forall|a: int| 0 <= a < n implies counts_map(self.counts).contains_pair(
                    v@[a].0,
                    v@[a].1,
                ) by {
                    assert(v@[a] == pre[a] || v@[a] == pre[i as int] || v@[a] == pre[m as int]);
                }
                assert forall|a: int, b: int| 0 <= a <= b < i + 1 implies v@[a].1 >= v@[b].1 by {
                    if b == i {
                        if a < i {
                            assert(pre[a].1 >= pre[m as int].1);
                        }
                    }
                }
                assert forall|a: int, b: int| 0 <= a < i + 1 <= b < n implies v@[a].1
                    >= v@[b].1 by {
                    assert(v@[b] == pre[b] || v@[b] == pre[i as int]);
                    assert(v@[a] == pre[a] || a == i);
                    if a == i {
                        assert(v@[a] == pre[m as int]);
                    }
                }
            }
            i = i + 1;
        }
        v
    }
}

} // verus!
