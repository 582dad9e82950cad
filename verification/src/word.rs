//! 256-bit unsigned machine words, stored as 32 big-endian bytes so that
//! every externally observable encoding (memory, calldata, return data)
//! is the representation itself.

use vstd::prelude::*;
use vstd::arithmetic::div_mod::{
    lemma_div_basics, lemma_div_denominator, lemma_fundamental_div_mod,
    lemma_fundamental_div_mod_converse,
};

verus! {

broadcast use vstd::array::group_array_axioms;

/// 256^n, the weight of a byte `n` places from the least significant end.
pub open spec fn pow256(n: nat) -> nat
    decreases n,
{
    if n == 0 {
        1nat
    } else {
        256 * pow256((n - 1) as nat)
    }
}

/// Value of a byte string read big-endian: the first byte is the most
/// significant.
pub open spec fn be_nat(s: Seq<u8>) -> nat
    decreases s.len(),
{
    if s.len() == 0 {
        0nat
    } else {
        (s[0] as nat) * pow256((s.len() - 1) as nat) + be_nat(s.drop_first())
    }
}

/// The small powers of 256 that word/offset conversions need.
pub proof fn lemma_pow256_consts()
    ensures
        pow256(7) == 0x100_0000_0000_0000,
        pow256(8) == 0x1_0000_0000_0000_0000,
{
    reveal_with_fuel(pow256, 9);
}

pub proof fn lemma_pow256_pos(n: nat)
    ensures
        pow256(n) >= 1,
    decreases n,
{
    if n > 0 {
        lemma_pow256_pos((n - 1) as nat);
    }
}

pub proof fn lemma_pow256_adds(m: nat, n: nat)
    ensures
        pow256(m + n) == pow256(m) * pow256(n),
    decreases m,
{
    if m == 0 {
    } else {
        lemma_pow256_adds((m - 1) as nat, n);
        assert((m + n - 1) as nat == (m - 1) as nat + n);
        assert(256 * (pow256((m - 1) as nat) * pow256(n)) == (256 * pow256((m - 1) as nat))
            * pow256(n)) by (nonlinear_arith);
    }
}

pub proof fn lemma_pow256_mono(m: nat, n: nat)
    requires
        m <= n,
    ensures
        pow256(m) <= pow256(n),
{
    lemma_pow256_adds(m, (n - m) as nat);
    lemma_pow256_pos((n - m) as nat);
    assert(pow256(m) * 1 <= pow256(m) * pow256((n - m) as nat)) by (nonlinear_arith)
        requires
            pow256((n - m) as nat) >= 1,
            pow256(m) >= 0,
    ;
}

/// A byte string's value is below the weight of its own length.
pub proof fn lemma_be_nat_bound(s: Seq<u8>)
    ensures
        be_nat(s) < pow256(s.len()),
    decreases s.len(),
{
    if s.len() == 0 {
    } else {
        lemma_be_nat_bound(s.drop_first());
        let p = pow256((s.len() - 1) as nat);
        assert((s[0] as nat) * p + p <= 256 * p) by (nonlinear_arith)
            requires
                (s[0] as nat) < 256,
                p >= 0,
        ;
    }
}

/// Concatenation shifts the left part up by the weight of the right part.
pub proof fn lemma_be_nat_append(a: Seq<u8>, b: Seq<u8>)
    ensures
        be_nat(a + b) == be_nat(a) * pow256(b.len()) + be_nat(b),
    decreases a.len(),
{
    if a.len() == 0 {
        assert(a + b =~= b);
    } else {
        let x = a[0] as nat;
        let rest = a.drop_first();
        let p = pow256((a.len() - 1) as nat);
        let q = pow256(b.len());
        assert((a + b).drop_first() =~= rest + b);
        assert((a + b)[0] == a[0]);
        lemma_be_nat_append(rest, b);
        lemma_pow256_adds((a.len() - 1) as nat, b.len());
        assert((a.len() + b.len() - 1) as nat == (a.len() - 1) as nat + b.len());
        assert(be_nat(a + b) == x * (p * q) + (be_nat(rest) * q + be_nat(b)));
        assert(be_nat(a) == x * p + be_nat(rest));
        assert(x * (p * q) + be_nat(rest) * q == (x * p + be_nat(rest)) * q) by (nonlinear_arith);
    }
}

/// Splitting a byte string at `i` splits its value.
pub proof fn lemma_be_nat_split(s: Seq<u8>, i: int)
    requires
        0 <= i <= s.len(),
    ensures
        be_nat(s) == be_nat(s.subrange(0, i)) * pow256((s.len() - i) as nat) + be_nat(
            s.subrange(i, s.len() as int),
        ),
{
    assert(s =~= s.subrange(0, i) + s.subrange(i, s.len() as int));
    lemma_be_nat_append(s.subrange(0, i), s.subrange(i, s.len() as int));
}

/// Appending one byte multiplies by 256 and adds the byte.
pub proof fn lemma_be_nat_push(s: Seq<u8>, x: u8)
    ensures
        be_nat(s.push(x)) == be_nat(s) * 256 + x,
{
    assert(s.push(x) =~= s + seq![x]);
    lemma_be_nat_append(s, seq![x]);
    assert(seq![x].drop_first() =~= Seq::<u8>::empty());
    assert(be_nat(Seq::<u8>::empty()) == 0);
    assert(be_nat(seq![x]) == x * pow256(0) + be_nat(seq![x].drop_first()));
    assert(pow256(0) == 1);
    assert((x as nat) * pow256(0) == x) by (nonlinear_arith)
        requires
            pow256(0) == 1,
    ;
    assert(be_nat(seq![x]) == x);
    assert(pow256(1) == 256);
    assert(be_nat(s + seq![x]) == be_nat(s) * 256 + x);
}

/// An all-zero byte string has value zero.
pub proof fn lemma_be_nat_zero(s: Seq<u8>)
    requires
        forall|i: int| 0 <= i < s.len() ==> s[i] == 0,
    ensures
        be_nat(s) == 0,
    decreases s.len(),
{
    if s.len() > 0 {
        lemma_be_nat_zero(s.drop_first());
    }
}

/// A byte string with any nonzero byte has a nonzero value.
pub proof fn lemma_be_nat_nonzero(s: Seq<u8>, i: int)
    requires
        0 <= i < s.len(),
        s[i] != 0,
    ensures
        be_nat(s) > 0,
{
    lemma_be_nat_split(s, i);
    let suf = s.subrange(i, s.len() as int);
    assert(suf[0] == s[i]);
    lemma_pow256_pos((suf.len() - 1) as nat);
    assert((suf[0] as nat) * pow256((suf.len() - 1) as nat) >= 1) by (nonlinear_arith)
        requires
            (suf[0] as nat) >= 1,
            pow256((suf.len() - 1) as nat) >= 1,
    ;
}

/// Two equal-length byte strings ordered at the first differing byte are
/// ordered as values.
pub proof fn lemma_be_nat_lt(a: Seq<u8>, b: Seq<u8>, i: int)
    requires
        a.len() == b.len(),
        0 <= i < a.len(),
        a.subrange(0, i) =~= b.subrange(0, i),
        a[i] < b[i],
    ensures
        be_nat(a) < be_nat(b),
{
    let n = a.len() as int;
    lemma_be_nat_split(a, i);
    lemma_be_nat_split(b, i);
    let asuf = a.subrange(i, n);
    let bsuf = b.subrange(i, n);
    let p = pow256((n - i - 1) as nat);
    assert(be_nat(asuf) == (a[i] as nat) * p + be_nat(asuf.drop_first()));
    assert(be_nat(bsuf) == (b[i] as nat) * p + be_nat(bsuf.drop_first()));
    lemma_be_nat_bound(asuf.drop_first());
    assert(be_nat(asuf) < ((a[i] as nat) + 1) * p) by (nonlinear_arith)
        requires
            be_nat(asuf) == (a[i] as nat) * p + be_nat(asuf.drop_first()),
            be_nat(asuf.drop_first()) < p,
    ;
    assert(((a[i] as nat) + 1) * p <= (b[i] as nat) * p) by (nonlinear_arith)
        requires
            (a[i] as nat) + 1 <= (b[i] as nat),
            p >= 0,
    ;
    assert(be_nat(bsuf) >= (b[i] as nat) * p);
}

/// An unsigned 256-bit word, stored as 32 big-endian bytes.
#[derive(Clone, Copy, Debug)]
pub struct W256 {
    pub bytes: [u8; 32],
}

impl W256 {
    /// The mathematical value of the word.
    pub open spec fn as_nat(self) -> nat {
        be_nat(self.bytes@)
    }

    pub fn zero() -> (r: W256)
        ensures
            r.as_nat() == 0,
            forall|i: int| 0 <= i < 32 ==> r.bytes@[i] == 0,
    {
        let r = W256 { bytes: [0u8; 32] };
        proof {
            lemma_be_nat_zero(r.bytes@);
        }
        r
    }

    /// Builds the word whose value is `v`.
    pub fn from_u64(v: u64) -> (r: W256)
        ensures
            r.as_nat() == v,
    {
        let mut b = [0u8; 32];
        let mut x = v;
        let mut k: usize = 0;
        proof {
            lemma_div_basics(v as int);
            lemma_fundamental_div_mod(v as int, 1);
            assert(b@.subrange(32, 32) =~= Seq::<u8>::empty());
        }
        while k < 8
            invariant
                k <= 8,
                b@.len() == 32,
                forall|j: int| 0 <= j < 32 - k ==> b@[j] == 0,
                x as nat == v as nat / pow256(k as nat),
                be_nat(b@.subrange(32 - k as int, 32)) == v as nat % pow256(k as nat),
            decreases 8 - k,
        {
            proof {
                lemma_digit_step(v as nat, x as nat, k as nat);
                lemma_pow256_pos(k as nat);
                assert(b@.subrange(31 - k as int, 32).drop_first() =~= b@.subrange(
                    32 - k as int,
                    32,
                ));
            }
            let d = (x % 256) as u8;
            let ghost bpre = b@;
            b[31 - k] = d;
            proof {
                assert(b@.subrange(32 - k as int, 32) =~= bpre.subrange(32 - k as int, 32));
                assert(b@.subrange(31 - k as int, 32).drop_first() =~= b@.subrange(
                    32 - k as int,
                    32,
                ));
                assert(b@.subrange(31 - k as int, 32)[0] == d);
                assert(be_nat(b@.subrange(31 - k as int, 32)) == (d as nat) * pow256(k as nat)
                    + v as nat % pow256(k as nat));
            }
            x = x / 256;
            k = k + 1;
        }
        proof {
            lemma_pow256_consts();
            assert(v as nat % pow256(8) == v as nat) by {
                vstd::arithmetic::div_mod::lemma_small_mod(v as nat, pow256(8));
            }
            assert(b@.subrange(0, 24) =~= b@.subrange(0, 24));
            lemma_be_nat_split(b@, 24);
            lemma_be_nat_zero(b@.subrange(0, 24));
            assert(b@.subrange(24, 32) =~= b@.subrange(32 - 8, 32));
        }
        W256 { bytes: b }
    }

    /// Builds the word with `s` as its least significant bytes and zeroes
    /// above; this is how PUSH immediates and memory loads read bytes.
    pub fn from_be_slice(s: &[u8]) -> (r: W256)
        requires
            s@.len() <= 32,
        ensures
            r.as_nat() == be_nat(s@),
            s@.len() == 32 ==> r.bytes@ == s@,
    {
        let n = s.len();
        let mut b = [0u8; 32];
        let mut i: usize = 0;
        while i < n
            invariant
                i <= n == s@.len() <= 32,
                b@.len() == 32,
                forall|j: int| 0 <= j < 32 - n ==> b@[j] == 0,
                b@.subrange(32 - n as int, 32 - n as int + i as int) =~= s@.subrange(0, i as int),
            decreases n - i,
        {
            let ghost bpre = b@;
            b[32 - n + i] = s[i];
            proof {
                assert(b@.subrange(32 - n as int, 32 - n as int + i as int + 1) =~= s@.subrange(
                    0,
                    i as int + 1,
                ));
            }
            i = i + 1;
        }
        proof {
            lemma_be_nat_split(b@, 32 - n as int);
            assert forall|j: int| 0 <= j < 32 - n implies #[trigger] b@.subrange(0, 32 - n as int)[j]
                == 0 by {
                assert(b@[j] == 0);
            }
            lemma_be_nat_zero(b@.subrange(0, 32 - n as int));
            assert(b@.subrange(32 - n as int, 32) =~= s@.subrange(0, n as int));
            assert(s@.subrange(0, n as int) =~= s@);
            if n == 32 {
                assert(b@ =~= s@);
            }
            assert(be_nat(b@) == 0 * pow256(n as nat) + be_nat(b@.subrange(32 - n as int, 32)));
            assert(0 * pow256(n as nat) == 0) by (nonlinear_arith);
            assert(be_nat(b@) == be_nat(s@));
        }
        W256 { bytes: b }
    }

    /// The value as a `u64`, if it fits; `None` means the word is too large
    /// to be a jump target, memory offset or length.
    pub fn to_u64(&self) -> (r: Option<u64>)
        ensures
            self.as_nat() < 0x1_0000_0000_0000_0000 ==> r == Some((self.as_nat() as u64)),
            self.as_nat() >= 0x1_0000_0000_0000_0000 ==> r.is_none(),
    {
        proof {
            lemma_pow256_consts();
        }
        let mut i: usize = 0;
        while i < 24
            invariant
                i <= 24,
                forall|j: int| 0 <= j < i ==> self.bytes@[j] == 0,
            decreases 24 - i,
        {
            if self.bytes[i] != 0 {
                proof {
                    lemma_pow256_consts();
                    lemma_be_nat_split(self.bytes@, 24);
                    assert(self.bytes@.subrange(0, 24)[i as int] == self.bytes@[i as int]);
                    lemma_be_nat_nonzero(self.bytes@.subrange(0, 24), i as int);
                    lemma_pow256_pos(8);
                    assert(be_nat(self.bytes@.subrange(0, 24)) * pow256(8) >= pow256(8))
                        by (nonlinear_arith)
                        requires
                            be_nat(self.bytes@.subrange(0, 24)) >= 1,
                            pow256(8) >= 1,
                    ;
                }
                return None;
            }
            i = i + 1;
        }
        proof {
            lemma_be_nat_split(self.bytes@, 24);
            lemma_be_nat_zero(self.bytes@.subrange(0, 24));
        }
        let mut v: u64 = 0;
        let mut j: usize = 24;
        while j < 32
            invariant
                24 <= j <= 32,
                forall|jj: int| 0 <= jj < 24 ==> self.bytes@[jj] == 0,
                v as nat == be_nat(self.bytes@.subrange(24, j as int)),
                (v as nat) < pow256((j - 24) as nat),
            decreases 32 - j,
        {
            proof {
                lemma_be_nat_push(self.bytes@.subrange(24, j as int), self.bytes@[j as int]);
                assert(self.bytes@.subrange(24, j as int).push(self.bytes@[j as int])
                    =~= self.bytes@.subrange(24, j as int + 1));
                lemma_pow256_mono((j - 24) as nat, 7);
                lemma_pow256_consts();
            }
            v = v * 256 + (self.bytes[j] as u64);
            j = j + 1;
        }
        proof {
            lemma_pow256_consts();
            lemma_be_nat_split(self.bytes@, 24);
            lemma_be_nat_zero(self.bytes@.subrange(0, 24));
            assert(be_nat(self.bytes@) == be_nat(self.bytes@.subrange(24, 32)));
        }
        Some(v)
    }

    /// Wrapping 256-bit addition: the result is the sum modulo 2^256.
    pub fn wrapping_add(&self, other: &W256) -> (r: W256)
        ensures
            r.as_nat() == (self.as_nat() + other.as_nat()) % pow256(32),
    {
        let a = &self.bytes;
        let b = &other.bytes;
        let mut out = [0u8; 32];
        let mut carry: u16 = 0;
        let mut i: usize = 32;
        while i > 0
            invariant
                i <= 32,
                out@.len() == 32,
                carry <= 1,
                be_nat(a@.subrange(i as int, 32)) + be_nat(b@.subrange(i as int, 32)) == (
                carry as nat) * pow256((32 - i) as nat) + be_nat(out@.subrange(i as int, 32)),
            decreases i,
        {
            let ghost i0 = i as int;
            i = i - 1;
            let sum: u16 = (a[i] as u16) + (b[i] as u16) + carry;
            let d = (sum % 256) as u8;
            let c: u16 = sum / 256;
            let ghost opre = out@;
            out[i] = d;
            proof {
                let ii = i as int;
                assert(out@.subrange(i0, 32) =~= opre.subrange(i0, 32));
                assert(a@.subrange(ii, 32).drop_first() =~= a@.subrange(i0, 32));
                assert(b@.subrange(ii, 32).drop_first() =~= b@.subrange(i0, 32));
                assert(out@.subrange(ii, 32).drop_first() =~= out@.subrange(i0, 32));
                let p = pow256((31 - ii) as nat);
                let an = a@[ii] as nat;
                let bn = b@[ii] as nat;
                assert(be_nat(a@.subrange(ii, 32)) == an * p + be_nat(a@.subrange(i0, 32)));
                assert(be_nat(b@.subrange(ii, 32)) == bn * p + be_nat(b@.subrange(i0, 32)));
                assert(be_nat(out@.subrange(ii, 32)) == (d as nat) * p + be_nat(
                    out@.subrange(i0, 32),
                ));
                assert(sum as nat == (c as nat) * 256 + d as nat);
                assert(pow256((32 - ii) as nat) == 256 * p);
                assert((an + bn + carry as nat) * p == (c as nat) * (256 * p) + (d as nat) * p)
                    by (nonlinear_arith)
                    requires
                        an + bn + (carry as nat) == (c as nat) * 256 + (d as nat),
                        p >= 0,
                ;
                assert(an * p + bn * p + (carry as nat) * p == (an + bn + carry as nat) * p)
                    by (nonlinear_arith);
            }
            carry = c;
        }
        let r = W256 { bytes: out };
        proof {
            assert(a@.subrange(0, 32) =~= a@);
            assert(b@.subrange(0, 32) =~= b@);
            assert(out@.subrange(0, 32) =~= out@);
            lemma_be_nat_bound(out@);
            lemma_fundamental_div_mod_converse(
                (be_nat(a@) + be_nat(b@)) as int,
                pow256(32) as int,
                carry as int,
                be_nat(out@) as int,
            );
        }
        r
    }

    /// Value comparison: true iff this word's value is below the other's.
    pub fn lt(&self, other: &W256) -> (r: bool)
        ensures
            r == (self.as_nat() < other.as_nat()),
    {
        let mut i: usize = 0;
        while i < 32
            invariant
                i <= 32,
                self.bytes@.subrange(0, i as int) =~= other.bytes@.subrange(0, i as int),
            decreases 32 - i,
        {
            if self.bytes[i] < other.bytes[i] {
                proof {
                    lemma_be_nat_lt(self.bytes@, other.bytes@, i as int);
                }
                return true;
            }
            if self.bytes[i] > other.bytes[i] {
                proof {
                    lemma_be_nat_lt(other.bytes@, self.bytes@, i as int);
                }
                return false;
            }
            proof {
                assert(self.bytes@.subrange(0, i as int + 1) =~= other.bytes@.subrange(
                    0,
                    i as int + 1,
                ));
            }
            i = i + 1;
        }
        proof {
            assert(self.bytes@.len() == 32);
            assert(other.bytes@.len() == 32);
            assert forall|j: int| 0 <= j < 32 implies self.bytes@[j] == other.bytes@[j] by {
                assert(self.bytes@.subrange(0, 32)[j] == other.bytes@.subrange(0, 32)[j]);
            }
            assert(self.bytes@ =~= other.bytes@);
        }
        false
    }

    /// Value equality.
    pub fn eq_word(&self, other: &W256) -> (r: bool)
        ensures
            r == (self.as_nat() == other.as_nat()),
    {
        let mut i: usize = 0;
        while i < 32
            invariant
                i <= 32,
                self.bytes@.subrange(0, i as int) =~= other.bytes@.subrange(0, i as int),
            decreases 32 - i,
        {
            if self.bytes[i] != other.bytes[i] {
                proof {
                    if self.bytes@[i as int] < other.bytes@[i as int] {
                        lemma_be_nat_lt(self.bytes@, other.bytes@, i as int);
                    } else {
                        lemma_be_nat_lt(other.bytes@, self.bytes@, i as int);
                    }
                }
                return false;
            }
            proof {
                assert(self.bytes@.subrange(0, i as int + 1) =~= other.bytes@.subrange(
                    0,
                    i as int + 1,
                ));
            }
            i = i + 1;
        }
        proof {
            assert(self.bytes@.len() == 32);
            assert(other.bytes@.len() == 32);
            assert forall|j: int| 0 <= j < 32 implies self.bytes@[j] == other.bytes@[j] by {
                assert(self.bytes@.subrange(0, 32)[j] == other.bytes@.subrange(0, 32)[j]);
            }
            assert(self.bytes@ =~= other.bytes@);
        }
        true
    }

    /// True iff the value is zero.
    pub fn is_zero(&self) -> (r: bool)
        ensures
            r == (self.as_nat() == 0),
    {
        let mut i: usize = 0;
        while i < 32
            invariant
                i <= 32,
                forall|j: int| 0 <= j < i ==> self.bytes@[j] == 0,
            decreases 32 - i,
        {
            if self.bytes[i] != 0 {
                proof {
                    lemma_be_nat_nonzero(self.bytes@, i as int);
                }
                return false;
            }
            i = i + 1;
        }
        proof {
            lemma_be_nat_zero(self.bytes@);
        }
        true
    }

    /// Bytewise AND.
    pub fn bit_and(&self, other: &W256) -> (r: W256)
        ensures
            forall|i: int| 0 <= i < 32 ==> r.bytes@[i] == (self.bytes@[i] & other.bytes@[i]),
    {
        let mut out = [0u8; 32];
        let mut i: usize = 0;
        while i < 32
            invariant
                i <= 32,
                out@.len() == 32,
                forall|j: int| 0 <= j < i ==> out@[j] == (self.bytes@[j] & other.bytes@[j]),
            decreases 32 - i,
        {
            out[i] = self.bytes[i] & other.bytes[i];
            i = i + 1;
        }
        W256 { bytes: out }
    }

    /// Bytewise OR.
    pub fn bit_or(&self, other: &W256) -> (r: W256)
        ensures
            forall|i: int| 0 <= i < 32 ==> r.bytes@[i] == (self.bytes@[i] | other.bytes@[i]),
    {
        let mut out = [0u8; 32];
        let mut i: usize = 0;
        while i < 32
            invariant
                i <= 32,
                out@.len() == 32,
                forall|j: int| 0 <= j < i ==> out@[j] == (self.bytes@[j] | other.bytes@[j]),
            decreases 32 - i,
        {
            out[i] = self.bytes[i] | other.bytes[i];
            i = i + 1;
        }
        W256 { bytes: out }
    }

    /// Bytewise XOR.
    pub fn bit_xor(&self, other: &W256) -> (r: W256)
        ensures
            forall|i: int| 0 <= i < 32 ==> r.bytes@[i] == (self.bytes@[i] ^ other.bytes@[i]),
    {
        let mut out = [0u8; 32];
        let mut i: usize = 0;
        while i < 32
            invariant
                i <= 32,
                out@.len() == 32,
                forall|j: int| 0 <= j < i ==> out@[j] == (self.bytes@[j] ^ other.bytes@[j]),
            decreases 32 - i,
        {
            out[i] = self.bytes[i] ^ other.bytes[i];
            i = i + 1;
        }
        W256 { bytes: out }
    }

    /// Bytewise NOT.
    pub fn bit_not(&self) -> (r: W256)
        ensures
            forall|i: int| 0 <= i < 32 ==> r.bytes@[i] == !self.bytes@[i],
    {
        let mut out = [0u8; 32];
        let mut i: usize = 0;
        while i < 32
            invariant
                i <= 32,
                out@.len() == 32,
                forall|j: int| 0 <= j < i ==> out@[j] == !self.bytes@[j],
            decreases 32 - i,
        {
            out[i] = !self.bytes[i];
            i = i + 1;
        }
        W256 { bytes: out }
    }
}

/// One step of reading a value's base-256 digits from the right: peeling
/// the low digit of the remaining quotient extends the reconstructed
/// remainder by one byte place.
proof fn lemma_digit_step(v: nat, x: nat, k: nat)
    requires
        x == v / pow256(k),
    ensures
        (x % 256) * pow256(k) + v % pow256(k) == v % pow256(k + 1),
        x / 256 == v / pow256(k + 1),
{
    lemma_pow256_pos(k);
    let p = pow256(k);
    lemma_div_denominator(v as int, p as int, 256);
    assert(pow256(k + 1) == 256 * p);
    assert(v as int / ((p as int) * 256) == (v as int / (p as int)) / 256);
    assert(x / 256 == v / (256 * p)) by {
        assert(p * 256 == 256 * p) by (nonlinear_arith);
    }
    lemma_fundamental_div_mod(v as int, p as int);
    lemma_fundamental_div_mod(x as int, 256);
    lemma_fundamental_div_mod(v as int, (256 * p) as int);
    // v == (256p)·(x/256) + (x%256)·p + v%p, and the tail is in [0, 256p)
    assert(v == p * x + v % p);
    assert(x == 256 * (x / 256) + x % 256);
    assert(p * (256 * (x / 256) + x % 256) == (256 * p) * (x / 256) + (x % 256) * p)
        by (nonlinear_arith);
    assert(v % p < p) by {
        vstd::arithmetic::div_mod::lemma_mod_bound(v as int, p as int);
    }
    assert((x % 256) * p + v % p < 256 * p) by (nonlinear_arith)
        requires
            x % 256 < 256,
            v % p < p,
            p >= 1,
    ;
    lemma_fundamental_div_mod_converse(
        v as int,
        (256 * p) as int,
        (x / 256) as int,
        ((x % 256) * p + v % p) as int,
    );
}

} // verus!
