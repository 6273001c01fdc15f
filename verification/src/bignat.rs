//! Natural numbers of any size.
//!
//! The statistics of this crate compare products and sums of squares of
//! 128-bit quantities exactly; those do not fit any machine integer.

use vstd::prelude::*;

verus! {

/// The base of the digits: each limb holds 32 bits.
pub const LIMB_BASE: u64 = 0x1_0000_0000;

/// The weight of the limb at position `i`: the base to the power `i`.
pub open spec fn weight(i: nat) -> nat
    decreases i,
{
    if i == 0 {
        1
    } else {
        0x1_0000_0000 * weight((i - 1) as nat)
    }
}

/// The limb at position `i`, zero beyond the end.
pub open spec fn limb_at(limbs: Seq<u32>, i: int) -> nat {
    if 0 <= i < limbs.len() {
        limbs[i] as nat
    } else {
        0
    }
}

/// The number written by the lowest `n` limbs, least significant first.
pub open spec fn prefix_value(limbs: Seq<u32>, n: nat) -> nat
    decreases n,
{
    if n == 0 {
        0
    } else {
        prefix_value(limbs, (n - 1) as nat) + limb_at(limbs, n - 1) * weight((n - 1) as nat)
    }
}

/// The number written by `limbs`, least significant first.
pub open spec fn limbs_value(limbs: Seq<u32>) -> nat {
    prefix_value(limbs, limbs.len())
}

proof fn lemma_prefix_agrees(a: Seq<u32>, b: Seq<u32>, n: nat)
    requires
        forall|j: int| 0 <= j < n ==> limb_at(a, j) == limb_at(b, j),
    ensures
        prefix_value(a, n) == prefix_value(b, n),
    decreases n,
{
    if n > 0 {
        lemma_prefix_agrees(a, b, (n - 1) as nat);
    }
}

proof fn lemma_prefix_beyond(a: Seq<u32>, n: nat)
    requires
        n >= a.len(),
    ensures
        prefix_value(a, n) == limbs_value(a),
    decreases n,
{
    if n > a.len() {
        lemma_prefix_beyond(a, (n - 1) as nat);
        assert(limb_at(a, n - 1) * weight((n - 1) as nat) == 0);
    }
}

proof fn lemma_prefix_below_weight(a: Seq<u32>, n: nat)
    ensures
        prefix_value(a, n) < weight(n),
    decreases n,
{
    if n > 0 {
        lemma_prefix_below_weight(a, (n - 1) as nat);
        let w = weight((n - 1) as nat);
        let limb = limb_at(a, n - 1);
        assert(limb * w <= 0xffff_ffff * w) by (nonlinear_arith)
            requires
                limb <= 0xffff_ffff,
        ;
    }
}

proof fn lemma_high_limbs_agree(a: Seq<u32>, b: Seq<u32>, i: nat, n: nat)
    requires
        i <= n,
        forall|j: int| i <= j < n ==> limb_at(a, j) == limb_at(b, j),
    ensures
        prefix_value(a, n) - prefix_value(a, i) == prefix_value(b, n) - prefix_value(b, i),
    decreases n,
{
    if n > i {
        lemma_high_limbs_agree(a, b, i, (n - 1) as nat);
    }
}

proof fn lemma_shifted_value(a: Seq<u32>, n: nat)
    ensures
        prefix_value(seq![0u32] + a, n + 1) == 0x1_0000_0000 * prefix_value(a, n),
    decreases n,
{
    let shifted = seq![0u32] + a;
    if n == 0 {
        assert(prefix_value(shifted, 1) == prefix_value(shifted, 0) + limb_at(shifted, 0) * weight(
            0,
        ));
        assert(limb_at(shifted, 0) == 0);
    } else {
        lemma_shifted_value(a, (n - 1) as nat);
        let w = weight((n - 1) as nat);
        let limb = limb_at(a, n - 1);
        assert(limb_at(shifted, n as int) == limb);
        assert(weight(n) == 0x1_0000_0000 * w);
        assert(limb * (0x1_0000_0000 * w) == 0x1_0000_0000 * (limb * w)) by (nonlinear_arith);
        assert(prefix_value(shifted, n + 1) == prefix_value(shifted, n) + limb_at(
            shifted,
            n as int,
        ) * weight(n));
        assert(prefix_value(a, n) == prefix_value(a, (n - 1) as nat) + limb * w);
    }
}

/// A natural number of any size.
pub struct BigNat {
    limbs: Vec<u32>,
}

impl View for BigNat {
    type V = nat;

    closed spec fn view(&self) -> nat {
        limbs_value(self.limbs@)
    }
}

impl BigNat {
    /// Zero.
    pub fn zero() -> (n: BigNat)
        ensures
            n@ == 0,
    {
        BigNat { limbs: Vec::new() }
    }

    /// The number `x`.
    pub fn from_u128(x: u128) -> (n: BigNat)
        ensures
            n@ == x,
    {
        let base: u128 = 0x1_0000_0000;
        let q1 = x / base;
        let q2 = q1 / base;
        let q3 = q2 / base;
        let mut limbs: Vec<u32> = Vec::new();
        limbs.push((x % base) as u32);
        limbs.push((q1 % base) as u32);
        limbs.push((q2 % base) as u32);
        limbs.push(q3 as u32);
        proof {
            let s = limbs@;
            assert(weight(0) == 1);
            assert(weight(1) == 0x1_0000_0000 * weight(0));
            assert(weight(2) == 0x1_0000_0000 * weight(1));
            assert(weight(3) == 0x1_0000_0000 * weight(2));
            assert(prefix_value(s, 0) == 0);
            assert(prefix_value(s, 1) == prefix_value(s, 0) + limb_at(s, 0) * weight(0));
            assert(prefix_value(s, 2) == prefix_value(s, 1) + limb_at(s, 1) * weight(1));
            assert(prefix_value(s, 3) == prefix_value(s, 2) + limb_at(s, 2) * weight(2));
            assert(prefix_value(s, 4) == prefix_value(s, 3) + limb_at(s, 3) * weight(3));
        }
        BigNat { limbs }
    }

    /// The sum of two numbers.
    pub fn plus(&self, other: &BigNat) -> (sum: BigNat)
        ensures
            sum@ == self@ + other@,
    {
        let la = self.limbs.len();
        let lb = other.limbs.len();
        let n = if la >= lb {
            la
        } else {
            lb
        };
        let mut out: Vec<u32> = Vec::new();
        let mut carry: u64 = 0;
        let mut i: usize = 0;
        while i < n
            invariant
                la == self.limbs.len(),
                lb == other.limbs.len(),
                i <= n,
                out.len() == i,
                carry <= 1,
                prefix_value(out@, i as nat) + carry * weight(i as nat) == prefix_value(
                    self.limbs@,
                    i as nat,
                ) + prefix_value(other.limbs@, i as nat),
            decreases n - i,
        {
            let x: u64 = if i < la {
                self.limbs[i] as u64
            } else {
                0
            };
            let y: u64 = if i < lb {
                other.limbs[i] as u64
            } else {
                0
            };
            let total: u64 = x + y + carry;
            let low: u32 = (total % LIMB_BASE) as u32;
            let ghost before = out@;
            let ghost carry_in = carry;
            carry = total / LIMB_BASE;
            out.push(low);
            proof {
                let w = weight(i as nat);
                lemma_prefix_agrees(before, out@, i as nat);
                assert(limb_at(out@, i as int) == low);
                assert(x == limb_at(self.limbs@, i as int));
                assert(y == limb_at(other.limbs@, i as int));
                assert(weight((i + 1) as nat) == 0x1_0000_0000 * w);
                assert(low * w + carry * (0x1_0000_0000 * w) == x * w + y * w + carry_in * w)
                    by (nonlinear_arith)
                    requires
                        low + 0x1_0000_0000 * carry == x + y + carry_in,
                ;
            }
            i = i + 1;
        }
        proof {
            lemma_prefix_beyond(self.limbs@, n as nat);
            lemma_prefix_beyond(other.limbs@, n as nat);
        }
        if carry > 0 {
            let ghost before = out@;
            out.push(carry as u32);
            proof {
                lemma_prefix_agrees(before, out@, n as nat);
                assert(limb_at(out@, n as int) == carry);
            }
        }
        BigNat { limbs: out }
    }

    /// The product of a number and a single limb.
    pub fn times_limb(&self, factor: u32) -> (product: BigNat)
        ensures
            product@ == self@ * factor,
    {
        let n = self.limbs.len();
        let mut out: Vec<u32> = Vec::new();
        let mut carry: u64 = 0;
        let mut i: usize = 0;
        assert(prefix_value(self.limbs@, 0) * factor == 0) by (nonlinear_arith)
            requires
                prefix_value(self.limbs@, 0) == 0,
        ;
        while i < n
            invariant
                n == self.limbs.len(),
                i <= n,
                out.len() == i,
                carry < 0x1_0000_0000,
                prefix_value(out@, i as nat) + carry * weight(i as nat) == prefix_value(
                    self.limbs@,
                    i as nat,
                ) * factor,
            decreases n - i,
        {
            let x: u64 = self.limbs[i] as u64;
            assert(x * factor <= 0xffff_ffff * 0xffff_ffff) by (nonlinear_arith)
                requires
                    x <= 0xffff_ffff,
                    factor <= 0xffff_ffff,
            ;
            let total: u64 = x * (factor as u64) + carry;
            let low: u32 = (total % LIMB_BASE) as u32;
            let ghost before = out@;
            let ghost carry_in = carry;
            let ghost so_far = prefix_value(self.limbs@, i as nat);
            carry = total / LIMB_BASE;
            out.push(low);
            proof {
                let w = weight(i as nat);
                lemma_prefix_agrees(before, out@, i as nat);
                assert(limb_at(out@, i as int) == low);
                assert(x == limb_at(self.limbs@, i as int));
                assert(weight((i + 1) as nat) == 0x1_0000_0000 * w);
                assert(low * w + carry * (0x1_0000_0000 * w) + so_far * factor == (so_far + x * w)
                    * factor + carry_in * w) by (nonlinear_arith)
                    requires
                        low + 0x1_0000_0000 * carry == x * factor + carry_in,
                ;
            }
            i = i + 1;
        }
        if carry > 0 {
            let ghost before = out@;
            out.push(carry as u32);
            proof {
                lemma_prefix_agrees(before, out@, n as nat);
                assert(limb_at(out@, n as int) == carry);
            }
        }
        BigNat { limbs: out }
    }

    /// The number times the limb base.
    pub fn times_base(&self) -> (product: BigNat)
        ensures
            product@ == self@ * 0x1_0000_0000,
    {
        let n = self.limbs.len();
        let mut out: Vec<u32> = Vec::new();
        out.push(0);
        let mut i: usize = 0;
        while i < n
            invariant
                n == self.limbs.len(),
                i <= n,
                out@ == seq![0u32] + self.limbs@.take(i as int),
            decreases n - i,
        {
            out.push(self.limbs[i]);
            i = i + 1;
        }
        proof {
            assert(self.limbs@.take(n as int) == self.limbs@);
            lemma_shifted_value(self.limbs@, n as nat);
        }
        BigNat { limbs: out }
    }

    /// The product of two numbers.
    pub fn times(&self, other: &BigNat) -> (product: BigNat)
        ensures
            product@ == self@ * other@,
    {
        let n = other.limbs.len();
        let mut acc = BigNat::zero();
        let mut shifted = BigNat { limbs: self.limbs.clone() };
        let mut i: usize = 0;
        proof {
            assert(shifted.limbs@ =~= self.limbs@);
            assert(self@ * weight(0) == self@) by (nonlinear_arith)
                requires
                    weight(0) == 1,
            ;
            assert(self@ * prefix_value(other.limbs@, 0) == 0) by (nonlinear_arith)
                requires
                    prefix_value(other.limbs@, 0) == 0,
            ;
        }
        while i < n
            invariant
                n == other.limbs.len(),
                i <= n,
                shifted@ == self@ * weight(i as nat),
                acc@ == self@ * prefix_value(other.limbs@, i as nat),
            decreases n - i,
        {
            let limb = other.limbs[i];
            let term = shifted.times_limb(limb);
            let ghost so_far = prefix_value(other.limbs@, i as nat);
            let ghost w = weight(i as nat);
            let ghost me = self@;
            proof {
                assert(limb == limb_at(other.limbs@, i as int));
                assert(me * so_far + (me * w) * limb == me * (so_far + limb * w))
                    by (nonlinear_arith);
                assert((me * w) * 0x1_0000_0000 == me * (0x1_0000_0000 * w)) by (nonlinear_arith);
            }
            acc = acc.plus(&term);
            shifted = shifted.times_base();
            i = i + 1;
        }
        acc
    }

    /// Whether this number is smaller than `other`.
    pub fn less_than(&self, other: &BigNat) -> (smaller: bool)
        ensures
            smaller == (self@ < other@),
    {
        let la = self.limbs.len();
        let lb = other.limbs.len();
        let n = if la >= lb {
            la
        } else {
            lb
        };
        let mut i: usize = n;
        while i > 0
            invariant
                la == self.limbs.len(),
                lb == other.limbs.len(),
                la <= n,
                lb <= n,
                i <= n,
                forall|j: int| i <= j < n ==> limb_at(self.limbs@, j) == limb_at(other.limbs@, j),
            decreases i,
        {
            let x: u32 = if i - 1 < la {
                self.limbs[i - 1]
            } else {
                0
            };
            let y: u32 = if i - 1 < lb {
                other.limbs[i - 1]
            } else {
                0
            };
            if x != y {
                proof {
                    let w = weight((i - 1) as nat);
                    lemma_prefix_beyond(self.limbs@, n as nat);
                    lemma_prefix_beyond(other.limbs@, n as nat);
                    lemma_high_limbs_agree(self.limbs@, other.limbs@, i as nat, n as nat);
                    lemma_prefix_below_weight(self.limbs@, (i - 1) as nat);
                    lemma_prefix_below_weight(other.limbs@, (i - 1) as nat);
                    assert(x == limb_at(self.limbs@, i - 1));
                    assert(y == limb_at(other.limbs@, i - 1));
                    assert(prefix_value(self.limbs@, i as nat) == prefix_value(
                        self.limbs@,
                        (i - 1) as nat,
                    ) + x * w);
                    assert(prefix_value(other.limbs@, i as nat) == prefix_value(
                        other.limbs@,
                        (i - 1) as nat,
                    ) + y * w);
                    if x < y {
                        assert((x + 1) * w <= y * w) by (nonlinear_arith)
                            requires
                                x + 1 <= y,
                        ;
                        assert((x + 1) * w == x * w + w) by (nonlinear_arith);
                    } else {
                        assert((y + 1) * w <= x * w) by (nonlinear_arith)
                            requires
                                y + 1 <= x,
                        ;
                        assert((y + 1) * w == y * w + w) by (nonlinear_arith);
                    }
                }
                return x < y;
            }
            i = i - 1;
        }
        proof {
            lemma_prefix_beyond(self.limbs@, n as nat);
            lemma_prefix_beyond(other.limbs@, n as nat);
            lemma_high_limbs_agree(self.limbs@, other.limbs@, 0, n as nat);
        }
        false
    }
}

} // verus!
