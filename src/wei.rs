//! Wei amounts: unsigned 256-bit integers, held as four little-endian limbs.
use alloy_primitives::U256;
use vstd::arithmetic::div_mod::lemma_fundamental_div_mod_converse;
use vstd::prelude::*;

verus! {

/// The radix of one limb, 2^64.
pub open spec fn limb_base() -> nat {
    0x1_0000_0000_0000_0000
}

/// One past the largest wei amount, 2^256.
pub open spec fn wei_limit() -> nat {
    limb_base() * limb_base() * limb_base() * limb_base()
}

/// The number that four little-endian limbs stand for.
pub open spec fn limbs_value(l: [u64; 4]) -> nat {
    (l[0] + limb_base() * (l[1] + limb_base() * (l[2] + limb_base() * l[3]))) as nat
}

/// An amount in wei, the smallest unit of the native asset.
#[derive(Clone, Copy, Debug)]
pub struct Wei {
    pub limbs: [u64; 4],
}

proof fn lemma_limbs_bounded(l: [u64; 4])
    ensures
        limbs_value(l) < wei_limit(),
{
    let b = limb_base() as int;
    assert(l[2] + b * l[3] < b * b) by (nonlinear_arith)
        requires 0 <= l[2] < b, 0 <= l[3] < b, b == limb_base();
    let x2 = l[2] + b * l[3];
    assert(l[1] + b * x2 < b * b * b) by (nonlinear_arith)
        requires 0 <= l[1] < b, 0 <= x2 < b * b, b == limb_base();
    let x1 = l[1] + b * x2;
    assert(l[0] + b * x1 < b * b * b * b) by (nonlinear_arith)
        requires 0 <= l[0] < b, 0 <= x1 < b * b * b, b == limb_base();
}

proof fn lemma_limbs_injective(a: [u64; 4], c: [u64; 4])
    requires
        limbs_value(a) == limbs_value(c),
    ensures
        a@ == c@,
{
    let b = limb_base() as int;
    let ta = a[1] + b * (a[2] + b * a[3]);
    let tc = c[1] + b * (c[2] + b * c[3]);
    lemma_fundamental_div_mod_converse(limbs_value(a) as int, b, ta, a[0] as int);
    lemma_fundamental_div_mod_converse(limbs_value(c) as int, b, tc, c[0] as int);
    let ua = a[2] + b * a[3];
    let uc = c[2] + b * c[3];
    lemma_fundamental_div_mod_converse(ta, b, ua, a[1] as int);
    lemma_fundamental_div_mod_converse(tc, b, uc, c[1] as int);
    lemma_fundamental_div_mod_converse(ua, b, a[3] as int, a[2] as int);
    lemma_fundamental_div_mod_converse(uc, b, c[3] as int, c[2] as int);
    assert(a@ =~= c@);
}

impl Wei {
    /// The amount as a natural number.
    pub open spec fn value(self) -> nat {
        limbs_value(self.limbs)
    }

    /// Every amount lies below 2^256.
    pub proof fn lemma_bounded(self)
        ensures
            self.value() < wei_limit(),
    {
        lemma_limbs_bounded(self.limbs);
    }

    /// Zero wei.
    pub fn zero() -> (r: Wei)
        ensures
            r.value() == 0,
    {
        Wei { limbs: [0, 0, 0, 0] }
    }

    /// The amount `x`, widened from 128 bits.
    pub fn from_u128(x: u128) -> (r: Wei)
        ensures
            r.value() == x,
    {
        let lo: u64 = (x % 0x1_0000_0000_0000_0000) as u64;
        let hi: u64 = (x / 0x1_0000_0000_0000_0000) as u64;
        let r = Wei { limbs: [lo, hi, 0, 0] };
        assert(r.value() == x);
        r
    }

    /// Whether two amounts are equal.
    pub fn equals(&self, other: &Wei) -> (r: bool)
        ensures
            r == (self.value() == other.value()),
    {
        let r = self.limbs[0] == other.limbs[0] && self.limbs[1] == other.limbs[1]
            && self.limbs[2] == other.limbs[2] && self.limbs[3] == other.limbs[3];
        proof {
            if self.value() == other.value() {
                lemma_limbs_injective(self.limbs, other.limbs);
                assert(self.limbs[0] == self.limbs@[0]);
                assert(other.limbs[0] == other.limbs@[0]);
            }
        }
        r
    }

    /// `self + other`, or `None` where the sum does not fit in 256 bits.
    pub fn checked_add(&self, other: &Wei) -> (r: Option<Wei>)
        ensures
            r is Some <==> self.value() + other.value() < wei_limit(),
            r matches Some(s) ==> s.value() == self.value() + other.value(),
    {
        match u256_checked_add(self.limbs, other.limbs) {
            Some(l) => Some(Wei { limbs: l }),
            None => None,
        }
    }

    /// `self - other`, or `None` where `other` exceeds `self`.
    pub fn checked_sub(&self, other: &Wei) -> (r: Option<Wei>)
        ensures
            r is Some <==> other.value() <= self.value(),
            r matches Some(s) ==> s.value() == self.value() - other.value(),
    {
        match u256_checked_sub(self.limbs, other.limbs) {
            Some(l) => Some(Wei { limbs: l }),
            None => None,
        }
    }

    /// Quotient and remainder of the division by a nonzero `divisor`.
    pub fn div_rem(&self, divisor: &Wei) -> (r: (Wei, Wei))
        requires
            divisor.value() > 0,
        ensures
            r.0.value() == self.value() / divisor.value(),
            r.1.value() == self.value() % divisor.value(),
    {
        let (q, m) = u256_div_rem(self.limbs, divisor.limbs);
        (Wei { limbs: q }, Wei { limbs: m })
    }
}

/// Relies on ruint's `Uint::checked_add` (via `from_limbs` / `into_limbs`,
/// little-endian limbs): the sum, or `None` on overflow.
#[verifier::external_body]
fn u256_checked_add(a: [u64; 4], b: [u64; 4]) -> (r: Option<[u64; 4]>)
    ensures
        r is Some <==> limbs_value(a) + limbs_value(b) < wei_limit(),
        r matches Some(s) ==> limbs_value(s) == limbs_value(a) + limbs_value(b),
{
    U256::from_limbs(a).checked_add(U256::from_limbs(b)).map(U256::into_limbs)
}

/// Relies on ruint's `Uint::checked_sub` (via `from_limbs` / `into_limbs`,
/// little-endian limbs): the difference, or `None` on underflow.
#[verifier::external_body]
fn u256_checked_sub(a: [u64; 4], b: [u64; 4]) -> (r: Option<[u64; 4]>)
    ensures
        r is Some <==> limbs_value(b) <= limbs_value(a),
        r matches Some(s) ==> limbs_value(s) == limbs_value(a) - limbs_value(b),
{
    U256::from_limbs(a).checked_sub(U256::from_limbs(b)).map(U256::into_limbs)
}

/// Relies on ruint's `Uint::div_rem` (via `from_limbs` / `into_limbs`):
/// quotient and remainder; it panics on a zero divisor, which is excluded.
#[verifier::external_body]
fn u256_div_rem(a: [u64; 4], d: [u64; 4]) -> (r: ([u64; 4], [u64; 4]))
    requires
        limbs_value(d) > 0,
    ensures
        limbs_value(r.0) == limbs_value(a) / limbs_value(d),
        limbs_value(r.1) == limbs_value(a) % limbs_value(d),
{
    let (q, m) = U256::from_limbs(a).div_rem(U256::from_limbs(d));
    (q.into_limbs(), m.into_limbs())
}

} // verus!
