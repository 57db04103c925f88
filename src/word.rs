//! Unsigned 256-bit words, held as four little-endian 64-bit limbs.

use vstd::arithmetic::div_mod::{lemma_fundamental_div_mod_converse, lemma_small_mod};
use vstd::prelude::*;

verus! {

/// 2^64, the base of one limb.
pub open spec fn limb_base() -> nat {
    0x1_0000_0000_0000_0000
}

/// 2^256, the number of distinct words.
pub open spec fn word_modulus() -> nat {
    limb_base() * limb_base() * limb_base() * limb_base()
}

/// An unsigned 256-bit integer; `l0` is the least significant limb.
#[derive(Clone, Copy, Debug, PartialEq, Eq, Structural)]
pub struct Word {
    pub l0: u64,
    pub l1: u64,
    pub l2: u64,
    pub l3: u64,
}

impl Word {
    /// The integer that the limbs spell out.
    pub open spec fn value(self) -> nat {
        self.l0 as nat + limb_base() * (self.l1 as nat + limb_base() * (self.l2 as nat
            + limb_base() * (self.l3 as nat)))
    }

    /// The word that holds a 64-bit integer.
    pub fn from_u64(v: u64) -> (r: Word)
        ensures
            r.value() == v as nat,
    {
        Word { l0: v, l1: 0, l2: 0, l3: 0 }
    }

    /// The word zero.
    pub fn zero() -> (r: Word)
        ensures
            r.value() == 0,
    {
        Word::from_u64(0)
    }

    /// Whether the word is zero.
    pub fn is_zero(&self) -> (r: bool)
        ensures
            r == (self.value() == 0),
    {
        proof {
            lemma_value_zero(*self);
        }
        self.l0 == 0 && self.l1 == 0 && self.l2 == 0 && self.l3 == 0
    }

    /// `(self + rhs) mod 2^256`.
    pub fn wrapping_add(self, rhs: Word) -> (r: Word)
        ensures
            r.value() == (self.value() + rhs.value()) % word_modulus(),
    {
        uint_wrapping_add(self, rhs)
    }

    /// `(self * rhs) mod 2^256`.
    pub fn wrapping_mul(self, rhs: Word) -> (r: Word)
        ensures
            r.value() == (self.value() * rhs.value()) % word_modulus(),
    {
        uint_wrapping_mul(self, rhs)
    }
}

/// Relies on ruint's `Uint::<256, 4>::wrapping_add` (the `+` of a 256-bit
/// word): the sum, wrapped at 2^256. `from_limbs` and `into_limbs` take and
/// give limbs least significant first.
#[verifier::external_body]
fn uint_wrapping_add(a: Word, b: Word) -> (r: Word)
    ensures
        r.value() == (a.value() + b.value()) % word_modulus(),
{
    let x = ruint::aliases::U256::from_limbs([a.l0, a.l1, a.l2, a.l3]);
    let y = ruint::aliases::U256::from_limbs([b.l0, b.l1, b.l2, b.l3]);
    let l = x.wrapping_add(y).into_limbs();
    Word { l0: l[0], l1: l[1], l2: l[2], l3: l[3] }
}

/// Relies on ruint's `Uint::<256, 4>::wrapping_mul` (the `*` of a 256-bit
/// word): the product, wrapped at 2^256. `from_limbs` and `into_limbs` take
/// and give limbs least significant first.
#[verifier::external_body]
fn uint_wrapping_mul(a: Word, b: Word) -> (r: Word)
    ensures
        r.value() == (a.value() * b.value()) % word_modulus(),
{
    let x = ruint::aliases::U256::from_limbs([a.l0, a.l1, a.l2, a.l3]);
    let y = ruint::aliases::U256::from_limbs([b.l0, b.l1, b.l2, b.l3]);
    let l = x.wrapping_mul(y).into_limbs();
    Word { l0: l[0], l1: l[1], l2: l[2], l3: l[3] }
}

proof fn lemma_value_zero(w: Word)
    ensures
        (w.value() == 0) == (w.l0 == 0 && w.l1 == 0 && w.l2 == 0 && w.l3 == 0),
{
    let b = limb_base() as int;
    let hi2 = w.l2 as int + b * (w.l3 as int);
    let hi1 = w.l1 as int + b * hi2;
    assert(b * (w.l3 as int) >= 0) by (nonlinear_arith)
        requires b > 0, w.l3 >= 0;
    assert(b * hi2 >= 0) by (nonlinear_arith)
        requires b > 0, hi2 >= 0;
    assert(b * hi1 >= 0) by (nonlinear_arith)
        requires b > 0, hi1 >= 0;
    if w.value() == 0 {
        assert(b * hi1 == 0);
        assert(hi1 == 0) by (nonlinear_arith)
            requires b > 0, b * hi1 == 0;
        assert(hi2 == 0) by (nonlinear_arith)
            requires b > 0, b * hi2 == 0;
        assert(w.l3 == 0) by (nonlinear_arith)
            requires b > 0, b * (w.l3 as int) == 0;
    }
}

/// Splits `lo + base * hi` back into its two parts.
proof fn lemma_split_unique(lo1: int, hi1: int, lo2: int, hi2: int)
    requires
        0 <= lo1 < limb_base(),
        0 <= lo2 < limb_base(),
        lo1 + limb_base() * hi1 == lo2 + limb_base() * hi2,
    ensures
        lo1 == lo2,
        hi1 == hi2,
{
    let b = limb_base() as int;
    let x = lo1 + b * hi1;
    assert(x == hi1 * b + lo1) by (nonlinear_arith)
        requires x == lo1 + b * hi1;
    assert(x == hi2 * b + lo2) by (nonlinear_arith)
        requires x == lo2 + b * hi2;
    lemma_fundamental_div_mod_converse(x, b, hi1, lo1);
    lemma_fundamental_div_mod_converse(x, b, hi2, lo2);
}

/// Two words with the same value have the same limbs.
pub proof fn lemma_value_injective(a: Word, b: Word)
    ensures
        (a.value() == b.value()) == (a == b),
{
    if a.value() == b.value() {
        let base = limb_base() as int;
        let a2 = a.l2 as int + base * (a.l3 as int);
        let b2 = b.l2 as int + base * (b.l3 as int);
        let a1 = a.l1 as int + base * a2;
        let b1 = b.l1 as int + base * b2;
        lemma_split_unique(a.l0 as int, a1, b.l0 as int, b1);
        lemma_split_unique(a.l1 as int, a2, b.l1 as int, b2);
        lemma_split_unique(a.l2 as int, a.l3 as int, b.l2 as int, b.l3 as int);
    }
}

/// Every word is below 2^256.
pub proof fn lemma_value_bound(w: Word)
    ensures
        w.value() < word_modulus(),
{
    let b = limb_base() as int;
    let hi2 = w.l2 as int + b * (w.l3 as int);
    let hi1 = w.l1 as int + b * hi2;
    assert(hi2 <= b * b - 1) by (nonlinear_arith)
        requires 0 <= w.l2 < b, 0 <= w.l3 < b, hi2 == w.l2 as int + b * (w.l3 as int);
    assert(hi1 <= b * b * b - 1) by (nonlinear_arith)
        requires 0 <= w.l1 < b, 0 <= hi2 <= b * b - 1, hi1 == w.l1 as int + b * hi2;
    assert(w.value() <= b * b * b * b - 1) by (nonlinear_arith)
        requires 0 <= w.l0 < b, 0 <= hi1 <= b * b * b - 1, w.value() == w.l0 as int + b * hi1;
}

/// A small value taken modulo 2^256 is itself.
pub proof fn lemma_small_value(n: nat)
    requires
        n < limb_base(),
    ensures
        n % word_modulus() == n,
{
    lemma_small_mod(n, word_modulus());
}

} // verus!
