//! Natural numbers of any size. A [`BigNat`] holds its number as a canonical
//! big-endian byte string; the arithmetic on it is done by `num_bigint`.

use crate::encoding::{
    be_to_nat, byte_len, is_canonical, left_pad, lemma_be_to_nat_concat, lemma_canonical_len,
    lemma_canonical_lower_bound, lemma_canonical_unique, lemma_nat_to_be_value,
    lemma_pow256_step, nat_to_be, pow256, strip_leading_zeros, u32_to_be_bytes,
};
use num_bigint::BigUint;
use vstd::arithmetic::div_mod::{
    lemma_mod_add_multiples_vanish, lemma_mod_bound, lemma_small_mod, lemma_sub_mod_noop,
};
use vstd::arithmetic::power::*;
use vstd::prelude::*;

verus! {

/// `BigUint::modpow`, between `BigUint::from_bytes_be` on each argument and
/// `BigUint::to_bytes_be` on the result. Taken on trust: the bytes returned
/// denote `base^exponent mod modulus`. The modulus must exceed one: the
/// outside function panics on a zero modulus, and for a modulus of one its
/// source does not plainly give zero on every input.
#[verifier::external_body]
fn biguint_modpow(base: &[u8], exponent: &[u8], modulus: &[u8]) -> (r: Vec<u8>)
    requires
        be_to_nat(modulus@) > 1,
    ensures
        be_to_nat(r@) == pow(be_to_nat(base@) as int, be_to_nat(exponent@)) % (be_to_nat(
            modulus@,
        ) as int),
{
    let b = BigUint::from_bytes_be(base);
    let e = BigUint::from_bytes_be(exponent);
    let m = BigUint::from_bytes_be(modulus);
    b.modpow(&e, &m).to_bytes_be()
}

/// The product of two `BigUint`s (`Mul`), between `BigUint::from_bytes_be`
/// and `BigUint::to_bytes_be`. Taken on trust: the bytes returned denote the
/// product of the two numbers.
#[verifier::external_body]
fn biguint_mul(a: &[u8], b: &[u8]) -> (r: Vec<u8>)
    ensures
        be_to_nat(r@) == be_to_nat(a@) * be_to_nat(b@),
{
    (BigUint::from_bytes_be(a) * BigUint::from_bytes_be(b)).to_bytes_be()
}

/// The sum of two `BigUint`s (`Add`), between `BigUint::from_bytes_be` and
/// `BigUint::to_bytes_be`. Taken on trust: the bytes returned denote the sum
/// of the two numbers.
#[verifier::external_body]
fn biguint_add(a: &[u8], b: &[u8]) -> (r: Vec<u8>)
    ensures
        be_to_nat(r@) == be_to_nat(a@) + be_to_nat(b@),
{
    (BigUint::from_bytes_be(a) + BigUint::from_bytes_be(b)).to_bytes_be()
}

/// The difference of two `BigUint`s (`Sub`), between `BigUint::from_bytes_be`
/// and `BigUint::to_bytes_be`. Taken on trust: the bytes returned denote
/// `a - b`. The outside function panics where `b` is the larger.
#[verifier::external_body]
fn biguint_sub(a: &[u8], b: &[u8]) -> (r: Vec<u8>)
    requires
        be_to_nat(b@) <= be_to_nat(a@),
    ensures
        be_to_nat(r@) == be_to_nat(a@) - be_to_nat(b@),
{
    (BigUint::from_bytes_be(a) - BigUint::from_bytes_be(b)).to_bytes_be()
}

/// The remainder of one `BigUint` by another (`Rem`), between
/// `BigUint::from_bytes_be` and `BigUint::to_bytes_be`. Taken on trust: the
/// bytes returned denote `a mod m`. The outside function panics on a zero
/// divisor.
#[verifier::external_body]
fn biguint_rem(a: &[u8], m: &[u8]) -> (r: Vec<u8>)
    requires
        be_to_nat(m@) > 0,
    ensures
        be_to_nat(r@) == be_to_nat(a@) % be_to_nat(m@),
{
    (BigUint::from_bytes_be(a) % BigUint::from_bytes_be(m)).to_bytes_be()
}

/// The order of two `BigUint`s (`<`), after `BigUint::from_bytes_be` on each.
/// Taken on trust: the answer is that of the two numbers.
#[verifier::external_body]
fn biguint_lt(a: &[u8], b: &[u8]) -> (r: bool)
    ensures
        r == (be_to_nat(a@) < be_to_nat(b@)),
{
    BigUint::from_bytes_be(a) < BigUint::from_bytes_be(b)
}

/// A natural number of any size.
#[derive(Debug, PartialEq, Eq)]
pub struct BigNat {
    bytes: Vec<u8>,
}

impl View for BigNat {
    type V = nat;

    closed spec fn view(&self) -> nat {
        be_to_nat(self.bytes@)
    }
}

impl Clone for BigNat {
    fn clone(&self) -> (r: Self)
        ensures
            r@ == self@,
    {
        proof {
            use_type_invariant(self);
        }
        BigNat { bytes: self.bytes.clone() }
    }
}

impl BigNat {
    #[verifier::type_invariant]
    spec fn inv(&self) -> bool {
        is_canonical(self.bytes@)
    }

    /// The number that the big-endian bytes `bytes` denote.
    pub fn from_be_bytes(bytes: &[u8]) -> (r: Self)
        ensures
            r@ == be_to_nat(bytes@),
    {
        BigNat { bytes: strip_leading_zeros(bytes) }
    }

    /// The shortest big-endian byte string of the number; empty for zero.
    pub fn to_be_bytes(&self) -> (r: Vec<u8>)
        ensures
            be_to_nat(r@) == self@,
            is_canonical(r@),
    {
        proof {
            use_type_invariant(self);
        }
        self.bytes.clone()
    }

    /// The number in exactly `len` big-endian bytes, padded with zeros on
    /// the left; `None` where it does not fit.
    pub fn to_be_bytes_left_pad(&self, len: usize) -> (r: Option<Vec<u8>>)
        ensures
            r is Some <==> self@ < pow256(len as nat),
            r is Some ==> r->0@ == nat_to_be(self@, len as nat),
            r is Some ==> r->0@.len() == len && be_to_nat(r->0@) == self@,
    {
        proof {
            use_type_invariant(self);
        }
        left_pad(self.bytes.as_slice(), len)
    }

    /// The number of bytes of the shortest big-endian string of the number.
    pub fn byte_len(&self) -> (r: usize)
        ensures
            r == byte_len(self@),
    {
        proof {
            use_type_invariant(self);
            lemma_canonical_len(self.bytes@);
        }
        self.bytes.len()
    }

    /// The number zero.
    pub fn zero() -> (r: Self)
        ensures
            r@ == 0,
    {
        BigNat { bytes: Vec::new() }
    }

    /// The number one.
    pub fn one() -> (r: Self)
        ensures
            r@ == 1,
    {
        let bytes: Vec<u8> = vec![1u8];
        proof {
            assert(bytes@.drop_last() =~= Seq::<u8>::empty());
            assert(be_to_nat(bytes@.drop_last()) == 0);
        }
        BigNat { bytes }
    }

    /// The number `x`.
    pub fn from_u32(x: u32) -> (r: Self)
        ensures
            r@ == x as nat,
    {
        let b = u32_to_be_bytes(x);
        proof {
            lemma_nat_to_be_value(x as nat, 4);
            lemma_u32_fits(x);
        }
        BigNat::from_be_bytes(&b)
    }

    /// The number `x`.
    pub fn from_u64(x: u64) -> (r: Self)
        ensures
            r@ == x as nat,
    {
        let hi: u32 = (x / 0x1_0000_0000) as u32;
        let lo: u32 = (x % 0x1_0000_0000) as u32;
        let h = u32_to_be_bytes(hi);
        let l = u32_to_be_bytes(lo);
        let mut v: Vec<u8> = Vec::new();
        v.push(h[0]);
        v.push(h[1]);
        v.push(h[2]);
        v.push(h[3]);
        v.push(l[0]);
        v.push(l[1]);
        v.push(l[2]);
        v.push(l[3]);
        proof {
            assert(v@ =~= h@ + l@);
            lemma_be_to_nat_concat(h@, l@);
            lemma_nat_to_be_value(hi as nat, 4);
            lemma_nat_to_be_value(lo as nat, 4);
            lemma_u32_fits(hi);
            lemma_u32_fits(lo);
            lemma_pow256_four();
        }
        BigNat::from_be_bytes(v.as_slice())
    }

    /// Whether the number is zero.
    pub fn is_zero(&self) -> (r: bool)
        ensures
            r == (self@ == 0),
    {
        proof {
            use_type_invariant(self);
            if self.bytes@.len() > 0 {
                lemma_canonical_lower_bound(self.bytes@);
                lemma_pow256_step((self.bytes@.len() - 1) as nat);
            }
        }
        self.bytes.len() == 0
    }

    /// Whether the two numbers are equal.
    pub fn equals(&self, other: &BigNat) -> (r: bool)
        ensures
            r == (self@ == other@),
    {
        proof {
            use_type_invariant(self);
            use_type_invariant(other);
            if self@ == other@ {
                lemma_canonical_unique(self.bytes@, other.bytes@);
            }
        }
        if self.bytes.len() != other.bytes.len() {
            return false;
        }
        let mut i: usize = 0;
        while i < self.bytes.len()
            invariant
                self.bytes@.len() == other.bytes@.len(),
                self@ == other@ ==> self.bytes@ == other.bytes@,
                0 <= i <= self.bytes@.len(),
                forall|j: int| 0 <= j < i ==> self.bytes@[j] == other.bytes@[j],
            decreases self.bytes@.len() - i,
        {
            if self.bytes[i] != other.bytes[i] {
                return false;
            }
            i += 1;
        }
        assert(self.bytes@ =~= other.bytes@);
        true
    }

    /// Whether this number is less than `other`.
    pub fn lt(&self, other: &BigNat) -> (r: bool)
        ensures
            r == (self@ < other@),
    {
        biguint_lt(self.bytes.as_slice(), other.bytes.as_slice())
    }

    /// `self^exponent mod modulus`.
    pub fn modpow(&self, exponent: &BigNat, modulus: &BigNat) -> (r: Self)
        requires
            modulus@ > 1,
        ensures
            r@ == mod_pow(self@, exponent@, modulus@),
    {
        let v = biguint_modpow(
            self.bytes.as_slice(),
            exponent.bytes.as_slice(),
            modulus.bytes.as_slice(),
        );
        BigNat::from_be_bytes(v.as_slice())
    }

    /// The product of the two numbers.
    pub fn mul(&self, other: &BigNat) -> (r: Self)
        ensures
            r@ == self@ * other@,
    {
        let v = biguint_mul(self.bytes.as_slice(), other.bytes.as_slice());
        BigNat::from_be_bytes(v.as_slice())
    }

    /// The sum of the two numbers.
    pub fn add(&self, other: &BigNat) -> (r: Self)
        ensures
            r@ == self@ + other@,
    {
        let v = biguint_add(self.bytes.as_slice(), other.bytes.as_slice());
        BigNat::from_be_bytes(v.as_slice())
    }

    /// The difference of the two numbers, of which `other` is not the larger.
    pub fn sub(&self, other: &BigNat) -> (r: Self)
        requires
            other@ <= self@,
        ensures
            r@ == self@ - other@,
    {
        let v = biguint_sub(self.bytes.as_slice(), other.bytes.as_slice());
        BigNat::from_be_bytes(v.as_slice())
    }

    /// `self mod modulus`.
    pub fn rem(&self, modulus: &BigNat) -> (r: Self)
        requires
            modulus@ > 0,
        ensures
            r@ == self@ % modulus@,
    {
        let v = biguint_rem(self.bytes.as_slice(), modulus.bytes.as_slice());
        BigNat::from_be_bytes(v.as_slice())
    }

    /// The product of the two numbers modulo `modulus`.
    pub fn mul_mod(&self, other: &BigNat, modulus: &BigNat) -> (r: Self)
        requires
            modulus@ > 0,
        ensures
            r@ == (self@ * other@) % modulus@,
    {
        self.mul(other).rem(modulus)
    }

    /// The sum of the two numbers modulo `modulus`.
    pub fn add_mod(&self, other: &BigNat, modulus: &BigNat) -> (r: Self)
        requires
            modulus@ > 0,
        ensures
            r@ == (self@ + other@) % modulus@,
    {
        self.add(other).rem(modulus)
    }

    /// The difference `self - other` modulo `modulus`: the number in
    /// `[0, modulus)` that differs from it by a multiple of `modulus`.
    pub fn sub_mod(&self, other: &BigNat, modulus: &BigNat) -> (r: Self)
        requires
            modulus@ > 0,
        ensures
            r@ == (self@ - other@) % (modulus@ as int),
    {
        let a = self.rem(modulus);
        let b = other.rem(modulus);
        proof {
            let m = modulus@ as int;
            lemma_sub_mod_noop(self@ as int, other@ as int, m);
            lemma_mod_bound(self@ as int, m);
            lemma_mod_bound(other@ as int, m);
            if b@ <= a@ {
                lemma_small_mod((a@ - b@) as nat, modulus@);
            } else {
                lemma_mod_add_multiples_vanish(a@ - b@, m);
                lemma_small_mod((m + (a@ - b@)) as nat, modulus@);
            }
        }
        if b.lt(&a) || b.equals(&a) {
            a.sub(&b)
        } else {
            modulus.sub(&b).add(&a)
        }
    }
}

/// `x` in exactly `len` big-endian bytes, padded with zeros on the left;
/// `None` where `x` does not fit. Read back as a big-endian number, the
/// bytes give `x`.
pub fn biguint_to_be_bytes_left_pad(x: &BigNat, len: usize) -> (r: Option<Vec<u8>>)
    ensures
        r is Some <==> x@ < pow256(len as nat),
        r is Some ==> r->0@ == nat_to_be(x@, len as nat),
        r is Some ==> r->0@.len() == len && be_to_nat(r->0@) == x@,
{
    x.to_be_bytes_left_pad(len)
}

/// The numbers that a sequence of [`BigNat`]s holds.
pub open spec fn values(v: Seq<BigNat>) -> Seq<nat> {
    Seq::new(v.len(), |j: int| v[j]@)
}

/// A copy of each of the numbers.
pub fn clone_all(v: &Vec<BigNat>) -> (r: Vec<BigNat>)
    ensures
        values(r@) == values(v@),
{
    let mut r: Vec<BigNat> = Vec::new();
    let mut j: usize = 0;
    while j < v.len()
        invariant
            0 <= j <= v@.len(),
            r@.len() == j,
            forall|t: int| 0 <= t < j ==> (#[trigger] r@[t])@ == v@[t]@,
        decreases v@.len() - j,
    {
        r.push(v[j].clone());
        j += 1;
    }
    assert(values(r@) =~= values(v@));
    r
}

/// `base^exponent mod modulus`, for a positive modulus.
pub open spec fn mod_pow(base: nat, exponent: nat, modulus: nat) -> nat {
    (pow(base as int, exponent) % (modulus as int)) as nat
}

/// What `mod_pow` gives is below the modulus.
pub proof fn lemma_mod_pow_bound(base: nat, exponent: nat, modulus: nat)
    requires
        modulus > 0,
    ensures
        mod_pow(base, exponent, modulus) < modulus,
{
    lemma_mod_bound(pow(base as int, exponent), modulus as int);
}

/// A residue to the power one is itself.
pub proof fn lemma_mod_pow_one_exponent(base: nat, modulus: nat)
    requires
        base < modulus,
    ensures
        mod_pow(base, 1, modulus) == base,
{
    lemma_pow1(base as int);
    lemma_small_mod(base, modulus);
}

/// One to any power is one.
pub proof fn lemma_mod_pow_of_one(exponent: nat, modulus: nat)
    requires
        modulus > 1,
    ensures
        mod_pow(1, exponent, modulus) == 1,
{
    lemma1_pow(exponent);
    lemma_small_mod(1, modulus);
}

/// Any number to the power zero is one.
pub proof fn lemma_mod_pow_zero_exponent(base: nat, modulus: nat)
    requires
        modulus > 1,
    ensures
        mod_pow(base, 0, modulus) == 1,
{
    lemma_pow0(base as int);
    lemma_small_mod(1, modulus);
}

/// Two exponentiations one after the other can change places:
/// `(b^x mod m)^y mod m = (b^y mod m)^x mod m`.
pub proof fn lemma_mod_pow_commutes(base: nat, x: nat, y: nat, modulus: nat)
    requires
        modulus > 0,
    ensures
        mod_pow(mod_pow(base, x, modulus), y, modulus) == mod_pow(
            mod_pow(base, y, modulus),
            x,
            modulus,
        ),
{
    let b = base as int;
    let m = modulus as int;
    lemma_mod_bound(pow(b, x), m);
    lemma_mod_bound(pow(b, y), m);
    lemma_pow_mod_noop(pow(b, x), y, m);
    lemma_pow_mod_noop(pow(b, y), x, m);
    lemma_pow_multiplies(b, x, y);
    lemma_pow_multiplies(b, y, x);
    assert(x * y == y * x) by (nonlinear_arith);
}

/// Four bytes hold the numbers below `2^32`.
pub proof fn lemma_pow256_four()
    ensures
        pow256(4) == 0x1_0000_0000,
{
    lemma_pow256_step(0);
    lemma_pow256_step(1);
    lemma_pow256_step(2);
    lemma_pow256_step(3);
}

proof fn lemma_u32_fits(x: u32)
    ensures
        (x as nat) < pow256(4),
{
    lemma_pow256_four();
}

} // verus!
