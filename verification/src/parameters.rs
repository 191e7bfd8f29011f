//! The parameters of an election: the group, the number of guardians and the
//! threshold.

use crate::bignat::{
    biguint_to_be_bytes_left_pad, lemma_mod_pow_bound, lemma_mod_pow_commutes,
    lemma_mod_pow_of_one, mod_pow, BigNat,
};
use crate::encoding::{be_to_nat, nat_to_be, pow256};
use crate::errors::EgError;
use crate::standard_parameters::{standard_parameters, STANDARD_G, STANDARD_P, STANDARD_Q};
use vstd::arithmetic::div_mod::{lemma_mod_bound, lemma_mul_mod_noop_general, lemma_small_mod};
use vstd::arithmetic::power::{lemma_pow_distributes, lemma_pow_mod_noop, pow};
use vstd::prelude::*;

verus! {

/// The number of bytes in which a residue modulo `p` is written.
pub const L_P: usize = 512;

/// The number of bytes in which a scalar modulo `q` is written.
pub const L_Q: usize = 32;

/// The largest number of guardians.
pub const MAX_GUARDIANS: u32 = 0x7fff_ffff;

/// The group: the prime modulus `p`, the order `q` of the subgroup that the
/// protocol works in, and a generator `g` of that subgroup.
#[derive(Debug, PartialEq, Eq)]
pub struct FixedParameters {
    pub p: BigNat,
    pub q: BigNat,
    pub g: BigNat,
}

impl Clone for FixedParameters {
    fn clone(&self) -> (r: Self)
        ensures
            r.p@ == self.p@,
            r.q@ == self.q@,
            r.g@ == self.g@,
    {
        FixedParameters { p: self.p.clone(), q: self.q.clone(), g: self.g.clone() }
    }
}

impl FixedParameters {
    /// The sizes are in order: `1 < g < p`, `q` is positive, a residue
    /// modulo `p` fits in `L_P` bytes and a scalar modulo `q` in `L_Q`.
    pub open spec fn wf(&self) -> bool {
        &&& 1 < self.g@ < self.p@
        &&& 0 < self.q@
        &&& self.p@ < pow256(L_P as nat)
        &&& self.q@ < pow256(L_Q as nat)
    }

    /// The sizes are in order and `g` lies in the subgroup of order `q`:
    /// `g^q = 1 (mod p)`.
    pub open spec fn valid(&self) -> bool {
        &&& self.wf()
        &&& mod_pow(self.g@, self.q@, self.p@) == 1
    }

    /// Checks the parameters: `Ok` exactly where they are valid.
    pub fn validate(&self) -> (r: Result<(), EgError>)
        ensures
            r is Ok <==> self.valid(),
            r is Err ==> r == Err::<(), EgError>(EgError::InvalidParameter),
    {
        let one = BigNat::one();
        if !(one.lt(&self.g) && self.g.lt(&self.p)) {
            return Err(EgError::InvalidParameter);
        }
        if self.q.is_zero() {
            return Err(EgError::InvalidParameter);
        }
        if self.p.to_be_bytes_left_pad(L_P).is_none() {
            return Err(EgError::InvalidParameter);
        }
        if self.q.to_be_bytes_left_pad(L_Q).is_none() {
            return Err(EgError::InvalidParameter);
        }
        if !self.g.modpow(&self.q, &self.p).equals(&one) {
            return Err(EgError::InvalidParameter);
        }
        Ok(())
    }

    /// Whether `x` is a residue modulo `p`: `0 <= x < p`.
    pub fn is_valid_modp(&self, x: &BigNat) -> (r: bool)
        ensures
            r == (x@ < self.p@),
    {
        x.lt(&self.p)
    }

    /// Whether `x` is a scalar modulo `q`: `0 <= x < q`.
    pub fn is_valid_modq(&self, x: &BigNat) -> (r: bool)
        ensures
            r == (x@ < self.q@),
    {
        x.lt(&self.q)
    }

    /// `x` in exactly `L_P` big-endian bytes; `None` where it does not fit.
    pub fn biguint_to_be_bytes_len_p(&self, x: &BigNat) -> (r: Option<Vec<u8>>)
        ensures
            r is Some <==> x@ < pow256(L_P as nat),
            r is Some ==> r->0@ == nat_to_be(x@, L_P as nat),
    {
        biguint_to_be_bytes_left_pad(x, L_P)
    }

    /// `x` in exactly `L_Q` big-endian bytes; `None` where it does not fit.
    pub fn biguint_to_be_bytes_len_q(&self, x: &BigNat) -> (r: Option<Vec<u8>>)
        ensures
            r is Some <==> x@ < pow256(L_Q as nat),
            r is Some ==> r->0@ == nat_to_be(x@, L_Q as nat),
    {
        biguint_to_be_bytes_left_pad(x, L_Q)
    }
}

/// Whether `x` is a residue modulo `p` in the subgroup of order `q`:
/// `x < p` and `x^q = 1 (mod p)`.
pub open spec fn is_subgroup_element(x: nat, q: nat, p: nat) -> bool {
    x < p && mod_pow(x, q, p) == 1
}

/// The powers of a number whose `q`-th power is one lie in the subgroup of
/// order `q`.
pub proof fn lemma_subgroup_closed_under_pow(x: nat, e: nat, q: nat, p: nat)
    requires
        p > 1,
        mod_pow(x, q, p) == 1,
    ensures
        is_subgroup_element(mod_pow(x, e, p), q, p),
{
    lemma_mod_pow_bound(x, e, p);
    lemma_mod_pow_commutes(x, e, q, p);
    lemma_mod_pow_of_one(e, p);
}

/// The product of two numbers whose `q`-th powers are one lies in the
/// subgroup of order `q`.
pub proof fn lemma_subgroup_closed_under_mul(x: nat, y: nat, q: nat, p: nat)
    requires
        p > 1,
        mod_pow(x, q, p) == 1,
        mod_pow(y, q, p) == 1,
    ensures
        is_subgroup_element((x * y) % p, q, p),
{
    let m = p as int;
    let xy = x as int * y as int;
    let a = pow(x as int, q);
    let b = pow(y as int, q);
    lemma_mod_bound(xy, m);
    assert(pow(xy % m, q) % m == pow(xy, q) % m) by {
        lemma_pow_mod_noop(xy, q, m);
    }
    assert(pow(xy, q) == a * b) by {
        lemma_pow_distributes(x as int, y as int, q);
    }
    assert((a * b) % m == ((a % m) * (b % m)) % m) by {
        lemma_mul_mod_noop_general(a, b, m);
    }
    assert(a % m == 1 && b % m == 1);
    assert((a % m) * (b % m) == 1);
    lemma_small_mod(1, p);
    assert(((x * y) % p) as int == xy % m);
}

/// What varies from one election to the next: the number `n` of guardians,
/// the number `k` of them that it takes to decrypt, and two free texts.
#[derive(Clone, Debug, PartialEq, Eq)]
pub struct VaryingParameters {
    pub n: u32,
    pub k: u32,
    pub date: String,
    pub info: String,
}

impl VaryingParameters {
    /// `1 <= k <= n <= 2^31 - 1`.
    pub open spec fn wf(&self) -> bool {
        1 <= self.k <= self.n <= MAX_GUARDIANS
    }

    /// Checks the parameters: `Ok` exactly where `1 <= k <= n <= 2^31 - 1`.
    pub fn validate(&self) -> (r: Result<(), EgError>)
        ensures
            r is Ok <==> self.wf(),
            r is Err ==> r == Err::<(), EgError>(EgError::InvalidParameter),
    {
        if 1 <= self.k && self.k <= self.n && self.n <= MAX_GUARDIANS {
            Ok(())
        } else {
            Err(EgError::InvalidParameter)
        }
    }
}

/// The parameters of one election.
#[derive(Debug, PartialEq, Eq)]
pub struct ElectionParameters {
    pub fixed_parameters: FixedParameters,
    pub varying_parameters: VaryingParameters,
}

impl ElectionParameters {
    pub open spec fn wf(&self) -> bool {
        &&& self.fixed_parameters.wf()
        &&& self.varying_parameters.wf()
    }

    /// The modulus `p`.
    pub open spec fn p(&self) -> nat {
        self.fixed_parameters.p@
    }

    /// The subgroup order `q`.
    pub open spec fn q(&self) -> nat {
        self.fixed_parameters.q@
    }

    /// The generator `g`.
    pub open spec fn g(&self) -> nat {
        self.fixed_parameters.g@
    }

    /// The number of guardians.
    pub open spec fn n(&self) -> nat {
        self.varying_parameters.n as nat
    }

    /// The threshold.
    pub open spec fn k(&self) -> nat {
        self.varying_parameters.k as nat
    }

    /// Checks the parameters: `Ok` exactly where the group is valid and
    /// `1 <= k <= n <= 2^31 - 1`.
    pub fn validate(&self) -> (r: Result<(), EgError>)
        ensures
            r is Ok <==> self.fixed_parameters.valid() && self.varying_parameters.wf(),
            r is Err ==> r == Err::<(), EgError>(EgError::InvalidParameter),
    {
        match self.fixed_parameters.validate() {
            Ok(()) => self.varying_parameters.validate(),
            Err(e) => Err(e),
        }
    }
}

/// An example of election parameters: the standard group, five guardians,
/// three of whom it takes to decrypt.
pub fn example_election_parameters() -> (r: ElectionParameters)
    ensures
        r.wf(),
        r.fixed_parameters.p@ == be_to_nat(STANDARD_P@),
        r.fixed_parameters.q@ == be_to_nat(STANDARD_Q@),
        r.fixed_parameters.g@ == be_to_nat(STANDARD_G@),
        r.varying_parameters.n == 5,
        r.varying_parameters.k == 3,
        r.varying_parameters.date@ == "2023-05-02"@,
        r.varying_parameters.info@ == "The United Realms of Imaginaria, General Election"@,
{
    let fixed_parameters = standard_parameters();
    let varying_parameters = VaryingParameters {
        n: 5,
        k: 3,
        date: "2023-05-02".to_owned(),
        info: "The United Realms of Imaginaria, General Election".to_owned(),
    };
    ElectionParameters { fixed_parameters, varying_parameters }
}

} // verus!
