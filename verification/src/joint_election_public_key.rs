//! The joint election public key, and the ciphertexts made with it.

use crate::bignat::{
    lemma_mod_pow_bound, lemma_mod_pow_of_one, lemma_mod_pow_one_exponent,
    lemma_mod_pow_zero_exponent, mod_pow, BigNat,
};
use crate::encoding::{nat_to_be, pow256};
use crate::errors::EgError;
use crate::guardian::{
    all_valid, check_guardian_public_keys, indices_of, is_key_check_error, represent_all,
    GuardianPublicKey,
};
use crate::parameters::{
    is_subgroup_element, lemma_subgroup_closed_under_mul, lemma_subgroup_closed_under_pow,
    ElectionParameters, FixedParameters, L_P,
};
use vstd::arithmetic::div_mod::{lemma_mul_mod_noop_general, lemma_small_mod};
use vstd::prelude::*;
use vstd::seq_lib::{to_multiset_contains, to_multiset_insert, to_multiset_len, to_multiset_remove};

verus! {

/// The joint election public key: the product of the guardians' public keys.
#[derive(Debug)]
pub struct JointElectionPublicKey {
    pub joint_election_public_key: BigNat,
}

/// The ciphertext that holds the vote for one option.
#[derive(Debug)]
pub struct Ciphertext {
    pub alpha: BigNat,
    pub beta: BigNat,
}

/// The nonce of one encryption.
#[derive(Debug)]
pub struct Nonce {
    pub xi: BigNat,
}

impl Clone for JointElectionPublicKey {
    fn clone(&self) -> (r: Self)
        ensures
            r.joint_election_public_key@ == self.joint_election_public_key@,
    {
        JointElectionPublicKey { joint_election_public_key: self.joint_election_public_key.clone() }
    }
}

impl Clone for Ciphertext {
    fn clone(&self) -> (r: Self)
        ensures
            r@ == self@,
    {
        Ciphertext { alpha: self.alpha.clone(), beta: self.beta.clone() }
    }
}

impl Clone for Nonce {
    fn clone(&self) -> (r: Self)
        ensures
            r.xi@ == self.xi@,
    {
        Nonce { xi: self.xi.clone() }
    }
}

impl Nonce {
    /// The nonce `xi`.
    pub fn new(xi: BigNat) -> (r: Nonce)
        ensures
            r.xi@ == xi@,
    {
        Nonce { xi }
    }

    /// The nonce zero.
    pub fn zero() -> (r: Nonce)
        ensures
            r.xi@ == 0,
    {
        Nonce { xi: BigNat::zero() }
    }
}

impl View for Ciphertext {
    type V = (nat, nat);

    /// The pair `(alpha, beta)`.
    open spec fn view(&self) -> (nat, nat) {
        (self.alpha@, self.beta@)
    }
}

impl Ciphertext {
    /// Both parts are residues modulo `p` in the subgroup of order `q`.
    pub open spec fn in_subgroup(&self, fixed_parameters: &FixedParameters) -> bool {
        &&& is_subgroup_element(self.alpha@, fixed_parameters.q@, fixed_parameters.p@)
        &&& is_subgroup_element(self.beta@, fixed_parameters.q@, fixed_parameters.p@)
    }

    /// The identity: `alpha = beta = 1`.
    pub fn one() -> (r: Ciphertext)
        ensures
            r@ == (1nat, 1nat),
    {
        Ciphertext { alpha: BigNat::one(), beta: BigNat::one() }
    }

    /// The ciphertext raised to `factor`: it holds `factor` times the vote.
    pub fn scale(&self, fixed_parameters: &FixedParameters, factor: BigNat) -> (r: Ciphertext)
        requires
            fixed_parameters.wf(),
        ensures
            r@ == scaled(self@, factor@, fixed_parameters.p@),
            factor@ == 1 && self.alpha@ < fixed_parameters.p@ && self.beta@ < fixed_parameters.p@
                ==> r@ == self@,
            self@ == (1nat, 1nat) ==> r@ == (1nat, 1nat),
            r.alpha@ < fixed_parameters.p@,
            r.beta@ < fixed_parameters.p@,
            self.in_subgroup(fixed_parameters) ==> r.in_subgroup(fixed_parameters),
    {
        proof {
            let p = fixed_parameters.p@;
            let q = fixed_parameters.q@;
            lemma_mod_pow_bound(self.alpha@, factor@, p);
            lemma_mod_pow_bound(self.beta@, factor@, p);
            if self.in_subgroup(fixed_parameters) {
                lemma_subgroup_closed_under_pow(self.alpha@, factor@, q, p);
                lemma_subgroup_closed_under_pow(self.beta@, factor@, q, p);
            }
            if self.alpha@ < fixed_parameters.p@ && self.beta@ < fixed_parameters.p@ {
                lemma_scale_by_one(self@, fixed_parameters.p@);
            }
            lemma_scale_of_one(factor@, fixed_parameters.p@);
        }
        let alpha = self.alpha.modpow(&factor, &fixed_parameters.p);
        let beta = self.beta.modpow(&factor, &fixed_parameters.p);
        Ciphertext { alpha, beta }
    }
}

/// The ciphertext `(alpha, beta)` raised to `factor` modulo `p`.
pub open spec fn scaled(c: (nat, nat), factor: nat, p: nat) -> (nat, nat) {
    (mod_pow(c.0, factor, p), mod_pow(c.1, factor, p))
}

/// Scaling by one changes nothing in a ciphertext whose two parts are
/// residues modulo `p`.
pub proof fn lemma_scale_by_one(c: (nat, nat), p: nat)
    requires
        c.0 < p,
        c.1 < p,
    ensures
        scaled(c, 1, p) == c,
{
    lemma_mod_pow_one_exponent(c.0, p);
    lemma_mod_pow_one_exponent(c.1, p);
}

/// Scaling the identity by whatever factor gives the identity.
pub proof fn lemma_scale_of_one(factor: nat, p: nat)
    requires
        p > 1,
    ensures
        scaled((1nat, 1nat), factor, p) == (1nat, 1nat),
{
    lemma_mod_pow_of_one(factor, p);
}

impl PartialEq for Ciphertext {
    fn eq(&self, other: &Self) -> (r: bool) {
        self.alpha.equals(&other.alpha) && self.beta.equals(&other.beta)
    }
}

impl vstd::std_specs::cmp::PartialEqSpecImpl for Ciphertext {
    open spec fn obeys_eq_spec() -> bool {
        true
    }

    open spec fn eq_spec(&self, other: &Self) -> bool {
        self.alpha@ == other.alpha@ && self.beta@ == other.beta@
    }
}

impl PartialEq for JointElectionPublicKey {
    fn eq(&self, other: &Self) -> (r: bool) {
        self.joint_election_public_key.equals(&other.joint_election_public_key)
    }
}

impl vstd::std_specs::cmp::PartialEqSpecImpl for JointElectionPublicKey {
    open spec fn obeys_eq_spec() -> bool {
        true
    }

    open spec fn eq_spec(&self, other: &Self) -> bool {
        self.joint_election_public_key@ == other.joint_election_public_key@
    }
}

/// The product of the numbers.
pub open spec fn product(ks: Seq<nat>) -> nat
    decreases ks.len(),
{
    if ks.len() == 0 {
        1
    } else {
        product(ks.drop_last()) * ks.last()
    }
}

/// The public keys proper, `K_(i,0)`, of the guardians, in their order.
pub open spec fn public_keys_of(keys: Seq<GuardianPublicKey>) -> Seq<nat> {
    Seq::new(keys.len(), |j: int| keys[j].commitments()[0])
}

/// The joint key of the guardians with these public keys:
/// the product of the `K_(i,0)` modulo `p`.
pub open spec fn joint_key_of(keys: Seq<GuardianPublicKey>, p: nat) -> nat {
    product(public_keys_of(keys)) % p
}

/// The product with one factor taken out, times that factor, is the product.
pub proof fn lemma_product_remove(ks: Seq<nat>, i: int)
    requires
        0 <= i < ks.len(),
    ensures
        product(ks) == product(ks.remove(i)) * ks[i],
    decreases ks.len(),
{
    if i == ks.len() - 1 {
        assert(ks.remove(i) =~= ks.drop_last());
    } else {
        let front = ks.drop_last();
        lemma_product_remove(front, i);
        assert(ks.remove(i).drop_last() =~= front.remove(i));
        assert(ks.remove(i).last() == ks.last());
        let a = product(front.remove(i));
        let x = ks[i];
        let y = ks.last();
        assert((a * x) * y == (a * y) * x) by (nonlinear_arith);
    }
}

/// The product does not depend on the order of its factors.
pub proof fn lemma_product_permutation(a: Seq<nat>, b: Seq<nat>)
    requires
        a.to_multiset() == b.to_multiset(),
    ensures
        product(a) == product(b),
    decreases a.len(),
{
    to_multiset_len(a);
    to_multiset_len(b);
    if a.len() > 0 {
        let x = a.last();
        to_multiset_contains(a, x);
        to_multiset_contains(b, x);
        assert(a[a.len() - 1] == x);
        let i = b.index_of(x);
        assert(a.remove(a.len() - 1) =~= a.drop_last());
        to_multiset_remove(a, a.len() - 1);
        to_multiset_remove(b, i);
        lemma_product_permutation(a.drop_last(), b.remove(i));
        lemma_product_remove(b, i);
    }
}

/// Two sequences with the same elements, in whatever order, still have the
/// same elements after a function is applied to each.
pub proof fn lemma_map_permutation<A, B>(a: Seq<A>, b: Seq<A>, f: spec_fn(A) -> B)
    requires
        a.to_multiset() == b.to_multiset(),
    ensures
        a.map_values(f).to_multiset() == b.map_values(f).to_multiset(),
    decreases a.len(),
{
    to_multiset_len(a);
    to_multiset_len(b);
    if a.len() == 0 {
        assert(a.map_values(f) =~= b.map_values(f));
    } else {
        let x = a.last();
        to_multiset_contains(a, x);
        to_multiset_contains(b, x);
        assert(a[a.len() - 1] == x);
        let i = b.index_of(x);
        let a0 = a.drop_last();
        let b0 = b.remove(i);
        assert(a.remove(a.len() - 1) =~= a0);
        to_multiset_remove(a, a.len() - 1);
        to_multiset_remove(b, i);
        lemma_map_permutation(a0, b0, f);
        assert(a.map_values(f) =~= a0.map_values(f).insert(a0.len() as int, f(x)));
        assert(b.map_values(f) =~= b0.map_values(f).insert(i, f(x)));
        to_multiset_insert(a0.map_values(f), a0.len() as int, f(x));
        to_multiset_insert(b0.map_values(f), i, f(x));
    }
}

/// The joint election public key does not depend on the order of the
/// guardian public keys: where two lists hold the same keys, either both
/// are refused or both give the same joint key.
pub proof fn lemma_joint_key_order_invariant(
    election_parameters: &ElectionParameters,
    keys: Seq<GuardianPublicKey>,
    reordered: Seq<GuardianPublicKey>,
)
    requires
        keys.to_multiset() == reordered.to_multiset(),
    ensures
        represent_all(keys, election_parameters) == represent_all(
            reordered,
            election_parameters,
        ),
        joint_key_of(keys, election_parameters.p()) == joint_key_of(
            reordered,
            election_parameters.p(),
        ),
{
    assert(all_valid(keys, election_parameters) == all_valid(reordered, election_parameters)) by {
        assert forall|j: int| 0 <= j < reordered.len() && all_valid(
            keys,
            election_parameters,
        ) implies (#[trigger] reordered[j]).valid(election_parameters) by {
            to_multiset_contains(keys, reordered[j]);
            to_multiset_contains(reordered, reordered[j]);
            let t = keys.index_of(reordered[j]);
            assert(keys[t].valid(election_parameters));
        }
        assert forall|j: int| 0 <= j < keys.len() && all_valid(
            reordered,
            election_parameters,
        ) implies (#[trigger] keys[j]).valid(election_parameters) by {
            to_multiset_contains(keys, keys[j]);
            to_multiset_contains(reordered, keys[j]);
            let t = reordered.index_of(keys[j]);
            assert(reordered[t].valid(election_parameters));
        }
    }
    let index = |key: GuardianPublicKey| key.i@ as u32;
    lemma_map_permutation(keys, reordered, index);
    assert(indices_of(keys) =~= keys.map_values(index));
    assert(indices_of(reordered) =~= reordered.map_values(index));
    let k_0 = |key: GuardianPublicKey| key.commitments()[0];
    lemma_map_permutation(keys, reordered, k_0);
    assert(public_keys_of(keys) =~= keys.map_values(k_0));
    assert(public_keys_of(reordered) =~= reordered.map_values(k_0));
    lemma_product_permutation(public_keys_of(keys), public_keys_of(reordered));
}

impl JointElectionPublicKey {
    /// The joint election public key of the guardians whose public keys
    /// these are. The keys must be valid and stand for each guardian of the
    /// election exactly once.
    pub fn compute(
        election_parameters: &ElectionParameters,
        guardian_public_keys: &[GuardianPublicKey],
    ) -> (r: Result<Self, EgError>)
        requires
            election_parameters.wf(),
        ensures
            r is Ok <==> represent_all(guardian_public_keys@, election_parameters),
            r is Ok ==> r->Ok_0.joint_election_public_key@ == joint_key_of(
                guardian_public_keys@,
                election_parameters.p(),
            ),
            r is Ok ==> is_subgroup_element(
                r->Ok_0.joint_election_public_key@,
                election_parameters.q(),
                election_parameters.p(),
            ),
            r is Err ==> is_key_check_error(r->Err_0, guardian_public_keys@, election_parameters),
    {
        match check_guardian_public_keys(election_parameters, guardian_public_keys) {
            Ok(()) => {},
            Err(e) => {
                return Err(e);
            },
        }
        let fixed_parameters = &election_parameters.fixed_parameters;
        let ghost ks = public_keys_of(guardian_public_keys@);
        let ghost p = election_parameters.p();
        let mut acc = BigNat::one().rem(&fixed_parameters.p);
        let mut j: usize = 0;
        proof {
            lemma_small_mod(1, p);
            lemma_mod_pow_of_one(election_parameters.q(), p);
        }
        while j < guardian_public_keys.len()
            invariant
                election_parameters.wf(),
                fixed_parameters == &election_parameters.fixed_parameters,
                p == election_parameters.p(),
                ks == public_keys_of(guardian_public_keys@),
                all_valid(guardian_public_keys@, election_parameters),
                0 <= j <= guardian_public_keys@.len(),
                acc@ == product(ks.take(j as int)) % p,
                is_subgroup_element(acc@, election_parameters.q(), p),
            decreases guardian_public_keys@.len() - j,
        {
            let key = &guardian_public_keys[j];
            assert(key.valid(election_parameters));
            let k = key.public_key_k_i_0();
            let ghost before = product(ks.take(j as int));
            proof {
                assert(is_subgroup_element(key.commitments()[0], election_parameters.q(), p));
                lemma_subgroup_closed_under_mul(acc@, k@, election_parameters.q(), p);
            }
            acc = acc.mul_mod(k, &fixed_parameters.p);
            proof {
                assert(ks.take(j + 1).drop_last() =~= ks.take(j as int));
                assert(product(ks.take(j + 1)) == before * k@);
                lemma_mul_mod_noop_general(before as int, k@ as int, p as int);
            }
            j += 1;
        }
        assert(ks.take(j as int) =~= ks);
        Ok(JointElectionPublicKey { joint_election_public_key: acc })
    }

    /// The encryption of `vote` under this key with the nonce `nonce`:
    /// `alpha = g^nonce mod p` and `beta = K^(nonce + vote) mod p`.
    pub fn encrypt_with(
        &self,
        fixed_parameters: &FixedParameters,
        nonce: &BigNat,
        vote: usize,
    ) -> (r: Ciphertext)
        requires
            fixed_parameters.wf(),
        ensures
            r.alpha@ == mod_pow(fixed_parameters.g@, nonce@, fixed_parameters.p@),
            r.beta@ == mod_pow(
                self.joint_election_public_key@,
                nonce@ + vote as nat,
                fixed_parameters.p@,
            ),
            nonce@ == 0 && vote == 0 ==> r@ == (1nat, 1nat),
            r.alpha@ < fixed_parameters.p@,
            r.beta@ < fixed_parameters.p@,
            fixed_parameters.valid() && mod_pow(
                self.joint_election_public_key@,
                fixed_parameters.q@,
                fixed_parameters.p@,
            ) == 1 ==> r.in_subgroup(fixed_parameters),
    {
        proof {
            let p = fixed_parameters.p@;
            let q = fixed_parameters.q@;
            let k = self.joint_election_public_key@;
            lemma_mod_pow_zero_exponent(fixed_parameters.g@, p);
            lemma_mod_pow_zero_exponent(k, p);
            lemma_mod_pow_bound(fixed_parameters.g@, nonce@, p);
            lemma_mod_pow_bound(k, nonce@ + vote as nat, p);
            if fixed_parameters.valid() && mod_pow(k, q, p) == 1 {
                lemma_subgroup_closed_under_pow(fixed_parameters.g@, nonce@, q, p);
                lemma_subgroup_closed_under_pow(k, nonce@ + vote as nat, q, p);
            }
        }
        let alpha = fixed_parameters.g.modpow(nonce, &fixed_parameters.p);
        let exponent = nonce.add(&BigNat::from_u64(vote as u64));
        let beta = self.joint_election_public_key.modpow(&exponent, &fixed_parameters.p);
        Ciphertext { alpha, beta }
    }

    /// Checks that the key is a residue modulo `p`. To be called on a key
    /// that was read from outside.
    pub fn validate(&self, election_parameters: &ElectionParameters) -> (r: Result<(), EgError>)
        ensures
            r is Ok <==> self.joint_election_public_key@ < election_parameters.p(),
            r is Err ==> r->Err_0 == EgError::ValidationError,
    {
        if election_parameters.fixed_parameters.is_valid_modp(&self.joint_election_public_key) {
            Ok(())
        } else {
            Err(EgError::ValidationError)
        }
    }

    /// The key in exactly `L_P` big-endian bytes; `None` where it does not
    /// fit, which a validated key always does.
    pub fn to_be_bytes_len_p(&self, fixed_parameters: &FixedParameters) -> (r: Option<Vec<u8>>)
        ensures
            r is Some <==> self.joint_election_public_key@ < pow256(L_P as nat),
            r is Some ==> r->0@ == nat_to_be(self.joint_election_public_key@, L_P as nat),
    {
        fixed_parameters.biguint_to_be_bytes_len_p(&self.joint_election_public_key)
    }

    /// The key as a number.
    pub fn as_ref(&self) -> (r: &BigNat)
        ensures
            r@ == self.joint_election_public_key@,
    {
        &self.joint_election_public_key
    }
}

} // verus!
