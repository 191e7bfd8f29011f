//! The shares of a guardian's secret that it deals to the guardians, each
//! encrypted to its recipient, and the share of the joint secret that a
//! guardian puts together from what it receives.

use crate::bignat::{lemma_mod_pow_bound, lemma_mod_pow_commutes, mod_pow, values, BigNat};
use crate::csprng::{sample_below, Csprng, MAX_REJECTED_DRAWS};
use crate::encoding::{
    append_bytes, be_to_nat, lemma_be_to_nat_bound, lemma_nat_to_be_of_be_to_nat,
    lemma_nat_to_be_value, lemma_xor_seq_involution, nat_to_be, pow256, u32_to_be_bytes, xor,
    xor_seq,
};
use crate::errors::EgError;
use crate::guardian::{
    check_guardian_public_keys, is_key_check_error, represent_all, GuardianIndex,
    GuardianPublicKey, GuardianSecretKey,
};
use crate::hash::{eg_h, hmac_sha256, HValue};
use crate::parameters::{ElectionParameters, L_P, L_Q};
use vstd::arithmetic::div_mod::{
    lemma_add_mod_noop, lemma_add_mod_noop_right, lemma_mod_twice, lemma_mul_mod_noop_general,
    lemma_small_mod,
};
use vstd::prelude::*;
use vstd::string::{StrSliceExecFns, StringSliceAdditionalSpecFns};

verus! {

/// The value at `x` of the polynomial with these coefficients, lowest
/// degree first: `a_0 + a_1 x + .. + a_(k-1) x^(k-1)`.
pub open spec fn polynomial_value(coefficients: Seq<nat>, x: nat) -> nat
    decreases coefficients.len(),
{
    if coefficients.len() == 0 {
        0
    } else {
        coefficients[0] + x * polynomial_value(coefficients.drop_first(), x)
    }
}

/// The share of the dealer's secret that is due to guardian `l`: the value
/// of the dealer's polynomial at `l`, modulo `q`.
pub open spec fn share_value(coefficients: Seq<nat>, l: nat, q: nat) -> nat {
    polynomial_value(coefficients, l) % q
}

/// What is hashed to the secret key of the share of dealer `i` for
/// recipient `l`: `0x11 | b(i, 4) | b(l, 4) | b(K_l, 512) | b(alpha, 512) |
/// b(beta, 512)`.
pub open spec fn secret_key_input(i: nat, l: nat, k_l: nat, alpha: nat, beta: nat) -> Seq<u8> {
    seq![0x11u8] + nat_to_be(i, 4) + nat_to_be(l, 4) + nat_to_be(k_l, L_P as nat) + nat_to_be(
        alpha,
        L_P as nat,
    ) + nat_to_be(beta, L_P as nat)
}

/// The secret key `k_(i,l)` of the share of dealer `i` for recipient `l`.
pub open spec fn share_secret_key(
    h_p: Seq<u8>,
    i: nat,
    l: nat,
    k_l: nat,
    alpha: nat,
    beta: nat,
) -> Seq<u8> {
    hmac_sha256(h_p, secret_key_input(i, l, k_l, alpha, beta))
}

/// The label of the key derivation.
pub open spec fn kdf_label() -> Seq<u8> {
    "share_enc_keys".spec_bytes()
}

/// The context of the key derivation: `"share_encrypt" | b(i, 4) | b(l, 4)`.
pub open spec fn kdf_context(i: nat, l: nat) -> Seq<u8> {
    "share_encrypt".spec_bytes() + nat_to_be(i, 4) + nat_to_be(l, 4)
}

/// What is hashed to the key with the number `counter`:
/// `counter | label | 0x00 | context | 0x0200`.
pub open spec fn kdf_input(counter: u8, i: nat, l: nat) -> Seq<u8> {
    seq![counter] + kdf_label() + seq![0x00u8] + kdf_context(i, l) + seq![0x02u8, 0x00u8]
}

/// The key `k_0` that authenticates the share.
pub open spec fn share_mac_key(k_i_l: Seq<u8>, i: nat, l: nat) -> Seq<u8> {
    hmac_sha256(k_i_l, kdf_input(0x01, i, l))
}

/// The key `k_1` that encrypts the share.
pub open spec fn share_encryption_key(k_i_l: Seq<u8>, i: nat, l: nat) -> Seq<u8> {
    hmac_sha256(k_i_l, kdf_input(0x02, i, l))
}

/// The masked share `c1`: the share value in `L_Q` bytes, each byte combined
/// by exclusive or with the byte of the encryption key `k1`.
pub open spec fn masked_share(value: nat, k1: Seq<u8>) -> Seq<u8> {
    xor_seq(nat_to_be(value, L_Q as nat), k1)
}

/// What the recipient makes of the masked share `c1`, once the
/// authentication code `mac` of the ciphertext is computed: nothing where
/// the code is not the code `c2` that came with the share; else the share
/// value, unmasked with the encryption key `k1`.
pub open spec fn opened_share(
    c1: Seq<u8>,
    k1: Seq<u8>,
    mac: Seq<u8>,
    c2: Seq<u8>,
    dealer: nat,
) -> Result<nat, EgError> {
    if mac != c2 {
        Err(EgError::MacMismatch { dealer: dealer as u32 })
    } else {
        Ok(be_to_nat(xor_seq(c1, k1)))
    }
}

/// What an encrypted share holds.
pub struct ShareModel {
    pub dealer: nat,
    pub recipient: nat,
    pub c0: nat,
    pub c1: nat,
    pub c2: Seq<u8>,
}

/// The encrypted share of the dealer `i` with these coefficients for the
/// recipient `l` with the public key `k_l`, made with the nonce `xi`.
pub open spec fn encrypted_share_of(
    h_p: Seq<u8>,
    p: nat,
    q: nat,
    g: nat,
    i: nat,
    l: nat,
    coefficients: Seq<nat>,
    k_l: nat,
    xi: nat,
) -> ShareModel {
    let alpha = mod_pow(g, xi, p);
    let beta = mod_pow(k_l, xi, p);
    let k_i_l = share_secret_key(h_p, i, l, k_l, alpha, beta);
    let c1 = masked_share(share_value(coefficients, l, q), share_encryption_key(k_i_l, i, l));
    ShareModel {
        dealer: i,
        recipient: l,
        c0: alpha,
        c1: be_to_nat(c1),
        c2: hmac_sha256(share_mac_key(k_i_l, i, l), nat_to_be(alpha, L_P as nat) + c1),
    }
}

/// What the recipient `recipient`, with the secret `s_l` and the public key
/// `k_l`, makes of a share that it takes to come from `dealer`: the share
/// value, or the reason why the share is refused.
pub open spec fn decryption_of(
    h_p: Seq<u8>,
    p: nat,
    share: ShareModel,
    dealer: nat,
    recipient: nat,
    k_l: nat,
    s_l: nat,
) -> Result<nat, EgError> {
    if share.dealer != dealer || share.recipient != recipient {
        Err(EgError::IndexMismatch { dealer: dealer as u32 })
    } else if !(share.c0 < pow256(L_P as nat) && share.c1 < pow256(L_Q as nat)) {
        Err(EgError::SerializationError { dealer: dealer as u32 })
    } else {
        let alpha = share.c0;
        let beta = mod_pow(alpha, s_l, p);
        let k_i_l = share_secret_key(h_p, dealer, recipient, k_l, alpha, beta);
        let c1 = nat_to_be(share.c1, L_Q as nat);
        let mac = hmac_sha256(
            share_mac_key(k_i_l, dealer, recipient),
            nat_to_be(alpha, L_P as nat) + c1,
        );
        opened_share(c1, share_encryption_key(k_i_l, dealer, recipient), mac, share.c2, dealer)
    }
}

/// The share of a dealer's secret for one recipient, encrypted to it.
#[derive(Debug)]
pub struct GuardianEncryptedShare {
    pub dealer: GuardianIndex,
    pub recipient: GuardianIndex,
    pub c0: BigNat,
    pub c1: BigNat,
    pub c2: HValue,
}

impl Clone for GuardianEncryptedShare {
    fn clone(&self) -> (r: Self)
        ensures
            r@ == self@,
    {
        GuardianEncryptedShare {
            dealer: self.dealer,
            recipient: self.recipient,
            c0: self.c0.clone(),
            c1: self.c1.clone(),
            c2: self.c2,
        }
    }
}

impl View for GuardianEncryptedShare {
    type V = ShareModel;

    open spec fn view(&self) -> ShareModel {
        ShareModel {
            dealer: self.dealer@,
            recipient: self.recipient@,
            c0: self.c0@,
            c1: self.c1@,
            c2: self.c2@,
        }
    }
}

/// The value at `x`, modulo `q`, of the polynomial with these coefficients,
/// by Horner's method.
pub fn evaluate_polynomial(coefficients: &Vec<BigNat>, x: &BigNat, q: &BigNat) -> (r: BigNat)
    requires
        q@ > 0,
    ensures
        r@ == polynomial_value(values(coefficients@), x@) % q@,
{
    let ghost cs = values(coefficients@);
    let mut acc = BigNat::zero();
    let mut j: usize = coefficients.len();
    proof {
        assert(cs.subrange(j as int, cs.len() as int) =~= Seq::<nat>::empty());
        lemma_small_mod(0, q@);
    }
    while j > 0
        invariant
            q@ > 0,
            cs == values(coefficients@),
            0 <= j <= coefficients@.len(),
            acc@ == polynomial_value(cs.subrange(j as int, cs.len() as int), x@) % q@,
        decreases j,
    {
        j -= 1;
        let ghost rest = polynomial_value(cs.subrange(j + 1, cs.len() as int), x@);
        let c = &coefficients[j];
        acc = acc.mul(x).add(c).rem(q);
        proof {
            let tail = cs.subrange(j as int, cs.len() as int);
            assert(tail.drop_first() =~= cs.subrange(j + 1, cs.len() as int));
            assert(tail[0] == c@);
            assert(polynomial_value(tail, x@) == c@ + x@ * rest);
            let m = q@ as int;
            lemma_mul_mod_noop_general(rest as int, x@ as int, m);
            lemma_add_mod_noop(((rest % q@) * x@) as int, c@ as int, m);
            lemma_add_mod_noop((rest * x@) as int, c@ as int, m);
            assert(rest * x@ == x@ * rest) by (nonlinear_arith);
        }
    }
    assert(cs.subrange(0, cs.len() as int) =~= cs);
    acc
}

/// The bytes that are hashed to the secret key of the share of dealer `i`
/// for recipient `l`.
pub fn secret_key_input_bytes(
    i: u32,
    l: u32,
    capital_k_l: &BigNat,
    alpha: &BigNat,
    beta: &BigNat,
) -> (v: Vec<u8>)
    requires
        capital_k_l@ < pow256(L_P as nat),
        alpha@ < pow256(L_P as nat),
        beta@ < pow256(L_P as nat),
    ensures
        v@ == secret_key_input(i as nat, l as nat, capital_k_l@, alpha@, beta@),
{
    let mut v: Vec<u8> = vec![0x11u8];
    assert(v@ =~= seq![0x11u8]);
    append_bytes(&mut v, u32_to_be_bytes(i).as_slice());
    append_bytes(&mut v, u32_to_be_bytes(l).as_slice());
    append_bytes(&mut v, capital_k_l.to_be_bytes_left_pad(L_P).unwrap().as_slice());
    append_bytes(&mut v, alpha.to_be_bytes_left_pad(L_P).unwrap().as_slice());
    append_bytes(&mut v, beta.to_be_bytes_left_pad(L_P).unwrap().as_slice());
    v
}

/// The bytes that are hashed to the key with the number `counter` of the
/// share of dealer `i` for recipient `l`.
pub fn kdf_input_bytes(counter: u8, i: u32, l: u32) -> (v: Vec<u8>)
    ensures
        v@ == kdf_input(counter, i as nat, l as nat),
{
    let label = "share_enc_keys".as_bytes_vec();
    let mut context = "share_encrypt".as_bytes_vec();
    append_bytes(&mut context, u32_to_be_bytes(i).as_slice());
    append_bytes(&mut context, u32_to_be_bytes(l).as_slice());

    let mut v: Vec<u8> = vec![counter];
    assert(v@ =~= seq![counter]);
    append_bytes(&mut v, label.as_slice());
    v.push(0x00u8);
    append_bytes(&mut v, context.as_slice());
    v.push(0x02u8);
    v.push(0x00u8);
    assert(v@ =~= kdf_input(counter, i as nat, l as nat));
    v
}

/// Masks the share value with the encryption key `k1`.
pub fn mask_share(value: &BigNat, k1: &HValue) -> (c1: Vec<u8>)
    requires
        value@ < pow256(L_Q as nat),
    ensures
        c1@ == masked_share(value@, k1@),
{
    let plain = value.to_be_bytes_left_pad(L_Q).unwrap();
    xor(plain.as_slice(), k1.0.as_slice())
}

/// Opens the masked share `c1`, of `L_Q` bytes: checks the authentication
/// code `mac`, computed from the ciphertext, against the code `c2` that came
/// with the share, and only then unmasks the share with the key `k1`.
pub fn open_share(c1: &[u8], k1: &HValue, mac: &HValue, c2: &HValue, dealer: u32) -> (r: Result<
    BigNat,
    EgError,
>)
    requires
        c1@.len() == L_Q,
    ensures
        is_outcome(r, opened_share(c1@, k1@, mac@, c2@, dealer as nat)),
{
    if !mac.equals(c2) {
        return Err(EgError::MacMismatch { dealer });
    }
    let plain = xor(c1, k1.0.as_slice());
    Ok(BigNat::from_be_bytes(plain.as_slice()))
}

impl GuardianEncryptedShare {
    /// The secret key `k_(i,l)` of the share of dealer `i` for recipient
    /// `l`, from the parameter base hash, the recipient's public key, and
    /// `alpha` and `beta`.
    pub fn secret_key(
        h_p: HValue,
        i: u32,
        l: u32,
        capital_k_l: &BigNat,
        alpha: &BigNat,
        beta: &BigNat,
    ) -> (r: HValue)
        requires
            capital_k_l@ < pow256(L_P as nat),
            alpha@ < pow256(L_P as nat),
            beta@ < pow256(L_P as nat),
        ensures
            r@ == share_secret_key(h_p@, i as nat, l as nat, capital_k_l@, alpha@, beta@),
    {
        let v = secret_key_input_bytes(i, l, capital_k_l, alpha, beta);
        eg_h(&h_p, v.as_slice())
    }

    /// HMAC-SHA-256: the same as the keyed hash `H`.
    pub fn hmac(key: &HValue, data: &[u8]) -> (r: HValue)
        ensures
            r@ == hmac_sha256(key@, data@),
    {
        eg_h(key, data)
    }

    /// The key `k_0` that authenticates the share of dealer `i` for
    /// recipient `l`, and the key `k_1` that encrypts it, both derived from
    /// the secret key `k_(i,l)`.
    pub fn mac_and_encryption_key(i: u32, l: u32, k_i_l: &HValue) -> (r: (HValue, HValue))
        ensures
            r.0@ == share_mac_key(k_i_l@, i as nat, l as nat),
            r.1@ == share_encryption_key(k_i_l@, i as nat, l as nat),
    {
        let k0 = Self::hmac(k_i_l, kdf_input_bytes(0x01, i, l).as_slice());
        let k1 = Self::hmac(k_i_l, kdf_input_bytes(0x02, i, l).as_slice());

        (k0, k1)
    }

    /// The authentication code of the two parts of the ciphertext under the
    /// key `k0`.
    pub fn share_mac(k0: HValue, c0: &[u8], c1: &[u8]) -> (r: HValue)
        ensures
            r@ == hmac_sha256(k0@, c0@ + c1@),
    {
        let mut v: Vec<u8> = Vec::new();
        assert(v@ =~= Seq::<u8>::empty());
        append_bytes(&mut v, c0);
        append_bytes(&mut v, c1);
        assert(v@ =~= c0@ + c1@);
        Self::hmac(&k0, v.as_slice())
    }

    /// The share of the dealer's secret for the recipient, encrypted with
    /// the nonce `xi`.
    pub fn encrypt(
        election_parameters: &ElectionParameters,
        h_p: HValue,
        dealer_private_key: &GuardianSecretKey,
        recipient_public_key: &GuardianPublicKey,
        xi: &BigNat,
    ) -> (r: Self)
        requires
            election_parameters.wf(),
            recipient_public_key.commitments().len() > 0,
            recipient_public_key.commitments()[0] < pow256(L_P as nat),
        ensures
            r@ == encrypted_share_of(
                h_p@,
                election_parameters.p(),
                election_parameters.q(),
                election_parameters.g(),
                dealer_private_key.i@,
                recipient_public_key.i@,
                dealer_private_key.coefficients(),
                recipient_public_key.commitments()[0],
                xi@,
            ),
    {
        let fixed_parameters = &election_parameters.fixed_parameters;
        let i = dealer_private_key.i.get_one_based_u32();
        let l = recipient_public_key.i.get_one_based_u32();
        let q = &fixed_parameters.q;
        let p = &fixed_parameters.p;
        let capital_k = recipient_public_key.public_key_k_i_0();

        let alpha = fixed_parameters.g.modpow(xi, p);
        let beta = capital_k.modpow(xi, p);

        let k_i_l = Self::secret_key(h_p, i, l, capital_k, &alpha, &beta);
        let (k0, k1) = Self::mac_and_encryption_key(i, l, &k_i_l);

        let p_l = evaluate_polynomial(
            &dealer_private_key.secret_coefficients,
            &BigNat::from_u32(l),
            q,
        );

        let c1 = mask_share(&p_l, &k1);
        let c2 = Self::share_mac(k0, alpha.to_be_bytes_left_pad(L_P).unwrap().as_slice(), &c1);

        GuardianEncryptedShare {
            dealer: dealer_private_key.i,
            recipient: recipient_public_key.i,
            c0: alpha,
            c1: BigNat::from_be_bytes(c1.as_slice()),
            c2,
        }
    }

    /// The share of the dealer's secret for the recipient, encrypted with a
    /// nonce drawn from `csprng`.
    pub fn new(
        csprng: &mut Csprng,
        election_parameters: &ElectionParameters,
        h_p: HValue,
        dealer_private_key: &GuardianSecretKey,
        recipient_public_key: &GuardianPublicKey,
    ) -> (r: Self)
        requires
            election_parameters.wf(),
            recipient_public_key.commitments().len() > 0,
            recipient_public_key.commitments()[0] < pow256(L_P as nat),
        ensures
            r@ == encrypted_share_of(
                h_p@,
                election_parameters.p(),
                election_parameters.q(),
                election_parameters.g(),
                dealer_private_key.i@,
                recipient_public_key.i@,
                dealer_private_key.coefficients(),
                recipient_public_key.commitments()[0],
                sample_below(old(csprng)@, election_parameters.q(), MAX_REJECTED_DRAWS as nat).0,
            ),
            final(csprng)@ == sample_below(
                old(csprng)@,
                election_parameters.q(),
                MAX_REJECTED_DRAWS as nat,
            ).1,
    {
        let xi = csprng.next_biguint_lt(&election_parameters.fixed_parameters.q);
        Self::encrypt(election_parameters, h_p, dealer_private_key, recipient_public_key, &xi)
    }

    /// Decrypts the share with the recipient's secret key, after checking
    /// that it is the share of this dealer for this recipient and that its
    /// authentication code verifies.
    pub fn decrypt_and_validate(
        &self,
        election_parameters: &ElectionParameters,
        h_p: HValue,
        dealer_public_key: &GuardianPublicKey,
        recipient_secret_key: &GuardianSecretKey,
    ) -> (r: Result<BigNat, EgError>)
        requires
            election_parameters.wf(),
            recipient_secret_key.wf(election_parameters),
        ensures
            is_outcome(
                r,
                decryption_of(
                    h_p@,
                    election_parameters.p(),
                    self@,
                    dealer_public_key.i@,
                    recipient_secret_key.i@,
                    recipient_secret_key.commitments()[0],
                    recipient_secret_key.coefficients()[0],
                ),
            ),
    {
        let i = self.dealer.get_one_based_u32();
        let l = self.recipient.get_one_based_u32();
        let dealer = dealer_public_key.i.get_one_based_u32();
        if i != dealer || l != recipient_secret_key.i.get_one_based_u32() {
            return Err(EgError::IndexMismatch { dealer });
        }
        let fixed_parameters = &election_parameters.fixed_parameters;
        let p = &fixed_parameters.p;
        proof {
            assert(recipient_secret_key.coefficients().len() == election_parameters.k());
            assert(recipient_secret_key.commitments().len()
                == recipient_secret_key.coefficients().len());
            assert(recipient_secret_key.commitments()[0] == mod_pow(
                election_parameters.g(),
                recipient_secret_key.coefficients()[0],
                election_parameters.p(),
            ));
        }
        let capital_k = &recipient_secret_key.coefficient_commitments[0];
        assert(capital_k@ == recipient_secret_key.commitments()[0]);

        let alpha = &self.c0;
        let alpha_bytes = match alpha.to_be_bytes_left_pad(L_P) {
            Some(bytes) => bytes,
            None => {
                return Err(EgError::SerializationError { dealer });
            },
        };
        let c1_bytes = match self.c1.to_be_bytes_left_pad(L_Q) {
            Some(bytes) => bytes,
            None => {
                return Err(EgError::SerializationError { dealer });
            },
        };
        let beta = alpha.modpow(recipient_secret_key.secret_s(), p);
        let k_i_l = Self::secret_key(h_p, i, l, capital_k, alpha, &beta);

        let (k0, k1) = Self::mac_and_encryption_key(i, l, &k_i_l);
        let mac = Self::share_mac(k0, alpha_bytes.as_slice(), c1_bytes.as_slice());

        open_share(c1_bytes.as_slice(), &k1, &mac, &self.c2, dealer)
    }
}

/// A guardian's share of the joint secret.
#[derive(Debug)]
pub struct GuardianSecretKeyShare {
    pub i: GuardianIndex,
    pub p_i: BigNat,
}

impl Clone for GuardianSecretKeyShare {
    fn clone(&self) -> (r: Self)
        ensures
            r.i@ == self.i@,
            r.p_i@ == self.p_i@,
    {
        GuardianSecretKeyShare { i: self.i, p_i: self.p_i.clone() }
    }
}

/// The sum of the numbers.
pub open spec fn sum(vs: Seq<nat>) -> nat
    decreases vs.len(),
{
    if vs.len() == 0 {
        0
    } else {
        sum(vs.drop_last()) + vs.last()
    }
}

/// What the recipient makes of the `j`-th encrypted share, taken to come
/// from the guardian with the `j`-th public key.
pub open spec fn decryption_at(
    election_parameters: &ElectionParameters,
    h_p: Seq<u8>,
    keys: Seq<GuardianPublicKey>,
    shares: Seq<GuardianEncryptedShare>,
    recipient: &GuardianSecretKey,
    j: int,
) -> Result<nat, EgError> {
    decryption_of(
        h_p,
        election_parameters.p(),
        shares[j]@,
        keys[j].i@,
        recipient.i@,
        recipient.commitments()[0],
        recipient.coefficients()[0],
    )
}

/// The share values that the recipient decrypts from the first `count`
/// encrypted shares.
pub open spec fn decrypted_values(
    election_parameters: &ElectionParameters,
    h_p: Seq<u8>,
    keys: Seq<GuardianPublicKey>,
    shares: Seq<GuardianEncryptedShare>,
    recipient: &GuardianSecretKey,
    count: nat,
) -> Seq<nat> {
    Seq::new(
        count,
        |j: int| decryption_at(election_parameters, h_p, keys, shares, recipient, j)->Ok_0,
    )
}

/// The values at `l`, modulo `q`, of the polynomials of these guardians.
pub open spec fn dealt_values(dealers: Seq<GuardianSecretKey>, l: nat, q: nat) -> Seq<nat> {
    Seq::new(dealers.len(), |j: int| share_value(dealers[j].coefficients(), l, q))
}

/// The number of public keys that have an encrypted share to go with them:
/// the public keys and the encrypted shares are paired off in their order,
/// as far as both lists go.
pub open spec fn pairs(keys: Seq<GuardianPublicKey>, shares: Seq<GuardianEncryptedShare>) -> nat {
    if keys.len() <= shares.len() {
        keys.len()
    } else {
        shares.len()
    }
}

impl GuardianSecretKeyShare {
    /// The recipient's share of the joint secret: the sum, modulo `q`, of
    /// the shares that the guardians dealt to it. The public keys must be
    /// valid and stand for each guardian of the election exactly once; the
    /// `j`-th encrypted share is taken to come from the guardian with the
    /// `j`-th public key. The first share that does not decrypt and
    /// validate fails the whole, with its reason.
    pub fn compute(
        election_parameters: &ElectionParameters,
        h_p: HValue,
        guardian_public_keys: &[GuardianPublicKey],
        encrypted_shares: &[GuardianEncryptedShare],
        recipient_secret_key: &GuardianSecretKey,
    ) -> (r: Result<Self, EgError>)
        requires
            election_parameters.wf(),
            recipient_secret_key.wf(election_parameters),
        ensures
            !represent_all(guardian_public_keys@, election_parameters) ==> r is Err
                && is_key_check_error(r->Err_0, guardian_public_keys@, election_parameters),
            represent_all(guardian_public_keys@, election_parameters) ==> {
                let count = pairs(guardian_public_keys@, encrypted_shares@);
                &&& r is Ok <==> forall|j: int|
                    0 <= j < count ==> decryption_at(
                        election_parameters,
                        h_p@,
                        guardian_public_keys@,
                        encrypted_shares@,
                        recipient_secret_key,
                        j,
                    ) is Ok
                &&& r is Ok ==> r->Ok_0.i@ == recipient_secret_key.i@ && r->Ok_0.p_i@ == sum(
                    decrypted_values(
                        election_parameters,
                        h_p@,
                        guardian_public_keys@,
                        encrypted_shares@,
                        recipient_secret_key,
                        count,
                    ),
                ) % election_parameters.q()
                &&& r is Err ==> exists|j: int|
                    is_first_failure(
                        election_parameters,
                        h_p@,
                        guardian_public_keys@,
                        encrypted_shares@,
                        recipient_secret_key,
                        j,
                        r->Err_0,
                    )
            },
    {
        match check_guardian_public_keys(election_parameters, guardian_public_keys) {
            Ok(()) => {},
            Err(e) => {
                return Err(e);
            },
        }
        let q = &election_parameters.fixed_parameters.q;
        let count = if guardian_public_keys.len() <= encrypted_shares.len() {
            guardian_public_keys.len()
        } else {
            encrypted_shares.len()
        };
        let mut key = BigNat::zero();
        let mut j: usize = 0;
        proof {
            lemma_small_mod(0, q@);
        }
        while j < count
            invariant
                election_parameters.wf(),
                recipient_secret_key.wf(election_parameters),
                q == &election_parameters.fixed_parameters.q,
                count == pairs(guardian_public_keys@, encrypted_shares@),
                represent_all(guardian_public_keys@, election_parameters),
                0 <= j <= count,
                forall|t: int|
                    0 <= t < j ==> decryption_at(
                        election_parameters,
                        h_p@,
                        guardian_public_keys@,
                        encrypted_shares@,
                        recipient_secret_key,
                        t,
                    ) is Ok,
                key@ == sum(
                    decrypted_values(
                        election_parameters,
                        h_p@,
                        guardian_public_keys@,
                        encrypted_shares@,
                        recipient_secret_key,
                        j as nat,
                    ),
                ) % q@,
            decreases count - j,
        {
            let ghost before = decrypted_values(
                election_parameters,
                h_p@,
                guardian_public_keys@,
                encrypted_shares@,
                recipient_secret_key,
                j as nat,
            );
            let share = &encrypted_shares[j];
            let pk = &guardian_public_keys[j];
            let decrypted = share.decrypt_and_validate(
                election_parameters,
                h_p,
                pk,
                recipient_secret_key,
            );
            let value = match decrypted {
                Ok(value) => value,
                Err(e) => {
                    let r: Result<Self, EgError> = Err(e);
                    assert(is_first_failure(
                        election_parameters,
                        h_p@,
                        guardian_public_keys@,
                        encrypted_shares@,
                        recipient_secret_key,
                        j as int,
                        r->Err_0,
                    ));
                    return r;
                },
            };
            key = key.add_mod(&value, q);
            proof {
                let after = decrypted_values(
                    election_parameters,
                    h_p@,
                    guardian_public_keys@,
                    encrypted_shares@,
                    recipient_secret_key,
                    (j + 1) as nat,
                );
                assert(after.drop_last() =~= before);
                assert(after.last() == value@);
                lemma_add_mod_noop(sum(before) as int, value@ as int, q@ as int);
                lemma_add_mod_noop_right((sum(before) % q@) as int, value@ as int, q@ as int);
            }
            j += 1;
        }
        Ok(GuardianSecretKeyShare { i: recipient_secret_key.i, p_i: key })
    }
}

/// The `j`-th encrypted share is the first that the recipient refuses, and
/// `e` is the reason.
pub open spec fn is_first_failure(
    election_parameters: &ElectionParameters,
    h_p: Seq<u8>,
    keys: Seq<GuardianPublicKey>,
    shares: Seq<GuardianEncryptedShare>,
    recipient: &GuardianSecretKey,
    j: int,
    e: EgError,
) -> bool {
    &&& 0 <= j < pairs(keys, shares)
    &&& forall|t: int|
        0 <= t < j ==> decryption_at(election_parameters, h_p, keys, shares, recipient, t) is Ok
    &&& decryption_at(election_parameters, h_p, keys, shares, recipient, j) == Err::<
        nat,
        EgError,
    >(e)
}

/// What a guardian encrypts to a recipient, the recipient decrypts: the share
/// that the dealer made for it with whatever nonce is accepted by the
/// recipient, who gets from it the value of the dealer's polynomial at its
/// own index, modulo `q`.
pub proof fn lemma_decrypt_of_encrypt(
    election_parameters: &ElectionParameters,
    h_p: Seq<u8>,
    dealer: &GuardianSecretKey,
    recipient: &GuardianSecretKey,
    xi: nat,
)
    requires
        election_parameters.wf(),
        recipient.wf(election_parameters),
    ensures
        decryption_of(
            h_p,
            election_parameters.p(),
            encrypted_share_of(
                h_p,
                election_parameters.p(),
                election_parameters.q(),
                election_parameters.g(),
                dealer.i@,
                recipient.i@,
                dealer.coefficients(),
                recipient.commitments()[0],
                xi,
            ),
            dealer.i@,
            recipient.i@,
            recipient.commitments()[0],
            recipient.coefficients()[0],
        ) == Ok::<nat, EgError>(
            share_value(dealer.coefficients(), recipient.i@, election_parameters.q()),
        ),
{
    let p = election_parameters.p();
    let q = election_parameters.q();
    let g = election_parameters.g();
    let i = dealer.i@;
    let l = recipient.i@;
    let s_l = recipient.coefficients()[0];
    let k_l = recipient.commitments()[0];
    assert(recipient.commitments().len() == recipient.coefficients().len());
    assert(k_l == mod_pow(g, s_l, p));
    let share = encrypted_share_of(h_p, p, q, g, i, l, dealer.coefficients(), k_l, xi);
    let alpha = mod_pow(g, xi, p);
    let beta = mod_pow(k_l, xi, p);
    let k_i_l = share_secret_key(h_p, i, l, k_l, alpha, beta);
    let k1 = share_encryption_key(k_i_l, i, l);
    let value = share_value(dealer.coefficients(), l, q);
    let plain = nat_to_be(value, L_Q as nat);
    let c1 = xor_seq(plain, k1);

    // The recipient's `beta` is the dealer's.
    lemma_mod_pow_commutes(g, xi, s_l, p);
    assert(mod_pow(alpha, s_l, p) == beta);
    // Both parts of the ciphertext fit, and `c1` is read back as written.
    lemma_mod_pow_bound(g, xi, p);
    assert(value < q) by (nonlinear_arith)
        requires
            q > 0,
            value == polynomial_value(dealer.coefficients(), l) % q,
    ;
    lemma_nat_to_be_value(value, L_Q as nat);
    assert(c1.len() == L_Q);
    lemma_be_to_nat_bound(c1);
    lemma_nat_to_be_of_be_to_nat(c1);
    assert(nat_to_be(share.c1, L_Q as nat) == c1);
    // Undoing the encryption gives the plain share.
    lemma_xor_seq_involution(plain, k1);
}

/// The shares that the guardians deal to the recipient are the values of
/// their polynomials at the recipient's index: where the `j`-th encrypted
/// share is what the `j`-th dealer made for the recipient, with whatever
/// nonce, and the `j`-th public key is that dealer's, each share decrypts,
/// and to that value.
pub proof fn lemma_dealt_shares_decrypt(
    election_parameters: &ElectionParameters,
    h_p: Seq<u8>,
    dealers: Seq<GuardianSecretKey>,
    nonces: Seq<nat>,
    keys: Seq<GuardianPublicKey>,
    shares: Seq<GuardianEncryptedShare>,
    recipient: &GuardianSecretKey,
)
    requires
        election_parameters.wf(),
        recipient.wf(election_parameters),
        dealers.len() == nonces.len() == keys.len() == shares.len(),
        forall|j: int| 0 <= j < dealers.len() ==> (#[trigger] keys[j]).i@ == dealers[j].i@,
        forall|j: int|
            0 <= j < dealers.len() ==> (#[trigger] shares[j])@ == encrypted_share_of(
                h_p,
                election_parameters.p(),
                election_parameters.q(),
                election_parameters.g(),
                dealers[j].i@,
                recipient.i@,
                dealers[j].coefficients(),
                recipient.commitments()[0],
                nonces[j],
            ),
    ensures
        decrypted_values(election_parameters, h_p, keys, shares, recipient, dealers.len())
            == dealt_values(dealers, recipient.i@, election_parameters.q()),
        forall|j: int|
            0 <= j < dealers.len() ==> decryption_at(
                election_parameters,
                h_p,
                keys,
                shares,
                recipient,
                j,
            ) is Ok,
{
    assert forall|j: int| 0 <= j < dealers.len() implies decryption_at(
        election_parameters,
        h_p,
        keys,
        shares,
        recipient,
        j,
    ) == Ok::<nat, EgError>(
        share_value(dealers[j].coefficients(), recipient.i@, election_parameters.q()),
    ) by {
        assert(keys[j].i@ == dealers[j].i@);
        assert(shares[j]@ == encrypted_share_of(
            h_p,
            election_parameters.p(),
            election_parameters.q(),
            election_parameters.g(),
            dealers[j].i@,
            recipient.i@,
            dealers[j].coefficients(),
            recipient.commitments()[0],
            nonces[j],
        ));
        lemma_decrypt_of_encrypt(election_parameters, h_p, &dealers[j], recipient, nonces[j]);
    }
    assert(decrypted_values(election_parameters, h_p, keys, shares, recipient, dealers.len())
        =~= dealt_values(dealers, recipient.i@, election_parameters.q()));
}

/// The sum of two polynomials of one length, coefficient by coefficient.
pub open spec fn polynomial_sum(a: Seq<nat>, b: Seq<nat>) -> Seq<nat> {
    Seq::new(a.len(), |t: int| a[t] + b[t])
}

/// The joint polynomial of these guardians: the sum of their secret
/// polynomials, each of `k` coefficients. Its constant coefficient is the sum
/// of the guardians' secrets.
pub open spec fn joint_polynomial(dealers: Seq<GuardianSecretKey>, k: nat) -> Seq<nat>
    decreases dealers.len(),
{
    if dealers.len() == 0 {
        Seq::new(k, |t: int| 0nat)
    } else {
        polynomial_sum(joint_polynomial(dealers.drop_last(), k), dealers.last().coefficients())
    }
}

/// The secrets `a_0` of these guardians, in their order.
pub open spec fn secrets_of(dealers: Seq<GuardianSecretKey>) -> Seq<nat> {
    Seq::new(dealers.len(), |j: int| dealers[j].coefficients()[0])
}

/// The value of a sum of polynomials is the sum of their values.
pub proof fn lemma_polynomial_sum_value(a: Seq<nat>, b: Seq<nat>, x: nat)
    requires
        a.len() == b.len(),
    ensures
        polynomial_value(polynomial_sum(a, b), x) == polynomial_value(a, x) + polynomial_value(
            b,
            x,
        ),
    decreases a.len(),
{
    if a.len() > 0 {
        let a1 = a.drop_first();
        let b1 = b.drop_first();
        assert(polynomial_sum(a, b).drop_first() =~= polynomial_sum(a1, b1));
        lemma_polynomial_sum_value(a1, b1, x);
        let va = polynomial_value(a1, x);
        let vb = polynomial_value(b1, x);
        assert(x * (va + vb) == x * va + x * vb) by (nonlinear_arith);
    }
}

/// The polynomial whose coefficients are all zero has the value zero.
proof fn lemma_zero_polynomial_value(k: nat, x: nat)
    ensures
        polynomial_value(Seq::new(k, |t: int| 0nat), x) == 0,
    decreases k,
{
    if k > 0 {
        let zeros = Seq::new(k, |t: int| 0nat);
        assert(zeros.drop_first() =~= Seq::new((k - 1) as nat, |t: int| 0nat));
        lemma_zero_polynomial_value((k - 1) as nat, x);
        assert(x * 0 == 0) by (nonlinear_arith);
    }
}

/// The sum of numbers taken modulo `q` is, modulo `q`, the sum of the
/// numbers.
proof fn lemma_sum_of_remainders(vs: Seq<nat>, q: nat)
    requires
        q > 0,
    ensures
        sum(Seq::new(vs.len(), |j: int| vs[j] % q)) % q == sum(vs) % q,
    decreases vs.len(),
{
    if vs.len() > 0 {
        let rs = Seq::new(vs.len(), |j: int| vs[j] % q);
        let front = vs.drop_last();
        assert(rs.drop_last() =~= Seq::new(front.len(), |j: int| front[j] % q));
        lemma_sum_of_remainders(front, q);
        let m = q as int;
        lemma_add_mod_noop(sum(rs.drop_last()) as int, rs.last() as int, m);
        lemma_add_mod_noop(sum(front) as int, vs.last() as int, m);
        lemma_mod_twice(vs.last() as int, m);
    }
}

/// The key shares of the guardians lie on their joint polynomial: the sum
/// of the shares that these guardians deal to guardian `l` is, modulo `q`,
/// the value of the joint polynomial at `l`; and the constant coefficient of
/// the joint polynomial, its value at zero, is the sum of the guardians'
/// secrets.
pub proof fn lemma_key_share_on_joint_polynomial(
    dealers: Seq<GuardianSecretKey>,
    k: nat,
    l: nat,
    q: nat,
)
    requires
        q > 0,
        k > 0,
        forall|j: int| 0 <= j < dealers.len() ==> (#[trigger] dealers[j]).coefficients().len() == k,
    ensures
        joint_polynomial(dealers, k).len() == k,
        sum(dealt_values(dealers, l, q)) % q == share_value(joint_polynomial(dealers, k), l, q),
        joint_polynomial(dealers, k)[0] == sum(secrets_of(dealers)),
        polynomial_value(joint_polynomial(dealers, k), 0) == sum(secrets_of(dealers)),
{
    let joint = joint_polynomial(dealers, k);
    let values = Seq::new(dealers.len(), |j: int| polynomial_value(dealers[j].coefficients(), l));
    lemma_joint_polynomial_value(dealers, k, l);
    lemma_joint_polynomial_value(dealers, k, 0);
    assert(dealt_values(dealers, l, q) =~= Seq::new(values.len(), |j: int| values[j] % q));
    lemma_sum_of_remainders(values, q);
    // At zero only the constant coefficient counts.
    let at_zero = Seq::new(dealers.len(), |j: int| polynomial_value(dealers[j].coefficients(), 0));
    assert(at_zero =~= secrets_of(dealers)) by {
        assert forall|j: int| 0 <= j < dealers.len() implies at_zero[j] == secrets_of(
            dealers,
        )[j] by {
            lemma_polynomial_value_at_zero(dealers[j].coefficients());
        }
    }
    lemma_polynomial_value_at_zero(joint);
}

/// The value at zero of a polynomial is its constant coefficient.
proof fn lemma_polynomial_value_at_zero(coefficients: Seq<nat>)
    requires
        coefficients.len() > 0,
    ensures
        polynomial_value(coefficients, 0) == coefficients[0],
{
    let rest = polynomial_value(coefficients.drop_first(), 0);
    assert(0 * rest == 0) by (nonlinear_arith);
}

/// The value of the joint polynomial is the sum of the values of the
/// guardians' polynomials.
proof fn lemma_joint_polynomial_value(dealers: Seq<GuardianSecretKey>, k: nat, x: nat)
    requires
        forall|j: int| 0 <= j < dealers.len() ==> (#[trigger] dealers[j]).coefficients().len() == k,
    ensures
        joint_polynomial(dealers, k).len() == k,
        polynomial_value(joint_polynomial(dealers, k), x) == sum(
            Seq::new(dealers.len(), |j: int| polynomial_value(dealers[j].coefficients(), x)),
        ),
    decreases dealers.len(),
{
    let values = Seq::new(dealers.len(), |j: int| polynomial_value(dealers[j].coefficients(), x));
    if dealers.len() == 0 {
        lemma_zero_polynomial_value(k, x);
    } else {
        let front = dealers.drop_last();
        assert forall|j: int| 0 <= j < front.len() implies (#[trigger] front[j]).coefficients().len()
            == k by {
            assert(front[j] == dealers[j]);
        }
        lemma_joint_polynomial_value(front, k, x);
        assert(dealers.last() == dealers[dealers.len() - 1]);
        lemma_polynomial_sum_value(joint_polynomial(front, k), dealers.last().coefficients(), x);
        assert(values.drop_last() =~= Seq::new(
            front.len(),
            |j: int| polynomial_value(front[j].coefficients(), x),
        ));
    }
}

/// A share that the recipient accepts is refused with any other
/// authentication code in the place of its own: the code does not verify.
pub proof fn lemma_other_mac_is_refused(
    h_p: Seq<u8>,
    p: nat,
    share: ShareModel,
    c2: Seq<u8>,
    dealer: nat,
    recipient: nat,
    k_l: nat,
    s_l: nat,
)
    requires
        decryption_of(h_p, p, share, dealer, recipient, k_l, s_l) is Ok,
        c2 != share.c2,
    ensures
        decryption_of(h_p, p, ShareModel { c2, ..share }, dealer, recipient, k_l, s_l) == Err::<
            nat,
            EgError,
        >(EgError::MacMismatch { dealer: dealer as u32 }),
{
}

/// `r` is the outcome `outcome`: the same number, or the same error.
pub open spec fn is_outcome(r: Result<BigNat, EgError>, outcome: Result<nat, EgError>) -> bool {
    match outcome {
        Ok(v) => r is Ok && r->Ok_0@ == v,
        Err(e) => r is Err && r->Err_0 == e,
    }
}

} // verus!
