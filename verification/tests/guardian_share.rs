use eg::bignat::BigNat;
use eg::csprng::Csprng;
use eg::errors::EgError;
use eg::guardian::{check_coefficients, GuardianIndex, GuardianPublicKey, GuardianSecretKey};
use eg::guardian_share::{
    evaluate_polynomial, kdf_input_bytes, mask_share, open_share, secret_key_input_bytes,
    GuardianEncryptedShare, GuardianSecretKeyShare,
};
use eg::hash::HValue;
use eg::parameters::{
    example_election_parameters, ElectionParameters, FixedParameters, VaryingParameters,
};
use num_bigint::{BigInt, BigUint, Sign};
use num_traits::{One, Zero};
use std::iter::zip;
use std::mem;

fn hex(bytes: &[u8]) -> String {
    let mut s = String::new();
    for b in bytes {
        s.push_str(&format!("{:02x}", b));
    }
    s
}

fn to_biguint(x: &BigNat) -> BigUint {
    BigUint::from_bytes_be(&x.to_be_bytes())
}

fn h_p() -> HValue {
    HValue([0x42; 32])
}

fn index(i: u32) -> GuardianIndex {
    GuardianIndex::from_one_based_index(i).unwrap()
}

fn nats(values: &[u32]) -> Vec<BigNat> {
    values.iter().map(|v| BigNat::from_u32(*v)).collect()
}

/// The subgroup of order 11 of the residues modulo 23, generated by 2; five
/// guardians, three of whom it takes.
fn toy_parameters() -> ElectionParameters {
    ElectionParameters {
        fixed_parameters: FixedParameters {
            p: BigNat::from_u32(23),
            q: BigNat::from_u32(11),
            g: BigNat::from_u32(2),
        },
        varying_parameters: VaryingParameters {
            n: 5,
            k: 3,
            date: "2023-05-02".to_string(),
            info: "toy".to_string(),
        },
    }
}

fn toy_secret_key(i: u32, coefficients: &[u32]) -> GuardianSecretKey {
    let mut csprng = Csprng::new(b"unused");
    GuardianSecretKey::generate(&mut csprng, &toy_parameters(), index(i), Some(nats(coefficients)))
}

fn toy_secret_keys() -> Vec<GuardianSecretKey> {
    vec![
        toy_secret_key(1, &[3, 5, 7]),
        toy_secret_key(2, &[4, 0, 10]),
        toy_secret_key(3, &[0, 1, 2]),
        toy_secret_key(4, &[10, 10, 10]),
        toy_secret_key(5, &[6, 2, 9]),
    ]
}

fn flip_lowest_bit(x: &BigNat, len: usize) -> BigNat {
    let mut bytes = x.to_be_bytes_left_pad(len).unwrap();
    bytes[len - 1] ^= 1;
    BigNat::from_be_bytes(&bytes)
}

#[test]
fn test_text_encoding() {
    assert_eq!("share_enc_keys".as_bytes().len(), 14);
    assert_eq!("share_encrypt".as_bytes().len(), 13);
}

#[test]
fn test_encryption_decryption() {
    let mut csprng = Csprng::new(b"test_proof_generation");

    let election_parameters = example_election_parameters();

    let index_one = GuardianIndex::from_one_based_index(1).unwrap();
    let index_two = GuardianIndex::from_one_based_index(2).unwrap();
    let sk_one = GuardianSecretKey::generate(&mut csprng, &election_parameters, index_one, None);
    let sk_two = GuardianSecretKey::generate(&mut csprng, &election_parameters, index_two, None);
    let pk_one = sk_one.make_public_key();
    let pk_two = sk_two.make_public_key();

    let encrypted_share =
        GuardianEncryptedShare::new(&mut csprng, &election_parameters, h_p(), &sk_one, &pk_two);

    let result =
        encrypted_share.decrypt_and_validate(&election_parameters, h_p(), &pk_one, &sk_two);

    assert!(result.is_ok(), "The decrypted share should be valid");
    let expected = evaluate_polynomial(
        &sk_one.secret_coefficients,
        &BigNat::from_u32(2),
        &election_parameters.fixed_parameters.q,
    );
    assert_eq!(result, Ok(expected));
}

fn mod_inverse(a_u: &BigUint, m_u: &BigUint) -> Option<BigUint> {
    if m_u.is_zero() {
        return None;
    }
    let m = BigInt::from_biguint(Sign::Plus, m_u.clone());
    let mut t = (BigInt::zero(), BigInt::one());
    let mut r = (m.clone(), BigInt::from_biguint(Sign::Plus, a_u.clone()));
    while !r.1.is_zero() {
        let q = r.0.clone() / r.1.clone();
        let f = |mut r: (BigInt, BigInt)| {
            mem::swap(&mut r.0, &mut r.1);
            r.1 = r.1 - q.clone() * r.0.clone();
            r
        };
        r = f(r);
        t = f(t);
    }
    if r.0.is_one() {
        if t.0 < BigInt::zero() {
            return Some((t.0 + m).magnitude().clone());
        }
        return Some(t.0.magnitude().clone());
    }

    None
}

#[test]
fn test_mod_inverse() {
    assert_eq!(
        mod_inverse(&BigUint::from(3_u8), &BigUint::from(11_u8)),
        Some(BigUint::from(4_u8)),
        "The inverse of 3 mod 11 should be 4."
    );
    assert_eq!(
        mod_inverse(&BigUint::from(0_u8), &BigUint::from(11_u8)),
        None,
        "The inverse of 0 mod 11 should not exist."
    );
    assert_eq!(
        mod_inverse(&BigUint::from(3_u8), &BigUint::from(12_u8)),
        None,
        "The inverse of 3 mod 12 should not exist."
    )
}

fn subtract_group_elem(a: &BigUint, b: &BigUint, q: &BigUint) -> BigUint {
    if a >= b {
        (a - b) % q
    } else {
        q - ((b - a) % q)
    }
}

fn lagrange_interpolation_at_zero(xs: &[BigUint], ys: &[BigUint], q: &BigUint) -> BigUint {
    // Lagrange coefficients
    let mut coeffs = vec![];
    for i in xs {
        let b_i = xs
            .iter()
            .filter(|&l| l != i)
            .map(|l| l * mod_inverse(&subtract_group_elem(l, i, q), q).unwrap())
            .fold(BigUint::one(), |mut acc, s| {
                acc *= s;
                acc % q
            });
        coeffs.push(b_i);
    }
    zip(coeffs, ys).map(|(c, y)| c * y % q).fold(BigUint::zero(), |mut acc, s| {
        acc += s;
        acc % q
    })
}

fn check_key_sharing(
    election_parameters: &ElectionParameters,
    guardian_secret_keys: &[GuardianSecretKey],
    csprng: &mut Csprng,
) {
    let fixed_parameters = &election_parameters.fixed_parameters;
    let q = to_biguint(&fixed_parameters.q);

    let guardian_public_keys =
        guardian_secret_keys.iter().map(|secret_key| secret_key.make_public_key()).collect::<Vec<_>>();

    // Compute secret key shares
    let share_vecs = guardian_public_keys
        .iter()
        .map(|pk| {
            guardian_secret_keys
                .iter()
                .map(|dealer_sk| {
                    GuardianEncryptedShare::new(csprng, election_parameters, h_p(), dealer_sk, pk)
                })
                .collect::<Vec<_>>()
        })
        .collect::<Vec<_>>();
    let key_shares = zip(guardian_secret_keys, share_vecs)
        .map(|(sk, shares)| {
            GuardianSecretKeyShare::compute(
                election_parameters,
                h_p(),
                &guardian_public_keys,
                &shares,
                sk,
            )
            .unwrap()
        })
        .collect::<Vec<_>>();

    // Compute joint secret key from secret keys
    let joint_key_1 = guardian_secret_keys.iter().fold(BigUint::from(0_u8), |mut acc, share| {
        acc += to_biguint(share.secret_s());
        acc % &q
    });

    // Compute joint secret key from shares
    let xs = guardian_public_keys
        .iter()
        .map(|pk| BigUint::from(pk.i.get_one_based_u32()))
        .collect::<Vec<_>>();
    let ys = key_shares.iter().map(|s| to_biguint(&s.p_i)).collect::<Vec<_>>();
    let joint_key_2 = lagrange_interpolation_at_zero(&xs, &ys, &q);

    assert_eq!(joint_key_1, joint_key_2, "Joint keys should match.");

    // Any three of the five shares give the joint secret as well.
    let joint_key_3 = lagrange_interpolation_at_zero(&xs[1..4], &ys[1..4], &q);
    assert_eq!(joint_key_1, joint_key_3);
}

#[test]
fn test_key_sharing() {
    let mut csprng = Csprng::new(b"test_proof_generation");

    let election_parameters = example_election_parameters();
    let varying_parameters = &election_parameters.varying_parameters;

    let guardian_secret_keys = (1..=varying_parameters.n)
        .map(|i| GuardianSecretKey::generate(&mut csprng, &election_parameters, index(i), None))
        .collect::<Vec<_>>();

    check_key_sharing(&election_parameters, &guardian_secret_keys, &mut csprng);
}

#[test]
fn key_sharing_in_a_small_group() {
    let mut csprng = Csprng::new(b"small group");
    check_key_sharing(&toy_parameters(), &toy_secret_keys(), &mut csprng);
    let generated = (1..=5)
        .map(|i| GuardianSecretKey::generate(&mut csprng, &toy_parameters(), index(i), None))
        .collect::<Vec<_>>();
    check_key_sharing(&toy_parameters(), &generated, &mut csprng);
}

#[test]
fn guardian_index_is_one_based() {
    assert_eq!(GuardianIndex::from_one_based_index(0), Err(EgError::InvalidParameter));
    assert_eq!(GuardianIndex::from_one_based_index(0x8000_0000), Err(EgError::InvalidParameter));
    let i = GuardianIndex::from_one_based_index(0x7fff_ffff).unwrap();
    assert_eq!(i.get_one_based_u32(), 0x7fff_ffff);
    let i = index(1);
    assert_eq!(i.get_one_based_u32(), 1);
    assert_eq!(i.get_one_based_usize(), 1);
    assert_eq!(i.get_zero_based_usize(), 0);
    assert_eq!(index(7).get_zero_based_usize(), 6);
}

#[test]
fn secret_key_commits_to_its_coefficients() {
    let sk = toy_secret_key(2, &[4, 0, 10]);
    assert_eq!(sk.i, index(2));
    assert_eq!(sk.secret_coefficients, nats(&[4, 0, 10]));
    // 2^4 = 16, 2^0 = 1, 2^10 = 1024 = 44 * 23 + 12
    assert_eq!(sk.coefficient_commitments, nats(&[16, 1, 12]));
    assert_eq!(sk.secret_s(), &BigNat::from_u32(4));
    let pk = sk.make_public_key();
    assert_eq!(pk.i, index(2));
    assert_eq!(pk.coefficient_commitments, nats(&[16, 1, 12]));
    assert_eq!(pk.public_key_k_i_0(), &BigNat::from_u32(16));
    assert_eq!(pk.validate(&toy_parameters()), Ok(()));
}

#[test]
fn generated_secret_key_is_drawn_from_the_generator() {
    let parameters = toy_parameters();
    let mut csprng = Csprng::new(b"seed");
    let sk = GuardianSecretKey::generate(&mut csprng, &parameters, index(1), None);
    assert_eq!(sk.secret_coefficients, nats(&[7, 7, 8]));
    assert_eq!(sk.coefficient_commitments, nats(&[13, 13, 3]));
    let next = GuardianSecretKey::generate(&mut csprng, &parameters, index(2), None);
    assert_eq!(next.secret_coefficients, nats(&[8, 2, 5]));

    let parameters = example_election_parameters();
    let mut a = Csprng::new(b"test_proof_generation");
    let mut b = Csprng::new(b"test_proof_generation");
    let sk_a = GuardianSecretKey::generate(&mut a, &parameters, index(1), None);
    let sk_b = GuardianSecretKey::generate(&mut b, &parameters, index(1), None);
    assert_eq!(sk_a.secret_coefficients, sk_b.secret_coefficients);
    assert_eq!(sk_a.secret_coefficients.len(), 3);
    for (a_j, commitment) in zip(&sk_a.secret_coefficients, &sk_a.coefficient_commitments) {
        assert!(parameters.fixed_parameters.is_valid_modq(a_j));
        assert_eq!(
            commitment,
            &parameters.fixed_parameters.g.modpow(a_j, &parameters.fixed_parameters.p)
        );
    }
    assert_eq!(sk_a.make_public_key().validate(&parameters), Ok(()));
}

#[test]
fn coefficients_are_checked() {
    let parameters = toy_parameters();
    assert_eq!(check_coefficients(&parameters, &nats(&[0, 10, 5])), Ok(()));
    assert_eq!(check_coefficients(&parameters, &nats(&[0, 11, 5])), Err(EgError::InvalidParameter));
    assert_eq!(check_coefficients(&parameters, &nats(&[0, 10])), Err(EgError::InvalidParameter));
    assert_eq!(
        check_coefficients(&parameters, &nats(&[0, 10, 5, 1])),
        Err(EgError::InvalidParameter)
    );
}

#[test]
fn public_key_out_of_order_is_refused() {
    let parameters = toy_parameters();
    let valid = || toy_secret_key(2, &[4, 0, 10]).make_public_key();
    assert_eq!(valid().validate(&parameters), Ok(()));
    // An index beyond the number of guardians.
    let pk = GuardianPublicKey { i: index(6), ..valid() };
    assert_eq!(pk.validate(&parameters), Err(EgError::InvalidParameter));
    // A commitment that is no residue modulo p.
    let mut pk = valid();
    pk.coefficient_commitments[1] = BigNat::from_u32(23 + 16);
    assert_eq!(pk.validate(&parameters), Err(EgError::InvalidParameter));
    // A residue outside the subgroup of order q: 5^11 = 22 (mod 23).
    let mut pk = valid();
    pk.coefficient_commitments[2] = BigNat::from_u32(5);
    assert_eq!(pk.validate(&parameters), Err(EgError::InvalidParameter));
    let mut pk = valid();
    pk.coefficient_commitments[0] = BigNat::zero();
    assert_eq!(pk.validate(&parameters), Err(EgError::InvalidParameter));
    // Not as many commitments as the threshold.
    let mut pk = valid();
    pk.coefficient_commitments.pop();
    assert_eq!(pk.validate(&parameters), Err(EgError::InvalidParameter));
}

#[test]
fn polynomial_is_evaluated_modulo_q() {
    let q = BigNat::from_u32(11);
    // 3 + 5 * 2 + 7 * 4 = 41 = 3 * 11 + 8
    assert_eq!(evaluate_polynomial(&nats(&[3, 5, 7]), &BigNat::from_u32(2), &q), BigNat::from_u32(8));
    assert_eq!(evaluate_polynomial(&nats(&[3, 5, 7]), &BigNat::zero(), &q), BigNat::from_u32(3));
    assert_eq!(evaluate_polynomial(&nats(&[]), &BigNat::from_u32(2), &q), BigNat::zero());
    // 10 + 10 * 5 + 10 * 25 = 310 = 28 * 11 + 2
    assert_eq!(
        evaluate_polynomial(&nats(&[10, 10, 10]), &BigNat::from_u32(5), &q),
        BigNat::from_u32(2)
    );
}

#[test]
fn share_keys_have_their_known_values() {
    let k_i_l = GuardianEncryptedShare::secret_key(
        h_p(),
        1,
        2,
        &BigNat::from_u32(8),
        &BigNat::from_u32(4),
        &BigNat::from_u32(16),
    );
    assert_eq!(hex(&k_i_l.0), "dbc2c289fbfe59539e5561730dbfb9752054113ae9cade91b0dcf87a53a5b957");
    let (k0, k1) = GuardianEncryptedShare::mac_and_encryption_key(1, 2, &k_i_l);
    assert_eq!(hex(&k0.0), "41214bf188588e37806894c29899361c431cb2b3846bd51d2c32ef238e57072e");
    assert_eq!(hex(&k1.0), "efe6279574ab9cf63dd4e8fad7a89cf77451cb19a869e2826b075196f0be2415");
    let mac = GuardianEncryptedShare::share_mac(k0, b"ab", b"cd");
    assert_eq!(hex(&mac.0), "a0a2e78a5988ac05f05fa69959ae40123998c883adc6a6504dd5be1e2ec01319");
    assert_eq!(GuardianEncryptedShare::hmac(&k0, b"abcd"), mac);
    // The keys depend on who deals to whom.
    let (other_k0, other_k1) = GuardianEncryptedShare::mac_and_encryption_key(2, 1, &k_i_l);
    assert_ne!(other_k0, k0);
    assert_ne!(other_k1, k1);
}

#[test]
fn encrypted_share_has_its_known_bytes() {
    let parameters = toy_parameters();
    let dealer = toy_secret_key(1, &[3, 5, 7]);
    let recipient = toy_secret_key(2, &[4, 0, 10]);
    let share = GuardianEncryptedShare::encrypt(
        &parameters,
        h_p(),
        &dealer,
        &recipient.make_public_key(),
        &BigNat::from_u32(6),
    );
    assert_eq!(share.dealer, index(1));
    assert_eq!(share.recipient, index(2));
    // alpha = 2^6 mod 23
    assert_eq!(share.c0, BigNat::from_u32(18));
    assert_eq!(
        hex(&share.c1.to_be_bytes()),
        "b50e272cbd275bcc7dcdc9ea7c60f939c47335374afe684055ca3c7dd3c8252e"
    );
    assert_eq!(hex(&share.c2.0), "32a6c4f8e046bc5ff8616c94f8e41758434d0a376ddcaea20b30f6d0124daa2a");
    let decrypted =
        share.decrypt_and_validate(&parameters, h_p(), &dealer.make_public_key(), &recipient);
    assert_eq!(decrypted, Ok(BigNat::from_u32(8)));
}

#[test]
fn every_share_decrypts_to_the_value_of_the_polynomial() {
    let parameters = toy_parameters();
    let keys = toy_secret_keys();
    let mut csprng = Csprng::new(b"shares");
    for dealer in &keys {
        for recipient in &keys {
            let share = GuardianEncryptedShare::new(
                &mut csprng,
                &parameters,
                h_p(),
                dealer,
                &recipient.make_public_key(),
            );
            let expected = evaluate_polynomial(
                &dealer.secret_coefficients,
                &BigNat::from_u32(recipient.i.get_one_based_u32()),
                &parameters.fixed_parameters.q,
            );
            assert_eq!(
                share.decrypt_and_validate(
                    &parameters,
                    h_p(),
                    &dealer.make_public_key(),
                    recipient
                ),
                Ok(expected)
            );
        }
    }
}

#[test]
fn share_with_a_flipped_bit_is_refused() {
    let election_parameters = example_election_parameters();
    let mut csprng = Csprng::new(b"test_proof_generation");
    let sk_one = GuardianSecretKey::generate(&mut csprng, &election_parameters, index(1), None);
    let sk_two = GuardianSecretKey::generate(&mut csprng, &election_parameters, index(2), None);
    let pk_one = sk_one.make_public_key();
    let share = GuardianEncryptedShare::new(
        &mut csprng,
        &election_parameters,
        h_p(),
        &sk_one,
        &sk_two.make_public_key(),
    );
    assert!(share.decrypt_and_validate(&election_parameters, h_p(), &pk_one, &sk_two).is_ok());
    let refused = Err(EgError::MacMismatch { dealer: 1 });

    let mut flipped = share.clone();
    flipped.c1 = flip_lowest_bit(&share.c1, 32);
    assert_eq!(
        flipped.decrypt_and_validate(&election_parameters, h_p(), &pk_one, &sk_two),
        refused
    );

    let mut flipped = share.clone();
    flipped.c0 = flip_lowest_bit(&share.c0, 512);
    assert_eq!(
        flipped.decrypt_and_validate(&election_parameters, h_p(), &pk_one, &sk_two),
        refused
    );

    let mut flipped = share.clone();
    flipped.c2.0[0] ^= 0x80;
    assert_eq!(
        flipped.decrypt_and_validate(&election_parameters, h_p(), &pk_one, &sk_two),
        refused
    );

    // Another parameter base hash, another key.
    assert_eq!(
        share.decrypt_and_validate(&election_parameters, HValue([0x43; 32]), &pk_one, &sk_two),
        refused
    );
}

#[test]
fn share_for_another_guardian_is_refused() {
    let parameters = toy_parameters();
    let keys = toy_secret_keys();
    let share = GuardianEncryptedShare::encrypt(
        &parameters,
        h_p(),
        &keys[0],
        &keys[1].make_public_key(),
        &BigNat::from_u32(6),
    );
    // The public key of a guardian who is not the dealer.
    assert_eq!(
        share.decrypt_and_validate(&parameters, h_p(), &keys[2].make_public_key(), &keys[1]),
        Err(EgError::IndexMismatch { dealer: 3 })
    );
    // The secret key of a guardian who is not the recipient.
    assert_eq!(
        share.decrypt_and_validate(&parameters, h_p(), &keys[0].make_public_key(), &keys[2]),
        Err(EgError::IndexMismatch { dealer: 1 })
    );
}

#[test]
fn share_that_does_not_fit_is_refused() {
    let parameters = toy_parameters();
    let keys = toy_secret_keys();
    let share = GuardianEncryptedShare::encrypt(
        &parameters,
        h_p(),
        &keys[0],
        &keys[1].make_public_key(),
        &BigNat::from_u32(6),
    );
    let pk = keys[0].make_public_key();
    let mut too_long = vec![0u8; 33];
    too_long[0] = 1;
    let mut oversized = share.clone();
    oversized.c1 = BigNat::from_be_bytes(&too_long);
    assert_eq!(
        oversized.decrypt_and_validate(&parameters, h_p(), &pk, &keys[1]),
        Err(EgError::SerializationError { dealer: 1 })
    );
    let mut too_long = vec![0u8; 513];
    too_long[0] = 1;
    let mut oversized = share.clone();
    oversized.c0 = BigNat::from_be_bytes(&too_long);
    assert_eq!(
        oversized.decrypt_and_validate(&parameters, h_p(), &pk, &keys[1]),
        Err(EgError::SerializationError { dealer: 1 })
    );
}

fn toy_shares_for(recipient: &GuardianSecretKey) -> Vec<GuardianEncryptedShare> {
    let mut csprng = Csprng::new(b"dealing");
    toy_secret_keys()
        .iter()
        .map(|dealer| {
            GuardianEncryptedShare::new(
                &mut csprng,
                &toy_parameters(),
                h_p(),
                dealer,
                &recipient.make_public_key(),
            )
        })
        .collect()
}

#[test]
fn key_share_is_the_sum_of_the_shares() {
    let parameters = toy_parameters();
    let keys = toy_secret_keys();
    let public_keys: Vec<GuardianPublicKey> = keys.iter().map(|k| k.make_public_key()).collect();
    let recipient = &keys[1];
    let shares = toy_shares_for(recipient);
    let key_share =
        GuardianSecretKeyShare::compute(&parameters, h_p(), &public_keys, &shares, recipient)
            .unwrap();
    assert_eq!(key_share.i, index(2));
    // The polynomials at 2: 8, 0, 10, 4, 2; their sum is 24 = 2 * 11 + 2.
    assert_eq!(key_share.p_i, BigNat::from_u32(2));
    // It is the value at 2 of the sum of the polynomials, 23 + 18 x + 38 x^2.
    let joint = evaluate_polynomial(
        &nats(&[23, 18, 38]),
        &BigNat::from_u32(2),
        &parameters.fixed_parameters.q,
    );
    assert_eq!(key_share.p_i, joint);
}

#[test]
fn key_share_fails_with_the_first_share_that_fails() {
    let parameters = toy_parameters();
    let keys = toy_secret_keys();
    let public_keys: Vec<GuardianPublicKey> = keys.iter().map(|k| k.make_public_key()).collect();
    let recipient = &keys[1];

    let mut shares = toy_shares_for(recipient);
    shares[3].c1 = flip_lowest_bit(&shares[3].c1, 32);
    shares[4].c1 = flip_lowest_bit(&shares[4].c1, 32);
    let r = GuardianSecretKeyShare::compute(&parameters, h_p(), &public_keys, &shares, recipient);
    assert_eq!(r.err(), Some(EgError::MacMismatch { dealer: 4 }));

    // The shares in another order than the public keys.
    let mut shares = toy_shares_for(recipient);
    shares.swap(0, 2);
    let r = GuardianSecretKeyShare::compute(&parameters, h_p(), &public_keys, &shares, recipient);
    assert_eq!(r.err(), Some(EgError::IndexMismatch { dealer: 1 }));
}

#[test]
fn key_share_needs_the_public_keys_of_all_guardians() {
    let parameters = toy_parameters();
    let keys = toy_secret_keys();
    let recipient = &keys[1];
    let shares = toy_shares_for(recipient);

    let mut public_keys: Vec<GuardianPublicKey> = keys.iter().map(|k| k.make_public_key()).collect();
    public_keys.remove(2);
    let r = GuardianSecretKeyShare::compute(&parameters, h_p(), &public_keys, &shares, recipient);
    assert_eq!(r.err(), Some(EgError::CoverageError { duplicates: vec![], missing: vec![3] }));

    let mut public_keys: Vec<GuardianPublicKey> = keys.iter().map(|k| k.make_public_key()).collect();
    public_keys.push(keys[0].make_public_key());
    let r = GuardianSecretKeyShare::compute(&parameters, h_p(), &public_keys, &shares, recipient);
    assert_eq!(r.err(), Some(EgError::CoverageError { duplicates: vec![1], missing: vec![] }));

    let mut public_keys: Vec<GuardianPublicKey> = keys.iter().map(|k| k.make_public_key()).collect();
    public_keys[4].coefficient_commitments[0] = BigNat::from_u32(5);
    let r = GuardianSecretKeyShare::compute(&parameters, h_p(), &public_keys, &shares, recipient);
    assert_eq!(r.err(), Some(EgError::InvalidParameter));
}

#[test]
fn secret_key_is_checked_against_the_parameters() {
    let parameters = toy_parameters();
    let valid = || toy_secret_key(2, &[4, 0, 10]);
    assert_eq!(valid().validate(&parameters), Ok(()));
    let sk = GuardianSecretKey { i: index(6), ..valid() };
    assert_eq!(sk.validate(&parameters), Err(EgError::InvalidParameter));
    // A coefficient that is no scalar modulo q.
    let mut sk = valid();
    sk.secret_coefficients[1] = BigNat::from_u32(11);
    assert_eq!(sk.validate(&parameters), Err(EgError::InvalidParameter));
    // A commitment to another coefficient.
    let mut sk = valid();
    sk.coefficient_commitments[2] = BigNat::from_u32(13);
    assert_eq!(sk.validate(&parameters), Err(EgError::InvalidParameter));
    let mut sk = valid();
    sk.coefficient_commitments.pop();
    assert_eq!(sk.validate(&parameters), Err(EgError::InvalidParameter));
    let mut sk = valid();
    sk.secret_coefficients.pop();
    sk.coefficient_commitments.pop();
    assert_eq!(sk.validate(&parameters), Err(EgError::InvalidParameter));
    let copy = valid().clone();
    assert_eq!(copy.secret_coefficients, valid().secret_coefficients);
    assert_eq!(copy.validate(&parameters), Ok(()));
}

#[test]
fn hashed_bytes_are_laid_out_as_the_protocol_has_them() {
    let mut expected = vec![0x01];
    expected.extend_from_slice(b"share_enc_keys");
    expected.push(0x00);
    expected.extend_from_slice(b"share_encrypt");
    expected.extend_from_slice(&[0, 0, 0, 1, 0, 0, 0, 2]);
    expected.extend_from_slice(&[0x02, 0x00]);
    assert_eq!(kdf_input_bytes(0x01, 1, 2), expected);
    expected[0] = 0x02;
    assert_eq!(kdf_input_bytes(0x02, 1, 2), expected);
    assert_eq!(kdf_input_bytes(0x02, 1, 2).len(), 1 + 14 + 1 + 13 + 4 + 4 + 2);
    let far = kdf_input_bytes(0x01, 0x0102_0304, 0x7fff_ffff);
    assert_eq!(&far[29..37], &[1, 2, 3, 4, 0x7f, 0xff, 0xff, 0xff]);

    let v = secret_key_input_bytes(
        0x0102_0304,
        5,
        &BigNat::from_u32(0x0a0b),
        &BigNat::from_u32(0x0c),
        &BigNat::zero(),
    );
    assert_eq!(v.len(), 1 + 4 + 4 + 3 * 512);
    assert_eq!(&v[..9], &[0x11, 1, 2, 3, 4, 0, 0, 0, 5]);
    assert!(v[9..519].iter().all(|b| *b == 0));
    assert_eq!(&v[519..521], &[0x0a, 0x0b]);
    assert!(v[521..1032].iter().all(|b| *b == 0));
    assert_eq!(v[1032], 0x0c);
    assert!(v[1033..].iter().all(|b| *b == 0));
}

#[test]
fn share_is_masked_and_opened_with_the_keys() {
    let mut key = [0u8; 32];
    for (i, b) in key.iter_mut().enumerate() {
        *b = 0xf0 ^ (i as u8);
    }
    let k1 = HValue(key);
    let c1 = mask_share(&BigNat::from_u32(0x0102), &k1);
    let mut expected = key.to_vec();
    expected[30] ^= 0x01;
    expected[31] ^= 0x02;
    assert_eq!(c1, expected);

    let mac = HValue([5; 32]);
    assert_eq!(open_share(&c1, &k1, &mac, &mac, 4), Ok(BigNat::from_u32(0x0102)));
    let mut other = [5u8; 32];
    other[17] = 4;
    assert_eq!(
        open_share(&c1, &k1, &mac, &HValue(other), 4),
        Err(EgError::MacMismatch { dealer: 4 })
    );
    // What is opened with another key is another number.
    assert_eq!(
        open_share(&c1, &HValue([0; 32]), &mac, &mac, 4),
        Ok(BigNat::from_be_bytes(&expected))
    );
}
