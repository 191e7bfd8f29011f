use eg::bignat::{biguint_to_be_bytes_left_pad, BigNat};
use eg::coverage::check_coverage;
use eg::csprng::{accept_draw, Csprng};
use eg::encoding::{left_pad, strip_leading_zeros, u32_to_be_bytes, xor};
use eg::errors::EgError;
use eg::hash::{eg_h, HValue};
use eg::hex::{from_hex, to_hex};
use eg::parameters::{
    example_election_parameters, ElectionParameters, FixedParameters, VaryingParameters, L_P, L_Q,
};
use eg::standard_parameters::standard_parameters;

fn hex(bytes: &[u8]) -> String {
    let mut s = String::new();
    for b in bytes {
        s.push_str(&format!("{:02x}", b));
    }
    s
}

fn toy_fixed_parameters() -> FixedParameters {
    FixedParameters { p: BigNat::from_u32(23), q: BigNat::from_u32(11), g: BigNat::from_u32(2) }
}

#[test]
fn big_endian_bytes_round_trip() {
    let x = BigNat::from_be_bytes(&[0, 0, 0x12, 0x34, 0x56]);
    assert_eq!(x.to_be_bytes(), vec![0x12, 0x34, 0x56]);
    assert_eq!(x, BigNat::from_u32(0x123456));
    let padded = x.to_be_bytes_left_pad(8).unwrap();
    assert_eq!(padded, vec![0, 0, 0, 0, 0, 0x12, 0x34, 0x56]);
    assert_eq!(BigNat::from_be_bytes(&padded), x);
    assert_eq!(x.to_be_bytes_left_pad(3).unwrap(), vec![0x12, 0x34, 0x56]);
    assert_eq!(x.to_be_bytes_left_pad(2), None);
    assert_eq!(x.byte_len(), 3);
}

#[test]
fn zero_has_no_bytes_and_pads_to_zeros() {
    let zero = BigNat::zero();
    assert!(zero.is_zero());
    assert_eq!(zero.to_be_bytes(), Vec::<u8>::new());
    assert_eq!(zero.byte_len(), 0);
    assert_eq!(zero.to_be_bytes_left_pad(0), Some(vec![]));
    assert_eq!(zero.to_be_bytes_left_pad(4), Some(vec![0, 0, 0, 0]));
    assert_eq!(BigNat::from_be_bytes(&[0, 0, 0]), zero);
    assert!(!BigNat::one().is_zero());
    assert_eq!(BigNat::one().to_be_bytes_left_pad(0), None);
}

#[test]
fn byte_string_helpers() {
    assert_eq!(u32_to_be_bytes(0x0102_0304), [1, 2, 3, 4]);
    assert_eq!(u32_to_be_bytes(5), [0, 0, 0, 5]);
    assert_eq!(u32_to_be_bytes(u32::MAX), [0xff, 0xff, 0xff, 0xff]);
    assert_eq!(strip_leading_zeros(&[0, 0, 7, 0]), vec![7, 0]);
    assert_eq!(strip_leading_zeros(&[0, 0]), Vec::<u8>::new());
    assert_eq!(left_pad(&[7, 0], 4), Some(vec![0, 0, 7, 0]));
    assert_eq!(left_pad(&[7, 0], 1), None);
    assert_eq!(xor(&[0xf0, 0x0f, 0xaa], &[0xff, 0xff, 0xaa]), vec![0x0f, 0xf0, 0x00]);
    let a = [1u8, 2, 3, 250];
    let k = [9u8, 8, 7, 6];
    assert_eq!(xor(&xor(&a, &k), &k), a.to_vec());
}

#[test]
fn integers_become_numbers() {
    assert_eq!(BigNat::from_u32(0), BigNat::zero());
    assert_eq!(BigNat::from_u64(1), BigNat::one());
    assert_eq!(BigNat::from_u64(0x0102_0304_0506_0708).to_be_bytes(), vec![1, 2, 3, 4, 5, 6, 7, 8]);
    assert_eq!(BigNat::from_u64(u64::MAX).to_be_bytes(), vec![0xff; 8]);
    assert_eq!(BigNat::from_u64(0x1_0000_0000).to_be_bytes(), vec![1, 0, 0, 0, 0]);
}

#[test]
fn arithmetic_on_numbers() {
    let a = BigNat::from_u64(0xffff_ffff_ffff_ffff);
    let b = BigNat::from_u32(2);
    assert_eq!(a.add(&b).to_be_bytes(), vec![1, 0, 0, 0, 0, 0, 0, 0, 1]);
    assert_eq!(a.mul(&b).to_be_bytes(), vec![1, 0xff, 0xff, 0xff, 0xff, 0xff, 0xff, 0xff, 0xfe]);
    assert_eq!(a.rem(&BigNat::from_u32(10)), BigNat::from_u32(5));
    assert_eq!(BigNat::from_u32(7).rem(&BigNat::from_u32(7)), BigNat::zero());
    assert!(b.lt(&a));
    assert!(!a.lt(&b));
    assert!(!a.lt(&a));
    assert!(a.equals(&a.clone()));
    assert!(!a.equals(&b));
}

#[test]
fn modpow_exact_values() {
    let r = BigNat::from_u32(4).modpow(&BigNat::from_u32(13), &BigNat::from_u32(497));
    assert_eq!(r, BigNat::from_u32(445));
    let p = BigNat::from_u32(23);
    assert_eq!(BigNat::from_u32(2).modpow(&BigNat::from_u32(11), &p), BigNat::one());
    assert_eq!(BigNat::from_u32(2).modpow(&BigNat::zero(), &p), BigNat::one());
    assert_eq!(BigNat::from_u32(30).modpow(&BigNat::one(), &p), BigNat::from_u32(7));
    assert_eq!(BigNat::zero().modpow(&BigNat::from_u32(5), &p), BigNat::zero());
    // An even modulus takes another path through the outside crate.
    assert_eq!(
        BigNat::from_u32(3).modpow(&BigNat::from_u32(5), &BigNat::from_u32(10)),
        BigNat::from_u32(3)
    );
}

#[test]
fn keyed_hash_is_hmac_sha256() {
    let mut key = [0u8; 32];
    for (i, b) in key.iter_mut().enumerate() {
        *b = i as u8;
    }
    let h = eg_h(&HValue(key), b"abc");
    assert_eq!(hex(&h.0), "f0133729c4163dede81e21cd47839256da58171238c8a0d874397c73b14e1e47");
    let h = eg_h(&HValue([0u8; 32]), b"");
    assert_eq!(hex(&h.0), "b613679a0814d9ec772f95d778c35fc5ff1697c493715653c6c712144292c5ad");
}

#[test]
fn hash_values_compare_by_all_their_bytes() {
    let a = HValue([7u8; 32]);
    let mut other = [7u8; 32];
    assert!(a.equals(&HValue(other)));
    other[31] ^= 1;
    assert!(!a.equals(&HValue(other)));
    other[31] ^= 1;
    other[0] ^= 0x80;
    assert!(!a.equals(&HValue(other)));
}

#[test]
fn generator_is_deterministic() {
    let mut a = Csprng::new(b"test_proof_generation");
    let mut b = Csprng::new(b"test_proof_generation");
    assert_eq!(hex(&a.next_bytes(16)), "ee762ffb4e95ac044db111fd11dfc3c8");
    assert_eq!(b.next_bytes(16), {
        let mut c = Csprng::new(b"test_proof_generation");
        c.next_bytes(16)
    });
    assert_eq!(a.next_bytes(32), b.next_bytes(32));
    let mut other = Csprng::new(b"another seed");
    assert_ne!(hex(&other.next_bytes(16)), "ee762ffb4e95ac044db111fd11dfc3c8");
    assert_eq!(a.next_bytes(0), Vec::<u8>::new());
}

#[test]
fn generator_samples_below_the_bound() {
    let mut csprng = Csprng::new(b"seed");
    let eleven = BigNat::from_u32(11);
    let drawn: Vec<BigNat> = (0..6).map(|_| csprng.next_biguint_lt(&eleven)).collect();
    let expected: Vec<BigNat> = [7u32, 7, 8, 8, 2, 5].iter().map(|v| BigNat::from_u32(*v)).collect();
    assert_eq!(drawn, expected);

    let q = standard_parameters().q;
    let mut csprng = Csprng::new(b"seed");
    let x = csprng.next_biguint_lt(&q);
    assert_eq!(
        hex(&x.to_be_bytes()),
        "b4cb84d42892ba35730b1bac99c2dfd0db90a5f0480d4ed5977bf4757d16fcde"
    );
    let one = BigNat::one();
    for _ in 0..5 {
        assert_eq!(csprng.next_biguint_lt(&one), BigNat::zero());
    }
}

#[test]
fn standard_parameters_are_valid() {
    let fixed = standard_parameters();
    assert_eq!(fixed.validate(), Ok(()));
    assert_eq!(fixed.p.byte_len(), L_P);
    assert_eq!(fixed.q.byte_len(), L_Q);
    // q = 2^256 - 189
    let q_plus_189 = fixed.q.add(&BigNat::from_u32(189));
    let mut two_to_256 = vec![0u8; 33];
    two_to_256[0] = 1;
    assert_eq!(q_plus_189, BigNat::from_be_bytes(&two_to_256));
    // q divides p - 1
    let p_minus_1 = {
        let mut bytes = fixed.p.to_be_bytes();
        assert_eq!(bytes[511], 0xff);
        bytes[511] = 0xfe;
        BigNat::from_be_bytes(&bytes)
    };
    assert!(p_minus_1.rem(&fixed.q).is_zero());
    // The 256 highest and the 256 lowest bits of p are ones; between them
    // stand the leading bits of ln 2.
    let p_bytes = fixed.p.to_be_bytes();
    assert!(p_bytes[..32].iter().all(|b| *b == 0xff));
    assert!(p_bytes[480..].iter().all(|b| *b == 0xff));
    assert_eq!(&p_bytes[32..40], &[0xb1, 0x72, 0x17, 0xf7, 0xd1, 0xcf, 0x79, 0xab]);
    // g = 2^((p - 1) / q) mod p
    let cofactor = {
        let q = num_bigint::BigUint::from_bytes_be(&fixed.q.to_be_bytes());
        let p_minus_1 = num_bigint::BigUint::from_bytes_be(&p_minus_1.to_be_bytes());
        BigNat::from_be_bytes(&(p_minus_1 / q).to_bytes_be())
    };
    assert_eq!(BigNat::from_u32(2).modpow(&cofactor, &fixed.p), fixed.g);
    assert!(fixed.is_valid_modp(&fixed.g));
    assert!(!fixed.is_valid_modp(&fixed.p));
    assert!(fixed.is_valid_modq(&BigNat::zero()));
    assert!(!fixed.is_valid_modq(&fixed.q));
}

#[test]
fn example_election_parameters_are_the_standard_ones() {
    let parameters = example_election_parameters();
    assert_eq!(parameters.fixed_parameters, standard_parameters());
    assert_eq!(parameters.varying_parameters.n, 5);
    assert_eq!(parameters.varying_parameters.k, 3);
    assert_eq!(parameters.varying_parameters.date, "2023-05-02");
    assert_eq!(
        parameters.varying_parameters.info,
        "The United Realms of Imaginaria, General Election"
    );
    assert_eq!(parameters.validate(), Ok(()));
}

#[test]
fn parameters_out_of_order_are_refused() {
    assert_eq!(toy_fixed_parameters().validate(), Ok(()));
    // 5 is not in the subgroup of order 11 modulo 23: 5^11 = 22.
    let mut fixed = toy_fixed_parameters();
    fixed.g = BigNat::from_u32(5);
    assert_eq!(fixed.validate(), Err(EgError::InvalidParameter));
    let mut fixed = toy_fixed_parameters();
    fixed.g = BigNat::one();
    assert_eq!(fixed.validate(), Err(EgError::InvalidParameter));
    let mut fixed = toy_fixed_parameters();
    fixed.g = BigNat::from_u32(23);
    assert_eq!(fixed.validate(), Err(EgError::InvalidParameter));
    let mut fixed = toy_fixed_parameters();
    fixed.q = BigNat::zero();
    assert_eq!(fixed.validate(), Err(EgError::InvalidParameter));
    let mut too_long = vec![0u8; 513];
    too_long[0] = 1;
    let mut fixed = toy_fixed_parameters();
    fixed.p = BigNat::from_be_bytes(&too_long);
    assert_eq!(fixed.validate(), Err(EgError::InvalidParameter));

    let varying = |n: u32, k: u32| VaryingParameters {
        n,
        k,
        date: String::new(),
        info: String::new(),
    };
    assert_eq!(varying(5, 3).validate(), Ok(()));
    assert_eq!(varying(1, 1).validate(), Ok(()));
    assert_eq!(varying(0x7fff_ffff, 1).validate(), Ok(()));
    assert_eq!(varying(5, 0).validate(), Err(EgError::InvalidParameter));
    assert_eq!(varying(3, 5).validate(), Err(EgError::InvalidParameter));
    assert_eq!(varying(0x8000_0000, 1).validate(), Err(EgError::InvalidParameter));
    let parameters = ElectionParameters {
        fixed_parameters: toy_fixed_parameters(),
        varying_parameters: varying(3, 5),
    };
    assert_eq!(parameters.validate(), Err(EgError::InvalidParameter));
}

#[test]
fn length_encodings_of_the_parameters() {
    let fixed = standard_parameters();
    let bytes = fixed.biguint_to_be_bytes_len_p(&BigNat::from_u32(0x0102)).unwrap();
    assert_eq!(bytes.len(), 512);
    assert_eq!(&bytes[510..], &[1, 2]);
    assert!(bytes[..510].iter().all(|b| *b == 0));
    let bytes = fixed.biguint_to_be_bytes_len_q(&fixed.q).unwrap();
    assert_eq!(bytes.len(), 32);
    assert_eq!(BigNat::from_be_bytes(&bytes), fixed.q);
    assert_eq!(fixed.biguint_to_be_bytes_len_q(&fixed.p), None);
    let mut too_long = vec![0u8; 513];
    too_long[0] = 1;
    assert_eq!(fixed.biguint_to_be_bytes_len_p(&BigNat::from_be_bytes(&too_long)), None);
}

#[test]
fn coverage_of_the_guardians() {
    assert_eq!(check_coverage(5, &vec![1, 2, 3, 4, 5]), Ok(()));
    assert_eq!(check_coverage(5, &vec![5, 3, 1, 2, 4]), Ok(()));
    assert_eq!(check_coverage(0, &vec![]), Ok(()));
    assert_eq!(
        check_coverage(5, &vec![1, 2, 4, 5]),
        Err(EgError::CoverageError { duplicates: vec![], missing: vec![3] })
    );
    assert_eq!(
        check_coverage(5, &vec![5]),
        Err(EgError::CoverageError { duplicates: vec![], missing: vec![1, 2, 3, 4] })
    );
    assert_eq!(
        check_coverage(5, &vec![1, 2, 2, 4, 4]),
        Err(EgError::CoverageError { duplicates: vec![2], missing: vec![] })
    );
    assert_eq!(
        check_coverage(3, &vec![1, 2, 3, 3]),
        Err(EgError::CoverageError { duplicates: vec![3], missing: vec![] })
    );
}

#[test]
fn bytes_are_written_as_hexadecimal_text() {
    assert_eq!(to_hex(&[0x00, 0x1f, 0xa0, 0xff]), b"001fa0ff".to_vec());
    assert_eq!(to_hex(&[]), Vec::<u8>::new());
    assert_eq!(from_hex(b"001fa0ff"), Some(vec![0x00, 0x1f, 0xa0, 0xff]));
    assert_eq!(from_hex(b"001FA0Ff"), Some(vec![0x00, 0x1f, 0xa0, 0xff]));
    assert_eq!(from_hex(b""), Some(vec![]));
    assert_eq!(from_hex(b"0"), None);
    assert_eq!(from_hex(b"0g"), None);
    assert_eq!(from_hex(b"g0"), None);
    assert_eq!(from_hex(b"0 "), None);
    assert_eq!(from_hex(b"/0"), None);
    assert_eq!(from_hex(b":0"), None);
    assert_eq!(from_hex(b"@A"), None);
    assert_eq!(from_hex(b"`a"), None);
    let all: Vec<u8> = (0..=255u8).collect();
    assert_eq!(from_hex(&to_hex(&all)), Some(all));
}

#[test]
fn arithmetic_modulo_a_number() {
    let q = BigNat::from_u32(11);
    let n = |v: u32| BigNat::from_u32(v);
    assert_eq!(n(7).mul_mod(&n(8), &q), n(1));
    assert_eq!(n(7).add_mod(&n(8), &q), n(4));
    assert_eq!(n(7).sub_mod(&n(8), &q), n(10));
    assert_eq!(n(8).sub_mod(&n(7), &q), n(1));
    assert_eq!(n(7).sub_mod(&n(7), &q), n(0));
    assert_eq!(n(0).sub_mod(&n(1), &q), n(10));
    assert_eq!(n(3).sub_mod(&n(25), &q), n(0));
    assert_eq!(n(30).sub_mod(&n(2), &q), n(6));
    assert_eq!(n(2).sub_mod(&n(30), &q), n(5));
    assert_eq!(n(5).sub_mod(&n(2), &BigNat::one()), n(0));
    assert_eq!(n(1000).sub(&n(1)), n(999));
    assert_eq!(n(1000).sub(&n(1000)), n(0));
    let big = BigNat::from_u64(0x1_0000_0000);
    assert_eq!(big.sub(&n(1)).to_be_bytes(), vec![0xff; 4]);
}

#[test]
fn padded_bytes_read_back_as_the_number() {
    for (x, len) in [(0u64, 0usize), (0, 3), (1, 1), (255, 1), (256, 2), (0x1234_5678_9abc, 6), (u64::MAX, 8), (u64::MAX, 32)] {
        let number = BigNat::from_u64(x);
        let bytes = biguint_to_be_bytes_left_pad(&number, len).unwrap();
        assert_eq!(bytes.len(), len);
        assert_eq!(BigNat::from_be_bytes(&bytes), number);
    }
    assert_eq!(biguint_to_be_bytes_left_pad(&BigNat::from_u64(256), 1), None);
    assert_eq!(biguint_to_be_bytes_left_pad(&BigNat::from_u64(u64::MAX), 7), None);
    assert_eq!(
        biguint_to_be_bytes_left_pad(&BigNat::from_u64(0x0102), 4),
        Some(vec![0, 0, 1, 2])
    );
}

#[test]
fn draws_are_accepted_below_the_bound() {
    let eleven = BigNat::from_u32(11);
    assert_eq!(accept_draw(&[10], &eleven, false), Some(BigNat::from_u32(10)));
    assert_eq!(accept_draw(&[0, 0, 3], &eleven, false), Some(BigNat::from_u32(3)));
    assert_eq!(accept_draw(&[], &eleven, false), Some(BigNat::zero()));
    assert_eq!(accept_draw(&[11], &eleven, false), None);
    assert_eq!(accept_draw(&[1, 0], &eleven, false), None);
    // The last draw is reduced.
    assert_eq!(accept_draw(&[11], &eleven, true), Some(BigNat::zero()));
    assert_eq!(accept_draw(&[1, 0], &eleven, true), Some(BigNat::from_u32(3)));
    assert_eq!(accept_draw(&[10], &eleven, true), Some(BigNat::from_u32(10)));
}
