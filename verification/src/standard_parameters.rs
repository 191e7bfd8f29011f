//! The standard group: a 4096-bit prime `p`, the 256-bit prime `q` that
//! divides `p - 1`, and a generator `g` of the subgroup of order `q`.
//!
//! `q = 2^256 - 189`, and
//! `p = 2^4096 - 2^3840 + 2^256 * (floor(2^3584 * ln 2) + d) + (2^256 - 1)`
//! where `d` is such that `p` and `(p - 1) / (2 * q)` are prime and `q`
//! divides `p - 1`; `g = 2^((p - 1) / q) mod p`.

use crate::bignat::BigNat;
use crate::encoding::{
    be_to_nat, lemma_be_to_nat_bound, lemma_be_to_nat_leading, lemma_pow256_step, pow256,
};
use crate::parameters::FixedParameters;
use vstd::prelude::*;

verus! {

/// The prime modulus `p`, big-endian.
pub const STANDARD_P: [u8; 512] = [
    0xff, 0xff, 0xff, 0xff, 0xff, 0xff, 0xff, 0xff, 0xff, 0xff, 0xff, 0xff, 0xff, 0xff, 0xff, 0xff,
    0xff, 0xff, 0xff, 0xff, 0xff, 0xff, 0xff, 0xff, 0xff, 0xff, 0xff, 0xff, 0xff, 0xff, 0xff, 0xff,
    0xb1, 0x72, 0x17, 0xf7, 0xd1, 0xcf, 0x79, 0xab, 0xc9, 0xe3, 0xb3, 0x98, 0x03, 0xf2, 0xf6, 0xaf,
    0x40, 0xf3, 0x43, 0x26, 0x72, 0x98, 0xb6, 0x2d, 0x8a, 0x0d, 0x17, 0x5b, 0x8b, 0xaa, 0xfa, 0x2b,
    0xe7, 0xb8, 0x76, 0x20, 0x6d, 0xeb, 0xac, 0x98, 0x55, 0x95, 0x52, 0xfb, 0x4a, 0xfa, 0x1b, 0x10,
    0xed, 0x2e, 0xae, 0x35, 0xc1, 0x38, 0x21, 0x44, 0x27, 0x57, 0x3b, 0x29, 0x11, 0x69, 0xb8, 0x25,
    0x3e, 0x96, 0xca, 0x16, 0x22, 0x4a, 0xe8, 0xc5, 0x1a, 0xcb, 0xda, 0x11, 0x31, 0x7c, 0x38, 0x7e,
    0xb9, 0xea, 0x9b, 0xc3, 0xb1, 0x36, 0x60, 0x3b, 0x25, 0x6f, 0xa0, 0xec, 0x76, 0x57, 0xf7, 0x4b,
    0x72, 0xce, 0x87, 0xb1, 0x9d, 0x65, 0x48, 0xca, 0xf5, 0xdf, 0xa6, 0xbd, 0x38, 0x30, 0x32, 0x48,
    0x65, 0x5f, 0xa1, 0x87, 0x2f, 0x20, 0xe3, 0xa2, 0xda, 0x2d, 0x97, 0xc5, 0x0f, 0x3f, 0xd5, 0xc6,
    0x07, 0xf4, 0xca, 0x11, 0xfb, 0x5b, 0xfb, 0x90, 0x61, 0x0d, 0x30, 0xf8, 0x8f, 0xe5, 0x51, 0xa2,
    0xee, 0x56, 0x9d, 0x6d, 0xfc, 0x1e, 0xfa, 0x15, 0x7d, 0x2e, 0x23, 0xde, 0x14, 0x00, 0xb3, 0x96,
    0x17, 0x46, 0x07, 0x75, 0xdb, 0x89, 0x90, 0xe5, 0xc9, 0x43, 0xe7, 0x32, 0xb4, 0x79, 0xcd, 0x33,
    0xcc, 0xcc, 0x4e, 0x65, 0x93, 0x93, 0x51, 0x4c, 0x4c, 0x1a, 0x1e, 0x0b, 0xd1, 0xd6, 0x09, 0x5d,
    0x25, 0x66, 0x9b, 0x33, 0x35, 0x64, 0xa3, 0x37, 0x6a, 0x9c, 0x7f, 0x8a, 0x5e, 0x14, 0x8e, 0x82,
    0x07, 0x4d, 0xb6, 0x01, 0x5c, 0xfe, 0x7a, 0xa3, 0x0c, 0x48, 0x0a, 0x54, 0x17, 0x35, 0x0d, 0x2c,
    0x95, 0x5d, 0x51, 0x79, 0xb1, 0xe1, 0x7b, 0x9d, 0xae, 0x31, 0x3c, 0xdb, 0x6c, 0x60, 0x6c, 0xb1,
    0x07, 0x8f, 0x73, 0x5d, 0x1b, 0x2d, 0xb3, 0x1b, 0x5f, 0x50, 0xb5, 0x18, 0x50, 0x64, 0xc1, 0x8b,
    0x4d, 0x16, 0x2d, 0xb3, 0xb3, 0x65, 0x85, 0x3d, 0x75, 0x98, 0xa1, 0x95, 0x1a, 0xe2, 0x73, 0xee,
    0x55, 0x70, 0xb6, 0xc6, 0x8f, 0x96, 0x98, 0x34, 0x96, 0xd4, 0xe6, 0xd3, 0x30, 0xaf, 0x88, 0x9b,
    0x44, 0xa0, 0x25, 0x54, 0x73, 0x1c, 0xdc, 0x8e, 0xa1, 0x72, 0x93, 0xd1, 0x22, 0x8a, 0x4e, 0xf9,
    0x8d, 0x6f, 0x51, 0x77, 0xfb, 0xcf, 0x07, 0x55, 0x26, 0x8a, 0x5c, 0x1f, 0x95, 0x38, 0xb9, 0x82,
    0x61, 0xaf, 0xfd, 0x44, 0x6b, 0x1c, 0xa3, 0xcf, 0x5e, 0x92, 0x22, 0xb8, 0x8c, 0x66, 0xd3, 0xc5,
    0x42, 0x21, 0x83, 0xed, 0xc9, 0x94, 0x21, 0x09, 0x0b, 0xbb, 0x16, 0xfa, 0xf3, 0xd9, 0x49, 0xf2,
    0x36, 0xe0, 0x2b, 0x20, 0xce, 0xe8, 0x86, 0xb9, 0x05, 0xc1, 0x28, 0xd5, 0x3d, 0x0b, 0xd2, 0xf9,
    0x62, 0x13, 0x63, 0x19, 0x6a, 0xf5, 0x03, 0x02, 0x00, 0x60, 0xe4, 0x99, 0x08, 0x39, 0x1a, 0x0c,
    0x57, 0x33, 0x9b, 0xa2, 0xbe, 0xba, 0x7d, 0x05, 0x2a, 0xc5, 0xb6, 0x1c, 0xc4, 0xe9, 0x20, 0x7c,
    0xef, 0x2f, 0x0c, 0xe2, 0xd7, 0x37, 0x39, 0x58, 0xd7, 0x62, 0x26, 0x58, 0x90, 0x44, 0x57, 0x44,
    0xfb, 0x5f, 0x2d, 0xa4, 0xb7, 0x51, 0x00, 0x58, 0x92, 0xd3, 0x56, 0x89, 0x0d, 0xef, 0xe9, 0xca,
    0xd9, 0xb9, 0xd4, 0xb7, 0x13, 0xe0, 0x61, 0x62, 0xa2, 0xd8, 0xfd, 0xd0, 0xdf, 0x2f, 0xd6, 0x08,
    0xff, 0xff, 0xff, 0xff, 0xff, 0xff, 0xff, 0xff, 0xff, 0xff, 0xff, 0xff, 0xff, 0xff, 0xff, 0xff,
    0xff, 0xff, 0xff, 0xff, 0xff, 0xff, 0xff, 0xff, 0xff, 0xff, 0xff, 0xff, 0xff, 0xff, 0xff, 0xff,
];

/// The subgroup order `q = 2^256 - 189`, big-endian.
pub const STANDARD_Q: [u8; 32] = [
    0xff, 0xff, 0xff, 0xff, 0xff, 0xff, 0xff, 0xff, 0xff, 0xff, 0xff, 0xff, 0xff, 0xff, 0xff, 0xff,
    0xff, 0xff, 0xff, 0xff, 0xff, 0xff, 0xff, 0xff, 0xff, 0xff, 0xff, 0xff, 0xff, 0xff, 0xff, 0x43,
];

/// The generator `g`, big-endian.
pub const STANDARD_G: [u8; 512] = [
    0x36, 0x03, 0x6f, 0xed, 0x21, 0x4f, 0x3b, 0x50, 0xdc, 0x56, 0x6d, 0x3a, 0x31, 0x2f, 0xe4, 0x13,
    0x1f, 0xee, 0x1c, 0x2b, 0xce, 0x6d, 0x02, 0xea, 0x39, 0xb4, 0x77, 0xac, 0x05, 0xf7, 0xf8, 0x85,
    0xf3, 0x8c, 0xfe, 0x77, 0xa7, 0xe4, 0x5a, 0xcf, 0x40, 0x29, 0x11, 0x4c, 0x4d, 0x7a, 0x9b, 0xfe,
    0x05, 0x8b, 0xf2, 0xf9, 0x95, 0xd2, 0x47, 0x9d, 0x3d, 0xda, 0x61, 0x8f, 0xfd, 0x91, 0x0d, 0x3c,
    0x42, 0x36, 0xab, 0x2c, 0xfd, 0xd7, 0x83, 0xa5, 0x01, 0x6f, 0x74, 0x65, 0xcf, 0x59, 0xbb, 0xf4,
    0x5d, 0x24, 0xa2, 0x2f, 0x13, 0x0f, 0x2d, 0x04, 0xfe, 0x93, 0xb2, 0xd5, 0x8b, 0xb9, 0xc1, 0xd1,
    0xd2, 0x7f, 0xc9, 0xa1, 0x7d, 0x2a, 0xf4, 0x9a, 0x77, 0x9f, 0x3f, 0xfb, 0xdc, 0xa2, 0x29, 0x00,
    0xc1, 0x42, 0x02, 0xee, 0x6c, 0x99, 0x61, 0x60, 0x34, 0xbe, 0x35, 0xcb, 0xcd, 0xd3, 0xe7, 0xbb,
    0x79, 0x96, 0xad, 0xfe, 0x53, 0x4b, 0x63, 0xcc, 0xa4, 0x1e, 0x21, 0xff, 0x5d, 0xc7, 0x78, 0xeb,
    0xb1, 0xb8, 0x6c, 0x53, 0xbf, 0xbe, 0x99, 0x98, 0x7d, 0x7a, 0xea, 0x07, 0x56, 0x23, 0x7f, 0xb4,
    0x09, 0x22, 0x13, 0x9f, 0x90, 0xa6, 0x2f, 0x2a, 0xa8, 0xd9, 0xad, 0x34, 0xdf, 0xf7, 0x99, 0xe3,
    0x3c, 0x85, 0x7a, 0x64, 0x68, 0xd0, 0x01, 0xac, 0xf3, 0xb6, 0x81, 0xdb, 0x87, 0xdc, 0x42, 0x42,
    0x75, 0x5e, 0x2a, 0xc5, 0xa5, 0x02, 0x7d, 0xb8, 0x19, 0x84, 0xf0, 0x33, 0xc4, 0xd1, 0x78, 0x37,
    0x1f, 0x27, 0x3d, 0xbb, 0x4f, 0xce, 0xa1, 0xe6, 0x28, 0xc2, 0x3e, 0x52, 0x75, 0x9b, 0xc7, 0x76,
    0x57, 0x28, 0x03, 0x5c, 0xea, 0x26, 0xb4, 0x4c, 0x49, 0xa6, 0x56, 0x66, 0x88, 0x98, 0x20, 0xa4,
    0x5c, 0x33, 0xdd, 0x37, 0xea, 0x4a, 0x1d, 0x00, 0xcb, 0x62, 0x30, 0x5c, 0xd5, 0x41, 0xbe, 0x1e,
    0x8a, 0x92, 0x68, 0x5a, 0x07, 0x01, 0x2b, 0x1a, 0x20, 0xa7, 0x46, 0xc3, 0x59, 0x1a, 0x2d, 0xb3,
    0x81, 0x50, 0x00, 0xd2, 0xaa, 0xcc, 0xfe, 0x43, 0xdc, 0x49, 0xe8, 0x28, 0xc1, 0xed, 0x73, 0x87,
    0x46, 0x6a, 0xfd, 0x8e, 0x4b, 0xf1, 0x93, 0x55, 0x93, 0xb2, 0xa4, 0x42, 0xee, 0xc2, 0x71, 0xc5,
    0x0a, 0xd3, 0x9f, 0x73, 0x37, 0x97, 0xa1, 0xea, 0x11, 0x80, 0x2a, 0x25, 0x57, 0x91, 0x65, 0x34,
    0x66, 0x2a, 0x6b, 0x7e, 0x9a, 0x9e, 0x44, 0x9a, 0x24, 0xc8, 0xcf, 0xf8, 0x09, 0xe7, 0x9a, 0x4d,
    0x80, 0x6e, 0xb6, 0x81, 0x11, 0x93, 0x30, 0xe6, 0xc5, 0x79, 0x85, 0xe3, 0x9b, 0x20, 0x0b, 0x48,
    0x93, 0x63, 0x9f, 0xdf, 0xde, 0xa4, 0x9f, 0x76, 0xad, 0x1a, 0xcd, 0x99, 0x7e, 0xba, 0x13, 0x65,
    0x75, 0x41, 0xe7, 0x9e, 0xc5, 0x74, 0x37, 0xe5, 0x04, 0xed, 0xa9, 0xdd, 0x01, 0x10, 0x61, 0x51,
    0x6c, 0x64, 0x3f, 0xb3, 0x0d, 0x6d, 0x58, 0xaf, 0xcc, 0xd2, 0x8b, 0x73, 0xfe, 0xda, 0x29, 0xec,
    0x12, 0xb0, 0x1a, 0x5e, 0xb8, 0x63, 0x99, 0xa5, 0x93, 0xa9, 0xd5, 0xf4, 0x50, 0xde, 0x39, 0xcb,
    0x92, 0x96, 0x2c, 0x5e, 0xc6, 0x92, 0x53, 0x48, 0xdb, 0x54, 0xd1, 0x28, 0xfd, 0x99, 0xc1, 0x4b,
    0x45, 0x7f, 0x88, 0x3e, 0xc2, 0x01, 0x12, 0xa7, 0x5a, 0x6a, 0x05, 0x81, 0xd3, 0xd8, 0x0a, 0x3b,
    0x4e, 0xf0, 0x9e, 0xc8, 0x6f, 0x95, 0x52, 0xff, 0xda, 0x16, 0x53, 0xf1, 0x33, 0xaa, 0x25, 0x34,
    0x98, 0x3a, 0x6f, 0x31, 0xb0, 0xee, 0x46, 0x97, 0x93, 0x5a, 0x6b, 0x1e, 0xa2, 0xf7, 0x5b, 0x85,
    0xe7, 0xeb, 0xa1, 0x51, 0xba, 0x48, 0x60, 0x94, 0xd6, 0x87, 0x22, 0xb0, 0x54, 0x63, 0x3f, 0xec,
    0x51, 0xca, 0x3f, 0x29, 0xb3, 0x1e, 0x77, 0xe3, 0x17, 0xb1, 0x78, 0xb6, 0xb9, 0xd8, 0xae, 0x0f,
];

/// The standard group.
pub fn standard_parameters() -> (r: FixedParameters)
    ensures
        r.wf(),
        r.p@ == be_to_nat(STANDARD_P@),
        r.q@ == be_to_nat(STANDARD_Q@),
        r.g@ == be_to_nat(STANDARD_G@),
{
    let p = BigNat::from_be_bytes(STANDARD_P.as_slice());
    let q = BigNat::from_be_bytes(STANDARD_Q.as_slice());
    let g = BigNat::from_be_bytes(STANDARD_G.as_slice());
    proof {
        let w = pow256(511);
        lemma_pow256_step(511);
        lemma_pow256_step(31);
        assert(STANDARD_P@[0] == 0xff);
        assert(STANDARD_G@[0] == 0x36);
        assert(STANDARD_Q@[0] == 0xff);
        lemma_be_to_nat_leading(STANDARD_P@);
        lemma_be_to_nat_leading(STANDARD_G@);
        lemma_be_to_nat_leading(STANDARD_Q@);
        lemma_be_to_nat_bound(STANDARD_P@);
        lemma_be_to_nat_bound(STANDARD_Q@);
        assert(0x36 * w > 1 && 0x37 * w <= 0xff * w) by (nonlinear_arith)
            requires
                w > 0,
        ;
    }
    FixedParameters { p, q, g }
}

} // verus!
