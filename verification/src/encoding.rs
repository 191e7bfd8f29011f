//! Big-endian byte strings and the numbers they denote.

use vstd::arithmetic::div_mod::*;
use vstd::arithmetic::mul::*;
use vstd::arithmetic::power::*;
use vstd::prelude::*;

verus! {

/// The number that a big-endian byte string denotes. Leading zero bytes do
/// not change it, and the empty string denotes zero.
pub open spec fn be_to_nat(s: Seq<u8>) -> nat
    decreases s.len(),
{
    if s.len() == 0 {
        0
    } else {
        be_to_nat(s.drop_last()) * 256 + s.last() as nat
    }
}

/// `256^len`: the least number that `len` bytes cannot hold.
pub open spec fn pow256(len: nat) -> nat {
    pow(256, len) as nat
}

/// The `len` low-order base-256 digits of `x`, most significant first. Where
/// `x < 256^len` this is `x` written in exactly `len` bytes, padded with
/// zeros on the left.
pub open spec fn nat_to_be(x: nat, len: nat) -> Seq<u8>
    decreases len,
{
    if len == 0 {
        Seq::empty()
    } else {
        nat_to_be(x / 256, (len - 1) as nat).push((x % 256) as u8)
    }
}

/// A byte string without a leading zero byte. Each number has exactly one.
pub open spec fn is_canonical(s: Seq<u8>) -> bool {
    s.len() == 0 || s[0] != 0
}

/// The number of bytes of the shortest big-endian string that denotes `x`;
/// zero for zero.
pub open spec fn byte_len(x: nat) -> nat
    decreases x,
{
    if x == 0 {
        0
    } else {
        1 + byte_len(x / 256)
    }
}

/// Byte-wise exclusive or of two strings, over the length of the first.
pub open spec fn xor_seq(a: Seq<u8>, b: Seq<u8>) -> Seq<u8> {
    Seq::new(a.len(), |i: int| a[i] ^ b[i])
}

/// `256^(len + 1) = 256 * 256^len`, and no power of 256 is zero.
pub proof fn lemma_pow256_step(len: nat)
    ensures
        pow256(len + 1) == 256 * pow256(len),
        pow256(len) > 0,
        pow256(0) == 1,
{
    reveal(pow);
    lemma_pow_positive(256, len);
    lemma_pow_positive(256, len + 1);
    lemma_pow0(256);
}

/// The powers of 256 grow with the exponent.
pub proof fn lemma_pow256_monotonic(a: nat, b: nat)
    requires
        a <= b,
    ensures
        pow256(a) <= pow256(b),
{
    lemma_pow_increases(256, a, b);
    lemma_pow_positive(256, a);
    lemma_pow_positive(256, b);
}

/// A string of `n` bytes denotes a number below `256^n`.
pub proof fn lemma_be_to_nat_bound(s: Seq<u8>)
    ensures
        be_to_nat(s) < pow256(s.len()),
    decreases s.len(),
{
    if s.len() == 0 {
        lemma_pow256_step(0);
    } else {
        lemma_be_to_nat_bound(s.drop_last());
        lemma_pow256_step(s.drop_last().len());
    }
}

/// The value of a concatenation: the left part is shifted by the length of
/// the right part.
pub proof fn lemma_be_to_nat_concat(a: Seq<u8>, b: Seq<u8>)
    ensures
        be_to_nat(a + b) == be_to_nat(a) * pow256(b.len()) + be_to_nat(b),
    decreases b.len(),
{
    if b.len() == 0 {
        assert(a + b =~= a);
        lemma_pow256_step(0);
        assert(be_to_nat(b) == 0);
        assert(pow256(b.len()) == 1);
        assert(be_to_nat(a) * 1 == be_to_nat(a));
    } else {
        let b0 = b.drop_last();
        assert((a + b).drop_last() =~= a + b0);
        assert((a + b).last() == b.last());
        lemma_be_to_nat_concat(a, b0);
        lemma_pow256_step(b0.len());
        let va = be_to_nat(a) as int;
        let vb0 = be_to_nat(b0) as int;
        let w0 = pow256(b0.len()) as int;
        let w = pow256(b.len()) as int;
        let last = b.last() as int;
        assert(b.len() == b0.len() + 1);
        assert(w == 256 * w0);
        assert(be_to_nat(a + b) == be_to_nat(a + b0) * 256 + last);
        assert(be_to_nat(b) == vb0 * 256 + last);
        assert(be_to_nat(a + b0) == va * w0 + vb0);
        assert((va * w0 + vb0) * 256 + last == va * w + (vb0 * 256 + last)) by (nonlinear_arith)
            requires
                w == 256 * w0,
        ;
        assert(be_to_nat(a) * pow256(b.len()) == va * w);
    }
}

/// A string of zero bytes denotes zero.
pub proof fn lemma_be_to_nat_zeros(s: Seq<u8>)
    requires
        forall|i: int| 0 <= i < s.len() ==> s[i] == 0,
    ensures
        be_to_nat(s) == 0,
    decreases s.len(),
{
    if s.len() > 0 {
        lemma_be_to_nat_zeros(s.drop_last());
    }
}

/// The first byte bounds the value from both sides.
pub proof fn lemma_be_to_nat_leading(s: Seq<u8>)
    requires
        s.len() > 0,
    ensures
        s[0] as nat * pow256((s.len() - 1) as nat) <= be_to_nat(s),
        be_to_nat(s) < (s[0] as nat + 1) * pow256((s.len() - 1) as nat),
{
    let head = s.subrange(0, 1);
    let tail = s.subrange(1, s.len() as int);
    assert(s =~= head + tail);
    lemma_be_to_nat_concat(head, tail);
    lemma_be_to_nat_bound(tail);
    assert(head.drop_last() =~= Seq::<u8>::empty());
    assert(be_to_nat(head.drop_last()) == 0);
    assert(be_to_nat(head) == s[0] as nat);
    let w = pow256(tail.len());
    assert((s[0] as nat + 1) * w == s[0] as nat * w + w) by (nonlinear_arith);
}

/// Leading zero bytes can be dropped.
pub proof fn lemma_be_to_nat_skip_zeros(s: Seq<u8>, k: int)
    requires
        0 <= k <= s.len(),
        forall|i: int| 0 <= i < k ==> s[i] == 0,
    ensures
        be_to_nat(s.subrange(k, s.len() as int)) == be_to_nat(s),
{
    let head = s.subrange(0, k);
    let tail = s.subrange(k, s.len() as int);
    assert(s =~= head + tail);
    lemma_be_to_nat_concat(head, tail);
    lemma_be_to_nat_zeros(head);
    assert(0 * pow256(tail.len()) == 0) by (nonlinear_arith);
}

/// Writing a number in `len` bytes and reading it back gives the number
/// reduced modulo `256^len`, and so the number itself where it fits.
pub proof fn lemma_nat_to_be_value(x: nat, len: nat)
    ensures
        nat_to_be(x, len).len() == len,
        be_to_nat(nat_to_be(x, len)) == x % pow256(len),
        x < pow256(len) ==> be_to_nat(nat_to_be(x, len)) == x,
    decreases len,
{
    lemma_pow256_step(len);
    if len == 0 {
    } else {
        let l1 = (len - 1) as nat;
        lemma_nat_to_be_value(x / 256, l1);
        lemma_pow256_step(l1);
        let s = nat_to_be(x, len);
        assert(s.drop_last() =~= nat_to_be(x / 256, l1));
        let w = pow256(l1) as int;
        let hi = (x / 256) as int;
        // x = 256 * (w * (hi / w) + hi % w) + x % 256
        lemma_fundamental_div_mod(hi, w);
        lemma_fundamental_div_mod(x as int, 256);
        lemma_mod_bound(hi, w);
        let lo = (x % 256) as int;
        let r = (hi % w) * 256 + lo;
        assert(0 <= r < 256 * w) by (nonlinear_arith)
            requires
                0 <= hi % w < w,
                0 <= lo < 256,
                r == (hi % w) * 256 + lo,
        ;
        assert(x as int == (hi / w) * (256 * w) + r) by (nonlinear_arith)
            requires
                hi == w * (hi / w) + hi % w,
                x as int == 256 * hi + lo,
                r == (hi % w) * 256 + lo,
        ;
        lemma_fundamental_div_mod_converse(x as int, 256 * w, hi / w, r);
    }
    if x < pow256(len) {
        lemma_small_mod(x, pow256(len));
    }
}

/// Reading a string and writing the number back in the same length gives
/// the string.
pub proof fn lemma_nat_to_be_of_be_to_nat(s: Seq<u8>)
    ensures
        nat_to_be(be_to_nat(s), s.len()) == s,
    decreases s.len(),
{
    if s.len() == 0 {
        assert(nat_to_be(be_to_nat(s), 0) =~= s);
    } else {
        let s0 = s.drop_last();
        lemma_nat_to_be_of_be_to_nat(s0);
        let x = be_to_nat(s);
        lemma_fundamental_div_mod_converse(x as int, 256, be_to_nat(s0) as int, s.last() as int);
        assert(nat_to_be(x, s.len()) =~= s);
    }
}

/// Two strings of one length that denote the same number are equal.
pub proof fn lemma_be_to_nat_injective(a: Seq<u8>, b: Seq<u8>)
    requires
        a.len() == b.len(),
        be_to_nat(a) == be_to_nat(b),
    ensures
        a == b,
{
    lemma_nat_to_be_of_be_to_nat(a);
    lemma_nat_to_be_of_be_to_nat(b);
}

/// A canonical string of `n > 0` bytes denotes at least `256^(n-1)`.
pub proof fn lemma_canonical_lower_bound(s: Seq<u8>)
    requires
        is_canonical(s),
        s.len() > 0,
    ensures
        pow256((s.len() - 1) as nat) <= be_to_nat(s),
{
    lemma_be_to_nat_leading(s);
    let w = pow256((s.len() - 1) as nat);
    assert(w <= s[0] as nat * w) by (nonlinear_arith)
        requires
            s[0] as nat >= 1,
    ;
}

/// The length of a canonical string is the byte length of its number.
pub proof fn lemma_canonical_len(s: Seq<u8>)
    requires
        is_canonical(s),
    ensures
        s.len() == byte_len(be_to_nat(s)),
    decreases s.len(),
{
    if s.len() > 0 {
        let s0 = s.drop_last();
        lemma_canonical_lower_bound(s);
        lemma_pow256_step((s.len() - 1) as nat);
        lemma_fundamental_div_mod_converse(
            be_to_nat(s) as int,
            256,
            be_to_nat(s0) as int,
            s.last() as int,
        );
        assert(is_canonical(s0));
        lemma_canonical_len(s0);
    }
}

/// Canonical strings that denote the same number are equal.
pub proof fn lemma_canonical_unique(a: Seq<u8>, b: Seq<u8>)
    requires
        is_canonical(a),
        is_canonical(b),
        be_to_nat(a) == be_to_nat(b),
    ensures
        a == b,
{
    lemma_be_to_nat_bound(a);
    lemma_be_to_nat_bound(b);
    if a.len() < b.len() {
        lemma_canonical_lower_bound(b);
        lemma_pow256_monotonic(a.len(), (b.len() - 1) as nat);
    } else if b.len() < a.len() {
        lemma_canonical_lower_bound(a);
        lemma_pow256_monotonic(b.len(), (a.len() - 1) as nat);
    } else {
        lemma_be_to_nat_injective(a, b);
    }
}

/// Exclusive or with the same key twice gives the string back.
pub proof fn lemma_xor_seq_involution(a: Seq<u8>, k: Seq<u8>)
    ensures
        xor_seq(xor_seq(a, k), k) == a,
{
    assert forall|i: int| 0 <= i < a.len() implies xor_seq(xor_seq(a, k), k)[i] == a[i] by {
        let x = a[i];
        let y = k[i];
        assert((x ^ y) ^ y == x) by (bit_vector);
    }
    assert(xor_seq(xor_seq(a, k), k) =~= a);
}

/// Byte-wise exclusive or of two byte strings of one length.
pub fn xor(a: &[u8], b: &[u8]) -> (r: Vec<u8>)
    requires
        a@.len() == b@.len(),
    ensures
        r@ == xor_seq(a@, b@),
{
    let mut r: Vec<u8> = Vec::new();
    let mut i: usize = 0;
    while i < a.len()
        invariant
            a@.len() == b@.len(),
            0 <= i <= a@.len(),
            r@.len() == i,
            forall|j: int| 0 <= j < i ==> r@[j] == a@[j] ^ b@[j],
        decreases a@.len() - i,
    {
        r.push(a[i] ^ b[i]);
        i += 1;
    }
    assert(r@ =~= xor_seq(a@, b@));
    r
}

/// Appends the bytes `s` to `v`.
pub fn append_bytes(v: &mut Vec<u8>, s: &[u8])
    ensures
        final(v)@ == old(v)@ + s@,
{
    let mut i: usize = 0;
    while i < s.len()
        invariant
            0 <= i <= s@.len(),
            v@ == old(v)@ + s@.subrange(0, i as int),
        decreases s@.len() - i,
    {
        v.push(s[i]);
        assert(s@.subrange(0, i as int).push(s@[i as int]) =~= s@.subrange(0, i + 1));
        assert(v@ =~= old(v)@ + s@.subrange(0, i + 1));
        i += 1;
    }
    assert(s@.subrange(0, i as int) =~= s@);
}

/// The four bytes of `x`, most significant first.
pub fn u32_to_be_bytes(x: u32) -> (r: [u8; 4])
    ensures
        r@ == nat_to_be(x as nat, 4),
{
    let b0: u8 = (x / 0x100_0000) as u8;
    let b1: u8 = ((x / 0x1_0000) % 0x100) as u8;
    let b2: u8 = ((x / 0x100) % 0x100) as u8;
    let b3: u8 = (x % 0x100) as u8;
    let r: [u8; 4] = [b0, b1, b2, b3];
    proof {
        let n = x as nat;
        let s = nat_to_be(n, 4);
        reveal_with_fuel(nat_to_be, 5);
        assert(s.len() == 4) by {
            lemma_nat_to_be_value(n, 4);
        }
        assert(s[3] == (n % 256) as u8);
        assert(s[2] == ((n / 256) % 256) as u8);
        assert(s[1] == ((n / 256 / 256) % 256) as u8);
        assert(s[0] == ((n / 256 / 256 / 256) % 256) as u8);
        assert(n / 256 / 256 == n / 0x1_0000) by (nonlinear_arith);
        assert(n / 256 / 256 / 256 == n / 0x100_0000) by (nonlinear_arith);
        assert(r@ =~= s);
    }
    r
}

/// Copies `s` without its leading zero bytes.
pub fn strip_leading_zeros(s: &[u8]) -> (r: Vec<u8>)
    ensures
        is_canonical(r@),
        be_to_nat(r@) == be_to_nat(s@),
        r@.len() <= s@.len(),
{
    let mut k: usize = 0;
    while k < s.len() && s[k] == 0
        invariant
            0 <= k <= s@.len(),
            forall|i: int| 0 <= i < k ==> s@[i] == 0,
        decreases s@.len() - k,
    {
        k += 1;
    }
    let mut r: Vec<u8> = Vec::new();
    let mut i: usize = k;
    while i < s.len()
        invariant
            k <= i <= s@.len(),
            r@ == s@.subrange(k as int, i as int),
        decreases s@.len() - i,
    {
        r.push(s[i]);
        assert(s@.subrange(k as int, i as int).push(s@[i as int]) =~= s@.subrange(
            k as int,
            i + 1,
        ));
        i += 1;
    }
    proof {
        lemma_be_to_nat_skip_zeros(s@, k as int);
    }
    r
}

/// Writes the number that the canonical string `s` denotes in exactly `len`
/// bytes, padded with zeros on the left. There is no such string where the
/// number needs more than `len` bytes.
pub fn left_pad(s: &[u8], len: usize) -> (r: Option<Vec<u8>>)
    requires
        is_canonical(s@),
    ensures
        r is Some <==> be_to_nat(s@) < pow256(len as nat),
        r is Some ==> r->0@ == nat_to_be(be_to_nat(s@), len as nat),
        r is Some ==> r->0@.len() == len && be_to_nat(r->0@) == be_to_nat(s@),
{
    if s.len() > len {
        proof {
            lemma_canonical_lower_bound(s@);
            lemma_pow256_monotonic(len as nat, (s@.len() - 1) as nat);
        }
        return None;
    }
    let pad: usize = len - s.len();
    let mut r: Vec<u8> = Vec::new();
    let mut i: usize = 0;
    while i < pad
        invariant
            0 <= i <= pad,
            r@.len() == i,
            forall|j: int| 0 <= j < i ==> r@[j] == 0,
        decreases pad - i,
    {
        r.push(0u8);
        i += 1;
    }
    let ghost zeros = r@;
    let mut j: usize = 0;
    while j < s.len()
        invariant
            0 <= j <= s@.len(),
            r@ == zeros + s@.subrange(0, j as int),
        decreases s@.len() - j,
    {
        r.push(s[j]);
        assert((zeros + s@.subrange(0, j as int)).push(s@[j as int]) =~= zeros + s@.subrange(
            0,
            j + 1,
        ));
        j += 1;
    }
    proof {
        assert(s@.subrange(0, s@.len() as int) =~= s@);
        lemma_be_to_nat_concat(zeros, s@);
        lemma_be_to_nat_zeros(zeros);
        assert(0 * pow256(s@.len()) == 0) by (nonlinear_arith);
        lemma_be_to_nat_bound(r@);
        lemma_nat_to_be_of_be_to_nat(r@);
    }
    Some(r)
}

} // verus!
