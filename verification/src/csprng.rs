//! A deterministic random number generator, seeded from a byte string. Its
//! output is that of SHAKE256 on its state, so the same seed gives the same
//! numbers.

use crate::bignat::BigNat;
use crate::encoding::{be_to_nat, byte_len};
use sha3::digest::{ExtendableOutput, Update, XofReader};
use sha3::Shake256;
use vstd::prelude::*;

verus! {

/// The first `len` bytes of the SHAKE256 output on `input`.
pub uninterp spec fn shake256_xof(input: Seq<u8>, len: nat) -> Seq<u8>;

/// `Shake256`: `update` with the input, `finalize_xof`, and `read` into a
/// buffer of `len` bytes. Taken on trust: the `len` bytes returned are those
/// that [`shake256_xof`] names, a function of the input and `len` alone.
#[verifier::external_body]
fn shake256(input: &[u8], len: usize) -> (out: Vec<u8>)
    ensures
        out@ == shake256_xof(input@, len as nat),
        out@.len() == len,
{
    let mut hasher = Shake256::default();
    hasher.update(input);
    let mut out = vec![0u8; len];
    hasher.finalize_xof().read(&mut out);
    out
}

/// The number of bytes of a generator's state.
pub const STATE_LEN: usize = 32;

/// The number of draws that `next_biguint_lt` rejects before it settles for
/// the remainder of the next draw. A draw of as many bytes as the bound has
/// is rejected with a probability below 255/256, so that many rejections in
/// a row have a probability below `2^-369`.
pub const MAX_REJECTED_DRAWS: u32 = 65536;

/// The state that a generator starts in for a seed.
pub open spec fn seed_state(seed: Seq<u8>) -> Seq<u8> {
    shake256_xof(seed, STATE_LEN as nat)
}

/// The state that follows `state`.
pub open spec fn next_state(state: Seq<u8>) -> Seq<u8> {
    shake256_xof(state.push(0u8), STATE_LEN as nat)
}

/// The `len` bytes that a generator in `state` puts out.
pub open spec fn draw(state: Seq<u8>, len: nat) -> Seq<u8> {
    shake256_xof(state.push(1u8), len)
}

/// What a draw that denotes `v` is worth where a number below `end` is
/// wanted: `v` itself where it is below `end`; else nothing, but for the
/// last draw, which is taken modulo `end`.
pub open spec fn draw_outcome(v: nat, end: nat, last: bool) -> Option<nat> {
    if v < end {
        Some(v)
    } else if last {
        Some(v % end)
    } else {
        None
    }
}

/// Rejection sampling below `end`, from `state`: the first of the successive
/// draws of `byte_len(end)` bytes that denotes a number below `end`, with
/// the state after it. If `tries` draws in a row are rejected, the next one
/// is the last, and is taken modulo `end`.
pub open spec fn sample_below(state: Seq<u8>, end: nat, tries: nat) -> (nat, Seq<u8>)
    decreases tries,
{
    match draw_outcome(be_to_nat(draw(state, byte_len(end))), end, tries == 0) {
        Some(v) => (v, next_state(state)),
        None => sample_below(next_state(state), end, (tries - 1) as nat),
    }
}

/// `count` numbers below `end` sampled one after the other from `state`, and
/// the state after the last.
pub open spec fn sample_many(state: Seq<u8>, end: nat, count: nat) -> (Seq<nat>, Seq<u8>)
    decreases count,
{
    if count == 0 {
        (Seq::empty(), state)
    } else {
        let (values, s) = sample_many(state, end, (count - 1) as nat);
        let (v, s1) = sample_below(s, end, MAX_REJECTED_DRAWS as nat);
        (values.push(v), s1)
    }
}

/// What `sample_below` gives is below `end`.
pub proof fn lemma_sample_below_bound(state: Seq<u8>, end: nat, tries: nat)
    requires
        end > 0,
    ensures
        sample_below(state, end, tries).0 < end,
    decreases tries,
{
    let v = be_to_nat(draw(state, byte_len(end)));
    if v < end {
    } else if tries == 0 {
        assert(v % end < end) by (nonlinear_arith)
            requires
                end > 0,
        ;
    } else {
        lemma_sample_below_bound(next_state(state), end, (tries - 1) as nat);
    }
}

/// Decides on a draw: the number that the drawn bytes denote where it is
/// below `end`; else nothing, but for the last draw, which is taken modulo
/// `end`.
pub fn accept_draw(bytes: &[u8], end: &BigNat, last: bool) -> (r: Option<BigNat>)
    requires
        end@ > 0,
    ensures
        r is Some <==> draw_outcome(be_to_nat(bytes@), end@, last) is Some,
        r is Some ==> r->0@ == draw_outcome(be_to_nat(bytes@), end@, last)->0,
{
    let v = BigNat::from_be_bytes(bytes);
    if v.lt(end) {
        Some(v)
    } else if last {
        Some(v.rem(end))
    } else {
        None
    }
}

/// A deterministic random number generator.
#[derive(Debug)]
pub struct Csprng {
    state: Vec<u8>,
}

impl Clone for Csprng {
    fn clone(&self) -> (r: Self)
        ensures
            r@ == self@,
    {
        Csprng { state: self.state.clone() }
    }
}

impl View for Csprng {
    type V = Seq<u8>;

    closed spec fn view(&self) -> Seq<u8> {
        self.state@
    }
}

impl Csprng {
    /// A generator seeded with `seed`.
    pub fn new(seed: &[u8]) -> (r: Self)
        ensures
            r@ == seed_state(seed@),
    {
        Csprng { state: shake256(seed, STATE_LEN) }
    }

    /// The next `len` bytes.
    pub fn next_bytes(&mut self, len: usize) -> (out: Vec<u8>)
        ensures
            out@ == draw(old(self)@, len as nat),
            out@.len() == len,
            final(self)@ == next_state(old(self)@),
    {
        let mut input = self.state.clone();
        input.push(1u8);
        let out = shake256(input.as_slice(), len);
        let mut input = self.state.clone();
        input.push(0u8);
        self.state = shake256(input.as_slice(), STATE_LEN);
        out
    }

    /// The next number in `[0, end)`, by rejection sampling.
    pub fn next_biguint_lt(&mut self, end: &BigNat) -> (r: BigNat)
        requires
            end@ > 0,
        ensures
            r@ == sample_below(old(self)@, end@, MAX_REJECTED_DRAWS as nat).0,
            final(self)@ == sample_below(old(self)@, end@, MAX_REJECTED_DRAWS as nat).1,
            r@ < end@,
    {
        proof {
            lemma_sample_below_bound(self@, end@, MAX_REJECTED_DRAWS as nat);
        }
        let width = end.byte_len();
        let mut tries: u32 = MAX_REJECTED_DRAWS;
        loop
            invariant
                end@ > 0,
                width == byte_len(end@),
                sample_below(self@, end@, tries as nat) == sample_below(
                    old(self)@,
                    end@,
                    MAX_REJECTED_DRAWS as nat,
                ),
            decreases tries,
        {
            let bytes = self.next_bytes(width);
            match accept_draw(bytes.as_slice(), end, tries == 0) {
                Some(v) => {
                    return v;
                },
                None => {},
            }
            tries = tries - 1;
        }
    }
}

} // verus!
