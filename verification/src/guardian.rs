//! Guardians: their indices, their secret keys and their public keys.

use crate::bignat::{clone_all, mod_pow, values, BigNat};
use crate::coverage::{check_coverage, covers, is_first_duplicate, missing_of};
use crate::csprng::{sample_many, Csprng};
use crate::errors::EgError;
use crate::parameters::{
    is_subgroup_element, lemma_subgroup_closed_under_pow, ElectionParameters, MAX_GUARDIANS,
};
use vstd::prelude::*;

verus! {

/// The index of a guardian: a number from 1 to `2^31 - 1`.
#[derive(Clone, Copy, Debug, PartialEq, Eq, Hash)]
pub struct GuardianIndex {
    one_based: u32,
}

impl View for GuardianIndex {
    type V = nat;

    closed spec fn view(&self) -> nat {
        self.one_based as nat
    }
}

impl GuardianIndex {
    #[verifier::type_invariant]
    spec fn inv(&self) -> bool {
        1 <= self.one_based <= MAX_GUARDIANS
    }

    /// The index `i`, where `1 <= i <= 2^31 - 1`.
    pub fn from_one_based_index(i: u32) -> (r: Result<Self, EgError>)
        ensures
            r is Ok <==> 1 <= i <= MAX_GUARDIANS,
            r is Ok ==> r->Ok_0@ == i,
            r is Err ==> r->Err_0 == EgError::InvalidParameter,
    {
        if 1 <= i && i <= MAX_GUARDIANS {
            Ok(GuardianIndex { one_based: i })
        } else {
            Err(EgError::InvalidParameter)
        }
    }

    /// The index, counted from one.
    pub fn get_one_based_u32(&self) -> (r: u32)
        ensures
            r == self@,
            1 <= r <= MAX_GUARDIANS,
    {
        proof {
            use_type_invariant(self);
        }
        self.one_based
    }

    /// The index, counted from zero.
    pub fn get_zero_based_usize(&self) -> (r: usize)
        ensures
            r == self@ - 1,
    {
        proof {
            use_type_invariant(self);
        }
        (self.one_based - 1) as usize
    }

    /// The index, counted from one.
    pub fn get_one_based_usize(&self) -> (r: usize)
        ensures
            r == self@,
    {
        self.one_based as usize
    }
}

/// What a guardian keeps to itself: its index, the coefficients
/// `a_0, .., a_(k-1)` of its secret polynomial, and the commitments
/// `g^(a_j) mod p` to them.
#[derive(Debug)]
pub struct GuardianSecretKey {
    pub i: GuardianIndex,
    pub secret_coefficients: Vec<BigNat>,
    pub coefficient_commitments: Vec<BigNat>,
}

/// What a guardian publishes: its index and the commitments to the
/// coefficients of its secret polynomial.
#[derive(Debug, PartialEq, Eq)]
pub struct GuardianPublicKey {
    pub i: GuardianIndex,
    pub coefficient_commitments: Vec<BigNat>,
}

impl Clone for GuardianSecretKey {
    fn clone(&self) -> (r: Self)
        ensures
            r.i@ == self.i@,
            r.coefficients() == self.coefficients(),
            r.commitments() == self.commitments(),
    {
        GuardianSecretKey {
            i: self.i,
            secret_coefficients: clone_all(&self.secret_coefficients),
            coefficient_commitments: clone_all(&self.coefficient_commitments),
        }
    }
}

impl Clone for GuardianPublicKey {
    fn clone(&self) -> (r: Self)
        ensures
            r.i@ == self.i@,
            r.commitments() == self.commitments(),
    {
        GuardianPublicKey {
            i: self.i,
            coefficient_commitments: clone_all(&self.coefficient_commitments),
        }
    }
}

/// The commitments `g^(a_j) mod p` to the coefficients `a_j`.
pub open spec fn commitments_of(coefficients: Seq<nat>, g: nat, p: nat) -> Seq<nat> {
    Seq::new(coefficients.len(), |j: int| mod_pow(g, coefficients[j], p))
}

/// Whether every one of `coefficients` is a scalar in `[0, q)`.
pub open spec fn all_below(coefficients: Seq<nat>, q: nat) -> bool {
    forall|j: int| 0 <= j < coefficients.len() ==> coefficients[j] < q
}

/// Checks that there are `k` coefficients, each a scalar in `[0, q)`.
pub fn check_coefficients(
    election_parameters: &ElectionParameters,
    coefficients: &Vec<BigNat>,
) -> (r: Result<(), EgError>)
    ensures
        r is Ok <==> values(coefficients@).len() == election_parameters.k() && all_below(
            values(coefficients@),
            election_parameters.q(),
        ),
        r is Err ==> r->Err_0 == EgError::InvalidParameter,
{
    if coefficients.len() != election_parameters.varying_parameters.k as usize {
        return Err(EgError::InvalidParameter);
    }
    let mut j: usize = 0;
    while j < coefficients.len()
        invariant
            0 <= j <= coefficients@.len(),
            forall|t: int| 0 <= t < j ==> values(coefficients@)[t] < election_parameters.q(),
        decreases coefficients@.len() - j,
    {
        if !election_parameters.fixed_parameters.is_valid_modq(&coefficients[j]) {
            assert(!(values(coefficients@)[j as int] < election_parameters.q()));
            return Err(EgError::InvalidParameter);
        }
        j += 1;
    }
    Ok(())
}

impl GuardianSecretKey {
    /// The coefficients of the secret polynomial, lowest degree first.
    pub open spec fn coefficients(&self) -> Seq<nat> {
        values(self.secret_coefficients@)
    }

    /// The commitments to the coefficients.
    pub open spec fn commitments(&self) -> Seq<nat> {
        values(self.coefficient_commitments@)
    }

    /// The key is one of a guardian of this election: its index is at most
    /// `n`, it has `k` coefficients in `[0, q)`, and its commitments are
    /// those to its coefficients.
    pub open spec fn wf(&self, election_parameters: &ElectionParameters) -> bool {
        &&& 1 <= self.i@ <= election_parameters.n()
        &&& self.coefficients().len() == election_parameters.k()
        &&& all_below(self.coefficients(), election_parameters.q())
        &&& self.commitments() == commitments_of(
            self.coefficients(),
            election_parameters.g(),
            election_parameters.p(),
        )
    }

    /// The secret key of guardian `i` with the given coefficients.
    pub fn from_coefficients(
        election_parameters: &ElectionParameters,
        i: GuardianIndex,
        coefficients: Vec<BigNat>,
    ) -> (r: Self)
        requires
            election_parameters.wf(),
        ensures
            r.i@ == i@,
            r.coefficients() == values(coefficients@),
            r.commitments() == commitments_of(
                values(coefficients@),
                election_parameters.g(),
                election_parameters.p(),
            ),
    {
        let fixed_parameters = &election_parameters.fixed_parameters;
        let mut commitments: Vec<BigNat> = Vec::new();
        let mut j: usize = 0;
        while j < coefficients.len()
            invariant
                election_parameters.wf(),
                fixed_parameters == &election_parameters.fixed_parameters,
                0 <= j <= coefficients@.len(),
                commitments@.len() == j,
                forall|t: int|
                    0 <= t < j ==> (#[trigger] commitments@[t])@ == mod_pow(
                        election_parameters.g(),
                        coefficients@[t]@,
                        election_parameters.p(),
                    ),
            decreases coefficients@.len() - j,
        {
            let c = fixed_parameters.g.modpow(&coefficients[j], &fixed_parameters.p);
            commitments.push(c);
            j += 1;
        }
        assert(values(commitments@) =~= commitments_of(
            values(coefficients@),
            election_parameters.g(),
            election_parameters.p(),
        ));
        GuardianSecretKey { i, secret_coefficients: coefficients, coefficient_commitments: commitments }
    }

    /// A secret key for guardian `i`. Its coefficients are `fixed_coefficients`
    /// where they are given; else `k` scalars in `[0, q)` drawn from `csprng`.
    pub fn generate(
        csprng: &mut Csprng,
        election_parameters: &ElectionParameters,
        i: GuardianIndex,
        fixed_coefficients: Option<Vec<BigNat>>,
    ) -> (r: Self)
        requires
            election_parameters.wf(),
            i@ <= election_parameters.n(),
            fixed_coefficients is Some ==> values(fixed_coefficients->0@).len()
                == election_parameters.k() && all_below(
                values(fixed_coefficients->0@),
                election_parameters.q(),
            ),
        ensures
            r.wf(election_parameters),
            r.i@ == i@,
            fixed_coefficients is Some ==> r.coefficients() == values(fixed_coefficients->0@)
                && final(csprng)@ == old(csprng)@,
            fixed_coefficients is None ==> (r.coefficients(), final(csprng)@) == sample_many(
                old(csprng)@,
                election_parameters.q(),
                election_parameters.k(),
            ),
    {
        let ghost start = csprng@;
        let coefficients = match fixed_coefficients {
            Some(coefficients) => coefficients,
            None => {
                let k = election_parameters.varying_parameters.k;
                let mut drawn: Vec<BigNat> = Vec::new();
                let mut j: u32 = 0;
                while j < k
                    invariant
                        election_parameters.wf(),
                        k == election_parameters.varying_parameters.k,
                        0 <= j <= k,
                        drawn@.len() == j,
                        (values(drawn@), csprng@) == sample_many(
                            start,
                            election_parameters.q(),
                            j as nat,
                        ),
                        all_below(values(drawn@), election_parameters.q()),
                    decreases k - j,
                {
                    let ghost before = values(drawn@);
                    let a = csprng.next_biguint_lt(&election_parameters.fixed_parameters.q);
                    drawn.push(a);
                    assert(values(drawn@) =~= before.push(a@));
                    j += 1;
                }
                drawn
            },
        };
        proof {
            use_type_invariant(i);
        }
        GuardianSecretKey::from_coefficients(election_parameters, i, coefficients)
    }

    /// Checks the key against the election parameters: `Ok` exactly where
    /// it is one of a guardian of this election. To be called on a key that
    /// was read from outside.
    pub fn validate(&self, election_parameters: &ElectionParameters) -> (r: Result<(), EgError>)
        requires
            election_parameters.wf(),
        ensures
            r is Ok <==> self.wf(election_parameters),
            r is Err ==> r->Err_0 == EgError::InvalidParameter,
    {
        let fixed_parameters = &election_parameters.fixed_parameters;
        let i = self.i.get_one_based_u32();
        if i > election_parameters.varying_parameters.n {
            return Err(EgError::InvalidParameter);
        }
        match check_coefficients(election_parameters, &self.secret_coefficients) {
            Ok(()) => {},
            Err(e) => {
                return Err(e);
            },
        }
        if self.coefficient_commitments.len() != self.secret_coefficients.len() {
            assert(self.commitments().len() != self.coefficients().len());
            return Err(EgError::InvalidParameter);
        }
        let ghost expected = commitments_of(
            self.coefficients(),
            election_parameters.g(),
            election_parameters.p(),
        );
        let mut j: usize = 0;
        while j < self.secret_coefficients.len()
            invariant
                election_parameters.wf(),
                fixed_parameters == &election_parameters.fixed_parameters,
                self.coefficient_commitments@.len() == self.secret_coefficients@.len(),
                expected == commitments_of(
                    self.coefficients(),
                    election_parameters.g(),
                    election_parameters.p(),
                ),
                0 <= j <= self.secret_coefficients@.len(),
                forall|t: int| 0 <= t < j ==> self.commitments()[t] == expected[t],
            decreases self.secret_coefficients@.len() - j,
        {
            let commitment = fixed_parameters.g.modpow(
                &self.secret_coefficients[j],
                &fixed_parameters.p,
            );
            assert(commitment@ == expected[j as int]);
            if !commitment.equals(&self.coefficient_commitments[j]) {
                assert(self.commitments()[j as int] != expected[j as int]);
                return Err(EgError::InvalidParameter);
            }
            j += 1;
        }
        assert(self.commitments() =~= expected);
        Ok(())
    }

    /// The guardian's secret `s = a_0`.
    pub fn secret_s(&self) -> (r: &BigNat)
        requires
            self.coefficients().len() > 0,
        ensures
            r@ == self.coefficients()[0],
    {
        &self.secret_coefficients[0]
    }

    /// The public key that goes with this secret key.
    pub fn make_public_key(&self) -> (r: GuardianPublicKey)
        ensures
            r.i@ == self.i@,
            r.commitments() == self.commitments(),
    {
        GuardianPublicKey {
            i: self.i,
            coefficient_commitments: clone_all(&self.coefficient_commitments),
        }
    }
}

impl GuardianPublicKey {
    /// The commitments to the coefficients.
    pub open spec fn commitments(&self) -> Seq<nat> {
        values(self.coefficient_commitments@)
    }

    /// The key is in order for this election: its index is from 1 to `n`, it
    /// has `k` commitments, and each of them is a residue modulo `p` that
    /// lies in the subgroup of order `q`.
    pub open spec fn valid(&self, election_parameters: &ElectionParameters) -> bool {
        &&& 1 <= self.i@ <= election_parameters.n()
        &&& self.commitments().len() == election_parameters.k()
        &&& forall|j: int|
            0 <= j < self.commitments().len() ==> is_subgroup_element(
                #[trigger] self.commitments()[j],
                election_parameters.q(),
                election_parameters.p(),
            )
    }

    /// Checks the key against the election parameters: `Ok` exactly where it
    /// is valid.
    pub fn validate(&self, election_parameters: &ElectionParameters) -> (r: Result<(), EgError>)
        requires
            election_parameters.wf(),
        ensures
            r is Ok <==> self.valid(election_parameters),
            r is Err ==> r->Err_0 == EgError::InvalidParameter,
    {
        let fixed_parameters = &election_parameters.fixed_parameters;
        if self.i.get_one_based_u32() > election_parameters.varying_parameters.n {
            return Err(EgError::InvalidParameter);
        }
        if self.coefficient_commitments.len() != election_parameters.varying_parameters.k as usize {
            return Err(EgError::InvalidParameter);
        }
        let one = BigNat::one();
        let mut j: usize = 0;
        while j < self.coefficient_commitments.len()
            invariant
                election_parameters.wf(),
                fixed_parameters == &election_parameters.fixed_parameters,
                one@ == 1,
                0 <= j <= self.coefficient_commitments@.len(),
                forall|t: int|
                    0 <= t < j ==> is_subgroup_element(
                        #[trigger] self.commitments()[t],
                        election_parameters.q(),
                        election_parameters.p(),
                    ),
            decreases self.coefficient_commitments@.len() - j,
        {
            let c = &self.coefficient_commitments[j];
            assert(c@ == self.commitments()[j as int]);
            if !fixed_parameters.is_valid_modp(c) {
                return Err(EgError::InvalidParameter);
            }
            if !c.modpow(&fixed_parameters.q, &fixed_parameters.p).equals(&one) {
                return Err(EgError::InvalidParameter);
            }
            j += 1;
        }
        Ok(())
    }

    /// The guardian's public key proper, `K_(i,0)`: the commitment to `a_0`.
    pub fn public_key_k_i_0(&self) -> (r: &BigNat)
        requires
            self.commitments().len() > 0,
        ensures
            r@ == self.commitments()[0],
    {
        &self.coefficient_commitments[0]
    }
}

/// The indices of the guardians whose public keys these are, in their order.
pub open spec fn indices_of(keys: Seq<GuardianPublicKey>) -> Seq<u32> {
    Seq::new(keys.len(), |j: int| keys[j].i@ as u32)
}

/// Whether each of the public keys is valid for the election.
pub open spec fn all_valid(
    keys: Seq<GuardianPublicKey>,
    election_parameters: &ElectionParameters,
) -> bool {
    forall|j: int| 0 <= j < keys.len() ==> (#[trigger] keys[j]).valid(election_parameters)
}

/// Whether the public keys are those of the guardians of the election: each
/// of them valid, and one for each of the guardians `1, .., n`.
pub open spec fn represent_all(
    keys: Seq<GuardianPublicKey>,
    election_parameters: &ElectionParameters,
) -> bool {
    all_valid(keys, election_parameters) && covers(indices_of(keys), election_parameters.n())
}

/// `e` is the error that tells what keeps these public keys from being
/// those of the guardians of the election: that one of them is not valid;
/// else the first index that occurs a second time; else the guardians that
/// are missing.
pub open spec fn is_key_check_error(
    e: EgError,
    keys: Seq<GuardianPublicKey>,
    election_parameters: &ElectionParameters,
) -> bool {
    let indices = indices_of(keys);
    if !all_valid(keys, election_parameters) {
        e == EgError::InvalidParameter
    } else if !indices.no_duplicates() {
        exists|j: int|
            is_first_duplicate(indices, j) && e.is_coverage_error(seq![indices[j]], Seq::empty())
    } else {
        e.is_coverage_error(Seq::empty(), missing_of(indices, election_parameters.n()))
    }
}

/// Checks that the public keys are those of the guardians of the election.
/// Each key is validated first; then the indices are checked to stand for
/// each guardian exactly once.
pub fn check_guardian_public_keys(
    election_parameters: &ElectionParameters,
    guardian_public_keys: &[GuardianPublicKey],
) -> (r: Result<(), EgError>)
    requires
        election_parameters.wf(),
    ensures
        r is Ok <==> represent_all(guardian_public_keys@, election_parameters),
        r is Err ==> is_key_check_error(r->Err_0, guardian_public_keys@, election_parameters),
{
    let mut indices: Vec<u32> = Vec::new();
    let mut j: usize = 0;
    while j < guardian_public_keys.len()
        invariant
            election_parameters.wf(),
            0 <= j <= guardian_public_keys@.len(),
            indices@ == indices_of(guardian_public_keys@.take(j as int)),
            all_valid(guardian_public_keys@.take(j as int), election_parameters),
        decreases guardian_public_keys@.len() - j,
    {
        let key = &guardian_public_keys[j];
        match key.validate(election_parameters) {
            Ok(()) => {},
            Err(e) => {
                assert(!guardian_public_keys@[j as int].valid(election_parameters));
                return Err(e);
            },
        }
        indices.push(key.i.get_one_based_u32());
        proof {
            let before = guardian_public_keys@.take(j as int);
            let after = guardian_public_keys@.take(j + 1);
            assert(after =~= before.push(*key));
            assert(indices@ =~= indices_of(after));
            assert forall|t: int| 0 <= t < after.len() implies (#[trigger] after[t]).valid(
                election_parameters,
            ) by {
                if t < j {
                    assert(before[t].valid(election_parameters));
                }
            }
        }
        j += 1;
    }
    assert(guardian_public_keys@.take(j as int) =~= guardian_public_keys@);
    assert forall|t: int| 0 <= t < indices@.len() implies 1 <= #[trigger] indices@[t]
        <= election_parameters.varying_parameters.n by {
        assert(guardian_public_keys@[t].valid(election_parameters));
    }
    check_coverage(election_parameters.varying_parameters.n, &indices)
}

/// The public key that goes with a secret key of a guardian of the election
/// is valid, where the group is.
pub proof fn lemma_public_key_of_secret_key_is_valid(
    election_parameters: &ElectionParameters,
    secret_key: &GuardianSecretKey,
    public_key: &GuardianPublicKey,
)
    requires
        election_parameters.wf(),
        election_parameters.fixed_parameters.valid(),
        secret_key.wf(election_parameters),
        public_key.i@ == secret_key.i@,
        public_key.commitments() == secret_key.commitments(),
    ensures
        public_key.valid(election_parameters),
{
    let p = election_parameters.p();
    let q = election_parameters.q();
    let g = election_parameters.g();
    assert forall|j: int| 0 <= j < public_key.commitments().len() implies is_subgroup_element(
        #[trigger] public_key.commitments()[j],
        q,
        p,
    ) by {
        lemma_subgroup_closed_under_pow(g, secret_key.coefficients()[j], q, p);
    }
}

} // verus!
