//! Whether a list of guardian indices stands for each of the guardians
//! `1, .., n` exactly once.

use crate::errors::EgError;
use vstd::prelude::*;
use vstd::seq_lib::*;

verus! {

/// The indices `1, .., n` in ascending order.
pub open spec fn one_to_n(n: nat) -> Seq<u32> {
    Seq::new(n, |j: int| (j + 1) as u32)
}

/// The indices are those of the guardians `1, .., n`, each exactly once, in
/// whatever order.
pub open spec fn covers(indices: Seq<u32>, n: nat) -> bool {
    indices.to_multiset() =~= one_to_n(n).to_multiset()
}

/// The test that an index does not occur among `indices`.
pub open spec fn absent_from(indices: Seq<u32>) -> spec_fn(u32) -> bool {
    |v: u32| !indices.contains(v)
}

/// The guardians among `1, .., n` that `indices` leaves out, in ascending
/// order.
pub open spec fn missing_of(indices: Seq<u32>, n: nat) -> Seq<u32> {
    one_to_n(n).filter(absent_from(indices))
}

/// `j` is the first position whose index occurred before.
pub open spec fn is_first_duplicate(indices: Seq<u32>, j: int) -> bool {
    &&& 0 <= j < indices.len()
    &&& indices.take(j).no_duplicates()
    &&& indices.take(j).contains(indices[j])
}

proof fn lemma_one_to_n(n: nat)
    requires
        n <= u32::MAX,
    ensures
        one_to_n(n).no_duplicates(),
        forall|v: u32| one_to_n(n).contains(v) <==> 1 <= v <= n,
        forall|v: u32| #[trigger]
            one_to_n(n).to_multiset().count(v) == (if 1 <= v <= n {
                1nat
            } else {
                0nat
            }),
{
    let s = one_to_n(n);
    assert forall|v: u32| s.contains(v) <==> 1 <= v <= n by {
        if 1 <= v <= n {
            assert(s[v - 1] == v);
        }
    }
    s.lemma_multiset_has_no_duplicates();
    assert forall|v: u32| #[trigger]
        s.to_multiset().count(v) == (if 1 <= v <= n {
            1nat
        } else {
            0nat
        }) by {
        to_multiset_contains(s, v);
    }
}

/// A list covers the guardians `1, .., n` exactly where it has no index
/// twice, none outside `1, .., n`, and each of `1, .., n`.
pub proof fn lemma_covers_iff(indices: Seq<u32>, n: nat)
    requires
        n <= u32::MAX,
    ensures
        covers(indices, n) <==> {
            &&& indices.no_duplicates()
            &&& forall|v: u32| indices.contains(v) <==> 1 <= v <= n
        },
{
    broadcast use vstd::multiset::group_multiset_axioms;

    lemma_one_to_n(n);
    let m = indices.to_multiset();
    let m1 = one_to_n(n).to_multiset();
    if covers(indices, n) {
        assert forall|v: u32| m.contains(v) implies m.count(v) == 1 by {
            assert(m.count(v) == m1.count(v));
        }
        indices.lemma_multiset_has_no_duplicates_conv();
        assert forall|v: u32| indices.contains(v) <==> 1 <= v <= n by {
            to_multiset_contains(indices, v);
            assert(m.count(v) == m1.count(v));
        }
    }
    if indices.no_duplicates() && (forall|v: u32| indices.contains(v) <==> 1 <= v <= n) {
        indices.lemma_multiset_has_no_duplicates();
        assert forall|v: u32| m.count(v) == m1.count(v) by {
            to_multiset_contains(indices, v);
            if indices.contains(v) {
                assert(m.contains(v));
            }
        }
        assert(m =~= m1);
    }
}

/// A guardian is missing exactly where the list of the missing is not empty.
proof fn lemma_missing_of(indices: Seq<u32>, n: nat)
    requires
        n <= u32::MAX,
    ensures
        missing_of(indices, n).len() == 0 <==> (forall|v: u32|
            1 <= v <= n ==> indices.contains(v)),
{
    lemma_one_to_n(n);
    let s = one_to_n(n);
    let absent = absent_from(indices);
    if forall|v: u32| 1 <= v <= n ==> indices.contains(v) {
        assert(s.all(|x: u32| !absent(x))) by {
            assert forall|i: int| 0 <= i < s.len() implies !absent(#[trigger] s[i]) by {
                assert(s.contains(s[i]));
            }
        }
        s.lemma_all_neg_filter_empty(absent);
    } else {
        let v = choose|v: u32| 1 <= v <= n && !indices.contains(v);
        assert(s[v - 1] == v);
        s.lemma_filter_contains(absent, v - 1);
        assert(s.filter(absent).contains(v));
    }
}

/// Checks that `indices`, each of them from 1 to `n`, stand for each of the
/// guardians `1, .., n` exactly once. The first index that occurs a second
/// time is reported; where there is none, the guardians that are missing.
pub fn check_coverage(n: u32, indices: &Vec<u32>) -> (r: Result<(), EgError>)
    requires
        forall|j: int| 0 <= j < indices@.len() ==> 1 <= #[trigger] indices@[j] <= n,
    ensures
        r is Ok <==> covers(indices@, n as nat),
        !indices@.no_duplicates() ==> exists|j: int|
            is_first_duplicate(indices@, j) && r is Err && r->Err_0.is_coverage_error(
                seq![indices@[j]],
                Seq::empty(),
            ),
        indices@.no_duplicates() && !covers(indices@, n as nat) ==> r is Err
            && r->Err_0.is_coverage_error(Seq::empty(), missing_of(indices@, n as nat)),
{
    proof {
        lemma_covers_iff(indices@, n as nat);
        lemma_missing_of(indices@, n as nat);
    }
    let mut seen: Vec<bool> = vec![false; n as usize];
    let mut j: usize = 0;
    while j < indices.len()
        invariant
            0 <= j <= indices@.len(),
            seen@.len() == n,
            forall|t: int| 0 <= t < indices@.len() ==> 1 <= #[trigger] indices@[t] <= n,
            forall|v: int|
                0 <= v < n ==> (#[trigger] seen@[v] <==> indices@.take(j as int).contains(
                    (v + 1) as u32,
                )),
            indices@.take(j as int).no_duplicates(),
        decreases indices@.len() - j,
    {
        let index: u32 = indices[j];
        let at: usize = (index - 1) as usize;
        let ghost before = indices@.take(j as int);
        if seen[at] {
            let duplicates: Vec<u32> = vec![index];
            let missing: Vec<u32> = Vec::new();
            assert(duplicates@ =~= seq![indices@[j as int]]);
            assert(missing@ =~= Seq::<u32>::empty());
            let r: Result<(), EgError> = Err(EgError::CoverageError { duplicates, missing });
            proof {
                lemma_covers_iff(indices@, n as nat);
                assert(before.contains(index));
                assert(is_first_duplicate(indices@, j as int));
                let t = before.index_of(index);
                assert(indices@[t] == indices@[j as int]);
                assert(!indices@.no_duplicates());
                assert(r->Err_0.is_coverage_error(seq![indices@[j as int]], Seq::empty()));
            }
            return r;
        }
        seen.set(at, true);
        proof {
            let after = indices@.take(j + 1);
            assert(after =~= before.push(index));
            assert forall|v: int| 0 <= v < n implies (#[trigger] seen@[v] <==> after.contains(
                (v + 1) as u32,
            )) by {
                let x = (v + 1) as u32;
                if after.contains(x) {
                    let t = after.index_of(x);
                    if t < j {
                        assert(before[t] == x);
                    }
                }
                if before.contains(x) {
                    let t = before.index_of(x);
                    assert(after[t] == x);
                }
                if v == at {
                    assert(after[j as int] == x);
                }
            }
            assert(after.no_duplicates()) by {
                assert forall|a: int, b: int|
                    0 <= a < after.len() && 0 <= b < after.len() && a != b implies after[a]
                    != after[b] by {
                    if a < j && b < j {
                        assert(before[a] != before[b]);
                    } else if a < j {
                        assert(before[a] == after[a]);
                        assert(before.contains(after[a]));
                    } else {
                        assert(before[b] == after[b]);
                        assert(before.contains(after[b]));
                    }
                }
            }
        }
        j += 1;
    }
    assert(indices@.take(j as int) =~= indices@);
    let mut missing: Vec<u32> = Vec::new();
    let mut v: u32 = 0;
    while v < n
        invariant
            0 <= v <= n,
            seen@.len() == n,
            forall|t: int|
                0 <= t < n ==> (#[trigger] seen@[t] <==> indices@.contains((t + 1) as u32)),
            missing@ == missing_of(indices@, v as nat),
        decreases n - v,
    {
        proof {
            assert(one_to_n((v + 1) as nat) =~= one_to_n(v as nat).push((v + 1) as u32));
            one_to_n(v as nat).lemma_filter_push((v + 1) as u32, absent_from(indices@));
        }
        if !seen[v as usize] {
            missing.push(v + 1);
        }
        v += 1;
    }
    if missing.len() > 0 {
        let duplicates: Vec<u32> = Vec::new();
        assert(duplicates@ =~= Seq::<u32>::empty());
        Err(EgError::CoverageError { duplicates, missing })
    } else {
        Ok(())
    }
}

} // verus!
