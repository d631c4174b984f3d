//! Stride-based partitioning of the dataset: worker `i` of `n` takes
//! the users at positions `i`, `i + n`, `i + 2n`, ... in order.

use vstd::prelude::*;
use vstd::arithmetic::div_mod::lemma_div_pos_is_pos;
use vstd::arithmetic::div_mod::lemma_fundamental_div_mod;
use vstd::arithmetic::div_mod::lemma_mod_bound;
use vstd::arithmetic::div_mod::lemma_mod_multiples_vanish;
use vstd::arithmetic::div_mod::lemma_small_mod;
use vstd::arithmetic::mul::lemma_mul_equality_converse;
use vstd::arithmetic::mul::lemma_mul_inequality;
use crate::users::User;

verus! {

/// Slot `j` of the subset for worker `i` is filled correctly: it
/// names a dataset position, and carries that user's name.
pub open spec fn stride_slot_ok(users: Seq<User>, part: Seq<User>, i: int, n: int, j: int) -> bool {
    &&& i + j * n < users.len()
    &&& part[j].name@ == users[i + j * n].name@
}

/// Every slot of the subset for worker `i` is filled correctly.
pub open spec fn stride_row_ok(users: Seq<User>, part: Seq<User>, i: int, n: int) -> bool {
    forall|j: int| 0 <= j < part.len() ==> #[trigger] stride_slot_ok(users, part, i, n, j)
}

/// `parts` is the stride-based partition of `users` into `n` subsets:
/// subset `i` holds exactly the users at positions `i + j * n`
/// (for `j = 0, 1, 2, ...`), in order of position, compared by name.
pub open spec fn is_stride_partition(users: Seq<User>, parts: Seq<Vec<User>>, n: int) -> bool {
    &&& parts.len() == n
    &&& forall|i: int| 0 <= i < n ==> users.len() <= i + (#[trigger] parts[i])@.len() * n
    &&& forall|i: int| 0 <= i < n ==> stride_row_ok(users, (#[trigger] parts[i])@, i, n)
}

/// Dataset position `k` is present in the partition, in the subset
/// `k % n` at slot `k / n`, with the same name.
pub open spec fn slot_of_dataset_ok(users: Seq<User>, parts: Seq<Vec<User>>, n: int, k: int) -> bool {
    &&& 0 <= k % n < parts.len()
    &&& 0 <= k / n < parts[k % n]@.len()
    &&& parts[k % n]@[k / n].name@ == users[k].name@
}

/// Split `users` into `n` stride-based subsets, one per worker.
pub fn partition(users: &Vec<User>, n: usize) -> (parts: Vec<Vec<User>>)
    requires
        n >= 1,
        users@.len() + n <= usize::MAX,
    ensures
        is_stride_partition(users@, parts@, n as int),
{
    let m = users.len();
    let mut parts: Vec<Vec<User>> = Vec::new();
    let mut i: usize = 0;
    while i < n
        invariant
            i <= n,
            m == users@.len(),
            m + n <= usize::MAX,
            n >= 1,
            parts@.len() == i as int,
            forall|i0: int| 0 <= i0 < i ==> m <= i0 + (#[trigger] parts@[i0])@.len() * (n as int),
            forall|i0: int|
                0 <= i0 < i ==> stride_row_ok(users@, (#[trigger] parts@[i0])@, i0, n as int),
        decreases n - i,
    {
        let mut part: Vec<User> = Vec::new();
        let mut k: usize = i;
        proof {
            assert(part@.len() * (n as int) == 0) by (nonlinear_arith)
                requires
                    part@.len() == 0,
            ;
        }
        while k < m
            invariant
                i < n,
                m == users@.len(),
                m + n <= usize::MAX,
                n >= 1,
                k as int == i + part@.len() * (n as int),
                stride_row_ok(users@, part@, i as int, n as int),
            decreases m + n - k,
        {
            let ghost len0 = part@.len() as int;
            let ghost part0 = part@;
            part.push(users[k].clone());
            proof {
                assert((len0 + 1) * (n as int) == len0 * (n as int) + n) by (nonlinear_arith);
                assert forall|j: int| 0 <= j < part@.len() implies #[trigger] stride_slot_ok(
                    users@,
                    part@,
                    i as int,
                    n as int,
                    j,
                ) by {
                    assert(part@[j] == if j < len0 {
                        part0[j]
                    } else {
                        part@[len0]
                    });
                    if j < len0 {
                        assert(stride_slot_ok(users@, part0, i as int, n as int, j));
                    } else {
                        assert(part@[j].name@ == users@[k as int].name@);
                        assert(i + j * (n as int) == k as int);
                    }
                }
            }
            k = k + n;
        }
        let ghost partv = part@;
        let ghost partsv0 = parts@;
        parts.push(part);
        proof {
            assert forall|i0: int| 0 <= i0 < i + 1 implies m <= i0 + (#[trigger] parts@[i0])@.len()
                * (n as int) by {
                if i0 < i {
                    assert(parts@[i0] == partsv0[i0]);
                } else {
                    assert(parts@[i0]@ == partv);
                    assert(k as int == i + partv.len() * (n as int));
                    assert(k >= m);
                }
            }
            assert forall|i0: int| 0 <= i0 < i + 1 implies stride_row_ok(
                users@,
                (#[trigger] parts@[i0])@,
                i0,
                n as int,
            ) by {
                if i0 < i {
                    assert(parts@[i0] == partsv0[i0]);
                    assert(stride_row_ok(users@, partsv0[i0]@, i0, n as int));
                } else {
                    assert(parts@[i0]@ == partv);
                    assert(stride_row_ok(users@, partv, i0, n as int));
                }
            }
        }
        i = i + 1;
    }
    parts
}

/// The stride-based subsets are a true partition of the dataset:
/// every user of the dataset stands in exactly one subset, at exactly
/// one position, every slot of every subset comes from the dataset,
/// and distinct slots come from distinct dataset positions.
pub proof fn lemma_stride_partition_exact(users: Seq<User>, parts: Seq<Vec<User>>, n: int)
    requires
        n >= 1,
        is_stride_partition(users, parts, n),
    ensures
        forall|k: int|
            0 <= k < users.len() ==> #[trigger] slot_of_dataset_ok(users, parts, n, k),
        forall|i: int, j: int|
            0 <= i < n && 0 <= j < parts[i]@.len() ==> #[trigger] stride_slot_ok(
                users,
                parts[i]@,
                i,
                n,
                j,
            ),
        forall|i1: int, j1: int, i2: int, j2: int|
            0 <= i1 < n && 0 <= j1 < parts[i1]@.len() && 0 <= i2 < n && 0 <= j2
                < parts[i2]@.len() && i1 + j1 * n == i2 + j2 * n
                ==> (#[trigger] parts[i1]@[j1]) == (#[trigger] parts[i2]@[j2]) && i1 == i2 && j1
                == j2,
{
    assert forall|k: int| 0 <= k < users.len() implies #[trigger] slot_of_dataset_ok(
        users,
        parts,
        n,
        k,
    ) by {
        lemma_mod_bound(k, n);
        lemma_div_pos_is_pos(k, n);
        lemma_fundamental_div_mod(k, n);
        let i = k % n;
        let j = k / n;
        assert(k == n * j + i);
        assert(n * j == j * n) by (nonlinear_arith);
        assert(k == i + j * n);
        if j >= parts[i]@.len() {
            lemma_mul_inequality(parts[i]@.len() as int, j, n);
            assert(users.len() <= i + parts[i]@.len() * n);
            assert(false);
        }
        assert(stride_slot_ok(users, parts[i]@, i, n, j));
    }
    assert forall|i: int, j: int| 0 <= i < n && 0 <= j < parts[i]@.len()
        implies #[trigger] stride_slot_ok(users, parts[i]@, i, n, j) by {
        assert(stride_row_ok(users, parts[i]@, i, n));
    }
    assert forall|i1: int, j1: int, i2: int, j2: int|
        0 <= i1 < n && 0 <= j1 < parts[i1]@.len() && 0 <= i2 < n && 0 <= j2
            < parts[i2]@.len() && i1 + j1 * n == i2 + j2 * n implies (#[trigger] parts[i1]@[j1])
        == (#[trigger] parts[i2]@[j2]) && i1 == i2 && j1 == j2 by {
        assert(j1 * n == n * j1) by (nonlinear_arith);
        assert(j2 * n == n * j2) by (nonlinear_arith);
        assert((n * j1 + i1) % n == i1 % n) by {
            lemma_mod_multiples_vanish(j1, i1, n);
        }
        assert((n * j2 + i2) % n == i2 % n) by {
            lemma_mod_multiples_vanish(j2, i2, n);
        }
        lemma_small_mod(i1 as nat, n as nat);
        lemma_small_mod(i2 as nat, n as nat);
        assert(i1 == i2);
        assert(n * j1 == n * j2);
        lemma_mul_equality_converse(n, j1, j2);
    }
}

} // verus!
