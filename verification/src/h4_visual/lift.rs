//! The basis lift: the residue address of an integer over a basis of any
//! size `K`. Extending the basis keeps the earlier lanes unchanged and
//! adds one true residue per new prime.

use vstd::prelude::*;
use crate::h4_visual::alphabet::basis_address;
use crate::substrate::{safe_basis, cram_spec};

verus! {

/// The Safe Basis extended by 17.
pub const SAFE_BASIS_K7: [u64; 7] = [2, 3, 5, 7, 11, 13, 17];

/// The Safe Basis extended by 17 and 19.
pub const SAFE_BASIS_K8: [u64; 8] = [2, 3, 5, 7, 11, 13, 17, 19];

/// The Safe Basis extended by 17, 19, 23 and 29.
pub const SAFE_BASIS_K10: [u64; 10] = [2, 3, 5, 7, 11, 13, 17, 19, 23, 29];

/// Residue address of `x` over `basis`: lane `i` is `x mod basis[i]`.
pub fn lift<const K: usize>(x: u64, basis: &[u64; K]) -> (addr: [u64; K])
    requires
        forall|i: int| 0 <= i < K ==> #[trigger] basis@[i] > 0,
    ensures
        addr@ == basis_address(x, basis@),
{
    let mut addr: [u64; K] = [0u64; K];
    let mut i: usize = 0;
    while i < K
        invariant
            forall|j: int| 0 <= j < K ==> #[trigger] basis@[j] > 0,
            0 <= i <= K,
            addr@.len() == K,
            forall|j: int| 0 <= j < i ==> #[trigger] addr@[j] == x % basis@[j],
        decreases K - i,
    {
        addr[i] = x % basis[i];
        i = i + 1;
    }
    assert(basis@.len() == K);
    assert forall|j: int| 0 <= j < K implies #[trigger] addr@[j] == basis_address(x, basis@)[j] by {}
    assert(addr@ =~= basis_address(x, basis@));
    addr
}

/// Product of a basis, saturating at `u128::MAX`.
pub open spec fn saturating_product(s: Seq<u64>) -> nat
    decreases s.len(),
{
    if s.len() == 0 {
        1
    } else {
        let p = saturating_product(s.drop_last()) * (s.last() as nat);
        if p > u128::MAX {
            u128::MAX as nat
        } else {
            p
        }
    }
}

/// Product of the primes of a basis, saturating at `u128::MAX`.
pub fn basis_product<const K: usize>(basis: &[u64; K]) -> (prod: u128)
    ensures
        prod == saturating_product(basis@),
{
    let mut prod: u128 = 1;
    let mut i: usize = 0;
    assert(basis@.len() == K);
    while i < K
        invariant
            basis@.len() == K,
            0 <= i <= K,
            prod == saturating_product(basis@.subrange(0, i as int)),
        decreases K - i,
    {
        assert(basis@.subrange(0, i as int + 1).drop_last() =~= basis@.subrange(0, i as int));
        prod = match prod.checked_mul(basis[i] as u128) {
            Some(v) => v,
            None => u128::MAX,
        };
        i = i + 1;
    }
    assert(basis@.subrange(0, K as int) =~= basis@);
    prod
}

/// Over the Safe Basis the lift is the residue address.
pub proof fn lemma_lift_safe_basis(x: u64)
    ensures
        basis_address(x, safe_basis()) == cram_spec(x),
{
    assert(basis_address(x, safe_basis()) =~= cram_spec(x));
}

/// Extending a basis keeps the lanes of the shorter basis unchanged.
pub proof fn lemma_lift_extension(x: u64, b: Seq<u64>, c: Seq<u64>)
    requires
        b.len() <= c.len(),
        c.subrange(0, b.len() as int) == b,
    ensures
        basis_address(x, c).subrange(0, b.len() as int) == basis_address(x, b),
{
    assert forall|i: int| 0 <= i < b.len() implies #[trigger] basis_address(x, c).subrange(
        0,
        b.len() as int,
    )[i] == basis_address(x, b)[i] by {
        assert(c.subrange(0, b.len() as int)[i] == c[i]);
    }
    assert(basis_address(x, c).subrange(0, b.len() as int) =~= basis_address(x, b));
}

/// Every lane of a lifted address is below its prime.
pub proof fn lemma_lift_bounded(x: u64, b: Seq<u64>, i: int)
    requires
        0 <= i < b.len(),
        b[i] > 0,
    ensures
        basis_address(x, b)[i] < b[i],
{
}

} // verus!
