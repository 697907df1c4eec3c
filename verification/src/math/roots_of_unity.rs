use crate::math::field::{fmul, fpow, Field};
use vstd::arithmetic::power::*;
use vstd::prelude::*;

verus! {

/// The residues below `k` whose `n`-th power is 1 modulo `order`, ascending.
pub open spec fn roots_below(order: u32, n: u32, k: int) -> Seq<u32>
    decreases k,
{
    if k <= 0 {
        Seq::empty()
    } else if fpow(order, (k - 1) as u32, n as nat) == 1 {
        roots_below(order, n, k - 1).push((k - 1) as u32)
    } else {
        roots_below(order, n, k - 1)
    }
}

/// The `n`-th roots of unity modulo `order` in the order of the evaluation
/// domain: ascending, but with the third and the fourth exchanged.
pub open spec fn roots_of_unity(order: u32, n: u32) -> Seq<u32> {
    let r = roots_below(order, n, order as int);
    r.update(2, r[3]).update(3, r[2])
}

/// The multiples `k * root` modulo `order` of the given roots.
pub open spec fn coset(order: u32, k: u32, roots: Seq<u32>) -> Seq<u32> {
    Seq::new(roots.len(), |i: int| fmul(order, roots[i], k))
}

/// The roots found below `k` are canonical residues.
pub proof fn lemma_roots_below_bound(order: u32, n: u32, k: int)
    requires
        k <= order,
    ensures
        roots_below(order, n, k).len() <= (if k <= 0 {
            0
        } else {
            k
        }),
        forall|i: int| 0 <= i < roots_below(order, n, k).len() ==> roots_below(order, n, k)[i] < order,
    decreases k,
{
    if k > 0 {
        lemma_roots_below_bound(order, n, k - 1);
    }
}

/// Zero is no root of unity for an exponent above zero, so there are fewer
/// roots than residues.
pub proof fn lemma_fewer_roots_than_residues(order: u32, n: u32, k: int)
    requires
        n >= 1,
        1 <= k <= order,
    ensures
        roots_below(order, n, k).len() < k,
    decreases k,
{
    if k == 1 {
        lemma0_pow(n as nat);
        assert(roots_below(order, n, 0).len() == 0);
    } else {
        lemma_fewer_roots_than_residues(order, n, k - 1);
    }
}

/// The `n`-th roots of unity of the field, as the evaluation domain orders
/// them. The field must have at least four of them.
pub fn get_roots_of_unity(n: u32, field: &Field) -> (res: Vec<u32>)
    requires
        field.order > 0,
        roots_below(field.order, n, field.order as int).len() >= 4,
    ensures
        res@ == roots_of_unity(field.order, n),
        res@.len() >= 4,
        forall|i: int| 0 <= i < res@.len() ==> res@[i] < field.order,
{
    let mut res: Vec<u32> = Vec::new();
    let mut i: u32 = 0;
    while i < field.order
        invariant
            field.order > 0,
            i <= field.order,
            res@ == roots_below(field.order, n, i as int),
        decreases field.order - i,
    {
        if field.exponent(i, n) == 1 {
            res.push(i);
        }
        i = i + 1;
    }
    proof {
        lemma_roots_below_bound(field.order, n, field.order as int);
    }
    let third = res[2];
    let fourth = res[3];
    res.set(2, fourth);
    res.set(3, third);
    res
}

/// The coset of the roots under multiplication by `k`.
pub fn get_coset(k: u32, roots: &Vec<u32>, field: &Field) -> (res: Vec<u32>)
    requires
        field.order > 0,
    ensures
        res@ == coset(field.order, k, roots@),
        forall|i: int| 0 <= i < res@.len() ==> res@[i] < field.order,
{
    let mut res: Vec<u32> = Vec::new();
    let mut i: usize = 0;
    while i < roots.len()
        invariant
            field.order > 0,
            i <= roots.len(),
            res@.len() == i,
            forall|j: int| 0 <= j < i ==> (#[trigger] res@[j]) == fmul(field.order, roots@[j], k),
            forall|j: int| 0 <= j < i ==> (#[trigger] res@[j]) < field.order,
        decreases roots.len() - i,
    {
        res.push(field.multiply(roots[i], k));
        i = i + 1;
    }
    proof {
        assert(res@ =~= coset(field.order, k, roots@));
    }
    res
}

} // verus!
