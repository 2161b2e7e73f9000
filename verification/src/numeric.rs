//! The identity elements of `num_traits`, with the laws its documentation
//! gives them.
use core::ops::{Add, Mul};
use vstd::prelude::*;
use vstd::std_specs::ops::{AddSpec, MulSpec};

verus! {

/// Where `T`'s addition has a specification, `z` is its identity: adding
/// `z` on either side is accepted and gives back the other operand.
pub open spec fn is_additive_identity<T: Add<Output = T>>(z: T) -> bool {
    T::obeys_add_spec() ==> forall|x: T|
        #![trigger z.add_spec(x)]
        #![trigger x.add_spec(z)]
        z.add_req(x) && x.add_req(z) && z.add_spec(x) == x && x.add_spec(z) == x
}

/// Where `T`'s multiplication has a specification, `u` is its identity:
/// multiplying by `u` on either side is accepted and gives back the other
/// operand.
pub open spec fn is_multiplicative_identity<T: Mul<Output = T>>(u: T) -> bool {
    T::obeys_mul_spec() ==> forall|x: T|
        #![trigger u.mul_spec(x)]
        #![trigger x.mul_spec(u)]
        u.mul_req(x) && x.mul_req(u) && u.mul_spec(x) == x && x.mul_spec(u) == x
}

/// Where `T`'s addition is specified, it has only one identity.
pub proof fn lemma_additive_identity_unique<T: Add<Output = T>>(z1: T, z2: T)
    requires
        T::obeys_add_spec(),
        is_additive_identity(z1),
        is_additive_identity(z2),
    ensures
        z1 == z2,
{
    assert(z1.add_spec(z2) == z2);
    assert(z1.add_spec(z2) == z1);
}

/// Calls `num_traits::Zero::zero`, the additive identity of `T`. The trait's
/// documented laws are `a + 0 = a` and `0 + a = a`; where `T`'s addition has
/// a specification, the contract states them for the returned value (and
/// that adding it is always accepted, its result being the other operand).
/// Where it has none, nothing is stated.
#[verifier::external_body]
pub(crate) fn zero_value<T: Add<Output = T> + num_traits::Zero>() -> (z: T)
    ensures
        is_additive_identity(z),
{
    T::zero()
}

/// Calls `num_traits::One::one`, the multiplicative identity of `T`. The
/// trait's documented laws are `a * 1 = a` and `1 * a = a`; where `T`'s
/// multiplication has a specification, the contract states them for the
/// returned value (and that multiplying by it is always accepted). Where it
/// has none, nothing is stated.
#[verifier::external_body]
pub(crate) fn one_value<T: Mul<Output = T> + num_traits::One>() -> (u: T)
    ensures
        is_multiplicative_identity(u),
{
    T::one()
}

} // verus!
