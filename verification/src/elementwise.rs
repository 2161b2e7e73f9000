//! Element-wise arithmetic on sequences of equal length, shared by
//! `Matrix` and `Tensor`.
//!
//! Each operation asks that `T`'s operator accept every pair it is applied
//! to (`add_allowed` and the like). Verus knows when that holds where vstd
//! specifies the operator: for the primitive integers, when nothing
//! overflows. vstd leaves it unspecified for floats and for other types
//! without such a specification, so no verified caller can establish it
//! for them; those element types are used from unverified code.
use core::ops::{Add, Mul, Sub};
use vstd::prelude::*;
use vstd::std_specs::ops::{AddSpec, MulSpec, SubSpec};

verus! {

/// `T`'s addition accepts every pair `a[i] + b[i]` (for integers: none
/// overflows).
pub open spec fn add_allowed<T: Add<Output = T>>(a: Seq<T>, b: Seq<T>) -> bool {
    forall|i: int| 0 <= i < a.len() && i < b.len() ==> #[trigger] a[i].add_req(b[i])
}

/// `T`'s subtraction accepts every pair `a[i] - b[i]`.
pub open spec fn sub_allowed<T: Sub<Output = T>>(a: Seq<T>, b: Seq<T>) -> bool {
    forall|i: int| 0 <= i < a.len() && i < b.len() ==> #[trigger] a[i].sub_req(b[i])
}

/// `T`'s multiplication accepts every pair `a[i] * b[i]`.
pub open spec fn mul_allowed<T: Mul<Output = T>>(a: Seq<T>, b: Seq<T>) -> bool {
    forall|i: int| 0 <= i < a.len() && i < b.len() ==> #[trigger] a[i].mul_req(b[i])
}

/// `T`'s multiplication accepts every product `a[i] * c`.
pub open spec fn scale_allowed<T: Mul<Output = T>>(a: Seq<T>, c: T) -> bool {
    forall|i: int| 0 <= i < a.len() ==> #[trigger] a[i].mul_req(c)
}

/// Element-wise sum, as `T`'s addition defines it.
pub open spec fn sum_values<T: Add<Output = T>>(a: Seq<T>, b: Seq<T>) -> Seq<T> {
    Seq::new(a.len(), |i: int| a[i].add_spec(b[i]))
}

/// Element-wise difference, as `T`'s subtraction defines it.
pub open spec fn diff_values<T: Sub<Output = T>>(a: Seq<T>, b: Seq<T>) -> Seq<T> {
    Seq::new(a.len(), |i: int| a[i].sub_spec(b[i]))
}

/// Element-wise (Hadamard) product, as `T`'s multiplication defines it.
pub open spec fn product_values<T: Mul<Output = T>>(a: Seq<T>, b: Seq<T>) -> Seq<T> {
    Seq::new(a.len(), |i: int| a[i].mul_spec(b[i]))
}

/// Every element multiplied by `c`, as `T`'s multiplication defines it.
pub open spec fn scaled_values<T: Mul<Output = T>>(a: Seq<T>, c: T) -> Seq<T> {
    Seq::new(a.len(), |i: int| a[i].mul_spec(c))
}

/// `out` is the element-wise sum of `a` and `b`: each element is a
/// result that `T`'s `add` can return for the two elements at its
/// position, and where `T`'s `add` is specified, exactly its result.
pub open spec fn is_sum_of<T: Add<Output = T>>(out: Seq<T>, a: Seq<T>, b: Seq<T>) -> bool {
    &&& out.len() == a.len()
    &&& forall|i: int| 0 <= i < out.len() ==> call_ensures(T::add, (a[i], b[i]), #[trigger] out[i])
    &&& T::obeys_add_spec() ==> out == sum_values(a, b)
}

/// `out` is the element-wise difference of `a` and `b`: each element is a
/// result that `T`'s `sub` can return for the two elements at its
/// position, and where `T`'s `sub` is specified, exactly its result.
pub open spec fn is_difference_of<T: Sub<Output = T>>(out: Seq<T>, a: Seq<T>, b: Seq<T>) -> bool {
    &&& out.len() == a.len()
    &&& forall|i: int| 0 <= i < out.len() ==> call_ensures(T::sub, (a[i], b[i]), #[trigger] out[i])
    &&& T::obeys_sub_spec() ==> out == diff_values(a, b)
}

/// `out` is the element-wise product of `a` and `b`: each element is a
/// result that `T`'s `mul` can return for the two elements at its
/// position, and where `T`'s `mul` is specified, exactly its result.
pub open spec fn is_product_of_elements<T: Mul<Output = T>>(out: Seq<T>, a: Seq<T>, b: Seq<T>) -> bool {
    &&& out.len() == a.len()
    &&& forall|i: int| 0 <= i < out.len() ==> call_ensures(T::mul, (a[i], b[i]), #[trigger] out[i])
    &&& T::obeys_mul_spec() ==> out == product_values(a, b)
}

/// `out` is `a` with every element multiplied by `c`: each element is a
/// result that `T`'s `mul` can return for it and `c`, and where `T`'s `mul`
/// is specified, exactly its result.
pub open spec fn is_scaled_of<T: Mul<Output = T>>(out: Seq<T>, a: Seq<T>, c: T) -> bool {
    &&& out.len() == a.len()
    &&& forall|i: int| 0 <= i < out.len() ==> call_ensures(T::mul, (a[i], c), #[trigger] out[i])
    &&& T::obeys_mul_spec() ==> out == scaled_values(a, c)
}

/// Element-wise sum of two sequences of the same length.
pub fn add_elements<T: Copy + Add<Output = T>>(a: &[T], b: &[T]) -> (out: Vec<T>)
    requires
        a@.len() == b@.len(),
        add_allowed(a@, b@),
    ensures
        is_sum_of(out@, a@, b@),
{
    let n = a.len();
    let mut out: Vec<T> = Vec::with_capacity(n);
    let mut i: usize = 0;
    while i < n
        invariant
            n == a@.len(),
            n == b@.len(),
            i <= n,
            out@.len() == i,
            add_allowed(a@, b@),
            forall|j: int| 0 <= j < i ==> call_ensures(T::add, (a@[j], b@[j]), #[trigger] out@[j]),
            T::obeys_add_spec() ==> forall|j: int| 0 <= j < i ==> #[trigger] out@[j] == a@[j].add_spec(b@[j]),
        decreases n - i,
    {
        assert(a@[i as int].add_req(b@[i as int]));
        out.push(a[i] + b[i]);
        i = i + 1;
    }
    proof {
        if T::obeys_add_spec() {
            assert(out@ =~= sum_values(a@, b@));
        }
    }
    out
}

/// Element-wise difference of two sequences of the same length.
pub fn sub_elements<T: Copy + Sub<Output = T>>(a: &[T], b: &[T]) -> (out: Vec<T>)
    requires
        a@.len() == b@.len(),
        sub_allowed(a@, b@),
    ensures
        is_difference_of(out@, a@, b@),
{
    let n = a.len();
    let mut out: Vec<T> = Vec::with_capacity(n);
    let mut i: usize = 0;
    while i < n
        invariant
            n == a@.len(),
            n == b@.len(),
            i <= n,
            out@.len() == i,
            sub_allowed(a@, b@),
            forall|j: int| 0 <= j < i ==> call_ensures(T::sub, (a@[j], b@[j]), #[trigger] out@[j]),
            T::obeys_sub_spec() ==> forall|j: int| 0 <= j < i ==> #[trigger] out@[j] == a@[j].sub_spec(b@[j]),
        decreases n - i,
    {
        assert(a@[i as int].sub_req(b@[i as int]));
        out.push(a[i] - b[i]);
        i = i + 1;
    }
    proof {
        if T::obeys_sub_spec() {
            assert(out@ =~= diff_values(a@, b@));
        }
    }
    out
}

/// Element-wise (Hadamard) product of two sequences of the same length.
pub fn mul_elements<T: Copy + Mul<Output = T>>(a: &[T], b: &[T]) -> (out: Vec<T>)
    requires
        a@.len() == b@.len(),
        mul_allowed(a@, b@),
    ensures
        is_product_of_elements(out@, a@, b@),
{
    let n = a.len();
    let mut out: Vec<T> = Vec::with_capacity(n);
    let mut i: usize = 0;
    while i < n
        invariant
            n == a@.len(),
            n == b@.len(),
            i <= n,
            out@.len() == i,
            mul_allowed(a@, b@),
            forall|j: int| 0 <= j < i ==> call_ensures(T::mul, (a@[j], b@[j]), #[trigger] out@[j]),
            T::obeys_mul_spec() ==> forall|j: int| 0 <= j < i ==> #[trigger] out@[j] == a@[j].mul_spec(b@[j]),
        decreases n - i,
    {
        assert(a@[i as int].mul_req(b@[i as int]));
        out.push(a[i] * b[i]);
        i = i + 1;
    }
    proof {
        if T::obeys_mul_spec() {
            assert(out@ =~= product_values(a@, b@));
        }
    }
    out
}

/// Every element of `a` multiplied by `c`.
pub fn scale_elements<T: Copy + Mul<Output = T>>(a: &[T], c: T) -> (out: Vec<T>)
    requires
        scale_allowed(a@, c),
    ensures
        is_scaled_of(out@, a@, c),
{
    let n = a.len();
    let mut out: Vec<T> = Vec::with_capacity(n);
    let mut i: usize = 0;
    while i < n
        invariant
            n == a@.len(),
            i <= n,
            out@.len() == i,
            scale_allowed(a@, c),
            forall|j: int| 0 <= j < i ==> call_ensures(T::mul, (a@[j], c), #[trigger] out@[j]),
            T::obeys_mul_spec() ==> forall|j: int| 0 <= j < i ==> #[trigger] out@[j] == a@[j].mul_spec(c),
        decreases n - i,
    {
        assert(a@[i as int].mul_req(c));
        out.push(a[i] * c);
        i = i + 1;
    }
    proof {
        if T::obeys_mul_spec() {
            assert(out@ =~= scaled_values(a@, c));
        }
    }
    out
}

/// A relation that holds position by position between equally split
/// sequences holds position by position between their concatenations.
proof fn lemma_pointwise_pieces<T>(
    a: Seq<Seq<T>>,
    b: Seq<Seq<T>>,
    out: Seq<Seq<T>>,
    rel: spec_fn(T, T, T) -> bool,
)
    requires
        b.len() == a.len(),
        out.len() == a.len(),
        forall|k: int| 0 <= k < a.len() ==> (#[trigger] a[k]).len() == b[k].len() && a[k].len() == out[k].len(),
        forall|k: int, i: int| 0 <= k < a.len() && 0 <= i < out[k].len() ==> rel(a[k][i], b[k][i], #[trigger] out[k][i]),
    ensures
        b.flatten().len() == a.flatten().len(),
        out.flatten().len() == a.flatten().len(),
        forall|i: int| 0 <= i < out.flatten().len() ==> rel(a.flatten()[i], b.flatten()[i], #[trigger] out.flatten()[i]),
    decreases a.len(),
{
    if a.len() == 0 {
        assert(a.flatten() =~= Seq::<T>::empty());
        assert(b.flatten() =~= Seq::<T>::empty());
        assert(out.flatten() =~= Seq::<T>::empty());
    } else {
        let (ai, bi, oi) = (a.drop_last(), b.drop_last(), out.drop_last());
        assert(forall|k: int| 0 <= k < ai.len() ==> ai[k] == a[k] && bi[k] == b[k] && oi[k] == out[k]);
        lemma_pointwise_pieces(ai, bi, oi, rel);
        assert(ai.push(a.last()) =~= a);
        assert(bi.push(b.last()) =~= b);
        assert(oi.push(out.last()) =~= out);
        ai.lemma_flatten_push(a.last());
        bi.lemma_flatten_push(b.last());
        oi.lemma_flatten_push(out.last());
        let n = a.len() - 1;
        assert(a[n].len() == b[n].len() && a[n].len() == out[n].len());
        let m = oi.flatten().len() as int;
        assert forall|i: int| 0 <= i < out.flatten().len() implies rel(a.flatten()[i], b.flatten()[i], #[trigger] out.flatten()[i]) by {
            if i >= m {
                assert(out.flatten()[i] == out[n][i - m]);
                assert(a.flatten()[i] == a[n][i - m]);
                assert(b.flatten()[i] == b[n][i - m]);
            } else {
                assert(out.flatten()[i] == oi.flatten()[i]);
                assert(a.flatten()[i] == ai.flatten()[i]);
                assert(b.flatten()[i] == bi.flatten()[i]);
            }
        }
    }
}

/// Element-wise sums computed piece by piece and concatenated are the
/// element-wise sums of the concatenated operands: the work may be split
/// into pieces handled in any order or at once.
pub proof fn lemma_sum_pieces<T: Add<Output = T>>(a: Seq<Seq<T>>, b: Seq<Seq<T>>, out: Seq<Seq<T>>)
    requires
        b.len() == a.len(),
        out.len() == a.len(),
        forall|k: int| 0 <= k < a.len() ==> (#[trigger] a[k]).len() == b[k].len(),
        forall|k: int| 0 <= k < a.len() ==> #[trigger] is_sum_of(out[k], a[k], b[k]),
    ensures
        is_sum_of(out.flatten(), a.flatten(), b.flatten()),
{
    let rel = |x: T, y: T, r: T| call_ensures(T::add, (x, y), r) && (T::obeys_add_spec() ==> r == x.add_spec(y));
    assert forall|k: int, i: int| 0 <= k < a.len() && 0 <= i < out[k].len() implies rel(a[k][i], b[k][i], #[trigger] out[k][i]) by {
        assert(is_sum_of(out[k], a[k], b[k]));
        if T::obeys_add_spec() {
            assert(out[k][i] == sum_values(a[k], b[k])[i]);
        }
    }
    assert forall|k: int| 0 <= k < a.len() implies (#[trigger] a[k]).len() == b[k].len() && a[k].len() == out[k].len() by {
        assert(is_sum_of(out[k], a[k], b[k]));
    }
    lemma_pointwise_pieces(a, b, out, rel);
    if T::obeys_add_spec() {
        assert(out.flatten() =~= sum_values(a.flatten(), b.flatten()));
    }
}

/// Element-wise differences computed piece by piece and concatenated are the
/// element-wise differences of the concatenated operands: the work may be split
/// into pieces handled in any order or at once.
pub proof fn lemma_difference_pieces<T: Sub<Output = T>>(a: Seq<Seq<T>>, b: Seq<Seq<T>>, out: Seq<Seq<T>>)
    requires
        b.len() == a.len(),
        out.len() == a.len(),
        forall|k: int| 0 <= k < a.len() ==> (#[trigger] a[k]).len() == b[k].len(),
        forall|k: int| 0 <= k < a.len() ==> #[trigger] is_difference_of(out[k], a[k], b[k]),
    ensures
        is_difference_of(out.flatten(), a.flatten(), b.flatten()),
{
    let rel = |x: T, y: T, r: T| call_ensures(T::sub, (x, y), r) && (T::obeys_sub_spec() ==> r == x.sub_spec(y));
    assert forall|k: int, i: int| 0 <= k < a.len() && 0 <= i < out[k].len() implies rel(a[k][i], b[k][i], #[trigger] out[k][i]) by {
        assert(is_difference_of(out[k], a[k], b[k]));
        if T::obeys_sub_spec() {
            assert(out[k][i] == diff_values(a[k], b[k])[i]);
        }
    }
    assert forall|k: int| 0 <= k < a.len() implies (#[trigger] a[k]).len() == b[k].len() && a[k].len() == out[k].len() by {
        assert(is_difference_of(out[k], a[k], b[k]));
    }
    lemma_pointwise_pieces(a, b, out, rel);
    if T::obeys_sub_spec() {
        assert(out.flatten() =~= diff_values(a.flatten(), b.flatten()));
    }
}

/// Element-wise products computed piece by piece and concatenated are the
/// element-wise products of the concatenated operands: the work may be split
/// into pieces handled in any order or at once.
pub proof fn lemma_product_pieces<T: Mul<Output = T>>(a: Seq<Seq<T>>, b: Seq<Seq<T>>, out: Seq<Seq<T>>)
    requires
        b.len() == a.len(),
        out.len() == a.len(),
        forall|k: int| 0 <= k < a.len() ==> (#[trigger] a[k]).len() == b[k].len(),
        forall|k: int| 0 <= k < a.len() ==> #[trigger] is_product_of_elements(out[k], a[k], b[k]),
    ensures
        is_product_of_elements(out.flatten(), a.flatten(), b.flatten()),
{
    let rel = |x: T, y: T, r: T| call_ensures(T::mul, (x, y), r) && (T::obeys_mul_spec() ==> r == x.mul_spec(y));
    assert forall|k: int, i: int| 0 <= k < a.len() && 0 <= i < out[k].len() implies rel(a[k][i], b[k][i], #[trigger] out[k][i]) by {
        assert(is_product_of_elements(out[k], a[k], b[k]));
        if T::obeys_mul_spec() {
            assert(out[k][i] == product_values(a[k], b[k])[i]);
        }
    }
    assert forall|k: int| 0 <= k < a.len() implies (#[trigger] a[k]).len() == b[k].len() && a[k].len() == out[k].len() by {
        assert(is_product_of_elements(out[k], a[k], b[k]));
    }
    lemma_pointwise_pieces(a, b, out, rel);
    if T::obeys_mul_spec() {
        assert(out.flatten() =~= product_values(a.flatten(), b.flatten()));
    }
}

/// Scaling computed piece by piece and concatenated is the scaling of the
/// concatenated operand: the work may be split into pieces handled in any
/// order or at once.
pub proof fn lemma_scaled_pieces<T: Mul<Output = T>>(a: Seq<Seq<T>>, out: Seq<Seq<T>>, c: T)
    requires
        out.len() == a.len(),
        forall|k: int| 0 <= k < a.len() ==> #[trigger] is_scaled_of(out[k], a[k], c),
    ensures
        is_scaled_of(out.flatten(), a.flatten(), c),
{
    let rel = |x: T, y: T, r: T| call_ensures(T::mul, (x, c), r) && (T::obeys_mul_spec() ==> r == x.mul_spec(c));
    assert forall|k: int, i: int| 0 <= k < a.len() && 0 <= i < out[k].len() implies rel(a[k][i], a[k][i], #[trigger] out[k][i]) by {
        assert(is_scaled_of(out[k], a[k], c));
        if T::obeys_mul_spec() {
            assert(out[k][i] == scaled_values(a[k], c)[i]);
        }
    }
    assert forall|k: int| 0 <= k < a.len() implies (#[trigger] a[k]).len() == a[k].len() && a[k].len() == out[k].len() by {
        assert(is_scaled_of(out[k], a[k], c));
    }
    lemma_pointwise_pieces(a, a, out, rel);
    if T::obeys_mul_spec() {
        assert(out.flatten() =~= scaled_values(a.flatten(), c));
    }
}

/// Every element of `s` is a clone of `v`.
pub open spec fn filled_with<T: Clone>(s: Seq<T>, v: T) -> bool {
    forall|i: int| 0 <= i < s.len() ==> cloned(v, #[trigger] s[i])
}

} // verus!
