//! `Tensor<T>`: a generic, N-dimensional, row-major tensor in flat storage.
use core::ops::{Add, Mul, Sub};
use vstd::prelude::*;
use vstd::slice::slice_to_vec;

use crate::elementwise::{
    add_allowed, add_elements, filled_with, is_difference_of, is_product_of_elements,
    is_scaled_of, is_sum_of, mul_allowed, mul_elements, scale_allowed, scale_elements, sub_allowed,
    sub_elements,
};
use crate::error::TensorError;
use crate::numeric::{is_additive_identity, is_multiplicative_identity, one_value, zero_value};
use crate::random::seeded_standard_values;
use crate::shape::{
    compute_strides, dims_fit, dims_product, flat_offset, in_bounds, index_of_offset,
    lemma_offset_in_range, lemma_offset_injective, lemma_offset_onto, lemma_whole_shape, partial_offset, prefix_products_fit, shape_product,
    strides_of, suffix_products_fit,
};

verus! {

/// A generic, N-dimensional, row-major (C-order) tensor.
///
/// The elements live in one contiguous `Vec<T>` beside a stride table: for a
/// shape `[d0, ..., dn-1]`, `strides[k]` is the product of the dimensions
/// after `k`, and element `[i0, ..., in-1]` lives at `sum(ik * strides[k])`.
#[derive(Debug, PartialEq)]
pub struct Tensor<T> {
    shape: Vec<usize>,
    strides: Vec<usize>,
    data: Vec<T>,
}

impl<T: Clone> Clone for Tensor<T> {
    /// A tensor of the same shape whose elements are clones of these.
    fn clone(&self) -> (r: Self)
        ensures
            r.dims() == self.dims(),
            r.stride_seq() == self.stride_seq(),
            r.values().len() == self.values().len(),
            forall|k: int| 0 <= k < self.values().len() ==> cloned(self.values()[k], #[trigger] r.values()[k]),
    {
        proof {
            use_type_invariant(self);
        }
        Tensor {
            shape: slice_to_vec(self.shape.as_slice()),
            strides: slice_to_vec(self.strides.as_slice()),
            data: self.data.clone(),
        }
    }
}

impl<T> Tensor<T> {
    /// The dimensions of the tensor, one per axis.
    pub closed spec fn dims(&self) -> Seq<usize> {
        self.shape@
    }

    /// The stride table that indexing uses.
    pub closed spec fn stride_seq(&self) -> Seq<usize> {
        self.strides@
    }

    /// The elements in row-major order.
    pub closed spec fn values(&self) -> Seq<T> {
        self.data@
    }

    /// A well-formed tensor: its element count and strides are representable,
    /// its stride table matches its shape and it holds exactly as many
    /// elements as its shape describes. This is the type's invariant: every
    /// tensor a program holds meets it (`use_type_invariant` recovers it),
    /// and the laws below, which speak of tensors as values, ask for it.
    #[verifier::type_invariant]
    pub open spec fn wf(&self) -> bool {
        &&& dims_fit(self.dims())
        &&& self.stride_seq() == strides_of(self.dims())
        &&& self.values().len() == dims_product(self.dims())
    }

    /// Builds a tensor from a shape and row-major data of matching length.
    pub(crate) fn from_vec_unchecked(shape: &[usize], data: Vec<T>) -> (t: Self)
        requires
            dims_fit(shape@),
            data@.len() == dims_product(shape@),
        ensures
            t.wf(),
            t.dims() == shape@,
            t.values() == data@,
    {
        Tensor { shape: slice_to_vec(shape), strides: compute_strides(shape), data }
    }

    /// Fallible constructor: builds a tensor from an explicit shape and flat
    /// row-major data, or reports `InvalidConstruction` when `data.len()` is
    /// not the product of `shape`.
    pub fn try_from_vec(shape: &[usize], data: Vec<T>) -> (r: Result<Self, TensorError>)
        requires
            prefix_products_fit(shape@),
            dims_product(shape@) == data@.len() ==> suffix_products_fit(shape@),
        ensures
            match r {
                Ok(t) => {
                    &&& dims_product(shape@) == data@.len()
                    &&& t.wf()
                    &&& t.dims() == shape@
                    &&& t.values() == data@
                },
                Err(e) => {
                    &&& dims_product(shape@) != data@.len()
                    &&& e matches TensorError::InvalidConstruction { shape: s, expected_len, found_len }
                    &&& s@ == shape@
                    &&& expected_len == dims_product(shape@)
                    &&& found_len == data@.len()
                },
            },
    {
        let expected = shape_product(shape);
        if expected != data.len() {
            return Err(
                TensorError::InvalidConstruction {
                    shape: slice_to_vec(shape),
                    expected_len: expected,
                    found_len: data.len(),
                },
            );
        }
        Ok(Tensor::from_vec_unchecked(shape, data))
    }

    /// Builds a tensor from an explicit shape and flat row-major data whose
    /// length is the product of the shape. For a fallible alternative, use
    /// `try_from_vec`.
    pub fn from_vec(shape: &[usize], data: Vec<T>) -> (t: Self)
        requires
            dims_fit(shape@),
            dims_product(shape@) == data@.len(),
        ensures
            t.wf(),
            t.dims() == shape@,
            t.values() == data@,
    {
        Tensor::from_vec_unchecked(shape, data)
    }

    /// Number of axes.
    pub fn rank(&self) -> (r: usize)
        ensures
            r == self.dims().len(),
    {
        self.shape.len()
    }

    /// The dimensions, one per axis.
    pub fn shape(&self) -> (r: &[usize])
        ensures
            r@ == self.dims(),
    {
        self.shape.as_slice()
    }

    /// The row-major stride of each axis.
    pub fn strides(&self) -> (r: &[usize])
        ensures
            r@ == self.stride_seq(),
    {
        self.strides.as_slice()
    }

    /// Number of elements.
    pub fn len(&self) -> (r: usize)
        ensures
            r == self.values().len(),
    {
        self.data.len()
    }

    /// Whether the tensor holds no element.
    pub fn is_empty(&self) -> (r: bool)
        ensures
            r <==> self.values().len() == 0,
    {
        self.data.len() == 0
    }

    /// The elements in row-major order.
    pub fn as_slice(&self) -> (r: &[T])
        ensures
            r@ == self.values(),
    {
        self.data.as_slice()
    }

    /// Resolves an index to its flat offset after checking its rank and its
    /// bounds along every axis.
    fn try_flat_index(&self, idx: &[usize]) -> (r: Result<usize, TensorError>)
        ensures
            r is Ok <==> in_bounds(idx@, self.dims()),
            match r {
                Ok(off) => {
                    &&& in_bounds(idx@, self.dims())
                    &&& off == flat_offset(idx@, self.dims())
                    &&& off < self.values().len()
                },
                Err(e) => index_error(e, idx@, self.dims()),
            },
    {
        proof {
            use_type_invariant(self);
        }
        if idx.len() != self.shape.len() {
            return Err(
                TensorError::RankMismatch { expected_rank: self.shape.len(), found_rank: idx.len() },
            );
        }
        let n = idx.len();
        let mut k: usize = 0;
        while k < n
            invariant
                n == idx@.len(),
                n == self.shape@.len(),
                k <= n,
                forall|j: int| 0 <= j < k ==> #[trigger] idx@[j] < self.shape@[j],
            decreases n - k,
        {
            if idx[k] >= self.shape[k] {
                return Err(
                    TensorError::IndexOutOfBounds {
                        index: slice_to_vec(idx),
                        shape: slice_to_vec(self.shape.as_slice()),
                    },
                );
            }
            k = k + 1;
        }
        proof {
            lemma_offset_in_range(idx@, self.dims());
            lemma_whole_shape(self.dims());
            assert(dims_product(self.dims().take(n as int)) <= usize::MAX);
        }
        let mut off: usize = 0;
        let mut m: usize = 0;
        while m < n
            invariant
                n == idx@.len(),
                n == self.shape@.len(),
                m <= n,
                in_bounds(idx@, self.dims()),
                self.strides@ == strides_of(self.dims()),
                forall|j: int| 0 <= j <= n ==> #[trigger] partial_offset(idx@, strides_of(self.dims()), j) < dims_product(self.dims()),
                dims_product(self.dims()) <= usize::MAX,
                off == partial_offset(idx@, strides_of(self.dims()), m as int),
            decreases n - m,
        {
            proof {
                assert(partial_offset(idx@, strides_of(self.dims()), m + 1) < dims_product(self.dims()));
                let a = idx@[m as int] as nat;
                let b = self.strides@[m as int] as nat;
                assert(a * b <= partial_offset(idx@, strides_of(self.dims()), m + 1));
            }
            off = off + idx[m] * self.strides[m];
            m = m + 1;
        }
        Ok(off)
    }

    /// Fallible element access: the element at `idx`, or the error that
    /// says why `idx` names no element. The rank is checked first: an index
    /// of the wrong length gives `RankMismatch` whatever its values; one of
    /// the right length with a value at or above its dimension gives
    /// `IndexOutOfBounds` with the index and the shape.
    pub fn try_get(&self, idx: &[usize]) -> (r: Result<&T, TensorError>)
        ensures
            r is Ok <==> in_bounds(idx@, self.dims()),
            match r {
                Ok(v) => {
                    &&& in_bounds(idx@, self.dims())
                    &&& *v == self.values()[flat_offset(idx@, self.dims()) as int]
                },
                Err(e) => index_error(e, idx@, self.dims()),
            },
    {
        let flat = self.try_flat_index(idx)?;
        Ok(&self.data[flat])
    }

    /// Fallible mutable element access: a reference through which the
    /// element at `idx` can be written, or the error that says why `idx`
    /// names no element. Only that element can change.
    pub fn try_get_mut(&mut self, idx: &[usize]) -> (r: Result<&mut T, TensorError>)
        ensures
            r is Ok <==> in_bounds(idx@, old(self).dims()),
            match r {
                Ok(v) => {
                    &&& in_bounds(idx@, old(self).dims())
                    &&& *v == old(self).values()[flat_offset(idx@, old(self).dims()) as int]
                    &&& final(self).wf()
                    &&& final(self).dims() == old(self).dims()
                    &&& final(self).stride_seq() == old(self).stride_seq()
                    &&& final(self).values() == old(self).values().update(
                        flat_offset(idx@, old(self).dims()) as int,
                        *final(v),
                    )
                },
                Err(e) => {
                    &&& index_error(e, idx@, old(self).dims())
                    &&& *final(self) == *old(self)
                },
            },
    {
        proof {
            use_type_invariant(&*self);
        }
        match self.try_flat_index(idx) {
            Ok(flat) => Ok(&mut self.data[flat]),
            Err(e) => Err(e),
        }
    }
}

impl<T: Clone> Tensor<T> {
    /// A tensor of the given shape whose every element is a clone of `value`.
    pub fn fill(shape: &[usize], value: T) -> (t: Self)
        requires
            dims_fit(shape@),
        ensures
            t.wf(),
            t.dims() == shape@,
            t.values().len() == dims_product(shape@),
            filled_with(t.values(), value),
    {
        let size = shape_product(shape);
        Tensor::from_vec_unchecked(shape, vec![value; size])
    }
}

impl<T: Clone + Add<Output = T> + num_traits::Zero> Tensor<T> {
    /// A tensor of the given shape filled with `T::zero()`: every element is
    /// a clone of the zero value that `num_traits` hands back, which is an
    /// additive identity wherever `T`'s addition has a specification.
    pub fn zeros(shape: &[usize]) -> (t: Self)
        requires
            dims_fit(shape@),
        ensures
            t.wf(),
            t.dims() == shape@,
            exists|z: T| #[trigger] filled_with(t.values(), z) && is_additive_identity(z),
    {
        let z = zero_value::<T>();
        let t = Tensor::fill(shape, z);
        assert(filled_with(t.values(), z));
        t
    }
}

impl<T: Clone + Mul<Output = T> + num_traits::One> Tensor<T> {
    /// A tensor of the given shape filled with `T::one()`: every element is
    /// a clone of the unit value that `num_traits` hands back, which is a
    /// multiplicative identity wherever `T`'s multiplication has a
    /// specification.
    pub fn ones(shape: &[usize]) -> (t: Self)
        requires
            dims_fit(shape@),
        ensures
            t.wf(),
            t.dims() == shape@,
            exists|u: T| #[trigger] filled_with(t.values(), u) && is_multiplicative_identity(u),
    {
        let u = one_value::<T>();
        let t = Tensor::fill(shape, u);
        assert(filled_with(t.values(), u));
        t
    }
}

impl<T: Copy + Add<Output = T>> Tensor<T> {
    /// Element-wise sum; the shapes must match exactly, else the error
    /// carries both shapes.
    ///
    /// The precondition that `T`'s operator accepts each pair of elements is
    /// one Verus can establish where vstd specifies the operator (the
    /// primitive integers: no overflow). For a type whose operator has no
    /// such specification, floats among them, no verified caller can
    /// establish it; such a type is used from unverified code.
    pub fn try_add(&self, rhs: &Tensor<T>) -> (r: Result<Tensor<T>, TensorError>)
        requires
            self.dims() == rhs.dims() ==> add_allowed(self.values(), rhs.values()),
        ensures
            match r {
                Ok(t) => {
                    &&& self.dims() == rhs.dims()
                    &&& t.wf()
                    &&& t.dims() == self.dims()
                    &&& is_sum_of(t.values(), self.values(), rhs.values())
                },
                Err(e) => self.dims() != rhs.dims() && shape_mismatch(e, self.dims(), rhs.dims()),
            },
    {
        proof {
            use_type_invariant(self);
            use_type_invariant(rhs);
        }
        check_same_shape(self.shape.as_slice(), rhs.shape.as_slice())?;
        let out = add_elements(self.data.as_slice(), rhs.data.as_slice());
        Ok(Tensor::from_vec_unchecked(self.shape.as_slice(), out))
    }
}

impl<T: Copy + Sub<Output = T>> Tensor<T> {
    /// Element-wise difference; the shapes must match exactly, else the error
    /// carries both shapes.
    ///
    /// The precondition that `T`'s operator accepts each pair of elements is
    /// one Verus can establish where vstd specifies the operator (the
    /// primitive integers: no overflow). For a type whose operator has no
    /// such specification, floats among them, no verified caller can
    /// establish it; such a type is used from unverified code.
    pub fn try_sub(&self, rhs: &Tensor<T>) -> (r: Result<Tensor<T>, TensorError>)
        requires
            self.dims() == rhs.dims() ==> sub_allowed(self.values(), rhs.values()),
        ensures
            match r {
                Ok(t) => {
                    &&& self.dims() == rhs.dims()
                    &&& t.wf()
                    &&& t.dims() == self.dims()
                    &&& is_difference_of(t.values(), self.values(), rhs.values())
                },
                Err(e) => self.dims() != rhs.dims() && shape_mismatch(e, self.dims(), rhs.dims()),
            },
    {
        proof {
            use_type_invariant(self);
            use_type_invariant(rhs);
        }
        check_same_shape(self.shape.as_slice(), rhs.shape.as_slice())?;
        let out = sub_elements(self.data.as_slice(), rhs.data.as_slice());
        Ok(Tensor::from_vec_unchecked(self.shape.as_slice(), out))
    }
}

impl<T: Copy + Mul<Output = T>> Tensor<T> {
    /// Element-wise (Hadamard) product; the shapes must match exactly, else the error
    /// carries both shapes.
    ///
    /// The precondition that `T`'s operator accepts each pair of elements is
    /// one Verus can establish where vstd specifies the operator (the
    /// primitive integers: no overflow). For a type whose operator has no
    /// such specification, floats among them, no verified caller can
    /// establish it; such a type is used from unverified code.
    pub fn try_hadamard(&self, rhs: &Tensor<T>) -> (r: Result<Tensor<T>, TensorError>)
        requires
            self.dims() == rhs.dims() ==> mul_allowed(self.values(), rhs.values()),
        ensures
            match r {
                Ok(t) => {
                    &&& self.dims() == rhs.dims()
                    &&& t.wf()
                    &&& t.dims() == self.dims()
                    &&& is_product_of_elements(t.values(), self.values(), rhs.values())
                },
                Err(e) => self.dims() != rhs.dims() && shape_mismatch(e, self.dims(), rhs.dims()),
            },
    {
        proof {
            use_type_invariant(self);
            use_type_invariant(rhs);
        }
        check_same_shape(self.shape.as_slice(), rhs.shape.as_slice())?;
        let out = mul_elements(self.data.as_slice(), rhs.data.as_slice());
        Ok(Tensor::from_vec_unchecked(self.shape.as_slice(), out))
    }

    /// Element-wise (Hadamard) product of two tensors of the same shape.
    /// For a fallible alternative, use `try_hadamard`.
    ///
    /// The precondition that `T`'s operator accepts each pair of elements is
    /// one Verus can establish where vstd specifies the operator (the
    /// primitive integers: no overflow). For a type whose operator has no
    /// such specification, floats among them, no verified caller can
    /// establish it; such a type is used from unverified code.
    pub fn hadamard(&self, rhs: &Tensor<T>) -> (t: Tensor<T>)
        requires
            self.dims() == rhs.dims(),
            mul_allowed(self.values(), rhs.values()),
        ensures
            t.wf(),
            t.dims() == self.dims(),
            is_product_of_elements(t.values(), self.values(), rhs.values()),
    {
        match self.try_hadamard(rhs) {
            Ok(t) => t,
            Err(_) => {
                assert(false);
                Tensor::from_vec_unchecked(self.shape.as_slice(), Vec::new())
            },
        }
    }

    /// Every element multiplied by `scalar`; the shape is kept.
    fn mul_scalar(&self, scalar: T) -> (t: Tensor<T>)
        requires
            scale_allowed(self.values(), scalar),
        ensures
            t.wf(),
            t.dims() == self.dims(),
            is_scaled_of(t.values(), self.values(), scalar),
    {
        proof {
            use_type_invariant(self);
        }
        let out = scale_elements(self.data.as_slice(), scalar);
        Tensor::from_vec_unchecked(self.shape.as_slice(), out)
    }
}

impl<'a, 'b, T: Copy + Add<Output = T>> vstd::std_specs::ops::AddSpecImpl<&'b Tensor<T>> for &'a Tensor<T> {
    open spec fn obeys_add_spec() -> bool {
        false
    }

    open spec fn add_req(self, rhs: &'b Tensor<T>) -> bool {
        &&& self.dims() == rhs.dims()
        &&& add_allowed(self.values(), rhs.values())
    }

    open spec fn add_spec(self, rhs: &'b Tensor<T>) -> Tensor<T> {
        arbitrary()
    }
}

impl<'a, 'b, T: Copy + Add<Output = T>> Add<&'b Tensor<T>> for &'a Tensor<T> {
    type Output = Tensor<T>;

    /// Element-wise sum of two tensors of the same shape.
    fn add(self, rhs: &'b Tensor<T>) -> (t: Tensor<T>)
        ensures
            t.wf(),
            t.dims() == self.dims(),
            is_sum_of(t.values(), self.values(), rhs.values()),
    {
        match (self).try_add(rhs) {
            Ok(t) => t,
            Err(_) => {
                assert(false);
                Tensor::from_vec_unchecked(self.shape.as_slice(), Vec::new())
            },
        }
    }
}

impl<T: Copy + Add<Output = T>> vstd::std_specs::ops::AddSpecImpl<Tensor<T>> for Tensor<T> {
    open spec fn obeys_add_spec() -> bool {
        false
    }

    open spec fn add_req(self, rhs: Tensor<T>) -> bool {
        &&& self.dims() == rhs.dims()
        &&& add_allowed(self.values(), rhs.values())
    }

    open spec fn add_spec(self, rhs: Tensor<T>) -> Tensor<T> {
        arbitrary()
    }
}

impl<T: Copy + Add<Output = T>> Add<Tensor<T>> for Tensor<T> {
    type Output = Tensor<T>;

    /// Element-wise sum of two tensors of the same shape.
    fn add(self, rhs: Tensor<T>) -> (t: Tensor<T>)
        ensures
            t.wf(),
            t.dims() == self.dims(),
            is_sum_of(t.values(), self.values(), rhs.values()),
    {
        match (&self).try_add(&rhs) {
            Ok(t) => t,
            Err(_) => {
                assert(false);
                Tensor::from_vec_unchecked(self.shape.as_slice(), Vec::new())
            },
        }
    }
}

impl<'b, T: Copy + Add<Output = T>> vstd::std_specs::ops::AddSpecImpl<&'b Tensor<T>> for Tensor<T> {
    open spec fn obeys_add_spec() -> bool {
        false
    }

    open spec fn add_req(self, rhs: &'b Tensor<T>) -> bool {
        &&& self.dims() == rhs.dims()
        &&& add_allowed(self.values(), rhs.values())
    }

    open spec fn add_spec(self, rhs: &'b Tensor<T>) -> Tensor<T> {
        arbitrary()
    }
}

impl<'b, T: Copy + Add<Output = T>> Add<&'b Tensor<T>> for Tensor<T> {
    type Output = Tensor<T>;

    /// Element-wise sum of two tensors of the same shape.
    fn add(self, rhs: &'b Tensor<T>) -> (t: Tensor<T>)
        ensures
            t.wf(),
            t.dims() == self.dims(),
            is_sum_of(t.values(), self.values(), rhs.values()),
    {
        match (&self).try_add(rhs) {
            Ok(t) => t,
            Err(_) => {
                assert(false);
                Tensor::from_vec_unchecked(self.shape.as_slice(), Vec::new())
            },
        }
    }
}

impl<'a, T: Copy + Add<Output = T>> vstd::std_specs::ops::AddSpecImpl<Tensor<T>> for &'a Tensor<T> {
    open spec fn obeys_add_spec() -> bool {
        false
    }

    open spec fn add_req(self, rhs: Tensor<T>) -> bool {
        &&& self.dims() == rhs.dims()
        &&& add_allowed(self.values(), rhs.values())
    }

    open spec fn add_spec(self, rhs: Tensor<T>) -> Tensor<T> {
        arbitrary()
    }
}

impl<'a, T: Copy + Add<Output = T>> Add<Tensor<T>> for &'a Tensor<T> {
    type Output = Tensor<T>;

    /// Element-wise sum of two tensors of the same shape.
    fn add(self, rhs: Tensor<T>) -> (t: Tensor<T>)
        ensures
            t.wf(),
            t.dims() == self.dims(),
            is_sum_of(t.values(), self.values(), rhs.values()),
    {
        match (self).try_add(&rhs) {
            Ok(t) => t,
            Err(_) => {
                assert(false);
                Tensor::from_vec_unchecked(self.shape.as_slice(), Vec::new())
            },
        }
    }
}

impl<'a, 'b, T: Copy + Sub<Output = T>> vstd::std_specs::ops::SubSpecImpl<&'b Tensor<T>> for &'a Tensor<T> {
    open spec fn obeys_sub_spec() -> bool {
        false
    }

    open spec fn sub_req(self, rhs: &'b Tensor<T>) -> bool {
        &&& self.dims() == rhs.dims()
        &&& sub_allowed(self.values(), rhs.values())
    }

    open spec fn sub_spec(self, rhs: &'b Tensor<T>) -> Tensor<T> {
        arbitrary()
    }
}

impl<'a, 'b, T: Copy + Sub<Output = T>> Sub<&'b Tensor<T>> for &'a Tensor<T> {
    type Output = Tensor<T>;

    /// Element-wise difference of two tensors of the same shape.
    fn sub(self, rhs: &'b Tensor<T>) -> (t: Tensor<T>)
        ensures
            t.wf(),
            t.dims() == self.dims(),
            is_difference_of(t.values(), self.values(), rhs.values()),
    {
        match (self).try_sub(rhs) {
            Ok(t) => t,
            Err(_) => {
                assert(false);
                Tensor::from_vec_unchecked(self.shape.as_slice(), Vec::new())
            },
        }
    }
}

impl<T: Copy + Sub<Output = T>> vstd::std_specs::ops::SubSpecImpl<Tensor<T>> for Tensor<T> {
    open spec fn obeys_sub_spec() -> bool {
        false
    }

    open spec fn sub_req(self, rhs: Tensor<T>) -> bool {
        &&& self.dims() == rhs.dims()
        &&& sub_allowed(self.values(), rhs.values())
    }

    open spec fn sub_spec(self, rhs: Tensor<T>) -> Tensor<T> {
        arbitrary()
    }
}

impl<T: Copy + Sub<Output = T>> Sub<Tensor<T>> for Tensor<T> {
    type Output = Tensor<T>;

    /// Element-wise difference of two tensors of the same shape.
    fn sub(self, rhs: Tensor<T>) -> (t: Tensor<T>)
        ensures
            t.wf(),
            t.dims() == self.dims(),
            is_difference_of(t.values(), self.values(), rhs.values()),
    {
        match (&self).try_sub(&rhs) {
            Ok(t) => t,
            Err(_) => {
                assert(false);
                Tensor::from_vec_unchecked(self.shape.as_slice(), Vec::new())
            },
        }
    }
}

impl<'b, T: Copy + Sub<Output = T>> vstd::std_specs::ops::SubSpecImpl<&'b Tensor<T>> for Tensor<T> {
    open spec fn obeys_sub_spec() -> bool {
        false
    }

    open spec fn sub_req(self, rhs: &'b Tensor<T>) -> bool {
        &&& self.dims() == rhs.dims()
        &&& sub_allowed(self.values(), rhs.values())
    }

    open spec fn sub_spec(self, rhs: &'b Tensor<T>) -> Tensor<T> {
        arbitrary()
    }
}

impl<'b, T: Copy + Sub<Output = T>> Sub<&'b Tensor<T>> for Tensor<T> {
    type Output = Tensor<T>;

    /// Element-wise difference of two tensors of the same shape.
    fn sub(self, rhs: &'b Tensor<T>) -> (t: Tensor<T>)
        ensures
            t.wf(),
            t.dims() == self.dims(),
            is_difference_of(t.values(), self.values(), rhs.values()),
    {
        match (&self).try_sub(rhs) {
            Ok(t) => t,
            Err(_) => {
                assert(false);
                Tensor::from_vec_unchecked(self.shape.as_slice(), Vec::new())
            },
        }
    }
}

impl<'a, T: Copy + Sub<Output = T>> vstd::std_specs::ops::SubSpecImpl<Tensor<T>> for &'a Tensor<T> {
    open spec fn obeys_sub_spec() -> bool {
        false
    }

    open spec fn sub_req(self, rhs: Tensor<T>) -> bool {
        &&& self.dims() == rhs.dims()
        &&& sub_allowed(self.values(), rhs.values())
    }

    open spec fn sub_spec(self, rhs: Tensor<T>) -> Tensor<T> {
        arbitrary()
    }
}

impl<'a, T: Copy + Sub<Output = T>> Sub<Tensor<T>> for &'a Tensor<T> {
    type Output = Tensor<T>;

    /// Element-wise difference of two tensors of the same shape.
    fn sub(self, rhs: Tensor<T>) -> (t: Tensor<T>)
        ensures
            t.wf(),
            t.dims() == self.dims(),
            is_difference_of(t.values(), self.values(), rhs.values()),
    {
        match (self).try_sub(&rhs) {
            Ok(t) => t,
            Err(_) => {
                assert(false);
                Tensor::from_vec_unchecked(self.shape.as_slice(), Vec::new())
            },
        }
    }
}

impl<'a, T: Copy + Mul<Output = T>> vstd::std_specs::ops::MulSpecImpl<T> for &'a Tensor<T> {
    open spec fn obeys_mul_spec() -> bool {
        false
    }

    open spec fn mul_req(self, rhs: T) -> bool {
        &&& scale_allowed(self.values(), rhs)
    }

    open spec fn mul_spec(self, rhs: T) -> Tensor<T> {
        arbitrary()
    }
}

impl<'a, T: Copy + Mul<Output = T>> Mul<T> for &'a Tensor<T> {
    type Output = Tensor<T>;

    /// Every element multiplied by `scalar`; the shape is kept.
    fn mul(self, scalar: T) -> (t: Tensor<T>)
        ensures
            t.wf(),
            t.dims() == self.dims(),
            is_scaled_of(t.values(), self.values(), scalar),
    {
        (self).mul_scalar(scalar)
    }
}

impl<T: Copy + Mul<Output = T>> vstd::std_specs::ops::MulSpecImpl<T> for Tensor<T> {
    open spec fn obeys_mul_spec() -> bool {
        false
    }

    open spec fn mul_req(self, rhs: T) -> bool {
        &&& scale_allowed(self.values(), rhs)
    }

    open spec fn mul_spec(self, rhs: T) -> Tensor<T> {
        arbitrary()
    }
}

impl<T: Copy + Mul<Output = T>> Mul<T> for Tensor<T> {
    type Output = Tensor<T>;

    /// Every element multiplied by `scalar`; the shape is kept.
    fn mul(self, scalar: T) -> (t: Tensor<T>)
        ensures
            t.wf(),
            t.dims() == self.dims(),
            is_scaled_of(t.values(), self.values(), scalar),
    {
        (&self).mul_scalar(scalar)
    }
}

impl<'a, T> vstd::std_specs::core::IndexSpecImpl<&'a [usize]> for Tensor<T> {
    open spec fn index_req(&self, index: &&'a [usize]) -> bool {
        in_bounds(index@, self.dims())
    }
}

impl<'a, T> core::ops::Index<&'a [usize]> for Tensor<T> {
    type Output = T;

    /// The element at `idx`, which must name an element: one in-bounds
    /// component per axis. For a fallible alternative, use `try_get`.
    fn index(&self, idx: &'a [usize]) -> (r: &T)
        ensures
            *r == self.values()[flat_offset(idx@, self.dims()) as int],
    {
        match self.try_flat_index(idx) {
            Ok(flat) => &self.data[flat],
            Err(_) => {
                assert(false);
                &self.data[0]
            },
        }
    }
}

impl<T> Tensor<T> where rand::distributions::Standard: rand::distributions::Distribution<T> {
    /// A tensor of the given shape whose elements are drawn from `rand`'s
    /// `Standard` distribution (for floats `[0, 1)`, for integers the whole
    /// range of `T`) by a `StdRng` seeded with `seed`, so that the same seed
    /// gives the same tensor. The contract states only the shape: the
    /// generator is opaque here.
    pub fn rand_seeded(shape: &[usize], seed: u64) -> (t: Self)
        requires
            dims_fit(shape@),
        ensures
            t.wf(),
            t.dims() == shape@,
            t.values().len() == dims_product(shape@),
    {
        let size = shape_product(shape);
        let data = seeded_standard_values(size, seed);
        Tensor::from_vec_unchecked(shape, data)
    }
}



/// Compares two shapes; a mismatch is reported with both shapes, the left
/// one as the expected shape.
fn check_same_shape(lhs: &[usize], rhs: &[usize]) -> (r: Result<(), TensorError>)
    ensures
        r is Ok <==> lhs@ == rhs@,
        r matches Err(e) ==> shape_mismatch(e, lhs@, rhs@),
{
    let mut same = lhs.len() == rhs.len();
    if same {
        let n = lhs.len();
        let mut k: usize = 0;
        while k < n
            invariant
                n == lhs@.len(),
                n == rhs@.len(),
                k <= n,
                same <==> forall|j: int| 0 <= j < k ==> lhs@[j] == rhs@[j],
            decreases n - k,
        {
            if lhs[k] != rhs[k] {
                same = false;
            }
            k = k + 1;
        }
        if same {
            assert(lhs@ =~= rhs@);
        }
    }
    if same {
        Ok(())
    } else {
        Err(TensorError::ShapeMismatch { expected: slice_to_vec(lhs), found: slice_to_vec(rhs) })
    }
}

/// `e` reports that shape `found` was met where shape `expected` was needed.
pub open spec fn shape_mismatch(e: TensorError, expected: Seq<usize>, found: Seq<usize>) -> bool {
    &&& e matches TensorError::ShapeMismatch { expected: x, found: y }
    &&& x@ == expected
    &&& y@ == found
}


/// Read after write: once the element at `idx` has been set to `v` (as
/// `try_get_mut` does), `idx` reads back `v`, the tensor is still well
/// formed, and every other in-bounds index reads what it read before.
pub proof fn lemma_read_after_write<T>(
    before: Tensor<T>,
    after: Tensor<T>,
    idx: Seq<usize>,
    v: T,
    other: Seq<usize>,
)
    requires
        before.wf(),
        in_bounds(idx, before.dims()),
        after.dims() == before.dims(),
        after.stride_seq() == before.stride_seq(),
        after.values() == before.values().update(flat_offset(idx, before.dims()) as int, v),
    ensures
        after.wf(),
        after.values()[flat_offset(idx, after.dims()) as int] == v,
        in_bounds(other, after.dims()) && other != idx ==> after.values()[flat_offset(other, after.dims()) as int]
            == before.values()[flat_offset(other, before.dims()) as int],
{
    lemma_offset_in_range(idx, before.dims());
    if in_bounds(other, after.dims()) && other != idx {
        lemma_offset_injective(other, idx, before.dims());
        lemma_offset_in_range(other, before.dims());
    }
}

/// Indexing a well-formed tensor is a bijection between its in-bounds
/// indices and the positions of its storage: an in-bounds index lands on a
/// position below `len`, and each position `f` below `len` is reached by
/// the index `index_of_offset(f, dims)` and by no other in-bounds index.
/// (`lemma_offset_row_major` adds that the order of positions is the
/// lexicographic order of the indices.)
pub proof fn lemma_layout_bijective<T>(t: Tensor<T>, f: nat, a: Seq<usize>)
    requires
        t.wf(),
        f < t.values().len(),
    ensures
        in_bounds(a, t.dims()) ==> flat_offset(a, t.dims()) < t.values().len(),
        in_bounds(index_of_offset(f, t.dims()), t.dims()),
        flat_offset(index_of_offset(f, t.dims()), t.dims()) == f,
        in_bounds(a, t.dims()) && flat_offset(a, t.dims()) == f ==> a == index_of_offset(f, t.dims()),
{
    let s = t.dims();
    lemma_offset_onto(f, s);
    if in_bounds(a, s) {
        lemma_offset_in_range(a, s);
        if a != index_of_offset(f, s) {
            lemma_offset_injective(a, index_of_offset(f, s), s);
        }
    }
}

/// The error that indexing a tensor of shape `s` with `idx` reports: a rank
/// mismatch when the lengths differ, otherwise an out-of-bounds error that
/// carries both the index and the shape.
pub open spec fn index_error(e: TensorError, idx: Seq<usize>, s: Seq<usize>) -> bool {
    if idx.len() != s.len() {
        e == TensorError::RankMismatch { expected_rank: s.len() as usize, found_rank: idx.len() as usize }
    } else {
        &&& !in_bounds(idx, s)
        &&& e matches TensorError::IndexOutOfBounds { index, shape }
        &&& index@ == idx
        &&& shape@ == s
    }
}

} // verus!
