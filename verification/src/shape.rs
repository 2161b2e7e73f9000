//! Row-major layout of an N-dimensional shape: element counts, strides and
//! flat offsets, with the facts that make indexing safe.
use vstd::prelude::*;

verus! {

/// Number of elements of a shape: the product of its dimensions
/// (1 for the empty shape of a scalar).
pub open spec fn dims_product(s: Seq<usize>) -> nat
    decreases s.len(),
{
    if s.len() == 0 {
        1
    } else {
        dims_product(s.drop_last()) * (s.last() as nat)
    }
}

/// Every prefix product of `s` fits in a `usize`: computing the product
/// from left to right never overflows.
pub open spec fn prefix_products_fit(s: Seq<usize>) -> bool {
    forall|k: int| 0 <= k <= s.len() ==> #[trigger] dims_product(s.take(k)) <= usize::MAX
}

/// Every suffix product of `s` fits in a `usize`: computing the strides
/// from right to left never overflows.
pub open spec fn suffix_products_fit(s: Seq<usize>) -> bool {
    forall|k: int| 0 <= k <= s.len() ==> #[trigger] dims_product(s.skip(k)) <= usize::MAX
}

/// A shape whose element count and strides are all representable.
pub open spec fn dims_fit(s: Seq<usize>) -> bool {
    prefix_products_fit(s) && suffix_products_fit(s)
}

/// Row-major stride of axis `k`: the product of all dimensions after `k`.
pub open spec fn stride_of(s: Seq<usize>, k: int) -> nat {
    dims_product(s.skip(k + 1))
}

/// The stride table of a shape.
pub open spec fn strides_of(s: Seq<usize>) -> Seq<usize> {
    Seq::new(s.len(), |k: int| stride_of(s, k) as usize)
}

/// Flat offset contributed by the first `m` axes of `idx`, given `strides`:
/// `idx[0] * strides[0] + ... + idx[m-1] * strides[m-1]`.
pub open spec fn partial_offset(idx: Seq<usize>, strides: Seq<usize>, m: int) -> nat
    decreases m,
{
    if m <= 0 {
        0
    } else {
        partial_offset(idx, strides, m - 1) + (idx[m - 1] as nat) * (strides[m - 1] as nat)
    }
}

/// Flat offset in row-major storage of the element at `idx` in a tensor of
/// shape `s`.
pub open spec fn flat_offset(idx: Seq<usize>, s: Seq<usize>) -> nat {
    partial_offset(idx, strides_of(s), idx.len() as int)
}

/// `idx` names an element of a tensor of shape `s`: one index per axis,
/// each below its dimension.
pub open spec fn in_bounds(idx: Seq<usize>, s: Seq<usize>) -> bool {
    &&& idx.len() == s.len()
    &&& forall|k: int| 0 <= k < s.len() ==> #[trigger] idx[k] < s[k]
}

/// The product of a concatenation is the product of the parts.
pub proof fn lemma_dims_product_concat(a: Seq<usize>, b: Seq<usize>)
    ensures
        dims_product(a + b) == dims_product(a) * dims_product(b),
    decreases b.len(),
{
    if b.len() == 0 {
        assert(a + b =~= a);
        assert(dims_product(b) == 1);
        assert(dims_product(a) * 1 == dims_product(a));
    } else {
        let c = a + b;
        assert(c.drop_last() =~= a + b.drop_last());
        assert(c.last() == b.last());
        assert(dims_product(c) == dims_product(c.drop_last()) * (c.last() as nat));
        lemma_dims_product_concat(a, b.drop_last());
        let pa = dims_product(a);
        let pb = dims_product(b.drop_last());
        let l = b.last() as nat;
        assert(pa * (pb * l) == (pa * pb) * l) by (nonlinear_arith);
        assert(dims_product(b) == pb * l);
        assert(dims_product(c) == (pa * pb) * l);
    }
}

/// Peeling the first axis off a suffix: `prod(s[k..]) == s[k] * prod(s[k+1..])`.
pub proof fn lemma_suffix_product_step(s: Seq<usize>, k: int)
    requires
        0 <= k < s.len(),
    ensures
        dims_product(s.skip(k)) == (s[k] as nat) * dims_product(s.skip(k + 1)),
{
    let head = seq![s[k]];
    assert(s.skip(k) =~= head + s.skip(k + 1));
    lemma_dims_product_concat(head, s.skip(k + 1));
    assert(head.drop_last() =~= Seq::<usize>::empty());
    assert(dims_product(Seq::<usize>::empty()) == 1);
    assert(dims_product(head) == dims_product(head.drop_last()) * (head.last() as nat));
}

/// Extending a prefix by one axis: `prod(s[..k+1]) == prod(s[..k]) * s[k]`.
pub proof fn lemma_prefix_product_step(s: Seq<usize>, k: int)
    requires
        0 <= k < s.len(),
    ensures
        dims_product(s.take(k + 1)) == dims_product(s.take(k)) * (s[k] as nat),
{
    assert(s.take(k + 1).drop_last() =~= s.take(k));
}

/// The whole shape is its own suffix from axis 0 and its own prefix up to
/// its length.
pub proof fn lemma_whole_shape(s: Seq<usize>)
    ensures
        dims_product(s.skip(0)) == dims_product(s),
        dims_product(s.take(s.len() as int)) == dims_product(s),
        dims_product(s.skip(s.len() as int)) == 1,
{
    assert(s.skip(0) =~= s);
    assert(s.take(s.len() as int) =~= s);
    assert(s.skip(s.len() as int) =~= Seq::<usize>::empty());
}

/// For an in-bounds index, the offset of the first `m` axes stays below
/// `prod(s) - prod(s[m..])`.
proof fn lemma_partial_offset_bound(idx: Seq<usize>, s: Seq<usize>, m: int)
    requires
        in_bounds(idx, s),
        suffix_products_fit(s),
        0 <= m <= s.len(),
    ensures
        partial_offset(idx, strides_of(s), m) + dims_product(s.skip(m)) <= dims_product(s),
    decreases m,
{
    if m == 0 {
        lemma_whole_shape(s);
    } else {
        lemma_partial_offset_bound(idx, s, m - 1);
        lemma_suffix_product_step(s, m - 1);
        let st = stride_of(s, m - 1);
        let i = idx[m - 1] as nat;
        let d = s[m - 1] as nat;
        assert(i + 1 <= d);
        assert(i * st + st <= d * st) by (nonlinear_arith)
            requires
                i + 1 <= d,
        ;
        assert(dims_product(s.skip(m)) <= usize::MAX);
        assert(strides_of(s)[m - 1] as nat == st);
    }
}

/// Every in-bounds index addresses an element of the flat storage: its
/// offset is below the element count of the shape.
pub proof fn lemma_offset_in_range(idx: Seq<usize>, s: Seq<usize>)
    requires
        in_bounds(idx, s),
        suffix_products_fit(s),
    ensures
        flat_offset(idx, s) < dims_product(s),
        forall|m: int| 0 <= m <= s.len() ==> #[trigger] partial_offset(idx, strides_of(s), m) < dims_product(s),
{
    assert forall|m: int| 0 <= m <= s.len() implies #[trigger] partial_offset(idx, strides_of(s), m) < dims_product(s) by {
        lemma_partial_offset_bound(idx, s, m);
        if m < s.len() {
            lemma_suffix_product_step(s, m);
            assert(idx[m] < s[m]);
            let d = s[m] as nat;
            let p = dims_product(s.skip(m + 1));
            if p == 0 {
                assert(d * p == 0) by (nonlinear_arith) requires p == 0;
            }
            assert(p >= 1 ==> d * p >= 1) by (nonlinear_arith) requires d >= 1;
            // a zero suffix product below an in-bounds axis is impossible
            lemma_suffix_positive(idx, s, m + 1);
        } else {
            assert(s.skip(m) =~= Seq::<usize>::empty());
        }
    }
}

/// Below an in-bounds index every dimension is positive, so are all suffix
/// products.
proof fn lemma_suffix_positive(idx: Seq<usize>, s: Seq<usize>, k: int)
    requires
        in_bounds(idx, s),
        0 <= k <= s.len(),
    ensures
        dims_product(s.skip(k)) >= 1,
    decreases s.len() - k,
{
    if k == s.len() {
        assert(s.skip(k) =~= Seq::<usize>::empty());
    } else {
        lemma_suffix_positive(idx, s, k + 1);
        lemma_suffix_product_step(s, k);
        assert(idx[k] < s[k]);
        let d = s[k] as nat;
        let p = dims_product(s.skip(k + 1));
        assert(d * p >= 1) by (nonlinear_arith) requires d >= 1, p >= 1;
    }
}

/// Flat offset contributed by axes `m..n` of `idx`, given `strides`.
pub open spec fn tail_offset(idx: Seq<usize>, strides: Seq<usize>, m: int, n: int) -> nat
    decreases n - m,
{
    if m >= n {
        0
    } else {
        (idx[m] as nat) * (strides[m] as nat) + tail_offset(idx, strides, m + 1, n)
    }
}

/// The offset of the first `n` axes splits at any `m <= n` into the offset
/// of the axes before `m` and that of the axes from `m` on.
proof fn lemma_offset_split(idx: Seq<usize>, strides: Seq<usize>, m: int, n: int)
    requires
        0 <= m <= n,
    ensures
        partial_offset(idx, strides, n) == partial_offset(idx, strides, m) + tail_offset(idx, strides, m, n),
    decreases n - m,
{
    if m < n {
        lemma_offset_split(idx, strides, m + 1, n);
        assert(partial_offset(idx, strides, m + 1) == partial_offset(idx, strides, m) + (idx[m] as nat) * (strides[m] as nat));
    }
}

/// For an in-bounds index, the offset of the axes from `m` on stays below
/// the product of the dimensions from `m` on.
proof fn lemma_tail_offset_bound(idx: Seq<usize>, s: Seq<usize>, m: int)
    requires
        in_bounds(idx, s),
        suffix_products_fit(s),
        0 <= m <= s.len(),
    ensures
        tail_offset(idx, strides_of(s), m, s.len() as int) < dims_product(s.skip(m)),
    decreases s.len() - m,
{
    if m == s.len() {
        assert(s.skip(m) =~= Seq::<usize>::empty());
    } else {
        lemma_tail_offset_bound(idx, s, m + 1);
        lemma_suffix_product_step(s, m);
        assert(dims_product(s.skip(m + 1)) <= usize::MAX);
        let st = stride_of(s, m);
        assert(strides_of(s)[m] as nat == st);
        let i = idx[m] as nat;
        let d = s[m] as nat;
        assert(i + 1 <= d);
        assert(i * st + st <= d * st) by (nonlinear_arith)
            requires
                i + 1 <= d,
        ;
    }
}

/// The offsets of the first `m` axes of two indices agree when the indices
/// agree on those axes.
proof fn lemma_partial_offset_prefix(a: Seq<usize>, b: Seq<usize>, strides: Seq<usize>, m: int)
    requires
        0 <= m <= a.len(),
        m <= b.len(),
        forall|k: int| 0 <= k < m ==> a[k] == b[k],
    ensures
        partial_offset(a, strides, m) == partial_offset(b, strides, m),
    decreases m,
{
    if m > 0 {
        lemma_partial_offset_prefix(a, b, strides, m - 1);
    }
}

/// Row-major layout is one-to-one: two different in-bounds indices of a
/// shape address two different elements of the flat storage.
pub proof fn lemma_offset_injective(a: Seq<usize>, b: Seq<usize>, s: Seq<usize>)
    requires
        in_bounds(a, s),
        in_bounds(b, s),
        suffix_products_fit(s),
        a != b,
    ensures
        flat_offset(a, s) != flat_offset(b, s),
{
    let n = s.len() as int;
    assert(exists|k: int| 0 <= k < n && a[k] != b[k]) by {
        if forall|k: int| 0 <= k < n ==> a[k] == b[k] {
            assert(a =~= b);
        }
    }
    let k0 = choose|k: int| 0 <= k < n && a[k] != b[k] && forall|j: int| 0 <= j < k ==> a[j] == b[j];
    assert(exists|k: int| 0 <= k < n && a[k] != b[k] && forall|j: int| 0 <= j < k ==> a[j] == b[j]) by {
        let w = choose|k: int| 0 <= k < n && a[k] != b[k];
        lemma_first_difference(a, b, w);
    }
    let st = strides_of(s);
    lemma_offset_split(a, st, k0, n);
    lemma_offset_split(b, st, k0, n);
    lemma_partial_offset_prefix(a, b, st, k0);
    lemma_tail_offset_bound(a, s, k0 + 1);
    lemma_tail_offset_bound(b, s, k0 + 1);
    assert(dims_product(s.skip(k0 + 1)) <= usize::MAX);
    let p = dims_product(s.skip(k0 + 1));
    assert(st[k0] as nat == p);
    assert(tail_offset(a, st, k0, n) == (a[k0] as nat) * p + tail_offset(a, st, k0 + 1, n));
    assert(tail_offset(b, st, k0, n) == (b[k0] as nat) * p + tail_offset(b, st, k0 + 1, n));
    let x = a[k0] as nat;
    let y = b[k0] as nat;
    let ta = tail_offset(a, st, k0 + 1, n);
    let tb = tail_offset(b, st, k0 + 1, n);
    assert(x * p + ta != y * p + tb) by (nonlinear_arith)
        requires
            x != y,
            ta < p,
            tb < p,
    {
        if x < y {
            assert(x * p + p <= y * p);
        } else {
            assert(y * p + p <= x * p);
        }
    }
}

/// Where two sequences differ at `w`, there is a first position at which
/// they differ.
proof fn lemma_first_difference(a: Seq<usize>, b: Seq<usize>, w: int)
    requires
        0 <= w < a.len(),
        w < b.len(),
        a[w] != b[w],
    ensures
        exists|k: int| 0 <= k < a.len() && a[k] != b[k] && forall|j: int| 0 <= j < k ==> a[j] == b[j],
    decreases w,
{
    if exists|j: int| 0 <= j < w && a[j] != b[j] {
        let j = choose|j: int| 0 <= j < w && a[j] != b[j];
        lemma_first_difference(a, b, j);
    } else {
        assert(forall|j: int| 0 <= j < w ==> a[j] == b[j]);
    }
}

/// `a` comes before `b` in row-major (lexicographic) order: they agree on
/// every axis before some axis `k`, and on axis `k` the index of `a` is the
/// smaller one.
pub open spec fn row_major_before(a: Seq<usize>, b: Seq<usize>) -> bool {
    exists|k: int|
        0 <= k < a.len() && k < b.len() && #[trigger] a[k] < b[k] && forall|j: int|
            0 <= j < k ==> a[j] == b[j]
}

/// Row-major layout keeps the order of indices: of two in-bounds indices,
/// the one that comes first in lexicographic order has the smaller offset.
pub proof fn lemma_offset_row_major(a: Seq<usize>, b: Seq<usize>, s: Seq<usize>)
    requires
        in_bounds(a, s),
        in_bounds(b, s),
        suffix_products_fit(s),
        row_major_before(a, b),
    ensures
        flat_offset(a, s) < flat_offset(b, s),
{
    let n = s.len() as int;
    let k0 = choose|k: int|
        0 <= k < a.len() && k < b.len() && #[trigger] a[k] < b[k] && forall|j: int|
            0 <= j < k ==> a[j] == b[j];
    let st = strides_of(s);
    lemma_offset_split(a, st, k0, n);
    lemma_offset_split(b, st, k0, n);
    lemma_partial_offset_prefix(a, b, st, k0);
    lemma_tail_offset_bound(a, s, k0 + 1);
    lemma_tail_offset_bound(b, s, k0 + 1);
    assert(dims_product(s.skip(k0 + 1)) <= usize::MAX);
    let p = dims_product(s.skip(k0 + 1));
    assert(st[k0] as nat == p);
    assert(tail_offset(a, st, k0, n) == (a[k0] as nat) * p + tail_offset(a, st, k0 + 1, n));
    assert(tail_offset(b, st, k0, n) == (b[k0] as nat) * p + tail_offset(b, st, k0 + 1, n));
    let x = a[k0] as nat;
    let y = b[k0] as nat;
    let ta = tail_offset(a, st, k0 + 1, n);
    let tb = tail_offset(b, st, k0 + 1, n);
    assert(x * p + ta < y * p + tb) by (nonlinear_arith)
        requires
            x < y,
            ta < p,
    {
        assert(x * p + p <= y * p);
    }
}

/// The index that flat offset `f` stands for in a tensor of shape `s`:
/// along axis `k`, the quotient of `f` by the stride of `k`, modulo the
/// dimension of `k`.
pub open spec fn index_of_offset(f: nat, s: Seq<usize>) -> Seq<usize> {
    Seq::new(s.len(), |k: int| ((f / stride_of(s, k)) % (s[k] as nat)) as usize)
}

/// In a shape with at least one element, every suffix product, and so
/// every dimension, is positive.
proof fn lemma_nonempty_suffix_positive(s: Seq<usize>, k: int)
    requires
        dims_product(s) > 0,
        0 <= k <= s.len(),
    ensures
        dims_product(s.skip(k)) > 0,
        forall|j: int| 0 <= j < k ==> #[trigger] s[j] > 0,
    decreases k,
{
    if k == 0 {
        lemma_whole_shape(s);
    } else {
        lemma_nonempty_suffix_positive(s, k - 1);
        lemma_suffix_product_step(s, k - 1);
        let d = s[k - 1] as nat;
        let p = dims_product(s.skip(k));
        assert(d > 0 && p > 0) by (nonlinear_arith)
            requires
                d * p > 0,
        ;
    }
}

/// The offset of axes `m..` of the index that `f` stands for is `f` modulo
/// the product of the dimensions from `m` on.
proof fn lemma_index_of_offset_tail(f: nat, s: Seq<usize>, m: int)
    requires
        suffix_products_fit(s),
        f < dims_product(s),
        0 <= m <= s.len(),
    ensures
        tail_offset(index_of_offset(f, s), strides_of(s), m, s.len() as int) == f % dims_product(s.skip(m)),
    decreases s.len() - m,
{
    let n = s.len() as int;
    let idx = index_of_offset(f, s);
    if m == n {
        assert(s.skip(m) =~= Seq::<usize>::empty());
        assert(f % 1 == 0);
    } else {
        lemma_index_of_offset_tail(f, s, m + 1);
        lemma_nonempty_suffix_positive(s, n);
        lemma_nonempty_suffix_positive(s, m + 1);
        lemma_suffix_product_step(s, m);
        let q = dims_product(s.skip(m + 1));
        let d = s[m] as nat;
        assert(q <= usize::MAX);
        assert(strides_of(s)[m] as nat == q);
        assert(d > 0);
        vstd::arithmetic::div_mod::lemma_mod_bound((f / q) as int, d as int);
        assert(idx[m] as nat == (f / q) % d);
        vstd::arithmetic::div_mod::lemma_mod_breakdown(f as int, q as int, d as int);
        assert(d * q == q * d) by (nonlinear_arith);
        assert(tail_offset(idx, strides_of(s), m, n) == (idx[m] as nat) * q + tail_offset(idx, strides_of(s), m + 1, n));
        assert((idx[m] as nat) * q == q * ((f / q) % d)) by (nonlinear_arith)
            requires
                idx[m] as nat == (f / q) % d,
        ;
    }
}

/// Row-major layout leaves no gap: every offset below the element count of
/// a shape is the offset of an in-bounds index, namely `index_of_offset`.
pub proof fn lemma_offset_onto(f: nat, s: Seq<usize>)
    requires
        suffix_products_fit(s),
        f < dims_product(s),
    ensures
        in_bounds(index_of_offset(f, s), s),
        flat_offset(index_of_offset(f, s), s) == f,
{
    let n = s.len() as int;
    let idx = index_of_offset(f, s);
    lemma_nonempty_suffix_positive(s, n);
    assert forall|k: int| 0 <= k < s.len() implies #[trigger] idx[k] < s[k] by {
        let d = s[k] as nat;
        assert(d > 0);
        vstd::arithmetic::div_mod::lemma_mod_bound((f / stride_of(s, k)) as int, d as int);
    }
    lemma_offset_split(idx, strides_of(s), 0, n);
    lemma_index_of_offset_tail(f, s, 0);
    lemma_whole_shape(s);
    vstd::arithmetic::div_mod::lemma_small_mod(f, dims_product(s));
}

/// The stride table of `shape`, computed from the last axis backwards:
/// `strides[k]` is the product of the dimensions after `k`.
pub fn compute_strides(shape: &[usize]) -> (strides: Vec<usize>)
    requires
        suffix_products_fit(shape@),
    ensures
        strides@ == strides_of(shape@),
{
    let n = shape.len();
    let mut strides: Vec<usize> = vec![1usize; n];
    if n == 0 {
        assert(strides@ =~= strides_of(shape@));
        return strides;
    }
    let mut i: usize = n - 1;
    proof {
        assert(shape@.skip(n as int) =~= Seq::<usize>::empty());
    }
    while i > 0
        invariant
            n == shape@.len(),
            n >= 1,
            i < n,
            strides@.len() == n,
            suffix_products_fit(shape@),
            forall|k: int| i <= k < n ==> #[trigger] strides@[k] as nat == stride_of(shape@, k),
        decreases i,
    {
        i = i - 1;
        let ghost prev = strides@;
        proof {
            lemma_suffix_product_step(shape@, i + 1);
            assert(strides@[i + 1] as nat == stride_of(shape@, i + 1));
            assert(dims_product(shape@.skip(i + 1)) <= usize::MAX);
            let a = strides@[i + 1] as nat;
            let b = shape@[i + 1] as nat;
            assert(a * b == b * a) by (nonlinear_arith);
        }
        let next = strides[i + 1] * shape[i + 1];
        strides.set(i, next);
        proof {
            assert forall|k: int| i <= k < n implies #[trigger] strides@[k] as nat == stride_of(shape@, k) by {
                if k > i {
                    assert(strides@[k] == prev[k]);
                }
            }
        }
    }
    assert(strides@ =~= strides_of(shape@));
    strides
}

/// Element count of `shape`, multiplied from the first axis to the last.
pub fn shape_product(shape: &[usize]) -> (p: usize)
    requires
        prefix_products_fit(shape@),
    ensures
        p as nat == dims_product(shape@),
{
    let n = shape.len();
    let mut p: usize = 1;
    let mut k: usize = 0;
    proof {
        assert(shape@.take(0) =~= Seq::<usize>::empty());
    }
    while k < n
        invariant
            n == shape@.len(),
            k <= n,
            prefix_products_fit(shape@),
            p as nat == dims_product(shape@.take(k as int)),
        decreases n - k,
    {
        proof {
            lemma_prefix_product_step(shape@, k as int);
            assert(dims_product(shape@.take(k + 1)) <= usize::MAX);
        }
        p = p * shape[k];
        k = k + 1;
    }
    proof {
        lemma_whole_shape(shape@);
    }
    p
}

/// The element count of `shape`, or `None` when computing it from the
/// first axis to the last overflows a `usize`.
pub fn checked_shape_product(shape: &[usize]) -> (r: Option<usize>)
    ensures
        r is Some <==> prefix_products_fit(shape@),
        r matches Some(p) ==> p as nat == dims_product(shape@),
{
    let n = shape.len();
    let mut p: usize = 1;
    let mut k: usize = 0;
    proof {
        assert(shape@.take(0) =~= Seq::<usize>::empty());
    }
    while k < n
        invariant
            n == shape@.len(),
            k <= n,
            p as nat == dims_product(shape@.take(k as int)),
            forall|j: int| 0 <= j <= k ==> #[trigger] dims_product(shape@.take(j)) <= usize::MAX,
        decreases n - k,
    {
        proof {
            lemma_prefix_product_step(shape@, k as int);
        }
        match p.checked_mul(shape[k]) {
            Some(q) => {
                p = q;
                k = k + 1;
            },
            None => {
                assert(dims_product(shape@.take(k + 1)) > usize::MAX);
                return None;
            },
        }
    }
    proof {
        lemma_whole_shape(shape@);
    }
    Some(p)
}

/// Whether every stride of `shape` fits in a `usize`, so that its stride
/// table can be computed.
pub fn strides_fit(shape: &[usize]) -> (r: bool)
    ensures
        r == suffix_products_fit(shape@),
{
    let n = shape.len();
    let mut p: usize = 1;
    let mut k: usize = n;
    proof {
        assert(shape@.skip(n as int) =~= Seq::<usize>::empty());
    }
    while k > 0
        invariant
            n == shape@.len(),
            k <= n,
            p as nat == dims_product(shape@.skip(k as int)),
            forall|j: int| k <= j <= n ==> #[trigger] dims_product(shape@.skip(j)) <= usize::MAX,
        decreases k,
    {
        proof {
            lemma_suffix_product_step(shape@, k - 1);
            let a = p as nat;
            let b = shape@[k - 1] as nat;
            assert(a * b == b * a) by (nonlinear_arith);
        }
        match p.checked_mul(shape[k - 1]) {
            Some(q) => {
                p = q;
                k = k - 1;
            },
            None => {
                assert(dims_product(shape@.skip(k - 1)) > usize::MAX);
                return false;
            },
        }
    }
    true
}

} // verus!
