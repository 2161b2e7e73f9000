# NumRS

A small linear algebra and tensor library: `Matrix<T>`, a dense
two-dimensional matrix, and `Tensor<T>`, an N-dimensional tensor, both
stored row-major in one flat `Vec<T>`. The library in `src/` is written in
Verus. Its functions carry contracts proved against their bodies, except
the few small functions marked `#[verifier::external_body]` that call
`num_traits` and `rand`: their contracts are taken on trust and their doc
comments say what they claim.

## Layout

- `src/shape.rs`: element counts, strides and flat offsets of a shape, with
  the facts that make indexing safe (every in-bounds index lands inside the
  storage, different indices land on different elements, every element is
  reached, and positions follow the lexicographic order of indices).
- `src/elementwise.rs`: element-wise sum, difference, product and scaling.
- `src/numeric.rs`: the zero and one of `num_traits` and their laws.
- `src/random.rs`: reproducible uniform sampling through `rand`'s seeded
  generator.
- `src/tensor.rs`: `Tensor<T>`: construction, checked indexing, arithmetic.
- `src/matrix.rs`: `Matrix<T>`: construction, transpose, element-wise
  arithmetic, the matrix product, indexing, and the algebraic laws
  (double transpose, transpose of a product, identity).
- `src/display.rs`: the on-screen layout of a matrix (header, row brackets,
  columns aligned to their widest cell) and of a tensor (brackets nested one
  level per axis), arranged from element texts that the caller formats.
- `src/error.rs`: `MatrixError` and `TensorError` and their messages.
- `src/parallel.rs`: the size from which work is spread over threads.
- `app/`: the `f64` front end: element formatting and colors for display, determinant, inverse,
  norm, sampling from the operating system's entropy, normal sampling,
  panicking operators and indexing for tensors, multi-threaded paths, the
  `ns_array!` macro and a benchmark program.
