//! NumRS: a small linear algebra and tensor library.
//!
//! `Matrix<T>` is a dense two-dimensional matrix and `Tensor<T>` an
//! N-dimensional tensor, both stored row-major in one flat `Vec<T>`.

pub mod display;
pub mod elementwise;
pub mod error;
pub mod matrix;
pub mod matrix_laws;
pub mod numeric;
pub mod parallel;
pub mod product;
pub mod random;
pub mod shape;
pub mod tensor;

pub use error::{MatrixError, TensorError};
pub use matrix::Matrix;
pub use parallel::{should_parallelize, PAR_THRESHOLD};
pub use tensor::Tensor;
