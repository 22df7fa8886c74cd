//! Textbook algorithms and a row-major matrix with zero-copy rectangular views.
pub mod chapter2;
pub mod error;
pub mod matrix;

pub use error::{Error, Result};
pub use matrix::{Matrix, MatrixView, MatrixViewMut};
