use vstd::prelude::*;

verus! {

use crate::ring::Ring;

/// A matrix over the ring `R`: coefficients in row-major order with the
/// shape `(rows, columns)`. A placeholder for linear algebra to come; no
/// operations are defined on it yet.
pub struct Matrix<R: Ring> {
    coefs: Vec<R>,
    dim: (usize, usize),
}

impl<R: Ring> Matrix<R> {
    /// The shape matches the stored coefficients.
    pub closed spec fn wf(&self) -> bool {
        self.coefs@.len() == self.dim.0 * self.dim.1
    }
}

} // verus!
