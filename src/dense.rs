use vstd::prelude::*;

use crate::matrix::{Matrix, MatrixError};
use crate::model::{difference, filled, plus_column, product, row_sums, scaled, transposed, MatrixModel};
use crate::numeric::Numeric;
use crate::shape::LayerError;

verus! {

/// Affine layer `weights * input + biases` over matrix columns, with the
/// gradients of its last backward call and the input of its last forward call.
pub struct Dense<T: Numeric> {
    pub weights: Matrix<T>,
    pub weight_gradients: Matrix<T>,
    pub biases: Matrix<T>,
    pub bias_gradients: Matrix<T>,
    pub prev_input: Option<Matrix<T>>,
}

/// The shape-only error of a matrix operation carried over to a layer.
fn layer_error(e: MatrixError) -> (r: LayerError)
    ensures
        e == MatrixError::DimensionMismatch ==> r == LayerError::DimensionMismatch,
        e == MatrixError::OutOfRange ==> r == LayerError::OutOfRange,
{
    match e {
        MatrixError::DimensionMismatch => LayerError::DimensionMismatch,
        MatrixError::OutOfRange => LayerError::OutOfRange,
    }
}

impl<T: Numeric> Dense<T> {
    pub open spec fn wf(&self) -> bool {
        &&& self.weights.wf()
        &&& self.biases.wf()
        &&& self.weight_gradients.wf()
        &&& self.bias_gradients.wf()
        &&& self.biases.rows == self.weights.rows
        &&& self.biases.cols == 1
        &&& self.weight_gradients.rows == self.weights.rows
        &&& self.weight_gradients.cols == self.weights.cols
        &&& self.bias_gradients.rows == self.weights.rows
        &&& self.bias_gradients.cols == 1
        &&& self.prev_input matches Some(x) ==> x.wf() && x.rows == self.weights.cols
    }

    /// A layer with the given parameters, zero gradients and no forward call
    /// yet. The biases must be one column with a row per output.
    pub fn new(weights: Matrix<T>, biases: Matrix<T>) -> (r: Result<Dense<T>, LayerError>)
        requires
            weights.wf(),
            biases.wf(),
        ensures
            r is Ok <==> biases.rows == weights.rows && biases.cols == 1,
            r matches Err(e) ==> e == LayerError::DimensionMismatch,
            r matches Ok(d) ==> {
                &&& d.wf()
                &&& d.weights == weights
                &&& d.biases == biases
                &&& d.weight_gradients@ == filled(weights.rows as nat, weights.cols as nat, 0)
                &&& d.bias_gradients@ == filled(weights.rows as nat, 1, 0)
                &&& d.prev_input is None
            },
    {
        if biases.rows != weights.rows || biases.cols != 1 {
            return Err(LayerError::DimensionMismatch);
        }
        // The stored length bounds `rows * cols` for the weight gradient buffer.
        let _n: usize = weights.data.len();
        let weight_gradients = Matrix::new(weights.rows, weights.cols, T::zero());
        let bias_gradients = Matrix::new(weights.rows, 1, T::zero());
        Ok(Dense { weights, weight_gradients, biases, bias_gradients, prev_input: None })
    }

    /// Forward pass: `weights * input` with the bias column added to every
    /// column. On success the input is kept for the next backward pass; on
    /// failure the layer is left as it was.
    pub fn calculate(&mut self, input: Matrix<T>) -> (r: Result<Matrix<T>, LayerError>)
        requires
            old(self).wf(),
            input.wf(),
        ensures
            final(self).wf(),
            r matches Err(LayerError::DimensionMismatch) <==> input.rows != old(self).weights.cols,
            r is Ok <==> input.rows == old(self).weights.cols && product(old(self).weights@, input@).within(
                0,
                T::upper(),
            ) && plus_column(product(old(self).weights@, input@), old(self).biases@).within(0, T::upper()),
            r matches Err(e) ==> e != LayerError::UninitializedCache && *final(self) == *old(self),
            r matches Ok(y) ==> {
                &&& y.wf()
                &&& y@ == plus_column(product(old(self).weights@, input@), old(self).biases@)
                &&& final(self).prev_input == Some(input)
                &&& final(self).weights == old(self).weights
                &&& final(self).biases == old(self).biases
                &&& final(self).weight_gradients == old(self).weight_gradients
                &&& final(self).bias_gradients == old(self).bias_gradients
            },
    {
        if input.rows != self.weights.cols {
            return Err(LayerError::DimensionMismatch);
        }
        let p = match self.weights.duplicate().mul(input.duplicate()) {
            Ok(p) => p,
            Err(e) => {
                return Err(layer_error(e));
            },
        };
        let y = match p.add_column(&self.biases) {
            Ok(y) => y,
            Err(e) => {
                return Err(layer_error(e));
            },
        };
        self.prev_input = Some(input);
        Ok(y)
    }

    /// Backward pass for the input of the last forward call: records the
    /// weight gradient `gradient * input^T` and the bias gradient (the row sums
    /// of `gradient`), and returns `weights^T * gradient`. On failure the layer
    /// is left as it was.
    pub fn calculate_gradients(&mut self, gradient: Matrix<T>) -> (r: Result<Matrix<T>, LayerError>)
        requires
            old(self).wf(),
            gradient.wf(),
        ensures
            final(self).wf(),
            r matches Err(e) ==> *final(self) == *old(self),
            old(self).prev_input is None ==> r == Err::<Matrix<T>, LayerError>(LayerError::UninitializedCache),
            old(self).prev_input matches Some(x) ==> {
                let shapes_fit = gradient.rows == old(self).weights.rows && gradient.cols == x.cols;
                let wg = product(gradient@, transposed(x@));
                let bg = row_sums(gradient@);
                let ig = product(transposed(old(self).weights@), gradient@);
                &&& (r matches Err(LayerError::DimensionMismatch) <==> !shapes_fit)
                &&& (r is Ok <==> shapes_fit && wg.within(0, T::upper()) && bg.within(0, T::upper())
                    && ig.within(0, T::upper()))
                &&& r matches Ok(g) ==> {
                    &&& g.wf()
                    &&& g@ == ig
                    &&& final(self).weight_gradients@ == wg
                    &&& final(self).bias_gradients@ == bg
                    &&& final(self).weights == old(self).weights
                    &&& final(self).biases == old(self).biases
                    &&& final(self).prev_input == old(self).prev_input
                }
            },
    {
        let x = match &self.prev_input {
            None => {
                return Err(LayerError::UninitializedCache);
            },
            Some(x) => x.duplicate(),
        };
        if gradient.rows != self.weights.rows || gradient.cols != x.cols {
            return Err(LayerError::DimensionMismatch);
        }
        // The stored length bounds `gradient.cols` for the column of ones.
        let _n: usize = gradient.data.len();
        let wg = gradient.duplicate().mul(x.transpose());
        let ones = Matrix::new(gradient.cols, 1, T::one());
        let bg = gradient.duplicate().mul(ones);
        let ig = self.weights.transpose().mul(gradient);
        match (wg, bg, ig) {
            (Ok(wg), Ok(bg), Ok(ig)) => {
                self.weight_gradients = wg;
                self.bias_gradients = bg;
                Ok(ig)
            },
            _ => Err(LayerError::OutOfRange),
        }
    }

    /// Gradient step: `weights -= learning_rate * weight_gradients` and
    /// `biases -= learning_rate * bias_gradients`. Fails, leaving the layer as
    /// it was, where a step leaves the element type's range.
    pub fn adjust_parameters(&mut self, learning_rate: T) -> (r: Result<(), LayerError>)
        requires
            old(self).wf(),
        ensures
            final(self).wf(),
            ({
                let dw = scaled(old(self).weight_gradients@, learning_rate.value());
                let db = scaled(old(self).bias_gradients@, learning_rate.value());
                let w = difference(old(self).weights@, dw);
                let b = difference(old(self).biases@, db);
                &&& (r is Ok <==> dw.within(0, T::upper()) && w.within(0, T::upper()) && db.within(
                    0,
                    T::upper(),
                ) && b.within(0, T::upper()))
                &&& r matches Err(e) ==> e == LayerError::OutOfRange && *final(self) == *old(self)
                &&& r is Ok ==> {
                    &&& final(self).weights@ == w
                    &&& final(self).biases@ == b
                    &&& final(self).weight_gradients == old(self).weight_gradients
                    &&& final(self).bias_gradients == old(self).bias_gradients
                    &&& final(self).prev_input == old(self).prev_input
                }
            }),
    {
        let dw = self.weight_gradients.scale(learning_rate);
        let db = self.bias_gradients.scale(learning_rate);
        match (dw, db) {
            (Ok(dw), Ok(db)) => {
                let w = self.weights.duplicate().sub(dw);
                let b = self.biases.duplicate().sub(db);
                match (w, b) {
                    (Ok(w), Ok(b)) => {
                        self.weights = w;
                        self.biases = b;
                        Ok(())
                    },
                    _ => Err(LayerError::OutOfRange),
                }
            },
            _ => Err(LayerError::OutOfRange),
        }
    }
}

} // verus!
