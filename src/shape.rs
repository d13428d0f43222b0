use vstd::prelude::*;

verus! {

/// Rows and columns of a matrix that flows through a layer.
#[derive(Debug, Clone, Copy, PartialEq, Eq, Structural)]
pub struct Shape {
    pub rows: usize,
    pub cols: usize,
}

/// Why a layer refused a forward or backward call.
#[derive(Debug, Clone, Copy, PartialEq, Eq, Structural)]
pub enum LayerError {
    /// The matrix handed in does not have the shape the layer needs.
    DimensionMismatch,
    /// `backward` was called before any `forward`.
    UninitializedCache,
    /// Some entry of the exact result does not fit in the element type.
    OutOfRange,
}

/// Shape of `weights * input + biases`, with the bias column repeated over
/// the input's columns.
pub fn dense_forward(weights: Shape, biases: Shape, input: Shape) -> (r: Result<Shape, LayerError>)
    ensures
        r == (if input.rows == weights.cols && biases.rows == weights.rows && biases.cols == 1 {
            Ok(Shape { rows: weights.rows, cols: input.cols })
        } else {
            Err(LayerError::DimensionMismatch)
        }),
{
    if input.rows == weights.cols && biases.rows == weights.rows && biases.cols == 1 {
        Ok(Shape { rows: weights.rows, cols: input.cols })
    } else {
        Err(LayerError::DimensionMismatch)
    }
}

/// Shape of the input gradient `weights^T * gradient` of a dense layer whose
/// last forward call saw an input of shape `cached_input`. The incoming
/// gradient must have the shape of that call's output.
pub fn dense_backward(weights: Shape, cached_input: Option<Shape>, gradient: Shape) -> (r: Result<
    Shape,
    LayerError,
>)
    ensures
        r == (match cached_input {
            None => Err(LayerError::UninitializedCache),
            Some(x) => if gradient.rows == weights.rows && gradient.cols == x.cols {
                Ok(Shape { rows: weights.cols, cols: x.cols })
            } else {
                Err(LayerError::DimensionMismatch)
            },
        }),
{
    match cached_input {
        None => Err(LayerError::UninitializedCache),
        Some(x) => {
            if gradient.rows == weights.rows && gradient.cols == x.cols {
                Ok(Shape { rows: weights.cols, cols: x.cols })
            } else {
                Err(LayerError::DimensionMismatch)
            }
        },
    }
}

/// Shape of the input gradient of a layer that works entry by entry or column
/// by column (the activation, the normalisation): the incoming gradient must
/// have the shape of the last forward input.
pub fn same_shape_backward(cached_input: Option<Shape>, gradient: Shape) -> (r: Result<
    Shape,
    LayerError,
>)
    ensures
        r == (match cached_input {
            None => Err(LayerError::UninitializedCache),
            Some(x) => if gradient == x {
                Ok(x)
            } else {
                Err(LayerError::DimensionMismatch)
            },
        }),
{
    match cached_input {
        None => Err(LayerError::UninitializedCache),
        Some(x) => {
            if gradient.rows == x.rows && gradient.cols == x.cols {
                Ok(x)
            } else {
                Err(LayerError::DimensionMismatch)
            }
        },
    }
}

/// Shape of the feed-forward block's output: inner dense layer, activation,
/// outer dense layer, each checked in turn.
pub fn ffn_forward(
    inner_weights: Shape,
    inner_biases: Shape,
    outer_weights: Shape,
    outer_biases: Shape,
    input: Shape,
) -> (r: Result<Shape, LayerError>)
    ensures
        r == (if input.rows == inner_weights.cols && inner_biases.rows == inner_weights.rows
            && inner_biases.cols == 1 && outer_weights.cols == inner_weights.rows && outer_biases.rows
            == outer_weights.rows && outer_biases.cols == 1 {
            Ok(Shape { rows: outer_weights.rows, cols: input.cols })
        } else {
            Err(LayerError::DimensionMismatch)
        }),
{
    match dense_forward(inner_weights, inner_biases, input) {
        Ok(hidden) => dense_forward(outer_weights, outer_biases, hidden),
        Err(e) => Err(e),
    }
}

} // verus!
