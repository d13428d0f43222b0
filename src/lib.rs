//! Dense matrices over checked unsigned elements, with the algebraic laws of
//! their operations proved, plus the shape and cache rules of a small
//! differentiable-layer engine and the decoding of its token stream.

pub mod model;
pub mod numeric;
pub mod matrix;
pub mod shape;
pub mod dense;
pub mod gradient;
pub mod tokens;
