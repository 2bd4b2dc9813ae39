use vstd::prelude::*;
use crate::shape::{Shape, ShapeError};

verus! {

/// The closed set of loss functions a network can be trained against.
#[derive(Debug, Clone, Copy, PartialEq, Eq, Structural)]
pub enum LossFunction {
    /// Half the summed squared error, over the batch size.
    MeanSquaredError,
    /// Cross-entropy of probability predictions, clipped away from 0 and 1.
    CrossEntropy,
}

impl LossFunction {
    /// Both losses and their derivatives take predictions and targets of one shape.
    pub fn check_shapes(&self, predictions: Shape, targets: Shape) -> (r: Result<(), ShapeError>)
        ensures
            r == (if predictions == targets {
                Ok::<(), ShapeError>(())
            } else {
                Err(ShapeError::TargetShape { predictions, targets })
            }),
    {
        if predictions.rows == targets.rows && predictions.cols == targets.cols {
            Ok(())
        } else {
            Err(ShapeError::TargetShape { predictions, targets })
        }
    }
}

} // verus!
