use vstd::prelude::*;

verus! {

/// The dimensions of a matrix: rows are batch samples, columns features.
#[derive(Debug, Clone, Copy, PartialEq, Eq, Structural)]
pub struct Shape {
    pub rows: usize,
    pub cols: usize,
}

/// A dimension that does not match what a layer, a loss or a caller expects.
#[derive(Debug, Clone, Copy, PartialEq, Eq, Structural)]
pub enum ShapeError {
    /// The input to a layer's forward pass is not as wide as the layer's input.
    InputWidth { expected: usize, found: usize },
    /// The gradient handed to a layer's backward pass is not as wide as the
    /// layer's output.
    GradientWidth { expected: usize, found: usize },
    /// The gradient handed to a layer's backward pass is not for the batch
    /// that its last forward pass saw.
    GradientRows { expected: usize, found: usize },
    /// A layer's backward pass was asked for with no forward pass to match.
    NoForwardPass,
    /// Predictions and targets handed to a loss differ in shape.
    TargetShape { predictions: Shape, targets: Shape },
    /// A flat input buffer is not as long as the model's input.
    InputLength { expected: usize, found: usize },
}

/// Accepts a flat input buffer only where its length is the expected one.
pub fn check_input_length(expected: usize, found: usize) -> (r: Result<(), ShapeError>)
    ensures
        r == (if found == expected {
            Ok::<(), ShapeError>(())
        } else {
            Err(ShapeError::InputLength { expected, found })
        }),
{
    if found == expected {
        Ok(())
    } else {
        Err(ShapeError::InputLength { expected, found })
    }
}

} // verus!
