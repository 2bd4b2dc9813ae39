use vstd::prelude::*;
use crate::activation::ActivationFunction;
use crate::shape::{Shape, ShapeError};

verus! {

/// What a backward pass does once its gradient has been accepted.
#[derive(Debug, Clone, Copy, PartialEq, Eq, Structural)]
pub enum BackwardStep {
    /// The cached batch had no rows: the pass hands back a zero-row gradient
    /// and leaves the parameters alone.
    EmptyBatch,
    /// Gradients are averaged over `batch_size` rows and the parameters updated.
    Update { batch_size: usize },
}

/// What a backward pass with a gradient of shape `gradient` does, given the
/// rows its last forward pass cached (if any) and the layer's output width.
pub open spec fn backward_outcome(cached: Option<usize>, output_size: usize, gradient: Shape) -> Result<BackwardStep, ShapeError> {
    match cached {
        None => Err(ShapeError::NoForwardPass),
        Some(batch) => if gradient.cols != output_size {
            Err(ShapeError::GradientWidth { expected: output_size, found: gradient.cols })
        } else if gradient.rows != batch {
            Err(ShapeError::GradientRows { expected: batch, found: gradient.rows })
        } else if batch == 0 {
            Ok(BackwardStep::EmptyBatch)
        } else {
            Ok(BackwardStep::Update { batch_size: batch })
        },
    }
}

/// The dimensions and cache state of a dense layer: its widths, its
/// activation, and whether a forward pass has cached a batch that a backward
/// pass may still use.
#[derive(Debug, Clone, Copy)]
pub struct LayerState {
    input_size: usize,
    output_size: usize,
    activation: ActivationFunction,
    cached_batch: Option<usize>,
}

impl LayerState {
    pub closed spec fn input_width(&self) -> usize {
        self.input_size
    }

    pub closed spec fn output_width(&self) -> usize {
        self.output_size
    }

    pub closed spec fn activation_kind(&self) -> ActivationFunction {
        self.activation
    }

    /// The rows of the batch that the last forward pass cached, while no
    /// backward pass has used it.
    pub closed spec fn cached_rows(&self) -> Option<usize> {
        self.cached_batch
    }

    /// A layer from `input_size` to `output_size` features with nothing cached.
    pub fn new(input_size: usize, output_size: usize, activation: ActivationFunction) -> (r: Self)
        ensures
            r.input_width() == input_size,
            r.output_width() == output_size,
            r.activation_kind() == activation,
            r.cached_rows() is None,
    {
        LayerState { input_size, output_size, activation, cached_batch: None }
    }

    pub fn input_size(&self) -> (r: usize)
        ensures
            r == self.input_width(),
    {
        self.input_size
    }

    pub fn output_size(&self) -> (r: usize)
        ensures
            r == self.output_width(),
    {
        self.output_size
    }

    pub fn activation(&self) -> (r: ActivationFunction)
        ensures
            r == self.activation_kind(),
    {
        self.activation
    }

    pub fn cached_batch(&self) -> (r: Option<usize>)
        ensures
            r == self.cached_rows(),
    {
        self.cached_batch
    }

    /// Checks an input batch and caches its row count: the output has one
    /// row per input row and the layer's output width.
    pub fn forward(&mut self, input: Shape) -> (r: Result<Shape, ShapeError>)
        ensures
            final(self).input_width() == old(self).input_width(),
            final(self).output_width() == old(self).output_width(),
            final(self).activation_kind() == old(self).activation_kind(),
            input.cols == old(self).input_width() ==> {
                &&& r == Ok::<Shape, ShapeError>(
                    Shape { rows: input.rows, cols: old(self).output_width() },
                )
                &&& final(self).cached_rows() == Some(input.rows)
            },
            input.cols != old(self).input_width() ==> {
                &&& r == Err::<Shape, ShapeError>(
                    ShapeError::InputWidth { expected: old(self).input_width(), found: input.cols },
                )
                &&& final(self).cached_rows() == old(self).cached_rows()
            },
    {
        if input.cols != self.input_size {
            return Err(ShapeError::InputWidth { expected: self.input_size, found: input.cols });
        }
        self.cached_batch = Some(input.rows);
        Ok(Shape { rows: input.rows, cols: self.output_size })
    }

    /// Checks a gradient against the cached batch and uses the cache up.
    /// An accepted gradient of `g.rows` rows propagates back as `g.rows` rows
    /// of the layer's input width.
    pub fn backward(&mut self, gradient: Shape) -> (r: Result<BackwardStep, ShapeError>)
        ensures
            final(self).input_width() == old(self).input_width(),
            final(self).output_width() == old(self).output_width(),
            final(self).activation_kind() == old(self).activation_kind(),
            r == backward_outcome(old(self).cached_rows(), old(self).output_width(), gradient),
            r is Ok ==> final(self).cached_rows() is None,
            r is Err ==> final(self).cached_rows() == old(self).cached_rows(),
    {
        let batch = match self.cached_batch {
            None => {
                return Err(ShapeError::NoForwardPass);
            },
            Some(b) => b,
        };
        if gradient.cols != self.output_size {
            return Err(
                ShapeError::GradientWidth { expected: self.output_size, found: gradient.cols },
            );
        }
        if gradient.rows != batch {
            return Err(ShapeError::GradientRows { expected: batch, found: gradient.rows });
        }
        self.cached_batch = None;
        if batch == 0 {
            Ok(BackwardStep::EmptyBatch)
        } else {
            Ok(BackwardStep::Update { batch_size: batch })
        }
    }
}

} // verus!
