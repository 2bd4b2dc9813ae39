use vstd::prelude::*;
use crate::shape::Shape;

verus! {

/// The closed set of activation functions a dense layer can apply.
#[derive(Debug, Clone, Copy, PartialEq, Eq, Structural)]
pub enum ActivationFunction {
    Linear,
    Sigmoid,
    ReLU,
    Softmax,
}

impl ActivationFunction {
    /// The tag that stands for this activation in a weight file.
    pub open spec fn tag_spec(self) -> u32 {
        match self {
            ActivationFunction::Linear => 0,
            ActivationFunction::Sigmoid => 1,
            ActivationFunction::ReLU => 2,
            ActivationFunction::Softmax => 3,
        }
    }

    /// The activation that a weight-file tag stands for, if any.
    pub open spec fn from_tag_spec(tag: u32) -> Option<ActivationFunction> {
        if tag == 0 {
            Some(ActivationFunction::Linear)
        } else if tag == 1 {
            Some(ActivationFunction::Sigmoid)
        } else if tag == 2 {
            Some(ActivationFunction::ReLU)
        } else if tag == 3 {
            Some(ActivationFunction::Softmax)
        } else {
            None
        }
    }

    pub fn tag(&self) -> (r: u32)
        ensures
            r == self.tag_spec(),
    {
        match self {
            ActivationFunction::Linear => 0,
            ActivationFunction::Sigmoid => 1,
            ActivationFunction::ReLU => 2,
            ActivationFunction::Softmax => 3,
        }
    }

    pub fn from_tag(tag: u32) -> (r: Option<ActivationFunction>)
        ensures
            r == Self::from_tag_spec(tag),
    {
        if tag == 0 {
            Some(ActivationFunction::Linear)
        } else if tag == 1 {
            Some(ActivationFunction::Sigmoid)
        } else if tag == 2 {
            Some(ActivationFunction::ReLU)
        } else if tag == 3 {
            Some(ActivationFunction::Softmax)
        } else {
            None
        }
    }

    /// The numerator `k` of the initial weight variance `k / input_size`:
    /// He scaling (2) for ReLU layers, 1 for the others.
    pub fn init_variance_numerator(&self) -> (r: u32)
        ensures
            r == (if *self is ReLU { 2u32 } else { 1u32 }),
    {
        match self {
            ActivationFunction::ReLU => 2,
            _ => 1,
        }
    }
}

/// Over which entries a softmax normalizes.
#[derive(Debug, Clone, Copy, PartialEq, Eq, Structural)]
pub enum SoftmaxScope {
    /// A single row or a single column is one distribution.
    Whole,
    /// Each row is a distribution of its own.
    PerRow,
}

/// The scope of a softmax over a matrix of shape `z`: the whole matrix when
/// it has one row or one column, else each row.
pub fn softmax_scope(z: Shape) -> (r: SoftmaxScope)
    ensures
        r == (if z.rows == 1 || z.cols == 1 {
            SoftmaxScope::Whole
        } else {
            SoftmaxScope::PerRow
        }),
{
    if z.rows == 1 || z.cols == 1 {
        SoftmaxScope::Whole
    } else {
        SoftmaxScope::PerRow
    }
}

/// Every activation survives the trip through its weight-file tag, and only
/// the four tags in use name an activation.
pub proof fn lemma_tag_round_trip(a: ActivationFunction, tag: u32)
    ensures
        ActivationFunction::from_tag_spec(a.tag_spec()) == Some(a),
        ActivationFunction::from_tag_spec(tag) is Some <==> tag < 4,
        ActivationFunction::from_tag_spec(tag) matches Some(b) ==> b.tag_spec() == tag,
{
}

} // verus!
