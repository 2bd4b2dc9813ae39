//! A small feedforward neural-network toolkit.
//!
//! This library holds the parts of the engine that are integer and byte
//! logic: the activation and loss selectors, the shape and cache-state rules
//! of a dense layer, the choice of the first backward gradient, the IDX image
//! and label decoder, batch partition and mini-batch assembly, accuracy
//! counting, and the weight-file codec with its round-trip laws. The
//! floating-point kernels run over these values from outside.
use vstd::prelude::*;

pub mod activation;
pub mod layer;
pub mod loss;
pub mod matrix;
pub mod mnist;
pub mod network;
pub mod serialization;
pub mod shape;

verus! {

} // verus!
