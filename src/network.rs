use vstd::prelude::*;
use crate::activation::ActivationFunction;
use crate::loss::LossFunction;

verus! {

/// How the backward pass of a training step starts at the last layer.
#[derive(Debug, Clone, Copy, PartialEq, Eq, Structural)]
pub enum GradientStart {
    /// Softmax output under cross-entropy with an empty batch: the step ends
    /// after the loss, with no update.
    EmptyBatch,
    /// Softmax output under cross-entropy: the gradient at the last
    /// pre-activation is `(predictions - targets) / batch_size`, the loss and
    /// activation derivatives cancelling.
    Fused,
    /// The loss derivative times the last activation's derivative, elementwise.
    Chained,
}

/// The first gradient of a training step for a last layer with activation
/// `last`, under `loss`, on a batch of `batch_size` rows.
pub fn initial_gradient(last: ActivationFunction, loss: LossFunction, batch_size: usize) -> (r: GradientStart)
    ensures
        r == (if last is Softmax && loss is CrossEntropy {
            if batch_size == 0 {
                GradientStart::EmptyBatch
            } else {
                GradientStart::Fused
            }
        } else {
            GradientStart::Chained
        }),
{
    match (last, loss) {
        (ActivationFunction::Softmax, LossFunction::CrossEntropy) => {
            if batch_size == 0 {
                GradientStart::EmptyBatch
            } else {
                GradientStart::Fused
            }
        },
        _ => GradientStart::Chained,
    }
}

/// How many of the first `n` predicted classes equal their labels.
pub open spec fn correct_count(predicted: Seq<usize>, labels: Seq<u8>, n: nat) -> nat
    decreases n,
{
    if n == 0 {
        0
    } else {
        correct_count(predicted, labels, (n - 1) as nat) + if predicted[n - 1] == labels[n - 1] as usize {
            1nat
        } else {
            0nat
        }
    }
}

proof fn lemma_correct_count_bound(predicted: Seq<usize>, labels: Seq<u8>, n: nat)
    ensures
        correct_count(predicted, labels, n) <= n,
    decreases n,
{
    if n > 0 {
        lemma_correct_count_bound(predicted, labels, (n - 1) as nat);
    }
}

/// The number of samples whose predicted class equals their label.
pub fn count_correct(predicted: &[usize], labels: &[u8]) -> (r: usize)
    requires
        predicted@.len() == labels@.len(),
    ensures
        r == correct_count(predicted@, labels@, predicted@.len()),
{
    let mut count: usize = 0;
    let mut i: usize = 0;
    while i < predicted.len()
        invariant
            i <= predicted@.len() == labels@.len(),
            count == correct_count(predicted@, labels@, i as nat),
        decreases predicted@.len() - i,
    {
        proof {
            lemma_correct_count_bound(predicted@, labels@, i as nat);
        }
        if predicted[i] == labels[i] as usize {
            count = count + 1;
        }
        i = i + 1;
    }
    count
}

/// The `k`-th batch of `batch_size` samples out of `num_samples`: from
/// `k * batch_size` up to the next multiple or the end, whichever is first.
pub open spec fn batch_range(num_samples: nat, batch_size: nat, k: int) -> (int, int) {
    let start = k * batch_size;
    (start, if start + batch_size <= num_samples { start + batch_size } else { num_samples as int })
}

/// Splits `num_samples` positions into consecutive batches of `batch_size`,
/// the last one shorter where they do not divide evenly.
pub fn batch_ranges(num_samples: usize, batch_size: usize) -> (r: Vec<(usize, usize)>)
    requires
        batch_size > 0,
    ensures
        forall|k: int|
            0 <= k < r@.len() ==> (#[trigger] r@[k]).0 == batch_range(
                num_samples as nat,
                batch_size as nat,
                k,
            ).0 && r@[k].1 == batch_range(num_samples as nat, batch_size as nat, k).1,
        r@.len() * batch_size >= num_samples,
        r@.len() > 0 ==> (r@.len() - 1) * batch_size < num_samples,
{
    let mut ranges: Vec<(usize, usize)> = Vec::new();
    let mut start: usize = 0;
    while start < num_samples
        invariant
            batch_size > 0,
            start <= num_samples,
            forall|k: int|
                0 <= k < ranges@.len() ==> (#[trigger] ranges@[k]).0 == batch_range(
                    num_samples as nat,
                    batch_size as nat,
                    k,
                ).0 && ranges@[k].1 == batch_range(num_samples as nat, batch_size as nat, k).1,
            start < num_samples ==> start == ranges@.len() * batch_size,
            start == num_samples ==> ranges@.len() * batch_size >= num_samples,
            ranges@.len() > 0 ==> (ranges@.len() - 1) * batch_size < num_samples,
        decreases num_samples - start,
    {
        let end = if num_samples - start > batch_size {
            start + batch_size
        } else {
            num_samples
        };
        let ghost k = ranges@.len() as int;
        ranges.push((start, end));
        proof {
            assert((k + 1) * batch_size == k * batch_size + batch_size) by (nonlinear_arith);
        }
        start = end;
    }
    ranges
}

} // verus!
