use genius_hour::activation::{softmax_scope, ActivationFunction, SoftmaxScope};
use genius_hour::layer::{BackwardStep, LayerState};
use genius_hour::loss::LossFunction;
use genius_hour::network::{batch_ranges, count_correct, initial_gradient, GradientStart};
use genius_hour::shape::{check_input_length, Shape, ShapeError};

fn shape(rows: usize, cols: usize) -> Shape {
    Shape { rows, cols }
}

#[test]
fn forward_keeps_rows_and_gives_output_width() {
    let mut l = LayerState::new(2, 4, ActivationFunction::ReLU);
    assert_eq!(l.cached_batch(), None);
    assert_eq!(l.forward(shape(5, 2)), Ok(shape(5, 4)));
    assert_eq!(l.cached_batch(), Some(5));
    assert_eq!((l.input_size(), l.output_size()), (2, 4));
    assert_eq!(l.activation(), ActivationFunction::ReLU);
}

#[test]
fn forward_rejects_wrong_input_width() {
    let mut l = LayerState::new(3, 1, ActivationFunction::Linear);
    assert_eq!(l.forward(shape(2, 4)), Err(ShapeError::InputWidth { expected: 3, found: 4 }));
    assert_eq!(l.cached_batch(), None);
}

#[test]
fn backward_after_empty_forward_is_a_no_op() {
    let mut l = LayerState::new(3, 2, ActivationFunction::Sigmoid);
    assert_eq!(l.forward(shape(0, 3)), Ok(shape(0, 2)));
    assert_eq!(l.backward(shape(0, 2)), Ok(BackwardStep::EmptyBatch));
    assert_eq!(l.cached_batch(), None);
}

#[test]
fn backward_averages_over_the_cached_batch() {
    let mut l = LayerState::new(3, 2, ActivationFunction::Sigmoid);
    l.forward(shape(4, 3)).unwrap();
    assert_eq!(l.backward(shape(4, 2)), Ok(BackwardStep::Update { batch_size: 4 }));
}

#[test]
fn backward_checks_width_then_rows() {
    let mut l = LayerState::new(3, 2, ActivationFunction::Linear);
    l.forward(shape(4, 3)).unwrap();
    assert_eq!(l.backward(shape(5, 3)), Err(ShapeError::GradientWidth { expected: 2, found: 3 }));
    assert_eq!(l.backward(shape(5, 2)), Err(ShapeError::GradientRows { expected: 4, found: 5 }));
    assert_eq!(l.cached_batch(), Some(4));
}

#[test]
fn backward_needs_a_matching_forward() {
    let mut l = LayerState::new(3, 2, ActivationFunction::Linear);
    assert_eq!(l.backward(shape(0, 2)), Err(ShapeError::NoForwardPass));
    l.forward(shape(1, 3)).unwrap();
    l.backward(shape(1, 2)).unwrap();
    assert_eq!(l.backward(shape(1, 2)), Err(ShapeError::NoForwardPass));
}

#[test]
fn softmax_with_cross_entropy_takes_the_fused_gradient() {
    let s = ActivationFunction::Softmax;
    assert_eq!(initial_gradient(s, LossFunction::CrossEntropy, 8), GradientStart::Fused);
    assert_eq!(initial_gradient(s, LossFunction::CrossEntropy, 0), GradientStart::EmptyBatch);
    assert_eq!(initial_gradient(s, LossFunction::MeanSquaredError, 8), GradientStart::Chained);
    assert_eq!(
        initial_gradient(ActivationFunction::Sigmoid, LossFunction::CrossEntropy, 8),
        GradientStart::Chained
    );
    assert_eq!(
        initial_gradient(ActivationFunction::ReLU, LossFunction::MeanSquaredError, 0),
        GradientStart::Chained
    );
}

#[test]
fn losses_need_matching_shapes() {
    let l = LossFunction::MeanSquaredError;
    assert_eq!(l.check_shapes(shape(4, 1), shape(4, 1)), Ok(()));
    assert_eq!(
        LossFunction::CrossEntropy.check_shapes(shape(4, 10), shape(4, 1)),
        Err(ShapeError::TargetShape { predictions: shape(4, 10), targets: shape(4, 1) })
    );
}

#[test]
fn serving_input_length_must_match() {
    assert_eq!(check_input_length(784, 784), Ok(()));
    assert_eq!(check_input_length(784, 783), Err(ShapeError::InputLength { expected: 784, found: 783 }));
}

#[test]
fn accuracy_counts_matching_classes() {
    assert_eq!(count_correct(&[3, 1, 4, 1, 5], &[3, 2, 4, 1, 9]), 3);
    assert_eq!(count_correct(&[], &[]), 0);
}

#[test]
fn activation_tags_and_init_scale() {
    let all = [
        ActivationFunction::Linear,
        ActivationFunction::Sigmoid,
        ActivationFunction::ReLU,
        ActivationFunction::Softmax,
    ];
    for (i, a) in all.iter().enumerate() {
        assert_eq!(a.tag(), i as u32);
        assert_eq!(ActivationFunction::from_tag(i as u32), Some(*a));
    }
    assert_eq!(ActivationFunction::from_tag(4), None);
    assert_eq!(ActivationFunction::ReLU.init_variance_numerator(), 2);
    assert_eq!(ActivationFunction::Softmax.init_variance_numerator(), 1);
}

#[test]
fn softmax_scope_is_global_for_a_single_row_or_column() {
    assert_eq!(softmax_scope(shape(1, 10)), SoftmaxScope::Whole);
    assert_eq!(softmax_scope(shape(10, 1)), SoftmaxScope::Whole);
    assert_eq!(softmax_scope(shape(4, 10)), SoftmaxScope::PerRow);
    assert_eq!(softmax_scope(shape(0, 10)), SoftmaxScope::PerRow);
}

#[test]
fn batches_cover_the_samples_in_order() {
    assert_eq!(batch_ranges(10, 4), vec![(0, 4), (4, 8), (8, 10)]);
    assert_eq!(batch_ranges(8, 4), vec![(0, 4), (4, 8)]);
    assert_eq!(batch_ranges(3, 64), vec![(0, 3)]);
    assert_eq!(batch_ranges(0, 64), vec![]);
}
