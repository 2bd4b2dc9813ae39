use genius_hour::activation::ActivationFunction;
use genius_hour::serialization::{SerializableDenseLayer, SerializableNeuralNetwork, WeightsError};

fn bits(v: &[f32]) -> Vec<u32> {
    v.iter().map(|x| x.to_bits()).collect()
}

fn layer(rows: u64, cols: u64, act: ActivationFunction, seed: f32) -> SerializableDenseLayer {
    let n = (rows * cols) as usize;
    let weights: Vec<f32> = (0..n).map(|i| seed + i as f32 * 0.25 - 1.0).collect();
    let biases: Vec<f32> = (0..cols as usize).map(|j| -seed * j as f32).collect();
    SerializableDenseLayer {
        weights_data: bits(&weights),
        weights_rows: rows,
        weights_cols: cols,
        biases_data: bits(&biases),
        activation_fn: act,
    }
}

fn every_kind() -> SerializableNeuralNetwork {
    SerializableNeuralNetwork {
        layers: vec![
            layer(3, 4, ActivationFunction::ReLU, 0.5),
            layer(4, 4, ActivationFunction::Linear, 1.5),
            layer(4, 2, ActivationFunction::Sigmoid, -2.0),
            layer(2, 3, ActivationFunction::Softmax, 3.25),
        ],
    }
}

fn same(a: &SerializableNeuralNetwork, b: &SerializableNeuralNetwork) -> bool {
    a.layers.len() == b.layers.len()
        && a.layers.iter().zip(b.layers.iter()).all(|(x, y)| {
            x.weights_data == y.weights_data
                && x.weights_rows == y.weights_rows
                && x.weights_cols == y.weights_cols
                && x.biases_data == y.biases_data
                && x.activation_fn == y.activation_fn
        })
}

#[test]
fn round_trip_keeps_every_layer_and_activation() {
    let net = every_kind();
    let bytes = net.to_bytes();
    let back = SerializableNeuralNetwork::from_bytes(&bytes).unwrap();
    assert!(same(&net, &back));
    assert_eq!(back.to_bytes(), bytes);
    let w: Vec<f32> = back.layers[2].weights_data.iter().map(|b| f32::from_bits(*b)).collect();
    assert_eq!(w[0], -3.0);
    assert_eq!(w[7], -1.25);
}

#[test]
fn round_trip_keeps_special_float_patterns() {
    let specials = [f32::NAN, f32::INFINITY, -0.0f32, f32::MIN_POSITIVE, f32::EPSILON];
    let net = SerializableNeuralNetwork {
        layers: vec![SerializableDenseLayer {
            weights_data: bits(&specials),
            weights_rows: 5,
            weights_cols: 1,
            biases_data: bits(&[1.0]),
            activation_fn: ActivationFunction::Linear,
        }],
    };
    let back = SerializableNeuralNetwork::from_bytes(&net.to_bytes()).unwrap();
    assert_eq!(back.layers[0].weights_data, bits(&specials));
}

#[test]
fn layout_is_little_endian_and_field_ordered() {
    let net = SerializableNeuralNetwork {
        layers: vec![SerializableDenseLayer {
            weights_data: vec![0x0403_0201, 0x0807_0605],
            weights_rows: 1,
            weights_cols: 2,
            biases_data: vec![0xAABB_CCDD, 0x0000_0001],
            activation_fn: ActivationFunction::ReLU,
        }],
    };
    let mut expected: Vec<u8> = Vec::new();
    expected.extend_from_slice(&[1, 0, 0, 0, 0, 0, 0, 0]); // one layer
    expected.extend_from_slice(&[2, 0, 0, 0, 0, 0, 0, 0]); // two weights
    expected.extend_from_slice(&[1, 2, 3, 4, 5, 6, 7, 8]);
    expected.extend_from_slice(&[1, 0, 0, 0, 0, 0, 0, 0]); // rows
    expected.extend_from_slice(&[2, 0, 0, 0, 0, 0, 0, 0]); // cols
    expected.extend_from_slice(&[2, 0, 0, 0, 0, 0, 0, 0]); // two biases
    expected.extend_from_slice(&[0xDD, 0xCC, 0xBB, 0xAA, 1, 0, 0, 0]);
    expected.extend_from_slice(&[2, 0, 0, 0]); // ReLU
    assert_eq!(net.to_bytes(), expected);
}

#[test]
fn empty_network_is_a_zero_count() {
    let net = SerializableNeuralNetwork { layers: vec![] };
    assert_eq!(net.to_bytes(), vec![0u8; 8]);
    assert_eq!(SerializableNeuralNetwork::from_bytes(&[0u8; 8]).unwrap().layers.len(), 0);
}

#[test]
fn truncated_buffers_are_rejected() {
    let bytes = every_kind().to_bytes();
    assert_eq!(SerializableNeuralNetwork::from_bytes(&bytes[..5]).unwrap_err(), WeightsError::Truncated);
    for cut in [8, 20, 60, bytes.len() - 1] {
        assert_eq!(
            SerializableNeuralNetwork::from_bytes(&bytes[..cut]).unwrap_err(),
            WeightsError::Truncated
        );
    }
}

#[test]
fn huge_declared_counts_are_truncation() {
    let mut bytes = vec![1, 0, 0, 0, 0, 0, 0, 0];
    bytes.extend_from_slice(&u64::MAX.to_le_bytes());
    assert_eq!(SerializableNeuralNetwork::from_bytes(&bytes).unwrap_err(), WeightsError::Truncated);
}

#[test]
fn unknown_activation_tag_is_rejected() {
    let mut bytes = SerializableNeuralNetwork { layers: vec![layer(1, 1, ActivationFunction::Sigmoid, 1.0)] }
        .to_bytes();
    let n = bytes.len();
    bytes[n - 4] = 7;
    assert_eq!(
        SerializableNeuralNetwork::from_bytes(&bytes).unwrap_err(),
        WeightsError::UnknownActivation { tag: 7 }
    );
}

#[test]
fn inconsistent_shapes_are_rejected() {
    let mut bad = layer(2, 2, ActivationFunction::Linear, 1.0);
    bad.weights_rows = 3;
    let bytes = SerializableNeuralNetwork { layers: vec![bad] }.to_bytes();
    assert_eq!(SerializableNeuralNetwork::from_bytes(&bytes).unwrap_err(), WeightsError::ShapeMismatch);
    let mut bad = layer(2, 2, ActivationFunction::Linear, 1.0);
    bad.biases_data.pop();
    let bytes = SerializableNeuralNetwork { layers: vec![bad] }.to_bytes();
    assert_eq!(SerializableNeuralNetwork::from_bytes(&bytes).unwrap_err(), WeightsError::ShapeMismatch);
}

#[test]
fn trailing_bytes_are_rejected() {
    let mut bytes = every_kind().to_bytes();
    bytes.push(0);
    assert_eq!(SerializableNeuralNetwork::from_bytes(&bytes).unwrap_err(), WeightsError::TrailingBytes);
}
