use ffnet::error::NetError;
use ffnet::layers::{Activation, ReLuLayer, INIT_RANGE};

#[test]
fn test_relu_layer() {
    let layer = ReLuLayer::new(3, 2);
    let output = layer.forward(&vec![1, 0]).unwrap();
    assert_eq!(output.len(), 3);
}

#[test]
fn size_test() {
    let layer = ReLuLayer::new(3, 2);
    assert_eq!(layer.input_size(), 2);
    assert_eq!(layer.output_size(), 3);
}

#[test]
fn test_layer_from_weights_and_biases() {
    let weights = vec![vec![1, 0], vec![0, 1]];
    let biases = vec![1, 0];

    let layer = ReLuLayer::from_weights_and_biases(weights.clone(), biases.clone()).unwrap();

    assert_eq!(layer.get_weights(), &weights);
    assert_eq!(layer.get_biases(), &biases);
}

#[test]
fn fresh_parameters_lie_in_default_range() {
    let layer = ReLuLayer::new(4, 5);
    assert_eq!(layer.get_weights().len(), 4);
    for row in layer.get_weights() {
        assert_eq!(row.len(), 5);
        for w in row {
            assert!(-INIT_RANGE <= *w && *w <= INIT_RANGE);
        }
    }
    assert_eq!(layer.get_biases().len(), 4);
    for b in layer.get_biases() {
        assert!(-INIT_RANGE <= *b && *b <= INIT_RANGE);
    }
    assert_eq!(layer.activation(), Activation::Relu);
}

#[test]
fn zero_range_gives_zero_parameters() {
    let layer = ReLuLayer::with_range(2, 3, 0);
    assert_eq!(layer.get_weights(), &vec![vec![0, 0, 0], vec![0, 0, 0]]);
    assert_eq!(layer.get_biases(), &vec![0, 0]);
}

#[test]
fn wide_range_parameters_stay_in_range() {
    let layer = ReLuLayer::with_range(30, 30, 1000);
    for row in layer.get_weights() {
        for w in row {
            assert!(-1000 <= *w && *w <= 1000);
        }
    }
    for b in layer.get_biases() {
        assert!(-1000 <= *b && *b <= 1000);
    }
}

#[test]
fn layer_forward_exact_values() {
    let layer = ReLuLayer::from_weights_and_biases(vec![vec![2, -1], vec![-3, 4], vec![1, 1]], vec![1, 0, -10]).unwrap();
    assert_eq!(layer.forward(&vec![3, 5]), Ok(vec![2, 11, 0]));
}

#[test]
fn identity_activation_keeps_negative_values() {
    let layer = ReLuLayer::from_weights_and_biases(vec![vec![1, 0], vec![0, 1]], vec![1, 0])
        .unwrap()
        .with_activation(Activation::Identity);
    assert_eq!(layer.activation(), Activation::Identity);
    assert_eq!(layer.forward(&vec![-5, 3]), Ok(vec![-4, 3]));
}

#[test]
fn layer_forward_rejects_wrong_length() {
    let layer = ReLuLayer::new(3, 2);
    assert_eq!(layer.forward(&vec![1, 2, 3]), Err(NetError::DimensionMismatch { expected: 2, actual: 3 }));
}

#[test]
fn layer_forward_reports_overflow() {
    let layer = ReLuLayer::from_weights_and_biases(vec![vec![i64::MAX, 1]], vec![0]).unwrap();
    assert_eq!(layer.forward(&vec![2, 0]), Err(NetError::Overflow));
    let layer = ReLuLayer::from_weights_and_biases(vec![vec![i64::MAX, 1]], vec![0]).unwrap();
    assert_eq!(layer.forward(&vec![1, 1]), Err(NetError::Overflow));
    assert_eq!(layer.forward(&vec![1, -1]), Ok(vec![i64::MAX - 1]));
}

#[test]
fn layer_from_mismatched_biases() {
    let r = ReLuLayer::from_weights_and_biases(vec![vec![1, 0], vec![0, 1]], vec![1]);
    assert_eq!(r.unwrap_err(), NetError::ShapeMismatch { expected: 2, actual: 1 });
}

#[test]
fn layer_from_ragged_rows() {
    let r = ReLuLayer::from_weights_and_biases(vec![vec![1, 0], vec![0, 1, 2], vec![1]], vec![1, 2, 3]);
    assert_eq!(r.unwrap_err(), NetError::ShapeMismatch { expected: 2, actual: 3 });
}

#[test]
fn layer_from_empty_parameters() {
    assert_eq!(ReLuLayer::from_weights_and_biases(vec![], vec![]).unwrap_err(), NetError::InvalidSpec);
    assert_eq!(ReLuLayer::from_weights_and_biases(vec![vec![]], vec![0]).unwrap_err(), NetError::InvalidSpec);
}

#[test]
fn layers_compare_structurally() {
    let a = ReLuLayer::from_weights_and_biases(vec![vec![1, 2]], vec![3]).unwrap();
    let b = ReLuLayer::from_weights_and_biases(vec![vec![1, 2]], vec![3]).unwrap();
    let c = ReLuLayer::from_weights_and_biases(vec![vec![1, 2]], vec![4]).unwrap();
    assert!(a == b);
    assert!(a != c);
    assert!(a != a.clone().with_activation(Activation::Identity));
}
