use ffnet::error::NetError;
use ffnet::layers::ReLuLayer;
use ffnet::network::FeedForwardNetwork;

#[test]
fn test_network_predict() {
    let l1 = ReLuLayer::new(3, 2);
    let l2 = ReLuLayer::new(1, 3);

    let network = FeedForwardNetwork::new(&[l1, l2]).unwrap();

    let input = vec![0, 1];
    let output = network.predict(&input).unwrap();
    assert_eq!(output.len(), 1);
}

#[test]
fn test_network_is_cloneable() {
    let l1 = ReLuLayer::new(3, 2);
    let l2 = ReLuLayer::new(1, 3);

    let network = FeedForwardNetwork::new(&[l1, l2]).unwrap();
    let network2 = network.clone();

    let input = vec![0, 1];
    assert_eq!(network.predict(&input), network2.predict(&input));
}

#[test]
fn prediction_has_last_dimension() {
    let network = FeedForwardNetwork::build_from_dims(&vec![4, 5, 3, 2]).unwrap();
    assert_eq!(network.input_size(), 4);
    assert_eq!(network.output_size(), 2);
    assert_eq!(network.predict(&vec![1, -2, 3, 0]).unwrap().len(), 2);
}

#[test]
fn dims_give_one_layer_per_later_entry() {
    let network = FeedForwardNetwork::build_from_dims(&vec![2, 3, 1]).unwrap();
    assert_eq!(network.layers().len(), 2);
    let single = FeedForwardNetwork::build_from_dims(&vec![7]).unwrap();
    assert_eq!(single.layers().len(), 0);
    assert_eq!(single.predict(&vec![1, 2, 3, 4, 5, 6, 7]), Ok(vec![1, 2, 3, 4, 5, 6, 7]));
}

#[test]
fn layer_shapes_follow_dims() {
    let dims = vec![3, 4, 2, 5];
    let network = FeedForwardNetwork::build_from_dims(&dims).unwrap();
    let weights = network.get_weights();
    let biases = network.get_biases();
    assert_eq!(weights.len(), 3);
    for i in 0..3 {
        assert_eq!(weights[i].len(), dims[i + 1]);
        assert_eq!(biases[i].len(), dims[i + 1]);
        for row in &weights[i] {
            assert_eq!(row.len(), dims[i]);
        }
        assert_eq!(network.layers()[i].input_size(), dims[i]);
        assert_eq!(network.layers()[i].output_size(), dims[i + 1]);
    }
}

#[test]
fn round_trip_through_parameters() {
    let network = FeedForwardNetwork::build_from_dims(&vec![3, 4, 2]).unwrap();
    let rebuilt = FeedForwardNetwork::build_from_parameters(network.get_weights(), network.get_biases()).unwrap();
    assert!(rebuilt == network);
    assert_eq!(rebuilt.get_weights(), network.get_weights());
    assert_eq!(rebuilt.get_biases(), network.get_biases());
}

#[test]
fn networks_with_other_values_differ() {
    let a = FeedForwardNetwork::build_from_parameters(vec![vec![vec![1, 0]]], vec![vec![0]]).unwrap();
    let b = FeedForwardNetwork::build_from_parameters(vec![vec![vec![1, 1]]], vec![vec![0]]).unwrap();
    assert!(a != b);
    assert!(a == a.clone());
}

#[test]
fn relu_clamps_negative_affine_values() {
    let network = FeedForwardNetwork::build_from_parameters(vec![vec![vec![1, 2], vec![-1, 0]]], vec![vec![-10, -1]]).unwrap();
    assert_eq!(network.predict(&vec![1, 1]), Ok(vec![0, 0]));
}

#[test]
fn relu_keeps_positive_affine_values() {
    let network = FeedForwardNetwork::build_from_parameters(vec![vec![vec![1, 2], vec![-1, 3]]], vec![vec![10, 1]]).unwrap();
    assert_eq!(network.predict(&vec![1, 1]), Ok(vec![13, 3]));
}

#[test]
fn empty_dims_are_invalid() {
    assert_eq!(FeedForwardNetwork::build_from_dims(&vec![]).unwrap_err(), NetError::InvalidSpec);
    assert_eq!(FeedForwardNetwork::build_from_dims(&vec![2, 0, 1]).unwrap_err(), NetError::InvalidSpec);
}

#[test]
fn mismatched_parameter_shapes_are_refused() {
    let r = FeedForwardNetwork::build_from_parameters(vec![vec![vec![1, 0], vec![0, 1]]], vec![vec![1, 0, 0]]);
    assert_eq!(r.unwrap_err(), NetError::ShapeMismatch { expected: 2, actual: 3 });
    let r = FeedForwardNetwork::build_from_parameters(vec![vec![vec![1, 0]]], vec![vec![1], vec![2]]);
    assert_eq!(r.unwrap_err(), NetError::ShapeMismatch { expected: 1, actual: 2 });
    let r = FeedForwardNetwork::build_from_parameters(vec![], vec![]);
    assert_eq!(r.unwrap_err(), NetError::InvalidSpec);
}

#[test]
fn neighbours_that_do_not_chain_are_refused() {
    let r = FeedForwardNetwork::build_from_parameters(
        vec![vec![vec![1, 0], vec![0, 1]], vec![vec![1, 1, 1]]],
        vec![vec![0, 0], vec![0]],
    );
    assert_eq!(r.unwrap_err(), NetError::ShapeMismatch { expected: 2, actual: 3 });
    let l1 = ReLuLayer::new(3, 2);
    let l2 = ReLuLayer::new(1, 4);
    assert_eq!(FeedForwardNetwork::new(&[l1, l2]).unwrap_err(), NetError::ShapeMismatch { expected: 3, actual: 4 });
    assert_eq!(FeedForwardNetwork::new(&[]).unwrap_err(), NetError::InvalidSpec);
}

#[test]
fn predict_rejects_wrong_input_length() {
    let network = FeedForwardNetwork::build_from_dims(&vec![2, 3, 1]).unwrap();
    assert_eq!(network.predict(&vec![1, 2, 3]), Err(NetError::DimensionMismatch { expected: 2, actual: 3 }));
}

#[test]
fn predict_reports_overflow_in_a_later_layer() {
    let network = FeedForwardNetwork::build_from_parameters(
        vec![vec![vec![i64::MAX / 2]], vec![vec![3]]],
        vec![vec![0], vec![0]],
    )
    .unwrap();
    assert_eq!(network.predict(&vec![1]), Err(NetError::Overflow));
}

#[test]
fn repeated_predictions_are_identical() {
    let network = FeedForwardNetwork::build_from_dims(&vec![2, 3, 1]).unwrap();
    let input = vec![0, 1];
    let first = network.predict(&input).unwrap();
    assert_eq!(first.len(), 1);
    for _ in 0..10 {
        assert_eq!(network.predict(&input).unwrap(), first);
    }
}

#[test]
fn identity_like_layer_scenario() {
    let network = FeedForwardNetwork::build_from_parameters(vec![vec![vec![1, 0], vec![0, 1]]], vec![vec![1, 0]]).unwrap();
    assert_eq!(network.predict(&vec![-5, 3]), Ok(vec![0, 3]));
}

#[test]
fn two_layer_exact_prediction() {
    let network = FeedForwardNetwork::build_from_parameters(
        vec![vec![vec![1, -1], vec![2, 0]], vec![vec![3, -1]]],
        vec![vec![0, 1], vec![-2]],
    )
    .unwrap();
    // hidden = relu([2 - 5, 4 + 1]) = [0, 5]; output = relu(3*0 - 5 - 2) = 0
    assert_eq!(network.predict(&vec![2, 5]), Ok(vec![0]));
    // hidden = relu([5 - 2, 10 + 1]) = [3, 11]; output = relu(9 - 11 - 2) = 0
    assert_eq!(network.predict(&vec![5, 2]), Ok(vec![0]));
    // hidden = relu([4 - 0, 8 + 1]) = [4, 9]; output = relu(12 - 9 - 2) = 1
    assert_eq!(network.predict(&vec![4, 0]), Ok(vec![1]));
}
