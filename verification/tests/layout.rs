use bifrost_core::layout::{flatten_gradients, unflatten_weights, PARAMETER_COUNT};

#[test]
fn unflatten_splits_the_113_parameters_into_blocks() {
    let flat: Vec<u32> = (0..113).collect();
    let segs = unflatten_weights(&flat);
    assert_eq!(segs.input_hidden, (0..32).collect::<Vec<u32>>());
    assert_eq!(segs.hidden_hidden, (32..96).collect::<Vec<u32>>());
    assert_eq!(segs.hidden_output, (96..104).collect::<Vec<u32>>());
    assert_eq!(segs.hidden_bias, (104..112).collect::<Vec<u32>>());
    assert_eq!(segs.output_bias, vec![112]);
    assert_eq!(PARAMETER_COUNT, 113);
}

#[test]
fn flatten_after_unflatten_gives_the_vector_back() {
    let flat: Vec<f32> = (0..113).map(|i| (i as f32) * 0.5 - 3.0).collect();
    let segs = unflatten_weights(&flat);
    assert_eq!(flatten_gradients(&segs), flat);
}
