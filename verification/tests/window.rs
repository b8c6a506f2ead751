use bifrost_core::window::{sequence_dataset, FlowSequenceWindow};

#[test]
fn window_completes_at_size_and_then_slides() {
    let mut w: FlowSequenceWindow<i32> = FlowSequenceWindow::new(3);
    assert_eq!(w.eviction_engine(vec![1]), None);
    assert_eq!(w.eviction_engine(vec![2]), None);
    assert_eq!(w.eviction_engine(vec![3]), Some(vec![vec![1], vec![2], vec![3]]));
    assert_eq!(w.eviction_engine(vec![4, 5]), Some(vec![vec![2], vec![3], vec![4, 5]]));
}

#[test]
fn window_of_size_zero_never_completes() {
    let mut w: FlowSequenceWindow<i32> = FlowSequenceWindow::new(0);
    for i in 0..5 {
        assert_eq!(w.eviction_engine(vec![i]), None);
    }
}

#[test]
fn four_flow_records_give_two_sequences_of_twelve_metrics() {
    // The four records of the original pipeline test, already scaled:
    // port / 65535, duration / max duration, fwd / max fwd, bwd / max bwd.
    let features: Vec<Vec<f32>> = vec![
        vec![80.0 / 65535.0, 1000.0 / 5000.0, 5.0 / 15.0, 10.0 / 30.0],
        vec![443.0 / 65535.0, 2000.0 / 5000.0, 10.0 / 15.0, 20.0 / 30.0],
        vec![8080.0 / 65535.0, 500.0 / 5000.0, 2.0 / 15.0, 2.0 / 30.0],
        vec![22.0 / 65535.0, 5000.0 / 5000.0, 15.0 / 15.0, 30.0 / 30.0],
    ];
    let labels = vec![0.0f32, 1.0, 0.0, 1.0];
    let (x_train, y_train) = sequence_dataset(&features, &labels, 3);
    assert_eq!(x_train.len(), 2, "Should have extracted exactly 2 temporal window frames");
    assert_eq!(x_train[0].len(), 12, "Each flat sequence must contain exactly 12 metrics (3 steps x 4 features)");
    assert_eq!(y_train, vec![0.0, 1.0]);
    let expected_first: Vec<f32> = features[0..3].concat();
    let expected_second: Vec<f32> = features[1..4].concat();
    assert_eq!(x_train[0], expected_first);
    assert_eq!(x_train[1], expected_second);
}

#[test]
fn sequences_stop_at_the_shorter_list() {
    let features = vec![vec![1u8], vec![2], vec![3], vec![4]];
    let labels = vec![10u8, 20, 30];
    let (x, y) = sequence_dataset(&features, &labels, 2);
    assert_eq!(x, vec![vec![1, 2], vec![2, 3]]);
    assert_eq!(y, vec![20, 30]);
    let (x0, y0) = sequence_dataset(&features, &labels, 0);
    assert!(x0.is_empty() && y0.is_empty());
    let (x5, y5) = sequence_dataset(&features, &labels, 5);
    assert!(x5.is_empty() && y5.is_empty());
}
