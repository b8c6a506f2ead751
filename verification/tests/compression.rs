use bifrost_core::compression::{
    build_index_mask, calculate_residue, compress_and_package, extract_top_k_values,
    top_k_count, top_k_target_index, ErrorAccumulator,
};
use std::cmp::Ordering;

// Floating-point glue of a top-k round, as the node runs it: magnitudes,
// the k-th largest magnitude as cut-off, and the pass/fail mark per position.

fn calculate_absolute_magnitudes(gradients: &[f32]) -> Vec<f32> {
    gradients.iter().map(|&g| g.abs()).collect()
}

fn calculate_top_k_threshold(magnitudes: &mut [f32], compression_ratio: f32) -> f32 {
    let n = magnitudes.len();
    if n == 0 {
        return 0.0;
    }
    let requested = ((n as f32) * compression_ratio).round() as usize;
    let target_index = top_k_target_index(n, requested);
    magnitudes.select_nth_unstable_by(target_index, |a, b| {
        a.partial_cmp(b).unwrap_or(Ordering::Equal)
    });
    magnitudes[target_index]
}

fn marks_at_or_above(gradients: &[f32], threshold: f32) -> Vec<bool> {
    gradients.iter().map(|g| g.abs() >= threshold).collect()
}

#[test]
fn test_topk_compression_exact_target_size() {
    let param_count = 113;
    let gradients: Vec<f32> = (0..param_count).map(|i| i as f32).collect();
    let compression_ratio = 0.10;

    let mut magnitudes = calculate_absolute_magnitudes(&gradients);
    let threshold = calculate_top_k_threshold(&mut magnitudes, compression_ratio);

    let indices = build_index_mask(&marks_at_or_above(&gradients, threshold));
    let values = extract_top_k_values(&gradients, &indices);

    let expected_count = ((param_count as f32) * compression_ratio)
        .round()
        .clamp(1.0, param_count as f32) as usize;

    assert_eq!(
        indices.len(),
        expected_count,
        "Top-k compressor did not produce the exact expected number of active parameters"
    );
    assert_eq!(values.len(), indices.len(), "Values length must match indices length");
}

#[test]
fn test_topk_compression_handles_all_zero_gradients() {
    let gradients: Vec<f32> = vec![0.0; 113];
    let compression_ratio = 0.10;

    let mut magnitudes = calculate_absolute_magnitudes(&gradients);
    let threshold = calculate_top_k_threshold(&mut magnitudes, compression_ratio);
    let indices = build_index_mask(&marks_at_or_above(&gradients, threshold));

    assert!(!indices.is_empty(), "Even a degenerate all-zero vector must select at least 1 parameter");
}

#[test]
fn test_error_accumulation_over_ten_rounds_reaches_threshold() {
    let parameter_count = 113;
    let mut error_buffer = ErrorAccumulator::new(parameter_count, 0.0f32);
    let compression_ratio = 0.10;

    let small_round_gradient: Vec<f32> = (0..parameter_count)
        .map(|i| 0.001 + (i as f32) * 0.0005)
        .collect();

    let mut residue_history: Vec<f32> = Vec::with_capacity(10);

    for round in 1..=10 {
        let mut round_gradients = small_round_gradient.clone();

        for (g, past_error) in round_gradients.iter_mut().zip(error_buffer.residue.iter()) {
            *g += past_error;
        }

        let mut magnitudes = calculate_absolute_magnitudes(&round_gradients);
        let threshold = calculate_top_k_threshold(&mut magnitudes, compression_ratio);
        let indices = build_index_mask(&marks_at_or_above(&round_gradients, threshold));

        error_buffer.residue = calculate_residue(&round_gradients, &indices, 0.0);
        let residue_sum: f32 = error_buffer.residue.iter().map(|x| x.abs()).sum();
        residue_history.push(residue_sum);

        println!("[TEST] Round {} residue sum: {:.6}", round, residue_sum);
    }

    let first = residue_history.first().copied().unwrap_or(0.0);
    let last = residue_history.last().copied().unwrap_or(0.0);

    assert!(last > 0.0, "Residue must be non-zero after 10 rounds of small updates");
    assert!(
        last >= first,
        "Residue should accumulate (non-decreasing) across rounds of untransmitted small updates: first={:.6}, last={:.6}",
        first,
        last
    );
}

#[test]
fn top_k_count_clamps_into_range() {
    assert_eq!(top_k_count(113, 11), 11);
    assert_eq!(top_k_count(113, 0), 1);
    assert_eq!(top_k_count(113, 500), 113);
    assert_eq!(top_k_count(1, 0), 1);
    assert_eq!(top_k_target_index(113, 11), 102);
    assert_eq!(top_k_target_index(113, 0), 112);
    assert_eq!(top_k_target_index(113, 1000), 0);
}

#[test]
fn index_mask_lists_marked_positions_in_order() {
    assert_eq!(build_index_mask(&[false, true, true, false, true]), vec![1u32, 2, 4]);
    assert_eq!(build_index_mask(&[]), Vec::<u32>::new());
    assert_eq!(build_index_mask(&[false, false]), Vec::<u32>::new());
}

#[test]
fn extract_gathers_values_at_indices() {
    let g = vec![10i64, 20, 30, 40];
    assert_eq!(extract_top_k_values(&g, &[3, 0, 3]), vec![40, 10, 40]);
    assert_eq!(extract_top_k_values(&g, &[]), Vec::<i64>::new());
}

#[test]
fn residue_zeroes_only_transmitted_positions() {
    let acc = vec![1.5f32, -2.0, 3.25, 4.0];
    assert_eq!(calculate_residue(&acc, &[1, 3], 0.0), vec![1.5, 0.0, 3.25, 0.0]);
    assert_eq!(calculate_residue(&acc, &[], 0.0), acc);
    assert_eq!(calculate_residue(&acc, &[2, 2], 0.0), vec![1.5, -2.0, 0.0, 4.0]);
}

#[test]
fn error_accumulator_starts_at_zero() {
    let acc = ErrorAccumulator::new(3, 0.0f32);
    assert_eq!(acc.residue, vec![0.0, 0.0, 0.0]);
    let empty = ErrorAccumulator::new(0, 7u8);
    assert!(empty.residue.is_empty());
}

#[test]
fn package_and_residue_reconstruct_accumulated_gradient() {
    let acc = vec![0.5f32, -9.0, 0.1, 7.0, -0.2];
    let marks: Vec<bool> = acc.iter().map(|g| g.abs() >= 7.0).collect();
    let update = compress_and_package("node-a".to_string(), 4, &acc, &marks);
    assert_eq!(update.node_id, "node-a");
    assert_eq!(update.round_id, 4);
    assert_eq!(update.indices, vec![1, 3]);
    assert_eq!(update.values, vec![-9.0, 7.0]);
    let residue = calculate_residue(&acc, &update.indices, 0.0);
    let mut rebuilt = residue.clone();
    for (k, &i) in update.indices.iter().enumerate() {
        rebuilt[i as usize] += update.values[k];
    }
    assert_eq!(rebuilt, acc);
}
