use bifrost_core::krum::{krum_neighbor_count, krum_select};

#[test]
fn krum_needs_more_than_two_f_plus_two_nodes() {
    assert_eq!(krum_neighbor_count(4, 1), None);
    assert_eq!(krum_neighbor_count(5, 1), Some(2));
    assert_eq!(krum_neighbor_count(2, 0), None);
    assert_eq!(krum_neighbor_count(3, 0), Some(1));
    assert_eq!(krum_neighbor_count(0, 0), None);
    assert_eq!(krum_neighbor_count(10, 3), Some(5));
}

fn greater_table(scores: &[f32]) -> Vec<Vec<bool>> {
    scores
        .iter()
        .map(|a| scores.iter().map(|b| a.partial_cmp(b) == Some(std::cmp::Ordering::Greater)).collect())
        .collect()
}

#[test]
fn krum_select_keeps_first_lowest_score() {
    assert_eq!(krum_select(&greater_table(&[3.0, 1.0, 2.0, 1.0])), Some(1));
    assert_eq!(krum_select(&greater_table(&[0.5])), Some(0));
    assert_eq!(krum_select(&greater_table(&[])), None);
    assert_eq!(krum_select(&greater_table(&[2.0, 2.0, 2.0])), Some(0));
    // An adversarial outlier with an enormous score is never kept.
    assert_eq!(krum_select(&greater_table(&[4.1, 4.0, 4.2, 4.05, 1.0e10])), Some(1));
}

#[test]
fn krum_keeps_the_same_submission_in_any_arrival_order() {
    let scores = [4.1f32, 4.0, 4.2, 4.05, 1.0e10];
    let winner = krum_select(&greater_table(&scores)).unwrap();
    for p in [[4usize, 3, 2, 1, 0], [1, 0, 4, 2, 3], [2, 4, 1, 3, 0]] {
        let permuted: Vec<f32> = p.iter().map(|&i| scores[i]).collect();
        let w = krum_select(&greater_table(&permuted)).unwrap();
        assert_eq!(p[w], winner);
    }
}
