use bifrost_core::shuffler::MixNetShuffler;

#[test]
fn batch_is_released_at_threshold_as_a_permutation() {
    let mut s: MixNetShuffler<Vec<u32>> = MixNetShuffler::new(3);
    assert!(s.submit_and_shuffle(vec![1]).is_none());
    assert!(s.submit_and_shuffle(vec![2]).is_none());
    let mut batch = s.submit_and_shuffle(vec![3]).expect("third submission releases the batch");
    assert_eq!(batch.len(), 3);
    batch.sort();
    assert_eq!(batch, vec![vec![1], vec![2], vec![3]]);
    // The shuffler starts over empty.
    assert!(s.submit_and_shuffle(vec![4]).is_none());
    assert!(s.submit_and_shuffle(vec![5]).is_none());
    let mut second = s.submit_and_shuffle(vec![6]).unwrap();
    second.sort();
    assert_eq!(second, vec![vec![4], vec![5], vec![6]]);
}

#[test]
fn threshold_of_one_or_zero_releases_every_submission() {
    let mut one: MixNetShuffler<u8> = MixNetShuffler::new(1);
    assert_eq!(one.submit_and_shuffle(7), Some(vec![7]));
    let mut zero: MixNetShuffler<u8> = MixNetShuffler::new(0);
    assert_eq!(zero.submit_and_shuffle(9), Some(vec![9]));
}

#[test]
fn released_batch_is_shuffled() {
    // With 30 distinct submissions the chance that the batch comes back in
    // submission order is 1/30!, so a batch in order means no shuffle.
    let mut s: MixNetShuffler<u32> = MixNetShuffler::new(30);
    let mut batch = None;
    for i in 0..30u32 {
        batch = s.submit_and_shuffle(i);
    }
    let mut batch = batch.expect("thirtieth submission releases the batch");
    assert_ne!(batch, (0..30u32).collect::<Vec<u32>>());
    batch.sort();
    assert_eq!(batch, (0..30u32).collect::<Vec<u32>>());
}

#[test]
fn default_shuffler_releases_every_submission() {
    let mut s: MixNetShuffler<u8> = MixNetShuffler::default();
    assert_eq!(s.submit_and_shuffle(3), Some(vec![3]));
    assert_eq!(s.submit_and_shuffle(4), Some(vec![4]));
    assert!(format!("{:?}", s).contains("MixNetShuffler"));
}
