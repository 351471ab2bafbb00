use open_conv::channels::{deinterleave, split_channels};

#[test]
fn deinterleave_splits_frames() {
    let inter = vec![1, 2, 3, 4, 5, 6];
    assert_eq!(deinterleave(&inter, 2), vec![vec![1, 3, 5], vec![2, 4, 6]]);
    assert_eq!(deinterleave(&inter, 1), vec![vec![1, 2, 3, 4, 5, 6]]);
    assert_eq!(deinterleave(&inter, 3), vec![vec![1, 4], vec![2, 5], vec![3, 6]]);
}

#[test]
fn deinterleave_keeps_a_partial_last_frame() {
    let inter = vec![10, 20, 30, 40, 50];
    assert_eq!(deinterleave(&inter, 2), vec![vec![10, 30, 50], vec![20, 40]]);
    assert_eq!(deinterleave(&inter, 4), vec![vec![10, 50], vec![20], vec![30], vec![40]]);
    assert_eq!(deinterleave(&vec![7], 3), vec![vec![7], vec![], vec![]]);
}

#[test]
fn split_channels_rejects_empty_files() {
    assert_eq!(split_channels::<f32>(&vec![], 2), None);
    assert_eq!(split_channels(&vec![1.0f32], 0), None);
    assert_eq!(split_channels(&vec![0.5f32, -0.5], 2), Some(vec![vec![0.5], vec![-0.5]]));
}
