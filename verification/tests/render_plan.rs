use open_conv::render_plan::{fill_block, render_layout};

#[test]
fn layout_counts_zones_up_to_the_last_ir() {
    assert_eq!(render_layout(1, &vec![Some(1), None, None, None]), Some((1, 1)));
    assert_eq!(render_layout(1, &vec![None, None, Some(1), None]), Some((3, 1)));
    assert_eq!(render_layout(2, &vec![None, None, None, None]), None);
}

#[test]
fn layout_width_is_at_most_stereo() {
    // Mono input through a stereo IR renders stereo.
    assert_eq!(render_layout(1, &vec![Some(2), Some(1), None, None]), Some((2, 2)));
    assert_eq!(render_layout(6, &vec![Some(1), None, None, None]), Some((1, 2)));
    assert_eq!(render_layout(1, &vec![Some(8), None, None, Some(1)]), Some((4, 2)));
    assert_eq!(render_layout(0, &vec![Some(1)]), Some((1, 1)));
}

#[test]
fn blocks_pad_with_zero() {
    let src = vec![1.0f32, 2.0, 3.0, 4.0, 5.0];
    assert_eq!(fill_block(&src, 0, 4, 0.0), vec![1.0, 2.0, 3.0, 4.0]);
    assert_eq!(fill_block(&src, 4, 4, 0.0), vec![5.0, 0.0, 0.0, 0.0]);
    assert_eq!(fill_block(&src, 9, 2, 0.0), vec![0.0, 0.0]);
    assert_eq!(fill_block(&src, 1, 0, 0.0), Vec::<f32>::new());
}
