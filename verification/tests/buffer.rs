use scram::buffer::WindowBuffer;

#[test]
fn chunks_summing_to_target_yield_one_block_in_order() {
    let mut buf: WindowBuffer<i32> = WindowBuffer::new(8);
    assert_eq!(buf.try_take_block(), None);
    buf.push(&vec![1, 2, 3]);
    assert_eq!(buf.try_take_block(), None);
    buf.push(&vec![4, 5]);
    assert_eq!(buf.try_take_block(), None);
    buf.push(&vec![6, 7, 8]);
    assert_eq!(buf.try_take_block(), Some(vec![1, 2, 3, 4, 5, 6, 7, 8]));
}

#[test]
fn overshoot_trims_only_the_oldest_samples() {
    let mut buf: WindowBuffer<i32> = WindowBuffer::new(4);
    buf.push(&vec![1, 2, 3, 4]);
    assert_eq!(buf.try_take_block(), Some(vec![1, 2, 3, 4]));
    buf.push(&vec![5, 6]);
    assert_eq!(buf.try_take_block(), Some(vec![3, 4, 5, 6]));
}

#[test]
fn chunk_longer_than_target_keeps_its_newest_tail() {
    let mut buf: WindowBuffer<u8> = WindowBuffer::new(3);
    buf.push(&vec![9, 8, 7, 6, 5]);
    assert_eq!(buf.try_take_block(), Some(vec![7, 6, 5]));
}

#[test]
fn taking_leaves_the_window_unchanged() {
    let mut buf: WindowBuffer<i32> = WindowBuffer::new(2);
    buf.push(&vec![10, 20]);
    assert_eq!(buf.try_take_block(), Some(vec![10, 20]));
    assert_eq!(buf.try_take_block(), Some(vec![10, 20]));
}

#[test]
fn float_samples_flow_through_unchanged() {
    let mut buf: WindowBuffer<f32> = WindowBuffer::new(2);
    buf.push(&vec![0.25f32]);
    buf.push(&vec![-0.5f32]);
    assert_eq!(buf.try_take_block(), Some(vec![0.25f32, -0.5f32]));
}

#[test]
fn zero_target_is_always_full_and_empty() {
    let mut buf: WindowBuffer<i32> = WindowBuffer::new(0);
    assert_eq!(buf.try_take_block(), Some(vec![]));
    buf.push(&vec![1, 2]);
    assert_eq!(buf.try_take_block(), Some(vec![]));
}
