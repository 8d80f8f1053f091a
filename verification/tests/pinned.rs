use rllm::tensor::pinned::{async_copy_token_ids, PinnedBuffer};

#[test]
fn alloc_and_size() {
    let buf = PinnedBuffer::allocate(1024);
    assert_eq!(buf.len(), 1024);
    assert!(!buf.is_empty());
}

#[test]
fn alloc_zero_len() {
    let buf = PinnedBuffer::allocate(0);
    assert_eq!(buf.len(), 1); // max(0, 1) = 1
}

#[test]
fn alloc_typed() {
    let buf = PinnedBuffer::alloc_typed::<f32>(256);
    assert_eq!(buf.len(), 256 * 4);
}

#[test]
fn zero_initialized() {
    let buf = PinnedBuffer::allocate(16);
    let slice = buf.read_to_vec::<u8>(16);
    assert_eq!(slice.len(), 16);
    assert!(slice.iter().all(|&b| b == 0));
}

#[test]
fn typed_read_write() {
    let mut buf = PinnedBuffer::alloc_typed::<f32>(4);
    let values = [1.0f32, 2.0, 3.0, 4.0].map(f32::to_bits);
    buf.copy_from_slice(&values);
    let read: Vec<f32> = buf.read_to_vec::<u32>(4).into_iter().map(f32::from_bits).collect();
    assert_eq!(read, vec![1.0f32, 2.0, 3.0, 4.0]);
    assert_eq!(&buf.as_bytes()[..4], &1.0f32.to_le_bytes());
}

#[test]
fn copy_helpers_roundtrip() {
    let mut buf = PinnedBuffer::alloc_typed::<u32>(3);
    buf.copy_from_slice(&[7u32, 8, 9]);
    assert_eq!(buf.read_to_vec::<u32>(3), vec![7, 8, 9]);
}

#[test]
fn copy_leaves_the_rest_alone() {
    let mut buf = PinnedBuffer::allocate(8);
    buf.copy_from_slice(&[1u8, 2, 3, 4, 5, 6, 7, 8]);
    buf.copy_from_slice(&[0xffff_ffffu32]);
    assert_eq!(buf.read_to_vec::<u8>(8), vec![255, 255, 255, 255, 5, 6, 7, 8]);
}

#[test]
fn async_token_copy_roundtrip() {
    let handle = async_copy_token_ids(&[11, 12, 13]);
    assert_eq!(handle.wait(), vec![11, 12, 13]);
}

#[test]
fn async_copy_of_nothing() {
    assert!(async_copy_token_ids(&[]).wait().is_empty());
}
