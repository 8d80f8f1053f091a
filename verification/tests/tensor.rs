use rllm::config::DType;
use rllm::tensor::device::Device;
use rllm::tensor::tensor::{element_count, TensorView};

#[test]
fn cpu_device() {
    let dev = Device::cpu();
    assert!(dev.is_cpu());
    assert!(!dev.is_cuda());
    assert!(dev.cuda_index().is_none());
    assert_eq!(dev.describe(), "cpu");
}

#[test]
fn cuda_device_default_stream() {
    let dev = Device::cuda(0);
    assert!(dev.is_cuda());
    assert!(!dev.is_cpu());
    assert_eq!(dev.cuda_index(), Some(0));
}

#[test]
fn device_equality() {
    assert_eq!(Device::cpu(), Device::cpu());
    assert_eq!(Device::cuda(0), Device::cuda(0));
    assert_ne!(Device::cuda(0), Device::cuda(1));
    assert_ne!(Device::cpu(), Device::cuda(0));
}

#[test]
fn devices_are_described_with_their_stream() {
    assert_eq!(Device::cuda(3).describe(), "cuda:3");
    assert!(Device::cuda(3).stream().is_none());
    let dev = Device::cuda_with_stream(12, 0x40);
    assert_eq!(dev.describe(), "cuda:12 (custom stream)");
    assert_eq!(dev.stream(), Some(0x40));
    assert!(Device::cpu().stream().is_none());
}

#[test]
fn num_elements() {
    let tv = TensorView::contiguous(DType::F32, vec![2, 3, 4], Device::Cpu);
    assert_eq!(tv.num_elements(), 24);
}

#[test]
fn nbytes() {
    let tv = TensorView::contiguous(DType::F16, vec![8, 16], Device::Cpu);
    assert_eq!(tv.nbytes(), 8 * 16 * 2);
}

#[test]
fn contiguous_strides_correct() {
    let strides = TensorView::contiguous_strides(&[2, 3, 4]);
    assert_eq!(strides, &[12, 4, 1]);

    let tv = TensorView::contiguous(DType::F32, vec![2, 3, 4], Device::Cpu);
    assert_eq!(tv.strides, &[12, 4, 1]);
    assert!(tv.is_contiguous());
}

#[test]
fn non_contiguous_detected() {
    let tv = TensorView::new(DType::F32, vec![2, 3], vec![1, 2], Device::Cpu);
    assert!(!tv.is_contiguous());
}

#[test]
fn scalar_tensor() {
    let tv = TensorView::contiguous(DType::F32, vec![], Device::Cpu);
    assert_eq!(tv.num_elements(), 1);
    assert_eq!(tv.ndim(), 0);
    assert!(tv.is_contiguous());
}

#[test]
fn ndim() {
    let tv = TensorView::contiguous(DType::F32, vec![1, 2, 3, 4], Device::Cpu);
    assert_eq!(tv.ndim(), 4);
}

#[test]
fn with_data_ptr() {
    let buf = [1u8, 2, 3, 4];
    let ptr = buf.as_ptr() as usize;
    let tv = TensorView::contiguous(DType::F32, vec![1], Device::Cpu).with_data_ptr(ptr);
    assert!(tv.data_ptr.is_some());
    assert_eq!(tv.data_ptr, Some(ptr));
}

#[test]
fn an_empty_dimension_leaves_no_elements() {
    let tv = TensorView::contiguous(DType::BF16, vec![4, 0, 7], Device::cuda(1));
    assert_eq!(tv.num_elements(), 0);
    assert_eq!(tv.nbytes(), 0);
    assert_eq!(tv.strides, &[0, 7, 1]);
    assert!(tv.is_contiguous());
}

#[test]
fn element_types_have_their_sizes() {
    let sizes: Vec<usize> = [
        DType::F32,
        DType::F16,
        DType::BF16,
        DType::FP8E4M3,
        DType::FP8E5M2,
        DType::INT8,
    ]
    .iter()
    .map(|dtype| dtype.bytes_per_scalar())
    .collect();
    assert_eq!(sizes, vec![4, 2, 2, 1, 1, 1]);
    assert_eq!(element_count(&[5, 1, 6]), 30);
}
