use vstd::prelude::*;

use crate::text::{decimal, decimal_digits, join2, join3};

verus! {

/// The address of a CUDA stream.
pub type CudaStreamHandle = usize;

/// Compute device abstraction.
#[derive(Debug, Clone, Copy, PartialEq, Eq, Structural)]
pub enum Device {
    Cpu,
    Cuda {
        index: usize,
        /// `None` means the default stream (stream 0).
        stream: Option<CudaStreamHandle>,
    },
}

impl Device {
    pub fn cpu() -> (device: Self)
        ensures
            device == Device::Cpu,
    {
        Device::Cpu
    }

    pub fn cuda(index: usize) -> (device: Self)
        ensures
            device == (Device::Cuda { index, stream: None }),
    {
        Device::Cuda { index, stream: None }
    }

    pub fn cuda_with_stream(index: usize, stream: CudaStreamHandle) -> (device: Self)
        ensures
            device == (Device::Cuda { index, stream: Some(stream) }),
    {
        Device::Cuda { index, stream: Some(stream) }
    }

    pub fn is_cuda(&self) -> (r: bool)
        ensures
            r == (self is Cuda),
    {
        matches!(self, Device::Cuda { .. })
    }

    pub fn is_cpu(&self) -> (r: bool)
        ensures
            r == (self is Cpu),
    {
        matches!(self, Device::Cpu)
    }

    /// The CUDA device index, or `None` for the CPU.
    pub fn cuda_index(&self) -> (found: Option<usize>)
        ensures
            found == match *self {
                Device::Cuda { index, .. } => Some(index),
                Device::Cpu => None,
            },
    {
        match self {
            Device::Cuda { index, .. } => Some(*index),
            Device::Cpu => None,
        }
    }

    /// The CUDA stream, where one was given.
    pub fn stream(&self) -> (found: Option<CudaStreamHandle>)
        ensures
            found == match *self {
                Device::Cuda { stream, .. } => stream,
                Device::Cpu => None,
            },
    {
        match self {
            Device::Cuda { stream, .. } => *stream,
            Device::Cpu => None,
        }
    }

    /// The device in words.
    pub fn describe(&self) -> (text: String)
        ensures
            text@ == match *self {
                Device::Cpu => "cpu"@,
                Device::Cuda { index, stream: None } => "cuda:"@ + decimal_digits(index as nat),
                Device::Cuda { index, stream: Some(_) } => "cuda:"@ + decimal_digits(index as nat)
                    + " (custom stream)"@,
            },
    {
        match self {
            Device::Cpu => "cpu".to_owned(),
            Device::Cuda { index, stream } => {
                if stream.is_some() {
                    join3("cuda:", decimal(*index as u64).as_str(), " (custom stream)")
                } else {
                    join2("cuda:", decimal(*index as u64).as_str())
                }
            },
        }
    }
}

} // verus!
