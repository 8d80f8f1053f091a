pub mod device;
pub mod pinned;
pub mod tensor;
