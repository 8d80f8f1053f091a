pub mod config;
pub mod float_bits;
pub mod ids;
pub mod json;
pub mod model;
pub mod quant;
pub mod ranking;
pub mod sampling;
pub mod scheduler;
pub mod server;
pub mod tensor;
pub mod text;
