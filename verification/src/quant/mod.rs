pub mod gguf;
pub mod int8;
pub mod laws;
pub mod method;
pub mod nvfp;
pub mod qtensor;
pub mod schema;
pub mod table;
pub mod unquant;
