pub mod answers;
pub mod auth;
pub mod cli;
pub mod grpc;
pub mod openai;
pub mod requests;
pub mod serving;
pub mod settings;
pub mod streaming;
pub mod tool_calls;
pub mod tools;
