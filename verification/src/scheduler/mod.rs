pub mod accounting;
pub mod backing;
pub mod cache;
pub mod laws;
pub mod output;
pub mod policy;
pub mod queueing;
pub mod scheduler;
