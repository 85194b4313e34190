pub mod coordinator;
pub mod fingerprint;
pub mod invocation;
pub mod store;
