//! Test configuration extraction, contract address mocking and test result
//! aggregation for a Cairo test runner.
//!
//! The compiler front end and the virtual machine are collaborators of this
//! library: they hand it attribute descriptors, contract metadata and run
//! outcomes as plain values, and the library decides what each test expects,
//! which addresses are mocked, and what the summary of a run is.
pub mod felt;
pub mod text;
pub mod assoc;
pub mod mock;
pub mod test_config;
pub mod summary;
pub mod scarb;
