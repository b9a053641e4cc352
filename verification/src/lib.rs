//! Verified core of a Starlark global environment builder and of a test
//! runner's result bookkeeping and reporting.
pub mod text;
pub mod runner;
pub mod value;
pub mod globals;
