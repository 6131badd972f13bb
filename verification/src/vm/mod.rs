//! VM lifecycle: the `epkg vm start` command's configuration and plan.
pub mod start;
