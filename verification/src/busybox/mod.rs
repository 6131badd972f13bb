//! The applets reachable through the epkg multi-call binary.
pub mod printf;
pub mod seq;
pub mod pm;
