//! The command bridge to libkrun VMs.
pub mod stream;
