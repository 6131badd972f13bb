//! Verified core of the epkg busybox applets, mount policy and VM command bridge.
pub mod text;
pub mod paths;
pub mod busybox;
pub mod mount_specs;
pub mod vmm;
pub mod vm;
pub mod libkrun;
