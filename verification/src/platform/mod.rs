//! Reading of kernel-exported attribute files.
pub mod sysfs;
