//! The hardware collectors: each turns what the kernel exports into records.
pub mod battery;
pub mod usb;
pub mod storage;
