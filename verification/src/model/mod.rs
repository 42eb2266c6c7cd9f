//! The records that the collectors produce.
pub mod battery;
pub mod storage;
pub mod usb;
