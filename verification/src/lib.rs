//! System hardware information: batteries, block storage and USB devices as
//! the kernel exports them, and the decisions of the live sensor poller.
pub mod collectors;
pub mod model;
pub mod numparse;
pub mod platform;
pub mod sensors;
pub mod sorting;
pub mod text;
