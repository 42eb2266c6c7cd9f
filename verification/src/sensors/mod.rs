//! Live sensor polling.
pub mod poller;
