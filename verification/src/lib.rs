//! Verified model of a capability-based microkernel's synchronous IPC core:
//! endpoints, notifications, and the transfer engine that moves messages,
//! capabilities and fault records between threads.
//!
//! Kernel objects live in per-type tables inside [`kernel::Kernel`] and refer
//! to each other by index, so every operation is a verified transition on one
//! plain value.

pub mod endpoint;
pub mod kernel;
pub mod notification;
pub mod transfer;
pub mod types;
