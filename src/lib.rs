//! Bounded-concurrency request dispatch with retry and exponential backoff,
//! written as a verified state machine.
//!
//! The library decides; its caller performs. A runtime drives the machine by
//! asking [`dispatch::Dispatch`] for admission before each remote call, and by
//! reporting each call's outcome and each elapsed backoff back to it.
pub mod gate;
pub mod handler;
pub mod dispatch;
