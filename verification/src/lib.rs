//! Telemetry path for a fixed set of digital signal lines: a device-side
//! frame encoder, a host-side frame decoder with a latest-state register,
//! and a time-windowed per-channel sample store for live visualization.

pub mod channel;
pub mod frame;
pub mod reader;
pub mod register;
pub mod store;
pub mod window;
