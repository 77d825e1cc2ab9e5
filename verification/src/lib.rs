//! A small frame-timing library: a two-state timer over a monotonic clock,
//! keeping a bounded history of per-tick durations and exposing the
//! instantaneous delta, the elapsed time since start, and a smoothed average.
//!
//! Durations and timestamps are carried as `u64` nanosecond counts; the only
//! opaque value is the monotonic anchor captured at `start()`.

pub mod clock;
pub mod ring;
pub mod timer;

pub use ring::Buffer;
pub use timer::InnerTimer;
pub use timer::Timer;
