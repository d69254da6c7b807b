//! Snapshot interpolation engine for real-time networked simulations.
//!
//! A remote endpoint periodically sends authoritative state snapshots; the
//! local endpoint renders a smooth approximation of that state despite
//! latency, jitter, loss, reorder and duplication.  Snapshots are buffered
//! and ordered by remote time (`Buffer`), and played back a configurable
//! number of send periods behind the remote clock (`Playback`), with the
//! local timescale nudged to track the remote's.
//!
//! All times are fixed-point integers: microseconds for clock readings and
//! durations, and a `SCALE`-scaled factor (1.0 == `SCALE`) for dimensionless
//! quantities such as interpolation parameters and timescales.

pub mod ema;
pub mod fixed;
pub mod interpolate;
pub mod settings;
pub mod snapshot;

pub use ema::ExponentialMovingAverage;
pub use fixed::SCALE;
pub use interpolate::Buffer;
pub use interpolate::Playback;
pub use settings::Settings;
pub use snapshot::Position;
pub use snapshot::Snapshot;
pub use snapshot::lerp;
pub use snapshot::lerp_angle;
pub use snapshot::linear_map;
