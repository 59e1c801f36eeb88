//! Clock synchronisation and drift correction for shared playback, and the
//! geometry bookkeeping of an RGBA frame scaler.

pub mod clock;
pub mod clock_laws;
pub mod drift;
pub mod time;

pub use clock::{ClockSample, ClockSync, SyncError, MAX_SAMPLES};
pub use drift::RateCorrection;
pub use time::now_ms;
pub mod scaler;

pub use scaler::{FrameScaler, InputGeometry, VideoError};
