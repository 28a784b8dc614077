//! Frame service-time sample buffer and shared metrics helpers.

pub mod frame_timing;
pub mod laws;
pub mod percentile;
pub mod video_bitrate;

pub use frame_timing::FrameTimingBuffer;
pub use percentile::percentile_linear;
pub use video_bitrate::VideoBitrateWindow;
