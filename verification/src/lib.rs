//! Responsive rate control for real-time video.
//!
//! A session decouples encoder output from the wire rate: a pluggable congestion controller and
//! a pacer decide when bytes leave the sender, dummy padding keeps the feedback loop tight
//! while the media queue is empty, and an α optimizer adapts the encoder target bitrate to the
//! capacity of the link. Packets come pre-formed; encoding, framing and the network are the
//! application's.
//!
//! Time and fractions are plain values ([`time::Instant`], [`time::Duration`],
//! [`binary64::Binary64`]), so that every decision is a function of its inputs.

use vstd::prelude::*;

pub mod binary64;
pub mod bounded;
pub mod cc;
pub mod config;
pub mod encoder_ctrl;
pub mod metrics;
pub mod session;
pub mod time;
pub mod transport;
pub mod types;

pub use binary64::Binary64;
pub use cc::{CongestionController, Copa, CopaConfig, NoopCc};
pub use config::{ConfigError, VidaptiveConfig};
pub use session::Vidaptive;
pub use time::{Duration, Instant};
pub use transport::filler::{BacklogFiller, DummyFiller, DEFAULT_DUMMY_PACKET_SIZE};
pub use types::{
    chunk_payload, AckInfo, CaptureAdvice, EncodedFrame, EncoderAdvice, LostPacket, MediaPacket,
    SentPacket, TransmitAction, VidaptiveInput, VidaptiveOutput,
};

verus! {

} // verus!
