//! Encoder-side latency safeguards and α optimization.

pub mod alpha;
pub mod laws;
pub mod safeguards;

pub use alpha::AlphaController;
pub use safeguards::Safeguards;
