//! Transport: media queue, pacing, and backlog fillers.

pub mod filler;
pub mod laws;
pub mod pacer;

pub use pacer::Pacer;
