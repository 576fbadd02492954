//! The layer-testing kit: payload verification, timestamped frames, the
//! roles of tagged streams, and sampled evidence of error correction.

pub mod fec;
pub mod frames;
pub mod payload;
pub mod servers;
pub mod sink;
