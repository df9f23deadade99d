//! The framing of Bolt messages on the wire.
pub mod chunking;
pub mod framing;
pub mod laws;
pub mod segments;
