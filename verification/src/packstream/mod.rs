//! PackStream, the binary value encoding of the Bolt protocol.
pub mod deserialize;
pub mod laws;
pub mod layout;
pub mod marker;
pub mod serialize;
pub mod skipping;
pub mod types;
pub mod value;
pub mod wire;
pub mod writes;
