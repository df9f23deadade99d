//! The Bolt protocol's value encoding and its message framing.
pub mod be;
pub mod buf;
pub mod bytes_spec;
pub mod packstream;
pub mod protocol;
pub mod text;
