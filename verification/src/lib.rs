//! Codec for a small subset of the PostgreSQL frontend/backend wire protocol.
//!
//! The crate builds byte-exact frames for authentication, session setup and
//! query readiness, reads length-prefixed frames back from a byte buffer,
//! decodes the parameter list of a startup frame and derives the MD5
//! challenge response.  Every function is stateless; contracts are stated
//! over plain byte sequences.

pub mod buffer;
pub mod challenge;
pub mod errors;
pub mod messages;
pub mod params;
pub mod wire;
