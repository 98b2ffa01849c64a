//! A compact binary command protocol: a wire codec, a schema-driven validator
//! and the dispatch core that sequences them.
//!
//! Two endpoints exchange typed, nested commands without sending any schema:
//! both hold the same descriptors.
//!
//! - [`lcsf_transcoder`] turns a buffer into a tree of raw attributes and
//!   back, in one of two modes: one byte or two bytes for each structural
//!   field.
//! - [`lcsf_validator`] turns a raw message into a validated command, shaped
//!   like the descriptor of the command, and back.
//! - [`lcsf_error`] holds the error protocol, which reports a refused message
//!   to the peer.
//! - [`lcsf_core`] holds the table of registered protocols and decides, for a
//!   received buffer or a command to send, what is to be done.
//!
//! What the functions compute is stated over mathematical values of the data:
//! sequences of bytes and trees of attributes. [`lcsf_transcoder_proof`],
//! [`lcsf_validator_accept`], [`lcsf_validator_proof`] and
//! [`lcsf_validator_roundtrip`] hold what follows from these statements:
//! decoding and encoding undo each other, validation and encoding do too, a
//! message is accepted exactly where it suits its descriptor, and a refused
//! message is refused for a stated reason.

pub mod lcsf_core;
pub mod lcsf_error;
pub mod lcsf_transcoder;
pub mod lcsf_transcoder_proof;
pub mod lcsf_validator;
pub mod lcsf_validator_accept;
pub mod lcsf_validator_proof;
pub mod lcsf_validator_roundtrip;
