//! Moving files over a byte stream and putting them in place on the other
//! side.
//!
//! A sender frames files and their checksums into one transfer (`encode`). A
//! receiver decodes it (`decode`, or piece by piece with `intake`), following
//! the wire format that `wire` defines over the codecs in `varint` and
//! `codec`. A deployment plan (`plan`) names the steps to take with the
//! files, and the engine (`engine`) takes them in order: it decides what is
//! to be done, and its driver does it. `wire_laws` and `engine_laws` state
//! what holds of the format and of every run.

pub mod codec;
pub mod decode;
pub mod encode;
pub mod engine;
pub mod engine_laws;
pub mod error;
pub mod intake;
pub mod plan;
pub mod varint;
pub mod wire;
pub mod wire_laws;
