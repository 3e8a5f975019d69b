//! A writer for CAR v1 archives: one length-prefixed header section followed
//! by length-prefixed block frames, each frame holding a content identifier
//! and the bytes it addresses.
//!
//! Every function is verified against a byte-level model of the format. The
//! binary form of a content identifier comes from the `cid` crate; the
//! destination of the bytes is any type that implements [`sink::Sink`].

pub mod varint;
pub mod sink;
pub mod cid_encoding;
pub mod error;
pub mod header;
pub mod format;
pub mod writer;

pub use crate::error::CarError;
pub use crate::header::CarHeader;
pub use crate::sink::{BufferSink, Sink};
pub use crate::writer::CarWriter;
