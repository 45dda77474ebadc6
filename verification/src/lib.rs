//! A small link-layer protocol engine for unreliable byte-oriented serial
//! transports: COBS framing, CRC-16/X.25 integrity, and a stop-and-wait
//! automatic-repeat-request layer with two-colour duplicate detection.
//!
//! The engine is driven by non-blocking tick calls. The host performs the
//! actual byte I/O: `run_tx` says which byte to write next, `run_rx` consumes
//! one received byte, and delivered payloads come back as return values.

pub mod checksum;
pub mod cobs;
pub mod engine;
pub mod frame;
pub mod laws;

pub use checksum::Checksum;
pub use engine::Error;
pub use engine::Illyria;
pub use engine::WaitingForAckNack;
pub use frame::Colour;
