//! Serial-protocol bridge between incompatible arcade cabinet peripherals.
//!
//! The library holds the verified core: the byte-stuffing and framing codec
//! shared by all links, the two packet families, the touch-area remapper,
//! the JVS digital-input decoder, the key-state deduplicating sink and the
//! card-reader helpers. Port I/O, threads and OS calls live outside it.

pub mod codec;
pub mod packets;
pub mod touch;
pub mod keyboard;
pub mod card_reader;
pub mod config;
pub mod jvs;

pub use codec::bit_read;
