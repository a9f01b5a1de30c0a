//! Streams that arrive over `WirelessHART`. One command's data is one
//! Stream: a device's published variable as it comes, or a Stream the
//! device holds, read back a chunk at a time — the HART commands, carried
//! over the air.
//!
//! `WirelessHART` (IEC 62591) is HART without the wire: 802.15.4 radios in
//! a time-slotted, channel-hopping mesh, a gateway at its edge, and the
//! HART command set unchanged above it. What is here is the DLPDU with its
//! TDMA slot, the network and transport layers that carry aggregated
//! commands, the gateway's side of an exchange, and the loopback air whose
//! slots a gateway and a device share. The device itself and the radio that
//! carries the frames are the caller's. The origin URI names the radio and
//! the device: `whart://loopback/0001?command=131`.
pub mod bytes;
pub mod conversation;
pub mod crc;
pub mod dlpdu;
pub mod error;
pub mod exchange;
pub mod gateway;
pub mod loopback;
pub mod npdu;
pub mod round;
pub mod tdma;
pub mod text;

pub use dlpdu::{Dlpdu, Kind};
pub use error::WirelessHartError;
pub use gateway::{WirelessHartTransport, MAX_CHUNK};
pub use loopback::LoopbackRadio;
pub use npdu::{Command, Npdu};
pub use tdma::{Direction, Superframe};
