//! The tamal ABI shared by the host tooling and the gateware.
pub mod cobs;
pub mod config;
pub mod crc8;
pub mod isa;
pub mod trace;
pub mod wire;
