
pub mod cobs;
pub mod crc;
pub mod emulator;
pub mod error;
pub mod frame;
pub mod hvec;
pub mod protocol;
pub mod transport;
