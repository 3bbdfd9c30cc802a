//! Client library for a serial bootloader: checksum, frame and command packet
//! codecs, firmware chunking, and the decision logic of the reliable transport,
//! the magic handshake and the device scan.
pub mod crc;
pub mod frame;
pub mod dynamixel;
pub mod link;
pub mod bootloader;
