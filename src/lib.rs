//! Framing and register protocol for talking to a device over a byte
//! stream: fixed-capacity rings of bytes, COBS byte stuffing, CRC-16/DNP
//! checksums, frame encoding and decoding, register payloads, and the
//! decisions of the host's receiver and of its blocking register client.
pub mod binarycom;
pub mod circbuf;
pub mod cobs;
pub mod cobs_redo;
pub mod crc;
pub mod error;
