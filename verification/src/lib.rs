//! Validation engine for hardware-token one-time passwords.
//!
//! A token emits a 44-character OTP: a 12-character public identifier
//! followed by a 32-character modhex encoding of an AES-encrypted 16-byte
//! record. This crate holds the credential store, the modhex codec, the
//! checksum validator, the record parser, and the anti-replay validation
//! engine. All file handling (locking, reading, writing) is left to the
//! caller; the store works on line content handed in and out as values.

pub mod config;
pub mod crc;
pub mod errors;
pub mod hexcodec;
pub mod laws;
pub mod modhex;
pub mod text;
pub mod yubikey;
