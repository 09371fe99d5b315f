//! Encoding and decoding of the wire protocol spoken with an OpenPGP smart card:
//! command packets (APDUs), card replies with their status words, and BER-TLV
//! data objects.
pub mod apdus;
mod bytes;
pub mod exchange;
pub mod errors;
pub mod response;
pub mod tlvs;
