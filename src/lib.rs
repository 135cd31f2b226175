//! A client for the PAN-OS XML API: the key generation handshake and the
//! decoding of the response envelope that every reply carries.
pub mod api;
