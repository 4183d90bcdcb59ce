//! Command framing and link security for a hub that bridges a web front end
//! to ESP-NOW stations: AES-CCM sealing of command packets with replay
//! protection, HTTP request classification, the WebSocket handshake answer
//! and WebSocket frame decoding.
pub mod bytes;
pub mod enums;
pub mod nonce;
pub mod packet;
pub mod aesccm;
pub mod networking;
pub mod handshake;
pub mod config;
pub mod station;
