//! Core of a peer-to-peer voice chat engine: voice-activity-gated
//! capture, a sequenced UDP voice packet format with an out-of-order
//! reorder buffer, a paced playback step, and an encrypted signaling
//! relay for peer discovery and key exchange.
pub mod audio;
pub mod capture;
pub mod cipher;
pub mod peer;
pub mod playback;
pub mod signaling_client;
pub mod signaling_server;
pub mod textenc;
pub mod wire;
