//! Per-connection streaming relay between a websocket client and a chat
//! generation backend: conversation decoding, frame handling decisions and the
//! order-preserving relay of backend fragments.
pub mod conversation;
pub mod connection;
pub mod relay;
