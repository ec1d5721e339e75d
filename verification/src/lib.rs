//! A verified core for bridging Videohub Ethernet Control Protocol clients to
//! pluggable routing backends: the streaming wire codec, the message model,
//! and the pure state logic of the client and server session engines.
pub mod text;
pub mod wire;
pub mod model;
pub mod writer;
pub mod parser;
pub mod laws;
pub mod codec;
pub mod matrix;
pub mod dummy;
pub mod frontend;
pub mod client;
pub mod ndi;
