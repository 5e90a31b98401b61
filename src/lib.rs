//! Login gateway for the Minecraft Java Edition protocol: the wire codec,
//! the packet model, the cryptographic login handshake and the per-connection
//! state machine.
pub mod varint;
pub mod frame;
pub mod packets;
pub mod crypto;
pub mod login;
pub mod server_list;
pub mod connection;
