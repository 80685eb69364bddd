pub mod codec;
pub mod connection;
pub mod guarantees;
pub mod handshake;
pub mod registry;
