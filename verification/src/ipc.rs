//! Inter-process communication between instrument processes and the hub:
//! the binary frame protocol, the message payloads and the discovery paths.
pub mod discovery;
pub mod hub;
pub mod protocol;
pub mod types;
