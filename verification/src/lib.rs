//! The verified core of a reliable byte stream over UDP.
//!
//! Bytes that an application writes are cut into numbered packets, kept until
//! they are acknowledged, put back in order at the other end and read out there.
//! The core decides and moves bytes; clocks, sockets and rates are its caller's.

pub mod byte_queue;
pub mod call_laws;
pub mod handshake;
pub mod laws;
pub mod packet_recv_space;
pub mod packet_send_space;
pub mod rate;
pub mod receiver_laws;
pub mod reliable_layer;
pub mod sender_laws;
pub mod transport;
