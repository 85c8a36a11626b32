//! The server side: queries as handlers see them, and the framing of
//! messages on TCP connections.
pub mod handler;
pub mod tcp;
