//! A minimal client-side implementation of the D-Bus wire protocol over a
//! local stream socket: a type-directed serializer/deserializer for D-Bus
//! values, message framing (preamble, header array, padded body), and the
//! signature-checked typed method-call surface.  The socket itself is owned
//! by the caller; this crate only produces and consumes byte buffers.

pub mod dbus;
pub mod message;
pub mod proxy;
pub mod serialize;
pub mod utils;
