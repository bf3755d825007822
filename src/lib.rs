//! Client side of a cluster "exec" WebSocket session: the verified request
//! builder for the exec subresource and the frame-handling state machine
//! that drives an open session.

pub mod encoding;
pub mod request;
pub mod session;
