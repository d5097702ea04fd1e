//! A small HTTP/1.x request engine: address resolution, request
//! serialization and the decisions of one request/response exchange,
//! with the socket work left to the caller.

pub mod address;
pub mod error;
pub mod exchange;
pub mod laws;
pub mod request;
pub mod wire;
