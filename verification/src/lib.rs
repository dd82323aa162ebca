//! Wire-protocol decoding core of an HTTP/1.x (+WebSocket) server.
//!
//! The library is organised around a chunk-based byte stream abstraction with
//! a one-slot pushback buffer. On top of it sit an incremental request-header
//! reader, two request-body decoders (multipart/form-data and urlencoded),
//! and a WebSocket frame codec.

pub mod cookie;
pub mod forms;
pub mod frame;
pub mod headers;
pub mod laws;
pub mod multipart;
pub mod num;
pub mod parser;
pub mod path;
pub mod response;
pub mod scan;
pub mod server;
pub mod shortcuts;
pub mod stream;
pub mod textenc;
pub mod urlencoded;
pub mod websocket;
