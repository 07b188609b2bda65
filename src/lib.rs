//! A Modbus server engine: an in-memory register context of four banks, and a frame processor
//! that decodes TCP/UDP or RTU requests, reads or writes the context, and encodes the replies.

pub mod crc;
pub mod context;
pub mod server;
