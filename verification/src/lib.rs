//! An HTTP/2 protocol engine: frame codec, stream state machines,
//! flow-control windows and the connection multiplexer that ties them
//! together. Every function carries a contract over a mathematical model
//! of the wire format and of the protocol state.

pub mod conn;
pub mod control;
pub mod decoder;
pub mod error;
pub mod flow;
pub mod frame;
pub mod model;
pub mod state;
pub mod stream;
