//! An HTTP/1.x connection core: byte buffers, head parsing, body framing and
//! the per-connection state machine, with no I/O of its own.
//!
//! - `buffer`: the byte FIFO that both directions of a connection run over.
//! - `chars`, `head`: the bytes of the grammar, and message heads.
//! - `parse`, `wire`: heads from bytes, and bytes from heads.
//! - `decode`, `encode`, `framing`: bodies from bytes and bytes from
//!   bodies, and which of them a head calls for.
//! - `frame`, `conn`, `client`: the connection, on the server's side and on
//!   the client's, and what it exchanges with the code above it.
//! - `body`, `request`, `response`: messages as a service sees them.
//! - `roundtrip`, `bodies`, `laws`: what is proved of all of these together.

pub mod bodies;
pub mod body;
pub mod buffer;
pub mod chars;
pub mod client;
pub mod conn;
pub mod decode;
pub mod encode;
pub mod error;
pub mod frame;
pub mod framing;
pub mod head;
pub mod laws;
pub mod parse;
pub mod request;
pub mod response;
pub mod roundtrip;
pub mod wire;
