//! An HTTP/1.1 message parser and serializer, and the decisions of a
//! reverse proxy built on it: routing, body framing, reading a header block
//! in pieces, forwarding and error replies.
pub mod scan;
pub mod text;
pub mod message;
pub mod parse;
pub mod status;
pub mod wire;
pub mod laws;
pub mod proxy;
pub mod body;
pub mod relay;

pub use body::{BodyFraming, FramingError};
pub use message::{HTTPMethod, HTTPParseError, HTTPVersion, Headers, Request, Response};
pub use proxy::{ProxyEntry, Server, ServerConfig};
pub use relay::{
    BodyRelay, BodyRelayError, ChunkedScanner, HeaderReadAction, HeaderReadError, HeaderReader, ProxyError,
    RelayAction,
};
pub use scan::is_terminated;
