//! A textual HTTP/1.1 message codec.
//!
//! The codec turns a raw byte stream into a structured request or response
//! (method, target or status, version, headers, body) and renders a
//! structured message back into wire bytes.  Line scanning works one byte at
//! a time under a bounded buffer; start lines and header fields follow a
//! strict but minimal grammar; serialization is the exact inverse, rendering
//! canonical wire bytes.

pub mod ascii;
pub mod errors;
pub mod headers;
pub mod http_text;
pub mod laws;
pub mod message;
pub mod method;
pub mod source;
pub mod stream_builder;
pub mod streamable;
pub mod text;
pub mod version;

pub use stream_builder::RequestStreamBuilder;
pub use stream_builder::ResponseStreamBuilder;
pub use stream_builder::StreamBuilder;
pub use streamable::Streamable;
