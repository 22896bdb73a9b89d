//! Client-side decoder for a chat-completion event stream: reassembles raw
//! byte chunks into blank-line-terminated events, parses each `data` payload
//! as JSON, and yields the incremental content fragments in order.
pub mod text;
pub mod request;
pub mod json;
pub mod event;
pub mod sse;
pub mod decoder;

pub use decoder::{Decoder, StreamError};
pub use request::{bearer_header, ChatMessage, InvalidCredential};
pub use sse::ErrorKind;
