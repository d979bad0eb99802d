//! A sans-I/O HTTP/1.x client codec.
//!
//! The library serializes outgoing HTTP requests into caller-sized byte
//! buffers and parses incoming responses and bodies. It performs no network
//! I/O and owns no transport: the caller feeds bytes in and drains bytes out,
//! which makes the codec embeddable in any I/O model.

use vstd::prelude::*;

pub mod ascii;
pub mod body;
pub mod client;
pub mod error;
pub mod header;
pub mod out;
pub mod recv;
pub mod send;
pub mod request;

verus! {

pub use client::{Call, Framing, RecvBody, RecvResponse, WithBody, WithoutBody};
pub use error::{HootError, Result};
pub use request::{Method, Request, Version};
pub use recv::{BodyPart, Response};

} // verus!
