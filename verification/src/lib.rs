//! The data plane of a relay for connections that look like TLS.
//!
//! `codec` cuts a byte stream into whole TLS records, over the wire model in
//! `framing`. `unwrap` and `passthrough` are the two relay strategies, as
//! state machines that are told what the transport did and answer with the
//! bytes to send. `length_prefix` and `xor` are small readers and transforms
//! for the parsers around them, and `buffers` states what is assumed of the
//! byte containers that come from outside.

pub mod buffers;
pub mod codec;
pub mod framing;
pub mod length_prefix;
pub mod passthrough;
pub mod relay;
pub mod unwrap;
pub mod xor;
