//! Wire codec for an MQTT-style publish/subscribe protocol.
//!
//! The library encodes in-memory control packets into bytes and decodes
//! received byte buffers back into packets.  Every packet is framed by a
//! fixed header (one type/flags byte followed by a base-128 variable-length
//! "remaining length") and carries a type-specific variable header and
//! payload.  Encoding and decoding are pure functions of the packet value
//! and the byte buffer; all socket handling belongs to the caller.

use vstd::prelude::*;

pub mod proto;

pub use proto::reader::Readable;
pub use proto::reader::ReaderError;
pub use proto::writer::Writable;
pub use proto::writer::WriterError;
pub use proto::ConnectReturnCode;
pub use proto::Message;
pub use proto::Packet;
pub use proto::PacketId;
pub use proto::Payload;
pub use proto::QoS;
pub use proto::SubackReturnCode;
pub use proto::Topic;

verus! {

/// Failure of the request/response conversation around the codec,
/// carrying a human-readable description.
#[derive(Debug)]
pub struct MqttError(pub String);

} // verus!
