//! The packet model: one variant per protocol control message, with the
//! enumerations and small value types its fields use, and the spec-level
//! views (`PacketV`, `MessageV`) that the codec contracts are stated over.

use vstd::prelude::*;
use vstd::string::StrSliceExecFns;

pub mod laws;
pub mod reader;
pub mod wire;
pub mod writer;

verus! {

/// Delivery-guarantee level of a published message or of a subscription.
#[derive(Clone, Copy, Debug, PartialEq, Eq, Structural)]
pub enum QoS {
    QoS0,
    QoS1,
    QoS2,
}

impl QoS {
    /// The numeric wire value of this level: 0, 1 or 2.
    pub open spec fn as_num(self) -> u8 {
        match self {
            QoS::QoS0 => 0,
            QoS::QoS1 => 1,
            QoS::QoS2 => 2,
        }
    }

    /// Numeric wire value of this level.
    pub fn to_u8(self) -> (r: u8)
        ensures
            r == self.as_num(),
    {
        match self {
            QoS::QoS0 => 0,
            QoS::QoS1 => 1,
            QoS::QoS2 => 2,
        }
    }

    /// The level a byte denotes: only 0, 1 and 2 are levels.
    pub open spec fn spec_from_u8(b: u8) -> Option<QoS> {
        if b == 0 {
            Some(QoS::QoS0)
        } else if b == 1 {
            Some(QoS::QoS1)
        } else if b == 2 {
            Some(QoS::QoS2)
        } else {
            None
        }
    }

    /// Maps a byte to its level; `None` for any byte above 2.
    pub fn from_u8(b: u8) -> (r: Option<QoS>)
        ensures
            r == Self::spec_from_u8(b),
    {
        if b == 0 {
            Some(QoS::QoS0)
        } else if b == 1 {
            Some(QoS::QoS1)
        } else if b == 2 {
            Some(QoS::QoS2)
        } else {
            None
        }
    }
}

/// Result of a connection attempt, as reported inside CONNACK.
#[derive(Clone, Copy, Debug, PartialEq, Eq, Structural)]
pub enum ConnectReturnCode {
    Accepted,
    RefusedProto,
    RefusedId,
    RefusedUnavailable,
    RefusedLogin,
    RefusedAuth,
}

impl ConnectReturnCode {
    /// The numeric wire value: 0 through 5 in declaration order.
    pub open spec fn as_num(self) -> u8 {
        match self {
            ConnectReturnCode::Accepted => 0,
            ConnectReturnCode::RefusedProto => 1,
            ConnectReturnCode::RefusedId => 2,
            ConnectReturnCode::RefusedUnavailable => 3,
            ConnectReturnCode::RefusedLogin => 4,
            ConnectReturnCode::RefusedAuth => 5,
        }
    }

    /// Numeric wire value of this code.
    pub fn to_u8(self) -> (r: u8)
        ensures
            r == self.as_num(),
    {
        match self {
            ConnectReturnCode::Accepted => 0,
            ConnectReturnCode::RefusedProto => 1,
            ConnectReturnCode::RefusedId => 2,
            ConnectReturnCode::RefusedUnavailable => 3,
            ConnectReturnCode::RefusedLogin => 4,
            ConnectReturnCode::RefusedAuth => 5,
        }
    }

    /// The code a byte denotes; bytes above 5 denote none.
    pub open spec fn spec_from_u8(b: u8) -> Option<ConnectReturnCode> {
        if b == 0 {
            Some(ConnectReturnCode::Accepted)
        } else if b == 1 {
            Some(ConnectReturnCode::RefusedProto)
        } else if b == 2 {
            Some(ConnectReturnCode::RefusedId)
        } else if b == 3 {
            Some(ConnectReturnCode::RefusedUnavailable)
        } else if b == 4 {
            Some(ConnectReturnCode::RefusedLogin)
        } else if b == 5 {
            Some(ConnectReturnCode::RefusedAuth)
        } else {
            None
        }
    }

    /// Maps a byte to its code; `None` for any byte above 5.
    pub fn from_u8(b: u8) -> (r: Option<ConnectReturnCode>)
        ensures
            r == Self::spec_from_u8(b),
    {
        if b == 0 {
            Some(ConnectReturnCode::Accepted)
        } else if b == 1 {
            Some(ConnectReturnCode::RefusedProto)
        } else if b == 2 {
            Some(ConnectReturnCode::RefusedId)
        } else if b == 3 {
            Some(ConnectReturnCode::RefusedUnavailable)
        } else if b == 4 {
            Some(ConnectReturnCode::RefusedLogin)
        } else if b == 5 {
            Some(ConnectReturnCode::RefusedAuth)
        } else {
            None
        }
    }
}

/// Per-filter result inside SUBACK: the granted level, or failure (0x80).
#[derive(Clone, Copy, Debug, PartialEq, Eq, Structural)]
pub enum SubackReturnCode {
    QoS0,
    QoS1,
    QoS2,
    Failure,
}

impl SubackReturnCode {
    /// The numeric wire value: 0, 1, 2, or 0x80 for failure.
    pub open spec fn as_num(self) -> u8 {
        match self {
            SubackReturnCode::QoS0 => 0,
            SubackReturnCode::QoS1 => 1,
            SubackReturnCode::QoS2 => 2,
            SubackReturnCode::Failure => 0x80,
        }
    }

    /// Numeric wire value of this code.
    pub fn to_u8(self) -> (r: u8)
        ensures
            r == self.as_num(),
    {
        match self {
            SubackReturnCode::QoS0 => 0,
            SubackReturnCode::QoS1 => 1,
            SubackReturnCode::QoS2 => 2,
            SubackReturnCode::Failure => 0x80,
        }
    }

    /// The code a byte denotes; anything outside {0, 1, 2, 0x80} denotes none.
    pub open spec fn spec_from_u8(b: u8) -> Option<SubackReturnCode> {
        if b == 0 {
            Some(SubackReturnCode::QoS0)
        } else if b == 1 {
            Some(SubackReturnCode::QoS1)
        } else if b == 2 {
            Some(SubackReturnCode::QoS2)
        } else if b == 0x80 {
            Some(SubackReturnCode::Failure)
        } else {
            None
        }
    }

    /// Maps a byte to its code; `None` outside {0, 1, 2, 0x80}.
    pub fn from_u8(b: u8) -> (r: Option<SubackReturnCode>)
        ensures
            r == Self::spec_from_u8(b),
    {
        if b == 0 {
            Some(SubackReturnCode::QoS0)
        } else if b == 1 {
            Some(SubackReturnCode::QoS1)
        } else if b == 2 {
            Some(SubackReturnCode::QoS2)
        } else if b == 0x80 {
            Some(SubackReturnCode::Failure)
        } else {
            None
        }
    }
}

/// A UTF-8 channel name.  On the wire it is length-prefixed, so its UTF-8
/// encoding must fit in 16 bits for the packet holding it to be encodable.
#[derive(Clone, Debug)]
pub struct Topic(pub String);

impl View for Topic {
    type V = Seq<char>;

    open spec fn view(&self) -> Seq<char> {
        self.0@
    }
}

impl Topic {
    /// Wraps a borrowed string as a topic.
    pub fn new(str: &str) -> (r: Topic)
        ensures
            r@ == str@,
    {
        Topic(str.to_owned())
    }

    /// Wraps an owned string as a topic.
    pub fn new_owned(str: String) -> (r: Topic)
        ensures
            r@ == str@,
    {
        Topic(str)
    }

    /// The topic's text.
    pub fn to_string(&self) -> (r: String)
        ensures
            r@ == self@,
    {
        self.0.as_str().to_owned()
    }
}

/// 16-bit identifier correlating a request with its acknowledgment.
#[derive(Clone, Copy, Debug, PartialEq, Eq, Structural)]
pub struct PacketId(pub u16);

/// The application bytes carried by a PUBLISH message.
#[derive(Clone, Debug)]
pub struct Payload(pub Vec<u8>);

impl View for Payload {
    type V = Seq<u8>;

    open spec fn view(&self) -> Seq<u8> {
        self.0@
    }
}

impl Payload {
    /// Copies borrowed bytes into a payload.
    pub fn new(buf: &[u8]) -> (r: Payload)
        ensures
            r@ == buf@,
    {
        Payload(vstd::slice::slice_to_vec(buf))
    }

    /// Takes the UTF-8 bytes of a string as a payload.
    pub fn new_str(str: &str) -> (r: Payload)
        ensures
            r@ == vstd::utf8::encode_utf8(str@),
    {
        Payload(str.as_bytes_vec())
    }

    /// Wraps owned bytes as a payload.
    pub fn new_owned(buf: Vec<u8>) -> (r: Payload)
        ensures
            r@ == buf@,
    {
        Payload(buf)
    }

    /// The payload's bytes.
    pub fn bytes(&self) -> (r: &Vec<u8>)
        ensures
            r@ == self@,
    {
        &self.0
    }
}

/// The application-level unit carried by PUBLISH: a topic, the message
/// bytes, the delivery level asked for, and the retain flag.
#[derive(Clone, Debug)]
pub struct Message {
    pub topic: Topic,
    pub payload: Payload,
    pub qos: QoS,
    pub retain: bool,
}

/// Spec-level image of a [`Message`].
#[verifier::ext_equal]
pub struct MessageV {
    pub topic: Seq<char>,
    pub payload: Seq<u8>,
    pub qos: QoS,
    pub retain: bool,
}

impl View for Message {
    type V = MessageV;

    open spec fn view(&self) -> MessageV {
        MessageV { topic: self.topic@, payload: self.payload@, qos: self.qos, retain: self.retain }
    }
}

/// One control packet: a closed union with one variant per protocol
/// message type, holding that type's fields.
#[derive(Debug)]
pub enum Packet {
    CONNECT {
        client_id: String,
        username: Option<String>,
        password: Option<Vec<u8>>,
        will: Option<Message>,
        clean_session: bool,
        keep_alive: u16,
    },
    CONNACK { session_present: bool, return_code: ConnectReturnCode },
    PUBLISH { dup: bool, message: Message, packet_id: Option<PacketId> },
    PUBACK { packet_id: PacketId },
    PUBREC { packet_id: PacketId },
    PUBREL { packet_id: PacketId },
    PUBCOMP { packet_id: PacketId },
    SUBSCRIBE { packet_id: PacketId, topic_filters: Vec<(Topic, QoS)> },
    SUBACK { packet_id: PacketId, return_codes: Vec<SubackReturnCode> },
    UNSUBSCRIBE { packet_id: PacketId, topic_filters: Vec<Topic> },
    UNSUBACK { packet_id: PacketId },
    PINGREQ,
    PINGRESP,
    DISCONNECT,
}

/// Spec-level image of a [`Packet`], with sequences for the owned
/// containers and plain integers for the identifiers.
#[verifier::ext_equal]
pub enum PacketV {
    CONNECT {
        client_id: Seq<char>,
        username: Option<Seq<char>>,
        password: Option<Seq<u8>>,
        will: Option<MessageV>,
        clean_session: bool,
        keep_alive: u16,
    },
    CONNACK { session_present: bool, return_code: ConnectReturnCode },
    PUBLISH { dup: bool, message: MessageV, packet_id: Option<u16> },
    PUBACK { packet_id: u16 },
    PUBREC { packet_id: u16 },
    PUBREL { packet_id: u16 },
    PUBCOMP { packet_id: u16 },
    SUBSCRIBE { packet_id: u16, topic_filters: Seq<(Seq<char>, QoS)> },
    SUBACK { packet_id: u16, return_codes: Seq<SubackReturnCode> },
    UNSUBSCRIBE { packet_id: u16, topic_filters: Seq<Seq<char>> },
    UNSUBACK { packet_id: u16 },
    PINGREQ,
    PINGRESP,
    DISCONNECT,
}

/// The spec-level image of an optional string.
pub open spec fn opt_str_view(o: Option<String>) -> Option<Seq<char>> {
    match o {
        Some(s) => Some(s@),
        None => None,
    }
}

/// The spec-level image of an optional byte vector.
pub open spec fn opt_bytes_view(o: Option<Vec<u8>>) -> Option<Seq<u8>> {
    match o {
        Some(b) => Some(b@),
        None => None,
    }
}

/// The spec-level image of an optional message.
pub open spec fn opt_msg_view(o: Option<Message>) -> Option<MessageV> {
    match o {
        Some(m) => Some(m@),
        None => None,
    }
}

/// The spec-level image of a SUBSCRIBE filter list.
pub open spec fn filters_view(v: Seq<(Topic, QoS)>) -> Seq<(Seq<char>, QoS)> {
    v.map_values(|f: (Topic, QoS)| (f.0@, f.1))
}

/// The spec-level image of an UNSUBSCRIBE topic list.
pub open spec fn topics_view(v: Seq<Topic>) -> Seq<Seq<char>> {
    v.map_values(|t: Topic| t@)
}

impl View for Packet {
    type V = PacketV;

    open spec fn view(&self) -> PacketV {
        match self {
            Packet::CONNECT { client_id, username, password, will, clean_session, keep_alive } => PacketV::CONNECT {
                client_id: client_id@,
                username: opt_str_view(*username),
                password: opt_bytes_view(*password),
                will: opt_msg_view(*will),
                clean_session: *clean_session,
                keep_alive: *keep_alive,
            },
            Packet::CONNACK { session_present, return_code } => PacketV::CONNACK {
                session_present: *session_present,
                return_code: *return_code,
            },
            Packet::PUBLISH { dup, message, packet_id } => PacketV::PUBLISH {
                dup: *dup,
                message: message@,
                packet_id: match packet_id {
                    Some(pid) => Some(pid.0),
                    None => None,
                },
            },
            Packet::PUBACK { packet_id } => PacketV::PUBACK { packet_id: packet_id.0 },
            Packet::PUBREC { packet_id } => PacketV::PUBREC { packet_id: packet_id.0 },
            Packet::PUBREL { packet_id } => PacketV::PUBREL { packet_id: packet_id.0 },
            Packet::PUBCOMP { packet_id } => PacketV::PUBCOMP { packet_id: packet_id.0 },
            Packet::SUBSCRIBE { packet_id, topic_filters } => PacketV::SUBSCRIBE {
                packet_id: packet_id.0,
                topic_filters: filters_view(topic_filters@),
            },
            Packet::SUBACK { packet_id, return_codes } => PacketV::SUBACK {
                packet_id: packet_id.0,
                return_codes: return_codes@,
            },
            Packet::UNSUBSCRIBE { packet_id, topic_filters } => PacketV::UNSUBSCRIBE {
                packet_id: packet_id.0,
                topic_filters: topics_view(topic_filters@),
            },
            Packet::UNSUBACK { packet_id } => PacketV::UNSUBACK { packet_id: packet_id.0 },
            Packet::PINGREQ => PacketV::PINGREQ,
            Packet::PINGRESP => PacketV::PINGRESP,
            Packet::DISCONNECT => PacketV::DISCONNECT,
        }
    }
}

} // verus!
