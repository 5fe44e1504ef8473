//! Spec-level description of the wire format: what byte sequence each
//! packet encodes to, and what packet (or decode error) a byte sequence
//! parses to.  The executable writer and reader are verified against these
//! functions, and the round-trip laws in [`crate::proto::laws`] relate the
//! two directions.
//!
//! Bit packing is written arithmetically: a field stored in bits `k` and
//! up of a byte `b` contributes `value * 2^k` when packing and is read
//! back as `(b / 2^k) % 2^width`.

use vstd::prelude::*;

use crate::proto::reader::ReaderError;
use crate::proto::ConnectReturnCode;
use crate::proto::MessageV;
use crate::proto::PacketV;
use crate::proto::QoS;
use crate::proto::SubackReturnCode;
use vstd::utf8::decode_utf8;
use vstd::utf8::encode_utf8;
use vstd::utf8::valid_utf8;

verus! {

/// Largest value the remaining-length varint can carry: 2^28 - 1,
/// i.e. four encoded bytes of seven value bits each.
pub const VARINT_MAX: usize = 268435455;

/// Largest byte count a 2-byte length prefix can declare.
pub const LEN_MAX: usize = 65535;

// ---------------------------------------------------------------------
// Encoding
// ---------------------------------------------------------------------

/// A 16-bit value as two big-endian bytes.
pub open spec fn be16(n: int) -> Seq<u8>
    recommends
        0 <= n <= LEN_MAX,
{
    seq![(n / 256) as u8, (n % 256) as u8]
}

/// Base-128 encoding of `n`, least-significant group first, the high bit
/// of each byte flagging a continuation.
pub open spec fn varint(n: int) -> Seq<u8>
    recommends
        n >= 0,
    decreases n,
{
    if n < 128 {
        seq![n as u8]
    } else {
        seq![(n % 128 + 128) as u8] + varint(n / 128)
    }
}

/// Bytes preceded by their 2-byte big-endian count.
pub open spec fn len_pref(b: Seq<u8>) -> Seq<u8>
    recommends
        b.len() <= LEN_MAX,
{
    be16(b.len() as int) + b
}

/// The CONNECT flags byte: bit 1 clean session, bit 2 will present,
/// bits 3-4 will level, bit 5 will retain, bit 6 password present,
/// bit 7 username present.
pub open spec fn connect_flags(
    clean_session: bool,
    will: Option<MessageV>,
    has_password: bool,
    has_username: bool,
) -> u8 {
    ((if clean_session {
        2int
    } else {
        0int
    }) + (match will {
        Some(w) => 4 + w.qos.as_num() * 8 + (if w.retain {
            32int
        } else {
            0int
        }),
        None => 0int,
    }) + (if has_password {
        64int
    } else {
        0int
    }) + (if has_username {
        128int
    } else {
        0int
    })) as u8
}

/// The 4-bit packet-type code: 1 for CONNECT through 14 for DISCONNECT.
pub open spec fn type_code(pv: PacketV) -> u8 {
    match pv {
        PacketV::CONNECT { .. } => 1,
        PacketV::CONNACK { .. } => 2,
        PacketV::PUBLISH { .. } => 3,
        PacketV::PUBACK { .. } => 4,
        PacketV::PUBREC { .. } => 5,
        PacketV::PUBREL { .. } => 6,
        PacketV::PUBCOMP { .. } => 7,
        PacketV::SUBSCRIBE { .. } => 8,
        PacketV::SUBACK { .. } => 9,
        PacketV::UNSUBSCRIBE { .. } => 10,
        PacketV::UNSUBACK { .. } => 11,
        PacketV::PINGREQ => 12,
        PacketV::PINGRESP => 13,
        PacketV::DISCONNECT => 14,
    }
}

/// The 4-bit flags nibble of the fixed header: for PUBLISH, retain in
/// bit 0, level in bits 1-2 and dup in bit 3; the protocol-mandated
/// `0b0010` for PUBREL, SUBSCRIBE and UNSUBSCRIBE; 0 elsewhere.
pub open spec fn flags_nibble(pv: PacketV) -> u8 {
    match pv {
        PacketV::PUBLISH { dup, message, .. } => ((if message.retain {
            1int
        } else {
            0int
        }) + message.qos.as_num() * 2 + (if dup {
            8int
        } else {
            0int
        })) as u8,
        PacketV::PUBREL { .. } => 2,
        PacketV::SUBSCRIBE { .. } => 2,
        PacketV::UNSUBSCRIBE { .. } => 2,
        _ => 0,
    }
}

/// The 7-byte preamble of a CONNECT variable header: the length-prefixed
/// protocol name "MQTT" and the protocol level 4.
pub open spec fn connect_preamble() -> Seq<u8> {
    seq![0u8, 4u8, 0x4Du8, 0x51u8, 0x54u8, 0x54u8, 4u8]
}

/// The variable header: the type-specific fields that follow the fixed
/// header and precede the payload.
pub open spec fn var_header(pv: PacketV) -> Seq<u8> {
    match pv {
        PacketV::CONNECT { username, password, will, clean_session, keep_alive, .. } => connect_preamble()
            + seq![connect_flags(clean_session, will, password is Some, username is Some)]
            + be16(keep_alive as int),
        PacketV::CONNACK { session_present, return_code } => seq![
            (if session_present {
                1u8
            } else {
                0u8
            }),
            return_code.as_num(),
        ],
        PacketV::PUBLISH { message, packet_id, .. } => len_pref(encode_utf8(message.topic)) + (match packet_id {
            Some(pid) => if message.qos != QoS::QoS0 {
                be16(pid as int)
            } else {
                Seq::<u8>::empty()
            },
            None => Seq::<u8>::empty(),
        }),
        PacketV::PUBACK { packet_id } => be16(packet_id as int),
        PacketV::PUBREC { packet_id } => be16(packet_id as int),
        PacketV::PUBREL { packet_id } => be16(packet_id as int),
        PacketV::PUBCOMP { packet_id } => be16(packet_id as int),
        PacketV::SUBSCRIBE { packet_id, .. } => be16(packet_id as int),
        PacketV::SUBACK { packet_id, .. } => be16(packet_id as int),
        PacketV::UNSUBSCRIBE { packet_id, .. } => be16(packet_id as int),
        PacketV::UNSUBACK { packet_id } => be16(packet_id as int),
        PacketV::PINGREQ => Seq::<u8>::empty(),
        PacketV::PINGRESP => Seq::<u8>::empty(),
        PacketV::DISCONNECT => Seq::<u8>::empty(),
    }
}

/// The payload bytes of one SUBSCRIBE filter: length-prefixed topic,
/// then the requested level as one byte.
pub open spec fn filter_bytes(f: (Seq<char>, QoS)) -> Seq<u8> {
    len_pref(encode_utf8(f.0)) + seq![f.1.as_num()]
}

/// The SUBSCRIBE payload: the filters' bytes in order.
pub open spec fn subscribe_payload(fs: Seq<(Seq<char>, QoS)>) -> Seq<u8>
    decreases fs.len(),
{
    if fs.len() == 0 {
        Seq::<u8>::empty()
    } else {
        filter_bytes(fs[0]) + subscribe_payload(fs.skip(1))
    }
}

/// The UNSUBSCRIBE payload: the length-prefixed topics in order.
pub open spec fn unsubscribe_payload(ts: Seq<Seq<char>>) -> Seq<u8>
    decreases ts.len(),
{
    if ts.len() == 0 {
        Seq::<u8>::empty()
    } else {
        len_pref(encode_utf8(ts[0])) + unsubscribe_payload(ts.skip(1))
    }
}

/// The filters' payload distributes over concatenation of filter lists.
pub proof fn lemma_subscribe_payload_concat(a: Seq<(Seq<char>, QoS)>, b: Seq<(Seq<char>, QoS)>)
    ensures
        subscribe_payload(a + b) == subscribe_payload(a) + subscribe_payload(b),
    decreases a.len(),
{
    if a.len() == 0 {
        assert(a + b =~= b);
        assert(subscribe_payload(a) + subscribe_payload(b) =~= subscribe_payload(b));
    } else {
        assert((a + b).skip(1) =~= a.skip(1) + b);
        lemma_subscribe_payload_concat(a.skip(1), b);
        assert(subscribe_payload(a + b) =~= subscribe_payload(a) + subscribe_payload(b));
    }
}

/// The topics' payload distributes over concatenation of topic lists.
pub proof fn lemma_unsubscribe_payload_concat(a: Seq<Seq<char>>, b: Seq<Seq<char>>)
    ensures
        unsubscribe_payload(a + b) == unsubscribe_payload(a) + unsubscribe_payload(b),
    decreases a.len(),
{
    if a.len() == 0 {
        assert(a + b =~= b);
        assert(unsubscribe_payload(a) + unsubscribe_payload(b) =~= unsubscribe_payload(b));
    } else {
        assert((a + b).skip(1) =~= a.skip(1) + b);
        lemma_unsubscribe_payload_concat(a.skip(1), b);
        assert(unsubscribe_payload(a + b) =~= unsubscribe_payload(a) + unsubscribe_payload(b));
    }
}

/// Appending one filter appends its bytes.
pub proof fn lemma_subscribe_payload_push(s: Seq<(Seq<char>, QoS)>, x: (Seq<char>, QoS))
    ensures
        subscribe_payload(s.push(x)) == subscribe_payload(s) + filter_bytes(x),
{
    lemma_subscribe_payload_concat(s, seq![x]);
    assert(s.push(x) =~= s + seq![x]);
    assert(subscribe_payload(seq![x]) =~= filter_bytes(x) + subscribe_payload(seq![x].skip(1)));
    assert(subscribe_payload(seq![x]) =~= filter_bytes(x));
}

/// Appending one topic appends its length-prefixed bytes.
pub proof fn lemma_unsubscribe_payload_push(s: Seq<Seq<char>>, x: Seq<char>)
    ensures
        unsubscribe_payload(s.push(x)) == unsubscribe_payload(s) + len_pref(encode_utf8(x)),
{
    lemma_unsubscribe_payload_concat(s, seq![x]);
    assert(s.push(x) =~= s + seq![x]);
    assert(unsubscribe_payload(seq![x]) =~= len_pref(encode_utf8(x)) + unsubscribe_payload(
        seq![x].skip(1),
    ));
    assert(unsubscribe_payload(seq![x]) =~= len_pref(encode_utf8(x)));
}

/// The payload: the type-specific trailing data.
pub open spec fn payload_bytes(pv: PacketV) -> Seq<u8> {
    match pv {
        PacketV::CONNECT { client_id, username, password, will, .. } => len_pref(
            encode_utf8(client_id),
        ) + (match will {
            Some(w) => len_pref(encode_utf8(w.topic)) + len_pref(w.payload),
            None => Seq::<u8>::empty(),
        }) + (match username {
            Some(u) => len_pref(encode_utf8(u)),
            None => Seq::<u8>::empty(),
        }) + (match password {
            Some(p) => len_pref(p),
            None => Seq::<u8>::empty(),
        }),
        PacketV::PUBLISH { message, .. } => message.payload,
        PacketV::SUBSCRIBE { topic_filters, .. } => subscribe_payload(topic_filters),
        PacketV::SUBACK { return_codes, .. } => return_codes.map_values(|c: SubackReturnCode| c.as_num()),
        PacketV::UNSUBSCRIBE { topic_filters, .. } => unsubscribe_payload(topic_filters),
        _ => Seq::<u8>::empty(),
    }
}

/// Variable header and payload together: what the remaining-length
/// varint counts.
pub open spec fn body_bytes(pv: PacketV) -> Seq<u8> {
    var_header(pv) + payload_bytes(pv)
}

/// The full encoding: type/flags byte, remaining length, then the body.
pub open spec fn wire(pv: PacketV) -> Seq<u8> {
    seq![(type_code(pv) * 16 + flags_nibble(pv)) as u8] + varint(body_bytes(pv).len() as int)
        + body_bytes(pv)
}

/// Whether every length-prefixed field of the packet fits its 2-byte
/// prefix and the body fits the remaining-length varint.  Encoding
/// succeeds exactly on such packets.
pub open spec fn lengths_ok(pv: PacketV) -> bool {
    &&& match pv {
        PacketV::CONNECT { client_id, username, password, will, .. } => {
            &&& encode_utf8(client_id).len() <= LEN_MAX
            &&& match will {
                Some(w) => encode_utf8(w.topic).len() <= LEN_MAX && w.payload.len() <= LEN_MAX,
                None => true,
            }
            &&& match username {
                Some(u) => encode_utf8(u).len() <= LEN_MAX,
                None => true,
            }
            &&& match password {
                Some(p) => p.len() <= LEN_MAX,
                None => true,
            }
        },
        PacketV::PUBLISH { message, .. } => encode_utf8(message.topic).len() <= LEN_MAX,
        PacketV::SUBSCRIBE { topic_filters, .. } => forall|i: int|
            0 <= i < topic_filters.len() ==> #[trigger] encode_utf8(topic_filters[i].0).len()
                <= LEN_MAX,
        PacketV::UNSUBSCRIBE { topic_filters, .. } => forall|i: int|
            0 <= i < topic_filters.len() ==> #[trigger] encode_utf8(topic_filters[i]).len()
                <= LEN_MAX,
        _ => true,
    }
    &&& body_bytes(pv).len() <= VARINT_MAX
}

/// A packet the codec round-trips: its lengths fit, and a PUBLISH
/// carries a packet identifier exactly when its level is above 0.
pub open spec fn wf(pv: PacketV) -> bool {
    &&& lengths_ok(pv)
    &&& match pv {
        PacketV::PUBLISH { message, packet_id, .. } => (message.qos == QoS::QoS0 <==> packet_id is None),
        _ => true,
    }
}

// ---------------------------------------------------------------------
// Parsing
// ---------------------------------------------------------------------

/// The big-endian 16-bit value at the front of `s`, or nothing when
/// fewer than two bytes remain.
pub open spec fn parse_be16(s: Seq<u8>) -> Option<u16> {
    if s.len() < 2 {
        None
    } else {
        Some((s[0] * 256 + s[1]) as u16)
    }
}

/// Varint decoding with `depth` bytes already consumed: reads value
/// groups while the high bit flags a continuation, refusing a fifth
/// byte, and reporting a buffer that ends mid-varint.  Returns the value
/// and the byte count consumed.
pub open spec fn parse_varint_from(s: Seq<u8>, depth: int) -> Result<(int, int), ReaderError>
    decreases 4 - depth,
{
    if depth >= 4 {
        Err(ReaderError::MalformedVarint)
    } else if s.len() == 0 {
        Err(ReaderError::IncompleteMessage)
    } else if s[0] < 128 {
        Ok((s[0] as int, 1))
    } else {
        match parse_varint_from(s.skip(1), depth + 1) {
            Ok((v, c)) => Ok(((s[0] - 128) + 128 * v, c + 1)),
            Err(e) => Err(e),
        }
    }
}

/// The remaining-length varint at the front of `s`.
pub open spec fn parse_varint(s: Seq<u8>) -> Result<(int, int), ReaderError> {
    parse_varint_from(s, 0)
}

/// Exclusive upper bound on a varint value whose first `depth` bytes
/// are already consumed: seven value bits for each byte still allowed.
pub open spec fn varint_bound(depth: int) -> int {
    if depth <= 0 {
        0x10000000
    } else if depth == 1 {
        0x200000
    } else if depth == 2 {
        0x4000
    } else {
        0x80
    }
}

/// A parsed varint is bounded by the bytes it may still read, and
/// consumes between one and `4 - depth` bytes.
pub proof fn lemma_parse_varint_bound(s: Seq<u8>, depth: int)
    requires
        0 <= depth,
    ensures
        parse_varint_from(s, depth) matches Ok(vc) ==> 0 <= vc.0 < varint_bound(depth) && 1 <= vc.1
            <= 4 - depth && vc.1 <= s.len(),
    decreases 4 - depth,
{
    if depth >= 4 || s.len() == 0 || s[0] < 128 {
    } else {
        lemma_parse_varint_bound(s.skip(1), depth + 1);
    }
}

/// A length-prefixed byte run at the front of `s`: the declared bytes
/// and the count consumed.  A missing prefix is a truncated length; a
/// run shorter than declared is an incomplete message.
pub open spec fn parse_len_arr(s: Seq<u8>) -> Result<(Seq<u8>, int), ReaderError> {
    match parse_be16(s) {
        None => Err(ReaderError::TruncatedLength),
        Some(l) => if s.len() < 2 + l {
            Err(ReaderError::IncompleteMessage)
        } else {
            Ok((s.subrange(2, 2 + l), 2 + l))
        },
    }
}

/// A length-prefixed UTF-8 string at the front of `s`.
pub open spec fn parse_len_str(s: Seq<u8>) -> Result<(Seq<char>, int), ReaderError> {
    match parse_len_arr(s) {
        Err(e) => Err(e),
        Ok((b, c)) => if valid_utf8(b) {
            Ok((decode_utf8(b), c))
        } else {
            Err(ReaderError::InvalidUtf8)
        },
    }
}

/// A length-prefixed byte run read only when `present` (a CONNECT flag
/// bit) asks for it.
pub open spec fn parse_opt_arr(present: bool, s: Seq<u8>) -> Result<
    (Option<Seq<u8>>, int),
    ReaderError,
> {
    if !present {
        Ok((None, 0))
    } else {
        match parse_len_arr(s) {
            Err(e) => Err(e),
            Ok((b, c)) => Ok((Some(b), c)),
        }
    }
}

/// A length-prefixed string read only when `present` asks for it.
pub open spec fn parse_opt_str(present: bool, s: Seq<u8>) -> Result<
    (Option<Seq<char>>, int),
    ReaderError,
> {
    if !present {
        Ok((None, 0))
    } else {
        match parse_len_str(s) {
            Err(e) => Err(e),
            Ok((t, c)) => Ok((Some(t), c)),
        }
    }
}

/// The will message of a CONNECT payload: topic then payload, read only
/// when the will flag is set; a will-level byte outside 0..=2 is an
/// invalid level.
pub open spec fn parse_will(present: bool, will_qos: u8, will_retain: bool, s: Seq<u8>) -> Result<
    (Option<MessageV>, int),
    ReaderError,
> {
    if !present {
        Ok((None, 0))
    } else {
        match parse_len_str(s) {
            Err(e) => Err(e),
            Ok((t, c1)) => match parse_len_arr(s.skip(c1)) {
                Err(e) => Err(e),
                Ok((p, c2)) => match QoS::spec_from_u8(will_qos) {
                    None => Err(ReaderError::InvalidQoS(will_qos)),
                    Some(q) => Ok(
                        (Some(MessageV { topic: t, payload: p, qos: q, retain: will_retain }), c1 + c2),
                    ),
                },
            },
        }
    }
}

/// A CONNECT body: 7-byte protocol preamble, flags byte, keep-alive,
/// client identifier, then will, username and password as their flag
/// bits dictate.
pub open spec fn parse_connect(body: Seq<u8>) -> Result<PacketV, ReaderError> {
    if body.len() < 8 {
        Err(ReaderError::IncompleteMessage)
    } else {
        let cflags = body[7];
        let clean_session = (cflags / 2) % 2 == 1;
        let has_will = (cflags / 4) % 2 == 1;
        let will_qos = ((cflags / 8) % 4) as u8;
        let will_retain = (cflags / 32) % 2 == 1;
        let has_password = (cflags / 64) % 2 == 1;
        let has_username = (cflags / 128) % 2 == 1;
        match parse_be16(body.skip(8)) {
            None => Err(ReaderError::IncompleteMessage),
            Some(keep_alive) => match parse_len_str(body.skip(10)) {
                Err(e) => Err(e),
                Ok((client_id, c1)) => match parse_will(
                    has_will,
                    will_qos,
                    will_retain,
                    body.skip(10 + c1),
                ) {
                    Err(e) => Err(e),
                    Ok((will, c2)) => match parse_opt_str(has_username, body.skip(10 + c1 + c2)) {
                        Err(e) => Err(e),
                        Ok((username, c3)) => match parse_opt_arr(
                            has_password,
                            body.skip(10 + c1 + c2 + c3),
                        ) {
                            Err(e) => Err(e),
                            Ok((password, _c4)) => Ok(
                                PacketV::CONNECT {
                                    client_id,
                                    username,
                                    password,
                                    will,
                                    clean_session,
                                    keep_alive,
                                },
                            ),
                        },
                    },
                },
            },
        }
    }
}

/// A CONNACK body: one flags byte whose bit 0 is session-present, then
/// the return code; an unmapped code byte is an invalid return code.
pub open spec fn parse_connack(body: Seq<u8>) -> Result<PacketV, ReaderError> {
    if body.len() < 2 {
        Err(ReaderError::IncompleteMessage)
    } else {
        match ConnectReturnCode::spec_from_u8(body[1]) {
            None => Err(ReaderError::InvalidReturnCode(body[1])),
            Some(rc) => Ok(PacketV::CONNACK { session_present: body[0] % 2 == 1, return_code: rc }),
        }
    }
}

/// A PUBLISH body, with dup, level and retain taken from the
/// fixed-header flags nibble: length-prefixed topic, a packet
/// identifier only above level 0, and the rest of the body verbatim as
/// the message payload.
pub open spec fn parse_publish(flags: u8, body: Seq<u8>) -> Result<PacketV, ReaderError> {
    let dup = (flags / 8) % 2 == 1;
    let retain = flags % 2 == 1;
    let qos_num = ((flags / 2) % 4) as u8;
    match QoS::spec_from_u8(qos_num) {
        None => Err(ReaderError::InvalidQoS(qos_num)),
        Some(qos) => match parse_len_str(body) {
            Err(e) => Err(e),
            Ok((topic, c1)) => if qos == QoS::QoS0 {
                Ok(
                    PacketV::PUBLISH {
                        dup,
                        message: MessageV { topic, payload: body.skip(c1), qos, retain },
                        packet_id: None,
                    },
                )
            } else {
                match parse_be16(body.skip(c1)) {
                    None => Err(ReaderError::IncompleteMessage),
                    Some(pid) => Ok(
                        PacketV::PUBLISH {
                            dup,
                            message: MessageV { topic, payload: body.skip(c1 + 2), qos, retain },
                            packet_id: Some(pid),
                        },
                    ),
                }
            },
        },
    }
}

/// The 2-byte packet identifier that is the whole variable header of
/// the acknowledgment types.
pub open spec fn parse_pid(body: Seq<u8>) -> Result<u16, ReaderError> {
    match parse_be16(body) {
        None => Err(ReaderError::IncompleteMessage),
        Some(pid) => Ok(pid),
    }
}

/// SUBSCRIBE topic filters, read until the body is exhausted: each a
/// length-prefixed topic and one level byte.
pub open spec fn parse_filters(s: Seq<u8>) -> Result<Seq<(Seq<char>, QoS)>, ReaderError>
    decreases s.len(),
{
    if s.len() == 0 {
        Ok(Seq::<(Seq<char>, QoS)>::empty())
    } else {
        match parse_len_str(s) {
            Err(e) => Err(e),
            Ok((t, c)) => if s.len() < c + 1 {
                Err(ReaderError::IncompleteMessage)
            } else {
                match QoS::spec_from_u8(s[c]) {
                    None => Err(ReaderError::InvalidQoS(s[c])),
                    Some(q) => match parse_filters(s.skip(c + 1)) {
                        Err(e) => Err(e),
                        Ok(rest) => Ok(seq![(t, q)] + rest),
                    },
                }
            },
        }
    }
}

/// SUBACK return codes, one byte each until the body is exhausted.
pub open spec fn parse_codes(s: Seq<u8>) -> Result<Seq<SubackReturnCode>, ReaderError>
    decreases s.len(),
{
    if s.len() == 0 {
        Ok(Seq::<SubackReturnCode>::empty())
    } else {
        match SubackReturnCode::spec_from_u8(s[0]) {
            None => Err(ReaderError::InvalidReturnCode(s[0])),
            Some(c) => match parse_codes(s.skip(1)) {
                Err(e) => Err(e),
                Ok(rest) => Ok(seq![c] + rest),
            },
        }
    }
}

/// UNSUBSCRIBE topics, length-prefixed, until the body is exhausted.
pub open spec fn parse_topics(s: Seq<u8>) -> Result<Seq<Seq<char>>, ReaderError>
    decreases s.len(),
{
    if s.len() == 0 {
        Ok(Seq::<Seq<char>>::empty())
    } else {
        match parse_len_str(s) {
            Err(e) => Err(e),
            Ok((t, c)) => match parse_topics(s.skip(c)) {
                Err(e) => Err(e),
                Ok(rest) => Ok(seq![t] + rest),
            },
        }
    }
}

/// A parse result for a list, with already-decoded elements put in
/// front of it: how a partially run list parse stands to the whole one.
pub open spec fn prepend_parsed<T>(acc: Seq<T>, r: Result<Seq<T>, ReaderError>) -> Result<
    Seq<T>,
    ReaderError,
> {
    match r {
        Ok(rest) => Ok(acc + rest),
        Err(e) => Err(e),
    }
}

/// Dispatch on the packet-type code over the exactly-remaining-length
/// body; type nibbles outside 1..=14 are unknown.
pub open spec fn parse_packet_body(ptype: u8, flags: u8, body: Seq<u8>) -> Result<
    PacketV,
    ReaderError,
> {
    if ptype == 1 {
        parse_connect(body)
    } else if ptype == 2 {
        parse_connack(body)
    } else if ptype == 3 {
        parse_publish(flags, body)
    } else if ptype == 4 {
        match parse_pid(body) {
            Err(e) => Err(e),
            Ok(pid) => Ok(PacketV::PUBACK { packet_id: pid }),
        }
    } else if ptype == 5 {
        match parse_pid(body) {
            Err(e) => Err(e),
            Ok(pid) => Ok(PacketV::PUBREC { packet_id: pid }),
        }
    } else if ptype == 6 {
        match parse_pid(body) {
            Err(e) => Err(e),
            Ok(pid) => Ok(PacketV::PUBREL { packet_id: pid }),
        }
    } else if ptype == 7 {
        match parse_pid(body) {
            Err(e) => Err(e),
            Ok(pid) => Ok(PacketV::PUBCOMP { packet_id: pid }),
        }
    } else if ptype == 8 {
        match parse_pid(body) {
            Err(e) => Err(e),
            Ok(pid) => match parse_filters(body.skip(2)) {
                Err(e) => Err(e),
                Ok(fs) => Ok(PacketV::SUBSCRIBE { packet_id: pid, topic_filters: fs }),
            },
        }
    } else if ptype == 9 {
        match parse_pid(body) {
            Err(e) => Err(e),
            Ok(pid) => match parse_codes(body.skip(2)) {
                Err(e) => Err(e),
                Ok(cs) => Ok(PacketV::SUBACK { packet_id: pid, return_codes: cs }),
            },
        }
    } else if ptype == 10 {
        match parse_pid(body) {
            Err(e) => Err(e),
            Ok(pid) => match parse_topics(body.skip(2)) {
                Err(e) => Err(e),
                Ok(ts) => Ok(PacketV::UNSUBSCRIBE { packet_id: pid, topic_filters: ts }),
            },
        }
    } else if ptype == 11 {
        match parse_pid(body) {
            Err(e) => Err(e),
            Ok(pid) => Ok(PacketV::UNSUBACK { packet_id: pid }),
        }
    } else if ptype == 12 {
        Ok(PacketV::PINGREQ)
    } else if ptype == 13 {
        Ok(PacketV::PINGRESP)
    } else {
        if ptype == 14 {
            Ok(PacketV::DISCONNECT)
        } else {
            Err(ReaderError::UnknownPacketType(ptype))
        }
    }
}

/// One whole packet at the front of `bytes`: fixed header, exactly
/// remaining-length body bytes, then the type dispatch.  Returns the
/// packet and how many bytes of `bytes` it occupied.
pub open spec fn spec_read(bytes: Seq<u8>) -> Result<(PacketV, int), ReaderError> {
    if bytes.len() == 0 {
        Err(ReaderError::IncompleteMessage)
    } else {
        let ptype = bytes[0] / 16;
        let flags = bytes[0] % 16;
        match parse_varint(bytes.skip(1)) {
            Err(e) => Err(e),
            Ok((len, c)) => if bytes.len() < 1 + c + len {
                Err(ReaderError::IncompleteMessage)
            } else {
                match parse_packet_body(ptype, flags, bytes.subrange(1 + c, 1 + c + len)) {
                    Err(e) => Err(e),
                    Ok(pv) => Ok((pv, 1 + c + len)),
                }
            },
        }
    }
}

} // verus!
