//! The packet reader: decodes one control packet from the front of a
//! byte buffer, verified against the parse functions of
//! [`crate::proto::wire`].

use vstd::prelude::*;

use crate::proto::opt_msg_view;
use crate::proto::MessageV;
use crate::proto::wire;
use crate::proto::ConnectReturnCode;
use crate::proto::Message;
use crate::proto::Packet;
use crate::proto::PacketId;
use crate::proto::PacketV;
use crate::proto::Payload;
use crate::proto::QoS;
use crate::proto::SubackReturnCode;
use crate::proto::Topic;
use vstd::utf8::encode_utf8;
use vstd::utf8::encode_utf8_decode_utf8;
use vstd::utf8::valid_utf8;

verus! {

/// Why a byte buffer failed to decode as a packet.
#[derive(Clone, Copy, Debug, PartialEq, Eq, Structural)]
pub enum ReaderError {
    /// A 2-byte length prefix ended before its second byte.
    TruncatedLength,
    /// The remaining-length varint asked for a fifth byte.
    MalformedVarint,
    /// A level byte outside 0..=2, carried verbatim.
    InvalidQoS(u8),
    /// A return-code byte no enumeration value maps to, carried verbatim.
    InvalidReturnCode(u8),
    /// A length-prefixed string that is not UTF-8.
    InvalidUtf8,
    /// A fixed-header type nibble outside 1..=14, carried verbatim.
    UnknownPacketType(u8),
    /// The buffer ended before the bytes a header declared.
    IncompleteMessage,
}

/// A value that can be decoded from the front of a byte buffer.
pub trait Readable: Sized + View {
    /// What the bytes decode to: the value's spec-level image and the
    /// byte count consumed, or the decode error.
    spec fn decoded(bytes: Seq<u8>) -> Result<(Self::V, int), ReaderError>;

    /// Decodes one value from the front of `buf`; bytes past it are
    /// left for the next call.
    fn read_from(buf: &Vec<u8>) -> (r: Result<(Self, usize), ReaderError>)
        ensures
            (r matches Ok(pn) ==> Self::decoded(buf@) == Ok::<(Self::V, int), ReaderError>(
                (pn.0@, pn.1 as int),
            ) && pn.1 <= buf@.len()),
            (r matches Err(e) ==> Self::decoded(buf@) == Err::<(Self::V, int), ReaderError>(e)),
    ;
}

/// Relies on `String::from_utf8`: it returns `Ok` exactly when the
/// bytes are a valid UTF-8 encoding, and the string it returns is the
/// one those bytes encode.
#[verifier::external_body]
fn vec_to_string(v: Vec<u8>) -> (r: Option<String>)
    ensures
        r is Some <==> valid_utf8(v@),
        r matches Some(s) ==> encode_utf8(s@) == v@,
{
    String::from_utf8(v).ok()
}

/// The byte at `pos`, or an incomplete message when the buffer ends
/// before it.
pub fn read_byte(buf: &Vec<u8>, pos: usize) -> (r: Result<u8, ReaderError>)
    ensures
        (r matches Ok(b) ==> pos < buf@.len() && b == buf@[pos as int]),
        (r matches Err(e) ==> pos >= buf@.len() && e == ReaderError::IncompleteMessage),
{
    if pos < buf.len() {
        Ok(buf[pos])
    } else {
        Err(ReaderError::IncompleteMessage)
    }
}

/// A copy of `len` bytes starting at `start`.
pub fn read_vec(buf: &Vec<u8>, start: usize, len: usize) -> (r: Vec<u8>)
    requires
        start + len <= buf@.len(),
    ensures
        r@ == buf@.subrange(start as int, start + len),
{
    let n = buf.len();
    let mut out: Vec<u8> = Vec::new();
    let mut k: usize = 0;
    while k < len
        invariant
            start + len <= n == buf@.len(),
            k <= len,
            out@ =~= buf@.subrange(start as int, start + k),
        decreases len - k,
    {
        let b = buf[start + k];
        out.push(b);
        proof {
            assert(buf@.subrange(start as int, start + k + 1) =~= buf@.subrange(
                start as int,
                start + k,
            ).push(buf@[start + k]));
        }
        k = k + 1;
    }
    out
}

/// The big-endian 16-bit value at `pos`, and the position after it.
pub fn big_endian(buf: &Vec<u8>, pos: usize) -> (r: Option<(u16, usize)>)
    requires
        pos <= buf@.len(),
    ensures
        (r matches Some(v) ==> wire::parse_be16(buf@.skip(pos as int)) == Some(v.0) && v.1 == pos
            + 2 && pos + 2 <= buf@.len()),
        (r is None ==> wire::parse_be16(buf@.skip(pos as int)) is None),
{
    if buf.len() - pos < 2 {
        None
    } else {
        let msb = buf[pos];
        let lsb = buf[pos + 1];
        Some(((msb as u16) * 256 + (lsb as u16), pos + 2))
    }
}

/// Exactly `size` bytes starting at `pos`, or an incomplete message.
pub fn arr(buf: &Vec<u8>, pos: usize, size: usize) -> (r: Result<(Vec<u8>, usize), ReaderError>)
    requires
        pos <= buf@.len(),
    ensures
        (r matches Ok(x) ==> pos + size <= buf@.len() && x.0@ == buf@.subrange(
            pos as int,
            pos + size,
        ) && x.1 == pos + size),
        (r matches Err(e) ==> buf@.len() < pos + size && e == ReaderError::IncompleteMessage),
{
    if buf.len() - pos < size {
        Err(ReaderError::IncompleteMessage)
    } else {
        Ok((read_vec(buf, pos, size), pos + size))
    }
}

/// A length-prefixed byte run at `pos`, and the position after it.
pub fn len_arr(buf: &Vec<u8>, pos: usize) -> (r: Result<(Vec<u8>, usize), ReaderError>)
    requires
        pos <= buf@.len(),
    ensures
        (r matches Ok(x) ==> pos + 2 <= x.1 <= buf@.len() && wire::parse_len_arr(
            buf@.skip(pos as int),
        ) == Ok::<(Seq<u8>, int), ReaderError>((x.0@, x.1 - pos))),
        (r matches Err(e) ==> wire::parse_len_arr(buf@.skip(pos as int)) == Err::<
            (Seq<u8>, int),
            ReaderError,
        >(e)),
{
    let (l, p1) = match big_endian(buf, pos) {
        None => {
            return Err(ReaderError::TruncatedLength);
        },
        Some(x) => x,
    };
    match arr(buf, p1, l as usize) {
        Err(e) => Err(e),
        Ok((v, p2)) => {
            proof {
                assert(buf@.skip(pos as int).subrange(2, 2 + l as int) =~= buf@.subrange(
                    p1 as int,
                    p1 + l as int,
                ));
            }
            Ok((v, p2))
        },
    }
}

/// A length-prefixed UTF-8 string at `pos`, and the position after it.
pub fn len_str(buf: &Vec<u8>, pos: usize) -> (r: Result<(String, usize), ReaderError>)
    requires
        pos <= buf@.len(),
    ensures
        (r matches Ok(x) ==> pos + 2 <= x.1 <= buf@.len() && wire::parse_len_str(
            buf@.skip(pos as int),
        ) == Ok::<(Seq<char>, int), ReaderError>((x.0@, x.1 - pos))),
        (r matches Err(e) ==> wire::parse_len_str(buf@.skip(pos as int)) == Err::<
            (Seq<char>, int),
            ReaderError,
        >(e)),
{
    let (v, p1) = match len_arr(buf, pos) {
        Err(e) => {
            return Err(e);
        },
        Ok(x) => x,
    };
    match vec_to_string(v) {
        None => Err(ReaderError::InvalidUtf8),
        Some(s) => {
            proof {
                encode_utf8_decode_utf8(s@);
            }
            Ok((s, p1))
        },
    }
}

/// The base-128 remaining length, `depth` bytes of it already read.
fn var_length_at(buf: &Vec<u8>, pos: usize, depth: usize) -> (r: Result<
    (usize, usize),
    ReaderError,
>)
    requires
        pos <= buf@.len(),
        depth <= 4,
    ensures
        (r matches Ok(x) ==> wire::parse_varint_from(buf@.skip(pos as int), depth as int) == Ok::<
            (int, int),
            ReaderError,
        >((x.0 as int, x.1 as int)) && x.0 < wire::varint_bound(depth as int) && 1 <= x.1 && pos
            + x.1 <= buf@.len()),
        (r matches Err(e) ==> wire::parse_varint_from(buf@.skip(pos as int), depth as int) == Err::<
            (int, int),
            ReaderError,
        >(e)),
    decreases 4 - depth,
{
    if depth >= 4 {
        return Err(ReaderError::MalformedVarint);
    }
    if pos >= buf.len() {
        return Err(ReaderError::IncompleteMessage);
    }
    let b = buf[pos];
    if b < 128 {
        Ok((b as usize, 1))
    } else {
        proof {
            assert(buf@.skip(pos as int).skip(1) =~= buf@.skip(pos + 1));
        }
        match var_length_at(buf, pos + 1, depth + 1) {
            Err(e) => Err(e),
            Ok((v, c)) => Ok(((b - 128) as usize + 128 * v, c + 1)),
        }
    }
}

/// The remaining-length varint at `pos`: its value and the count of
/// its encoded bytes.
pub fn var_length(buf: &Vec<u8>, pos: usize) -> (r: Result<(usize, usize), ReaderError>)
    requires
        pos <= buf@.len(),
    ensures
        (r matches Ok(x) ==> wire::parse_varint(buf@.skip(pos as int)) == Ok::<
            (int, int),
            ReaderError,
        >((x.0 as int, x.1 as int)) && x.0 <= wire::VARINT_MAX && 1 <= x.1 && pos + x.1
            <= buf@.len()),
        (r matches Err(e) ==> wire::parse_varint(buf@.skip(pos as int)) == Err::<
            (int, int),
            ReaderError,
        >(e)),
{
    var_length_at(buf, pos, 0)
}

/// An optional length-prefixed string, read only when its flag is set.
fn read_opt_str(present: bool, buf: &Vec<u8>, pos: usize) -> (r: Result<
    (Option<String>, usize),
    ReaderError,
>)
    requires
        pos <= buf@.len(),
    ensures
        (r matches Ok(x) ==> pos <= x.1 <= buf@.len() && wire::parse_opt_str(
            present,
            buf@.skip(pos as int),
        ) == Ok::<(Option<Seq<char>>, int), ReaderError>(
            (crate::proto::opt_str_view(x.0), x.1 - pos),
        )),
        (r matches Err(e) ==> wire::parse_opt_str(present, buf@.skip(pos as int)) == Err::<
            (Option<Seq<char>>, int),
            ReaderError,
        >(e)),
{
    if !present {
        Ok((None, pos))
    } else {
        match len_str(buf, pos) {
            Err(e) => Err(e),
            Ok((s, p1)) => Ok((Some(s), p1)),
        }
    }
}

/// An optional length-prefixed byte run, read only when its flag is set.
fn read_opt_arr(present: bool, buf: &Vec<u8>, pos: usize) -> (r: Result<
    (Option<Vec<u8>>, usize),
    ReaderError,
>)
    requires
        pos <= buf@.len(),
    ensures
        (r matches Ok(x) ==> pos <= x.1 <= buf@.len() && wire::parse_opt_arr(
            present,
            buf@.skip(pos as int),
        ) == Ok::<(Option<Seq<u8>>, int), ReaderError>(
            (crate::proto::opt_bytes_view(x.0), x.1 - pos),
        )),
        (r matches Err(e) ==> wire::parse_opt_arr(present, buf@.skip(pos as int)) == Err::<
            (Option<Seq<u8>>, int),
            ReaderError,
        >(e)),
{
    if !present {
        Ok((None, pos))
    } else {
        match len_arr(buf, pos) {
            Err(e) => Err(e),
            Ok((v, p1)) => Ok((Some(v), p1)),
        }
    }
}

/// The will message of a CONNECT payload, read only when its flag is
/// set.
fn read_will(present: bool, will_qos: u8, will_retain: bool, buf: &Vec<u8>, pos: usize) -> (r:
    Result<(Option<Message>, usize), ReaderError>)
    requires
        pos <= buf@.len(),
    ensures
        (r matches Ok(x) ==> pos <= x.1 <= buf@.len() && wire::parse_will(
            present,
            will_qos,
            will_retain,
            buf@.skip(pos as int),
        ) == Ok::<(Option<MessageV>, int), ReaderError>((opt_msg_view(x.0), x.1 - pos))),
        (r matches Err(e) ==> wire::parse_will(present, will_qos, will_retain, buf@.skip(pos as int))
            == Err::<(Option<MessageV>, int), ReaderError>(e)),
{
    if !present {
        return Ok((None, pos));
    }
    let (t, p1) = match len_str(buf, pos) {
        Err(e) => {
            return Err(e);
        },
        Ok(x) => x,
    };
    proof {
        assert(buf@.skip(pos as int).skip(p1 - pos) =~= buf@.skip(p1 as int));
    }
    let (pb, p2) = match len_arr(buf, p1) {
        Err(e) => {
            return Err(e);
        },
        Ok(x) => x,
    };
    let qos = match QoS::from_u8(will_qos) {
        None => {
            return Err(ReaderError::InvalidQoS(will_qos));
        },
        Some(q) => q,
    };
    Ok((Some(Message { topic: Topic(t), payload: Payload(pb), qos, retain: will_retain }), p2))
}

/// A CONNECT body: preamble, flags, keep-alive, client identifier, then
/// the optional fields the flag bits call for.
fn read_connect(body: &Vec<u8>) -> (r: Result<Packet, ReaderError>)
    ensures
        (r matches Ok(p) ==> wire::parse_connect(body@) == Ok::<PacketV, ReaderError>(p@)),
        (r matches Err(e) ==> wire::parse_connect(body@) == Err::<PacketV, ReaderError>(e)),
{
    if body.len() < 8 {
        return Err(ReaderError::IncompleteMessage);
    }
    let cflags = body[7];
    let clean_session = (cflags / 2) % 2 == 1;
    let has_will = (cflags / 4) % 2 == 1;
    let will_qos = (cflags / 8) % 4;
    let will_retain = (cflags / 32) % 2 == 1;
    let has_password = (cflags / 64) % 2 == 1;
    let has_username = (cflags / 128) % 2 == 1;
    let keep_alive = match big_endian(body, 8) {
        None => {
            return Err(ReaderError::IncompleteMessage);
        },
        Some(x) => x.0,
    };
    let (client_id, p1) = match len_str(body, 10) {
        Err(e) => {
            return Err(e);
        },
        Ok(x) => x,
    };
    let (will, p2) = match read_will(has_will, will_qos, will_retain, body, p1) {
        Err(e) => {
            return Err(e);
        },
        Ok(x) => x,
    };
    let (username, p3) = match read_opt_str(has_username, body, p2) {
        Err(e) => {
            return Err(e);
        },
        Ok(x) => x,
    };
    let (password, _p4) = match read_opt_arr(has_password, body, p3) {
        Err(e) => {
            return Err(e);
        },
        Ok(x) => x,
    };
    Ok(Packet::CONNECT { client_id, username, password, will, clean_session, keep_alive })
}

/// A CONNACK body: the session-present flags byte and the return code.
fn read_connack(body: &Vec<u8>) -> (r: Result<Packet, ReaderError>)
    ensures
        (r matches Ok(p) ==> wire::parse_connack(body@) == Ok::<PacketV, ReaderError>(p@)),
        (r matches Err(e) ==> wire::parse_connack(body@) == Err::<PacketV, ReaderError>(e)),
{
    if body.len() < 2 {
        return Err(ReaderError::IncompleteMessage);
    }
    let flags = body[0];
    let code = body[1];
    match ConnectReturnCode::from_u8(code) {
        None => Err(ReaderError::InvalidReturnCode(code)),
        Some(rc) => Ok(Packet::CONNACK { session_present: flags % 2 == 1, return_code: rc }),
    }
}

/// A PUBLISH body, with dup, level and retain from the fixed-header
/// flags nibble.
fn read_publish(flags: u8, body: &Vec<u8>) -> (r: Result<Packet, ReaderError>)
    ensures
        (r matches Ok(p) ==> wire::parse_publish(flags, body@) == Ok::<PacketV, ReaderError>(p@)),
        (r matches Err(e) ==> wire::parse_publish(flags, body@) == Err::<PacketV, ReaderError>(e)),
{
    let dup = (flags / 8) % 2 == 1;
    let retain = flags % 2 == 1;
    let qos_num = (flags / 2) % 4;
    let qos = match QoS::from_u8(qos_num) {
        None => {
            return Err(ReaderError::InvalidQoS(qos_num));
        },
        Some(q) => q,
    };
    let (topic, p1) = match len_str(body, 0) {
        Err(e) => {
            proof {
                assert(body@.skip(0) =~= body@);
            }
            return Err(e);
        },
        Ok(x) => x,
    };
    proof {
        assert(body@.skip(0) =~= body@);
    }
    let (packet_id, p2) = if qos.to_u8() != 0 {
        match big_endian(body, p1) {
            None => {
                return Err(ReaderError::IncompleteMessage);
            },
            Some((pid, p2)) => (Some(PacketId(pid)), p2),
        }
    } else {
        (None, p1)
    };
    let payload = read_vec(body, p2, body.len() - p2);
    proof {
        assert(body@.subrange(p2 as int, body@.len() as int) =~= body@.skip(p2 as int));
    }
    Ok(
        Packet::PUBLISH {
            dup,
            message: Message { topic: Topic(topic), payload: Payload(payload), qos, retain },
            packet_id,
        },
    )
}

/// SUBSCRIBE filters from `start` to the end of the body.
fn read_filters(body: &Vec<u8>, start: usize) -> (r: Result<Vec<(Topic, QoS)>, ReaderError>)
    requires
        start <= body@.len(),
    ensures
        (r matches Ok(v) ==> wire::parse_filters(body@.skip(start as int)) == Ok::<
            Seq<(Seq<char>, QoS)>,
            ReaderError,
        >(crate::proto::filters_view(v@))),
        (r matches Err(e) ==> wire::parse_filters(body@.skip(start as int)) == Err::<
            Seq<(Seq<char>, QoS)>,
            ReaderError,
        >(e)),
{
    let mut out: Vec<(Topic, QoS)> = Vec::new();
    let mut pos = start;
    proof {
        match wire::parse_filters(body@.skip(start as int)) {
            Ok(rest) => {
                assert(crate::proto::filters_view(out@) + rest =~= rest);
            },
            Err(_) => {},
        }
    }
    while pos < body.len()
        invariant
            start <= pos <= body@.len(),
            wire::parse_filters(body@.skip(start as int)) == wire::prepend_parsed(
                crate::proto::filters_view(out@),
                wire::parse_filters(body@.skip(pos as int)),
            ),
        decreases body@.len() - pos,
    {
        let ghost old_out = out@;
        let (t, p1) = match len_str(body, pos) {
            Err(e) => {
                return Err(e);
            },
            Ok(x) => x,
        };
        if p1 >= body.len() {
            return Err(ReaderError::IncompleteMessage);
        }
        let qb = body[p1];
        let q = match QoS::from_u8(qb) {
            None => {
                return Err(ReaderError::InvalidQoS(qb));
            },
            Some(q) => q,
        };
        out.push((Topic(t), q));
        proof {
            let s = body@.skip(pos as int);
            assert(s.skip(p1 - pos + 1) =~= body@.skip(p1 + 1));
            match wire::parse_filters(body@.skip(p1 + 1)) {
                Ok(rest) => {
                    assert(wire::parse_filters(s) == Ok::<_, ReaderError>(
                        seq![(t@, q)] + rest,
                    ));
                    assert(crate::proto::filters_view(out@) =~= crate::proto::filters_view(
                        old_out,
                    ).push((t@, q)));
                    assert(crate::proto::filters_view(old_out) + (seq![(t@, q)] + rest)
                        =~= crate::proto::filters_view(out@) + rest);
                },
                Err(_) => {},
            }
        }
        pos = p1 + 1;
    }
    proof {
        assert(body@.skip(pos as int).len() == 0);
        match wire::parse_filters(body@.skip(pos as int)) {
            Ok(rest) => {
                assert(crate::proto::filters_view(out@) + rest =~= crate::proto::filters_view(
                    out@,
                ));
            },
            Err(_) => {},
        }
    }
    Ok(out)
}

/// SUBACK return codes from `start` to the end of the body.
fn read_codes(body: &Vec<u8>, start: usize) -> (r: Result<Vec<SubackReturnCode>, ReaderError>)
    requires
        start <= body@.len(),
    ensures
        (r matches Ok(v) ==> wire::parse_codes(body@.skip(start as int)) == Ok::<
            Seq<SubackReturnCode>,
            ReaderError,
        >(v@)),
        (r matches Err(e) ==> wire::parse_codes(body@.skip(start as int)) == Err::<
            Seq<SubackReturnCode>,
            ReaderError,
        >(e)),
{
    let mut out: Vec<SubackReturnCode> = Vec::new();
    let mut pos = start;
    proof {
        match wire::parse_codes(body@.skip(start as int)) {
            Ok(rest) => {
                assert(out@ + rest =~= rest);
            },
            Err(_) => {},
        }
    }
    while pos < body.len()
        invariant
            start <= pos <= body@.len(),
            wire::parse_codes(body@.skip(start as int)) == wire::prepend_parsed(
                out@,
                wire::parse_codes(body@.skip(pos as int)),
            ),
        decreases body@.len() - pos,
    {
        let ghost old_out = out@;
        let b = body[pos];
        let c = match SubackReturnCode::from_u8(b) {
            None => {
                return Err(ReaderError::InvalidReturnCode(b));
            },
            Some(c) => c,
        };
        out.push(c);
        proof {
            let s = body@.skip(pos as int);
            assert(s.skip(1) =~= body@.skip(pos + 1));
            match wire::parse_codes(body@.skip(pos + 1)) {
                Ok(rest) => {
                    assert(wire::parse_codes(s) == Ok::<_, ReaderError>(seq![c] + rest));
                    assert(old_out + (seq![c] + rest) =~= out@ + rest);
                },
                Err(_) => {},
            }
        }
        pos = pos + 1;
    }
    proof {
        match wire::parse_codes(body@.skip(pos as int)) {
            Ok(rest) => {
                assert(out@ + rest =~= out@);
            },
            Err(_) => {},
        }
    }
    Ok(out)
}

/// UNSUBSCRIBE topics from `start` to the end of the body.
fn read_topics(body: &Vec<u8>, start: usize) -> (r: Result<Vec<Topic>, ReaderError>)
    requires
        start <= body@.len(),
    ensures
        (r matches Ok(v) ==> wire::parse_topics(body@.skip(start as int)) == Ok::<
            Seq<Seq<char>>,
            ReaderError,
        >(crate::proto::topics_view(v@))),
        (r matches Err(e) ==> wire::parse_topics(body@.skip(start as int)) == Err::<
            Seq<Seq<char>>,
            ReaderError,
        >(e)),
{
    let mut out: Vec<Topic> = Vec::new();
    let mut pos = start;
    proof {
        match wire::parse_topics(body@.skip(start as int)) {
            Ok(rest) => {
                assert(crate::proto::topics_view(out@) + rest =~= rest);
            },
            Err(_) => {},
        }
    }
    while pos < body.len()
        invariant
            start <= pos <= body@.len(),
            wire::parse_topics(body@.skip(start as int)) == wire::prepend_parsed(
                crate::proto::topics_view(out@),
                wire::parse_topics(body@.skip(pos as int)),
            ),
        decreases body@.len() - pos,
    {
        let ghost old_out = out@;
        let (t, p1) = match len_str(body, pos) {
            Err(e) => {
                return Err(e);
            },
            Ok(x) => x,
        };
        out.push(Topic(t));
        proof {
            let s = body@.skip(pos as int);
            assert(s.skip(p1 - pos) =~= body@.skip(p1 as int));
            match wire::parse_topics(body@.skip(p1 as int)) {
                Ok(rest) => {
                    assert(wire::parse_topics(s) == Ok::<_, ReaderError>(seq![t@] + rest));
                    assert(crate::proto::topics_view(out@) =~= crate::proto::topics_view(
                        old_out,
                    ).push(t@));
                    assert(crate::proto::topics_view(old_out) + (seq![t@] + rest)
                        =~= crate::proto::topics_view(out@) + rest);
                },
                Err(_) => {},
            }
        }
        pos = p1;
    }
    proof {
        match wire::parse_topics(body@.skip(pos as int)) {
            Ok(rest) => {
                assert(crate::proto::topics_view(out@) + rest =~= crate::proto::topics_view(out@));
            },
            Err(_) => {},
        }
    }
    Ok(out)
}

/// Dispatch on the packet-type code over the exactly-remaining-length
/// body bytes.
fn read_packet_body(ptype: u8, flags: u8, body: &Vec<u8>) -> (r: Result<Packet, ReaderError>)
    ensures
        (r matches Ok(p) ==> wire::parse_packet_body(ptype, flags, body@) == Ok::<
            PacketV,
            ReaderError,
        >(p@)),
        (r matches Err(e) ==> wire::parse_packet_body(ptype, flags, body@) == Err::<
            PacketV,
            ReaderError,
        >(e)),
{
    proof {
        assert(body@.skip(0) =~= body@);
    }
    if ptype == 1 {
        read_connect(body)
    } else if ptype == 2 {
        read_connack(body)
    } else if ptype == 3 {
        read_publish(flags, body)
    } else if ptype >= 4 && ptype <= 7 || ptype == 11 {
        let pid = match big_endian(body, 0) {
            None => {
                return Err(ReaderError::IncompleteMessage);
            },
            Some(x) => x.0,
        };
        if ptype == 4 {
            Ok(Packet::PUBACK { packet_id: PacketId(pid) })
        } else if ptype == 5 {
            Ok(Packet::PUBREC { packet_id: PacketId(pid) })
        } else if ptype == 6 {
            Ok(Packet::PUBREL { packet_id: PacketId(pid) })
        } else if ptype == 7 {
            Ok(Packet::PUBCOMP { packet_id: PacketId(pid) })
        } else {
            Ok(Packet::UNSUBACK { packet_id: PacketId(pid) })
        }
    } else if ptype == 8 {
        let pid = match big_endian(body, 0) {
            None => {
                return Err(ReaderError::IncompleteMessage);
            },
            Some(x) => x.0,
        };
        match read_filters(body, 2) {
            Err(e) => Err(e),
            Ok(fs) => Ok(Packet::SUBSCRIBE { packet_id: PacketId(pid), topic_filters: fs }),
        }
    } else if ptype == 9 {
        let pid = match big_endian(body, 0) {
            None => {
                return Err(ReaderError::IncompleteMessage);
            },
            Some(x) => x.0,
        };
        match read_codes(body, 2) {
            Err(e) => Err(e),
            Ok(cs) => Ok(Packet::SUBACK { packet_id: PacketId(pid), return_codes: cs }),
        }
    } else if ptype == 10 {
        let pid = match big_endian(body, 0) {
            None => {
                return Err(ReaderError::IncompleteMessage);
            },
            Some(x) => x.0,
        };
        match read_topics(body, 2) {
            Err(e) => Err(e),
            Ok(ts) => Ok(Packet::UNSUBSCRIBE { packet_id: PacketId(pid), topic_filters: ts }),
        }
    } else if ptype == 12 {
        Ok(Packet::PINGREQ)
    } else if ptype == 13 {
        Ok(Packet::PINGRESP)
    } else if ptype == 14 {
        Ok(Packet::DISCONNECT)
    } else {
        Err(ReaderError::UnknownPacketType(ptype))
    }
}

impl Readable for Packet {
    open spec fn decoded(bytes: Seq<u8>) -> Result<(PacketV, int), ReaderError> {
        wire::spec_read(bytes)
    }

    fn read_from(buf: &Vec<u8>) -> (r: Result<(Packet, usize), ReaderError>) {
        let first_byte = match read_byte(buf, 0) {
            Err(e) => {
                return Err(e);
            },
            Ok(b) => b,
        };
        let packet_type = first_byte / 16;
        let flags = first_byte % 16;
        let (remaining_length, c) = match var_length(buf, 1) {
            Err(e) => {
                return Err(e);
            },
            Ok(x) => x,
        };
        if buf.len() - (1 + c) < remaining_length {
            return Err(ReaderError::IncompleteMessage);
        }
        let body = read_vec(buf, 1 + c, remaining_length);
        match read_packet_body(packet_type, flags, &body) {
            Err(e) => Err(e),
            Ok(p) => Ok((p, 1 + c + remaining_length)),
        }
    }
}

} // verus!
