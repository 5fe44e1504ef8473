//! The packet writer: serializes a control packet into bytes, verified
//! against the encoding functions of [`crate::proto::wire`].

use vstd::prelude::*;

use crate::proto::filters_view;
use crate::proto::opt_bytes_view;
use crate::proto::opt_msg_view;
use crate::proto::opt_str_view;
use crate::proto::topics_view;
use crate::proto::wire;
use crate::proto::Message;
use crate::proto::Packet;
use crate::proto::PacketV;
use crate::proto::QoS;
use crate::proto::SubackReturnCode;
use crate::proto::Topic;
use vstd::utf8::encode_utf8;

verus! {

/// Why a packet could not be encoded.
#[derive(Clone, Copy, Debug, PartialEq, Eq, Structural)]
pub enum WriterError {
    /// A field does not fit its wire representation: a length-prefixed
    /// field over 65535 bytes, or a body over the varint maximum.
    FieldTooLarge,
}

/// A value that can be serialized to its wire bytes.
pub trait Writable {
    /// The exact byte sequence this value encodes to.
    spec fn wire_bytes(&self) -> Seq<u8>;

    /// Whether every length field of this value fits its wire
    /// representation; encoding succeeds exactly then.
    spec fn encodable(&self) -> bool;

    /// Serializes the value, or reports that a field cannot be framed.
    fn write_to(&self) -> (r: Result<Vec<u8>, WriterError>)
        ensures
            (r matches Ok(v) ==> self.encodable() && v@ == self.wire_bytes()),
            (r matches Err(e) ==> !self.encodable() && e == WriterError::FieldTooLarge),
    ;
}

/// What the per-variant writers promise: the wire bytes of `pv` on
/// success, and a length violation in `pv` on failure.
pub open spec fn write_result_ok(r: Result<Vec<u8>, WriterError>, pv: PacketV) -> bool {
    &&& (r matches Ok(v) ==> wire::lengths_ok(pv) && v@ == wire::wire(pv))
    &&& (r matches Err(e) ==> !wire::lengths_ok(pv) && e == WriterError::FieldTooLarge)
}

/// A 16-bit value as two big-endian bytes.
pub fn big_endian(i: u16) -> (r: [u8; 2])
    ensures
        r@ == wire::be16(i as int),
{
    let r = [(i / 256) as u8, (i % 256) as u8];
    proof {
        assert(r@ =~= wire::be16(i as int));
    }
    r
}

/// Bytes preceded by their 2-byte big-endian count.
pub fn len_arr(str: &[u8]) -> (r: Vec<u8>)
    requires
        str@.len() <= wire::LEN_MAX,
    ensures
        r@ == wire::len_pref(str@),
{
    let be = big_endian(str.len() as u16);
    let mut vec: Vec<u8> = Vec::new();
    vec.push(be[0]);
    vec.push(be[1]);
    let mut k: usize = 0;
    while k < str.len()
        invariant
            k <= str@.len(),
            str@.len() <= wire::LEN_MAX,
            vec@ =~= wire::be16(str@.len() as int) + str@.take(k as int),
        decreases str@.len() - k,
    {
        let b = str[k];
        vec.push(b);
        proof {
            assert(str@.take(k + 1) =~= str@.take(k as int).push(str@[k as int]));
        }
        k = k + 1;
    }
    proof {
        assert(str@.take(str@.len() as int) =~= str@);
        assert(vec@ =~= wire::len_pref(str@));
    }
    vec
}

/// A string's UTF-8 bytes preceded by their 2-byte big-endian count.
pub fn len_str(str: &str) -> (r: Vec<u8>)
    requires
        encode_utf8(str@).len() <= wire::LEN_MAX,
    ensures
        r@ == wire::len_pref(encode_utf8(str@)),
{
    len_arr(str.as_bytes())
}

/// The base-128 encoding of a remaining length.
pub fn var_length(i: usize) -> (r: Vec<u8>)
    requires
        i <= wire::VARINT_MAX,
    ensures
        r@ == wire::varint(i as int),
{
    let mut out: Vec<u8> = Vec::new();
    let mut x: usize = i;
    while x >= 128
        invariant
            x <= i,
            wire::varint(i as int) =~= out@ + wire::varint(x as int),
        decreases x,
    {
        let b: u8 = (x % 128 + 128) as u8;
        proof {
            assert(wire::varint(x as int) == seq![b] + wire::varint(x as int / 128));
            assert(out@.push(b) + wire::varint(x as int / 128) =~= out@ + (seq![b] + wire::varint(
                x as int / 128,
            )));
        }
        out.push(b);
        x = x / 128;
    }
    proof {
        assert(wire::varint(x as int) =~= seq![x as u8]);
        assert(out@ + seq![x as u8] =~= out@.push(x as u8));
    }
    out.push(x as u8);
    out
}

/// Frames a finished body: the type/flags byte, the remaining length,
/// then the body bytes.
fn assemble(ptype: u8, flags: u8, body: Vec<u8>) -> (r: Vec<u8>)
    requires
        1 <= ptype <= 14,
        flags < 16,
        body@.len() <= wire::VARINT_MAX,
    ensures
        r@ == seq![(ptype * 16 + flags) as u8] + wire::varint(body@.len() as int) + body@,
{
    let mut out: Vec<u8> = Vec::new();
    out.push(ptype * 16 + flags);
    let mut vl = var_length(body.len());
    out.append(&mut vl);
    let mut b = body;
    out.append(&mut b);
    proof {
        assert(out@ =~= seq![(ptype * 16 + flags) as u8] + wire::varint(body@.len() as int)
            + body@);
    }
    out
}

/// The 2-byte body holding a packet identifier alone, shared by the
/// acknowledgment packet types.
fn pid_body(pid: u16) -> (r: Vec<u8>)
    ensures
        r@ == wire::be16(pid as int),
{
    let be = big_endian(pid);
    let mut body: Vec<u8> = Vec::new();
    body.push(be[0]);
    body.push(be[1]);
    proof {
        assert(body@ =~= wire::be16(pid as int));
    }
    body
}

/// Serializes a CONNECT packet from its fields.
#[verifier::rlimit(100)]
fn write_connect(
    client_id: &String,
    username: &Option<String>,
    password: &Option<Vec<u8>>,
    will: &Option<Message>,
    clean_session: bool,
    keep_alive: u16,
) -> (r: Result<Vec<u8>, WriterError>)
    ensures
        write_result_ok(
            r,
            (PacketV::CONNECT {
                client_id: client_id@,
                username: opt_str_view(*username),
                password: opt_bytes_view(*password),
                will: opt_msg_view(*will),
                clean_session: clean_session,
                keep_alive: keep_alive,
            }),
        ),
{
    let ghost pv = (PacketV::CONNECT {
        client_id: client_id@,
        username: opt_str_view(*username),
        password: opt_bytes_view(*password),
        will: opt_msg_view(*will),
        clean_session: clean_session,
        keep_alive: keep_alive,
    });
    if client_id.as_str().as_bytes().len() > wire::LEN_MAX {
        return Err(WriterError::FieldTooLarge);
    }
    match will {
        Some(w) => {
            if w.topic.0.as_str().as_bytes().len() > wire::LEN_MAX || w.payload.0.len()
                > wire::LEN_MAX {
                return Err(WriterError::FieldTooLarge);
            }
        },
        None => {},
    }
    match username {
        Some(u) => {
            if u.as_str().as_bytes().len() > wire::LEN_MAX {
                return Err(WriterError::FieldTooLarge);
            }
        },
        None => {},
    }
    match password {
        Some(p) => {
            if p.len() > wire::LEN_MAX {
                return Err(WriterError::FieldTooLarge);
            }
        },
        None => {},
    }
    let mut body: Vec<u8> = Vec::new();
    body.push(0);
    body.push(4);
    body.push(0x4D);
    body.push(0x51);
    body.push(0x54);
    body.push(0x54);
    body.push(4);
    let mut cflags: u8 = 0;
    if clean_session {
        cflags = cflags + 2;
    }
    match will {
        Some(w) => {
            cflags = cflags + 4 + w.qos.to_u8() * 8 + (if w.retain {
                32
            } else {
                0
            });
        },
        None => {},
    }
    if password.is_some() {
        cflags = cflags + 64;
    }
    if username.is_some() {
        cflags = cflags + 128;
    }
    body.push(cflags);
    let be = big_endian(keep_alive);
    body.push(be[0]);
    body.push(be[1]);
    proof {
        assert(body@ =~= wire::var_header(pv));
    }
    let mut cid = len_str(client_id.as_str());
    body.append(&mut cid);
    match will {
        Some(w) => {
            let mut wt = len_str(w.topic.0.as_str());
            body.append(&mut wt);
            let mut wp = len_arr(w.payload.0.as_slice());
            body.append(&mut wp);
        },
        None => {},
    }
    match username {
        Some(u) => {
            let mut ub = len_str(u.as_str());
            body.append(&mut ub);
        },
        None => {},
    }
    match password {
        Some(p) => {
            let mut pb = len_arr(p.as_slice());
            body.append(&mut pb);
        },
        None => {},
    }
    proof {
        assert(body@ =~= wire::body_bytes(pv));
    }
    Ok(assemble(1, 0, body))
}

/// Serializes a PUBLISH packet from its fields.
fn write_publish(dup: bool, message: &Message, packet_id: &Option<crate::proto::PacketId>) -> (r:
    Result<Vec<u8>, WriterError>)
    ensures
        write_result_ok(
            r,
            (PacketV::PUBLISH {
                dup: dup,
                message: message@,
                packet_id: match *packet_id {
                    Some(pid) => Some(pid.0),
                    None => None,
                },
            }),
        ),
{
    let ghost pv = (PacketV::PUBLISH {
        dup: dup,
        message: message@,
        packet_id: match *packet_id {
            Some(pid) => Some(pid.0),
            None => None,
        },
    });
    if message.topic.0.as_str().as_bytes().len() > wire::LEN_MAX {
        return Err(WriterError::FieldTooLarge);
    }
    let mut body = len_str(message.topic.0.as_str());
    match packet_id {
        Some(pid) => {
            if message.qos.to_u8() != 0 {
                let be = big_endian(pid.0);
                body.push(be[0]);
                body.push(be[1]);
            }
        },
        None => {},
    }
    proof {
        assert(body@ =~= wire::var_header(pv));
    }
    if message.payload.0.len() > wire::VARINT_MAX {
        return Err(WriterError::FieldTooLarge);
    }
    if body.len() + message.payload.0.len() > wire::VARINT_MAX {
        return Err(WriterError::FieldTooLarge);
    }
    let mut pb = vstd::slice::slice_to_vec(message.payload.0.as_slice());
    body.append(&mut pb);
    proof {
        assert(body@ =~= wire::body_bytes(pv));
    }
    let mut flags: u8 = if message.retain {
        1
    } else {
        0
    };
    flags = flags + message.qos.to_u8() * 2;
    if dup {
        flags = flags + 8;
    }
    proof {
        assert(flags == wire::flags_nibble(pv));
    }
    Ok(assemble(3, flags, body))
}

/// Serializes a SUBSCRIBE packet from its fields.
fn write_subscribe(packet_id: u16, topic_filters: &Vec<(Topic, QoS)>) -> (r: Result<
    Vec<u8>,
    WriterError,
>)
    ensures
        write_result_ok(
            r,
            (PacketV::SUBSCRIBE { packet_id: packet_id, topic_filters: filters_view(topic_filters@) }),
        ),
{
    let ghost pv = (PacketV::SUBSCRIBE {
        packet_id: packet_id,
        topic_filters: filters_view(topic_filters@),
    });
    let ghost fs = filters_view(topic_filters@);
    let mut pl: Vec<u8> = Vec::new();
    let mut k: usize = 0;
    while k < topic_filters.len()
        invariant
            fs == filters_view(topic_filters@),
            k <= topic_filters@.len(),
            forall|i: int| 0 <= i < k ==> #[trigger] encode_utf8(fs[i].0).len() <= wire::LEN_MAX,
            pl@ =~= wire::subscribe_payload(fs.take(k as int)),
            pl@.len() <= wire::VARINT_MAX,
        decreases topic_filters@.len() - k,
    {
        let f = &topic_filters[k];
        if f.0.0.as_str().as_bytes().len() > wire::LEN_MAX {
            proof {
                assert(encode_utf8(fs[k as int].0).len() > wire::LEN_MAX);
            }
            return Err(WriterError::FieldTooLarge);
        }
        let mut item = len_str(f.0.0.as_str());
        pl.append(&mut item);
        pl.push(f.1.to_u8());
        proof {
            wire::lemma_subscribe_payload_push(fs.take(k as int), fs[k as int]);
            assert(fs.take(k + 1) =~= fs.take(k as int).push(fs[k as int]));
            assert(pl@ =~= wire::subscribe_payload(fs.take(k + 1)));
        }
        if pl.len() > wire::VARINT_MAX {
            proof {
                wire::lemma_subscribe_payload_concat(fs.take(k + 1), fs.skip(k + 1));
                assert(fs.take(k + 1) + fs.skip(k + 1) =~= fs);
            }
            return Err(WriterError::FieldTooLarge);
        }
        k = k + 1;
    }
    proof {
        assert(fs.take(fs.len() as int) =~= fs);
    }
    let be = big_endian(packet_id);
    let mut body: Vec<u8> = Vec::new();
    body.push(be[0]);
    body.push(be[1]);
    body.append(&mut pl);
    proof {
        assert(body@ =~= wire::body_bytes(pv));
    }
    if body.len() > wire::VARINT_MAX {
        return Err(WriterError::FieldTooLarge);
    }
    Ok(assemble(8, 2, body))
}

/// Serializes a SUBACK packet from its fields.
fn write_suback(packet_id: u16, return_codes: &Vec<SubackReturnCode>) -> (r: Result<
    Vec<u8>,
    WriterError,
>)
    ensures
        write_result_ok(
            r,
            (PacketV::SUBACK { packet_id: packet_id, return_codes: return_codes@ }),
        ),
{
    let ghost pv = (PacketV::SUBACK { packet_id: packet_id, return_codes: return_codes@ });
    let be = big_endian(packet_id);
    let mut body: Vec<u8> = Vec::new();
    body.push(be[0]);
    body.push(be[1]);
    let mut k: usize = 0;
    while k < return_codes.len()
        invariant
            k <= return_codes@.len(),
            body@ =~= wire::be16(packet_id as int) + return_codes@.take(k as int).map_values(
                |c: SubackReturnCode| c.as_num(),
            ),
        decreases return_codes@.len() - k,
    {
        let c = return_codes[k];
        body.push(c.to_u8());
        proof {
            assert(return_codes@.take(k + 1).map_values(|c: SubackReturnCode| c.as_num())
                =~= return_codes@.take(k as int).map_values(|c: SubackReturnCode| c.as_num()).push(
                return_codes@[k as int].as_num(),
            ));
        }
        k = k + 1;
    }
    proof {
        assert(return_codes@.take(return_codes@.len() as int) =~= return_codes@);
        assert(body@ =~= wire::body_bytes(pv));
    }
    if body.len() > wire::VARINT_MAX {
        return Err(WriterError::FieldTooLarge);
    }
    Ok(assemble(9, 0, body))
}

/// Serializes an UNSUBSCRIBE packet from its fields.
fn write_unsubscribe(packet_id: u16, topic_filters: &Vec<Topic>) -> (r: Result<
    Vec<u8>,
    WriterError,
>)
    ensures
        write_result_ok(
            r,
            (PacketV::UNSUBSCRIBE {
                packet_id: packet_id,
                topic_filters: topics_view(topic_filters@),
            }),
        ),
{
    let ghost pv = (PacketV::UNSUBSCRIBE {
        packet_id: packet_id,
        topic_filters: topics_view(topic_filters@),
    });
    let ghost ts = topics_view(topic_filters@);
    let mut pl: Vec<u8> = Vec::new();
    let mut k: usize = 0;
    while k < topic_filters.len()
        invariant
            ts == topics_view(topic_filters@),
            k <= topic_filters@.len(),
            forall|i: int| 0 <= i < k ==> #[trigger] encode_utf8(ts[i]).len() <= wire::LEN_MAX,
            pl@ =~= wire::unsubscribe_payload(ts.take(k as int)),
            pl@.len() <= wire::VARINT_MAX,
        decreases topic_filters@.len() - k,
    {
        let t = &topic_filters[k];
        if t.0.as_str().as_bytes().len() > wire::LEN_MAX {
            proof {
                assert(encode_utf8(ts[k as int]).len() > wire::LEN_MAX);
            }
            return Err(WriterError::FieldTooLarge);
        }
        let mut item = len_str(t.0.as_str());
        pl.append(&mut item);
        proof {
            wire::lemma_unsubscribe_payload_push(ts.take(k as int), ts[k as int]);
            assert(ts.take(k + 1) =~= ts.take(k as int).push(ts[k as int]));
            assert(pl@ =~= wire::unsubscribe_payload(ts.take(k + 1)));
        }
        if pl.len() > wire::VARINT_MAX {
            proof {
                wire::lemma_unsubscribe_payload_concat(ts.take(k + 1), ts.skip(k + 1));
                assert(ts.take(k + 1) + ts.skip(k + 1) =~= ts);
            }
            return Err(WriterError::FieldTooLarge);
        }
        k = k + 1;
    }
    proof {
        assert(ts.take(ts.len() as int) =~= ts);
    }
    let be = big_endian(packet_id);
    let mut body: Vec<u8> = Vec::new();
    body.push(be[0]);
    body.push(be[1]);
    body.append(&mut pl);
    proof {
        assert(body@ =~= wire::body_bytes(pv));
    }
    if body.len() > wire::VARINT_MAX {
        return Err(WriterError::FieldTooLarge);
    }
    Ok(assemble(10, 2, body))
}

impl Writable for Packet {
    open spec fn wire_bytes(&self) -> Seq<u8> {
        wire::wire(self@)
    }

    open spec fn encodable(&self) -> bool {
        wire::lengths_ok(self@)
    }

    fn write_to(&self) -> (r: Result<Vec<u8>, WriterError>) {
        match self {
            Packet::CONNECT { client_id, username, password, will, clean_session, keep_alive } => {
                write_connect(client_id, username, password, will, *clean_session, *keep_alive)
            },
            Packet::CONNACK { session_present, return_code } => {
                let mut body: Vec<u8> = Vec::new();
                body.push(
                    if *session_present {
                        1
                    } else {
                        0
                    },
                );
                body.push(return_code.to_u8());
                proof {
                    assert(body@ =~= wire::body_bytes(self@));
                }
                Ok(assemble(2, 0, body))
            },
            Packet::PUBLISH { dup, message, packet_id } => write_publish(*dup, message, packet_id),
            Packet::PUBACK { packet_id } => {
                proof {
                    assert(wire::body_bytes(self@) =~= wire::be16(packet_id.0 as int));
                }
                Ok(assemble(4, 0, pid_body(packet_id.0)))
            },
            Packet::PUBREC { packet_id } => {
                proof {
                    assert(wire::body_bytes(self@) =~= wire::be16(packet_id.0 as int));
                }
                Ok(assemble(5, 0, pid_body(packet_id.0)))
            },
            Packet::PUBREL { packet_id } => {
                proof {
                    assert(wire::body_bytes(self@) =~= wire::be16(packet_id.0 as int));
                }
                Ok(assemble(6, 2, pid_body(packet_id.0)))
            },
            Packet::PUBCOMP { packet_id } => {
                proof {
                    assert(wire::body_bytes(self@) =~= wire::be16(packet_id.0 as int));
                }
                Ok(assemble(7, 0, pid_body(packet_id.0)))
            },
            Packet::SUBSCRIBE { packet_id, topic_filters } => {
                write_subscribe(packet_id.0, topic_filters)
            },
            Packet::SUBACK { packet_id, return_codes } => write_suback(packet_id.0, return_codes),
            Packet::UNSUBSCRIBE { packet_id, topic_filters } => {
                write_unsubscribe(packet_id.0, topic_filters)
            },
            Packet::UNSUBACK { packet_id } => {
                proof {
                    assert(wire::body_bytes(self@) =~= wire::be16(packet_id.0 as int));
                }
                Ok(assemble(11, 0, pid_body(packet_id.0)))
            },
            Packet::PINGREQ => {
                proof {
                    assert(wire::body_bytes(self@) =~= Seq::<u8>::empty());
                }
                Ok(assemble(12, 0, Vec::new()))
            },
            Packet::PINGRESP => {
                proof {
                    assert(wire::body_bytes(self@) =~= Seq::<u8>::empty());
                }
                Ok(assemble(13, 0, Vec::new()))
            },
            Packet::DISCONNECT => {
                proof {
                    assert(wire::body_bytes(self@) =~= Seq::<u8>::empty());
                }
                Ok(assemble(14, 0, Vec::new()))
            },
        }
    }
}

} // verus!
