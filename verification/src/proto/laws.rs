//! The codec's round-trip laws: parsing the wire bytes of a
//! well-formed packet yields that packet back, stated over the spec
//! functions of [`crate::proto::wire`] that the executable reader and
//! writer are verified against.

use vstd::prelude::*;

use crate::proto::reader::ReaderError;
use crate::proto::wire::be16;
use crate::proto::wire::body_bytes;
use crate::proto::wire::connect_flags;
use crate::proto::wire::connect_preamble;
use crate::proto::wire::flags_nibble;
use crate::proto::wire::len_pref;
use crate::proto::wire::lengths_ok;
use crate::proto::wire::parse_be16;
use crate::proto::wire::parse_codes;
use crate::proto::wire::parse_connack;
use crate::proto::wire::parse_connect;
use crate::proto::wire::parse_filters;
use crate::proto::wire::parse_len_arr;
use crate::proto::wire::parse_len_str;
use crate::proto::wire::parse_opt_arr;
use crate::proto::wire::parse_opt_str;
use crate::proto::wire::parse_packet_body;
use crate::proto::wire::parse_pid;
use crate::proto::wire::parse_publish;
use crate::proto::wire::parse_topics;
use crate::proto::wire::parse_varint;
use crate::proto::wire::parse_varint_from;
use crate::proto::wire::parse_will;
use crate::proto::wire::payload_bytes;
use crate::proto::wire::spec_read;
use crate::proto::wire::subscribe_payload;
use crate::proto::wire::type_code;
use crate::proto::wire::unsubscribe_payload;
use crate::proto::wire::var_header;
use crate::proto::wire::varint;
use crate::proto::wire::varint_bound;
use crate::proto::wire::wf;
use crate::proto::wire::wire;
use crate::proto::wire::LEN_MAX;
use crate::proto::wire::VARINT_MAX;
use crate::proto::ConnectReturnCode;
use crate::proto::MessageV;
use crate::proto::PacketV;
use crate::proto::QoS;
use crate::proto::SubackReturnCode;
use vstd::utf8::encode_utf8;
use vstd::utf8::encode_utf8_decode_utf8;
use vstd::utf8::encode_utf8_valid_utf8;

verus! {

/// A varint decodes to the value it was encoded from, whatever bytes
/// follow it, as long as the value fits the bytes still allowed.
proof fn lemma_varint_round_trip_at(n: int, rest: Seq<u8>, depth: int)
    requires
        0 <= depth <= 3,
        0 <= n < varint_bound(depth),
    ensures
        parse_varint_from(varint(n) + rest, depth) == Ok::<(int, int), ReaderError>(
            (n, varint(n).len() as int),
        ),
    decreases 4 - depth,
{
    let s = varint(n) + rest;
    if n < 128 {
        assert(s[0] == n as u8);
    } else {
        let b = (n % 128 + 128) as u8;
        assert(s[0] == b);
        assert(s.skip(1) =~= varint(n / 128) + rest);
        lemma_varint_round_trip_at(n / 128, rest, depth + 1);
        assert((b - 128) + 128 * (n / 128) == n);
    }
}

/// The remaining-length varint round-trips for every value it can
/// carry, whatever bytes follow it.
pub proof fn lemma_varint_round_trip(n: int, rest: Seq<u8>)
    requires
        0 <= n <= VARINT_MAX,
    ensures
        parse_varint(varint(n) + rest) == Ok::<(int, int), ReaderError>(
            (n, varint(n).len() as int),
        ),
{
    lemma_varint_round_trip_at(n, rest, 0);
}

/// A big-endian 16-bit value reads back, whatever bytes follow it.
proof fn lemma_be16_round_trip(v: u16, rest: Seq<u8>)
    ensures
        parse_be16(be16(v as int) + rest) == Some(v),
{
    let s = be16(v as int) + rest;
    assert(s[0] == (v as int / 256) as u8);
    assert(s[1] == (v as int % 256) as u8);
    assert(s[0] * 256 + s[1] == v as int);
}

/// A length-prefixed byte run reads back, whatever bytes follow it.
proof fn lemma_len_arr_round_trip(b: Seq<u8>, rest: Seq<u8>)
    requires
        b.len() <= LEN_MAX,
    ensures
        parse_len_arr(len_pref(b) + rest) == Ok::<(Seq<u8>, int), ReaderError>(
            (b, 2 + b.len() as int),
        ),
{
    let s = len_pref(b) + rest;
    assert(s[0] == (b.len() as int / 256) as u8);
    assert(s[1] == (b.len() as int % 256) as u8);
    assert(s[0] * 256 + s[1] == b.len() as int);
    assert(parse_be16(s) == Some(b.len() as u16));
    assert(s.subrange(2, 2 + b.len() as int) =~= b);
}

/// A length-prefixed string reads back, whatever bytes follow it.
proof fn lemma_len_str_round_trip(t: Seq<char>, rest: Seq<u8>)
    requires
        encode_utf8(t).len() <= LEN_MAX,
    ensures
        parse_len_str(len_pref(encode_utf8(t)) + rest) == Ok::<(Seq<char>, int), ReaderError>(
            (t, 2 + encode_utf8(t).len() as int),
        ),
{
    lemma_len_arr_round_trip(encode_utf8(t), rest);
    encode_utf8_valid_utf8(t);
    encode_utf8_decode_utf8(t);
}

/// The bit fields packed into the CONNECT flags byte read back.
proof fn lemma_connect_flags_bits(a: u8, w: u8, q: u8, r: u8, p: u8, u: u8)
    requires
        a <= 1,
        w <= 1,
        q <= 2,
        r <= 1,
        p <= 1,
        u <= 1,
    ensures
        ({
            let f = (a * 2 + w * 4 + q * 8 + r * 32 + p * 64 + u * 128) as u8;
            &&& (f / 2) % 2 == a
            &&& (f / 4) % 2 == w
            &&& (f / 8) % 4 == q
            &&& (f / 32) % 2 == r
            &&& (f / 64) % 2 == p
            &&& (f / 128) % 2 == u
        }),
{
    let f = (a * 2 + w * 4 + q * 8 + r * 32 + p * 64 + u * 128) as u8;
    assert((f / 2) % 2 == a && (f / 4) % 2 == w && (f / 8) % 4 == q && (f / 32) % 2 == r && (f
        / 64) % 2 == p && (f / 128) % 2 == u) by (bit_vector)
        requires
            a <= 1,
            w <= 1,
            q <= 2,
            r <= 1,
            p <= 1,
            u <= 1,
            f == (a * 2 + w * 4 + q * 8 + r * 32 + p * 64 + u * 128) as u8,
    ;
}

/// The bit fields packed into the PUBLISH flags nibble read back.
proof fn lemma_publish_flags_bits(r: u8, q: u8, d: u8)
    requires
        r <= 1,
        q <= 2,
        d <= 1,
    ensures
        ({
            let f = (r + q * 2 + d * 8) as u8;
            &&& f % 2 == r
            &&& (f / 2) % 4 == q
            &&& (f / 8) % 2 == d
            &&& f < 16
        }),
{
    let f = (r + q * 2 + d * 8) as u8;
    assert(f % 2 == r && (f / 2) % 4 == q && (f / 8) % 2 == d && f < 16) by (bit_vector)
        requires
            r <= 1,
            q <= 2,
            d <= 1,
            f == (r + q * 2 + d * 8) as u8,
    ;
}

/// A level maps back to itself through its numeric wire value.
proof fn lemma_qos_num_round_trip(q: QoS)
    ensures
        QoS::spec_from_u8(q.as_num()) == Some(q),
        q.as_num() <= 2,
{
}

/// A SUBACK return code maps back through its numeric wire value.
proof fn lemma_code_num_round_trip(c: SubackReturnCode)
    ensures
        SubackReturnCode::spec_from_u8(c.as_num()) == Some(c),
{
}

/// The SUBSCRIBE filter payload parses back to its filter list.
proof fn lemma_filters_round_trip(fs: Seq<(Seq<char>, QoS)>)
    requires
        forall|i: int| 0 <= i < fs.len() ==> #[trigger] encode_utf8(fs[i].0).len() <= LEN_MAX,
    ensures
        parse_filters(subscribe_payload(fs)) == Ok::<Seq<(Seq<char>, QoS)>, ReaderError>(fs),
    decreases fs.len(),
{
    if fs.len() == 0 {
        assert(parse_filters(subscribe_payload(fs)) == Ok::<Seq<(Seq<char>, QoS)>, ReaderError>(
            Seq::empty(),
        ));
        assert(fs =~= Seq::<(Seq<char>, QoS)>::empty());
    } else {
        let f0 = fs[0];
        let s = subscribe_payload(fs);
        let et = encode_utf8(f0.0);
        let tail = seq![f0.1.as_num()] + subscribe_payload(fs.skip(1));
        assert(s =~= len_pref(et) + tail);
        lemma_len_str_round_trip(f0.0, tail);
        let c = 2 + et.len() as int;
        assert(s.len() == c + 1 + subscribe_payload(fs.skip(1)).len());
        assert(s[c] == f0.1.as_num());
        lemma_qos_num_round_trip(f0.1);
        assert(s.skip(c + 1) =~= subscribe_payload(fs.skip(1)));
        assert(forall|i: int|
            0 <= i < fs.skip(1).len() ==> #[trigger] encode_utf8(fs.skip(1)[i].0).len()
                <= LEN_MAX);
        lemma_filters_round_trip(fs.skip(1));
        assert(seq![(f0.0, f0.1)] + fs.skip(1) =~= fs);
    }
}

/// The SUBACK code payload parses back to its code list.
proof fn lemma_codes_round_trip(cs: Seq<SubackReturnCode>)
    ensures
        parse_codes(cs.map_values(|c: SubackReturnCode| c.as_num())) == Ok::<
            Seq<SubackReturnCode>,
            ReaderError,
        >(cs),
    decreases cs.len(),
{
    let s = cs.map_values(|c: SubackReturnCode| c.as_num());
    if cs.len() == 0 {
        assert(cs =~= Seq::<SubackReturnCode>::empty());
    } else {
        assert(s[0] == cs[0].as_num());
        lemma_code_num_round_trip(cs[0]);
        assert(s.skip(1) =~= cs.skip(1).map_values(|c: SubackReturnCode| c.as_num()));
        lemma_codes_round_trip(cs.skip(1));
        assert(seq![cs[0]] + cs.skip(1) =~= cs);
    }
}

/// The UNSUBSCRIBE topic payload parses back to its topic list.
proof fn lemma_topics_round_trip(ts: Seq<Seq<char>>)
    requires
        forall|i: int| 0 <= i < ts.len() ==> #[trigger] encode_utf8(ts[i]).len() <= LEN_MAX,
    ensures
        parse_topics(unsubscribe_payload(ts)) == Ok::<Seq<Seq<char>>, ReaderError>(ts),
    decreases ts.len(),
{
    if ts.len() == 0 {
        assert(ts =~= Seq::<Seq<char>>::empty());
    } else {
        let t0 = ts[0];
        let s = unsubscribe_payload(ts);
        let et = encode_utf8(t0);
        let tail = unsubscribe_payload(ts.skip(1));
        assert(s =~= len_pref(et) + tail);
        lemma_len_str_round_trip(t0, tail);
        let c = 2 + et.len() as int;
        assert(s.skip(c) =~= tail);
        assert(forall|i: int|
            0 <= i < ts.skip(1).len() ==> #[trigger] encode_utf8(ts.skip(1)[i]).len() <= LEN_MAX);
        lemma_topics_round_trip(ts.skip(1));
        assert(seq![t0] + ts.skip(1) =~= ts);
    }
}

/// The bytes an optional string contributes to a CONNECT payload.
spec fn opt_str_bytes(o: Option<Seq<char>>) -> Seq<u8> {
    match o {
        Some(t) => len_pref(encode_utf8(t)),
        None => Seq::empty(),
    }
}

/// The bytes an optional byte run contributes to a CONNECT payload.
spec fn opt_arr_bytes(o: Option<Seq<u8>>) -> Seq<u8> {
    match o {
        Some(b) => len_pref(b),
        None => Seq::empty(),
    }
}

/// The bytes an optional will message contributes to a CONNECT payload.
spec fn will_msg_bytes(o: Option<MessageV>) -> Seq<u8> {
    match o {
        Some(m) => len_pref(encode_utf8(m.topic)) + len_pref(m.payload),
        None => Seq::empty(),
    }
}

/// An optional string reads back when its flag says whether it is there.
proof fn lemma_opt_str_parses(o: Option<Seq<char>>, rest: Seq<u8>)
    requires
        o matches Some(t) ==> encode_utf8(t).len() <= LEN_MAX,
    ensures
        parse_opt_str(o is Some, opt_str_bytes(o) + rest) == Ok::<
            (Option<Seq<char>>, int),
            ReaderError,
        >((o, opt_str_bytes(o).len() as int)),
{
    match o {
        Some(t) => {
            lemma_len_str_round_trip(t, rest);
        },
        None => {},
    }
}

/// An optional byte run reads back when its flag says whether it is
/// there.
proof fn lemma_opt_arr_parses(o: Option<Seq<u8>>, rest: Seq<u8>)
    requires
        o matches Some(b) ==> b.len() <= LEN_MAX,
    ensures
        parse_opt_arr(o is Some, opt_arr_bytes(o) + rest) == Ok::<
            (Option<Seq<u8>>, int),
            ReaderError,
        >((o, opt_arr_bytes(o).len() as int)),
{
    match o {
        Some(b) => {
            lemma_len_arr_round_trip(b, rest);
        },
        None => {},
    }
}

/// An optional will message reads back under its own flag bits.
proof fn lemma_will_parses(o: Option<MessageV>, rest: Seq<u8>)
    requires
        o matches Some(m) ==> encode_utf8(m.topic).len() <= LEN_MAX && m.payload.len() <= LEN_MAX,
    ensures
        ({
            let q: u8 = match o {
                Some(m) => m.qos.as_num(),
                None => 0,
            };
            let wr: bool = match o {
                Some(m) => m.retain,
                None => false,
            };
            parse_will(o is Some, q, wr, will_msg_bytes(o) + rest) == Ok::<
                (Option<MessageV>, int),
                ReaderError,
            >((o, will_msg_bytes(o).len() as int))
        }),
{
    match o {
        Some(m) => {
            let s = will_msg_bytes(o) + rest;
            assert(s =~= len_pref(encode_utf8(m.topic)) + (len_pref(m.payload) + rest));
            lemma_len_str_round_trip(m.topic, len_pref(m.payload) + rest);
            let d1 = 2 + encode_utf8(m.topic).len() as int;
            assert(s.skip(d1) =~= len_pref(m.payload) + rest);
            lemma_len_arr_round_trip(m.payload, rest);
            lemma_qos_num_round_trip(m.qos);
        },
        None => {},
    }
}

/// Skipping in two steps is skipping once.
proof fn lemma_skip_skip(s: Seq<u8>, a: int, b: int)
    requires
        0 <= a,
        0 <= b,
        a + b <= s.len(),
    ensures
        s.skip(a).skip(b) == s.skip(a + b),
{
    assert(s.skip(a).skip(b) =~= s.skip(a + b));
}

/// Concatenation of byte runs is associative.
proof fn lemma_add_assoc(a: Seq<u8>, b: Seq<u8>, c: Seq<u8>)
    ensures
        (a + b) + c == a + (b + c),
{
    assert((a + b) + c =~= a + (b + c));
}

/// Appending nothing changes nothing.
proof fn lemma_add_empty(a: Seq<u8>)
    ensures
        a + Seq::<u8>::empty() == a,
{
    assert(a + Seq::<u8>::empty() =~= a);
}

/// Skipping a concatenation's first part leaves its second.
proof fn lemma_skip_concat(a: Seq<u8>, b: Seq<u8>)
    ensures
        (a + b).skip(a.len() as int) == b,
{
    assert((a + b).skip(a.len() as int) =~= b);
}

/// The CONNECT payload parses back field by field: client identifier,
/// will, username, password, in that order.
#[verifier::spinoff_prover]
proof fn lemma_connect_payload_round_trip(
    client_id: Seq<char>,
    username: Option<Seq<char>>,
    password: Option<Seq<u8>>,
    will: Option<MessageV>,
)
    requires
        encode_utf8(client_id).len() <= LEN_MAX,
        will matches Some(m) ==> encode_utf8(m.topic).len() <= LEN_MAX && m.payload.len()
            <= LEN_MAX,
        username matches Some(t) ==> encode_utf8(t).len() <= LEN_MAX,
        password matches Some(b) ==> b.len() <= LEN_MAX,
    ensures
        ({
            let pl = len_pref(encode_utf8(client_id)) + (will_msg_bytes(will) + (opt_str_bytes(
                username,
            ) + opt_arr_bytes(password)));
            let c1 = 2 + encode_utf8(client_id).len() as int;
            let c2 = will_msg_bytes(will).len() as int;
            let c3 = opt_str_bytes(username).len() as int;
            let q: u8 = match will {
                Some(m) => m.qos.as_num(),
                None => 0,
            };
            let wr: bool = match will {
                Some(m) => m.retain,
                None => false,
            };
            &&& parse_len_str(pl) == Ok::<(Seq<char>, int), ReaderError>((client_id, c1))
            &&& parse_will(will is Some, q, wr, pl.skip(c1)) == Ok::<
                (Option<MessageV>, int),
                ReaderError,
            >((will, c2))
            &&& parse_opt_str(username is Some, pl.skip(c1 + c2)) == Ok::<
                (Option<Seq<char>>, int),
                ReaderError,
            >((username, c3))
            &&& parse_opt_arr(password is Some, pl.skip(c1 + c2 + c3)) == Ok::<
                (Option<Seq<u8>>, int),
                ReaderError,
            >((password, opt_arr_bytes(password).len() as int))
        }),
{
    let tail3 = opt_arr_bytes(password);
    let tail2 = opt_str_bytes(username) + tail3;
    let tail1 = will_msg_bytes(will) + tail2;
    let pl = len_pref(encode_utf8(client_id)) + tail1;
    let c1 = 2 + encode_utf8(client_id).len() as int;
    let c2 = will_msg_bytes(will).len() as int;
    let c3 = opt_str_bytes(username).len() as int;
    lemma_len_str_round_trip(client_id, tail1);
    assert(pl.skip(c1) =~= tail1);
    lemma_will_parses(will, tail2);
    assert(pl.skip(c1 + c2) =~= tail2);
    lemma_opt_str_parses(username, tail3);
    assert(pl.skip(c1 + c2 + c3) =~= tail3);
    lemma_opt_arr_parses(password, Seq::empty());
    assert(tail3 + Seq::<u8>::empty() =~= tail3);
}

/// What each step of parsing a CONNECT body yields: the flag bits, the
/// keep-alive, and the payload fields in order.
spec fn connect_steps_hold(pv: PacketV) -> bool {
    let body = body_bytes(pv);
    let cf = body[7];
    let c1 = 2 + encode_utf8(pv->client_id).len() as int;
    let c2 = will_msg_bytes(pv->will).len() as int;
    let c3 = opt_str_bytes(pv->username).len() as int;
    let q: u8 = match pv->will {
        Some(m) => m.qos.as_num(),
        None => 0,
    };
    let wr: bool = match pv->will {
        Some(m) => m.retain,
        None => false,
    };
    &&& body.len() >= 10
    &&& ((cf / 2) % 2 == 1) == pv->clean_session
    &&& ((cf / 4) % 2 == 1) == (pv->will is Some)
    &&& ((cf / 8) % 4) as u8 == q
    &&& ((cf / 32) % 2 == 1) == wr
    &&& ((cf / 64) % 2 == 1) == (pv->password is Some)
    &&& ((cf / 128) % 2 == 1) == (pv->username is Some)
    &&& parse_be16(body.skip(8)) == Some(pv->keep_alive)
    &&& parse_len_str(body.skip(10)) == Ok::<(Seq<char>, int), ReaderError>((pv->client_id, c1))
    &&& parse_will(pv->will is Some, q, wr, body.skip(10 + c1)) == Ok::<
        (Option<MessageV>, int),
        ReaderError,
    >((pv->will, c2))
    &&& parse_opt_str(pv->username is Some, body.skip(10 + c1 + c2)) == Ok::<
        (Option<Seq<char>>, int),
        ReaderError,
    >((pv->username, c3))
    &&& parse_opt_arr(pv->password is Some, body.skip(10 + c1 + c2 + c3)) == Ok::<
        (Option<Seq<u8>>, int),
        ReaderError,
    >((pv->password, opt_arr_bytes(pv->password).len() as int))
}

/// A CONNECT body parses back to its packet.
#[verifier::spinoff_prover]
#[verifier::rlimit(100)]
proof fn lemma_connect_body_round_trip(pv: PacketV)
    requires
        pv is CONNECT,
        lengths_ok(pv),
    ensures
        parse_connect(body_bytes(pv)) == Ok::<PacketV, ReaderError>(pv),
{
    lemma_connect_steps(pv);
    assert(parse_connect(body_bytes(pv)) == Ok::<PacketV, ReaderError>(pv));
}

/// Establishes the step facts for a CONNECT body.
#[verifier::spinoff_prover]
#[verifier::rlimit(100)]
proof fn lemma_connect_steps(pv: PacketV)
    requires
        pv is CONNECT,
        lengths_ok(pv),
    ensures
        connect_steps_hold(pv),
{
    match pv {
        PacketV::CONNECT { client_id, username, password, will, clean_session, keep_alive } => {
            let cf = connect_flags(clean_session, will, password is Some, username is Some);
            let a: u8 = if clean_session {
                1
            } else {
                0
            };
            let w: u8 = if will is Some {
                1
            } else {
                0
            };
            let q: u8 = match will {
                Some(m) => m.qos.as_num(),
                None => 0,
            };
            let r: u8 = match will {
                Some(m) => if m.retain {
                    1
                } else {
                    0
                },
                None => 0,
            };
            let p: u8 = if password is Some {
                1
            } else {
                0
            };
            let u: u8 = if username is Some {
                1
            } else {
                0
            };
            assert(cf == (a * 2 + w * 4 + q * 8 + r * 32 + p * 64 + u * 128) as u8);
            lemma_connect_flags_bits(a, w, q, r, p, u);
            let body = body_bytes(pv);
            let fa = len_pref(encode_utf8(client_id));
            let fb = will_msg_bytes(will);
            let fc = opt_str_bytes(username);
            let fd = opt_arr_bytes(password);
            assert(payload_bytes(pv) == ((fa + fb) + fc) + fd);
            lemma_add_assoc(fa + fb, fc, fd);
            lemma_add_assoc(fa, fb, fc + fd);
            let pl = fa + (fb + (fc + fd));
            let pre8 = connect_preamble() + seq![cf];
            assert(var_header(pv) == pre8 + be16(keep_alive as int));
            lemma_add_assoc(pre8, be16(keep_alive as int), pl);
            assert(body == pre8 + (be16(keep_alive as int) + pl));
            assert(pre8.len() == 8);
            assert(body[7] == cf);
            lemma_skip_concat(pre8, be16(keep_alive as int) + pl);
            lemma_be16_round_trip(keep_alive, pl);
            lemma_skip_skip(body, 8, 2);
            lemma_skip_concat(be16(keep_alive as int), pl);
            assert(body.skip(10) == pl);
            lemma_connect_payload_round_trip(client_id, username, password, will);
            let c1 = 2 + encode_utf8(client_id).len() as int;
            let c2 = will_msg_bytes(will).len() as int;
            let c3 = opt_str_bytes(username).len() as int;
            lemma_skip_skip(body, 10, c1);
            lemma_skip_skip(body, 10, c1 + c2);
            lemma_skip_skip(body, 10, c1 + c2 + c3);
            assert(body.len() >= 8);
            assert(((cf / 2) % 2 == 1) == clean_session);
            assert(((cf / 4) % 2 == 1) == (will is Some));
            assert(((cf / 8) % 4) as u8 == q);
            assert(((cf / 32) % 2 == 1) == (match will {
                Some(m) => m.retain,
                None => false,
            }));
            assert(((cf / 64) % 2 == 1) == (password is Some));
            assert(((cf / 128) % 2 == 1) == (username is Some));
            assert(parse_be16(body.skip(8)) == Some(keep_alive));
            assert(parse_len_str(body.skip(10)) == Ok::<(Seq<char>, int), ReaderError>(
                (client_id, c1),
            ));
            assert(parse_will(
                will is Some,
                q,
                (match will {
                    Some(m) => m.retain,
                    None => false,
                }),
                body.skip(10 + c1),
            ) == Ok::<(Option<MessageV>, int), ReaderError>((will, c2)));
            assert(parse_opt_str(username is Some, body.skip(10 + c1 + c2)) == Ok::<
                (Option<Seq<char>>, int),
                ReaderError,
            >((username, c3)));
            assert(parse_opt_arr(password is Some, body.skip(10 + c1 + c2 + c3)) == Ok::<
                (Option<Seq<u8>>, int),
                ReaderError,
            >((password, opt_arr_bytes(password).len() as int)));
        },
        _ => {},
    }
}

/// A PUBLISH body parses back to its packet under its own flags nibble.
proof fn lemma_publish_body_round_trip(pv: PacketV)
    requires
        pv is PUBLISH,
        wf(pv),
    ensures
        parse_publish(flags_nibble(pv), body_bytes(pv)) == Ok::<PacketV, ReaderError>(pv),
{
    match pv {
        PacketV::PUBLISH { dup, message, packet_id } => {
            let r: u8 = if message.retain {
                1
            } else {
                0
            };
            let q: u8 = message.qos.as_num();
            let d: u8 = if dup {
                1
            } else {
                0
            };
            let fl = flags_nibble(pv);
            assert(fl == (r + q * 2 + d * 8) as u8);
            lemma_publish_flags_bits(r, q, d);
            lemma_qos_num_round_trip(message.qos);
            let body = body_bytes(pv);
            let et = encode_utf8(message.topic);
            match packet_id {
                Some(pid) => {
                    assert(message.qos != QoS::QoS0);
                    assert(var_header(pv) == len_pref(et) + be16(pid as int));
                    lemma_add_assoc(len_pref(et), be16(pid as int), message.payload);
                    assert(body == len_pref(et) + (be16(pid as int) + message.payload));
                    lemma_len_str_round_trip(message.topic, be16(pid as int) + message.payload);
                    let c1 = 2 + et.len() as int;
                    assert(len_pref(et).len() == c1);
                    lemma_skip_concat(len_pref(et), be16(pid as int) + message.payload);
                    lemma_be16_round_trip(pid, message.payload);
                    lemma_skip_skip(body, c1, 2);
                    lemma_skip_concat(be16(pid as int), message.payload);
                    assert(body.skip(c1 + 2) == message.payload);
                },
                None => {
                    assert(message.qos == QoS::QoS0);
                    lemma_add_empty(len_pref(et));
                    assert(var_header(pv) == len_pref(et));
                    assert(body == len_pref(et) + message.payload);
                    lemma_len_str_round_trip(message.topic, message.payload);
                    let c1 = 2 + et.len() as int;
                    assert(len_pref(et).len() == c1);
                    lemma_skip_concat(len_pref(et), message.payload);
                    assert(body.skip(c1) == message.payload);
                },
            }
            assert(parse_publish(fl, body) == Ok::<PacketV, ReaderError>(pv));
        },
        _ => {},
    }
}

/// A packet identifier body parses back to its identifier.
proof fn lemma_pid_round_trip(pid: u16)
    ensures
        parse_pid(be16(pid as int)) == Ok::<u16, ReaderError>(pid),
{
    assert(be16(pid as int) + Seq::<u8>::empty() =~= be16(pid as int));
    lemma_be16_round_trip(pid, Seq::empty());
}

/// The body of every well-formed packet parses back to that packet
/// under its own type code and flags nibble.
#[verifier::spinoff_prover]
#[verifier::rlimit(100)]
proof fn lemma_body_round_trip(pv: PacketV)
    requires
        wf(pv),
    ensures
        parse_packet_body(type_code(pv), flags_nibble(pv), body_bytes(pv)) == Ok::<
            PacketV,
            ReaderError,
        >(pv),
{
    match pv {
        PacketV::CONNECT { .. } => {
            lemma_connect_body_round_trip(pv);
        },
        PacketV::CONNACK { session_present, return_code } => {
            let body = body_bytes(pv);
            lemma_add_empty(var_header(pv));
            assert(body == seq![
                (if session_present {
                    1u8
                } else {
                    0u8
                }),
                return_code.as_num(),
            ]);
            assert(ConnectReturnCode::spec_from_u8(return_code.as_num()) == Some(return_code));
            assert(parse_connack(body) == Ok::<PacketV, ReaderError>(pv));
        },
        PacketV::PUBLISH { .. } => {
            lemma_publish_body_round_trip(pv);
        },
        PacketV::PUBACK { packet_id } => {
            lemma_add_empty(be16(packet_id as int));
            assert(body_bytes(pv) == be16(packet_id as int));
            lemma_pid_round_trip(packet_id);
        },
        PacketV::PUBREC { packet_id } => {
            lemma_add_empty(be16(packet_id as int));
            assert(body_bytes(pv) == be16(packet_id as int));
            lemma_pid_round_trip(packet_id);
        },
        PacketV::PUBREL { packet_id } => {
            lemma_add_empty(be16(packet_id as int));
            assert(body_bytes(pv) == be16(packet_id as int));
            lemma_pid_round_trip(packet_id);
        },
        PacketV::PUBCOMP { packet_id } => {
            lemma_add_empty(be16(packet_id as int));
            assert(body_bytes(pv) == be16(packet_id as int));
            lemma_pid_round_trip(packet_id);
        },
        PacketV::SUBSCRIBE { packet_id, topic_filters } => {
            let body = body_bytes(pv);
            assert(body == be16(packet_id as int) + subscribe_payload(topic_filters));
            lemma_be16_round_trip(packet_id, subscribe_payload(topic_filters));
            lemma_skip_concat(be16(packet_id as int), subscribe_payload(topic_filters));
            assert(body.skip(2) == subscribe_payload(topic_filters));
            lemma_filters_round_trip(topic_filters);
        },
        PacketV::SUBACK { packet_id, return_codes } => {
            let body = body_bytes(pv);
            assert(body == be16(packet_id as int) + return_codes.map_values(
                |c: SubackReturnCode| c.as_num(),
            ));
            lemma_be16_round_trip(
                packet_id,
                return_codes.map_values(|c: SubackReturnCode| c.as_num()),
            );
            lemma_skip_concat(
                be16(packet_id as int),
                return_codes.map_values(|c: SubackReturnCode| c.as_num()),
            );
            assert(body.skip(2) == return_codes.map_values(|c: SubackReturnCode| c.as_num()));
            lemma_codes_round_trip(return_codes);
        },
        PacketV::UNSUBSCRIBE { packet_id, topic_filters } => {
            let body = body_bytes(pv);
            assert(body == be16(packet_id as int) + unsubscribe_payload(topic_filters));
            lemma_be16_round_trip(packet_id, unsubscribe_payload(topic_filters));
            lemma_skip_concat(be16(packet_id as int), unsubscribe_payload(topic_filters));
            assert(body.skip(2) == unsubscribe_payload(topic_filters));
            lemma_topics_round_trip(topic_filters);
        },
        PacketV::UNSUBACK { packet_id } => {
            lemma_add_empty(be16(packet_id as int));
            assert(body_bytes(pv) == be16(packet_id as int));
            lemma_pid_round_trip(packet_id);
        },
        PacketV::PINGREQ => {},
        PacketV::PINGRESP => {},
        PacketV::DISCONNECT => {},
    }
}

/// The flags nibble always fits four bits.
proof fn lemma_flags_nibble_small(pv: PacketV)
    ensures
        flags_nibble(pv) < 16,
        1 <= type_code(pv) <= 14,
{
    match pv {
        PacketV::PUBLISH { dup, message, .. } => {
            assert(message.qos.as_num() <= 2);
        },
        _ => {},
    }
}

/// Round trip: the wire bytes of every well-formed packet decode back
/// to exactly that packet, consuming exactly those bytes.  Together
/// with the writer's and reader's contracts this says that
/// `read_from` applied to what `write_to` produced returns the
/// original packet.
pub proof fn lemma_round_trip(pv: PacketV)
    requires
        wf(pv),
    ensures
        spec_read(wire(pv)) == Ok::<(PacketV, int), ReaderError>((pv, wire(pv).len() as int)),
{
    let body = body_bytes(pv);
    let bl = body.len() as int;
    let tc = type_code(pv);
    let fl = flags_nibble(pv);
    lemma_flags_nibble_small(pv);
    let b0 = (tc * 16 + fl) as u8;
    let bytes = wire(pv);
    assert(bytes[0] == b0);
    assert(b0 / 16 == tc && b0 % 16 == fl) by (nonlinear_arith)
        requires
            1 <= tc <= 14,
            fl < 16,
            b0 == (tc * 16 + fl) as u8,
    ;
    assert(bytes.skip(1) =~= varint(bl) + body);
    lemma_varint_round_trip(bl, body);
    let k = varint(bl).len() as int;
    assert(bytes.len() == 1 + k + bl);
    assert(bytes.subrange(1 + k, 1 + k + bl) =~= body);
    lemma_body_round_trip(pv);
}

} // verus!
