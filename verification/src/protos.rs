//! The two protobuf messages exchanged with the relay server: `Envelope`,
//! which carries a `Content` as bytes, and `Content`, which carries one
//! protocol message with its id, kind, sender and receiver.
//!
//! The schema is the one that this crate defines and README.md writes out as
//! a proto2 file: each message numbers its fields from 1 in the order they
//! are declared below, and `Content.Type` lists `BROADCAST = 0` before
//! `P2P = 1`, so that a broadcast is the enum's default. A relay server and
//! its other clients must use the same schema for frames to be understood.

use vstd::prelude::*;
use vstd::slice::slice_subrange;
use vstd::slice::slice_to_vec;
use crate::wire::{
    key_bytes, key_parse, put_key, put_varint, skip_field, skip_field_rest, take_key,
    take_varint, varint_bytes, varint_parse, MAX_TAG, WIRE_LEN, WIRE_VARINT,
};

verus! {

/// Tag of `Envelope.content` (bytes).
pub const ENVELOPE_CONTENT: u32 = 1;

/// Tag of `Envelope.timestamp` (uint64).
pub const ENVELOPE_TIMESTAMP: u32 = 2;

/// Tag of `Content.id` (uint64).
pub const CONTENT_ID: u32 = 1;

/// Tag of `Content.type` (enum `Content.Type`, an int32 on the wire).
pub const CONTENT_TYPE: u32 = 2;

/// Tag of `Content.sender` (uint32).
pub const CONTENT_SENDER: u32 = 3;

/// Tag of `Content.receiver` (uint32).
pub const CONTENT_RECEIVER: u32 = 4;

/// Tag of `Content.message` (bytes).
pub const CONTENT_MESSAGE: u32 = 5;

/// Number of `Content.Type.BROADCAST`, the default of the enum.
pub const TYPE_BROADCAST: i32 = 0;

/// Number of `Content.Type.P2P`.
pub const TYPE_P2P: i32 = 1;

/// Why a frame could not be decoded, as the contracts see it.
pub enum WireFault {
    /// prost refused a varint, a key or an unknown field.
    Malformed,
    /// A known field came with another wire type than its own.
    WrongWireType { found: u8, expected: u8 },
    /// A length-delimited field is longer than what is left of the frame.
    BufferUnderflow,
}

/// Why a frame could not be decoded.
pub enum ProtoError {
    /// prost refused a varint, a key or an unknown field.
    Malformed(prost::DecodeError),
    /// A known field came with another wire type than its own.
    WrongWireType { found: u8, expected: u8 },
    /// A length-delimited field is longer than what is left of the frame.
    BufferUnderflow,
}

impl ProtoError {
    /// The kind of failure, without prost's description.
    pub open spec fn fault(&self) -> WireFault {
        match self {
            ProtoError::Malformed(_) => WireFault::Malformed,
            ProtoError::WrongWireType { found, expected } => WireFault::WrongWireType {
                found: *found,
                expected: *expected,
            },
            ProtoError::BufferUnderflow => WireFault::BufferUnderflow,
        }
    }
}

/// The outer frame of every binary websocket message.
pub struct Envelope {
    pub content: Option<Vec<u8>>,
    pub timestamp: Option<u64>,
}

/// What an `Envelope` holds.
pub struct EnvelopeModel {
    pub content: Option<Seq<u8>>,
    pub timestamp: Option<u64>,
}

/// The kind of a protocol message on the wire.
#[derive(PartialEq, Eq, Structural, Clone, Copy, Debug)]
pub enum ContentType {
    Broadcast,
    P2p,
}

/// One protocol message with its routing data.
pub struct Content {
    pub id: Option<u64>,
    pub type_: Option<i32>,
    pub sender: Option<u32>,
    pub receiver: Option<u32>,
    pub message: Option<Vec<u8>>,
}

/// What a `Content` holds.
pub struct ContentModel {
    pub id: Option<u64>,
    pub type_: Option<i32>,
    pub sender: Option<u32>,
    pub receiver: Option<u32>,
    pub message: Option<Seq<u8>>,
}

/// The bytes of an optional bytes field.
pub open spec fn opt_bytes_view(o: Option<Vec<u8>>) -> Option<Seq<u8>> {
    match o {
        Some(v) => Some(v@),
        None => None,
    }
}

impl View for Envelope {
    type V = EnvelopeModel;

    open spec fn view(&self) -> EnvelopeModel {
        EnvelopeModel { content: opt_bytes_view(self.content), timestamp: self.timestamp }
    }
}

impl View for Content {
    type V = ContentModel;

    open spec fn view(&self) -> ContentModel {
        ContentModel {
            id: self.id,
            type_: self.type_,
            sender: self.sender,
            receiver: self.receiver,
            message: opt_bytes_view(self.message),
        }
    }
}

impl EnvelopeModel {
    /// The envelope with no field set.
    pub open spec fn empty() -> EnvelopeModel {
        EnvelopeModel { content: None, timestamp: None }
    }

    /// The content bytes, empty where the field is unset.
    pub open spec fn content_or_empty(self) -> Seq<u8> {
        match self.content {
            Some(c) => c,
            None => Seq::empty(),
        }
    }
}

/// The kind that a raw `type` field stands for: `P2p` for its number, and
/// the enum's default `Broadcast` for an unset field or any other number.
pub open spec fn content_type_of(raw: Option<i32>) -> ContentType {
    if raw == Some(TYPE_P2P) {
        ContentType::P2p
    } else {
        ContentType::Broadcast
    }
}

impl ContentModel {
    /// The content with no field set.
    pub open spec fn empty() -> ContentModel {
        ContentModel { id: None, type_: None, sender: None, receiver: None, message: None }
    }

    /// The id, 0 where unset.
    pub open spec fn id_or_default(self) -> u64 {
        match self.id {
            Some(v) => v,
            None => 0,
        }
    }

    /// The sender, 0 where unset.
    pub open spec fn sender_or_default(self) -> u32 {
        match self.sender {
            Some(v) => v,
            None => 0,
        }
    }

    /// The receiver, 0 where unset.
    pub open spec fn receiver_or_default(self) -> u32 {
        match self.receiver {
            Some(v) => v,
            None => 0,
        }
    }

    /// The message bytes, empty where unset.
    pub open spec fn message_or_empty(self) -> Seq<u8> {
        match self.message {
            Some(m) => m,
            None => Seq::empty(),
        }
    }

    /// The kind of the message.
    pub open spec fn kind(self) -> ContentType {
        content_type_of(self.type_)
    }
}

// ---------------------------------------------------------------------
// Encoding
// ---------------------------------------------------------------------

/// A varint field: its key, then the varint of the value.
pub open spec fn varint_field_bytes(tag: u32, v: nat) -> Seq<u8> {
    key_bytes(tag, WIRE_VARINT) + varint_bytes(v)
}

/// A bytes field: its key, the varint of the length, then the bytes.
pub open spec fn bytes_field_bytes(tag: u32, b: Seq<u8>) -> Seq<u8> {
    key_bytes(tag, WIRE_LEN) + varint_bytes(b.len()) + b
}

/// An optional varint field: nothing where it is unset.
pub open spec fn opt_varint_field(tag: u32, v: Option<nat>) -> Seq<u8> {
    match v {
        Some(x) => varint_field_bytes(tag, x),
        None => Seq::empty(),
    }
}

/// An optional bytes field: nothing where it is unset.
pub open spec fn opt_bytes_field(tag: u32, b: Option<Seq<u8>>) -> Seq<u8> {
    match b {
        Some(x) => bytes_field_bytes(tag, x),
        None => Seq::empty(),
    }
}

/// The encoding of an envelope: its set fields in tag order.
pub open spec fn envelope_bytes(e: EnvelopeModel) -> Seq<u8> {
    opt_bytes_field(ENVELOPE_CONTENT, e.content) + opt_varint_field(
        ENVELOPE_TIMESTAMP,
        match e.timestamp {
            Some(t) => Some(t as nat),
            None => None,
        },
    )
}

/// The encoding of a content: its set fields in tag order; an int32 goes on
/// the wire as its 64-bit two's complement.
pub open spec fn content_bytes(c: ContentModel) -> Seq<u8> {
    opt_varint_field(
        CONTENT_ID,
        match c.id {
            Some(v) => Some(v as nat),
            None => None,
        },
    ) + opt_varint_field(
        CONTENT_TYPE,
        match c.type_ {
            Some(v) => Some((v as u64) as nat),
            None => None,
        },
    ) + opt_varint_field(
        CONTENT_SENDER,
        match c.sender {
            Some(v) => Some(v as nat),
            None => None,
        },
    ) + opt_varint_field(
        CONTENT_RECEIVER,
        match c.receiver {
            Some(v) => Some(v as nat),
            None => None,
        },
    ) + opt_bytes_field(CONTENT_MESSAGE, c.message)
}

/// Appends a varint field to `buf`.
fn put_varint_field(tag: u32, v: u64, buf: &mut Vec<u8>)
    requires
        1 <= tag <= MAX_TAG,
    ensures
        final(buf)@ == old(buf)@ + varint_field_bytes(tag, v as nat),
{
    put_key(tag, WIRE_VARINT, buf);
    put_varint(v, buf);
    proof {
        assert(final(buf)@ =~= old(buf)@ + varint_field_bytes(tag, v as nat));
    }
}

/// Appends a bytes field to `buf`.
fn put_bytes_field(tag: u32, b: &[u8], buf: &mut Vec<u8>)
    requires
        1 <= tag <= MAX_TAG,
    ensures
        final(buf)@ == old(buf)@ + bytes_field_bytes(tag, b@),
{
    put_key(tag, WIRE_LEN, buf);
    let len = b.len();
    put_varint(len as u64, buf);
    let ghost head = buf@;
    let mut i: usize = 0;
    while i < len
        invariant
            len == b@.len(),
            i <= len,
            buf@ == head + b@.subrange(0, i as int),
        decreases len - i,
    {
        buf.push(b[i]);
        i = i + 1;
        proof {
            assert(buf@ =~= head + b@.subrange(0, i as int));
        }
    }
    proof {
        assert(b@.subrange(0, len as int) =~= b@);
        assert(final(buf)@ =~= old(buf)@ + bytes_field_bytes(tag, b@));
    }
}

/// Encodes an envelope, its set fields in tag order.
pub fn encode_envelope(e: &Envelope) -> (r: Vec<u8>)
    ensures
        r@ == envelope_bytes(e@),
{
    let mut buf: Vec<u8> = Vec::new();
    match &e.content {
        Some(c) => put_bytes_field(ENVELOPE_CONTENT, c.as_slice(), &mut buf),
        None => {},
    }
    let ghost mid = buf@;
    match e.timestamp {
        Some(t) => put_varint_field(ENVELOPE_TIMESTAMP, t, &mut buf),
        None => {},
    }
    proof {
        assert(mid =~= opt_bytes_field(ENVELOPE_CONTENT, e@.content));
        assert(buf@ =~= envelope_bytes(e@));
    }
    buf
}

/// Encodes a content, its set fields in tag order.
pub fn encode_content(c: &Content) -> (r: Vec<u8>)
    ensures
        r@ == content_bytes(c@),
{
    let mut buf: Vec<u8> = Vec::new();
    match c.id {
        Some(v) => put_varint_field(CONTENT_ID, v, &mut buf),
        None => {},
    }
    let ghost b1 = buf@;
    match c.type_ {
        Some(v) => put_varint_field(CONTENT_TYPE, v as u64, &mut buf),
        None => {},
    }
    let ghost b2 = buf@;
    match c.sender {
        Some(v) => put_varint_field(CONTENT_SENDER, v as u64, &mut buf),
        None => {},
    }
    let ghost b3 = buf@;
    match c.receiver {
        Some(v) => put_varint_field(CONTENT_RECEIVER, v as u64, &mut buf),
        None => {},
    }
    let ghost b4 = buf@;
    match &c.message {
        Some(m) => put_bytes_field(CONTENT_MESSAGE, m.as_slice(), &mut buf),
        None => {},
    }
    proof {
        assert(buf@ =~= content_bytes(c@));
    }
    buf
}

// ---------------------------------------------------------------------
// Decoding
// ---------------------------------------------------------------------

/// The body of a varint field at the front of `s`, whose key had wire type
/// `wire`: its value and how many bytes it takes.
pub open spec fn parse_varint_field(wire: u8, s: Seq<u8>) -> Result<(nat, nat), WireFault> {
    if wire != WIRE_VARINT {
        Err(WireFault::WrongWireType { found: wire, expected: WIRE_VARINT })
    } else {
        match varint_parse(s) {
            Some(p) => Ok(p),
            None => Err(WireFault::Malformed),
        }
    }
}

/// The body of a bytes field at the front of `s`, whose key had wire type
/// `wire`: its bytes and how many bytes the body takes.
pub open spec fn parse_bytes_field(wire: u8, s: Seq<u8>) -> Result<(Seq<u8>, nat), WireFault> {
    if wire != WIRE_LEN {
        Err(WireFault::WrongWireType { found: wire, expected: WIRE_LEN })
    } else {
        match varint_parse(s) {
            None => Err(WireFault::Malformed),
            Some((len, n)) => if len > s.len() - n {
                Err(WireFault::BufferUnderflow)
            } else {
                Ok((s.subrange(n as int, (n + len) as int), (n + len) as nat))
            },
        }
    }
}

/// The body of an unknown field at the front of `s`: how many bytes prost
/// skips.
pub open spec fn parse_unknown_field(wire: u8, tag: u32, s: Seq<u8>) -> Result<nat, WireFault> {
    match skip_field_rest(wire, tag, s) {
        Some(rest) => if rest <= s.len() {
            Ok((s.len() - rest) as nat)
        } else {
            Err(WireFault::Malformed)
        },
        None => Err(WireFault::Malformed),
    }
}

/// One field of an envelope with tag `tag` and wire type `wire`, whose body
/// is at the front of `s`: the envelope after it and the length of the body.
/// A field seen again replaces the earlier value.
pub open spec fn envelope_field(acc: EnvelopeModel, tag: u32, wire: u8, s: Seq<u8>) -> Result<
    (EnvelopeModel, nat),
    WireFault,
> {
    if tag == ENVELOPE_CONTENT {
        match parse_bytes_field(wire, s) {
            Ok((b, m)) => Ok((EnvelopeModel { content: Some(b), timestamp: acc.timestamp }, m)),
            Err(f) => Err(f),
        }
    } else if tag == ENVELOPE_TIMESTAMP {
        match parse_varint_field(wire, s) {
            Ok((v, m)) => Ok((EnvelopeModel { content: acc.content, timestamp: Some(v as u64) }, m)),
            Err(f) => Err(f),
        }
    } else {
        match parse_unknown_field(wire, tag, s) {
            Ok(m) => Ok((acc, m)),
            Err(f) => Err(f),
        }
    }
}

/// Reads the fields in `s` one after the other into `acc`, to the end of `s`.
pub open spec fn envelope_merge(acc: EnvelopeModel, s: Seq<u8>) -> Result<EnvelopeModel, WireFault>
    decreases s.len(),
{
    if s.len() == 0 {
        Ok(acc)
    } else {
        match key_parse(s) {
            None => Err(WireFault::Malformed),
            Some((tag, wire, n)) => if n == 0 || n > s.len() {
                Err(WireFault::Malformed)
            } else {
                match envelope_field(acc, tag, wire, s.skip(n as int)) {
                    Err(f) => Err(f),
                    Ok((next, m)) => if m > s.len() - n {
                        Err(WireFault::Malformed)
                    } else {
                        envelope_merge(next, s.skip((n + m) as int))
                    },
                }
            },
        }
    }
}

/// The envelope that `s` encodes, read from an empty one.
pub open spec fn envelope_decode(s: Seq<u8>) -> Result<EnvelopeModel, WireFault> {
    envelope_merge(EnvelopeModel::empty(), s)
}

/// One field of a content, as `envelope_field` for an envelope. A uint32 or
/// int32 field keeps the low 32 bits of the varint.
pub open spec fn content_field(acc: ContentModel, tag: u32, wire: u8, s: Seq<u8>) -> Result<
    (ContentModel, nat),
    WireFault,
> {
    if tag == CONTENT_MESSAGE {
        match parse_bytes_field(wire, s) {
            Ok((b, m)) => Ok((ContentModel { message: Some(b), ..acc }, m)),
            Err(f) => Err(f),
        }
    } else if tag == CONTENT_ID || tag == CONTENT_TYPE || tag == CONTENT_SENDER || tag
        == CONTENT_RECEIVER {
        match parse_varint_field(wire, s) {
            Ok((v, m)) => Ok(
                (
                    if tag == CONTENT_ID {
                        ContentModel { id: Some(v as u64), ..acc }
                    } else if tag == CONTENT_TYPE {
                        ContentModel { type_: Some(v as i32), ..acc }
                    } else if tag == CONTENT_SENDER {
                        ContentModel { sender: Some(v as u32), ..acc }
                    } else {
                        ContentModel { receiver: Some(v as u32), ..acc }
                    },
                    m,
                ),
            ),
            Err(f) => Err(f),
        }
    } else {
        match parse_unknown_field(wire, tag, s) {
            Ok(m) => Ok((acc, m)),
            Err(f) => Err(f),
        }
    }
}

/// Reads the fields in `s` one after the other into `acc`, to the end of `s`.
pub open spec fn content_merge(acc: ContentModel, s: Seq<u8>) -> Result<ContentModel, WireFault>
    decreases s.len(),
{
    if s.len() == 0 {
        Ok(acc)
    } else {
        match key_parse(s) {
            None => Err(WireFault::Malformed),
            Some((tag, wire, n)) => if n == 0 || n > s.len() {
                Err(WireFault::Malformed)
            } else {
                match content_field(acc, tag, wire, s.skip(n as int)) {
                    Err(f) => Err(f),
                    Ok((next, m)) => if m > s.len() - n {
                        Err(WireFault::Malformed)
                    } else {
                        content_merge(next, s.skip((n + m) as int))
                    },
                }
            },
        }
    }
}

/// The content that `s` encodes, read from an empty one.
pub open spec fn content_decode(s: Seq<u8>) -> Result<ContentModel, WireFault> {
    content_merge(ContentModel::empty(), s)
}

/// Reads the body of a varint field: the value and what is left after it.
fn read_varint_field(wire: u8, s: &[u8]) -> (r: Result<(u64, usize), ProtoError>)
    ensures
        match parse_varint_field(wire, s@) {
            Ok((v, m)) => r matches Ok((x, rest)) && x == v && rest == s@.len() - m,
            Err(f) => r matches Err(e) && e.fault() == f,
        },
{
    if wire != WIRE_VARINT {
        return Err(ProtoError::WrongWireType { found: wire, expected: WIRE_VARINT });
    }
    match take_varint(s) {
        Ok(p) => Ok(p),
        Err(e) => Err(ProtoError::Malformed(e)),
    }
}

/// Reads the body of a bytes field: the bytes and what is left after them.
fn read_bytes_field(wire: u8, s: &[u8]) -> (r: Result<(Vec<u8>, usize), ProtoError>)
    ensures
        match parse_bytes_field(wire, s@) {
            Ok((b, m)) => r matches Ok((x, rest)) && x@ == b && rest == s@.len() - m,
            Err(f) => r matches Err(e) && e.fault() == f,
        },
{
    if wire != WIRE_LEN {
        return Err(ProtoError::WrongWireType { found: wire, expected: WIRE_LEN });
    }
    match take_varint(s) {
        Err(e) => Err(ProtoError::Malformed(e)),
        Ok((len, rest)) => {
            if len > rest as u64 {
                Err(ProtoError::BufferUnderflow)
            } else {
                let start = s.len() - rest;
                let end = start + len as usize;
                let body = slice_subrange(s, start, end);
                Ok((slice_to_vec(body), s.len() - end))
            }
        },
    }
}

/// Skips the body of an unknown field: what is left after it.
fn read_unknown_field(wire: u8, tag: u32, s: &[u8]) -> (r: Result<usize, ProtoError>)
    ensures
        match parse_unknown_field(wire, tag, s@) {
            Ok(m) => r matches Ok(rest) && rest == s@.len() - m,
            Err(f) => r matches Err(e) && e.fault() == f,
        },
{
    match skip_field(wire, tag, s) {
        Ok(rest) => Ok(rest),
        Err(e) => Err(ProtoError::Malformed(e)),
    }
}

/// Decodes an envelope from `bytes`, as `Envelope::decode` of prost does:
/// field after field to the end, the last value of a field winning, unknown
/// fields skipped.
pub fn decode_envelope(bytes: &[u8]) -> (r: Result<Envelope, ProtoError>)
    ensures
        match r {
            Ok(e) => envelope_decode(bytes@) == Ok::<EnvelopeModel, WireFault>(e@),
            Err(err) => envelope_decode(bytes@) == Err::<EnvelopeModel, WireFault>(err.fault()),
        },
{
    let mut acc = Envelope { content: None, timestamp: None };
    let mut rest = bytes;
    while rest.len() > 0
        invariant
            envelope_merge(acc@, rest@) == envelope_decode(bytes@),
        decreases rest@.len(),
    {
        let (tag, wire, after_key) = match take_key(rest) {
            Ok(k) => k,
            Err(e) => return Err(ProtoError::Malformed(e)),
        };
        proof {
            crate::wire::lemma_varint_parse_bounds(rest@);
        }
        let body = slice_subrange(rest, rest.len() - after_key, rest.len());
        assert(body@ =~= rest@.skip(rest@.len() - after_key));
        let after_field = if tag == ENVELOPE_CONTENT {
            match read_bytes_field(wire, body) {
                Ok((b, left)) => {
                    acc.content = Some(b);
                    left
                },
                Err(e) => return Err(e),
            }
        } else if tag == ENVELOPE_TIMESTAMP {
            match read_varint_field(wire, body) {
                Ok((v, left)) => {
                    acc.timestamp = Some(v);
                    left
                },
                Err(e) => return Err(e),
            }
        } else {
            match read_unknown_field(wire, tag, body) {
                Ok(left) => left,
                Err(e) => return Err(e),
            }
        };
        let next = slice_subrange(body, body.len() - after_field, body.len());
        assert(next@ =~= rest@.skip(rest@.len() - after_field));
        rest = next;
    }
    Ok(acc)
}

/// Decodes a content from `bytes`, as `Content::decode` of prost does.
pub fn decode_content(bytes: &[u8]) -> (r: Result<Content, ProtoError>)
    ensures
        match r {
            Ok(c) => content_decode(bytes@) == Ok::<ContentModel, WireFault>(c@),
            Err(err) => content_decode(bytes@) == Err::<ContentModel, WireFault>(err.fault()),
        },
{
    let mut acc = Content { id: None, type_: None, sender: None, receiver: None, message: None };
    let mut rest = bytes;
    while rest.len() > 0
        invariant
            content_merge(acc@, rest@) == content_decode(bytes@),
        decreases rest@.len(),
    {
        let (tag, wire, after_key) = match take_key(rest) {
            Ok(k) => k,
            Err(e) => return Err(ProtoError::Malformed(e)),
        };
        proof {
            crate::wire::lemma_varint_parse_bounds(rest@);
        }
        let body = slice_subrange(rest, rest.len() - after_key, rest.len());
        assert(body@ =~= rest@.skip(rest@.len() - after_key));
        let after_field = if tag == CONTENT_MESSAGE {
            match read_bytes_field(wire, body) {
                Ok((b, left)) => {
                    acc.message = Some(b);
                    left
                },
                Err(e) => return Err(e),
            }
        } else if tag == CONTENT_ID || tag == CONTENT_TYPE || tag == CONTENT_SENDER || tag
            == CONTENT_RECEIVER {
            match read_varint_field(wire, body) {
                Ok((v, left)) => {
                    if tag == CONTENT_ID {
                        acc.id = Some(v);
                    } else if tag == CONTENT_TYPE {
                        acc.type_ = Some(#[verifier::truncate] (v as i32));
                    } else if tag == CONTENT_SENDER {
                        acc.sender = Some(#[verifier::truncate] (v as u32));
                    } else {
                        acc.receiver = Some(#[verifier::truncate] (v as u32));
                    }
                    left
                },
                Err(e) => return Err(e),
            }
        } else {
            match read_unknown_field(wire, tag, body) {
                Ok(left) => left,
                Err(e) => return Err(e),
            }
        };
        let next = slice_subrange(body, body.len() - after_field, body.len());
        assert(next@ =~= rest@.skip(rest@.len() - after_field));
        rest = next;
    }
    Ok(acc)
}

// ---------------------------------------------------------------------
// Laws
// ---------------------------------------------------------------------

/// A varint field at the front of a frame reads back as its tag, value and
/// length.
proof fn lemma_varint_field_reads(tag: u32, v: u64, rest: Seq<u8>)
    requires
        1 <= tag <= MAX_TAG,
    ensures
        ({
            let f = varint_field_bytes(tag, v as nat);
            let s = f + rest;
            let k = key_bytes(tag, WIRE_VARINT).len();
            &&& key_parse(s) == Some((tag, WIRE_VARINT, k))
            &&& 0 < k <= s.len()
            &&& parse_varint_field(WIRE_VARINT, s.skip(k as int)) == Ok::<(nat, nat), WireFault>(
                (v as nat, (f.len() - k) as nat),
            )
            &&& s.skip(f.len() as int) == rest
        }),
{
    let f = varint_field_bytes(tag, v as nat);
    let key = key_bytes(tag, WIRE_VARINT);
    let val = varint_bytes(v as nat);
    assert(f + rest =~= key + (val + rest));
    crate::wire::lemma_key_roundtrip(tag, WIRE_VARINT, val + rest);
    assert((f + rest).skip(key.len() as int) =~= val + rest);
    crate::wire::lemma_varint_roundtrip(v, rest);
    assert((f + rest).skip(f.len() as int) =~= rest);
}

/// A bytes field at the front of a frame reads back as its tag, bytes and
/// length.
proof fn lemma_bytes_field_reads(tag: u32, b: Seq<u8>, rest: Seq<u8>)
    requires
        1 <= tag <= MAX_TAG,
        b.len() <= u64::MAX,
    ensures
        ({
            let f = bytes_field_bytes(tag, b);
            let s = f + rest;
            let k = key_bytes(tag, WIRE_LEN).len();
            &&& key_parse(s) == Some((tag, WIRE_LEN, k))
            &&& 0 < k <= s.len()
            &&& parse_bytes_field(WIRE_LEN, s.skip(k as int)) == Ok::<(Seq<u8>, nat), WireFault>(
                (b, (f.len() - k) as nat),
            )
            &&& s.skip(f.len() as int) == rest
        }),
{
    let f = bytes_field_bytes(tag, b);
    let key = key_bytes(tag, WIRE_LEN);
    let len = varint_bytes(b.len());
    assert(f + rest =~= key + (len + (b + rest)));
    crate::wire::lemma_key_roundtrip(tag, WIRE_LEN, len + (b + rest));
    let body = (f + rest).skip(key.len() as int);
    assert(body =~= len + (b + rest));
    crate::wire::lemma_varint_roundtrip(b.len() as u64, b + rest);
    assert(body.subrange(len.len() as int, (len.len() + b.len()) as int) =~= b);
    assert((f + rest).skip(f.len() as int) =~= rest);
}

/// Encoding an envelope and decoding the bytes gives the envelope back.
pub proof fn lemma_envelope_roundtrip(e: EnvelopeModel)
    requires
        e.content matches Some(c) ==> c.len() <= u64::MAX,
    ensures
        envelope_decode(envelope_bytes(e)) == Ok::<EnvelopeModel, WireFault>(e),
{
    let ts = match e.timestamp {
        Some(t) => Some(t as nat),
        None => None,
    };
    let tail = opt_varint_field(ENVELOPE_TIMESTAMP, ts);
    let after_content = EnvelopeModel { content: e.content, timestamp: None };
    match e.timestamp {
        Some(t) => {
            lemma_varint_field_reads(ENVELOPE_TIMESTAMP, t, Seq::empty());
            assert(tail + Seq::<u8>::empty() =~= tail);
            assert(envelope_merge(after_content, tail) == envelope_merge(e, Seq::<u8>::empty()));
        },
        None => {
            assert(tail =~= Seq::<u8>::empty());
        },
    }
    match e.content {
        Some(c) => {
            lemma_bytes_field_reads(ENVELOPE_CONTENT, c, tail);
            assert(envelope_bytes(e) =~= bytes_field_bytes(ENVELOPE_CONTENT, c) + tail);
            assert(envelope_merge(EnvelopeModel::empty(), envelope_bytes(e)) == envelope_merge(
                after_content,
                tail,
            ));
        },
        None => {
            assert(envelope_bytes(e) =~= tail);
        },
    }
}

/// The low 32 bits of the 64-bit two's complement of an int32 are the int32.
proof fn lemma_int32_wire(x: i32)
    ensures
        ((x as u64) as nat) as i32 == x,
{
    let y = x as u64;
    assert((y as i32) == x) by (bit_vector)
        requires
            y == x as u64,
    ;
}

/// A varint field of a content, read from the front, moves its value into
/// the content.
proof fn lemma_content_varint_step(acc: ContentModel, next: ContentModel, tag: u32, v: u64, rest: Seq<u8>)
    requires
        tag == CONTENT_ID || tag == CONTENT_TYPE || tag == CONTENT_SENDER || tag == CONTENT_RECEIVER,
        next == (if tag == CONTENT_ID {
            ContentModel { id: Some((v as nat) as u64), ..acc }
        } else if tag == CONTENT_TYPE {
            ContentModel { type_: Some((v as nat) as i32), ..acc }
        } else if tag == CONTENT_SENDER {
            ContentModel { sender: Some((v as nat) as u32), ..acc }
        } else {
            ContentModel { receiver: Some((v as nat) as u32), ..acc }
        }),
    ensures
        content_merge(acc, varint_field_bytes(tag, v as nat) + rest) == content_merge(next, rest),
{
    lemma_varint_field_reads(tag, v, rest);
}

/// Decoding takes the fields in order, and a field seen again replaces what
/// an earlier one set: whatever was decoded so far (`acc`), a varint field
/// `v` sets the id to `v`, the type and sender and receiver to its low 32
/// bits, and leaves every other field as it was.
pub proof fn lemma_content_varint_fields(acc: ContentModel, v: u64, rest: Seq<u8>)
    ensures
        content_merge(acc, varint_field_bytes(CONTENT_ID, v as nat) + rest) == content_merge(
            ContentModel { id: Some(v), ..acc },
            rest,
        ),
        content_merge(acc, varint_field_bytes(CONTENT_TYPE, v as nat) + rest) == content_merge(
            ContentModel { type_: Some(v as i32), ..acc },
            rest,
        ),
        content_merge(acc, varint_field_bytes(CONTENT_SENDER, v as nat) + rest) == content_merge(
            ContentModel { sender: Some(v as u32), ..acc },
            rest,
        ),
        content_merge(acc, varint_field_bytes(CONTENT_RECEIVER, v as nat) + rest) == content_merge(
            ContentModel { receiver: Some(v as u32), ..acc },
            rest,
        ),
{
    lemma_content_varint_step(acc, ContentModel { id: Some(v), ..acc }, CONTENT_ID, v, rest);
    lemma_content_varint_step(
        acc,
        ContentModel { type_: Some((v as nat) as i32), ..acc },
        CONTENT_TYPE,
        v,
        rest,
    );
    lemma_content_varint_step(
        acc,
        ContentModel { sender: Some((v as nat) as u32), ..acc },
        CONTENT_SENDER,
        v,
        rest,
    );
    lemma_content_varint_step(
        acc,
        ContentModel { receiver: Some((v as nat) as u32), ..acc },
        CONTENT_RECEIVER,
        v,
        rest,
    );
}

/// Whatever was decoded so far, a message field sets the message to its
/// bytes and leaves every other field as it was.
pub proof fn lemma_content_message_field(acc: ContentModel, b: Seq<u8>, rest: Seq<u8>)
    requires
        b.len() <= u64::MAX,
    ensures
        content_merge(acc, bytes_field_bytes(CONTENT_MESSAGE, b) + rest) == content_merge(
            ContentModel { message: Some(b), ..acc },
            rest,
        ),
{
    lemma_bytes_field_reads(CONTENT_MESSAGE, b, rest);
}

/// Whatever was decoded so far, a content field of an envelope sets the
/// content and a timestamp field sets the timestamp, each keeping the other.
pub proof fn lemma_envelope_fields(acc: EnvelopeModel, b: Seq<u8>, t: u64, rest: Seq<u8>)
    requires
        b.len() <= u64::MAX,
    ensures
        envelope_merge(acc, bytes_field_bytes(ENVELOPE_CONTENT, b) + rest) == envelope_merge(
            EnvelopeModel { content: Some(b), timestamp: acc.timestamp },
            rest,
        ),
        envelope_merge(acc, varint_field_bytes(ENVELOPE_TIMESTAMP, t as nat) + rest)
            == envelope_merge(EnvelopeModel { content: acc.content, timestamp: Some(t) }, rest),
{
    lemma_bytes_field_reads(ENVELOPE_CONTENT, b, rest);
    lemma_varint_field_reads(ENVELOPE_TIMESTAMP, t, rest);
}

/// A known field of a content under another wire type than its own (bytes
/// for the message, varint for the others) fails with that wire type and
/// the expected one, whatever follows the key.
pub proof fn lemma_content_wrong_wire_type(acc: ContentModel, tag: u32, wire: u8, rest: Seq<u8>)
    requires
        1 <= tag <= 5,
        wire <= 5,
        wire != (if tag == 5 { 2u8 } else { 0u8 }),
    ensures
        content_merge(acc, key_bytes(tag, wire) + rest) == Err::<ContentModel, WireFault>(
            WireFault::WrongWireType { found: wire, expected: if tag == 5 { 2u8 } else { 0u8 } },
        ),
{
    crate::wire::lemma_key_roundtrip(tag, wire, rest);
    assert((key_bytes(tag, wire) + rest).skip(key_bytes(tag, wire).len() as int) =~= rest);
}

/// A known field of an envelope under another wire type than its own (bytes
/// for the content, varint for the timestamp) fails with that wire type and
/// the expected one.
pub proof fn lemma_envelope_wrong_wire_type(acc: EnvelopeModel, tag: u32, wire: u8, rest: Seq<u8>)
    requires
        1 <= tag <= 2,
        wire <= 5,
        wire != (if tag == 1 { 2u8 } else { 0u8 }),
    ensures
        envelope_merge(acc, key_bytes(tag, wire) + rest) == Err::<EnvelopeModel, WireFault>(
            WireFault::WrongWireType { found: wire, expected: if tag == 1 { 2u8 } else { 0u8 } },
        ),
{
    crate::wire::lemma_key_roundtrip(tag, wire, rest);
    assert((key_bytes(tag, wire) + rest).skip(key_bytes(tag, wire).len() as int) =~= rest);
}

/// A bytes field whose length says more than what is left of the frame
/// fails with a buffer underflow, in a content and in an envelope.
pub proof fn lemma_bytes_field_underflow(
    cacc: ContentModel,
    eacc: EnvelopeModel,
    len: u64,
    b: Seq<u8>,
)
    requires
        len > b.len(),
    ensures
        content_merge(cacc, key_bytes(CONTENT_MESSAGE, WIRE_LEN) + varint_bytes(len as nat) + b)
            == Err::<ContentModel, WireFault>(WireFault::BufferUnderflow),
        envelope_merge(eacc, key_bytes(ENVELOPE_CONTENT, WIRE_LEN) + varint_bytes(len as nat) + b)
            == Err::<EnvelopeModel, WireFault>(WireFault::BufferUnderflow),
{
    crate::wire::lemma_varint_roundtrip(len, b);
    let lb = varint_bytes(len as nat) + b;
    crate::wire::lemma_key_roundtrip(CONTENT_MESSAGE, WIRE_LEN, lb);
    crate::wire::lemma_key_roundtrip(ENVELOPE_CONTENT, WIRE_LEN, lb);
    assert(key_bytes(CONTENT_MESSAGE, WIRE_LEN) + varint_bytes(len as nat) + b =~= key_bytes(
        CONTENT_MESSAGE,
        WIRE_LEN,
    ) + lb);
    assert(key_bytes(ENVELOPE_CONTENT, WIRE_LEN) + varint_bytes(len as nat) + b =~= key_bytes(
        ENVELOPE_CONTENT,
        WIRE_LEN,
    ) + lb);
    assert((key_bytes(CONTENT_MESSAGE, WIRE_LEN) + lb).skip(
        key_bytes(CONTENT_MESSAGE, WIRE_LEN).len() as int,
    ) =~= lb);
    assert((key_bytes(ENVELOPE_CONTENT, WIRE_LEN) + lb).skip(
        key_bytes(ENVELOPE_CONTENT, WIRE_LEN).len() as int,
    ) =~= lb);
}

/// Encoding a content and decoding the bytes gives the content back.
#[verifier::spinoff_prover]
#[verifier::rlimit(40)]
pub proof fn lemma_content_roundtrip(c: ContentModel)
    requires
        c.message matches Some(m) ==> m.len() <= u64::MAX,
    ensures
        content_decode(content_bytes(c)) == Ok::<ContentModel, WireFault>(c),
{
    let empty = Seq::<u8>::empty();
    let t5 = opt_bytes_field(CONTENT_MESSAGE, c.message);
    let t4 = opt_varint_field(
        CONTENT_RECEIVER,
        match c.receiver {
            Some(v) => Some(v as nat),
            None => None,
        },
    ) + t5;
    let t3 = opt_varint_field(
        CONTENT_SENDER,
        match c.sender {
            Some(v) => Some(v as nat),
            None => None,
        },
    ) + t4;
    let t2 = opt_varint_field(
        CONTENT_TYPE,
        match c.type_ {
            Some(v) => Some((v as u64) as nat),
            None => None,
        },
    ) + t3;
    let t1 = opt_varint_field(
        CONTENT_ID,
        match c.id {
            Some(v) => Some(v as nat),
            None => None,
        },
    ) + t2;
    assert(content_bytes(c) =~= t1);
    let a1 = ContentModel { id: c.id, ..ContentModel::empty() };
    let a2 = ContentModel { type_: c.type_, ..a1 };
    let a3 = ContentModel { sender: c.sender, ..a2 };
    let a4 = ContentModel { receiver: c.receiver, ..a3 };
    assert(c == ContentModel { message: c.message, ..a4 });
    assert(content_merge(a4, t5) == content_merge(c, empty)) by {
        match c.message {
            Some(m) => {
                lemma_bytes_field_reads(CONTENT_MESSAGE, m, empty);
                assert(t5 + empty =~= t5);
            },
            None => {
                assert(t5 =~= empty);
            },
        }
    }
    assert(content_merge(a3, t4) == content_merge(a4, t5)) by {
        match c.receiver {
            Some(v) => lemma_content_varint_step(a3, a4, CONTENT_RECEIVER, v as u64, t5),
            None => assert(t4 =~= t5),
        }
    }
    assert(content_merge(a2, t3) == content_merge(a3, t4)) by {
        match c.sender {
            Some(v) => lemma_content_varint_step(a2, a3, CONTENT_SENDER, v as u64, t4),
            None => assert(t3 =~= t4),
        }
    }
    assert(content_merge(a1, t2) == content_merge(a2, t3)) by {
        match c.type_ {
            Some(v) => {
                lemma_int32_wire(v);
                lemma_content_varint_step(a1, a2, CONTENT_TYPE, v as u64, t3);
            },
            None => assert(t2 =~= t3),
        }
    }
    assert(content_merge(ContentModel::empty(), t1) == content_merge(a1, t2)) by {
        match c.id {
            Some(v) => lemma_content_varint_step(ContentModel::empty(), a1, CONTENT_ID, v, t2),
            None => assert(t1 =~= t2),
        }
    }
}

} // verus!
