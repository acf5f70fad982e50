//! The decisions of the network layer: which binary frames from the relay
//! server reach the protocol and with what header, how outbound messages are
//! stamped and framed, and what each server event means while waiting for the
//! room to fill and while listening.

use vstd::prelude::*;
use vstd::string::StringExecFns;
use crate::message::{SyncMsg, SyncType};
use crate::wire::{key_parse, skip_field_rest};
use crate::protos::{
    content_merge, envelope_merge, content_bytes, content_decode, decode_content, decode_envelope, encode_content,
    encode_envelope, envelope_bytes, envelope_decode, Content, ContentModel, ContentType,
    Envelope, EnvelopeModel, ProtoError, TYPE_BROADCAST, TYPE_P2P,
};

verus! {

/// Whether a protocol message goes to every party or to one.
#[derive(Clone, Copy, Debug, PartialEq, Eq, Structural)]
pub enum MessageType {
    Broadcast,
    P2P,
}

/// Where an outbound protocol message is addressed.
#[derive(Clone, Copy, Debug, PartialEq, Eq, Structural)]
pub enum MessageDestination {
    AllParties,
    OneParty(u16),
}

/// The routing data of a protocol message: its id, the index of the party
/// that sent it, and its kind.
#[derive(Clone, Copy, Debug, PartialEq, Eq, Structural)]
pub struct IncomingHeader {
    pub id: u64,
    pub sender: u16,
    pub msg_type: MessageType,
}

/// A decoded binary frame: the header of the protocol message it carries,
/// the serialized message, and whether this party is to receive it.
pub struct InboundFrame {
    pub header: IncomingHeader,
    pub payload: Vec<u8>,
    pub deliver: bool,
}

/// Why a binary frame could not be decoded: its envelope, or the content
/// inside the envelope.
pub enum FrameError {
    Envelope(ProtoError),
    Content(ProtoError),
}

/// The kind of message that a destination calls for.
pub open spec fn message_type_for(recipient: MessageDestination) -> MessageType {
    match recipient {
        MessageDestination::AllParties => MessageType::Broadcast,
        MessageDestination::OneParty(_) => MessageType::P2P,
    }
}

/// The header that a content stands for: unset numbers read as 0, the sender
/// keeps its low 16 bits, and a P2P kind makes a P2P message, any other a
/// broadcast.
pub open spec fn header_of(c: ContentModel) -> IncomingHeader {
    IncomingHeader {
        id: c.id_or_default(),
        sender: c.sender_or_default() as u16,
        msg_type: if c.kind() == ContentType::P2p {
            MessageType::P2P
        } else {
            MessageType::Broadcast
        },
    }
}

/// Whether party `index` takes a message: not one that it sent itself, and
/// not a P2P message addressed to another party (sender and receiver compared
/// by their low 16 bits, unset ones read as 0).
pub open spec fn accepts(index: u16, c: ContentModel) -> bool {
    !((c.sender_or_default() as u16) == index || (c.kind() == ContentType::P2p
        && (c.receiver_or_default() as u16) != index))
}

/// What party `index` makes of a binary frame: the frame, or where decoding
/// stopped and why.
pub open spec fn inbound(index: u16, bin: Seq<u8>) -> Result<
    (IncomingHeader, Seq<u8>, bool),
    (bool, crate::protos::WireFault),
> {
    match envelope_decode(bin) {
        Err(f) => Err((true, f)),
        Ok(env) => match content_decode(env.content_or_empty()) {
            Err(f) => Err((false, f)),
            Ok(c) => Ok((header_of(c), c.message_or_empty(), accepts(index, c))),
        },
    }
}

impl InboundFrame {
    /// The header, payload and delivery decision.
    pub open spec fn model(&self) -> (IncomingHeader, Seq<u8>, bool) {
        (self.header, self.payload@, self.deliver)
    }
}

impl FrameError {
    /// Whether the envelope failed (else the content), and why.
    pub open spec fn model(&self) -> (bool, crate::protos::WireFault) {
        match self {
            FrameError::Envelope(e) => (true, e.fault()),
            FrameError::Content(e) => (false, e.fault()),
        }
    }
}

/// Decodes a binary frame from the server for party `index`: the envelope,
/// then the content that it carries (empty where the envelope has none),
/// then the header of the protocol message and whether this party takes it.
pub fn handle_bin_msg(index: u16, bin: &[u8]) -> (r: Result<InboundFrame, FrameError>)
    ensures
        match r {
            Ok(f) => inbound(index, bin@) == Ok::<_, (bool, crate::protos::WireFault)>(f.model()),
            Err(e) => inbound(index, bin@) == Err::<(IncomingHeader, Seq<u8>, bool), _>(e.model()),
        },
{
    let envelope = match decode_envelope(bin) {
        Ok(e) => e,
        Err(e) => return Err(FrameError::Envelope(e)),
    };
    let content_bytes: Vec<u8> = match envelope.content {
        Some(c) => c,
        None => Vec::new(),
    };
    let content = match decode_content(content_bytes.as_slice()) {
        Ok(c) => c,
        Err(e) => return Err(FrameError::Content(e)),
    };
    let id: u64 = match content.id {
        Some(v) => v,
        None => 0,
    };
    let sender: u32 = match content.sender {
        Some(v) => v,
        None => 0,
    };
    let receiver: u32 = match content.receiver {
        Some(v) => v,
        None => 0,
    };
    let p2p = match content.type_ {
        Some(t) => t == TYPE_P2P,
        None => false,
    };
    let sender16 = #[verifier::truncate] (sender as u16);
    let receiver16 = #[verifier::truncate] (receiver as u16);
    let deliver = !(sender16 == index || (p2p && receiver16 != index));
    let header = IncomingHeader {
        id,
        sender: sender16,
        msg_type: if p2p {
            MessageType::P2P
        } else {
            MessageType::Broadcast
        },
    };
    let payload: Vec<u8> = match content.message {
        Some(m) => m,
        None => Vec::new(),
    };
    Ok(InboundFrame { header, payload, deliver })
}

/// The content that carries an outbound message: its id, its kind from the
/// destination, its sender, no receiver, and the serialized message.
pub open spec fn outgoing_content(
    id: u64,
    sender: u16,
    recipient: MessageDestination,
    message: Seq<u8>,
) -> ContentModel {
    ContentModel {
        id: Some(id),
        type_: Some(
            match recipient {
                MessageDestination::AllParties => TYPE_BROADCAST,
                MessageDestination::OneParty(_) => TYPE_P2P,
            },
        ),
        sender: Some(sender as u32),
        receiver: None,
        message: Some(message),
    }
}

/// The bytes sent to the server for an outbound message: an envelope with
/// the encoded content and the timestamp.
pub open spec fn outgoing_bytes(
    id: u64,
    sender: u16,
    recipient: MessageDestination,
    message: Seq<u8>,
    timestamp: u64,
) -> Seq<u8> {
    envelope_bytes(
        EnvelopeModel {
            content: Some(content_bytes(outgoing_content(id, sender, recipient, message))),
            timestamp: Some(timestamp),
        },
    )
}

/// Frames an outbound message for the server: the content (id and sender
/// from the header, kind from the destination, the serialized message; no
/// receiver) inside an envelope stamped with `timestamp` (seconds since the
/// Unix epoch).
pub fn encode_outgoing(
    header: &IncomingHeader,
    recipient: MessageDestination,
    message: Vec<u8>,
    timestamp: u64,
) -> (r: Vec<u8>)
    ensures
        r@ == outgoing_bytes(header.id, header.sender, recipient, message@, timestamp),
{
    let type_ = match recipient {
        MessageDestination::AllParties => TYPE_BROADCAST,
        MessageDestination::OneParty(_) => TYPE_P2P,
    };
    let content = Content {
        id: Some(header.id),
        type_: Some(type_),
        sender: Some(header.sender as u32),
        receiver: None,
        message: Some(message),
    };
    let envelope = Envelope { content: Some(encode_content(&content)), timestamp: Some(timestamp) };
    encode_envelope(&envelope)
}

/// The source of message ids of one party: 0, 1, 2, ... (wrapping at the top
/// of `u64`).
pub struct NextMessageId {
    value: u64,
}

impl View for NextMessageId {
    type V = u64;

    closed spec fn view(&self) -> u64 {
        self.value
    }
}

impl Default for NextMessageId {
    fn default() -> (r: NextMessageId)
        ensures
            r@ == 0,
    {
        NextMessageId { value: 0 }
    }
}

impl NextMessageId {
    /// Hands out the current id and moves to the next one.
    pub fn next(&mut self) -> (id: u64)
        ensures
            id == old(self)@,
            final(self)@ == old(self)@.wrapping_add(1),
    {
        let id = self.value;
        self.value = self.value.wrapping_add(1);
        id
    }
}

/// The outbound side of a party: its index and its source of message ids.
pub struct TssOutgoing {
    party_idx: u16,
    next_msg_id: NextMessageId,
}

impl TssOutgoing {
    /// The outbound side of party `party_idx`, whose first id is 0.
    pub fn new(party_idx: u16) -> (r: TssOutgoing)
        ensures
            r.party() == party_idx,
            r.next_id() == 0,
    {
        TssOutgoing { party_idx, next_msg_id: NextMessageId::default() }
    }

    /// The index of this party.
    pub closed spec fn party(&self) -> u16 {
        self.party_idx
    }

    /// The id that the next message will get.
    pub closed spec fn next_id(&self) -> u64 {
        self.next_msg_id@
    }

    /// Stamps an outbound message addressed to `recipient`: the next id,
    /// this party as sender, and the kind that the destination calls for.
    pub fn start_send(&mut self, recipient: MessageDestination) -> (h: IncomingHeader)
        ensures
            h.id == old(self).next_id(),
            h.sender == old(self).party(),
            h.msg_type == message_type_for(recipient),
            final(self).party() == old(self).party(),
            final(self).next_id() == old(self).next_id().wrapping_add(1),
    {
        let msg_type = match recipient {
            MessageDestination::AllParties => MessageType::Broadcast,
            MessageDestination::OneParty(_) => MessageType::P2P,
        };
        let id = self.next_msg_id.next();
        IncomingHeader { id, sender: self.party_idx, msg_type }
    }
}

/// The serialization of the URL that `url::Url::parse` (re-exported as
/// `surf::Url`) makes of `s`; `None` where it refuses `s`.
pub uninterp spec fn parsed_url(s: Seq<char>) -> Option<Seq<char>>;

/// Parses `s` as a URL, through `surf::Url::parse`. Claimed: the result is
/// `parsed_url(s)`, the parsed URL given back as its serialization.
#[verifier::external_body]
pub fn parse_url(s: &str) -> (r: Option<String>)
    ensures
        match r {
            Some(u) => parsed_url(s@) == Some(u@),
            None => parsed_url(s@) is None,
        },
{
    match surf::Url::parse(s) {
        Ok(u) => Some(String::from(u)),
        Err(_) => None,
    }
}

/// The URL of room `room_id` on the server at `address`: the two joined by
/// `/` and parsed as a URL; `None` where that is no URL, and then no
/// connection is to be made.
pub fn room_url(address: &str, room_id: &str) -> (r: Option<String>)
    ensures
        match r {
            Some(u) => parsed_url(address@ + seq!['/'] + room_id@) == Some(u@),
            None => parsed_url(address@ + seq!['/'] + room_id@) is None,
        },
{
    let mut joined = String::from_str(address);
    let slash = "/";
    proof {
        reveal_strlit("/");
    }
    joined.append(slash);
    joined.append(room_id);
    assert(joined@ == address@ + seq!['/'] + room_id@);
    parse_url(joined.as_str())
}

/// Number of distinct message ids.
pub open spec fn id_space() -> int {
    0x1_0000_0000_0000_0000
}

/// A run of calls that each take the id the counter holds (`ids[i]`, from
/// `counters[i]`) and move the counter on by one, as `start_send` does.
pub open spec fn counter_run(ids: Seq<u64>, counters: Seq<u64>) -> bool {
    &&& counters.len() == ids.len() + 1
    &&& forall|i: int|
        0 <= i < ids.len() ==> #[trigger] ids[i] == counters[i] && counters[i + 1]
            == counters[i].wrapping_add(1)
}

/// Where a run of counter steps has got after `j` steps.
proof fn lemma_counter_after(ids: Seq<u64>, counters: Seq<u64>, j: int)
    requires
        counter_run(ids, counters),
        0 <= j <= ids.len(),
    ensures
        counters[j] == (counters[0] + j) % id_space(),
    decreases j,
{
    if j > 0 {
        lemma_counter_after(ids, counters, j - 1);
        assert(ids[j - 1] == counters[j - 1]);
    }
}

/// A run of `start_send` calls on one party, each taking the id that the
/// counter holds (`ids[j]`, taken from `counters[j]`) and moving the counter
/// on by one, hands out `n, n + 1, n + 2, ...` (wrapping at the top of
/// `u64`) in call order and leaves the counter at `n + k`; within `2^64`
/// calls no two calls get the same id.
pub proof fn lemma_ids_consecutive(ids: Seq<u64>, counters: Seq<u64>)
    requires
        counter_run(ids, counters),
    ensures
        forall|j: int| 0 <= j < ids.len() ==> #[trigger] ids[j] == (counters[0] + j) % id_space(),
        counters[ids.len() as int] == (counters[0] + ids.len()) % id_space(),
        ids.len() <= id_space() ==> forall|i: int, j: int|
            0 <= i < j < ids.len() ==> #[trigger] ids[i] != #[trigger] ids[j],
{
    assert forall|j: int| 0 <= j < ids.len() implies #[trigger] ids[j] == (counters[0] + j)
        % id_space() by {
        lemma_counter_after(ids, counters, j);
    }
    lemma_counter_after(ids, counters, ids.len() as int);
    if ids.len() <= id_space() {
        assert forall|i: int, j: int| 0 <= i < j < ids.len() implies #[trigger] ids[i]
            != #[trigger] ids[j] by {
            lemma_counter_after(ids, counters, i);
            lemma_counter_after(ids, counters, j);
            let c = counters[0] as int;
            assert(0 <= c < id_space());
            assert((c + i) % id_space() != (c + j) % id_space()) by (nonlinear_arith)
                requires
                    0 <= c < id_space(),
                    0 <= i < j < id_space(),
            {
                if c + i >= id_space() {
                    assert((c + i) % id_space() == c + i - id_space());
                }
            }
        }
    }
}

/// A message from the relay server, as the network layer sees it: a room
/// message (`None` where its text is not a valid room message), a binary
/// frame, a control frame (ping, pong, close, raw frame), or a failure of the
/// connection.
pub enum ServerEvent {
    Text(Option<SyncMsg>),
    Binary(Vec<u8>),
    Control,
    Failed,
}

/// Whether a room message, where there is one, is the start of the
/// computation: every other message, and a text that is not a room message,
/// leaves the room waiting.
pub fn handle_sync_msg(msg: Option<&SyncMsg>) -> (started: bool)
    ensures
        started == (msg matches Some(m) && m.type_ == SyncType::Start),
{
    match msg {
        Some(m) => match m.type_ {
            SyncType::Start => true,
            _ => false,
        },
        None => false,
    }
}

/// What the client does after an event while it waits for the room to fill.
#[derive(Clone, Copy, Debug, PartialEq, Eq, Structural)]
pub enum JoinStep {
    /// Keep waiting.
    Wait,
    /// The server started the computation.
    Start,
    /// The stream ended or failed; stop waiting.
    Stop,
}

/// Decides the next step while waiting for the room to fill, given the next
/// event (`None` where the stream has ended).
pub fn join_step(event: Option<&ServerEvent>) -> (step: JoinStep)
    ensures
        step == match event {
            None => JoinStep::Stop,
            Some(ServerEvent::Failed) => JoinStep::Stop,
            Some(ServerEvent::Text(m)) => if (m matches Some(s) && s.type_ == SyncType::Start) {
                JoinStep::Start
            } else {
                JoinStep::Wait
            },
            Some(_) => JoinStep::Wait,
        },
{
    match event {
        None => JoinStep::Stop,
        Some(ServerEvent::Failed) => JoinStep::Stop,
        Some(ServerEvent::Text(m)) => {
            let r = match m {
                Some(s) => Some(s),
                None => None,
            };
            if handle_sync_msg(r) {
                JoinStep::Start
            } else {
                JoinStep::Wait
            }
        },
        Some(_) => JoinStep::Wait,
    }
}

/// What the listener does with an event once the computation runs.
pub enum ListenStep {
    /// Nothing reaches the protocol.
    Ignore,
    /// A binary frame was decoded; its message reaches the protocol where the
    /// frame says so.
    Inbound(InboundFrame),
    /// A binary frame could not be decoded; it is reported and dropped.
    Rejected(FrameError),
}

/// Decides what party `index` does with an event while it listens: binary
/// frames are decoded, everything else (room messages included) is ignored.
pub fn listen_step(index: u16, event: ServerEvent) -> (step: ListenStep)
    ensures
        match event {
            ServerEvent::Binary(bin) => match step {
                ListenStep::Inbound(f) => inbound(index, bin@) == Ok::<
                    _,
                    (bool, crate::protos::WireFault),
                >(f.model()),
                ListenStep::Rejected(e) => inbound(index, bin@) == Err::<
                    (IncomingHeader, Seq<u8>, bool),
                    _,
                >(e.model()),
                ListenStep::Ignore => false,
            },
            _ => step is Ignore,
        },
{
    match event {
        ServerEvent::Binary(bin) => match handle_bin_msg(index, bin.as_slice()) {
            Ok(f) => ListenStep::Inbound(f),
            Err(e) => ListenStep::Rejected(e),
        },
        _ => ListenStep::Ignore,
    }
}

/// A party never takes its own messages, and takes a P2P message only where
/// the frame names it as receiver (by the low 16 bits, unset read as 0).
pub proof fn lemma_delivery_filter(index: u16, bin: Seq<u8>)
    ensures
        inbound(index, bin) matches Ok((h, _, true)) ==> h.sender != index,
        inbound(index, bin) matches Ok((h, _, true)) && h.msg_type == MessageType::P2P ==> ({
            let c = content_decode(envelope_decode(bin)->Ok_0.content_or_empty())->Ok_0;
            c.receiver_or_default() as u16 == index
        }),
{
}

/// What party `index` makes of a frame is read off the decoded content field
/// by field: the id (0 where unset), the low 16 bits of the sender (0 where
/// unset), P2P exactly where the type field is the number of P2P, the message
/// bytes (empty where unset); and the party takes the message exactly where
/// it did not send it and, for a P2P message, it is the receiver (low 16
/// bits, 0 where unset). Where the envelope or the content does not decode,
/// the frame is refused with that failure.
pub proof fn lemma_inbound_fields(index: u16, bin: Seq<u8>)
    ensures
        match envelope_decode(bin) {
            Err(f) => inbound(index, bin) == Err::<(IncomingHeader, Seq<u8>, bool), _>((true, f)),
            Ok(env) => {
                let cb = match env.content {
                    Some(b) => b,
                    None => Seq::<u8>::empty(),
                };
                match content_decode(cb) {
                    Err(f) => inbound(index, bin) == Err::<(IncomingHeader, Seq<u8>, bool), _>(
                        (false, f),
                    ),
                    Ok(c) => {
                        let id: u64 = match c.id {
                            Some(v) => v,
                            None => 0,
                        };
                        let sender: u32 = match c.sender {
                            Some(v) => v,
                            None => 0,
                        };
                        let receiver: u32 = match c.receiver {
                            Some(v) => v,
                            None => 0,
                        };
                        let p2p = c.type_ == Some(1i32);
                        let payload = match c.message {
                            Some(m) => m,
                            None => Seq::<u8>::empty(),
                        };
                        &&& inbound(index, bin) matches Ok((h, p, d))
                        &&& h.id == id
                        &&& h.sender == sender as u16
                        &&& (h.msg_type == MessageType::P2P <==> p2p)
                        &&& p == payload
                        &&& (d <==> (sender as u16 != index && (!p2p || receiver as u16 == index)))
                    },
                }
            },
        },
{
}

/// Unknown fields are transparent to decoding: a field with a tag that
/// `Content` does not define, which prost skips up to the rest of the frame,
/// leaves the decoded content as the rest of the frame alone gives it. The
/// field holds its own key.
pub proof fn lemma_content_skips_unknown(acc: ContentModel, field: Seq<u8>, rest: Seq<u8>)
    ensures
        ({
            let s = field + rest;
            key_parse(s) matches Some((tag, wire, n)) && n <= field.len() && tag > 5
                && skip_field_rest(
                wire,
                tag,
                s.skip(n as int),
            ) == Some(rest.len())
        }) ==> content_merge(acc, field + rest) == content_merge(acc, rest),
{
    let s = field + rest;
    if let Some((tag, wire, n)) = key_parse(s) {
        if n <= field.len() && tag > 5 && skip_field_rest(wire, tag, s.skip(n as int)) == Some(
            rest.len(),
        ) {
            crate::wire::lemma_varint_parse_bounds(s);
            assert(s.skip(n as int).len() == s.len() - n);
            assert(s.skip((n + (s.len() - n - rest.len())) as int) =~= rest);
        }
    }
}

/// Unknown fields are transparent to decoding an envelope, as
/// `lemma_content_skips_unknown` for a content.
pub proof fn lemma_envelope_skips_unknown(acc: EnvelopeModel, field: Seq<u8>, rest: Seq<u8>)
    ensures
        ({
            let s = field + rest;
            key_parse(s) matches Some((tag, wire, n)) && n <= field.len() && tag > 2
                && skip_field_rest(
                wire,
                tag,
                s.skip(n as int),
            ) == Some(rest.len())
        }) ==> envelope_merge(acc, field + rest) == envelope_merge(acc, rest),
{
    let s = field + rest;
    if let Some((tag, wire, n)) = key_parse(s) {
        if n <= field.len() && tag > 2 && skip_field_rest(wire, tag, s.skip(n as int)) == Some(
            rest.len(),
        ) {
            crate::wire::lemma_varint_parse_bounds(s);
            assert(s.skip(n as int).len() == s.len() - n);
            assert(s.skip((n + (s.len() - n - rest.len())) as int) =~= rest);
        }
    }
}

/// The frame built for an outbound message decodes to an envelope that
/// carries the given timestamp and a content whose fields are the given id,
/// the number of the destination's kind (0 for all parties, 1 for one), the
/// sender, no receiver, and the given message.
pub proof fn lemma_outgoing_decodes(
    id: u64,
    sender: u16,
    recipient: MessageDestination,
    message: Seq<u8>,
    timestamp: u64,
)
    requires
        outgoing_bytes(id, sender, recipient, message, timestamp).len() <= usize::MAX,
    ensures
        ({
            let r = envelope_decode(outgoing_bytes(id, sender, recipient, message, timestamp));
            &&& r is Ok
            &&& r->Ok_0.timestamp == Some(timestamp)
            &&& r->Ok_0.content is Some
            &&& content_decode(r->Ok_0.content->Some_0) == Ok::<ContentModel, crate::protos::WireFault>(
                ContentModel {
                    id: Some(id),
                    type_: Some(
                        if recipient == MessageDestination::AllParties {
                            0i32
                        } else {
                            1i32
                        },
                    ),
                    sender: Some(sender as u32),
                    receiver: None,
                    message: Some(message),
                },
            )
        }),
{
    let c = outgoing_content(id, sender, recipient, message);
    let cb = content_bytes(c);
    let framed = EnvelopeModel { content: Some(cb), timestamp: Some(timestamp) };
    assert(envelope_bytes(framed).len() >= cb.len());
    assert(cb.len() >= message.len());
    crate::protos::lemma_envelope_roundtrip(framed);
    crate::protos::lemma_content_roundtrip(c);
}

/// What one party frames for the server, another decodes as the same message:
/// party `index` gets back the id, the sender, the kind that the destination
/// called for and the serialized message, and takes the message exactly when
/// it did not send it and it is a broadcast or `index` is 0 (the frame names
/// no receiver, which reads as party 0).
pub proof fn lemma_outgoing_inbound(
    index: u16,
    id: u64,
    sender: u16,
    recipient: MessageDestination,
    message: Seq<u8>,
    timestamp: u64,
)
    requires
        outgoing_bytes(id, sender, recipient, message, timestamp).len() <= usize::MAX,
    ensures
        inbound(index, outgoing_bytes(id, sender, recipient, message, timestamp)) == Ok::<
            _,
            (bool, crate::protos::WireFault),
        >(
            (
                IncomingHeader { id, sender, msg_type: message_type_for(recipient) },
                message,
                index != sender && (recipient == MessageDestination::AllParties || index == 0),
            ),
        ),
{
    let c = outgoing_content(id, sender, recipient, message);
    let cb = content_bytes(c);
    let env = EnvelopeModel { content: Some(cb), timestamp: Some(timestamp) };
    assert(envelope_bytes(env).len() >= cb.len());
    assert(cb.len() >= message.len());
    crate::protos::lemma_envelope_roundtrip(env);
    crate::protos::lemma_content_roundtrip(c);
    assert(env.content_or_empty() == cb);
}

} // verus!
