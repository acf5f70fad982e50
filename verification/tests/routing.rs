use tss_lib::message::{SyncMsg, SyncType};
use tss_lib::network::{
    encode_outgoing, handle_bin_msg, handle_sync_msg, join_step, listen_step, FrameError,
    IncomingHeader, JoinStep, ListenStep, MessageDestination, MessageType, NextMessageId,
    ServerEvent, TssOutgoing,
};
use tss_lib::protos::{encode_content, encode_envelope, Content, Envelope, ProtoError};

fn frame(content: Content) -> Vec<u8> {
    encode_envelope(&Envelope { content: Some(encode_content(&content)), timestamp: Some(1) })
}

fn content(type_: Option<i32>, sender: Option<u32>, receiver: Option<u32>) -> Content {
    Content { id: Some(42), type_, sender, receiver, message: Some(b"payload".to_vec()) }
}

#[test]
fn broadcast_from_another_party_is_delivered() {
    let f = handle_bin_msg(1, &frame(content(Some(0), Some(2), None))).ok().unwrap();
    assert!(f.deliver);
    assert_eq!(f.header, IncomingHeader { id: 42, sender: 2, msg_type: MessageType::Broadcast });
    assert_eq!(f.payload, b"payload".to_vec());
}

#[test]
fn own_message_is_not_delivered() {
    let f = handle_bin_msg(2, &frame(content(Some(0), Some(2), None))).ok().unwrap();
    assert!(!f.deliver);
}

#[test]
fn p2p_for_another_party_is_not_delivered() {
    let f = handle_bin_msg(1, &frame(content(Some(1), Some(0), Some(3)))).ok().unwrap();
    assert!(!f.deliver);
    assert_eq!(f.header.msg_type, MessageType::P2P);
}

#[test]
fn p2p_for_this_party_is_delivered() {
    let f = handle_bin_msg(3, &frame(content(Some(1), Some(0), Some(3)))).ok().unwrap();
    assert!(f.deliver);
    assert_eq!(f.header.msg_type, MessageType::P2P);
}

#[test]
fn unknown_type_number_reads_as_broadcast() {
    let f = handle_bin_msg(3, &frame(content(Some(7), Some(0), Some(5)))).ok().unwrap();
    assert!(f.deliver);
    assert_eq!(f.header.msg_type, MessageType::Broadcast);
}

#[test]
fn unset_fields_read_as_zero() {
    let c = Content { id: None, type_: None, sender: None, receiver: None, message: None };
    let f = handle_bin_msg(1, &frame(c)).ok().unwrap();
    assert_eq!(f.header, IncomingHeader { id: 0, sender: 0, msg_type: MessageType::Broadcast });
    assert!(f.payload.is_empty());
    assert!(f.deliver);
    let f0 = handle_bin_msg(0, &encode_envelope(&Envelope { content: None, timestamp: None }))
        .ok()
        .unwrap();
    assert!(!f0.deliver);
}

#[test]
fn sender_is_compared_by_low_16_bits() {
    let f = handle_bin_msg(4, &frame(content(Some(0), Some(65536 + 4), None))).ok().unwrap();
    assert!(!f.deliver);
    assert_eq!(f.header.sender, 4);
}

#[test]
fn bad_envelope_and_bad_content_are_told_apart() {
    assert!(matches!(
        handle_bin_msg(0, &[0x0A, 0x09]),
        Err(FrameError::Envelope(ProtoError::BufferUnderflow))
    ));
    let bad_content =
        encode_envelope(&Envelope { content: Some(vec![0x08]), timestamp: None });
    assert!(matches!(
        handle_bin_msg(0, &bad_content),
        Err(FrameError::Content(ProtoError::Malformed(_)))
    ));
}

#[test]
fn ids_count_up_from_zero() {
    let mut ids = NextMessageId::default();
    assert_eq!(ids.next(), 0);
    assert_eq!(ids.next(), 1);
    assert_eq!(ids.next(), 2);
}

#[test]
fn start_send_stamps_sender_id_and_kind() {
    let mut out = TssOutgoing::new(5);
    let h0 = out.start_send(MessageDestination::AllParties);
    let h1 = out.start_send(MessageDestination::OneParty(2));
    assert_eq!(h0, IncomingHeader { id: 0, sender: 5, msg_type: MessageType::Broadcast });
    assert_eq!(h1, IncomingHeader { id: 1, sender: 5, msg_type: MessageType::P2P });
}

#[test]
fn outgoing_frame_has_expected_bytes() {
    let h = IncomingHeader { id: 1, sender: 2, msg_type: MessageType::Broadcast };
    let bytes = encode_outgoing(&h, MessageDestination::AllParties, vec![0xAB], 3);
    let inner = vec![0x08, 0x01, 0x10, 0x00, 0x18, 0x02, 0x2A, 0x01, 0xAB];
    let mut expected = vec![0x0A, inner.len() as u8];
    expected.extend(inner);
    expected.extend(vec![0x10, 0x03]);
    assert_eq!(bytes, expected);
}

#[test]
fn outgoing_then_inbound_gives_the_message_back() {
    let mut out = TssOutgoing::new(1);
    let h = out.start_send(MessageDestination::AllParties);
    let bytes = encode_outgoing(&h, MessageDestination::AllParties, b"m".to_vec(), 9);
    let at_2 = handle_bin_msg(2, &bytes).ok().unwrap();
    assert!(at_2.deliver);
    assert_eq!(at_2.header, h);
    assert_eq!(at_2.payload, b"m".to_vec());
    let at_1 = handle_bin_msg(1, &bytes).ok().unwrap();
    assert!(!at_1.deliver);
}

#[test]
fn outgoing_p2p_reaches_only_party_zero() {
    let h = IncomingHeader { id: 3, sender: 1, msg_type: MessageType::P2P };
    let bytes = encode_outgoing(&h, MessageDestination::OneParty(2), b"m".to_vec(), 9);
    assert!(!handle_bin_msg(2, &bytes).ok().unwrap().deliver);
    assert!(handle_bin_msg(0, &bytes).ok().unwrap().deliver);
}

fn sync(t: SyncType) -> SyncMsg {
    SyncMsg { type_: t, device: "dev".to_string() }
}

#[test]
fn only_start_starts() {
    assert!(handle_sync_msg(Some(&sync(SyncType::Start))));
    assert!(!handle_sync_msg(Some(&sync(SyncType::Join))));
    assert!(!handle_sync_msg(Some(&sync(SyncType::Leave))));
    assert!(!handle_sync_msg(Some(&sync(SyncType::GenUuid))));
    assert!(!handle_sync_msg(None));
}

#[test]
fn join_waits_until_start_or_end() {
    assert_eq!(join_step(Some(&ServerEvent::Text(Some(sync(SyncType::Join))))), JoinStep::Wait);
    assert_eq!(join_step(Some(&ServerEvent::Text(None))), JoinStep::Wait);
    assert_eq!(join_step(Some(&ServerEvent::Control)), JoinStep::Wait);
    assert_eq!(join_step(Some(&ServerEvent::Binary(vec![1]))), JoinStep::Wait);
    assert_eq!(join_step(Some(&ServerEvent::Text(Some(sync(SyncType::Start))))), JoinStep::Start);
    assert_eq!(join_step(Some(&ServerEvent::Failed)), JoinStep::Stop);
    assert_eq!(join_step(None), JoinStep::Stop);
}

#[test]
fn listener_decodes_only_binary_frames() {
    assert!(matches!(
        listen_step(0, ServerEvent::Text(Some(sync(SyncType::Start)))),
        ListenStep::Ignore
    ));
    assert!(matches!(listen_step(0, ServerEvent::Control), ListenStep::Ignore));
    assert!(matches!(listen_step(0, ServerEvent::Failed), ListenStep::Ignore));
    let bytes = frame(content(Some(0), Some(2), None));
    match listen_step(1, ServerEvent::Binary(bytes)) {
        ListenStep::Inbound(f) => assert!(f.deliver),
        _ => panic!("expected an inbound frame"),
    }
    assert!(matches!(listen_step(1, ServerEvent::Binary(vec![0x00])), ListenStep::Rejected(_)));
}

#[test]
fn sync_msg_default_and_equality() {
    let d = SyncMsg::default();
    assert_eq!(d.type_, SyncType::Join);
    assert_eq!(d.device, "");
    assert!(sync(SyncType::Leave) == sync(SyncType::Leave));
    assert!(sync(SyncType::Leave) != sync(SyncType::Join));
    assert_eq!(SyncType::default(), SyncType::Join);
}

#[test]
fn room_url_joins_address_and_room() {
    let u = tss_lib::network::room_url("ws://127.0.0.1:8080", "c05554ae").unwrap();
    assert_eq!(u, "ws://127.0.0.1:8080/c05554ae");
}

#[test]
fn room_url_is_normalized_by_the_parser() {
    let u = tss_lib::network::room_url("WS://Example.COM", "room").unwrap();
    assert_eq!(u, "ws://example.com/room");
}

#[test]
fn room_url_refuses_what_is_no_url() {
    assert!(tss_lib::network::room_url("not a url", "room").is_none());
    assert!(tss_lib::network::room_url("", "room").is_none());
}

#[test]
fn ids_over_a_run_are_consecutive_and_distinct() {
    let mut out = TssOutgoing::new(0);
    let ids: Vec<u64> = (0..100)
        .map(|k| {
            let d = if k % 2 == 0 {
                MessageDestination::AllParties
            } else {
                MessageDestination::OneParty(1)
            };
            out.start_send(d).id
        })
        .collect();
    let expected: Vec<u64> = (0..100).collect();
    assert_eq!(ids, expected);
}
