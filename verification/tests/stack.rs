use coapable::codes::{MessageClass, MessageType, RequestType, ResponseType};
use coapable::exchange::{PeerAddr, TransportError};
use coapable::message::{CoapRequest, CoapResponseBuilder};
use coapable::reliability::{ACK_TIMEOUT_MAX_MS, EXCHANGE_LIFETIME_MS, MAX_RETRANSMIT, NON_LIFETIME_MS};
use coapable::stack::{ServerResponse, StackAction, StackState};
use coapable::wire::Message;
use coapable::context::ContextAction;

fn peer_b() -> PeerAddr {
    PeerAddr { ip: 0x7f00_0001, ipv6: false, port: 5683 }
}

fn message(t: MessageType, code: MessageClass, mid: u16, token: Vec<u8>) -> Message {
    Message { message_type: t, code, message_id: mid, token, options: Vec::new(), payload: Vec::new() }
}

fn sent_message(a: &StackAction) -> (PeerAddr, Message) {
    match a {
        StackAction::Send { peer, bytes } => (*peer, Message::decode(bytes).unwrap()),
        _ => panic!("expected a datagram to send"),
    }
}

#[test]
fn stack_demux_non_request_to_server() {
    let mut stack = StackState::new(0);
    let req = message(MessageType::NonConfirmable, MessageClass::Request(RequestType::Get), 1, vec![1, 2, 3, 4]);
    let bytes = req.encode().unwrap();
    let actions = stack.handle_datagram(peer_b(), &bytes, 10);
    assert_eq!(actions.len(), 1);
    match &actions[0] {
        StackAction::DeliverRequest(sr) => {
            assert_eq!(sr.peer, peer_b());
            assert!(matches!(sr.request.method(), RequestType::Get));
            assert_eq!(sr.token, &[1, 2, 3, 4]);
        },
        _ => panic!("expected a request for the server"),
    }
}

#[test]
fn undecodable_datagram_changes_nothing() {
    let mut stack = StackState::new(0);
    let actions = stack.handle_datagram(peer_b(), &[0x01, 0x02], 10);
    assert!(actions.is_empty());
    assert_eq!(stack.next_deadline(), None);
}

#[test]
fn stack_demux_non_response_to_client() {
    let mut stack = StackState::new(0);
    let request = CoapRequest::new(RequestType::Get).confirmable(false).build();
    let (token, bytes) = stack.handle_outbound_request(&request, peer_b(), 100).unwrap();
    let sent = Message::decode(&bytes).unwrap();
    assert_eq!(sent.message_type, MessageType::NonConfirmable);
    assert_eq!(sent.token, token);

    let mut resp = message(MessageType::NonConfirmable, MessageClass::Response(ResponseType::Content), 777, token.clone());
    resp.payload = b"hello".to_vec();
    let actions = stack.handle_message(peer_b(), &resp, 200);
    assert_eq!(actions.len(), 1);
    match &actions[0] {
        StackAction::Resolve(d) => {
            assert_eq!(d.token, token);
            assert_eq!(d.peer, peer_b());
            let r = d.result.as_ref().ok().unwrap();
            assert_eq!(r.status(), ResponseType::Content);
            assert_eq!(r.payload(), b"hello");
        },
        _ => panic!("expected the exchange to be resolved"),
    }
}

#[test]
fn stack_con_request_piggybacked_response() {
    let mut stack = StackState::new(0);
    let request = CoapRequest::new(RequestType::Get).build();
    let (token, bytes) = stack.handle_outbound_request(&request, peer_b(), 100).unwrap();
    let sent = Message::decode(&bytes).unwrap();
    assert_eq!(sent.message_type, MessageType::Confirmable);

    let mut ack = message(MessageType::Acknowledgement, MessageClass::Response(ResponseType::Content), sent.message_id, token.clone());
    ack.payload = b"piggyback".to_vec();
    let actions = stack.handle_message(peer_b(), &ack, 150);
    assert_eq!(actions.len(), 1);
    match &actions[0] {
        StackAction::Resolve(d) => {
            let r = d.result.as_ref().ok().unwrap();
            assert_eq!(r.status(), ResponseType::Content);
            assert_eq!(r.payload(), b"piggyback");
        },
        _ => panic!("expected the exchange to be resolved"),
    }
    assert_eq!(stack.next_deadline(), None);
}

#[test]
fn stack_con_request_separate_response() {
    let mut stack = StackState::new(0);
    let request = CoapRequest::new(RequestType::Get).build();
    let (token, bytes) = stack.handle_outbound_request(&request, peer_b(), 100).unwrap();
    let sent = Message::decode(&bytes).unwrap();

    let ack = message(MessageType::Acknowledgement, MessageClass::Empty, sent.message_id, vec![]);
    assert!(stack.handle_message(peer_b(), &ack, 150).is_empty());
    // The retransmission is cancelled; only the expiry deadline is left.
    assert_eq!(stack.next_deadline(), Some(100 + EXCHANGE_LIFETIME_MS));

    let mut resp = message(MessageType::NonConfirmable, MessageClass::Response(ResponseType::Content), 4242, token);
    resp.payload = b"separate".to_vec();
    let actions = stack.handle_message(peer_b(), &resp, 300);
    assert_eq!(actions.len(), 1);
    match &actions[0] {
        StackAction::Resolve(d) => assert_eq!(d.result.as_ref().ok().unwrap().payload(), b"separate"),
        _ => panic!("expected the exchange to be resolved"),
    }
}

#[test]
fn stack_con_request_rst_fails_exchange() {
    let mut stack = StackState::new(0);
    let request = CoapRequest::new(RequestType::Get).build();
    let (token, bytes) = stack.handle_outbound_request(&request, peer_b(), 100).unwrap();
    let sent = Message::decode(&bytes).unwrap();
    let rst = message(MessageType::Reset, MessageClass::Empty, sent.message_id, vec![]);
    let actions = stack.handle_message(peer_b(), &rst, 120);
    assert_eq!(actions.len(), 1);
    match &actions[0] {
        StackAction::Resolve(d) => {
            assert_eq!(d.token, token);
            assert!(matches!(d.result, Err(TransportError::Reset)));
        },
        _ => panic!("expected the exchange to fail"),
    }
}

#[test]
fn stack_inbound_con_request_triggers_auto_ack() {
    let mut stack = StackState::new(0);
    let req = message(MessageType::Confirmable, MessageClass::Request(RequestType::Get), 12345, vec![40, 41]);
    let actions = stack.handle_message(peer_b(), &req, 10);
    assert_eq!(actions.len(), 2);
    let (to, ack) = sent_message(&actions[0]);
    assert_eq!(to, peer_b());
    assert_eq!(ack.message_type, MessageType::Acknowledgement);
    assert_eq!(ack.message_id, 12345);
    assert!(matches!(ack.code, MessageClass::Empty));
    match &actions[1] {
        StackAction::DeliverRequest(sr) => {
            assert_eq!(sr.peer, peer_b());
            assert_eq!(sr.token, &[40, 41]);
        },
        _ => panic!("expected a request for the server"),
    }
}

#[test]
fn stack_dedup_drops_duplicate_non() {
    let mut stack = StackState::new(0);
    let req = message(MessageType::NonConfirmable, MessageClass::Request(RequestType::Get), 9999, vec![50, 51]);
    let bytes = req.encode().unwrap();
    let first = stack.handle_datagram(peer_b(), &bytes, 10);
    let second = stack.handle_datagram(peer_b(), &bytes, 11);
    let req2 = message(MessageType::NonConfirmable, MessageClass::Request(RequestType::Get), 10000, vec![52, 53]);
    let third = stack.handle_message(peer_b(), &req2, 12);
    assert_eq!(first.len(), 1);
    assert!(second.is_empty());
    assert_eq!(third.len(), 1);
    match (&first[0], &third[0]) {
        (StackAction::DeliverRequest(a), StackAction::DeliverRequest(b)) => {
            assert_eq!(a.token, &[50, 51]);
            assert_eq!(b.token, &[52, 53]);
        },
        _ => panic!("expected requests for the server"),
    }
}

#[test]
fn duplicate_con_gets_cached_ack() {
    let mut stack = StackState::new(0);
    let req = message(MessageType::Confirmable, MessageClass::Request(RequestType::Get), 5555, vec![80, 81]);
    let first = stack.handle_message(peer_b(), &req, 10);
    assert_eq!(first.len(), 2);
    let (_, ack1) = sent_message(&first[0]);
    assert_eq!(ack1.message_type, MessageType::Acknowledgement);
    assert_eq!(ack1.message_id, 5555);
    let second = stack.handle_message(peer_b(), &req, 20);
    assert_eq!(second.len(), 1);
    let (_, ack2) = sent_message(&second[0]);
    assert_eq!(ack2.message_type, MessageType::Acknowledgement);
    assert_eq!(ack2.message_id, 5555);
    assert!(matches!(ack2.code, MessageClass::Empty));
}

#[test]
fn stack_outbound_request_gets_mid_assigned() {
    let mut stack = StackState::new(0);
    let r1 = CoapRequest::new(RequestType::Get).confirmable(false).build();
    let r2 = CoapRequest::new(RequestType::Get).confirmable(false).build();
    let (t1, b1) = stack.handle_outbound_request(&r1, peer_b(), 1).unwrap();
    let (t2, b2) = stack.handle_outbound_request(&r2, peer_b(), 2).unwrap();
    let p1 = Message::decode(&b1).unwrap();
    let p2 = Message::decode(&b2).unwrap();
    assert_ne!(p1.message_id, p2.message_id);
    assert_eq!(p2.message_id, p1.message_id.wrapping_add(1));
    assert_ne!(t1, t2);
}

#[test]
fn non_request_timeout() {
    let mut stack = StackState::new(0);
    let request = CoapRequest::new(RequestType::Get).confirmable(false).build();
    let (token, _) = stack.handle_outbound_request(&request, peer_b(), 1_000).unwrap();
    assert_eq!(stack.next_deadline(), Some(1_000 + NON_LIFETIME_MS));
    assert!(stack.handle_retransmit_timer(1_000 + NON_LIFETIME_MS - 1).is_empty());
    let actions = stack.handle_retransmit_timer(1_000 + NON_LIFETIME_MS);
    assert_eq!(actions.len(), 1);
    match &actions[0] {
        StackAction::Resolve(d) => {
            assert_eq!(d.token, token);
            assert!(matches!(d.result, Err(TransportError::Timeout { retransmits: 0 })));
        },
        _ => panic!("expected a timeout"),
    }
}

#[test]
fn stack_con_request_timeout() {
    let mut stack = StackState::new(0);
    let request = CoapRequest::new(RequestType::Get).build();
    let (token, bytes) = stack.handle_outbound_request(&request, peer_b(), 0).unwrap();
    let mut resends = 0;
    let mut outcome = None;
    for _ in 0..20 {
        let due = stack.next_deadline().unwrap();
        for a in stack.handle_retransmit_timer(due) {
            match a {
                StackAction::Send { peer, bytes: b } => {
                    assert_eq!(peer, peer_b());
                    assert_eq!(b, bytes);
                    resends += 1;
                },
                StackAction::Resolve(d) => {
                    assert_eq!(d.token, token);
                    outcome = Some(d.result);
                },
                _ => panic!("unexpected action"),
            }
        }
        if outcome.is_some() {
            break;
        }
    }
    assert_eq!(resends, MAX_RETRANSMIT);
    assert!(matches!(outcome, Some(Err(TransportError::Timeout { retransmits: 4 }))));
    assert!(stack.next_deadline().is_none());
}

#[test]
fn first_retransmission_follows_ack_timeout() {
    let mut stack = StackState::new(0);
    let request = CoapRequest::new(RequestType::Get).build();
    stack.handle_outbound_request(&request, peer_b(), 0).unwrap();
    let due = stack.next_deadline().unwrap();
    assert!(due >= 2_000 && due <= ACK_TIMEOUT_MAX_MS);
}

#[test]
fn outbound_response_is_non_confirmable_with_token() {
    let mut stack = StackState::new(0);
    let response = CoapResponseBuilder::new(ResponseType::Content, vec![]).payload(b"22.5").build();
    let bytes = stack
        .handle_outbound_response(&ServerResponse { response, peer: peer_b(), token: vec![9, 8] })
        .unwrap();
    let m = Message::decode(&bytes).unwrap();
    assert_eq!(m.message_type, MessageType::NonConfirmable);
    assert_eq!(m.code, MessageClass::Response(ResponseType::Content));
    assert_eq!(m.token, vec![9, 8]);
    assert_eq!(m.payload, b"22.5".to_vec());
}

#[test]
fn idle_sessions_are_dropped_at_cleanup() {
    let mut stack = StackState::new(0);
    assert_eq!(stack.next_cleanup(), 30_000);
    let req = message(MessageType::NonConfirmable, MessageClass::Request(RequestType::Get), 1, vec![]);
    stack.handle_message(peer_b(), &req, 10);
    // The dedup entry keeps the session.
    stack.handle_cleanup_timer(1_000);
    assert_eq!(stack.next_cleanup(), 31_000);
    assert!(stack.handle_message(peer_b(), &req, 20).is_empty());
    // Once the entry is stale, the session is idle and dropped: the message
    // is new again.
    stack.handle_retransmit_timer(10 + EXCHANGE_LIFETIME_MS);
    stack.handle_cleanup_timer(20 + EXCHANGE_LIFETIME_MS);
    assert_eq!(stack.handle_message(peer_b(), &req, 30 + EXCHANGE_LIFETIME_MS).len(), 1);
}

#[test]
fn context_request_keeps_the_callers_token() {
    let mut stack = StackState::new(0);
    let mut m = message(MessageType::Confirmable, MessageClass::Request(RequestType::Get), 0, vec![9, 8, 7]);
    m.options = vec![(11, b"temp".to_vec())];
    let bytes = stack.handle_context_request(m, peer_b(), 100).unwrap();
    let sent = Message::decode(&bytes).unwrap();
    assert_eq!(sent.token, vec![9, 8, 7]);
    assert_eq!(sent.options, vec![(11u16, b"temp".to_vec())]);
    assert_eq!(sent.message_type, MessageType::Confirmable);
    assert!(stack.next_deadline().is_some());

    let ack = message(MessageType::Acknowledgement, MessageClass::Response(ResponseType::Content), sent.message_id, vec![9, 8, 7]);
    let actions = stack.handle_context_message(peer_b(), ack, 150);
    assert_eq!(actions.len(), 1);
    match &actions[0] {
        ContextAction::Resolve(d) => {
            assert_eq!(d.token, vec![9, 8, 7]);
            assert!(matches!(d.result, Ok(ref r) if r.status() == ResponseType::Content));
        },
        _ => panic!("expected the exchange to be resolved"),
    }
    assert_eq!(stack.next_deadline(), None);
}

#[test]
fn context_delivers_requests_as_messages() {
    let mut stack = StackState::new(0);
    let req = message(MessageType::Confirmable, MessageClass::Request(RequestType::Post), 42, vec![5]);
    let actions = stack.handle_context_message(peer_b(), req, 10);
    assert_eq!(actions.len(), 2);
    match &actions[0] {
        ContextAction::Send { peer, bytes } => {
            assert_eq!(*peer, peer_b());
            let ack = Message::decode(bytes).unwrap();
            assert_eq!(ack.message_type, MessageType::Acknowledgement);
            assert_eq!(ack.code, MessageClass::Empty);
            assert_eq!(ack.message_id, 42);
        },
        _ => panic!("expected an acknowledgement"),
    }
    match &actions[1] {
        ContextAction::DeliverRequest { message, peer } => {
            assert_eq!(*peer, peer_b());
            assert_eq!(message.message_id, 42);
            assert_eq!(message.token, vec![5]);
        },
        _ => panic!("expected the request for the server"),
    }
    // The acknowledgement is not cached: a duplicate is dropped silently.
    let again = message(MessageType::Confirmable, MessageClass::Request(RequestType::Post), 42, vec![5]);
    assert!(stack.handle_context_message(peer_b(), again, 20).is_empty());
}
