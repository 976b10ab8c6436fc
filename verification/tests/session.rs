use coapable::codes::{MessageClass, MessageType, ResponseType};
use coapable::exchange::{Exchange, PeerAddr, TransportError};
use coapable::message::CoapResponseBuilder;
use coapable::reliability::{EXCHANGE_LIFETIME_MS, NON_LIFETIME_MS};
use coapable::session::{AckResult, PeerSession};
use coapable::wire::Message;

fn peer() -> PeerAddr {
    PeerAddr { ip: 0x7f00_0001, ipv6: false, port: 5683 }
}

fn ack(code: MessageClass, mid: u16) -> Message {
    Message { message_type: MessageType::Acknowledgement, code, message_id: mid, token: vec![], options: vec![], payload: vec![] }
}

#[test]
fn session_idle_lifecycle() {
    let mut session = PeerSession::new(peer());
    assert!(session.is_idle());
    let now = 1_000;
    session.record_inbound_mid(1000, now);
    assert!(!session.is_idle());
    assert!(session.is_duplicate(1000));
    session.evict_stale_dedup(now + EXCHANGE_LIFETIME_MS - 1);
    assert!(!session.is_idle());
    session.evict_stale_dedup(now + EXCHANGE_LIFETIME_MS);
    assert!(session.is_idle());
    assert!(!session.is_duplicate(1000));
}

#[test]
fn cached_response_for_recorded_mid_only() {
    let mut session = PeerSession::new(peer());
    session.cache_response_for_mid(7, vec![1]);
    assert_eq!(session.get_cached_response(7), None);
    session.record_inbound_mid(7, 0);
    assert_eq!(session.get_cached_response(7), None);
    session.cache_response_for_mid(7, vec![1, 2]);
    assert_eq!(session.get_cached_response(7), Some(&[1u8, 2][..]));
}

#[test]
fn complete_exchange_delivers_response() {
    let mut session = PeerSession::new(peer());
    let token = session.allocate_token();
    let mid = session.allocate_mid();
    let ex = Exchange::new_con(token.clone(), peer(), mid, vec![0x40, 1, 0, 0], 0);
    session.insert_con_exchange(token.clone(), mid, ex);
    assert!(!session.is_idle());
    let resp = CoapResponseBuilder::new(ResponseType::Content, token.clone()).build();
    assert!(session.complete_exchange(&token, resp));
    assert!(session.is_idle());
    let ds = session.take_deliveries();
    assert_eq!(ds.len(), 1);
    assert_eq!(ds[0].token, token);
    assert!(ds[0].result.is_ok());
    let again = CoapResponseBuilder::new(ResponseType::Content, token.clone()).build();
    assert!(!session.complete_exchange(&token, again));
    assert!(session.take_deliveries().is_empty());
}

#[test]
fn empty_ack_cancels_retransmission_only() {
    let mut session = PeerSession::new(peer());
    let token = session.allocate_token();
    let mid = session.allocate_mid();
    let ex = Exchange::new_con(token.clone(), peer(), mid, vec![1], 0);
    session.insert_con_exchange(token.clone(), mid, ex);
    assert!(matches!(session.handle_ack(mid, &ack(MessageClass::Empty, mid)), AckResult::EmptyAck));
    assert_eq!(session.next_retransmit_deadline(), Some(EXCHANGE_LIFETIME_MS));
    assert!(matches!(session.handle_ack(mid, &ack(MessageClass::Empty, mid)), AckResult::Unknown));
    assert!(!session.is_idle());
}

#[test]
fn piggybacked_ack_names_the_token() {
    let mut session = PeerSession::new(peer());
    let token = session.allocate_token();
    let mid = session.allocate_mid();
    let ex = Exchange::new_con(token.clone(), peer(), mid, vec![1], 0);
    session.insert_con_exchange(token.clone(), mid, ex);
    match session.handle_ack(mid, &ack(MessageClass::Response(ResponseType::Content), mid)) {
        AckResult::PiggybackedResponse(t) => assert_eq!(t, token),
        _ => panic!("expected the exchange's token"),
    }
    assert!(matches!(session.handle_ack(mid.wrapping_add(1), &ack(MessageClass::Empty, 0)), AckResult::Unknown));
}

#[test]
fn reset_fails_the_exchange() {
    let mut session = PeerSession::new(peer());
    let token = session.allocate_token();
    let mid = session.allocate_mid();
    let ex = Exchange::new_con(token.clone(), peer(), mid, vec![1], 0);
    session.insert_con_exchange(token.clone(), mid, ex);
    assert!(!session.handle_rst(mid.wrapping_add(1)));
    assert!(session.handle_rst(mid));
    let ds = session.take_deliveries();
    assert_eq!(ds.len(), 1);
    assert!(matches!(ds[0].result, Err(TransportError::Reset)));
    assert!(session.is_idle());
}

#[test]
fn non_exchange_expires_without_retransmissions() {
    let mut session = PeerSession::new(peer());
    let token = session.allocate_token();
    session.insert_exchange(token.clone(), Exchange::new_non(token.clone(), peer(), 5));
    assert!(session.collect_retransmissions(5 + NON_LIFETIME_MS - 1).is_empty());
    assert!(session.take_deliveries().is_empty());
    assert!(session.collect_retransmissions(5 + NON_LIFETIME_MS).is_empty());
    let ds = session.take_deliveries();
    assert_eq!(ds.len(), 1);
    assert!(matches!(ds[0].result, Err(TransportError::Timeout { retransmits: 0 })));
}

#[test]
fn due_exchange_is_retransmitted() {
    let mut session = PeerSession::new(peer());
    let token = session.allocate_token();
    let mid = session.allocate_mid();
    session.insert_con_exchange(token.clone(), mid, Exchange::new_con(token.clone(), peer(), mid, vec![4, 2], 0));
    let due = session.next_retransmit_deadline().unwrap();
    assert!(session.collect_retransmissions(due - 1).is_empty());
    assert_eq!(session.collect_retransmissions(due), vec![vec![4, 2]]);
    assert!(session.next_retransmit_deadline().unwrap() > due);
}

#[test]
fn exchange_accessors() {
    let ex = Exchange::new_con(vec![1, 2], peer(), 77, vec![9], 100);
    assert_eq!(ex.token(), &[1, 2]);
    assert_eq!(ex.peer(), peer());
    assert_eq!(ex.message_id(), Some(77));
    assert_eq!(ex.retransmit_count(), 0);
    assert_eq!(ex.expiry_deadline(), Some(100 + EXCHANGE_LIFETIME_MS));
    assert!(!ex.is_expired(100));
    assert!(ex.is_expired(100 + EXCHANGE_LIFETIME_MS));
    let d = ex.retransmit_deadline().unwrap();
    assert!(!ex.needs_retransmit(d - 1));
    assert!(ex.needs_retransmit(d));
    let non = Exchange::new_non(vec![3], peer(), 0);
    assert_eq!(non.message_id(), None);
    assert_eq!(non.retransmit_deadline(), None);
    let failed = non.fail(TransportError::EndpointClosed);
    assert!(matches!(failed.result, Err(TransportError::EndpointClosed)));
}

#[test]
fn ack_with_request_code_acknowledges_a_known_mid() {
    let mut session = PeerSession::new(peer());
    let token = session.allocate_token();
    let mid = session.allocate_mid();
    let ex = Exchange::new_con(token.clone(), peer(), mid, vec![1], 0);
    session.insert_con_exchange(token.clone(), mid, ex);
    let bad = ack(MessageClass::Request(coapable::codes::RequestType::Get), mid);
    assert!(matches!(session.handle_ack(mid, &bad), AckResult::EmptyAck));
    assert_eq!(session.next_retransmit_deadline(), Some(EXCHANGE_LIFETIME_MS));
    assert!(matches!(session.handle_ack(mid, &bad), AckResult::Unknown));
}

#[test]
fn timer_resends_only_due_exchanges_and_keeps_idle_ones() {
    let mut session = PeerSession::new(peer());
    let t1 = session.allocate_token();
    let m1 = session.allocate_mid();
    session.insert_con_exchange(t1.clone(), m1, Exchange::new_con(t1.clone(), peer(), m1, vec![1], 0));
    let t2 = session.allocate_token();
    let m2 = session.allocate_mid();
    session.insert_con_exchange(t2.clone(), m2, Exchange::new_con(t2.clone(), peer(), m2, vec![2], 10_000));
    let t3 = session.allocate_token();
    session.insert_exchange(t3.clone(), Exchange::new_non(t3.clone(), peer(), 0));
    // At 4 s only the first exchange is due; the second is neither due nor
    // expired and the non-confirmable one has not outlived its lifetime.
    assert_eq!(session.collect_retransmissions(4_000), vec![vec![1]]);
    assert!(session.take_deliveries().is_empty());
    assert!(session.next_retransmit_deadline().unwrap() >= 4_000 + 4_000);
    // Past the non-confirmable lifetime only that exchange fails.
    let later = NON_LIFETIME_MS;
    let _ = session.collect_retransmissions(later);
    let ds = session.take_deliveries();
    assert!(ds.iter().any(|d| d.token == t3 && matches!(d.result, Err(TransportError::Timeout { retransmits: 0 }))));
    assert!(ds.iter().all(|d| d.token != t2));
}
