//! What the stack promises across events: duplicates, acknowledgements,
//! resets, timeouts and message IDs, and the same for its context variant
//! where they differ.

use vstd::prelude::*;
use crate::codes::{MessageClass, MessageType};
use crate::session::{
    SessionView, TimerStep, delivery_for, timer_expired, timer_step, after_ack, exchange_closed, find_token, reset_effect, tokens_distinct,
};
use crate::stack::{
    StackAction, StackView, ack_bytes, drained, effect_through, find_peer, inbound_step, is_response_to, is_send,
    lemma_placed, message_effect, outbound_effect, placed, request_exchange, request_parts, request_sent,
    resolves, sent_through, session_before, stack_view_wf, with_exchange, session_timer_actions, timer_action_count,
    timer_actions,
};
use crate::message::{CoapRequest, CoapResponse, request_decodable, request_read_from};
use crate::reliability::{lemma_token_bytes_injective, token_bytes, wrapping_next_u16, wrapping_next_u32};
use crate::wire::header_written;
use crate::exchange::{ExchangeView, PeerAddr, exchange_retransmit_count};
use crate::wire::Message;
use crate::context::{
    ContextAction, context_effect_through, context_message_effect, context_request_effect, context_request_sent,
    context_sent_through, parts_with_mid,
};

verus! {

/// Removing an entry keeps tokens distinct.
proof fn lemma_tokens_remove(s: Seq<(Seq<u8>, ExchangeView)>, i: int)
    requires
        tokens_distinct(s),
        0 <= i < s.len(),
    ensures
        tokens_distinct(s.remove(i)),
{
    let t = s.remove(i);
    assert forall|a: int, b: int| 0 <= a < t.len() && 0 <= b < t.len() && a != b implies t[a].0 != t[b].0 by {
        let oa = if a < i { a } else { a + 1 };
        let ob = if b < i { b } else { b + 1 };
        assert(t[a] == s[oa]);
        assert(t[b] == s[ob]);
    }
}

/// A session's tokens stay distinct through an exchange being closed.
proof fn lemma_tokens_closed(
    s: SessionView,
    t: Seq<u8>,
    s2: SessionView,
    ok: spec_fn(Result<crate::message::CoapResponse, crate::exchange::TransportError>) -> bool,
)
    requires
        tokens_distinct(s.exchanges),
        exchange_closed(s, t, s2, ok),
    ensures
        tokens_distinct(s2.exchanges),
{
    if let Some(i) = find_token(s.exchanges, t) {
        lemma_tokens_remove(s.exchanges, i);
    }
}

/// An inbound message keeps the session's tokens distinct.
proof fn lemma_tokens_inbound(s: SessionView, m: Message, now: u64, s2: SessionView, acts: Seq<StackAction>)
    requires
        tokens_distinct(s.exchanges),
        inbound_step(s, m, now, s2, acts),
    ensures
        tokens_distinct(s2.exchanges),
{
    let mid = m.message_id;
    match m.message_type {
        MessageType::Acknowledgement => {
            let a = after_ack(s, mid, m.code);
            if s.mid_to_token.dom().contains(mid) {
                let t = s.mid_to_token[mid];
                if let Some(i) = find_token(s.exchanges, t) {
                    let u = s.exchanges.update(i, (t, ExchangeView { retransmit: None, ..s.exchanges[i].1 }));
                    assert forall|x: int, y: int| 0 <= x < u.len() && 0 <= y < u.len() && x != y implies u[x].0 != u[y].0 by {
                        assert(u[x].0 == s.exchanges[x].0);
                        assert(u[y].0 == s.exchanges[y].0);
                    }
                }
            }
            assert(tokens_distinct(a.exchanges));
            match m.code {
                MessageClass::Response(_) => {
                    if s.mid_to_token.dom().contains(mid) {
                        lemma_tokens_closed(a, s.mid_to_token[mid], s2,
                            |x: Result<crate::message::CoapResponse, crate::exchange::TransportError>| crate::stack::is_response_to(x, m));
                    }
                },
                _ => {},
            }
        },
        MessageType::Reset => {
            if s.mid_to_token.dom().contains(mid) {
                if let Some(i) = find_token(s.exchanges, s.mid_to_token[mid]) {
                    lemma_tokens_remove(s.exchanges, i);
                }
            }
        },
        _ => {
            if !s.dedup.dom().contains(mid) {
                let cached = if m.message_type == MessageType::Confirmable { ack_bytes(mid) } else { None };
                let s1 = SessionView {
                    dedup: s.dedup.insert(mid, crate::session::DedupView { cached_response: cached, created: now }),
                    ..s
                };
                match m.code {
                    MessageClass::Response(_) => {
                        lemma_tokens_closed(s1, m.token@, s2,
                            |x: Result<crate::message::CoapResponse, crate::exchange::TransportError>| crate::stack::is_response_to(x, m));
                    },
                    _ => {},
                }
            }
        },
    }
}

/// The session an event works on belongs to its peer and holds no delivery.
proof fn lemma_session_before(st: StackView, peer: PeerAddr, s: SessionView)
    requires
        stack_view_wf(st),
        session_before(st.sessions, peer, s),
    ensures
        s.peer == peer,
        s.deliveries.len() == 0,
        tokens_distinct(s.exchanges),
{
    match find_peer(st.sessions, peer) {
        Some(i) => {
            assert(st.sessions[i].deliveries.len() == 0);
            assert(tokens_distinct(st.sessions[i].exchanges));
        },
        None => {},
    }
}

/// A new (not yet seen) confirmable or non-confirmable message leaves its
/// message ID recorded in the session, with the cached acknowledgement of a
/// confirmable one.
proof fn lemma_new_message_recorded(s: SessionView, m: Message, now: u64, s2: SessionView, acts: Seq<StackAction>)
    requires
        m.message_type == MessageType::Confirmable || m.message_type == MessageType::NonConfirmable,
        !s.dedup.dom().contains(m.message_id),
        inbound_step(s, m, now, s2, acts),
    ensures
        s2.peer == s.peer,
        s2.dedup.dom().contains(m.message_id),
        s2.dedup[m.message_id].cached_response
            == (if m.message_type == MessageType::Confirmable { ack_bytes(m.message_id) } else { None }),
{
    let cached = if m.message_type == MessageType::Confirmable { ack_bytes(m.message_id) } else { None };
    let s1 = SessionView {
        dedup: s.dedup.insert(m.message_id, crate::session::DedupView { cached_response: cached, created: now }),
        ..s
    };
    match m.code {
        MessageClass::Response(_) => {
            assert(exchange_closed(s1, m.token@, s2, |x: Result<crate::message::CoapResponse, crate::exchange::TransportError>| crate::stack::is_response_to(x, m)));
        },
        _ => {},
    }
}

/// A confirmable message is acknowledged with an empty acknowledgement the
/// first time; when the same message (same message ID) comes again, the
/// same acknowledgement is sent again and nothing else happens.
pub proof fn law_duplicate_con_gets_cached_ack(
    st0: StackView,
    peer: PeerAddr,
    m: Message,
    now1: u64,
    st1: StackView,
    r1: Seq<StackAction>,
    now2: u64,
    st2: StackView,
    r2: Seq<StackAction>,
)
    requires
        stack_view_wf(st0),
        m.message_type == MessageType::Confirmable,
        match find_peer(st0.sessions, peer) {
            Some(i) => !st0.sessions[i].dedup.dom().contains(m.message_id),
            None => true,
        },
        ack_bytes(m.message_id) is Some,
        message_effect(st0, peer, m, now1, st1, r1),
        message_effect(st1, peer, m, now2, st2, r2),
    ensures
        r1.len() >= 1 && is_send(r1[0], peer, ack_bytes(m.message_id)->0),
        r2.len() == 1 && is_send(r2[0], peer, ack_bytes(m.message_id)->0),
        st2 == st1,
{
    let mid = m.message_id;
    let b = ack_bytes(mid)->0;
    let (s, s2, k) = choose|s: SessionView, s2: SessionView, k: int| effect_through(st0, peer, m, now1, st1, r1, s, s2, k);
    lemma_session_before(st0, peer, s);
    lemma_new_message_recorded(s, m, now1, s2, r1.take(k));
    lemma_tokens_inbound(s, m, now1, s2, r1.take(k));
    assert(r1.take(k)[0] == r1[0]);
    lemma_placed(st0, peer, drained(s2));
    let idx = match find_peer(st0.sessions, peer) {
        Some(i) => i,
        None => st0.sessions.len() as int,
    };
    assert(stack_view_wf(st1));
    let (t, t2, q) = choose|t: SessionView, t2: SessionView, q: int| effect_through(st1, peer, m, now2, st2, r2, t, t2, q);
    assert(t == drained(s2));
    assert(t.dedup.dom().contains(mid) && t.dedup[mid].cached_response == Some(b));
    assert(t2 == t);
    assert(r2.take(q).len() == 1);
    assert(r2.skip(q).len() == 0);
    assert(r2.take(q)[0] == r2[0]);
    assert(st2.sessions =~= st1.sessions);
}

/// Registering an exchange under `t` keeps tokens distinct, and it is then
/// the exchange found under `t`.
proof fn lemma_with_exchange(ex: Seq<(Seq<u8>, ExchangeView)>, t: Seq<u8>, ev: ExchangeView)
    requires
        tokens_distinct(ex),
    ensures
        tokens_distinct(with_exchange(ex, t, ev)),
        find_token(with_exchange(ex, t, ev), t) matches Some(i) && with_exchange(ex, t, ev)[i] == (t, ev),
{
    let w = with_exchange(ex, t, ev);
    match find_token(ex, t) {
        Some(i) => {
            assert forall|a: int, b: int| 0 <= a < w.len() && 0 <= b < w.len() && a != b implies w[a].0 != w[b].0 by {
                assert(w[a].0 == ex[a].0);
                assert(w[b].0 == ex[b].0);
            }
            assert(w[i].0 == t);
        },
        None => {
            assert forall|a: int, b: int| 0 <= a < w.len() && 0 <= b < w.len() && a != b implies w[a].0 != w[b].0 by {
                if a < ex.len() && b < ex.len() {
                    assert(w[a] == ex[a]);
                    assert(w[b] == ex[b]);
                } else if a < ex.len() {
                    assert(w[a] == ex[a]);
                } else {
                    assert(w[b] == ex[b]);
                }
            }
            assert(w[ex.len() as int].0 == t);
        },
    }
    let j = choose|j: int| 0 <= j < w.len() && w[j].0 == t;
    match find_token(ex, t) {
        Some(i) => {
            assert(j == i);
        },
        None => {
            assert(j == ex.len());
        },
    }
}

/// What sending a request leaves in the session: the exchange under the
/// request's token, and for a confirmable request its message ID indexed
/// to that token; the bytes carry that message ID.
proof fn lemma_request_registered(s: SessionView, req: CoapRequest, now: u64, s2: SessionView, r: Option<(Vec<u8>, Vec<u8>)>)
    requires
        tokens_distinct(s.exchanges),
        request_sent(s, req, now, s2, r),
        r is Some,
    ensures
        s2.peer == s.peer,
        s2.deliveries == s.deliveries,
        tokens_distinct(s2.exchanges),
        ({
            let t = token_bytes(s.next_token);
            let b = (r->0).1@;
            &&& (r->0).0@ == t
            &&& b.len() >= 4
            &&& b[2] as int * 256 + b[3] as int == s.next_mid
            &&& find_token(s2.exchanges, t) matches Some(i) && s2.exchanges[i].0 == t && s2.exchanges[i].1.token == t
                && s2.exchanges[i].1.peer == s.peer
            &&& req.confirmable ==> s2.mid_to_token.dom().contains(s.next_mid) && s2.mid_to_token[s.next_mid] == t
        }),
{
    let t = token_bytes(s.next_token);
    let parts = request_parts(req, t, s.next_mid);
    let b = crate::wire::coap_encode(parts)->0;
    let ev = choose|ev: ExchangeView| #[trigger] request_exchange(ev, req.confirmable, t, s.peer, s.next_mid, b, now)
        && s2 == (SessionView {
            exchanges: with_exchange(s.exchanges, t, ev),
            mid_to_token: if req.confirmable { s.mid_to_token.insert(s.next_mid, t) } else { s.mid_to_token },
            next_token: wrapping_next_u32(s.next_token),
            next_mid: wrapping_next_u16(s.next_mid),
            ..s
        });
    lemma_with_exchange(s.exchanges, t, ev);
    assert(header_written(b, parts));
}

/// A non-confirmable message repeated with the same message ID is dropped
/// the second time: no action, no change.
pub proof fn law_duplicate_non_dropped(
    st0: StackView,
    peer: PeerAddr,
    m: Message,
    now1: u64,
    st1: StackView,
    r1: Seq<StackAction>,
    now2: u64,
    st2: StackView,
    r2: Seq<StackAction>,
)
    requires
        stack_view_wf(st0),
        m.message_type == MessageType::NonConfirmable,
        message_effect(st0, peer, m, now1, st1, r1),
        message_effect(st1, peer, m, now2, st2, r2),
    ensures
        r2.len() == 0,
        st2 == st1,
{
    let mid = m.message_id;
    let (s, s2, k) = choose|s: SessionView, s2: SessionView, k: int| effect_through(st0, peer, m, now1, st1, r1, s, s2, k);
    lemma_session_before(st0, peer, s);
    lemma_tokens_inbound(s, m, now1, s2, r1.take(k));
    if !s.dedup.dom().contains(mid) {
        lemma_new_message_recorded(s, m, now1, s2, r1.take(k));
    } else {
        assert(s2 == s);
    }
    lemma_placed(st0, peer, drained(s2));
    let (t, t2, q) = choose|t: SessionView, t2: SessionView, q: int| effect_through(st1, peer, m, now2, st2, r2, t, t2, q);
    assert(t == drained(s2));
    assert(t.dedup.dom().contains(mid));
    assert(t2 == t);
    assert(r2.skip(q).len() == 0);
    assert(st2.sessions =~= st1.sessions);
}

/// A new confirmable request is acknowledged with an empty acknowledgement
/// (when coap-lite encodes it) and handed to the server with its peer and
/// token.
pub proof fn law_new_con_request_acked_and_delivered(
    st0: StackView,
    peer: PeerAddr,
    m: Message,
    now: u64,
    st1: StackView,
    r: Seq<StackAction>,
)
    requires
        stack_view_wf(st0),
        m.message_type == MessageType::Confirmable,
        m.code is Request,
        request_decodable(m),
        match find_peer(st0.sessions, peer) {
            Some(i) => !st0.sessions[i].dedup.dom().contains(m.message_id),
            None => true,
        },
        ack_bytes(m.message_id) is Some,
        message_effect(st0, peer, m, now, st1, r),
    ensures
        r.len() == 2,
        is_send(r[0], peer, ack_bytes(m.message_id)->0),
        r[1] matches StackAction::DeliverRequest(sr) && sr.peer == peer && sr.token@ == m.token@
            && request_read_from(m, sr.request),
{
    let (s, s2, k) = choose|s: SessionView, s2: SessionView, k: int| effect_through(st0, peer, m, now, st1, r, s, s2, k);
    lemma_session_before(st0, peer, s);
    assert(s2.deliveries.len() == 0);
    assert(r.skip(k).len() == 0);
    assert(r.take(k) =~= r);
}

/// A new non-confirmable request is handed to the server with its peer and
/// token, and nothing is sent.
pub proof fn law_new_non_request_delivered(
    st0: StackView,
    peer: PeerAddr,
    m: Message,
    now: u64,
    st1: StackView,
    r: Seq<StackAction>,
)
    requires
        stack_view_wf(st0),
        m.message_type == MessageType::NonConfirmable,
        m.code is Request,
        request_decodable(m),
        match find_peer(st0.sessions, peer) {
            Some(i) => !st0.sessions[i].dedup.dom().contains(m.message_id),
            None => true,
        },
        message_effect(st0, peer, m, now, st1, r),
    ensures
        r.len() == 1,
        r[0] matches StackAction::DeliverRequest(sr) && sr.peer == peer && sr.token@ == m.token@
            && request_read_from(m, sr.request),
{
    let (s, s2, k) = choose|s: SessionView, s2: SessionView, k: int| effect_through(st0, peer, m, now, st1, r, s, s2, k);
    lemma_session_before(st0, peer, s);
    assert(s2.deliveries.len() == 0);
    assert(r.skip(k).len() == 0);
    assert(r.take(k) =~= r);
}

/// Two requests sent one after the other to the same peer carry successive
/// message IDs (wrapping from 65535 to 0) and different tokens.
pub proof fn law_outbound_message_ids_sequential(
    st0: StackView,
    peer: PeerAddr,
    req1: CoapRequest,
    now1: u64,
    st1: StackView,
    r1: Option<(Vec<u8>, Vec<u8>)>,
    req2: CoapRequest,
    now2: u64,
    st2: StackView,
    r2: Option<(Vec<u8>, Vec<u8>)>,
)
    requires
        stack_view_wf(st0),
        outbound_effect(st0, req1, peer, now1, st1, r1),
        outbound_effect(st1, req2, peer, now2, st2, r2),
        r1 is Some,
        r2 is Some,
    ensures
        ({
            let b1 = (r1->0).1@;
            let b2 = (r2->0).1@;
            &&& b1.len() >= 4 && b2.len() >= 4
            &&& b2[2] as int * 256 + b2[3] as int == wrapping_next_u16((b1[2] as int * 256 + b1[3] as int) as u16)
            &&& (r1->0).0@ != (r2->0).0@
        }),
{
    let (s, s2) = choose|s: SessionView, s2: SessionView| sent_through(st0, req1, peer, now1, st1, r1, s, s2);
    lemma_session_before(st0, peer, s);
    lemma_request_registered(s, req1, now1, s2, r1);
    lemma_placed(st0, peer, s2);
    let (t, t2) = choose|t: SessionView, t2: SessionView| sent_through(st1, req2, peer, now2, st2, r2, t, t2);
    assert(t == s2);
    assert(stack_view_wf(StackView { sessions: st1.sessions, ..st0 }));
    lemma_session_before(StackView { sessions: st1.sessions, ..st0 }, peer, t);
    lemma_request_registered(t, req2, now2, t2, r2);
    lemma_token_bytes_injective(s.next_token, wrapping_next_u32(s.next_token));
}

/// A confirmable request answered by an acknowledgement that carries a
/// response (a piggybacked response) is resolved with that response.
pub proof fn law_piggybacked_response_resolves(
    st0: StackView,
    peer: PeerAddr,
    req: CoapRequest,
    now0: u64,
    st1: StackView,
    r1: Option<(Vec<u8>, Vec<u8>)>,
    m: Message,
    now1: u64,
    st2: StackView,
    r2: Seq<StackAction>,
)
    requires
        stack_view_wf(st0),
        req.confirmable,
        outbound_effect(st0, req, peer, now0, st1, r1),
        r1 is Some,
        m.message_type == MessageType::Acknowledgement,
        m.code is Response,
        (r1->0).1@.len() >= 4,
        m.message_id == (r1->0).1@[2] as int * 256 + (r1->0).1@[3] as int,
        message_effect(st1, peer, m, now1, st2, r2),
    ensures
        r2.len() == 1,
        r2[0] matches StackAction::Resolve(d) && d.peer == peer && d.token@ == (r1->0).0@ && is_response_to(d.result, m),
{
    let (s, s2) = choose|s: SessionView, s2: SessionView| sent_through(st0, req, peer, now0, st1, r1, s, s2);
    lemma_session_before(st0, peer, s);
    lemma_request_registered(s, req, now0, s2, r1);
    lemma_placed(st0, peer, s2);
    let (t, t2, q) = choose|t: SessionView, t2: SessionView, q: int| effect_through(st1, peer, m, now1, st2, r2, t, t2, q);
    assert(t == s2);
    let tok = token_bytes(s.next_token);
    let a = after_ack(t, m.message_id, m.code);
    assert(a.exchanges == t.exchanges);
    assert(t.mid_to_token[m.message_id] == tok);
    assert(r2.take(q).len() == 0);
    assert(t2.deliveries.len() == 1);
    assert(r2.skip(q)[0] == r2[0]);
}

/// A confirmable request answered by a reset fails with `Reset`.
pub proof fn law_reset_fails_exchange(
    st0: StackView,
    peer: PeerAddr,
    req: CoapRequest,
    now0: u64,
    st1: StackView,
    r1: Option<(Vec<u8>, Vec<u8>)>,
    m: Message,
    now1: u64,
    st2: StackView,
    r2: Seq<StackAction>,
)
    requires
        stack_view_wf(st0),
        req.confirmable,
        outbound_effect(st0, req, peer, now0, st1, r1),
        r1 is Some,
        m.message_type == MessageType::Reset,
        (r1->0).1@.len() >= 4,
        m.message_id == (r1->0).1@[2] as int * 256 + (r1->0).1@[3] as int,
        message_effect(st1, peer, m, now1, st2, r2),
    ensures
        r2.len() == 1,
        r2[0] matches StackAction::Resolve(d) && d.peer == peer && d.token@ == (r1->0).0@
            && d.result == Err::<CoapResponse, crate::exchange::TransportError>(crate::exchange::TransportError::Reset),
{
    let (s, s2) = choose|s: SessionView, s2: SessionView| sent_through(st0, req, peer, now0, st1, r1, s, s2);
    lemma_session_before(st0, peer, s);
    lemma_request_registered(s, req, now0, s2, r1);
    lemma_placed(st0, peer, s2);
    let (t, t2, q) = choose|t: SessionView, t2: SessionView, q: int| effect_through(st1, peer, m, now1, st2, r2, t, t2, q);
    assert(t == s2);
    assert(reset_effect(t, m.message_id, t2));
    assert(r2.take(q).len() == 0);
    assert(t2.deliveries.len() == 1);
    assert(r2.skip(q)[0] == r2[0]);
}

/// A new response whose token is that of an open exchange of its peer (a
/// separate response, or the response to a non-confirmable request)
/// resolves that exchange (its peer and token) with the response, after the
/// acknowledgement of a confirmable response.
pub proof fn law_response_resolves_open_exchange(
    st0: StackView,
    peer: PeerAddr,
    i: int,
    m: Message,
    now: u64,
    st1: StackView,
    r: Seq<StackAction>,
)
    requires
        stack_view_wf(st0),
        0 <= i < st0.sessions.len(),
        st0.sessions[i].peer == peer,
        find_token(st0.sessions[i].exchanges, m.token@) is Some,
        m.message_type == MessageType::Confirmable || m.message_type == MessageType::NonConfirmable,
        m.code is Response,
        !st0.sessions[i].dedup.dom().contains(m.message_id),
        message_effect(st0, peer, m, now, st1, r),
    ensures
        r.len() >= 1,
        r.last() matches StackAction::Resolve(d)
            && d.token@ == st0.sessions[i].exchanges[find_token(st0.sessions[i].exchanges, m.token@)->0].1.token
            && d.peer == st0.sessions[i].exchanges[find_token(st0.sessions[i].exchanges, m.token@)->0].1.peer
            && is_response_to(d.result, m),
        m.message_type == MessageType::Confirmable && ack_bytes(m.message_id) is Some
            ==> r.len() == 2 && is_send(r[0], peer, ack_bytes(m.message_id)->0),
{
    crate::stack::lemma_find_peer_at(st0.sessions, peer, i);
    let s0 = st0.sessions[i];
    let (s, s2, k) = choose|s: SessionView, s2: SessionView, k: int| effect_through(st0, peer, m, now, st1, r, s, s2, k);
    assert(s == s0);
    let j = find_token(s0.exchanges, m.token@)->0;
    assert(s0.exchanges[j].0 == m.token@);
    assert(s0.deliveries.len() == 0);
    assert(s2.deliveries.len() == 1);
    assert(r.skip(k).len() == 1);
    assert(r.skip(k)[0] == r.last());
    assert(r.skip(k)[0] == StackAction::Resolve(s2.deliveries[0]));
    assert(s2.deliveries[0] == s2.deliveries.last());
    if m.message_type == MessageType::Confirmable && ack_bytes(m.message_id) is Some {
        assert(r.take(k)[0] == r[0]);
    }
}

/// An exchange that the timer fails is among the timer's failed exchanges,
/// with its retransmission count.
proof fn lemma_timer_expired_has(s: Seq<(Seq<u8>, ExchangeView)>, i: int, now: u64, c: u32)
    requires
        0 <= i < s.len(),
        timer_step(s[i].1, now) == TimerStep::Expire(c),
    ensures
        exists|j: int| 0 <= j < timer_expired(s, now).len() && #[trigger] timer_expired(s, now)[j] == (s[i].1, c),
    decreases s.len(),
{
    if i == s.len() - 1 {
        let j = timer_expired(s.drop_last(), now).len() as int;
        assert(timer_expired(s, now)[j] == (s[i].1, c));
    } else {
        let front = s.drop_last();
        assert(front[i] == s[i]);
        lemma_timer_expired_has(front, i, now, c);
        let j = choose|j: int| 0 <= j < timer_expired(front, now).len() && #[trigger] timer_expired(front, now)[j] == (front[i].1, c);
        assert(timer_expired(s, now)[j] == (s[i].1, c));
    }
}

/// The timer's actions hold, at some offset, the actions of each session.
proof fn lemma_timer_actions_has(ss: Seq<SessionView>, now: u64, acts: Seq<StackAction>, i: int)
    requires
        timer_actions(ss, now, acts),
        0 <= i < ss.len(),
    ensures
        exists|lo: int| 0 <= lo && lo + timer_action_count(ss[i], now) <= acts.len()
            && #[trigger] session_timer_actions(ss[i], now, acts.subrange(lo, lo + timer_action_count(ss[i], now))),
    decreases ss.len(),
{
    let k = timer_action_count(ss.last(), now);
    if i == ss.len() - 1 {
        let lo = acts.len() - k;
        assert(acts.subrange(lo, lo + k) =~= acts.skip(acts.len() - k));
        assert(session_timer_actions(ss[i], now, acts.subrange(lo, lo + timer_action_count(ss[i], now))));
    } else {
        let front = ss.drop_last();
        let a = acts.take(acts.len() - k);
        assert(front[i] == ss[i]);
        lemma_timer_actions_has(front, now, a, i);
        let lo = choose|lo: int| 0 <= lo && lo + timer_action_count(front[i], now) <= a.len()
            && #[trigger] session_timer_actions(front[i], now, a.subrange(lo, lo + timer_action_count(front[i], now)));
        assert(a.subrange(lo, lo + timer_action_count(ss[i], now)) =~= acts.subrange(lo, lo + timer_action_count(ss[i], now)));
    }
}

/// When the retransmission timer fails an exchange, its waiting caller is
/// told: the timer's actions resolve it with a timeout that carries its
/// retransmission count.
pub proof fn law_timer_resolves_expired_exchange(
    ss: Seq<SessionView>,
    now: u64,
    acts: Seq<StackAction>,
    i: int,
    x: int,
    c: u32,
)
    requires
        timer_actions(ss, now, acts),
        0 <= i < ss.len(),
        0 <= x < ss[i].exchanges.len(),
        timer_step(ss[i].exchanges[x].1, now) == TimerStep::Expire(c),
    ensures
        exists|q: int| 0 <= q < acts.len() && (#[trigger] acts[q] matches StackAction::Resolve(d)
            && delivery_for(d, ss[i].exchanges[x].1, Err(crate::exchange::TransportError::Timeout { retransmits: c }))),
{
    let sx = ss[i];
    lemma_timer_actions_has(ss, now, acts, i);
    let n = timer_action_count(sx, now);
    let lo = choose|lo: int| 0 <= lo && lo + timer_action_count(ss[i], now) <= acts.len()
        && #[trigger] session_timer_actions(ss[i], now, acts.subrange(lo, lo + timer_action_count(ss[i], now)));
    lemma_timer_expired_has(sx.exchanges, x, now, c);
    let ex = timer_expired(sx.exchanges, now);
    let j = choose|j: int| 0 <= j < ex.len() && #[trigger] ex[j] == (sx.exchanges[x].1, c);
    let rl = crate::session::timer_resent(sx.exchanges, now).len() as int;
    let seg = acts.subrange(lo, lo + n);
    assert(seg[rl + j] == acts[lo + rl + j]);
}

/// A non-confirmable request's exchange whose lifetime has passed fails
/// with a timeout after 0 retransmissions.
pub proof fn law_non_exchange_times_out(e: ExchangeView, now: u64)
    requires
        e.retransmit is None,
        now >= e.expires_at,
    ensures
        timer_step(e, now) == TimerStep::Expire(0),
{
}

/// A confirmable request is re-sent, with the timeout doubled each time, at
/// most `MAX_RETRANSMIT` times; when a retransmission is due after that, the
/// exchange fails with a timeout carrying the count.
pub proof fn law_retransmissions_bounded(e: ExchangeView, now: u64)
    requires
        e.retransmit is Some,
        (e.retransmit->0).current_timeout <= crate::reliability::MAX_BACKOFF_MS,
        now >= (e.retransmit->0).next_retransmit,
    ensures
        (e.retransmit->0).retransmit_count < crate::reliability::MAX_RETRANSMIT ==> (timer_step(e, now) matches TimerStep::Resend(e2, b)
            && b == (e.retransmit->0).packet_bytes
            && exchange_retransmit_count(e2) == exchange_retransmit_count(e) + 1
            && exchange_retransmit_count(e2) <= crate::reliability::MAX_RETRANSMIT
            && (e2.retransmit->0).current_timeout == 2 * (e.retransmit->0).current_timeout),
        (e.retransmit->0).retransmit_count >= crate::reliability::MAX_RETRANSMIT
            ==> timer_step(e, now) == TimerStep::Expire(exchange_retransmit_count(e)),
{
}

/// A message sent through the context variant leaves an exchange registered
/// under the message's own token, and its bytes carry the message ID taken.
proof fn lemma_context_registered(s: SessionView, m: Message, now: u64, s2: SessionView, r: Option<Vec<u8>>)
    requires
        tokens_distinct(s.exchanges),
        context_request_sent(s, m, now, s2, r),
        r is Some,
    ensures
        s2.peer == s.peer,
        s2.deliveries == s.deliveries,
        tokens_distinct(s2.exchanges),
        ({
            let t = m.token@;
            let b = (r->0)@;
            &&& b.len() >= 4
            &&& b[2] as int * 256 + b[3] as int == s.next_mid
            &&& find_token(s2.exchanges, t) matches Some(i) && s2.exchanges[i].0 == t && s2.exchanges[i].1.token == t
                && s2.exchanges[i].1.peer == s.peer
            &&& m.message_type == MessageType::Confirmable ==> s2.mid_to_token.dom().contains(s.next_mid)
                && s2.mid_to_token[s.next_mid] == t
        }),
{
    let t = m.token@;
    let con = m.message_type == MessageType::Confirmable;
    let parts = parts_with_mid(m, s.next_mid);
    let b = crate::wire::coap_encode(parts)->0;
    let ev = choose|ev: ExchangeView| #[trigger] request_exchange(ev, con, t, s.peer, s.next_mid, b, now)
        && s2 == (SessionView {
            exchanges: with_exchange(s.exchanges, t, ev),
            mid_to_token: if con { s.mid_to_token.insert(s.next_mid, t) } else { s.mid_to_token },
            next_mid: wrapping_next_u16(s.next_mid),
            ..s
        });
    lemma_with_exchange(s.exchanges, t, ev);
    assert(header_written(b, parts));
}

/// In the context variant, a confirmable message answered by an
/// acknowledgement that carries a response is resolved with that response,
/// under the token the caller gave the message.
pub proof fn law_context_piggybacked_response_resolves(
    st0: StackView,
    peer: PeerAddr,
    sent: Message,
    now0: u64,
    st1: StackView,
    r1: Option<Vec<u8>>,
    m: Message,
    now1: u64,
    st2: StackView,
    r2: Seq<ContextAction>,
)
    requires
        stack_view_wf(st0),
        sent.message_type == MessageType::Confirmable,
        context_request_effect(st0, sent, peer, now0, st1, r1),
        r1 is Some,
        m.message_type == MessageType::Acknowledgement,
        m.code is Response,
        (r1->0)@.len() >= 4,
        m.message_id == (r1->0)@[2] as int * 256 + (r1->0)@[3] as int,
        context_message_effect(st1, peer, m, now1, st2, r2),
    ensures
        r2.len() == 1,
        r2[0] matches ContextAction::Resolve(d) && d.peer == peer && d.token@ == sent.token@ && is_response_to(d.result, m),
{
    let (s, s2) = choose|s: SessionView, s2: SessionView| context_sent_through(st0, sent, peer, now0, st1, r1, s, s2);
    lemma_session_before(st0, peer, s);
    lemma_context_registered(s, sent, now0, s2, r1);
    lemma_placed(st0, peer, s2);
    let (t, t2, q) = choose|t: SessionView, t2: SessionView, q: int| context_effect_through(st1, peer, m, now1, st2, r2, t, t2, q);
    assert(t == s2);
    let tok = sent.token@;
    let a = after_ack(t, m.message_id, m.code);
    assert(a.exchanges == t.exchanges);
    assert(t.mid_to_token[m.message_id] == tok);
    assert(r2.take(q).len() == 0);
    assert(t2.deliveries.len() == 1);
    assert(r2.skip(q)[0] == r2[0]);
}

} // verus!
