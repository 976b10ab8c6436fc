//! The transport stack's decisions. The stack keeps one session per peer;
//! each event (an inbound datagram, a request or response to send, a timer)
//! changes that state and yields actions (datagrams to send, requests for
//! the server, ended exchanges for their callers) that the caller performs.

use vstd::prelude::*;
use crate::codes::{MessageClass, MessageType, code_of_class};
use crate::exchange::{Delivery, Exchange, ExchangeView, PeerAddr, TransportError};
use crate::message::{
    CoapRequest, CoapResponse, copy_bytes, request_decodable, request_options, request_read_from,
    response_options, response_read_from,
};
use crate::reliability::{
    ACK_TIMEOUT_MAX_MS, ACK_TIMEOUT_MS, EXCHANGE_LIFETIME_MS, IDLE_SESSION_CLEANUP_INTERVAL_SECS, MAX_BACKOFF_MS,
    NON_LIFETIME_MS, token_bytes, wrapping_next_u16, wrapping_next_u32,
};
use crate::session::{
    AckResult, DedupView, PeerSession, SessionView, after_ack, dedup_fresh, delivery_for, exchange_closed,
    find_token, lemma_exchange_closed_weaken, tokens_distinct, reset_effect, session_idle, soonest_deadline, pending_deadline, law_soonest_deadline_is_minimum, timer_expired,
    timer_expired_mids, timer_kept, timer_resent,
};
use crate::table::{Table, TableKey};
use crate::wire::{Message, MessageParts, coap_decode, coap_encode, header_written, message_parts};
use crate::context::{
    ContextAction, context_effect_through, context_inbound_step, context_message_effect, context_request_effect,
    context_request_sent, context_sent_through, handle_context_inbound, parts_with_mid, push_context_resolves,
};

verus! {

/// An inbound request for the server, with the peer and token to answer.
pub struct ServerRequest {
    pub request: CoapRequest,
    pub peer: PeerAddr,
    pub token: Vec<u8>,
}

/// A response of the server, with the peer and token of the request.
pub struct ServerResponse {
    pub response: CoapResponse,
    pub peer: PeerAddr,
    pub token: Vec<u8>,
}

/// What the stack asks its caller to do.
pub enum StackAction {
    /// Send a datagram to a peer.
    Send { peer: PeerAddr, bytes: Vec<u8> },
    /// Hand an inbound request to the server.
    DeliverRequest(ServerRequest),
    /// Tell the caller waiting on an exchange how it ended.
    Resolve(Delivery),
}

/// `a` sends the bytes `b` to `peer`.
pub open spec fn is_send(a: StackAction, peer: PeerAddr, b: Seq<u8>) -> bool {
    a matches StackAction::Send { peer: p, bytes } && p == peer && bytes@ == b
}

/// The bytes of an empty acknowledgement with message ID `mid`, as
/// coap-lite writes them.
pub open spec fn ack_bytes(mid: u16) -> Option<Seq<u8>> {
    coap_encode((2u8, 0u8, mid, Seq::<u8>::empty(), Seq::<(u16, Seq<u8>)>::empty(), Seq::<u8>::empty()))
}

/// `x` is the response that message `m` carries.
pub open spec fn is_response_to(x: Result<CoapResponse, TransportError>, m: Message) -> bool {
    x matches Ok(resp) && response_read_from(m, resp)
}

/// The effect of an inbound message `m` at `now` on the session `s` of its
/// sender: `s2` is the session afterwards and `acts` the actions, in order.
///
/// An acknowledgement goes to the exchange it acknowledges: an empty one
/// cancels retransmission, one with a response code completes the exchange
/// with that response (a piggybacked response); any other is ignored. A
/// reset fails the exchange it answers. A confirmable or non-confirmable
/// message whose message ID was seen recently is dropped, except that a
/// confirmable one gets the acknowledgement cached for it again. Otherwise
/// its message ID is recorded; a confirmable message is acknowledged with an
/// empty acknowledgement, which is cached; then a request goes to the server
/// (when its path and query are UTF-8) and a response completes the exchange
/// with its token (a separate response).
pub open spec fn inbound_step(s: SessionView, m: Message, now: u64, s2: SessionView, acts: Seq<StackAction>) -> bool {
    let mid = m.message_id;
    let peer = s.peer;
    match m.message_type {
        MessageType::Acknowledgement => {
            &&& acts.len() == 0
            &&& match m.code {
                MessageClass::Empty => s2 == after_ack(s, mid, m.code),
                MessageClass::Response(_) => if s.mid_to_token.dom().contains(mid) {
                    exchange_closed(after_ack(s, mid, m.code), s.mid_to_token[mid], s2,
                        |x: Result<CoapResponse, TransportError>| is_response_to(x, m))
                } else {
                    s2 == s
                },
                _ => s2 == s,
            }
        },
        MessageType::Reset => acts.len() == 0 && reset_effect(s, mid, s2),
        _ => {
            let con = m.message_type == MessageType::Confirmable;
            if s.dedup.dom().contains(mid) {
                &&& s2 == s
                &&& if con && s.dedup[mid].cached_response is Some {
                    acts.len() == 1 && is_send(acts[0], peer, s.dedup[mid].cached_response->0)
                } else {
                    acts.len() == 0
                }
            } else {
                let cached = if con { ack_bytes(mid) } else { None };
                let s1 = SessionView {
                    dedup: s.dedup.insert(mid, DedupView { cached_response: cached, created: now }),
                    ..s
                };
                let k: int = if cached is Some { 1 } else { 0 };
                &&& acts.len() >= k
                &&& (cached is Some ==> is_send(acts[0], peer, cached->0))
                &&& match m.code {
                    MessageClass::Request(_) => s2 == s1 && if request_decodable(m) {
                        &&& acts.len() == k + 1
                        &&& acts[k] matches StackAction::DeliverRequest(sr)
                        &&& sr.peer == peer
                        &&& sr.token@ == m.token@
                        &&& request_read_from(m, sr.request)
                    } else {
                        acts.len() == k
                    },
                    MessageClass::Response(_) => acts.len() == k && exchange_closed(s1, m.token@, s2,
                        |x: Result<CoapResponse, TransportError>| is_response_to(x, m)),
                    _ => acts.len() == k && s2 == s1,
                }
            }
        },
    }
}

/// Handles an inbound message `m` at `now` on the session of its sender;
/// see `inbound_step`. Ended exchanges are recorded in the session's
/// deliveries.
pub fn handle_inbound(session: &mut PeerSession, m: &Message, now: u64) -> (r: Vec<StackAction>)
    requires
        old(session).wf(),
    ensures
        final(session).wf(),
        inbound_step(old(session)@, *m, now, final(session)@, r@),
{
    let mut actions: Vec<StackAction> = Vec::new();
    let mid = m.message_id;
    let peer = session.peer();
    let ghost s0 = session@;
    match m.message_type {
        MessageType::Acknowledgement => {
            match m.code {
                MessageClass::Empty => {
                    let _ = session.handle_ack(mid, m);
                    assert(inbound_step(s0, *m, now, session@, actions@));
                },
                MessageClass::Response(_) => {
                    match session.handle_ack(mid, m) {
                        AckResult::PiggybackedResponse(token) => {
                            let ghost s1 = session@;
                            match CoapResponse::from_packet(m) {
                                Ok(response) => {
                                    session.complete_exchange(token.as_slice(), response);
                                    proof {
                                        lemma_exchange_closed_weaken(s1, token@, session@,
                                            |x: Result<CoapResponse, TransportError>| x == Ok::<CoapResponse, TransportError>(response),
                                            |x: Result<CoapResponse, TransportError>| is_response_to(x, *m));
                                    }
                                },
                                Err(_) => {},
                            }
                        },
                        _ => {},
                    }
                    assert(inbound_step(s0, *m, now, session@, actions@));
                },
                _ => {},
            }
        },
        MessageType::Reset => {
            session.handle_rst(mid);
            assert(inbound_step(s0, *m, now, session@, actions@));
        },
        _ => {
            let con = m.message_type == MessageType::Confirmable;
            if session.is_duplicate(mid) {
                if con {
                    match session.get_cached_response(mid) {
                        Some(cached) => {
                            actions.push(StackAction::Send { peer, bytes: copy_bytes(cached) });
                        },
                        None => {},
                    }
                }
                assert(inbound_step(s0, *m, now, session@, actions@));
                return actions;
            }
            session.record_inbound_mid(mid, now);
            if con {
                let ack = Message {
                    message_type: MessageType::Acknowledgement,
                    code: MessageClass::Empty,
                    message_id: mid,
                    token: Vec::new(),
                    options: Vec::new(),
                    payload: Vec::new(),
                };
                proof {
                    assert(crate::wire::options_view(ack.options@) =~= Seq::<(u16, Seq<u8>)>::empty());
                    assert(ack.token@ =~= Seq::<u8>::empty());
                    assert(ack.payload@ =~= Seq::<u8>::empty());
                    assert(crate::wire::message_parts(ack) == (2u8, 0u8, mid, Seq::<u8>::empty(),
                        Seq::<(u16, Seq<u8>)>::empty(), Seq::<u8>::empty()));
                }
                match ack.encode() {
                    Some(b) => {
                        actions.push(StackAction::Send { peer, bytes: copy_bytes(b.as_slice()) });
                        session.cache_response_for_mid(mid, b);
                    },
                    None => {},
                }
            }
            let ghost cached = if con { crate::stack::ack_bytes(mid) } else { None };
            assert(session@.dedup =~= s0.dedup.insert(mid, DedupView { cached_response: cached, created: now }));
            assert(session@ == (SessionView {
                dedup: s0.dedup.insert(mid, DedupView { cached_response: cached, created: now }),
                ..s0
            }));
            assert(actions@.len() == (if cached is Some { 1int } else { 0int }));
            assert(cached is Some ==> is_send(actions@[0], peer, cached->0));
            match m.code {
                MessageClass::Request(_) => {
                    match CoapRequest::from_packet(m) {
                        Ok(request) => {
                            actions.push(StackAction::DeliverRequest(ServerRequest {
                                request,
                                peer,
                                token: copy_bytes(m.token.as_slice()),
                            }));
                        },
                        Err(_) => {},
                    }
                },
                MessageClass::Response(_) => {
                    let ghost s1 = session@;
                    match CoapResponse::from_packet(m) {
                        Ok(response) => {
                            session.complete_exchange(m.token.as_slice(), response);
                            proof {
                                lemma_exchange_closed_weaken(s1, m.token@, session@,
                                    |x: Result<CoapResponse, TransportError>| x == Ok::<CoapResponse, TransportError>(response),
                                    |x: Result<CoapResponse, TransportError>| is_response_to(x, *m));
                            }
                        },
                        Err(_) => {},
                    }
                },
                _ => {},
            }
            assert(inbound_step(s0, *m, now, session@, actions@));
        },
    }
    actions
}

/// The index of the session of `peer`, if any.
pub open spec fn find_peer(ss: Seq<SessionView>, peer: PeerAddr) -> Option<int> {
    if exists|i: int| 0 <= i < ss.len() && ss[i].peer == peer {
        Some(choose|i: int| 0 <= i < ss.len() && ss[i].peer == peer)
    } else {
        None
    }
}

/// A session that was just created for `peer`: nothing outstanding or
/// remembered (its first message ID and token are random).
pub open spec fn fresh_session(s: SessionView, peer: PeerAddr) -> bool {
    &&& s.peer == peer
    &&& s.exchanges.len() == 0
    &&& s.mid_to_token == Map::<u16, Seq<u8>>::empty()
    &&& s.dedup == Map::<u16, DedupView>::empty()
    &&& s.deliveries.len() == 0
}

/// `s` is the session that an event from or to `peer` works on: the
/// stack's session of `peer`, or a fresh one when there is none.
pub open spec fn session_before(ss: Seq<SessionView>, peer: PeerAddr, s: SessionView) -> bool {
    match find_peer(ss, peer) {
        Some(i) => s == ss[i],
        None => fresh_session(s, peer),
    }
}

/// The sessions after the session of `peer` became `s2`: replaced in place,
/// or added last when `peer` had none.
pub open spec fn placed(ss: Seq<SessionView>, peer: PeerAddr, s2: SessionView) -> Seq<SessionView> {
    match find_peer(ss, peer) {
        Some(i) => ss.update(i, s2),
        None => ss.push(s2),
    }
}

/// The session with its deliveries handed out.
pub open spec fn drained(s: SessionView) -> SessionView {
    SessionView { deliveries: Seq::empty(), ..s }
}

/// `acts` resolve the deliveries `ds`, one each, in order.
pub open spec fn resolves(acts: Seq<StackAction>, ds: Seq<Delivery>) -> bool {
    &&& acts.len() == ds.len()
    &&& forall|j: int| 0 <= j < acts.len() ==> #[trigger] acts[j] == StackAction::Resolve(ds[j])
}

/// The abstract state of the stack: its sessions in order, at most one per
/// peer, and when idle sessions are next dropped.
pub struct StackView {
    pub sessions: Seq<SessionView>,
    pub next_cleanup: u64,
}

/// One way an inbound message `m` from `peer` at `now` takes the stack from
/// `st` to `st2` with actions `r`: `s` is the session it works on (the
/// session of `peer`, or a fresh one), `s2` that session after
/// `inbound_step`, and the first `k` actions are `inbound_step`'s; the rest
/// resolve the exchanges that ended, and the session is kept drained.
pub open spec fn effect_through(
    st: StackView,
    peer: PeerAddr,
    m: Message,
    now: u64,
    st2: StackView,
    r: Seq<StackAction>,
    s: SessionView,
    s2: SessionView,
    k: int,
) -> bool {
    &&& session_before(st.sessions, peer, s)
    &&& 0 <= k <= r.len()
    &&& inbound_step(s, m, now, s2, r.take(k))
    &&& resolves(r.skip(k), s2.deliveries)
    &&& st2.sessions == placed(st.sessions, peer, drained(s2))
}

/// The effect of an inbound message `m` from `peer` at `now` (see
/// `effect_through`).
pub open spec fn message_effect(st: StackView, peer: PeerAddr, m: Message, now: u64, st2: StackView, r: Seq<StackAction>) -> bool {
    &&& st2.next_cleanup == st.next_cleanup
    &&& exists|s: SessionView, s2: SessionView, k: int| #[trigger] effect_through(st, peer, m, now, st2, r, s, s2, k)
}

/// The parts of the message that sends `req` with token `t` and message ID
/// `mid`.
pub open spec fn request_parts(req: CoapRequest, t: Seq<u8>, mid: u16) -> MessageParts {
    (
        if req.confirmable { 0u8 } else { 1u8 },
        code_of_class(MessageClass::Request(req.method)),
        mid,
        t,
        request_options(req),
        req.payload@,
    )
}

/// The parts of the message that sends `resp` with token `t` and message ID
/// `mid`.
pub open spec fn response_parts(resp: CoapResponse, t: Seq<u8>, mid: u16) -> MessageParts {
    (1u8, code_of_class(MessageClass::Response(resp.response_type)), mid, t, response_options(resp), resp.payload@)
}

/// The exchanges after `ev` was registered under token `t`: in place of an
/// exchange with that token, or last.
pub open spec fn with_exchange(ex: Seq<(Seq<u8>, ExchangeView)>, t: Seq<u8>, ev: ExchangeView) -> Seq<(Seq<u8>, ExchangeView)> {
    match find_token(ex, t) {
        Some(i) => ex.update(i, (t, ev)),
        None => ex.push((t, ev)),
    }
}

/// `ev` is the exchange of a request sent at `now` to `peer` with token `t`,
/// message ID `mid` and bytes `b`: a confirmable one keeps its message ID,
/// retransmits `b` first after a timeout in `[ACK_TIMEOUT_MS,
/// ACK_TIMEOUT_MAX_MS]` and expires after `EXCHANGE_LIFETIME_MS`; a
/// non-confirmable one expires after `NON_LIFETIME_MS`.
pub open spec fn request_exchange(ev: ExchangeView, con: bool, t: Seq<u8>, peer: PeerAddr, mid: u16, b: Seq<u8>, now: u64) -> bool {
    if con {
        &&& ev.token == t
        &&& ev.peer == peer
        &&& ev.message_id == Some(mid)
        &&& ev.retransmit matches Some(rt) && rt.packet_bytes == b && rt.retransmit_count == 0
            && ACK_TIMEOUT_MS <= rt.current_timeout <= ACK_TIMEOUT_MAX_MS && rt.next_retransmit == now + rt.current_timeout
        &&& ev.expires_at == now + EXCHANGE_LIFETIME_MS
    } else {
        ev == ExchangeView { token: t, peer, message_id: None, retransmit: None, expires_at: (now + NON_LIFETIME_MS) as u64 }
    }
}

/// The effect of sending `req` at `now` on session `s`, which becomes `s2`:
/// the next token and message ID are taken; if coap-lite encodes the
/// message, the result is the token and the bytes to send, and the exchange
/// is registered (a confirmable one also under its message ID); otherwise
/// the result is `None`.
pub open spec fn request_sent(s: SessionView, req: CoapRequest, now: u64, s2: SessionView, r: Option<(Vec<u8>, Vec<u8>)>) -> bool {
    let t = token_bytes(s.next_token);
    let mid = s.next_mid;
    let parts = request_parts(req, t, mid);
    let s1 = SessionView { next_token: wrapping_next_u32(s.next_token), next_mid: wrapping_next_u16(s.next_mid), ..s };
    match coap_encode(parts) {
        None => r is None && s2 == s1,
        Some(b) => {
            &&& (r matches Some(p) && p.0@ == t && p.1@ == b)
            &&& header_written(b, parts)
            &&& exists|ev: ExchangeView| {
                &&& #[trigger] request_exchange(ev, req.confirmable, t, s.peer, mid, b, now)
                &&& s2 == (SessionView {
                    exchanges: with_exchange(s1.exchanges, t, ev),
                    mid_to_token: if req.confirmable { s1.mid_to_token.insert(mid, t) } else { s1.mid_to_token },
                    ..s1
                })
            }
        },
    }
}

/// A session after the retransmission timer ran at `now`: exchanges
/// advanced or failed (see `timer_step`), the failed ones' message IDs out
/// of the index, stale dedup entries dropped, deliveries handed out.
pub open spec fn after_timer(s: SessionView, now: u64) -> SessionView {
    SessionView {
        exchanges: timer_kept(s.exchanges, now),
        mid_to_token: s.mid_to_token.remove_keys(timer_expired_mids(s.exchanges, now)),
        dedup: s.dedup.restrict(s.dedup.dom().filter(|m: u16| dedup_fresh(s.dedup[m].created, now))),
        deliveries: Seq::empty(),
        ..s
    }
}

/// The actions of the retransmission timer at `now` for session `s`: its
/// re-sent datagrams, then a timeout resolution for each failed exchange.
pub open spec fn session_timer_actions(s: SessionView, now: u64, a: Seq<StackAction>) -> bool {
    let resent = timer_resent(s.exchanges, now);
    let expired = timer_expired(s.exchanges, now);
    &&& a.len() == resent.len() + expired.len()
    &&& forall|j: int| 0 <= j < resent.len() ==> is_send(#[trigger] a[j], s.peer, resent[j])
    &&& forall|j: int| 0 <= j < expired.len() ==> (#[trigger] a[resent.len() + j] matches StackAction::Resolve(d)
        && delivery_for(d, expired[j].0, Err(TransportError::Timeout { retransmits: expired[j].1 })))
}

/// The number of actions the timer yields for session `s`.
pub open spec fn timer_action_count(s: SessionView, now: u64) -> int {
    (timer_resent(s.exchanges, now).len() + timer_expired(s.exchanges, now).len()) as int
}

/// The actions of the retransmission timer at `now` over the sessions
/// `ss`: each session's actions, session after session.
pub open spec fn timer_actions(ss: Seq<SessionView>, now: u64, a: Seq<StackAction>) -> bool
    decreases ss.len(),
{
    if ss.len() == 0 {
        a.len() == 0
    } else {
        let k = timer_action_count(ss.last(), now);
        &&& a.len() >= k
        &&& timer_actions(ss.drop_last(), now, a.take(a.len() - k))
        &&& session_timer_actions(ss.last(), now, a.skip(a.len() - k))
    }
}

/// The sessions that are not idle, in order.
pub open spec fn busy_sessions(ss: Seq<SessionView>) -> Seq<SessionView>
    decreases ss.len(),
{
    if ss.len() == 0 {
        ss
    } else if session_idle(ss.last()) {
        busy_sessions(ss.drop_last())
    } else {
        busy_sessions(ss.drop_last()).push(ss.last())
    }
}

/// Dropping idle sessions keeps at most as many.
proof fn lemma_busy_len(ss: Seq<SessionView>)
    ensures
        busy_sessions(ss).len() <= ss.len(),
    decreases ss.len(),
{
    if ss.len() > 0 {
        lemma_busy_len(ss.drop_last());
    }
}

/// The soonest deadline of any session's exchanges.
pub open spec fn stack_deadline(ss: Seq<SessionView>) -> Option<u64>
    decreases ss.len(),
{
    if ss.len() == 0 {
        None
    } else {
        match (stack_deadline(ss.drop_last()), soonest_deadline(ss.last().exchanges)) {
            (Some(a), Some(b)) => Some(if a <= b { a } else { b }),
            (Some(a), None) => Some(a),
            (None, b) => b,
        }
    }
}

/// The stack's next deadline is the soonest over all sessions: there is one
/// exactly when some session has an exchange, it is no later than the
/// pending deadline of any exchange of any session, and it is the deadline
/// of one of them.
pub proof fn law_stack_deadline_is_minimum(ss: Seq<SessionView>)
    ensures
        stack_deadline(ss) is Some <==> exists|k: int| 0 <= k < ss.len() && (#[trigger] ss[k]).exchanges.len() > 0,
        stack_deadline(ss) matches Some(d) ==> {
            &&& forall|k: int, i: int| 0 <= k < ss.len() && 0 <= i < ss[k].exchanges.len()
                ==> d <= #[trigger] pending_deadline(ss[k].exchanges[i].1)
            &&& exists|k: int, i: int| 0 <= k < ss.len() && 0 <= i < ss[k].exchanges.len()
                && d == #[trigger] pending_deadline(ss[k].exchanges[i].1)
        },
    decreases ss.len(),
{
    if ss.len() > 0 {
        let p = ss.drop_last();
        let last = ss.len() - 1;
        law_stack_deadline_is_minimum(p);
        law_soonest_deadline_is_minimum(ss.last().exchanges);
        assert(ss[last] == ss.last());
        assert forall|k: int| 0 <= k < p.len() implies #[trigger] p[k] == ss[k] by {}
        if stack_deadline(ss) is Some {
            assert(exists|k: int| 0 <= k < ss.len() && (#[trigger] ss[k]).exchanges.len() > 0) by {
                if ss.last().exchanges.len() == 0 {
                    let k = choose|k: int| 0 <= k < p.len() && (#[trigger] p[k]).exchanges.len() > 0;
                    assert(ss[k] == p[k]);
                }
            }
        }
        if exists|k: int| 0 <= k < ss.len() && (#[trigger] ss[k]).exchanges.len() > 0 {
            let k = choose|k: int| 0 <= k < ss.len() && (#[trigger] ss[k]).exchanges.len() > 0;
            if k < last {
                assert(p[k] == ss[k]);
            }
        }
        if let Some(d) = stack_deadline(ss) {
            assert forall|k: int, i: int| 0 <= k < ss.len() && 0 <= i < ss[k].exchanges.len()
                implies d <= #[trigger] pending_deadline(ss[k].exchanges[i].1) by {
                if k < last {
                    assert(p[k] == ss[k]);
                    assert(pending_deadline(p[k].exchanges[i].1) == pending_deadline(ss[k].exchanges[i].1));
                } else {
                    assert(pending_deadline(ss.last().exchanges[i].1) == pending_deadline(ss[k].exchanges[i].1));
                }
            }
            let from_last = match soonest_deadline(ss.last().exchanges) {
                Some(b) => match stack_deadline(p) {
                    Some(a) => b <= a,
                    None => true,
                },
                None => false,
            };
            if from_last {
                let i = choose|i: int| 0 <= i < ss.last().exchanges.len()
                    && soonest_deadline(ss.last().exchanges)->0 == #[trigger] pending_deadline(ss.last().exchanges[i].1);
                assert(pending_deadline(ss.last().exchanges[i].1) == pending_deadline(ss[last].exchanges[i].1));
                assert(d == pending_deadline(ss[last].exchanges[i].1));
            } else {
                let (k, i) = choose|k: int, i: int| 0 <= k < p.len() && 0 <= i < p[k].exchanges.len()
                    && stack_deadline(p)->0 == #[trigger] pending_deadline(p[k].exchanges[i].1);
                assert(p[k] == ss[k]);
                assert(d == pending_deadline(ss[k].exchanges[i].1));
            }
        }
    }
}

/// One way sending `req` to `peer` at `now` takes the stack from `st` to
/// `st2` with result `r`: `s` is the session of `peer` (or a fresh one) and
/// `s2` that session after `request_sent`.
pub open spec fn sent_through(
    st: StackView,
    req: CoapRequest,
    peer: PeerAddr,
    now: u64,
    st2: StackView,
    r: Option<(Vec<u8>, Vec<u8>)>,
    s: SessionView,
    s2: SessionView,
) -> bool {
    &&& session_before(st.sessions, peer, s)
    &&& request_sent(s, req, now, s2, r)
    &&& st2.sessions == placed(st.sessions, peer, s2)
}

/// The effect of sending `req` to `peer` at `now` (see `sent_through`).
pub open spec fn outbound_effect(st: StackView, req: CoapRequest, peer: PeerAddr, now: u64, st2: StackView, r: Option<(Vec<u8>, Vec<u8>)>) -> bool {
    &&& st2.next_cleanup == st.next_cleanup
    &&& exists|s: SessionView, s2: SessionView| #[trigger] sent_through(st, req, peer, now, st2, r, s, s2)
}

/// The stack's view is well formed: at most one session per peer, and no
/// session holds a delivery.
pub open spec fn stack_view_wf(st: StackView) -> bool {
    &&& forall|i: int, j: int| 0 <= i < st.sessions.len() && 0 <= j < st.sessions.len() && i != j
        ==> #[trigger] st.sessions[i].peer != #[trigger] st.sessions[j].peer
    &&& forall|i: int| 0 <= i < st.sessions.len() ==> (#[trigger] st.sessions[i]).deliveries.len() == 0
    &&& forall|i: int| 0 <= i < st.sessions.len() ==> tokens_distinct((#[trigger] st.sessions[i]).exchanges)
}

/// With one session per peer, the session of `peer` is the one at `i`.
pub proof fn lemma_find_peer_at(ss: Seq<SessionView>, peer: PeerAddr, i: int)
    requires
        forall|a: int, b: int| 0 <= a < ss.len() && 0 <= b < ss.len() && a != b ==> #[trigger] ss[a].peer != #[trigger] ss[b].peer,
        0 <= i < ss.len(),
        ss[i].peer == peer,
    ensures
        find_peer(ss, peer) == Some(i),
{
}

/// Placing a drained session of `peer` keeps the view well formed, and it
/// is then the session of `peer`.
pub proof fn lemma_placed(st: StackView, peer: PeerAddr, x: SessionView)
    requires
        stack_view_wf(st),
        x.peer == peer,
        x.deliveries.len() == 0,
        tokens_distinct(x.exchanges),
    ensures
        stack_view_wf(StackView { sessions: placed(st.sessions, peer, x), ..st }),
        find_peer(placed(st.sessions, peer, x), peer) == Some(match find_peer(st.sessions, peer) {
            Some(i) => i,
            None => st.sessions.len() as int,
        }),
        placed(st.sessions, peer, x)[match find_peer(st.sessions, peer) {
            Some(i) => i,
            None => st.sessions.len() as int,
        }] == x,
{
    let ss = st.sessions;
    let t = placed(ss, peer, x);
    let idx = match find_peer(ss, peer) {
        Some(i) => i,
        None => ss.len() as int,
    };
    assert forall|i: int, j: int| 0 <= i < t.len() && 0 <= j < t.len() && i != j
        implies #[trigger] t[i].peer != #[trigger] t[j].peer by {
        if i != idx && j != idx {
            assert(t[i] == ss[i]);
            assert(t[j] == ss[j]);
        } else if i == idx {
            assert(t[j] == ss[j]);
            if find_peer(ss, peer) is None {
                assert(ss[j].peer != peer);
            }
        } else {
            assert(t[i] == ss[i]);
            if find_peer(ss, peer) is None {
                assert(ss[i].peer != peer);
            }
        }
    }
    assert forall|i: int| 0 <= i < t.len() implies (#[trigger] t[i]).deliveries.len() == 0 by {
        if i != idx {
            assert(t[i] == ss[i]);
        }
    }
    assert forall|i: int| 0 <= i < t.len() implies tokens_distinct((#[trigger] t[i]).exchanges) by {
        if i != idx {
            assert(t[i] == ss[i]);
        }
    }
    lemma_find_peer_at(t, peer, idx);
}

/// The state of the transport stack: one session per peer.
pub struct StackState {
    sessions: Table<PeerAddr, PeerSession>,
    next_cleanup: u64,
}

impl View for StackState {
    type V = StackView;

    closed spec fn view(&self) -> StackView {
        StackView {
            sessions: self.sessions.entries().map_values(|p: (PeerAddr, PeerSession)| p.1@),
            next_cleanup: self.next_cleanup,
        }
    }
}

/// Appends a `Send` to `peer` for each datagram, in order.
fn push_sends(acts: &mut Vec<StackAction>, peer: PeerAddr, bytes: Vec<Vec<u8>>)
    ensures
        final(acts)@.len() == old(acts)@.len() + bytes@.len(),
        final(acts)@.take(old(acts)@.len() as int) == old(acts)@,
        forall|j: int| 0 <= j < bytes@.len() ==> is_send(#[trigger] final(acts)@[old(acts)@.len() + j], peer, bytes@[j]@),
{
    let ghost a0 = acts@;
    let mut bytes = bytes;
    let ghost b0 = bytes@;
    let total = bytes.len();
    let mut j: usize = 0;
    while bytes.len() > 0
        invariant
            j + bytes@.len() == b0.len(),
            b0.len() == total,
            bytes@ == b0.skip(j as int),
            acts@.len() == a0.len() + j,
            acts@.take(a0.len() as int) == a0,
            forall|q: int| 0 <= q < j ==> is_send(#[trigger] acts@[a0.len() + q], peer, b0[q]@),
        decreases bytes@.len(),
    {
        let ghost before = acts@;
        let b = bytes.remove(0);
        assert(b == b0[j as int]);
        acts.push(StackAction::Send { peer, bytes: b });
        assert(acts@.take(a0.len() as int) =~= before.take(a0.len() as int));
        assert(bytes@ =~= b0.skip(j + 1));
        j = j + 1;
        assert forall|q: int| 0 <= q < j implies is_send(#[trigger] acts@[a0.len() + q], peer, b0[q]@) by {
            if q < j - 1 {
                assert(acts@[a0.len() + q] == before[a0.len() + q]);
            }
        }
    }
}

/// Appends a `Resolve` action for each delivery, in order.
fn push_resolves(acts: &mut Vec<StackAction>, ds: Vec<Delivery>)
    ensures
        final(acts)@.len() == old(acts)@.len() + ds@.len(),
        final(acts)@.take(old(acts)@.len() as int) == old(acts)@,
        resolves(final(acts)@.skip(old(acts)@.len() as int), ds@),
{
    let ghost a0 = acts@;
    let mut ds = ds;
    let ghost d0 = ds@;
    let total = ds.len();
    let mut j: usize = 0;
    while ds.len() > 0
        invariant
            j + ds@.len() == d0.len(),
            d0.len() == total,
            ds@ == d0.skip(j as int),
            acts@.len() == a0.len() + j,
            acts@.take(a0.len() as int) == a0,
            forall|q: int| 0 <= q < j ==> #[trigger] acts@[a0.len() + q] == StackAction::Resolve(d0[q]),
        decreases ds@.len(),
    {
        let ghost before = acts@;
        let d = ds.remove(0);
        assert(d == d0[j as int]);
        acts.push(StackAction::Resolve(d));
        assert(acts@.take(a0.len() as int) =~= before.take(a0.len() as int));
        assert(ds@ =~= d0.skip(j + 1));
        j = j + 1;
        assert forall|q: int| 0 <= q < j implies #[trigger] acts@[a0.len() + q] == StackAction::Resolve(d0[q]) by {
            if q < j - 1 {
                assert(acts@[a0.len() + q] == before[a0.len() + q]);
            }
        }
    }
    let ghost tail = acts@.skip(a0.len() as int);
    assert forall|q: int| 0 <= q < tail.len() implies #[trigger] tail[q] == StackAction::Resolve(d0[q]) by {
        assert(tail[q] == acts@[a0.len() + q]);
    }
}

impl StackState {
    /// The stack's invariant: one session per peer, each well formed, kept
    /// under its peer, with no delivery left unresolved.
    pub closed spec fn wf(&self) -> bool {
        &&& self.sessions.wf()
        &&& forall|i: int| 0 <= i < self.sessions.entries().len() ==> {
            let e = #[trigger] self.sessions.entries()[i];
            &&& e.1.wf()
            &&& e.1@.peer == e.0
            &&& e.1@.deliveries.len() == 0
        }
    }

    /// A stack with no session, which drops idle sessions
    /// `IDLE_SESSION_CLEANUP_INTERVAL_SECS` after `now`.
    pub fn new(now: u64) -> (r: Self)
        requires
            now + IDLE_SESSION_CLEANUP_INTERVAL_SECS * 1000 <= u64::MAX,
        ensures
            r.wf(),
            r@.sessions.len() == 0,
            r@.next_cleanup == now + IDLE_SESSION_CLEANUP_INTERVAL_SECS * 1000,
    {
        let r = StackState { sessions: Table::new(), next_cleanup: now + IDLE_SESSION_CLEANUP_INTERVAL_SECS * 1000 };
        assert(r@.sessions =~= Seq::<SessionView>::empty());
        r
    }

    /// When idle sessions are next dropped.
    pub fn next_cleanup(&self) -> (r: u64)
        ensures
            r == self@.next_cleanup,
    {
        self.next_cleanup
    }

    /// The session views are the views of the stored sessions.
    proof fn lemma_sessions(&self)
        ensures
            self@.sessions.len() == self.sessions.entries().len(),
            forall|i: int| 0 <= i < self@.sessions.len() ==> #[trigger] self@.sessions[i] == self.sessions.entries()[i].1@,
    {
    }

    /// Looking a peer up in the views finds the entry the table finds.
    proof fn lemma_find_session(&self, peer: PeerAddr)
        requires
            self.wf(),
        ensures
            self@.sessions.len() == self.sessions.entries().len(),
            forall|i: int| 0 <= i < self@.sessions.len() ==> #[trigger] self@.sessions[i] == self.sessions.entries()[i].1@,
            find_peer(self@.sessions, peer) == self.sessions.find_spec(peer),
    {
        self.lemma_sessions();
        self.sessions.lemma_find_spec(peer);
        let ss = self@.sessions;
        match self.sessions.find_spec(peer) {
            Some(i) => {
                assert(ss[i].peer == peer);
                let j = choose|j: int| 0 <= j < ss.len() && ss[j].peer == peer;
                assert(self.sessions.entries()[j].0.key() == peer);
            },
            None => {
                assert forall|i: int| 0 <= i < ss.len() implies ss[i].peer != peer by {
                    assert(ss[i] == self.sessions.entries()[i].1@);
                }
            },
        }
    }

    /// The index of the session of `peer`, created (fresh) at the end when
    /// there is none.
    fn session_index(&mut self, peer: PeerAddr) -> (i: usize)
        requires
            old(self).wf(),
        ensures
            final(self).wf(),
            i < final(self)@.sessions.len(),
            i == (match find_peer(old(self)@.sessions, peer) {
                Some(j) => j,
                None => old(self)@.sessions.len() as int,
            }),
            session_before(old(self)@.sessions, peer, final(self)@.sessions[i as int]),
            final(self)@.sessions == placed(old(self)@.sessions, peer, final(self)@.sessions[i as int]),
            final(self)@.next_cleanup == old(self)@.next_cleanup,
            final(self).sessions.entries()[i as int].0 == peer,
    {
        proof {
            self.lemma_find_session(peer);
        }
        match self.sessions.find(&peer) {
            Some(i) => {
                assert(self@.sessions.update(i as int, self@.sessions[i as int]) =~= self@.sessions);
                i
            },
            None => {
                let ghost e0 = self.sessions.entries();
                let n = self.sessions.len();
                let sess = PeerSession::new(peer);
                proof {
                    self.sessions.lemma_view_entries();
                }
                self.sessions.insert_at(n, peer, sess);
                proof {
                    assert(self.sessions.entries() =~= e0.push((peer, sess)));
                    assert(self@.sessions =~= old(self)@.sessions.push(sess@));
                    assert forall|j: int| 0 <= j < self.sessions.entries().len() implies {
                        let e = #[trigger] self.sessions.entries()[j];
                        &&& e.1.wf()
                        &&& e.1@.peer == e.0
                        &&& e.1@.deliveries.len() == 0
                    } by {
                        if j < n {
                            assert(self.sessions.entries()[j] == e0[j]);
                        }
                    }
                }
                n
            },
        }
    }

    /// Handles an inbound message `m` from `peer` at `now` (see
    /// `message_effect`).
    pub fn handle_message(&mut self, peer: PeerAddr, m: &Message, now: u64) -> (r: Vec<StackAction>)
        requires
            old(self).wf(),
        ensures
            final(self).wf(),
            message_effect(old(self)@, peer, *m, now, final(self)@, r@),
    {
        let i = self.session_index(peer);
        let ghost mid_state = self@;
        let ghost e1 = self.sessions.entries();
        proof {
            self.lemma_find_session(peer);
            crate::table::lemma_entries_index(e1, i as int);
            self.sessions.lemma_view_entries();
        }
        let (k, mut sess) = self.sessions.remove_at(i);
        let ghost s = sess@;
        let mut acts = handle_inbound(&mut sess, m, now);
        let ghost s2 = sess@;
        let ghost k0 = acts@.len();
        let ds = sess.take_deliveries();
        push_resolves(&mut acts, ds);
        self.sessions.insert_at(i, k, sess);
        proof {
            assert(e1.remove(i as int).insert(i as int, (k, sess)) =~= e1.update(i as int, (k, sess)));
            assert(self@.sessions =~= mid_state.sessions.update(i as int, drained(s2)));
            assert forall|j: int| 0 <= j < self.sessions.entries().len() implies {
                let e = #[trigger] self.sessions.entries()[j];
                &&& e.1.wf()
                &&& e.1@.peer == e.0
                &&& e.1@.deliveries.len() == 0
            } by {
                if j != i {
                    assert(self.sessions.entries()[j] == e1[j]);
                }
            }
            assert(self@.sessions =~= placed(old(self)@.sessions, peer, drained(s2)));
            assert(inbound_step(s, *m, now, s2, acts@.take(k0 as int)));
            assert(effect_through(old(self)@, peer, *m, now, self@, acts@, s, s2, k0 as int));
        }
        acts
    }

    /// Handles a datagram from `peer` at `now`: bytes that coap-lite cannot
    /// decode are dropped, changing nothing; a decoded message is handled by
    /// `handle_message`.
    pub fn handle_datagram(&mut self, peer: PeerAddr, bytes: &[u8], now: u64) -> (r: Vec<StackAction>)
        requires
            old(self).wf(),
        ensures
            final(self).wf(),
            coap_decode(bytes@) is None ==> final(self)@ == old(self)@ && r@.len() == 0,
            coap_decode(bytes@) is Some ==> exists|m: Message| {
                &&& message_parts(m) == coap_decode(bytes@)->0
                &&& m.token@.len() <= 8
                &&& message_effect(old(self)@, peer, m, now, final(self)@, r@)
            },
    {
        match Message::decode(bytes) {
            Some(m) => self.handle_message(peer, &m, now),
            None => Vec::new(),
        }
    }
    /// Handles an inbound message `m` from `peer` at `now` in the context
    /// variant (see `context_message_effect`).
    pub fn handle_context_message(&mut self, peer: PeerAddr, m: Message, now: u64) -> (r: Vec<ContextAction>)
        requires
            old(self).wf(),
        ensures
            final(self).wf(),
            context_message_effect(old(self)@, peer, m, now, final(self)@, r@),
    {
        let i = self.session_index(peer);
        let ghost mid_state = self@;
        let ghost e1 = self.sessions.entries();
        proof {
            self.lemma_find_session(peer);
            crate::table::lemma_entries_index(e1, i as int);
            self.sessions.lemma_view_entries();
        }
        let ghost m0 = m;
        let (k, mut sess) = self.sessions.remove_at(i);
        let ghost s = sess@;
        let mut acts = handle_context_inbound(&mut sess, m, now);
        let ghost s2 = sess@;
        let ghost k0 = acts@.len();
        let ds = sess.take_deliveries();
        push_context_resolves(&mut acts, ds);
        self.sessions.insert_at(i, k, sess);
        proof {
            assert(e1.remove(i as int).insert(i as int, (k, sess)) =~= e1.update(i as int, (k, sess)));
            assert(self@.sessions =~= mid_state.sessions.update(i as int, drained(s2)));
            assert forall|j: int| 0 <= j < self.sessions.entries().len() implies {
                let e = #[trigger] self.sessions.entries()[j];
                &&& e.1.wf()
                &&& e.1@.peer == e.0
                &&& e.1@.deliveries.len() == 0
            } by {
                if j != i {
                    assert(self.sessions.entries()[j] == e1[j]);
                }
            }
            assert(self@.sessions =~= placed(old(self)@.sessions, peer, drained(s2)));
            assert(context_inbound_step(s, m0, now, s2, acts@.take(k0 as int)));
            assert(context_effect_through(old(self)@, peer, m0, now, self@, acts@, s, s2, k0 as int));
        }
        acts
    }

    /// Sends the caller's message `m` to `peer` at `now` in the context
    /// variant (see `context_request_sent`): the result is the bytes to
    /// send, or `None` when the message cannot be encoded.
    pub fn handle_context_request(&mut self, m: Message, peer: PeerAddr, now: u64) -> (r: Option<Vec<u8>>)
        requires
            old(self).wf(),
            m.token@.len() <= 15,
            now + EXCHANGE_LIFETIME_MS <= u64::MAX,
        ensures
            final(self).wf(),
            context_request_effect(old(self)@, m, peer, now, final(self)@, r),
    {
        let i = self.session_index(peer);
        let ghost mid_state = self@;
        let ghost e1 = self.sessions.entries();
        proof {
            self.lemma_find_session(peer);
            crate::table::lemma_entries_index(e1, i as int);
            self.sessions.lemma_view_entries();
        }
        let ghost m0 = m;
        let (k, mut sess) = self.sessions.remove_at(i);
        let ghost s = sess@;
        let mid = sess.allocate_mid();
        let mut msg = m;
        msg.message_id = mid;
        let con = msg.message_type == MessageType::Confirmable;
        assert(message_parts(msg) == parts_with_mid(m0, mid));
        let ghost mut evw: Option<ExchangeView> = None;
        let result = match msg.encode() {
            Some(bytes) => {
                let token = copy_bytes(msg.token.as_slice());
                if con {
                    let ex = Exchange::new_con(copy_bytes(token.as_slice()), peer, mid, copy_bytes(bytes.as_slice()), now);
                    proof {
                        evw = Some(ex@);
                    }
                    sess.insert_con_exchange(token, mid, ex);
                    assert(request_exchange(evw->0, true, m0.token@, peer, mid, bytes@, now));
                } else {
                    let ex = Exchange::new_non(copy_bytes(token.as_slice()), peer, now);
                    proof {
                        evw = Some(ex@);
                    }
                    sess.insert_exchange(token, ex);
                    assert(request_exchange(evw->0, false, m0.token@, peer, mid, bytes@, now));
                }
                Some(bytes)
            },
            None => None,
        };
        let ghost s2 = sess@;
        self.sessions.insert_at(i, k, sess);
        proof {
            assert(e1.remove(i as int).insert(i as int, (k, sess)) =~= e1.update(i as int, (k, sess)));
            assert(self@.sessions =~= mid_state.sessions.update(i as int, s2));
            assert forall|j: int| 0 <= j < self.sessions.entries().len() implies {
                let e = #[trigger] self.sessions.entries()[j];
                &&& e.1.wf()
                &&& e.1@.peer == e.0
                &&& e.1@.deliveries.len() == 0
            } by {
                if j != i {
                    assert(self.sessions.entries()[j] == e1[j]);
                }
            }
            assert(self@.sessions =~= placed(old(self)@.sessions, peer, s2));
            assert(session_before(old(self)@.sessions, peer, s));
            if result is Some {
                let t = m0.token@;
                let parts = parts_with_mid(m0, s.next_mid);
                let s1x = SessionView { next_mid: wrapping_next_u16(s.next_mid), ..s };
                assert(request_exchange(evw->0, con, t, s.peer, s.next_mid, result->0@, now));
                assert(s2 == (SessionView {
                    exchanges: with_exchange(s1x.exchanges, t, evw->0),
                    mid_to_token: if con { s1x.mid_to_token.insert(s.next_mid, t) } else { s1x.mid_to_token },
                    ..s1x
                }));
            }
            assert(context_request_sent(s, m0, now, s2, result));
            assert(context_sent_through(old(self)@, m0, peer, now, self@, result, s, s2));
        }
        result
    }

    /// Sends `request` to `peer` at `now` (see `request_sent`): the result is
    /// the token the response will carry and the bytes to send, or `None`
    /// when the request cannot be encoded.
    pub fn handle_outbound_request(&mut self, request: &CoapRequest, peer: PeerAddr, now: u64) -> (r: Option<(Vec<u8>, Vec<u8>)>)
        requires
            old(self).wf(),
            now + EXCHANGE_LIFETIME_MS <= u64::MAX,
        ensures
            final(self).wf(),
            outbound_effect(old(self)@, *request, peer, now, final(self)@, r),
    {
        let i = self.session_index(peer);
        let ghost mid_state = self@;
        let ghost e1 = self.sessions.entries();
        proof {
            self.lemma_find_session(peer);
            crate::table::lemma_entries_index(e1, i as int);
            self.sessions.lemma_view_entries();
        }
        let (k, mut sess) = self.sessions.remove_at(i);
        let ghost s = sess@;
        let token = sess.allocate_token();
        let mid = sess.allocate_mid();
        let ghost s1 = sess@;
        let msg = request.to_packet(copy_bytes(token.as_slice()), mid);
        assert(message_parts(msg) == request_parts(*request, token@, mid));
        let ghost mut evw: Option<ExchangeView> = None;
        let result = match msg.encode() {
            Some(bytes) => {
                if request.confirmable {
                    let ex = Exchange::new_con(copy_bytes(token.as_slice()), peer, mid, copy_bytes(bytes.as_slice()), now);
                    proof {
                        evw = Some(ex@);
                    }
                    sess.insert_con_exchange(copy_bytes(token.as_slice()), mid, ex);
                    assert(request_exchange(evw->0, true, token@, peer, mid, bytes@, now));
                } else {
                    let ex = Exchange::new_non(copy_bytes(token.as_slice()), peer, now);
                    proof {
                        evw = Some(ex@);
                    }
                    sess.insert_exchange(copy_bytes(token.as_slice()), ex);
                    assert(request_exchange(evw->0, false, token@, peer, mid, bytes@, now));
                }
                Some((token, bytes))
            },
            None => None,
        };
        let ghost s2 = sess@;
        self.sessions.insert_at(i, k, sess);
        proof {
            assert(e1.remove(i as int).insert(i as int, (k, sess)) =~= e1.update(i as int, (k, sess)));
            assert(self@.sessions =~= mid_state.sessions.update(i as int, s2));
            assert forall|j: int| 0 <= j < self.sessions.entries().len() implies {
                let e = #[trigger] self.sessions.entries()[j];
                &&& e.1.wf()
                &&& e.1@.peer == e.0
                &&& e.1@.deliveries.len() == 0
            } by {
                if j != i {
                    assert(self.sessions.entries()[j] == e1[j]);
                }
            }
            assert(self@.sessions =~= placed(old(self)@.sessions, peer, s2));
            assert(session_before(old(self)@.sessions, peer, s));
            if result is Some {
                let sent = result->0;
                let t = token_bytes(s.next_token);
                let parts = request_parts(*request, t, s.next_mid);
                assert(coap_encode(parts) == Some(sent.1@));
                assert(request_exchange(evw->0, request.confirmable, t, s.peer, s.next_mid, sent.1@, now));
                let s1x = SessionView { next_token: wrapping_next_u32(s.next_token), next_mid: wrapping_next_u16(s.next_mid), ..s };
                assert(s2 == (SessionView {
                    exchanges: with_exchange(s1x.exchanges, t, evw->0),
                    mid_to_token: if request.confirmable { s1x.mid_to_token.insert(s.next_mid, t) } else { s1x.mid_to_token },
                    ..s1x
                }));
                let b = coap_encode(parts)->0;
                assert(result matches Some(p) && p.0@ == t && p.1@ == b);
                assert(header_written(b, parts));
            }
            assert(request_sent(s, *request, now, s2, result));
            assert(sent_through(old(self)@, *request, peer, now, self@, result, s, s2));
        }
        result
    }

    /// Sends the server's response `resp` at `now`: takes the next message
    /// ID of the session of its peer and encodes the response with the
    /// request's token as a non-confirmable message. The result is the bytes
    /// to send, or `None` when coap-lite cannot encode it.
    pub fn handle_outbound_response(&mut self, resp: &ServerResponse) -> (r: Option<Vec<u8>>)
        requires
            old(self).wf(),
            resp.token@.len() <= 15,
        ensures
            final(self).wf(),
            final(self)@.next_cleanup == old(self)@.next_cleanup,
            exists|s: SessionView| {
                let parts = response_parts(resp.response, resp.token@, s.next_mid);
                &&& #[trigger] session_before(old(self)@.sessions, resp.peer, s)
                &&& final(self)@.sessions == placed(old(self)@.sessions, resp.peer,
                    SessionView { next_mid: wrapping_next_u16(s.next_mid), ..s })
                &&& (r is Some <==> coap_encode(parts) is Some)
                &&& (r matches Some(b) ==> coap_encode(parts) == Some(b@) && header_written(b@, parts))
            },
    {
        let peer = resp.peer;
        let i = self.session_index(peer);
        let ghost mid_state = self@;
        let ghost e1 = self.sessions.entries();
        proof {
            self.lemma_find_session(peer);
            crate::table::lemma_entries_index(e1, i as int);
            self.sessions.lemma_view_entries();
        }
        let (k, mut sess) = self.sessions.remove_at(i);
        let ghost s = sess@;
        let mid = sess.allocate_mid();
        let ghost s2 = sess@;
        let msg = resp.response.to_packet(copy_bytes(resp.token.as_slice()), mid);
        assert(message_parts(msg) == response_parts(resp.response, resp.token@, mid));
        let result = msg.encode();
        self.sessions.insert_at(i, k, sess);
        proof {
            assert(e1.remove(i as int).insert(i as int, (k, sess)) =~= e1.update(i as int, (k, sess)));
            assert(self@.sessions =~= mid_state.sessions.update(i as int, s2));
            assert forall|j: int| 0 <= j < self.sessions.entries().len() implies {
                let e = #[trigger] self.sessions.entries()[j];
                &&& e.1.wf()
                &&& e.1@.peer == e.0
                &&& e.1@.deliveries.len() == 0
            } by {
                if j != i {
                    assert(self.sessions.entries()[j] == e1[j]);
                }
            }
            assert(self@.sessions =~= placed(old(self)@.sessions, peer, s2));
            assert(session_before(old(self)@.sessions, peer, s));
        }
        result
    }
    /// Runs the retransmission timer at `now` on every session, in order:
    /// due retransmissions are re-sent, exchanges that ran out of
    /// retransmissions or time fail with a timeout, and stale dedup entries
    /// are dropped.
    pub fn handle_retransmit_timer(&mut self, now: u64) -> (r: Vec<StackAction>)
        requires
            old(self).wf(),
            now + MAX_BACKOFF_MS <= u64::MAX,
        ensures
            final(self).wf(),
            final(self)@.next_cleanup == old(self)@.next_cleanup,
            final(self)@.sessions == old(self)@.sessions.map_values(|s: SessionView| after_timer(s, now)),
            timer_actions(old(self)@.sessions, now, r@),
    {
        let ghost ss = old(self)@.sessions;
        let mut acts: Vec<StackAction> = Vec::new();
        let n = self.sessions.len();
        let mut i: usize = 0;
        proof {
            self.lemma_sessions();
            assert(ss.take(0) =~= Seq::<SessionView>::empty());
            assert(self@.sessions =~= ss.take(0).map_values(|s: SessionView| after_timer(s, now)) + ss.skip(0));
        }
        while i < n
            invariant
                self.wf(),
                n == ss.len(),
                i <= n,
                self@.next_cleanup == old(self)@.next_cleanup,
                self@.sessions == ss.take(i as int).map_values(|s: SessionView| after_timer(s, now)) + ss.skip(i as int),
                timer_actions(ss.take(i as int), now, acts@),
                now + MAX_BACKOFF_MS <= u64::MAX,
            decreases n - i,
        {
            let ghost st = self@;
            let ghost e1 = self.sessions.entries();
            let ghost a1 = acts@;
            proof {
                self.lemma_sessions();
                assert(st.sessions[i as int] == ss[i as int]);
                crate::table::lemma_entries_index(e1, i as int);
                self.sessions.lemma_view_entries();
            }
            let (k, mut sess) = self.sessions.remove_at(i);
            let ghost s = sess@;
            assert(s == ss[i as int]);
            let resent = sess.collect_retransmissions(now);
            let ghost dl = sess@.deliveries;
            proof {
                assert(s.deliveries.len() == 0);
                assert(dl.skip(0) =~= dl);
            }
            let peer = sess.peer();
            sess.evict_stale_dedup(now);
            let ds = sess.take_deliveries();
            let ghost a2 = acts@;
            push_sends(&mut acts, peer, resent);
            let ghost a3 = acts@;
            push_resolves(&mut acts, ds);
            self.sessions.insert_at(i, k, sess);
            proof {
                assert(sess@ =~= after_timer(s, now)) by {
                    assert(sess@.dedup =~= after_timer(s, now).dedup);
                    assert(sess@.deliveries =~= Seq::<Delivery>::empty());
                }
                assert(e1.remove(i as int).insert(i as int, (k, sess)) =~= e1.update(i as int, (k, sess)));
                assert(self@.sessions =~= st.sessions.update(i as int, after_timer(s, now)));
                assert forall|j: int| 0 <= j < self.sessions.entries().len() implies {
                    let e = #[trigger] self.sessions.entries()[j];
                    &&& e.1.wf()
                    &&& e.1@.peer == e.0
                    &&& e.1@.deliveries.len() == 0
                } by {
                    if j != i {
                        assert(self.sessions.entries()[j] == e1[j]);
                    }
                }
                assert(self@.sessions =~= ss.take(i + 1).map_values(|s: SessionView| after_timer(s, now)) + ss.skip(i + 1));
                let tk = ss.take(i + 1);
                assert(tk.drop_last() =~= ss.take(i as int));
                assert(tk.last() == s);
                let cnt = timer_action_count(s, now);
                assert(acts@.len() == a1.len() + cnt);
                assert(acts@.take(acts@.len() - cnt) =~= a1);
                let tail = acts@.skip(acts@.len() - cnt);
                let resent_s = timer_resent(s.exchanges, now);
                let expired_s = timer_expired(s.exchanges, now);
                assert forall|j: int| 0 <= j < resent_s.len() implies is_send(#[trigger] tail[j], s.peer, resent_s[j]) by {
                    assert(tail[j] == a3[a1.len() + j]);
                }
                assert(a3.len() == a1.len() + resent_s.len());
                assert(ds@ == dl);
                assert forall|j: int| 0 <= j < expired_s.len() implies (#[trigger] tail[resent_s.len() + j] matches StackAction::Resolve(d)
                    && delivery_for(d, expired_s[j].0, Err(TransportError::Timeout { retransmits: expired_s[j].1 }))) by {
                    assert(tail[resent_s.len() + j] == acts@.skip(a3.len() as int)[j]);
                    assert(acts@.skip(a3.len() as int)[j] == StackAction::Resolve(ds@[j]));
                    assert(delivery_for(dl.skip(0)[j], expired_s[j].0, Err(TransportError::Timeout { retransmits: expired_s[j].1 })));
                }
                assert(session_timer_actions(s, now, tail));
            }
            i = i + 1;
        }
        proof {
            assert(ss.take(n as int) =~= ss);
            assert(self@.sessions =~= ss.map_values(|s: SessionView| after_timer(s, now)));
        }
        acts
    }

    /// Drops the idle sessions at `now` and schedules the next cleanup
    /// `IDLE_SESSION_CLEANUP_INTERVAL_SECS` later.
    pub fn handle_cleanup_timer(&mut self, now: u64)
        requires
            old(self).wf(),
            now + IDLE_SESSION_CLEANUP_INTERVAL_SECS * 1000 <= u64::MAX,
        ensures
            final(self).wf(),
            final(self)@.sessions == busy_sessions(old(self)@.sessions),
            final(self)@.next_cleanup == now + IDLE_SESSION_CLEANUP_INTERVAL_SECS * 1000,
    {
        let ghost ss = old(self)@.sessions;
        let mut i: usize = 0;
        let mut j: usize = 0;
        let n = self.sessions.len();
        proof {
            self.lemma_sessions();
            assert(ss.take(0) =~= Seq::<SessionView>::empty());
            assert(self@.sessions =~= busy_sessions(ss.take(0)) + ss.skip(0));
        }
        while j < n
            invariant
                self.wf(),
                n == ss.len(),
                j <= n,
                i == busy_sessions(ss.take(j as int)).len(),
                self@.sessions == busy_sessions(ss.take(j as int)) + ss.skip(j as int),
            decreases n - j,
        {
            let ghost st = self@;
            let ghost e1 = self.sessions.entries();
            proof {
                self.lemma_sessions();
                assert(st.sessions[i as int] == ss[j as int]);
                let tk = ss.take(j + 1);
                assert(tk.drop_last() =~= ss.take(j as int));
                assert(tk.last() == ss[j as int]);
            }
            if self.sessions.entry_at(i).1.is_idle() {
                self.sessions.remove_at(i);
                proof {
                    assert(self@.sessions =~= st.sessions.remove(i as int));
                    assert(self@.sessions =~= busy_sessions(ss.take(j + 1)) + ss.skip(j + 1));
                    assert forall|q: int| 0 <= q < self.sessions.entries().len() implies {
                        let e = #[trigger] self.sessions.entries()[q];
                        &&& e.1.wf()
                        &&& e.1@.peer == e.0
                        &&& e.1@.deliveries.len() == 0
                    } by {
                        let oq = if q < i { q } else { q + 1 };
                        assert(self.sessions.entries()[q] == e1[oq]);
                    }
                }
            } else {
                proof {
                    lemma_busy_len(ss.take(j as int));
                }
                i = i + 1;
                proof {
                    assert(self@.sessions =~= busy_sessions(ss.take(j + 1)) + ss.skip(j + 1));
                }
            }
            j = j + 1;
        }
        proof {
            assert(ss.take(n as int) =~= ss);
            assert(self@.sessions =~= busy_sessions(ss));
        }
        self.next_cleanup = now + IDLE_SESSION_CLEANUP_INTERVAL_SECS * 1000;
    }

    /// The soonest retransmission or expiry deadline of any exchange.
    pub fn next_deadline(&self) -> (r: Option<u64>)
        requires
            self.wf(),
        ensures
            r == stack_deadline(self@.sessions),
    {
        let ghost ss = self@.sessions;
        let mut best: Option<u64> = None;
        let mut i: usize = 0;
        proof {
            self.lemma_sessions();
            assert(ss.take(0) =~= Seq::<SessionView>::empty());
        }
        while i < self.sessions.len()
            invariant
                self.wf(),
                ss == self@.sessions,
                ss.len() == self.sessions.entries().len(),
                forall|q: int| 0 <= q < ss.len() ==> #[trigger] ss[q] == self.sessions.entries()[q].1@,
                i <= ss.len(),
                best == stack_deadline(ss.take(i as int)),
            decreases ss.len() - i,
        {
            let d = self.sessions.entry_at(i).1.next_retransmit_deadline();
            proof {
                let tk = ss.take(i + 1);
                assert(tk.drop_last() =~= ss.take(i as int));
                assert(tk.last() == ss[i as int]);
            }
            best = match (best, d) {
                (Some(a), Some(b)) => Some(if a <= b { a } else { b }),
                (Some(a), None) => Some(a),
                (None, b) => b,
            };
            i = i + 1;
        }
        proof {
            assert(ss.take(ss.len() as int) =~= ss);
        }
        best
    }
    /// The view of a well-formed stack is well formed.
    pub proof fn lemma_view_wf(&self)
        requires
            self.wf(),
        ensures
            stack_view_wf(self@),
    {
        let ss = self@.sessions;
        assert forall|i: int, j: int| 0 <= i < ss.len() && 0 <= j < ss.len() && i != j
            implies #[trigger] ss[i].peer != #[trigger] ss[j].peer by {
            assert(ss[i] == self.sessions.entries()[i].1@);
            assert(ss[j] == self.sessions.entries()[j].1@);
            assert(self.sessions.entries()[i].0.key() != self.sessions.entries()[j].0.key());
        }
        assert forall|i: int| 0 <= i < ss.len() implies (#[trigger] ss[i]).deliveries.len() == 0 by {
            assert(ss[i] == self.sessions.entries()[i].1@);
        }
        assert forall|i: int| 0 <= i < ss.len() implies tokens_distinct((#[trigger] ss[i]).exchanges) by {
            assert(ss[i] == self.sessions.entries()[i].1@);
            self.sessions.entries()[i].1.lemma_wf_tokens();
        }
    }
}

} // verus!
