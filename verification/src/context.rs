//! The decisions of the transport's context variant, which sends a caller's
//! own message (keeping its token and options) and hands inbound requests
//! to the server as messages. Confirmable messages it receives are
//! acknowledged with an empty acknowledgement that is not cached.

use vstd::prelude::*;
use crate::codes::{MessageClass, MessageType, message_type_bits, code_of_class};
use crate::exchange::{Delivery, PeerAddr, TransportError};
use crate::message::{CoapResponse, copy_bytes};
use crate::session::{
    AckResult, DedupView, PeerSession, SessionView, after_ack, exchange_closed, lemma_exchange_closed_weaken,
    reset_effect,
};
use crate::reliability::wrapping_next_u16;
use crate::stack::{StackView, ack_bytes, drained, is_response_to, placed, request_exchange, session_before, with_exchange};
use crate::wire::{Message, MessageParts, coap_encode, header_written, options_view};

verus! {

/// What the context asks its caller to do.
pub enum ContextAction {
    /// Send a datagram to a peer.
    Send { peer: PeerAddr, bytes: Vec<u8> },
    /// Hand an inbound request message to the server.
    DeliverRequest { message: Message, peer: PeerAddr },
    /// Tell the caller waiting on an exchange how it ended.
    Resolve(Delivery),
}

/// `a` sends the bytes `b` to `peer`.
pub open spec fn context_sends(a: ContextAction, peer: PeerAddr, b: Seq<u8>) -> bool {
    a matches ContextAction::Send { peer: p, bytes } && p == peer && bytes@ == b
}

/// `acts` resolve the deliveries `ds`, one each, in order.
pub open spec fn context_resolves(acts: Seq<ContextAction>, ds: Seq<Delivery>) -> bool {
    &&& acts.len() == ds.len()
    &&& forall|j: int| 0 <= j < acts.len() ==> #[trigger] acts[j] == ContextAction::Resolve(ds[j])
}

/// The parts of the message `m` sent with message ID `mid`.
pub open spec fn parts_with_mid(m: Message, mid: u16) -> MessageParts {
    (message_type_bits(m.message_type), code_of_class(m.code), mid, m.token@, options_view(m.options@), m.payload@)
}

/// The effect of an inbound message `m` at `now` on the session `s` of its
/// sender in the context variant: `s2` is the session afterwards and `acts`
/// the actions, in order.
///
/// Acknowledgements and resets are handled as by the stack (see
/// `inbound_step`). A confirmable or non-confirmable message whose message
/// ID was seen recently is dropped, except that a confirmable one gets a
/// response cached for it again. Otherwise its message ID is recorded with
/// nothing cached; a confirmable message is acknowledged with an empty
/// acknowledgement; then a request goes to the server as it came, and a
/// response completes the exchange with its token.
pub open spec fn context_inbound_step(s: SessionView, m: Message, now: u64, s2: SessionView, acts: Seq<ContextAction>) -> bool {
    let mid = m.message_id;
    let peer = s.peer;
    match m.message_type {
        MessageType::Acknowledgement => {
            &&& acts.len() == 0
            &&& match m.code {
                MessageClass::Empty => s2 == after_ack(s, mid, m.code),
                MessageClass::Response(_) => if s.mid_to_token.dom().contains(mid) {
                    exchange_closed(after_ack(s, mid, m.code), s.mid_to_token[mid], s2,
                        |x: Result<CoapResponse, TransportError>| is_response_to(x, m))
                } else {
                    s2 == s
                },
                _ => s2 == s,
            }
        },
        MessageType::Reset => acts.len() == 0 && reset_effect(s, mid, s2),
        _ => {
            let con = m.message_type == MessageType::Confirmable;
            if s.dedup.dom().contains(mid) {
                &&& s2 == s
                &&& if con && s.dedup[mid].cached_response is Some {
                    acts.len() == 1 && context_sends(acts[0], peer, s.dedup[mid].cached_response->0)
                } else {
                    acts.len() == 0
                }
            } else {
                let ack = if con { ack_bytes(mid) } else { None };
                let s1 = SessionView {
                    dedup: s.dedup.insert(mid, DedupView { cached_response: None, created: now }),
                    ..s
                };
                let k: int = if ack is Some { 1 } else { 0 };
                &&& acts.len() >= k
                &&& (ack is Some ==> context_sends(acts[0], peer, ack->0))
                &&& match m.code {
                    MessageClass::Request(_) => {
                        &&& s2 == s1
                        &&& acts.len() == k + 1
                        &&& acts[k] matches ContextAction::DeliverRequest { message, peer: p }
                        &&& message == m
                        &&& p == peer
                    },
                    MessageClass::Response(_) => acts.len() == k && exchange_closed(s1, m.token@, s2,
                        |x: Result<CoapResponse, TransportError>| is_response_to(x, m)),
                    _ => acts.len() == k && s2 == s1,
                }
            }
        },
    }
}

/// Handles an inbound message `m` at `now` on the session of its sender in
/// the context variant; see `context_inbound_step`. Ended exchanges are
/// recorded in the session's deliveries.
pub fn handle_context_inbound(session: &mut PeerSession, m: Message, now: u64) -> (r: Vec<ContextAction>)
    requires
        old(session).wf(),
    ensures
        final(session).wf(),
        context_inbound_step(old(session)@, m, now, final(session)@, r@),
{
    let mut actions: Vec<ContextAction> = Vec::new();
    let mid = m.message_id;
    let peer = session.peer();
    let ghost s0 = session@;
    let ghost m0 = m;
    match m.message_type {
        MessageType::Acknowledgement => {
            match m.code {
                MessageClass::Empty => {
                    let _ = session.handle_ack(mid, &m);
                },
                MessageClass::Response(_) => {
                    match session.handle_ack(mid, &m) {
                        AckResult::PiggybackedResponse(token) => {
                            let ghost s1 = session@;
                            match CoapResponse::from_packet(&m) {
                                Ok(response) => {
                                    session.complete_exchange(token.as_slice(), response);
                                    proof {
                                        lemma_exchange_closed_weaken(s1, token@, session@,
                                            |x: Result<CoapResponse, TransportError>| x == Ok::<CoapResponse, TransportError>(response),
                                            |x: Result<CoapResponse, TransportError>| is_response_to(x, m0));
                                    }
                                },
                                Err(_) => {},
                            }
                        },
                        _ => {},
                    }
                },
                _ => {},
            }
            assert(context_inbound_step(s0, m0, now, session@, actions@));
        },
        MessageType::Reset => {
            session.handle_rst(mid);
            assert(context_inbound_step(s0, m0, now, session@, actions@));
        },
        _ => {
            let con = m.message_type == MessageType::Confirmable;
            if session.is_duplicate(mid) {
                if con {
                    match session.get_cached_response(mid) {
                        Some(cached) => {
                            actions.push(ContextAction::Send { peer, bytes: copy_bytes(cached) });
                        },
                        None => {},
                    }
                }
                assert(context_inbound_step(s0, m0, now, session@, actions@));
                return actions;
            }
            session.record_inbound_mid(mid, now);
            if con {
                let ack = Message {
                    message_type: MessageType::Acknowledgement,
                    code: MessageClass::Empty,
                    message_id: mid,
                    token: Vec::new(),
                    options: Vec::new(),
                    payload: Vec::new(),
                };
                proof {
                    assert(options_view(ack.options@) =~= Seq::<(u16, Seq<u8>)>::empty());
                    assert(ack.token@ =~= Seq::<u8>::empty());
                    assert(ack.payload@ =~= Seq::<u8>::empty());
                    assert(crate::wire::message_parts(ack) == (2u8, 0u8, mid, Seq::<u8>::empty(),
                        Seq::<(u16, Seq<u8>)>::empty(), Seq::<u8>::empty()));
                }
                match ack.encode() {
                    Some(b) => {
                        actions.push(ContextAction::Send { peer, bytes: b });
                    },
                    None => {},
                }
            }
            let ghost ackb = if con { ack_bytes(mid) } else { None };
            assert(actions@.len() == (if ackb is Some { 1int } else { 0int }));
            assert(ackb is Some ==> context_sends(actions@[0], peer, ackb->0));
            match m.code {
                MessageClass::Request(_) => {
                    actions.push(ContextAction::DeliverRequest { message: m, peer });
                },
                MessageClass::Response(_) => {
                    let ghost s1 = session@;
                    match CoapResponse::from_packet(&m) {
                        Ok(response) => {
                            session.complete_exchange(m.token.as_slice(), response);
                            proof {
                                lemma_exchange_closed_weaken(s1, m0.token@, session@,
                                    |x: Result<CoapResponse, TransportError>| x == Ok::<CoapResponse, TransportError>(response),
                                    |x: Result<CoapResponse, TransportError>| is_response_to(x, m0));
                            }
                        },
                        Err(_) => {},
                    }
                },
                _ => {},
            }
            assert(context_inbound_step(s0, m0, now, session@, actions@));
        },
    }
    actions
}

/// The effect of sending the caller's message `m` at `now` on session `s`,
/// which becomes `s2`: the next message ID is taken and put in the
/// message; if coap-lite encodes it, the result is the bytes to send and an
/// exchange is registered under the message's own token (a confirmable one
/// also under its message ID); otherwise the result is `None`.
pub open spec fn context_request_sent(s: SessionView, m: Message, now: u64, s2: SessionView, r: Option<Vec<u8>>) -> bool {
    let mid = s.next_mid;
    let t = m.token@;
    let con = m.message_type == MessageType::Confirmable;
    let parts = parts_with_mid(m, mid);
    let s1 = SessionView { next_mid: wrapping_next_u16(s.next_mid), ..s };
    match coap_encode(parts) {
        None => r is None && s2 == s1,
        Some(b) => {
            &&& (r matches Some(x) && x@ == b)
            &&& header_written(b, parts)
            &&& exists|ev: crate::exchange::ExchangeView| {
                &&& #[trigger] request_exchange(ev, con, t, s.peer, mid, b, now)
                &&& s2 == (SessionView {
                    exchanges: with_exchange(s1.exchanges, t, ev),
                    mid_to_token: if con { s1.mid_to_token.insert(mid, t) } else { s1.mid_to_token },
                    ..s1
                })
            }
        },
    }
}

/// One way sending the caller's message `m` to `peer` at `now` takes the
/// stack from `st` to `st2` with result `r`: `s` is the session of `peer`
/// (or a fresh one) and `s2` that session after `context_request_sent`.
pub open spec fn context_sent_through(
    st: StackView,
    m: Message,
    peer: PeerAddr,
    now: u64,
    st2: StackView,
    r: Option<Vec<u8>>,
    s: SessionView,
    s2: SessionView,
) -> bool {
    &&& session_before(st.sessions, peer, s)
    &&& context_request_sent(s, m, now, s2, r)
    &&& st2.sessions == placed(st.sessions, peer, s2)
}

/// The effect of sending the caller's message `m` to `peer` at `now` (see
/// `context_sent_through`).
pub open spec fn context_request_effect(st: StackView, m: Message, peer: PeerAddr, now: u64, st2: StackView, r: Option<Vec<u8>>) -> bool {
    &&& st2.next_cleanup == st.next_cleanup
    &&& exists|s: SessionView, s2: SessionView| #[trigger] context_sent_through(st, m, peer, now, st2, r, s, s2)
}

/// One way an inbound message `m` from `peer` at `now` takes the stack from
/// `st` to `st2` with actions `r` in the context variant: `s` is the
/// session it works on, `s2` that session after `context_inbound_step`, and
/// the first `k` actions are that step's; the rest resolve the exchanges
/// that ended, and the session is kept drained.
pub open spec fn context_effect_through(
    st: StackView,
    peer: PeerAddr,
    m: Message,
    now: u64,
    st2: StackView,
    r: Seq<ContextAction>,
    s: SessionView,
    s2: SessionView,
    k: int,
) -> bool {
    &&& session_before(st.sessions, peer, s)
    &&& 0 <= k <= r.len()
    &&& context_inbound_step(s, m, now, s2, r.take(k))
    &&& context_resolves(r.skip(k), s2.deliveries)
    &&& st2.sessions == placed(st.sessions, peer, drained(s2))
}

/// The effect of an inbound message `m` from `peer` at `now` in the context
/// variant (see `context_effect_through`).
pub open spec fn context_message_effect(st: StackView, peer: PeerAddr, m: Message, now: u64, st2: StackView, r: Seq<ContextAction>) -> bool {
    &&& st2.next_cleanup == st.next_cleanup
    &&& exists|s: SessionView, s2: SessionView, k: int| #[trigger] context_effect_through(st, peer, m, now, st2, r, s, s2, k)
}

/// Appends one `Resolve` action per delivery, in order.
pub(crate) fn push_context_resolves(acts: &mut Vec<ContextAction>, ds: Vec<Delivery>)
    ensures
        final(acts)@.len() == old(acts)@.len() + ds@.len(),
        final(acts)@.take(old(acts)@.len() as int) == old(acts)@,
        context_resolves(final(acts)@.skip(old(acts)@.len() as int), ds@),
{
    let ghost a0 = acts@;
    let mut ds = ds;
    let ghost d0 = ds@;
    let total = ds.len();
    let mut j: usize = 0;
    while ds.len() > 0
        invariant
            j + ds@.len() == d0.len(),
            d0.len() == total,
            ds@ == d0.skip(j as int),
            acts@.len() == a0.len() + j,
            acts@.take(a0.len() as int) == a0,
            forall|q: int| 0 <= q < j ==> #[trigger] acts@[a0.len() + q] == ContextAction::Resolve(d0[q]),
        decreases ds@.len(),
    {
        let ghost before = acts@;
        let d = ds.remove(0);
        assert(d == d0[j as int]);
        acts.push(ContextAction::Resolve(d));
        assert(acts@.take(a0.len() as int) =~= before.take(a0.len() as int));
        assert(ds@ =~= d0.skip(j + 1));
        j = j + 1;
        assert forall|q: int| 0 <= q < j implies #[trigger] acts@[a0.len() + q] == ContextAction::Resolve(d0[q]) by {
            if q < j - 1 {
                assert(acts@[a0.len() + q] == before[a0.len() + q]);
            }
        }
    }
    let ghost tail = acts@.skip(a0.len() as int);
    assert forall|q: int| 0 <= q < tail.len() implies #[trigger] tail[q] == ContextAction::Resolve(d0[q]) by {
        assert(tail[q] == acts@[a0.len() + q]);
    }
}

} // verus!
