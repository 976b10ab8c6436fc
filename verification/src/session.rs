//! Per-peer transport state: outstanding exchanges, the index from outbound
//! message IDs to tokens, message ID and token allocation, and the dedup
//! table of inbound message IDs.

use vstd::prelude::*;
use crate::codes::MessageClass;
use crate::exchange::{
    Delivery, Exchange, ExchangeView, PeerAddr, TransportError, advanced, exchange_retransmit_count,
};
use crate::message::CoapResponse;
use crate::reliability::{
    DedupEntry, MessageIdAllocator, TokenAllocator, EXCHANGE_LIFETIME_MS, MAX_BACKOFF_MS,
    MAX_RETRANSMIT, token_bytes, wrapping_next_u16, wrapping_next_u32,
};
use crate::table::{Table, TableKey, keys_distinct};
use crate::wire::Message;

verus! {

/// The outcome of an inbound acknowledgement.
pub enum AckResult {
    /// Empty ACK: retransmission cancelled, the exchange stays open for a
    /// separate response.
    EmptyAck,
    /// Piggybacked response: the exchange with this token should be
    /// completed.
    PiggybackedResponse(Vec<u8>),
    /// The message ID is not recognized.
    Unknown,
}

/// A dedup entry as plain values: the cached response and when the message
/// ID was recorded.
pub struct DedupView {
    pub cached_response: Option<Seq<u8>>,
    pub created: u64,
}

/// The view of a dedup entry.
pub open spec fn dedup_view(d: DedupEntry) -> DedupView {
    DedupView {
        cached_response: match d.cached_response {
            Some(b) => Some(b@),
            None => None,
        },
        created: d.created,
    }
}

/// The abstract state of a session.
pub struct SessionView {
    pub peer: PeerAddr,
    /// Outstanding exchanges by token, in the order they were inserted.
    pub exchanges: Seq<(Seq<u8>, ExchangeView)>,
    /// Outbound confirmable message IDs and the tokens of their exchanges.
    pub mid_to_token: Map<u16, Seq<u8>>,
    /// Inbound message IDs seen recently.
    pub dedup: Map<u16, DedupView>,
    pub next_mid: u16,
    pub next_token: u32,
    /// Ended exchanges whose callers have not been told yet.
    pub deliveries: Seq<Delivery>,
}

/// The index of the exchange with token `t`, if any.
pub open spec fn find_token(s: Seq<(Seq<u8>, ExchangeView)>, t: Seq<u8>) -> Option<int> {
    if exists|i: int| 0 <= i < s.len() && s[i].0 == t {
        Some(choose|i: int| 0 <= i < s.len() && s[i].0 == t)
    } else {
        None
    }
}

/// No token occurs twice.
pub open spec fn tokens_distinct(s: Seq<(Seq<u8>, ExchangeView)>) -> bool {
    forall|i: int, j: int| 0 <= i < s.len() && 0 <= j < s.len() && i != j ==> s[i].0 != s[j].0
}

/// The exchange entries taken by their views.
pub open spec fn entry_views(s: Seq<(Vec<u8>, Exchange)>) -> Seq<(Seq<u8>, ExchangeView)> {
    s.map_values(|p: (Vec<u8>, Exchange)| (p.0@, p.1@))
}

/// A delivery addressed to the exchange `e`, carrying `result`.
pub open spec fn delivery_for(d: Delivery, e: ExchangeView, result: Result<CoapResponse, TransportError>) -> bool {
    d.peer == e.peer && d.token@ == e.token && d.result == result
}

/// Looking a token up in the views finds the entry the table finds.
proof fn lemma_find_agrees(tbl: &Table<Vec<u8>, Exchange>, t: Seq<u8>)
    requires
        tbl.wf(),
    ensures
        find_token(entry_views(tbl.entries()), t) == tbl.find_spec(t),
        tokens_distinct(entry_views(tbl.entries())),
{
    tbl.lemma_find_spec(t);
    let s = entry_views(tbl.entries());
    assert forall|i: int, j: int| 0 <= i < s.len() && 0 <= j < s.len() && i != j implies s[i].0 != s[j].0 by {
        assert(s[i].0 == tbl.entries()[i].0.key());
        assert(s[j].0 == tbl.entries()[j].0.key());
    }
    match tbl.find_spec(t) {
        Some(i) => {
            assert(s[i].0 == t);
            let j = choose|j: int| 0 <= j < s.len() && s[j].0 == t;
            assert(tbl.entries()[j].0.key() == t);
        },
        None => {
            assert forall|i: int| 0 <= i < s.len() implies s[i].0 != t by {
                assert(s[i].0 == tbl.entries()[i].0.key());
            }
        },
    }
}

/// The view of the entry at index `i`.
proof fn lemma_entry_view(s: Seq<(Vec<u8>, Exchange)>, i: int)
    requires
        0 <= i < s.len(),
    ensures
        entry_views(s)[i] == (s[i].0@, s[i].1@),
{
}

/// `s2` is `s` after the exchange with token `t`, if there is one, was
/// removed with its message ID index entry and a delivery to it was recorded
/// whose result satisfies `ok`; `s2` is `s` when there is none.
pub open spec fn exchange_closed(
    s: SessionView,
    t: Seq<u8>,
    s2: SessionView,
    ok: spec_fn(Result<CoapResponse, TransportError>) -> bool,
) -> bool {
    match find_token(s.exchanges, t) {
        Some(i) => {
            let e = s.exchanges[i].1;
            &&& s2.exchanges == s.exchanges.remove(i)
            &&& s2.mid_to_token == (match e.message_id {
                Some(m) => s.mid_to_token.remove(m),
                None => s.mid_to_token,
            })
            &&& s2.deliveries.len() == s.deliveries.len() + 1
            &&& s2.deliveries.drop_last() == s.deliveries
            &&& s2.deliveries.last().peer == e.peer
            &&& s2.deliveries.last().token@ == e.token
            &&& ok(s2.deliveries.last().result)
            &&& s2.peer == s.peer
            &&& s2.dedup == s.dedup
            &&& s2.next_mid == s.next_mid
            &&& s2.next_token == s.next_token
        },
        None => s2 == s,
    }
}

/// Closing an exchange with a result that satisfies `ok1` closes it with a
/// result that satisfies any weaker `ok2`.
pub proof fn lemma_exchange_closed_weaken(
    s: SessionView,
    t: Seq<u8>,
    s2: SessionView,
    ok1: spec_fn(Result<CoapResponse, TransportError>) -> bool,
    ok2: spec_fn(Result<CoapResponse, TransportError>) -> bool,
)
    requires
        exchange_closed(s, t, s2, ok1),
        forall|x: Result<CoapResponse, TransportError>| #[trigger] ok1(x) ==> ok2(x),
    ensures
        exchange_closed(s, t, s2, ok2),
{
}

/// The session after an acknowledgement with message ID `mid` and code
/// `code`: a known message ID leaves the index, and an acknowledgement
/// without a response code also cancels retransmission of its exchange.
pub open spec fn after_ack(s: SessionView, mid: u16, code: MessageClass) -> SessionView {
    if !s.mid_to_token.dom().contains(mid) {
        s
    } else {
        let t = s.mid_to_token[mid];
        let rest = SessionView { mid_to_token: s.mid_to_token.remove(mid), ..s };
        match code {
            MessageClass::Response(_) => rest,
            _ => SessionView {
                exchanges: match find_token(s.exchanges, t) {
                    Some(i) => s.exchanges.update(i, (t, ExchangeView { retransmit: None, ..s.exchanges[i].1 })),
                    None => s.exchanges,
                },
                ..rest
            },
        }
    }
}

/// What handling an acknowledgement answers: `Unknown` exactly for an
/// unknown message ID; for a known one, the exchange's token when the code
/// is a response code, and `EmptyAck` otherwise.
pub open spec fn ack_answer(s: SessionView, mid: u16, code: MessageClass, r: AckResult) -> bool {
    if !s.mid_to_token.dom().contains(mid) {
        r is Unknown
    } else {
        match code {
            MessageClass::Response(_) => r matches AckResult::PiggybackedResponse(tok) && tok@ == s.mid_to_token[mid],
            _ => r is EmptyAck,
        }
    }
}

/// `s2` is `s` after a reset with message ID `mid`: a known message ID
/// leaves the index, and its exchange, if still open, is removed and a
/// `Reset` delivery to it recorded.
pub open spec fn reset_effect(s: SessionView, mid: u16, s2: SessionView) -> bool {
    if !s.mid_to_token.dom().contains(mid) {
        s2 == s
    } else {
        let t = s.mid_to_token[mid];
        match find_token(s.exchanges, t) {
            Some(i) => {
                &&& s2.exchanges == s.exchanges.remove(i)
                &&& s2.mid_to_token == s.mid_to_token.remove(mid)
                &&& s2.deliveries.len() == s.deliveries.len() + 1
                &&& s2.deliveries.drop_last() == s.deliveries
                &&& delivery_for(s2.deliveries.last(), s.exchanges[i].1, Err(TransportError::Reset))
                &&& s2.peer == s.peer
                &&& s2.dedup == s.dedup
                &&& s2.next_mid == s.next_mid
                &&& s2.next_token == s.next_token
            },
            None => s2 == (SessionView { mid_to_token: s.mid_to_token.remove(mid), ..s }),
        }
    }
}

/// Whether a session holds nothing: no exchange, no outbound message ID and
/// no dedup entry.
pub open spec fn session_idle(s: SessionView) -> bool {
    s.exchanges.len() == 0 && s.mid_to_token.dom() == Set::<u16>::empty() && s.dedup.dom() == Set::<u16>::empty()
}

/// What the retransmission timer does to one exchange at `now`.
pub enum TimerStep {
    /// Re-send these bytes; the exchange goes on in the given state.
    Resend(ExchangeView, Seq<u8>),
    /// The exchange fails with a timeout after this many retransmissions.
    Expire(u32),
    /// Nothing is due.
    Keep,
}

/// A due retransmission is sent while fewer than `MAX_RETRANSMIT` were
/// sent, and fails the exchange after that; an exchange with nothing due
/// fails once its lifetime has passed.
pub open spec fn timer_step(e: ExchangeView, now: u64) -> TimerStep {
    if e.retransmit is Some && now >= e.retransmit->0.next_retransmit {
        let rt = e.retransmit->0;
        if rt.retransmit_count < MAX_RETRANSMIT {
            TimerStep::Resend(ExchangeView { retransmit: Some(advanced(rt, now)), ..e }, rt.packet_bytes)
        } else {
            TimerStep::Expire(rt.retransmit_count)
        }
    } else if now >= e.expires_at {
        TimerStep::Expire(exchange_retransmit_count(e))
    } else {
        TimerStep::Keep
    }
}

/// The exchanges that remain after the timer ran on `s`, in order.
pub open spec fn timer_kept(s: Seq<(Seq<u8>, ExchangeView)>, now: u64) -> Seq<(Seq<u8>, ExchangeView)>
    decreases s.len(),
{
    if s.len() == 0 {
        Seq::empty()
    } else {
        let front = timer_kept(s.drop_last(), now);
        match timer_step(s.last().1, now) {
            TimerStep::Resend(e, _) => front.push((s.last().0, e)),
            TimerStep::Keep => front.push(s.last()),
            TimerStep::Expire(_) => front,
        }
    }
}

/// The bytes re-sent when the timer ran on `s`, in order.
pub open spec fn timer_resent(s: Seq<(Seq<u8>, ExchangeView)>, now: u64) -> Seq<Seq<u8>>
    decreases s.len(),
{
    if s.len() == 0 {
        Seq::empty()
    } else {
        let front = timer_resent(s.drop_last(), now);
        match timer_step(s.last().1, now) {
            TimerStep::Resend(_, b) => front.push(b),
            _ => front,
        }
    }
}

/// The exchanges that failed when the timer ran on `s`, with their
/// retransmission counts, in order.
pub open spec fn timer_expired(s: Seq<(Seq<u8>, ExchangeView)>, now: u64) -> Seq<(ExchangeView, u32)>
    decreases s.len(),
{
    if s.len() == 0 {
        Seq::empty()
    } else {
        let front = timer_expired(s.drop_last(), now);
        match timer_step(s.last().1, now) {
            TimerStep::Expire(c) => front.push((s.last().1, c)),
            _ => front,
        }
    }
}

/// The message IDs of the exchanges that failed when the timer ran on `s`.
pub open spec fn timer_expired_mids(s: Seq<(Seq<u8>, ExchangeView)>, now: u64) -> Set<u16>
    decreases s.len(),
{
    if s.len() == 0 {
        Set::empty()
    } else {
        let front = timer_expired_mids(s.drop_last(), now);
        match (timer_step(s.last().1, now), s.last().1.message_id) {
            (TimerStep::Expire(_), Some(m)) => front.insert(m),
            _ => front,
        }
    }
}

/// The soonest deadline of the exchanges in `s`: for each, its pending
/// retransmission, or else its expiry.
pub open spec fn soonest_deadline(s: Seq<(Seq<u8>, ExchangeView)>) -> Option<u64>
    decreases s.len(),
{
    if s.len() == 0 {
        None
    } else {
        let e = s.last().1;
        let d = match e.retransmit {
            Some(rt) => rt.next_retransmit,
            None => e.expires_at,
        };
        match soonest_deadline(s.drop_last()) {
            Some(f) => Some(if f <= d { f } else { d }),
            None => Some(d),
        }
    }
}

/// When the timer next has work for exchange `e`: its pending
/// retransmission, or else its expiry.
pub open spec fn pending_deadline(e: ExchangeView) -> u64 {
    match e.retransmit {
        Some(rt) => rt.next_retransmit,
        None => e.expires_at,
    }
}

/// The deadline reported for a session's exchanges is the soonest one:
/// there is one exactly when some exchange exists, it is no later than the
/// pending deadline of every exchange, and it is the deadline of one of
/// them.
pub proof fn law_soonest_deadline_is_minimum(s: Seq<(Seq<u8>, ExchangeView)>)
    ensures
        soonest_deadline(s) is Some <==> s.len() > 0,
        soonest_deadline(s) matches Some(d) ==> {
            &&& forall|i: int| 0 <= i < s.len() ==> d <= #[trigger] pending_deadline(s[i].1)
            &&& exists|i: int| 0 <= i < s.len() && d == #[trigger] pending_deadline(s[i].1)
        },
    decreases s.len(),
{
    if s.len() > 0 {
        let p = s.drop_last();
        law_soonest_deadline_is_minimum(p);
        let last = s.len() - 1;
        let d = soonest_deadline(s)->0;
        assert(s[last] == s.last());
        assert forall|i: int| 0 <= i < s.len() implies d <= #[trigger] pending_deadline(s[i].1) by {
            if i < last {
                assert(s[i] == p[i]);
                assert(pending_deadline(p[i].1) == pending_deadline(s[i].1));
            }
        }
        if d == pending_deadline(s[last].1) {
            assert(exists|i: int| 0 <= i < s.len() && d == #[trigger] pending_deadline(s[i].1));
        } else {
            let j = choose|j: int| 0 <= j < p.len() && soonest_deadline(p)->0 == #[trigger] pending_deadline(p[j].1);
            assert(s[j] == p[j]);
            assert(d == pending_deadline(s[j].1));
        }
    }
}

/// Whether a dedup entry created at `created` is still fresh at `now`: less
/// than `EXCHANGE_LIFETIME_MS` has passed (none, if `created` is later).
pub open spec fn dedup_fresh(created: u64, now: u64) -> bool {
    now < created || now - created < EXCHANGE_LIFETIME_MS
}

/// `ds` are the timeout deliveries of the failed exchanges `expired`, one
/// for each, in order.
pub open spec fn timeout_deliveries(ds: Seq<Delivery>, expired: Seq<(ExchangeView, u32)>) -> bool {
    &&& ds.len() == expired.len()
    &&& forall|j: int| 0 <= j < ds.len() ==> delivery_for(#[trigger] ds[j], expired[j].0,
        Err(TransportError::Timeout { retransmits: expired[j].1 }))
}

/// Per-peer transport state.
pub struct PeerSession {
    peer: PeerAddr,
    exchanges: Table<Vec<u8>, Exchange>,
    mid_to_token: Table<u16, Vec<u8>>,
    mid_allocator: MessageIdAllocator,
    token_allocator: TokenAllocator,
    inbound_dedup: Table<u16, DedupEntry>,
    deliveries: Vec<Delivery>,
}

impl View for PeerSession {
    type V = SessionView;

    closed spec fn view(&self) -> SessionView {
        SessionView {
            peer: self.peer,
            exchanges: entry_views(self.exchanges.entries()),
            mid_to_token: self.mid_to_token@.map_values(|v: Vec<u8>| v@),
            dedup: self.inbound_dedup@.map_values(|d: DedupEntry| dedup_view(d)),
            next_mid: self.mid_allocator.next,
            next_token: self.token_allocator.next,
            deliveries: self.deliveries@,
        }
    }
}

impl PeerSession {
    /// The session's invariant: tables without repeated keys, and well-formed
    /// exchanges.
    pub closed spec fn wf(&self) -> bool {
        &&& self.exchanges.wf()
        &&& self.mid_to_token.wf()
        &&& self.inbound_dedup.wf()
        &&& forall|i: int| 0 <= i < self.exchanges.entries().len() ==> (#[trigger] self.exchanges.entries()[i]).1.wf()
    }

    /// Tokens of a well-formed session are distinct.
    pub proof fn lemma_wf_tokens(&self)
        requires
            self.wf(),
        ensures
            tokens_distinct(self@.exchanges),
    {
        assert forall|i: int, j: int| 0 <= i < self@.exchanges.len() && 0 <= j < self@.exchanges.len() && i != j
            implies self@.exchanges[i].0 != self@.exchanges[j].0 by {
            assert(self@.exchanges[i].0 == self.exchanges.entries()[i].0.key());
            assert(self@.exchanges[j].0 == self.exchanges.entries()[j].0.key());
        }
    }

    /// A fresh session for `peer`: nothing outstanding or remembered, and
    /// random first message ID and token.
    pub fn new(peer: PeerAddr) -> (r: Self)
        ensures
            r.wf(),
            r@.peer == peer,
            r@.exchanges.len() == 0,
            r@.mid_to_token == Map::<u16, Seq<u8>>::empty(),
            r@.dedup == Map::<u16, DedupView>::empty(),
            r@.deliveries.len() == 0,
    {
        let r = PeerSession {
            peer,
            exchanges: Table::new(),
            mid_to_token: Table::new(),
            mid_allocator: MessageIdAllocator::new(),
            token_allocator: TokenAllocator::new(),
            inbound_dedup: Table::new(),
            deliveries: Vec::new(),
        };
        assert(r@.exchanges =~= Seq::empty());
        assert(r@.mid_to_token =~= Map::empty());
        assert(r@.dedup =~= Map::empty());
        r
    }

    /// The peer.
    pub fn peer(&self) -> (r: PeerAddr)
        ensures
            r == self@.peer,
    {
        self.peer
    }

    /// Whether the session holds no exchange, no outbound message ID and no
    /// dedup entry, so that it can be dropped.
    pub fn is_idle(&self) -> (r: bool)
        ensures
            r == session_idle(self@),
    {
        let r = self.exchanges.is_empty() && self.mid_to_token.is_empty() && self.inbound_dedup.is_empty();
        assert(self@.mid_to_token.dom() == self.mid_to_token@.dom());
        assert(self@.dedup.dom() == self.inbound_dedup@.dom());
        r
    }

    /// Allocates the next message ID for an outbound message.
    pub fn allocate_mid(&mut self) -> (mid: u16)
        ensures
            mid == old(self)@.next_mid,
            final(self)@ == (SessionView { next_mid: wrapping_next_u16(old(self)@.next_mid), ..old(self)@ }),
            final(self).wf() == old(self).wf(),
    {
        self.mid_allocator.allocate()
    }

    /// Allocates the next token for an outbound request.
    pub fn allocate_token(&mut self) -> (token: Vec<u8>)
        ensures
            token@ == token_bytes(old(self)@.next_token),
            final(self)@ == (SessionView { next_token: wrapping_next_u32(old(self)@.next_token), ..old(self)@ }),
            final(self).wf() == old(self).wf(),
    {
        self.token_allocator.allocate()
    }

    /// Registers an exchange under `token` (replacing one with the same
    /// token in place).
    pub fn insert_exchange(&mut self, token: Vec<u8>, exchange: Exchange)
        requires
            old(self).wf(),
            exchange.wf(),
        ensures
            final(self).wf(),
            final(self)@ == (SessionView {
                exchanges: match find_token(old(self)@.exchanges, token@) {
                    Some(i) => old(self)@.exchanges.update(i, (token@, exchange@)),
                    None => old(self)@.exchanges.push((token@, exchange@)),
                },
                ..old(self)@
            }),
    {
        proof {
            lemma_find_agrees(&self.exchanges, token@);
        }
        let ghost t = token@;
        let ghost ev = exchange@;
        self.exchanges.insert(token, exchange);
        proof {
            match find_token(old(self)@.exchanges, t) {
                Some(i) => {
                    assert(entry_views(self.exchanges.entries()) =~= old(self)@.exchanges.update(i, (t, ev)));
                },
                None => {
                    assert(entry_views(self.exchanges.entries()) =~= old(self)@.exchanges.push((t, ev)));
                },
            }
        }
    }

    /// Registers an exchange for a confirmable request: indexes `mid` to
    /// `token` and registers the exchange under `token`.
    pub fn insert_con_exchange(&mut self, token: Vec<u8>, mid: u16, exchange: Exchange)
        requires
            old(self).wf(),
            exchange.wf(),
        ensures
            final(self).wf(),
            final(self)@ == (SessionView {
                mid_to_token: old(self)@.mid_to_token.insert(mid, token@),
                exchanges: match find_token(old(self)@.exchanges, token@) {
                    Some(i) => old(self)@.exchanges.update(i, (token@, exchange@)),
                    None => old(self)@.exchanges.push((token@, exchange@)),
                },
                ..old(self)@
            }),
    {
        let copy = crate::message::copy_bytes(token.as_slice());
        let ghost before = self.mid_to_token@;
        self.mid_to_token.insert(mid, copy);
        assert(self@.mid_to_token =~= old(self)@.mid_to_token.insert(mid, token@));
        self.insert_exchange(token, exchange);
    }

    /// Matches an inbound response to an outstanding exchange by token: if
    /// one is found, removes it and its message ID index entry, delivers the
    /// response to it and returns true; otherwise changes nothing.
    pub fn complete_exchange(&mut self, token: &[u8], response: CoapResponse) -> (r: bool)
        requires
            old(self).wf(),
        ensures
            final(self).wf(),
            r == find_token(old(self)@.exchanges, token@) is Some,
            exchange_closed(old(self)@, token@, final(self)@,
                |x: Result<CoapResponse, TransportError>| x == Ok::<CoapResponse, TransportError>(response)),
    {
        let key = crate::message::copy_bytes(token);
        proof {
            lemma_find_agrees(&self.exchanges, token@);
            if let Some(i) = self.exchanges.find_spec(token@) {
                lemma_entry_view(self.exchanges.entries(), i);
            }
        }
        let ghost old_entries = self.exchanges.entries();
        match self.exchanges.find(&key) {
            Some(i) => {
                let ghost e = old(self)@.exchanges[i as int].1;
                proof {
                    crate::table::lemma_entries_index(old_entries, i as int);
                    self.exchanges.lemma_view_entries();
                    lemma_entry_view(old_entries, i as int);
                }
                let exchange = match self.exchanges.remove(&key) {
                    Some(x) => x,
                    None => {
                        proof { assert(false); }
                        return false;
                    },
                };
                assert(exchange@ == e);
                assert(entry_views(self.exchanges.entries()) =~= old(self)@.exchanges.remove(i as int));
                if let Some(mid) = exchange.message_id() {
                    self.mid_to_token.remove(&mid);
                    assert(self@.mid_to_token =~= old(self)@.mid_to_token.remove(mid));
                }
                let d = exchange.complete(response);
                self.deliveries.push(d);
                assert(self@.deliveries.drop_last() =~= old(self)@.deliveries);
                proof {
                    assert forall|j: int| 0 <= j < self.exchanges.entries().len() implies (#[trigger] self.exchanges.entries()[j]).1.wf() by {
                        let oj = if j < i { j } else { j + 1 };
                        assert(self.exchanges.entries()[j] == old_entries[oj]);
                    }
                }
                true
            },
            None => false,
        }
    }

    /// Cancels retransmission of the exchange at index `i`.
    fn cancel_at(&mut self, i: usize)
        requires
            old(self).wf(),
            i < old(self)@.exchanges.len(),
        ensures
            final(self).wf(),
            final(self)@ == (SessionView {
                exchanges: old(self)@.exchanges.update(i as int, (old(self)@.exchanges[i as int].0,
                    ExchangeView { retransmit: None, ..old(self)@.exchanges[i as int].1 })),
                ..old(self)@
            }),
    {
        let ghost old_entries = self.exchanges.entries();
        proof {
            lemma_entry_view(old_entries, i as int);
            crate::table::lemma_entries_index(old_entries, i as int);
            self.exchanges.lemma_view_entries();
        }
        let (k, mut e) = self.exchanges.remove_at(i);
        assert(old_entries[i as int].1.wf());
        e.cancel_retransmission();
        self.exchanges.insert_at(i, k, e);
        proof {
            assert(old_entries.remove(i as int).insert(i as int, (k, e)) =~= old_entries.update(i as int, (k, e)));
            assert(entry_views(self.exchanges.entries()) =~= old(self)@.exchanges.update(i as int, (old(self)@.exchanges[i as int].0,
                ExchangeView { retransmit: None, ..old(self)@.exchanges[i as int].1 })));
            assert forall|j: int| 0 <= j < self.exchanges.entries().len() implies (#[trigger] self.exchanges.entries()[j]).1.wf() by {
                if j != i {
                    assert(self.exchanges.entries()[j] == old_entries[j]);
                }
            }
        }
    }

    /// Handles an inbound acknowledgement with message ID `mid`. An unknown
    /// message ID gives `Unknown` and changes nothing. A known one is removed
    /// from the index; then a response code gives `PiggybackedResponse` with
    /// the exchange's token, and any other code (an empty acknowledgement, or
    /// a malformed one with a request code) acknowledges the message: it
    /// cancels retransmission of its exchange (if still open) and gives
    /// `EmptyAck`.
    pub fn handle_ack(&mut self, mid: u16, packet: &Message) -> (r: AckResult)
        requires
            old(self).wf(),
        ensures
            final(self).wf(),
            final(self)@ == after_ack(old(self)@, mid, packet.code),
            ack_answer(old(self)@, mid, packet.code, r),
    {
        let token = match self.mid_to_token.remove(&mid) {
            Some(t) => t,
            None => {
                assert(self@.mid_to_token =~= old(self)@.mid_to_token);
                return AckResult::Unknown;
            },
        };
        assert(self@.mid_to_token =~= old(self)@.mid_to_token.remove(mid));
        match packet.code {
            MessageClass::Response(_) => AckResult::PiggybackedResponse(token),
            _ => {
                proof {
                    lemma_find_agrees(&self.exchanges, token@);
                }
                match self.exchanges.find(&token) {
                    Some(i) => {
                        proof {
                            lemma_entry_view(self.exchanges.entries(), i as int);
                        }
                        self.cancel_at(i);
                    },
                    None => {},
                }
                AckResult::EmptyAck
            },
        }
    }

    /// Handles an inbound reset with message ID `mid`. A known message ID is
    /// removed from the index; if its exchange is still open, the exchange is
    /// removed and failed with `Reset`, and the result is true. Otherwise the
    /// result is false.
    pub fn handle_rst(&mut self, mid: u16) -> (r: bool)
        requires
            old(self).wf(),
        ensures
            final(self).wf(),
            reset_effect(old(self)@, mid, final(self)@),
            r == (old(self)@.mid_to_token.dom().contains(mid)
                && find_token(old(self)@.exchanges, old(self)@.mid_to_token[mid]) is Some),
    {
        let token = match self.mid_to_token.remove(&mid) {
            Some(t) => t,
            None => {
                assert(self@.mid_to_token =~= old(self)@.mid_to_token);
                return false;
            },
        };
        assert(self@.mid_to_token =~= old(self)@.mid_to_token.remove(mid));
        proof {
            lemma_find_agrees(&self.exchanges, token@);
        }
        let ghost old_entries = self.exchanges.entries();
        match self.exchanges.find(&token) {
            Some(i) => {
                proof {
                    lemma_entry_view(old_entries, i as int);
                }
                let (_, exchange) = self.exchanges.remove_at(i);
                assert(entry_views(self.exchanges.entries()) =~= old(self)@.exchanges.remove(i as int));
                let d = exchange.fail(TransportError::Reset);
                self.deliveries.push(d);
                assert(self@.deliveries.drop_last() =~= old(self)@.deliveries);
                proof {
                    assert forall|j: int| 0 <= j < self.exchanges.entries().len() implies (#[trigger] self.exchanges.entries()[j]).1.wf() by {
                        let oj = if j < i { j } else { j + 1 };
                        assert(self.exchanges.entries()[j] == old_entries[oj]);
                    }
                }
                true
            },
            None => false,
        }
    }

    /// Whether inbound message ID `mid` was seen recently.
    pub fn is_duplicate(&self, mid: u16) -> (r: bool)
        requires
            self.wf(),
        ensures
            r == self@.dedup.dom().contains(mid),
    {
        self.inbound_dedup.contains_key(&mid)
    }

    /// Records inbound message ID `mid` as seen at `now`, with no cached
    /// response.
    pub fn record_inbound_mid(&mut self, mid: u16, now: u64)
        requires
            old(self).wf(),
        ensures
            final(self).wf(),
            final(self)@ == (SessionView {
                dedup: old(self)@.dedup.insert(mid, DedupView { cached_response: None, created: now }),
                ..old(self)@
            }),
    {
        self.inbound_dedup.insert(mid, DedupEntry { cached_response: None, created: now });
        assert(self@.dedup =~= old(self)@.dedup.insert(mid, DedupView { cached_response: None, created: now }));
    }

    /// Caches `response_bytes` as the reply to inbound message ID `mid`, if
    /// it is recorded; otherwise changes nothing.
    pub fn cache_response_for_mid(&mut self, mid: u16, response_bytes: Vec<u8>)
        requires
            old(self).wf(),
        ensures
            final(self).wf(),
            final(self)@ == (SessionView {
                dedup: if old(self)@.dedup.dom().contains(mid) {
                    old(self)@.dedup.insert(mid, DedupView { cached_response: Some(response_bytes@), ..old(self)@.dedup[mid] })
                } else {
                    old(self)@.dedup
                },
                ..old(self)@
            }),
    {
        match self.inbound_dedup.find(&mid) {
            Some(i) => {
                let ghost old_entries = self.inbound_dedup.entries();
                proof {
                    crate::table::lemma_entries_index(old_entries, i as int);
                    self.inbound_dedup.lemma_view_entries();
                }
                let created = self.inbound_dedup.entry_at(i).1.created;
                self.inbound_dedup.replace_at(i, DedupEntry { cached_response: Some(response_bytes), created });
                assert(self@.dedup =~= old(self)@.dedup.insert(mid, DedupView { cached_response: Some(response_bytes@), ..old(self)@.dedup[mid] }));
            },
            None => {},
        }
    }

    /// The response cached for inbound message ID `mid`, if any.
    pub fn get_cached_response(&self, mid: u16) -> (r: Option<&[u8]>)
        requires
            self.wf(),
        ensures
            match r {
                Some(b) => self@.dedup.dom().contains(mid) && self@.dedup[mid].cached_response == Some(b@),
                None => !self@.dedup.dom().contains(mid) || self@.dedup[mid].cached_response is None,
            },
    {
        match self.inbound_dedup.get(&mid) {
            Some(e) => match &e.cached_response {
                Some(b) => Some(b.as_slice()),
                None => None,
            },
            None => None,
        }
    }

    /// Hands out the deliveries recorded so far and forgets them.
    pub fn take_deliveries(&mut self) -> (r: Vec<Delivery>)
        ensures
            r@ == old(self)@.deliveries,
            final(self)@ == (SessionView { deliveries: Seq::empty(), ..old(self)@ }),
            final(self).wf() == old(self).wf(),
    {
        let mut r: Vec<Delivery> = Vec::new();
        std::mem::swap(&mut r, &mut self.deliveries);
        assert(self@.deliveries =~= Seq::<Delivery>::empty());
        r
    }

    /// The soonest deadline across all exchanges: a pending retransmission,
    /// or else the exchange's expiry.
    pub fn next_retransmit_deadline(&self) -> (r: Option<u64>)
        ensures
            r == soonest_deadline(self@.exchanges),
    {
        let mut best: Option<u64> = None;
        let mut i: usize = 0;
        let ghost s = self@.exchanges;
        while i < self.exchanges.len()
            invariant
                i <= s.len(),
                s == self@.exchanges,
                s.len() == self.exchanges.entries().len(),
                best == soonest_deadline(s.take(i as int)),
            decreases s.len() - i,
        {
            let e = &self.exchanges.entry_at(i).1;
            proof {
                lemma_entry_view(self.exchanges.entries(), i as int);
                assert(s.take(i + 1).drop_last() =~= s.take(i as int));
                assert(s.take(i + 1).last() == s[i as int]);
            }
            let d = match e.retransmit_deadline() {
                Some(d) => d,
                None => match e.expiry_deadline() {
                    Some(d) => d,
                    None => 0,
                },
            };
            best = match best {
                Some(f) => Some(if f <= d { f } else { d }),
                None => Some(d),
            };
            i = i + 1;
        }
        assert(s.take(s.len() as int) =~= s);
        best
    }

    /// Runs the retransmission timer at `now` over the exchanges, in order:
    /// a due retransmission is re-sent (its bytes are returned) while fewer
    /// than `MAX_RETRANSMIT` were sent; an exchange that ran out of
    /// retransmissions, or with nothing pending whose lifetime has passed, is
    /// removed with its message ID index entry and failed with a timeout.
    pub fn collect_retransmissions(&mut self, now: u64) -> (r: Vec<Vec<u8>>)
        requires
            old(self).wf(),
            now + MAX_BACKOFF_MS <= u64::MAX,
        ensures
            final(self).wf(),
            final(self)@.exchanges == timer_kept(old(self)@.exchanges, now),
            r@.map_values(|b: Vec<u8>| b@) == timer_resent(old(self)@.exchanges, now),
            final(self)@.mid_to_token == old(self)@.mid_to_token.remove_keys(
                timer_expired_mids(old(self)@.exchanges, now)),
            final(self)@.deliveries.len() >= old(self)@.deliveries.len(),
            final(self)@.deliveries.take(old(self)@.deliveries.len() as int) == old(self)@.deliveries,
            timeout_deliveries(final(self)@.deliveries.skip(old(self)@.deliveries.len() as int),
                timer_expired(old(self)@.exchanges, now)),
            final(self)@.peer == old(self)@.peer,
            final(self)@.dedup == old(self)@.dedup,
            final(self)@.next_mid == old(self)@.next_mid,
            final(self)@.next_token == old(self)@.next_token,
    {
        let ghost s = old(self)@.exchanges;
        let ghost d0 = old(self)@.deliveries;
        let ghost m0 = old(self)@.mid_to_token;
        let mut table: Table<Vec<u8>, Exchange> = Table::new();
        std::mem::swap(&mut table, &mut self.exchanges);
        let ghost s0 = table.entries();
        let mut rest = table.into_entries();
        let mut kept: Vec<(Vec<u8>, Exchange)> = Vec::new();
        let mut resent: Vec<Vec<u8>> = Vec::new();
        let n = rest.len();
        let mut i: usize = 0;
        proof {
            assert(s.take(0) =~= Seq::<(Seq<u8>, ExchangeView)>::empty());
            assert(m0.remove_keys(Set::empty()) =~= m0);
            assert(self.deliveries@.take(d0.len() as int) =~= d0);
            assert(self.deliveries@.skip(d0.len() as int) =~= Seq::<Delivery>::empty());
            assert(resent@.map_values(|b: Vec<u8>| b@) =~= Seq::<Seq<u8>>::empty());
            assert(entry_views(kept@) =~= Seq::<(Seq<u8>, ExchangeView)>::empty());
        }
        while i < n
            invariant
                n == s0.len(),
                i <= n,
                s == entry_views(s0),
                keys_distinct(s0),
                forall|j: int| 0 <= j < s0.len() ==> (#[trigger] s0[j]).1.wf(),
                rest@ == s0.subrange(i as int, n as int),
                entry_views(kept@) == timer_kept(s.take(i as int), now),
                keys_distinct(kept@),
                forall|a: int, j: int| #![trigger kept@[a], s0[j]]
                    0 <= a < kept@.len() && i <= j < n ==> kept@[a].0.key() != s0[j].0.key(),
                forall|a: int| 0 <= a < kept@.len() ==> (#[trigger] kept@[a]).1.wf(),
                resent@.map_values(|b: Vec<u8>| b@) == timer_resent(s.take(i as int), now),
                self.mid_to_token.wf(),
                self@.mid_to_token == m0.remove_keys(timer_expired_mids(s.take(i as int), now)),
                self@.deliveries.len() >= d0.len(),
                self@.deliveries.take(d0.len() as int) == d0,
                timeout_deliveries(self@.deliveries.skip(d0.len() as int), timer_expired(s.take(i as int), now)),
                self.peer == old(self).peer,
                self.inbound_dedup == old(self).inbound_dedup,
                self.mid_allocator == old(self).mid_allocator,
                self.token_allocator == old(self).token_allocator,
                now + MAX_BACKOFF_MS <= u64::MAX,
            decreases n - i,
        {
            let ghost ks = kept@;
            let ghost rs = resent@;
            let ghost dl = self@.deliveries;
            let ghost mt = self@.mid_to_token;
            let (token, mut exchange) = rest.remove(0);
            proof {
                assert(s0.subrange(i as int, n as int)[0] == s0[i as int]);
                assert(rest@ =~= s0.subrange(i + 1, n as int));
                lemma_entry_view(s0, i as int);
                assert(s.take(i + 1).drop_last() =~= s.take(i as int));
                assert(s.take(i + 1).last() == s[i as int]);
                assert(exchange@ == s[i as int].1);
                assert(token@ == s[i as int].0);
                assert(exchange.wf());
            }
            let ghost e0 = exchange@;
            if exchange.needs_retransmit(now) {
                match exchange.advance_retransmit(now) {
                    Some(bytes) => {
                        resent.push(bytes);
                        kept.push((token, exchange));
                        proof {
                            assert(resent@.map_values(|b: Vec<u8>| b@) =~= rs.map_values(|b: Vec<u8>| b@).push(bytes@));
                            assert(entry_views(kept@) =~= entry_views(ks).push((token@, exchange@)));
                        }
                    },
                    None => {
                        self.expire(token, exchange);
                        proof {
                            self.lemma_expire_step(dl, mt, d0, m0, s.take(i as int), s.take(i + 1), now);
                        }
                    },
                }
            } else if exchange.is_expired(now) {
                self.expire(token, exchange);
                proof {
                    self.lemma_expire_step(dl, mt, d0, m0, s.take(i as int), s.take(i + 1), now);
                }
            } else {
                kept.push((token, exchange));
                proof {
                    assert(entry_views(kept@) =~= entry_views(ks).push((token@, exchange@)));
                }
            }
            proof {
                assert forall|a: int, j: int| #![trigger kept@[a], s0[j]]
                    0 <= a < kept@.len() && i + 1 <= j < n implies kept@[a].0.key() != s0[j].0.key() by {
                    if a < ks.len() {
                        assert(kept@[a] == ks[a]);
                    } else {
                        assert(kept@[a].0.key() == s0[i as int].0.key());
                    }
                }
                assert forall|a: int, b: int| 0 <= a < kept@.len() && 0 <= b < kept@.len() && a != b
                    implies kept@[a].0.key() != kept@[b].0.key() by {
                    if a < ks.len() && b < ks.len() {
                        assert(kept@[a] == ks[a]);
                        assert(kept@[b] == ks[b]);
                    } else if a < ks.len() {
                        assert(kept@[a] == ks[a]);
                        assert(kept@[b].0.key() == s0[i as int].0.key());
                    } else {
                        assert(kept@[b] == ks[b]);
                        assert(kept@[a].0.key() == s0[i as int].0.key());
                    }
                }
                assert forall|a: int| 0 <= a < kept@.len() implies (#[trigger] kept@[a]).1.wf() by {
                    if a < ks.len() {
                        assert(kept@[a] == ks[a]);
                    }
                }
            }
            i = i + 1;
        }
        proof {
            assert(s.take(n as int) =~= s);
        }
        self.exchanges = Table::from_entries(kept);
        resent
    }

    /// One failed exchange keeps the timer's account of the message ID index
    /// and the deliveries.
    proof fn lemma_expire_step(&self, dl: Seq<Delivery>, mt: Map<u16, Seq<u8>>, d0: Seq<Delivery>,
        m0: Map<u16, Seq<u8>>, pre: Seq<(Seq<u8>, ExchangeView)>, cur: Seq<(Seq<u8>, ExchangeView)>, now: u64)
        requires
            cur.len() == pre.len() + 1,
            cur.drop_last() == pre,
            timer_step(cur.last().1, now) == TimerStep::Expire(exchange_retransmit_count(cur.last().1)),
            dl.len() >= d0.len(),
            dl.take(d0.len() as int) == d0,
            timeout_deliveries(dl.skip(d0.len() as int), timer_expired(pre, now)),
            mt == m0.remove_keys(timer_expired_mids(pre, now)),
            self@.deliveries == dl.push(self@.deliveries.last()),
            delivery_for(self@.deliveries.last(), cur.last().1,
                Err(TransportError::Timeout { retransmits: exchange_retransmit_count(cur.last().1) })),
            self@.mid_to_token == (match cur.last().1.message_id {
                Some(m) => mt.remove(m),
                None => mt,
            }),
        ensures
            self@.deliveries.len() >= d0.len(),
            self@.deliveries.take(d0.len() as int) == d0,
            timeout_deliveries(self@.deliveries.skip(d0.len() as int), timer_expired(cur, now)),
            self@.mid_to_token == m0.remove_keys(timer_expired_mids(cur, now)),
    {
        let ds = self@.deliveries;
        assert(ds.take(d0.len() as int) =~= dl.take(d0.len() as int));
        assert(ds.skip(d0.len() as int) =~= dl.skip(d0.len() as int).push(ds.last()));
        assert(timer_expired(cur, now) == timer_expired(pre, now).push((cur.last().1,
            exchange_retransmit_count(cur.last().1))));
        let tail = ds.skip(d0.len() as int);
        let ex = timer_expired(cur, now);
        assert forall|j: int| 0 <= j < tail.len() implies delivery_for(#[trigger] tail[j], ex[j].0,
            Err(TransportError::Timeout { retransmits: ex[j].1 })) by {
            if j < tail.len() - 1 {
                assert(tail[j] == dl.skip(d0.len() as int)[j]);
            }
        }
        match cur.last().1.message_id {
            Some(m) => {
                assert(m0.remove_keys(timer_expired_mids(cur, now)) =~= mt.remove(m));
            },
            None => {
                assert(timer_expired_mids(cur, now) == timer_expired_mids(pre, now));
            },
        }
    }

    /// Removes an exchange that timed out from the message ID index and
    /// records its timeout delivery.
    fn expire(&mut self, token: Vec<u8>, exchange: Exchange)
        requires
            old(self).mid_to_token.wf(),
        ensures
            final(self)@.mid_to_token == (match exchange@.message_id {
                Some(m) => old(self)@.mid_to_token.remove(m),
                None => old(self)@.mid_to_token,
            }),
            final(self)@.deliveries == old(self)@.deliveries.push(final(self)@.deliveries.last()),
            delivery_for(final(self)@.deliveries.last(), exchange@,
                Err(TransportError::Timeout { retransmits: exchange_retransmit_count(exchange@) })),
            final(self).exchanges == old(self).exchanges,
            final(self).mid_to_token.wf(),
            final(self).peer == old(self).peer,
            final(self).inbound_dedup == old(self).inbound_dedup,
            final(self).mid_allocator == old(self).mid_allocator,
            final(self).token_allocator == old(self).token_allocator,
    {
        if let Some(mid) = exchange.message_id() {
            self.mid_to_token.remove(&mid);
            assert(self@.mid_to_token =~= old(self)@.mid_to_token.remove(mid));
        }
        let count = exchange.retransmit_count();
        let d = exchange.fail(TransportError::Timeout { retransmits: count });
        self.deliveries.push(d);
    }

    /// Drops the dedup entries that are no longer fresh at `now`.
    pub fn evict_stale_dedup(&mut self, now: u64)
        requires
            old(self).wf(),
        ensures
            final(self).wf(),
            final(self)@ == (SessionView {
                dedup: old(self)@.dedup.restrict(
                    old(self)@.dedup.dom().filter(|m: u16| dedup_fresh(old(self)@.dedup[m].created, now)),
                ),
                ..old(self)@
            }),
    {
        let keys = self.inbound_dedup.keys();
        let ghost d0 = old(self)@.dedup;
        let mut i: usize = 0;
        assert(d0.restrict(d0.dom().filter(|m: u16|
            !(keys@.take(0).contains(m) && !dedup_fresh(d0[m].created, now)))) =~= d0);
        while i < keys.len()
            invariant
                self.wf(),
                i <= keys@.len(),
                forall|a: int, b: int| 0 <= a < keys@.len() && 0 <= b < keys@.len() && a != b ==> keys@[a] != keys@[b],
                forall|k: u16| d0.dom().contains(k) <==> keys@.contains(k),
                self@ == (SessionView {
                    dedup: d0.restrict(d0.dom().filter(|m: u16|
                        !(keys@.take(i as int).contains(m) && !dedup_fresh(d0[m].created, now)))),
                    ..old(self)@
                }),
            decreases keys@.len() - i,
        {
            let k = keys[i];
            let ghost before = self@.dedup;
            assert(keys@.contains(k));
            assert(before.dom().contains(k)) by {
                assert(!keys@.take(i as int).contains(k)) by {
                    if keys@.take(i as int).contains(k) {
                        let j = choose|j: int| 0 <= j < i && #[trigger] keys@.take(i as int)[j] == k;
                        assert(keys@[j] == k);
                    }
                }
            }
            let created = match self.inbound_dedup.get(&k) {
                Some(e) => {
                    assert(self@.dedup[k] == dedup_view(*e));
                    e.created
                },
                None => 0,
            };
            assert(self@.dedup[k] == d0[k]);
            assert(created == d0[k].created);
            assert(keys@.take(i + 1) =~= keys@.take(i as int).push(k));
            assert forall|m: u16| keys@.take(i + 1).contains(m) == (keys@.take(i as int).contains(m) || m == k) by {
                if keys@.take(i + 1).contains(m) {
                    let j = choose|j: int| 0 <= j < i + 1 && #[trigger] keys@.take(i + 1)[j] == m;
                    if j < i {
                        assert(keys@.take(i as int)[j] == m);
                    }
                }
                if keys@.take(i as int).contains(m) {
                    let j = choose|j: int| 0 <= j < i && #[trigger] keys@.take(i as int)[j] == m;
                    assert(keys@.take(i + 1)[j] == m);
                }
                if m == k {
                    assert(keys@.take(i + 1)[i as int] == m);
                }
            }
            if !(now < created || now - created < EXCHANGE_LIFETIME_MS) {
                self.inbound_dedup.remove(&k);
                assert(self@.dedup =~= before.remove(k));
            }
            i = i + 1;
            assert(self@.dedup =~= d0.restrict(d0.dom().filter(|m: u16|
                !(keys@.take(i as int).contains(m) && !dedup_fresh(d0[m].created, now)))));
        }
        assert(keys@.take(keys@.len() as int) =~= keys@);
        assert(self@.dedup =~= d0.restrict(d0.dom().filter(|m: u16| dedup_fresh(d0[m].created, now))));
    }
}

/// An inbound message ID is remembered for `EXCHANGE_LIFETIME_MS` after it
/// was recorded: dropping stale entries at `now` keeps it exactly while
/// less time has passed.
pub proof fn law_dedup_entry_lifetime(d: Map<u16, DedupView>, mid: u16, now: u64)
    requires
        d.dom().contains(mid),
    ensures
        d.restrict(d.dom().filter(|m: u16| dedup_fresh(d[m].created, now))).dom().contains(mid)
            <==> now < d[mid].created + EXCHANGE_LIFETIME_MS,
{
}

/// Once an exchange is closed, no exchange with its token stays open.
pub proof fn law_closed_exchange_gone(
    s: SessionView,
    t: Seq<u8>,
    s2: SessionView,
    ok: spec_fn(Result<CoapResponse, TransportError>) -> bool,
)
    requires
        tokens_distinct(s.exchanges),
        exchange_closed(s, t, s2, ok),
    ensures
        find_token(s2.exchanges, t) is None,
{
    if let Some(i) = find_token(s.exchanges, t) {
        assert forall|j: int| 0 <= j < s2.exchanges.len() implies s2.exchanges[j].0 != t by {
            let oj = if j < i { j } else { j + 1 };
            assert(s2.exchanges[j] == s.exchanges[oj]);
        }
    }
}

/// A retransmission of `e` is due at `now` and may still be sent: fewer
/// than `MAX_RETRANSMIT` were sent so far.
pub open spec fn resend_due(e: ExchangeView, now: u64) -> bool {
    e.retransmit is Some && now >= e.retransmit->0.next_retransmit
        && e.retransmit->0.retransmit_count < MAX_RETRANSMIT
}

/// The timer fails `e` at `now`: a retransmission is due but
/// `MAX_RETRANSMIT` were sent already, or none is due and the exchange's
/// lifetime has passed.
pub open spec fn timer_fails(e: ExchangeView, now: u64) -> bool {
    if e.retransmit is Some && now >= e.retransmit->0.next_retransmit {
        e.retransmit->0.retransmit_count >= MAX_RETRANSMIT
    } else {
        now >= e.expires_at
    }
}

/// `e` after the timer ran at `now`, if it was not failed: a due
/// retransmission advanced (one more sent, the timeout doubled, the next
/// deadline at `now` plus the doubled timeout); otherwise unchanged.
pub open spec fn timer_after(e: ExchangeView, now: u64) -> ExchangeView {
    if resend_due(e, now) {
        ExchangeView { retransmit: Some(advanced(e.retransmit->0, now)), ..e }
    } else {
        e
    }
}

/// Entries whose retransmission is due at `now`.
pub open spec fn entry_resends(now: u64) -> spec_fn((Seq<u8>, ExchangeView)) -> bool {
    |p: (Seq<u8>, ExchangeView)| resend_due(p.1, now)
}

/// Entries the timer fails at `now`.
pub open spec fn entry_fails(now: u64) -> spec_fn((Seq<u8>, ExchangeView)) -> bool {
    |p: (Seq<u8>, ExchangeView)| timer_fails(p.1, now)
}

/// Entries the timer keeps at `now`.
pub open spec fn entry_stays(now: u64) -> spec_fn((Seq<u8>, ExchangeView)) -> bool {
    |p: (Seq<u8>, ExchangeView)| !timer_fails(p.1, now)
}

/// The bytes given for an entry's retransmission.
pub open spec fn entry_bytes() -> spec_fn((Seq<u8>, ExchangeView)) -> Seq<u8> {
    |p: (Seq<u8>, ExchangeView)| p.1.retransmit->0.packet_bytes
}

/// A failed entry's exchange with the retransmissions it sent.
pub open spec fn entry_failure() -> spec_fn((Seq<u8>, ExchangeView)) -> (ExchangeView, u32) {
    |p: (Seq<u8>, ExchangeView)| (p.1, exchange_retransmit_count(p.1))
}

/// A kept entry after the timer ran at `now`.
pub open spec fn entry_after(now: u64) -> spec_fn((Seq<u8>, ExchangeView)) -> (Seq<u8>, ExchangeView) {
    |p: (Seq<u8>, ExchangeView)| (p.0, timer_after(p.1, now))
}

/// What the timer does to one exchange, by case: a due retransmission is
/// re-sent with the bytes it was made with, a failure carries the
/// retransmissions sent, and neither leaves the exchange as it was.
proof fn lemma_timer_step_cases(e: ExchangeView, now: u64)
    ensures
        resend_due(e, now) ==> !timer_fails(e, now)
            && timer_step(e, now) == TimerStep::Resend(timer_after(e, now), e.retransmit->0.packet_bytes),
        timer_fails(e, now) ==> timer_step(e, now) == TimerStep::Expire(exchange_retransmit_count(e)),
        !resend_due(e, now) && !timer_fails(e, now) ==> timer_step(e, now) == TimerStep::Keep
            && timer_after(e, now) == e,
{
}

/// The retransmission timer re-sends exactly the exchanges whose
/// retransmission is due and that sent fewer than `MAX_RETRANSMIT`, each
/// with the bytes it was made with, in the order of the exchanges.
pub proof fn law_timer_resends_due(s: Seq<(Seq<u8>, ExchangeView)>, now: u64)
    ensures
        timer_resent(s, now) == s.filter(entry_resends(now)).map_values(entry_bytes()),
    decreases s.len(),
{
    if s.len() == 0 {
        reveal(Seq::filter);
        assert(s.filter(entry_resends(now)).map_values(entry_bytes()) =~= Seq::<Seq<u8>>::empty());
    } else {
        let d = s.drop_last();
        let x = s.last();
        law_timer_resends_due(d, now);
        lemma_timer_step_cases(x.1, now);
        assert(d.push(x) =~= s);
        d.lemma_filter_push(x, entry_resends(now));
        let f = d.filter(entry_resends(now));
        assert(f.push(x).map_values(entry_bytes()) =~= f.map_values(entry_bytes()).push(x.1.retransmit->0.packet_bytes));
    }
}

/// The retransmission timer fails exactly the exchanges that ran out of
/// retransmissions or outlived their lifetime with nothing due, each with
/// the retransmissions it sent, in the order of the exchanges; their
/// message IDs are exactly the ones it drops from the index.
pub proof fn law_timer_fails_expired(s: Seq<(Seq<u8>, ExchangeView)>, now: u64)
    ensures
        timer_expired(s, now) == s.filter(entry_fails(now)).map_values(entry_failure()),
        forall|m: u16| #[trigger] timer_expired_mids(s, now).contains(m) <==>
            exists|i: int| 0 <= i < s.len() && timer_fails(s[i].1, now) && s[i].1.message_id == Some(m),
    decreases s.len(),
{
    if s.len() == 0 {
        reveal(Seq::filter);
        assert(s.filter(entry_fails(now)).map_values(entry_failure()) =~= Seq::<(ExchangeView, u32)>::empty());
    } else {
        let d = s.drop_last();
        let x = s.last();
        law_timer_fails_expired(d, now);
        lemma_timer_step_cases(x.1, now);
        assert(d.push(x) =~= s);
        d.lemma_filter_push(x, entry_fails(now));
        let f = d.filter(entry_fails(now));
        assert(f.push(x).map_values(entry_failure()) =~= f.map_values(entry_failure()).push((x.1, exchange_retransmit_count(x.1))));
        assert forall|m: u16| #[trigger] timer_expired_mids(s, now).contains(m) <==>
            exists|i: int| 0 <= i < s.len() && timer_fails(s[i].1, now) && s[i].1.message_id == Some(m) by {
            let last = s.len() - 1;
            if timer_expired_mids(d, now).contains(m) {
                let i = choose|i: int| 0 <= i < d.len() && timer_fails(d[i].1, now) && d[i].1.message_id == Some(m);
                assert(s[i] == d[i]);
            }
            if timer_fails(x.1, now) && x.1.message_id == Some(m) {
                assert(s[last] == x);
            }
            if exists|i: int| 0 <= i < s.len() && timer_fails(s[i].1, now) && s[i].1.message_id == Some(m) {
                let i = choose|i: int| 0 <= i < s.len() && timer_fails(s[i].1, now) && s[i].1.message_id == Some(m);
                if i < last {
                    assert(d[i] == s[i]);
                    assert(timer_expired_mids(d, now).contains(m));
                }
            }
        }
    }
}

/// The retransmission timer keeps exactly the exchanges it does not fail,
/// in order and under their tokens, each as `timer_after` says: a re-sent
/// one with one more retransmission, its timeout doubled and its next
/// deadline at `now` plus the doubled timeout; any other unchanged.
pub proof fn law_timer_keeps_the_rest(s: Seq<(Seq<u8>, ExchangeView)>, now: u64)
    ensures
        timer_kept(s, now) == s.filter(entry_stays(now)).map_values(entry_after(now)),
    decreases s.len(),
{
    if s.len() == 0 {
        reveal(Seq::filter);
        assert(s.filter(entry_stays(now)).map_values(entry_after(now)) =~= Seq::<(Seq<u8>, ExchangeView)>::empty());
    } else {
        let d = s.drop_last();
        let x = s.last();
        law_timer_keeps_the_rest(d, now);
        lemma_timer_step_cases(x.1, now);
        assert(d.push(x) =~= s);
        d.lemma_filter_push(x, entry_stays(now));
        let f = d.filter(entry_stays(now));
        assert(f.push(x).map_values(entry_after(now)) =~= f.map_values(entry_after(now)).push((x.0, timer_after(x.1, now))));
    }
}

/// An exchange is never both re-sent and failed by one run of the timer,
/// and one with no retransmission due whose lifetime has not passed is
/// left exactly as it was.
pub proof fn law_timer_idle_exchange_kept(e: ExchangeView, now: u64)
    ensures
        !(resend_due(e, now) && timer_fails(e, now)),
        !(e.retransmit is Some && now >= e.retransmit->0.next_retransmit) && now < e.expires_at
            ==> timer_step(e, now) == TimerStep::Keep && timer_after(e, now) == e && !timer_fails(e, now),
{
}

} // verus!
