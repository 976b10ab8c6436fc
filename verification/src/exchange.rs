//! One outstanding request of this endpoint, waiting for its response.

use vstd::prelude::*;
use crate::message::CoapResponse;
use crate::table::TableKey;
use crate::reliability::{
    RetransmitState, RetransmitView, ACK_TIMEOUT_MAX_MS, EXCHANGE_LIFETIME_MS, MAX_BACKOFF_MS,
    MAX_RETRANSMIT, NON_LIFETIME_MS,
};

verus! {

/// The address of a peer: an IP address (IPv4 addresses in the low 32
/// bits) and a UDP port.
#[derive(Debug, Clone, Copy, PartialEq, Eq, Structural, Hash)]
pub struct PeerAddr {
    pub ip: u128,
    pub ipv6: bool,
    pub port: u16,
}

impl TableKey for PeerAddr {
    type Spec = PeerAddr;

    open spec fn key(&self) -> PeerAddr {
        *self
    }

    fn same_key(&self, other: &Self) -> (r: bool) {
        self.ip == other.ip && self.ipv6 == other.ipv6 && self.port == other.port
    }
}

#[verifier::external_type_specification]
#[verifier::external_body]
pub struct ExIoError(std::io::Error);

/// Errors of the transport layer.
#[derive(Debug)]
pub enum TransportError {
    /// The socket failed.
    Io(std::io::Error),
    /// The endpoint's task has stopped.
    EndpointClosed,
    /// The peer answered the request with a reset.
    Reset,
    /// No response came in time; `retransmits` retransmissions were sent.
    Timeout { retransmits: u32 },
}

/// How an exchange ended, addressed to whoever waits for it.
pub struct Delivery {
    pub peer: PeerAddr,
    pub token: Vec<u8>,
    pub result: Result<CoapResponse, TransportError>,
}

/// The abstract state of an exchange.
pub struct ExchangeView {
    pub token: Seq<u8>,
    pub peer: PeerAddr,
    pub message_id: Option<u16>,
    pub retransmit: Option<RetransmitView>,
    pub expires_at: u64,
}

/// An outstanding request.
pub struct Exchange {
    token: Vec<u8>,
    peer: PeerAddr,
    /// Message ID of the outbound confirmable request; `None` for a
    /// non-confirmable one.
    message_id: Option<u16>,
    /// Retransmission state, present for a confirmable request until it is
    /// acknowledged.
    retransmit: Option<RetransmitState>,
    /// When the exchange gives up waiting for a response.
    expires_at: u64,
}

impl View for Exchange {
    type V = ExchangeView;

    closed spec fn view(&self) -> ExchangeView {
        ExchangeView {
            token: self.token@,
            peer: self.peer,
            message_id: self.message_id,
            retransmit: match self.retransmit {
                Some(r) => Some(r@),
                None => None,
            },
            expires_at: self.expires_at,
        }
    }
}

/// The state of a retransmission after it advanced at `now`.
pub open spec fn advanced(r: RetransmitView, now: u64) -> RetransmitView {
    RetransmitView {
        packet_bytes: r.packet_bytes,
        retransmit_count: (r.retransmit_count + 1) as u32,
        current_timeout: (2 * r.current_timeout) as u64,
        next_retransmit: (now + 2 * r.current_timeout) as u64,
    }
}

/// Retransmissions an exchange has sent.
pub open spec fn exchange_retransmit_count(e: ExchangeView) -> u32 {
    match e.retransmit {
        Some(r) => r.retransmit_count,
        None => 0,
    }
}

impl Exchange {
    /// The exchange's invariant: its retransmission state is well formed.
    pub closed spec fn wf(&self) -> bool {
        match self.retransmit {
            Some(r) => r.wf(),
            None => true,
        }
    }

    /// An exchange for a confirmable request with message ID `message_id`,
    /// whose encoded request is `packet_bytes`: its first retransmission is
    /// due after a random timeout in `[ACK_TIMEOUT_MS, ACK_TIMEOUT_MAX_MS]`,
    /// and it expires `EXCHANGE_LIFETIME_MS` after `now`.
    pub fn new_con(token: Vec<u8>, peer: PeerAddr, message_id: u16, packet_bytes: Vec<u8>, now: u64) -> (r: Self)
        requires
            now + EXCHANGE_LIFETIME_MS <= u64::MAX,
        ensures
            r.wf(),
            r@.token == token@,
            r@.peer == peer,
            r@.message_id == Some(message_id),
            r@.retransmit matches Some(rt) && rt.packet_bytes == packet_bytes@ && rt.retransmit_count == 0
                && crate::reliability::ACK_TIMEOUT_MS <= rt.current_timeout <= ACK_TIMEOUT_MAX_MS
                && rt.next_retransmit == now + rt.current_timeout,
            r@.expires_at == now + EXCHANGE_LIFETIME_MS,
    {
        Exchange {
            token,
            peer,
            message_id: Some(message_id),
            retransmit: Some(RetransmitState::new(packet_bytes, now)),
            expires_at: now + EXCHANGE_LIFETIME_MS,
        }
    }

    /// An exchange for a non-confirmable request: no message ID kept, no
    /// retransmission, expiring `NON_LIFETIME_MS` after `now`.
    pub fn new_non(token: Vec<u8>, peer: PeerAddr, now: u64) -> (r: Self)
        requires
            now + NON_LIFETIME_MS <= u64::MAX,
        ensures
            r.wf(),
            r@ == (ExchangeView {
                token: token@,
                peer,
                message_id: None,
                retransmit: None,
                expires_at: (now + NON_LIFETIME_MS) as u64,
            }),
    {
        Exchange { token, peer, message_id: None, retransmit: None, expires_at: now + NON_LIFETIME_MS }
    }

    /// The token.
    pub fn token(&self) -> (r: &[u8])
        ensures
            r@ == self@.token,
    {
        self.token.as_slice()
    }

    /// The peer.
    pub fn peer(&self) -> (r: PeerAddr)
        ensures
            r == self@.peer,
    {
        self.peer
    }

    /// The message ID of a confirmable request.
    pub fn message_id(&self) -> (r: Option<u16>)
        ensures
            r == self@.message_id,
    {
        self.message_id
    }

    /// Cancels retransmission (the request was acknowledged). The exchange
    /// stays open for a separate response.
    pub fn cancel_retransmission(&mut self)
        requires
            old(self).wf(),
        ensures
            final(self).wf(),
            final(self)@ == (ExchangeView { retransmit: None, ..old(self)@ }),
    {
        self.retransmit = None;
    }

    /// Whether a retransmission is pending and due at `now`.
    pub fn needs_retransmit(&self, now: u64) -> (r: bool)
        ensures
            r == (self@.retransmit matches Some(rt) && now >= rt.next_retransmit),
    {
        match &self.retransmit {
            Some(r) => r.is_due(now),
            None => false,
        }
    }

    /// Advances to the next retransmission and returns the bytes to re-send;
    /// `None`, changing nothing, when there is no retransmission state or
    /// `MAX_RETRANSMIT` retransmissions were sent already.
    pub fn advance_retransmit(&mut self, now: u64) -> (r: Option<Vec<u8>>)
        requires
            old(self).wf(),
            now + MAX_BACKOFF_MS <= u64::MAX,
        ensures
            final(self).wf(),
            match old(self)@.retransmit {
                Some(rt) => if rt.retransmit_count < MAX_RETRANSMIT {
                    &&& r matches Some(b) && b@ == rt.packet_bytes
                    &&& final(self)@ == (ExchangeView { retransmit: Some(advanced(rt, now)), ..old(self)@ })
                } else {
                    r is None && final(self)@ == old(self)@
                },
                None => r is None && final(self)@ == old(self)@,
            },
    {
        let mut state = match self.retransmit.take() {
            Some(s) => s,
            None => {
                return None;
            },
        };
        let ok = state.advance(now);
        let bytes = if ok {
            Some(crate::message::copy_bytes(state.packet_bytes()))
        } else {
            None
        };
        self.retransmit = Some(state);
        bytes
    }

    /// When the next retransmission is due, if one is pending.
    pub fn retransmit_deadline(&self) -> (r: Option<u64>)
        ensures
            r == (match self@.retransmit {
                Some(rt) => Some(rt.next_retransmit),
                None => None,
            }),
    {
        match &self.retransmit {
            Some(r) => Some(r.deadline()),
            None => None,
        }
    }

    /// Retransmissions sent so far (0 when none is tracked).
    pub fn retransmit_count(&self) -> (r: u32)
        ensures
            r == exchange_retransmit_count(self@),
    {
        match &self.retransmit {
            Some(r) => r.retransmit_count(),
            None => 0,
        }
    }

    /// When the exchange expires.
    pub fn expiry_deadline(&self) -> (r: Option<u64>)
        ensures
            r == Some(self@.expires_at),
    {
        Some(self.expires_at)
    }

    /// Whether the exchange has expired at `now`.
    pub fn is_expired(&self, now: u64) -> (r: bool)
        ensures
            r == (now >= self@.expires_at),
    {
        now >= self.expires_at
    }

    /// Delivers a response to the waiting caller. Consumes the exchange.
    pub fn complete(self, response: CoapResponse) -> (d: Delivery)
        ensures
            d.peer == self@.peer,
            d.token@ == self@.token,
            d.result == Ok::<CoapResponse, TransportError>(response),
    {
        Delivery { peer: self.peer, token: self.token, result: Ok(response) }
    }

    /// Fails the exchange with an error. Consumes the exchange.
    pub fn fail(self, error: TransportError) -> (d: Delivery)
        ensures
            d.peer == self@.peer,
            d.token@ == self@.token,
            d.result == Err::<CoapResponse, TransportError>(error),
    {
        Delivery { peer: self.peer, token: self.token, result: Err(error) }
    }
}

} // verus!
