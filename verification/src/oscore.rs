//! OSCORE (RFC 8613) around the crypto: which security context belongs to
//! a peer, which request ID belongs to a token, and how the protected
//! ("outer") message is put together from what the crypto wrote.

use vstd::prelude::*;
use crate::exchange::PeerAddr;
use crate::table::{Table, TableKey};
use crate::wire::{Message, coap_decode, message_parts, header_written, header_read};
use crate::codes::{message_type_bits, code_of_class};

verus! {

/// Errors of the OSCORE layer.
#[derive(Debug, Clone, Copy, PartialEq, Eq, Structural)]
pub enum OscoreError {
    /// No security context exists for the peer.
    ContextNotFound,
    /// No request ID is recorded for the token.
    RequestNotFound,
    /// The crypto failed to protect or unprotect.
    ProtectFailed,
    /// The message could not be encoded.
    PacketEncodingFailed,
    /// The protected message could not be decoded.
    PacketDecodingFailed,
}

/// Request IDs by token, for one direction of a security context.
pub struct RequestIds<R> {
    ids: Table<Vec<u8>, R>,
}

impl<R> View for RequestIds<R> {
    type V = Map<Seq<u8>, R>;

    closed spec fn view(&self) -> Map<Seq<u8>, R> {
        self.ids@
    }
}

impl<R> RequestIds<R> {
    /// The table's invariant.
    pub closed spec fn wf(&self) -> bool {
        self.ids.wf()
    }

    /// No request ID recorded.
    pub fn new() -> (r: Self)
        ensures
            r.wf(),
            r@ == Map::<Seq<u8>, R>::empty(),
    {
        RequestIds { ids: Table::new() }
    }

    /// Records `id` for `token`, replacing an earlier one.
    pub fn record(&mut self, token: Vec<u8>, id: R)
        requires
            old(self).wf(),
        ensures
            final(self).wf(),
            final(self)@ == old(self)@.insert(token@, id),
    {
        self.ids.insert(token, id);
    }

    /// The request ID recorded for `token`; `RequestNotFound` when there is
    /// none.
    pub fn lookup(&self, token: &[u8]) -> (r: Result<&R, OscoreError>)
        requires
            self.wf(),
        ensures
            self@.dom().contains(token@) ==> (r matches Ok(id) && *id == self@[token@]),
            !self@.dom().contains(token@) ==> r == Err::<&R, OscoreError>(OscoreError::RequestNotFound),
    {
        let key = crate::message::copy_bytes(token);
        match self.ids.get(&key) {
            Some(id) => Ok(id),
            None => Err(OscoreError::RequestNotFound),
        }
    }
}

/// Security contexts by peer.
pub struct ContextStore<C> {
    contexts: Table<PeerAddr, C>,
}

impl<C> View for ContextStore<C> {
    type V = Map<PeerAddr, C>;

    closed spec fn view(&self) -> Map<PeerAddr, C> {
        self.contexts@
    }
}

impl<C> ContextStore<C> {
    /// The store's invariant.
    pub closed spec fn wf(&self) -> bool {
        self.contexts.wf()
    }

    /// No context.
    pub fn new() -> (r: Self)
        ensures
            r.wf(),
            r@ == Map::<PeerAddr, C>::empty(),
    {
        ContextStore { contexts: Table::new() }
    }

    /// Stores the context of `peer`, replacing an earlier one.
    pub fn add(&mut self, peer: PeerAddr, ctx: C)
        requires
            old(self).wf(),
        ensures
            final(self).wf(),
            final(self)@ == old(self)@.insert(peer, ctx),
    {
        self.contexts.insert(peer, ctx);
    }

    /// The context of `peer`, to be used and updated in place;
    /// `ContextNotFound` when there is none.
    pub fn context_mut(&mut self, peer: &PeerAddr) -> (r: Result<&mut C, OscoreError>)
        requires
            old(self).wf(),
        ensures
            final(self).wf(),
            !old(self)@.dom().contains(*peer) ==> r == Err::<&mut C, OscoreError>(OscoreError::ContextNotFound)
                && final(self)@ == old(self)@,
            old(self)@.dom().contains(*peer) ==> r is Ok,
            r matches Ok(c) ==> *c == old(self)@[*peer],
            r matches Ok(c) ==> final(self)@ == old(self)@.insert(*peer, *final(c)),
    {
        match self.contexts.find(peer) {
            Some(i) => {
                proof {
                    crate::table::lemma_entries_index(self.contexts.entries(), i as int);
                    self.contexts.lemma_view_entries();
                }
                Ok(self.contexts.value_mut_at(i))
            },
            None => Err(OscoreError::ContextNotFound),
        }
    }
}

/// The protected message: the header of `m` with the code the crypto chose,
/// `m`'s token, then the options and payload the crypto wrote.
pub open spec fn outer_bytes(m: Message, outer_code: u8, body: Seq<u8>) -> Seq<u8> {
    seq![
        (0x40 + message_type_bits(m.message_type) * 16 + m.token@.len()) as u8,
        outer_code,
        (m.message_id / 256) as u8,
        (m.message_id % 256) as u8,
    ] + m.token@ + body
}

/// The protected message's bytes are the 4-byte header of `m` with the outer
/// code (version 1, `m`'s type and token length; the code; `m`'s message ID,
/// big-endian), then `m`'s token, then all of `body`, nothing cut or added.
pub proof fn law_outer_bytes_layout(m: Message, outer_code: u8, body: Seq<u8>)
    requires
        m.token@.len() <= 15,
    ensures
        outer_bytes(m, outer_code, body).len() == 4 + m.token@.len() + body.len(),
        outer_bytes(m, outer_code, body)[0] == 0x40 + message_type_bits(m.message_type) * 16 + m.token@.len(),
        outer_bytes(m, outer_code, body)[1] == outer_code,
        outer_bytes(m, outer_code, body)[2] as int * 256 + outer_bytes(m, outer_code, body)[3] as int == m.message_id,
        outer_bytes(m, outer_code, body).subrange(4, 4 + m.token@.len() as int) == m.token@,
        outer_bytes(m, outer_code, body).skip(4 + m.token@.len() as int) == body,
{
    let b = outer_bytes(m, outer_code, body);
    let n = m.token@.len() as int;
    assert(b.subrange(4, 4 + n) =~= m.token@);
    assert(b.skip(4 + n) =~= body);
    let mid = m.message_id;
    assert((mid / 256) as u8 * 256 + (mid % 256) as u8 == mid as int);
}

/// A message decoded from `outer_bytes(m, outer_code, body)` has `m`'s type,
/// message ID and token and the outer code.
proof fn lemma_outer_header(m: Message, outer_code: u8, body: Seq<u8>, outer: Message)
    requires
        m.token@.len() <= 15,
        header_read(outer_bytes(m, outer_code, body), message_parts(outer)),
    ensures
        outer.message_type == m.message_type,
        outer.message_id == m.message_id,
        outer.token@ == m.token@,
        code_of_class(outer.code) == outer_code,
{
    let b = outer_bytes(m, outer_code, body);
    let t = message_type_bits(m.message_type);
    let n = m.token@.len();
    let b0: u8 = (0x40 + t * 16 + n) as u8;
    assert(b[0] == b0);
    assert(b0 / 16 % 4 == t && b0 % 16 == n) by (nonlinear_arith)
        requires b0 == 0x40 + t * 16 + n, t < 4, n <= 15;
    assert(b.subrange(4, 4 + n as int) =~= m.token@);
    let mid = m.message_id;
    assert((mid / 256) as u8 * 256 + (mid % 256) as u8 == mid as int);
    assert(message_type_bits(outer.message_type) == t);
}

/// Puts the protected message together from `m` (the message protected),
/// the outer code and the body the crypto wrote, and decodes it; fails with
/// `PacketDecodingFailed` when coap-lite cannot decode the result, which is
/// always so for a token longer than 8 bytes. The protected message keeps
/// `m`'s type, message ID and token and carries the outer code.
pub fn assemble_outer(m: &Message, outer_code: u8, body: &[u8]) -> (r: Result<Message, OscoreError>)
    requires
        m.token@.len() <= 15,
    ensures
        coap_decode(outer_bytes(*m, outer_code, body@)) is None
            ==> r == Err::<Message, OscoreError>(OscoreError::PacketDecodingFailed),
        coap_decode(outer_bytes(*m, outer_code, body@)) matches Some(p)
            ==> (r matches Ok(outer) && message_parts(outer) == p),
        m.token@.len() > 8 ==> r == Err::<Message, OscoreError>(OscoreError::PacketDecodingFailed),
        r matches Ok(outer) ==> {
            &&& outer.message_type == m.message_type
            &&& outer.message_id == m.message_id
            &&& outer.token@ == m.token@
            &&& code_of_class(outer.code) == outer_code
        },
{
    let mut wire: Vec<u8> = Vec::new();
    let tkl = m.token.len() as u8;
    let t = m.message_type.bits();
    wire.push(0x40 + t * 16 + tkl);
    wire.push(outer_code);
    wire.push((m.message_id / 256) as u8);
    wire.push((m.message_id % 256) as u8);
    let mut i: usize = 0;
    let ghost head = wire@;
    while i < m.token.len()
        invariant
            i <= m.token@.len(),
            wire@ == head + m.token@.take(i as int),
        decreases m.token@.len() - i,
    {
        wire.push(m.token[i]);
        assert(m.token@.take(i + 1) =~= m.token@.take(i as int).push(m.token@[i as int]));
        i = i + 1;
    }
    let mut j: usize = 0;
    let ghost mid = wire@;
    while j < body.len()
        invariant
            j <= body@.len(),
            wire@ == mid + body@.take(j as int),
        decreases body@.len() - j,
    {
        wire.push(body[j]);
        assert(body@.take(j + 1) =~= body@.take(j as int).push(body@[j as int]));
        j = j + 1;
    }
    proof {
        assert(m.token@.take(m.token@.len() as int) =~= m.token@);
        assert(body@.take(body@.len() as int) =~= body@);
        assert(wire@ =~= outer_bytes(*m, outer_code, body@));
    }
    match Message::decode(wire.as_slice()) {
        Some(outer) => {
            proof {
                lemma_outer_header(*m, outer_code, body@, outer);
            }
            Ok(outer)
        },
        None => Err(OscoreError::PacketDecodingFailed),
    }
}

} // verus!
