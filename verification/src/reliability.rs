//! Transmission parameters of RFC 7252 §4.8, message ID and token
//! allocation, and the retransmission state of one confirmable exchange.
//!
//! Time is counted in milliseconds of a monotonic clock.

use vstd::prelude::*;

verus! {

/// ACK_TIMEOUT: the least initial retransmission timeout (2 s).
pub const ACK_TIMEOUT_MS: u64 = 2000;

/// ACK_TIMEOUT * ACK_RANDOM_FACTOR (2 s * 1.5): the greatest initial
/// retransmission timeout.
pub const ACK_TIMEOUT_MAX_MS: u64 = 3000;

/// MAX_RETRANSMIT: retransmissions of a confirmable message before its
/// exchange fails.
pub const MAX_RETRANSMIT: u32 = 4;

/// MAX_LATENCY (100 s).
pub const MAX_LATENCY_MS: u64 = 100_000;

/// EXCHANGE_LIFETIME (247 s): how long a message ID is remembered for
/// deduplication, and how long a confirmable exchange stays open.
pub const EXCHANGE_LIFETIME_MS: u64 = 247_000;

/// NON_LIFETIME (145 s): how long a non-confirmable exchange waits for its
/// response.
pub const NON_LIFETIME_MS: u64 = 145_000;

/// Interval between sweeps that drop idle peer sessions.
pub const IDLE_SESSION_CLEANUP_INTERVAL_SECS: u64 = 30;

/// The greatest retransmission timeout an exchange can reach:
/// `ACK_TIMEOUT_MAX_MS * 2^MAX_RETRANSMIT`.
pub const MAX_BACKOFF_MS: u64 = 48_000;

/// The greatest timeout allowed after `count` doublings of a timeout that
/// started in `[ACK_TIMEOUT_MS, ACK_TIMEOUT_MAX_MS]`.
pub open spec fn backoff_cap(count: nat) -> nat
    decreases count,
{
    if count == 0 {
        ACK_TIMEOUT_MAX_MS as nat
    } else {
        2 * backoff_cap((count - 1) as nat)
    }
}

/// `backoff_cap` never exceeds `MAX_BACKOFF_MS` within `MAX_RETRANSMIT`
/// doublings.
pub proof fn lemma_backoff_cap_bounded(count: nat)
    requires
        count <= MAX_RETRANSMIT,
    ensures
        backoff_cap(count) <= MAX_BACKOFF_MS,
        count < MAX_RETRANSMIT ==> 2 * backoff_cap(count) <= MAX_BACKOFF_MS,
{
    reveal_with_fuel(backoff_cap, 6);
}

/// Calls `rand::random::<u16>()`: a uniformly random `u16`. Nothing more is
/// stated: the value is chance.
#[verifier::external_body]
fn random_u16() -> (r: u16) {
    rand::random::<u16>()
}

/// Calls `rand::random::<u32>()`: a uniformly random `u32`. Nothing more is
/// stated: the value is chance.
#[verifier::external_body]
fn random_u32() -> (r: u32) {
    rand::random::<u32>()
}

/// Calls `rand::random_range(lo..=hi)`, which rand documents to return a
/// value of the inclusive range and to panic only when the range is empty.
#[verifier::external_body]
fn random_u64_between(lo: u64, hi: u64) -> (r: u64)
    requires
        lo <= hi,
    ensures
        lo <= r <= hi,
{
    rand::random_range(lo..=hi)
}

/// A random initial ACK timeout in `[ACK_TIMEOUT_MS, ACK_TIMEOUT_MAX_MS]`
/// milliseconds.
pub fn random_ack_timeout() -> (r: u64)
    ensures
        ACK_TIMEOUT_MS <= r <= ACK_TIMEOUT_MAX_MS,
{
    random_u64_between(ACK_TIMEOUT_MS, ACK_TIMEOUT_MAX_MS)
}

/// The value that follows `x` on a counter that wraps from `u16::MAX` to 0.
pub open spec fn wrapping_next_u16(x: u16) -> u16 {
    if x == u16::MAX { 0 } else { (x + 1) as u16 }
}

/// The value that follows `x` on a counter that wraps from `u32::MAX` to 0.
pub open spec fn wrapping_next_u32(x: u32) -> u32 {
    if x == u32::MAX { 0 } else { (x + 1) as u32 }
}

/// Per-peer message ID allocator: a wrapping `u16` counter with a random
/// start.
pub struct MessageIdAllocator {
    /// The message ID that the next call of `allocate` hands out.
    pub next: u16,
}

impl MessageIdAllocator {
    /// An allocator whose first message ID is random.
    pub fn new() -> (r: Self) {
        MessageIdAllocator { next: random_u16() }
    }

    /// Hands out the current message ID and advances the counter, wrapping
    /// from `u16::MAX` to 0.
    pub fn allocate(&mut self) -> (mid: u16)
        ensures
            mid == old(self).next,
            final(self).next == wrapping_next_u16(old(self).next),
    {
        let mid = self.next;
        self.next = self.next.wrapping_add(1);
        mid
    }
}

/// The token bytes that stand for counter value `n`: its four bytes,
/// most significant first.
pub open spec fn token_bytes(n: u32) -> Seq<u8> {
    seq![(n / 0x100_0000) as u8, ((n / 0x1_0000) % 0x100) as u8, ((n / 0x100) % 0x100) as u8, (n % 0x100) as u8]
}

/// Two counter values give the same token only when they are equal.
pub proof fn lemma_token_bytes_injective(a: u32, b: u32)
    ensures
        token_bytes(a) == token_bytes(b) ==> a == b,
{
    if token_bytes(a) == token_bytes(b) {
        assert(token_bytes(a)[0] == token_bytes(b)[0]);
        assert(token_bytes(a)[1] == token_bytes(b)[1]);
        assert(token_bytes(a)[2] == token_bytes(b)[2]);
        assert(token_bytes(a)[3] == token_bytes(b)[3]);
    }
}

/// Per-peer token allocator for outbound requests: a wrapping `u32` counter
/// with a random start, handed out as four big-endian bytes.
pub struct TokenAllocator {
    /// The counter value of the next token.
    pub next: u32,
}

impl TokenAllocator {
    /// An allocator whose first token is random.
    pub fn new() -> (r: Self) {
        TokenAllocator { next: random_u32() }
    }

    /// Hands out the token of the current counter value and advances the
    /// counter, wrapping from `u32::MAX` to 0.
    pub fn allocate(&mut self) -> (token: Vec<u8>)
        ensures
            token@ == token_bytes(old(self).next),
            final(self).next == wrapping_next_u32(old(self).next),
    {
        let n = self.next;
        let mut token: Vec<u8> = Vec::new();
        token.push((n / 0x100_0000) as u8);
        token.push(((n / 0x1_0000) % 0x100) as u8);
        token.push(((n / 0x100) % 0x100) as u8);
        token.push((n % 0x100) as u8);
        self.next = self.next.wrapping_add(1);
        assert(token@ =~= token_bytes(n));
        token
    }
}

/// The abstract state of a retransmission.
pub struct RetransmitView {
    pub packet_bytes: Seq<u8>,
    pub retransmit_count: u32,
    pub current_timeout: u64,
    pub next_retransmit: u64,
}

/// Retransmission state for a single confirmable exchange.
pub struct RetransmitState {
    /// Serialized packet bytes, ready to re-send.
    packet_bytes: Vec<u8>,
    /// How many retransmissions have been sent (0 after the initial send).
    retransmit_count: u32,
    /// Current timeout before the next retransmission (doubles each time).
    current_timeout: u64,
    /// When the next retransmission is due.
    next_retransmit: u64,
}

impl View for RetransmitState {
    type V = RetransmitView;

    closed spec fn view(&self) -> RetransmitView {
        RetransmitView {
            packet_bytes: self.packet_bytes@,
            retransmit_count: self.retransmit_count,
            current_timeout: self.current_timeout,
            next_retransmit: self.next_retransmit,
        }
    }
}

impl RetransmitState {
    /// The state's invariant: at most `MAX_RETRANSMIT` retransmissions, and a
    /// timeout that has doubled once per retransmission from an initial value
    /// of at most `ACK_TIMEOUT_MAX_MS`.
    pub open spec fn wf(&self) -> bool {
        &&& self@.retransmit_count <= MAX_RETRANSMIT
        &&& ACK_TIMEOUT_MS <= self@.current_timeout
        &&& self@.current_timeout <= backoff_cap(self@.retransmit_count as nat)
    }

    /// A fresh state: no retransmission yet, a random initial timeout in
    /// `[ACK_TIMEOUT_MS, ACK_TIMEOUT_MAX_MS]`, due that long after `now`.
    pub fn new(packet_bytes: Vec<u8>, now: u64) -> (r: Self)
        requires
            now + ACK_TIMEOUT_MAX_MS <= u64::MAX,
        ensures
            r.wf(),
            r@.packet_bytes == packet_bytes@,
            r@.retransmit_count == 0,
            ACK_TIMEOUT_MS <= r@.current_timeout <= ACK_TIMEOUT_MAX_MS,
            r@.next_retransmit == now + r@.current_timeout,
    {
        let initial_timeout = random_ack_timeout();
        RetransmitState {
            packet_bytes,
            retransmit_count: 0,
            current_timeout: initial_timeout,
            next_retransmit: now + initial_timeout,
        }
    }

    /// Advances to the next retransmission: returns false, changing nothing,
    /// once `MAX_RETRANSMIT` retransmissions have been sent; otherwise counts
    /// one more, doubles the timeout and makes the next one due that long
    /// after `now`.
    pub fn advance(&mut self, now: u64) -> (ok: bool)
        requires
            old(self).wf(),
            now + MAX_BACKOFF_MS <= u64::MAX,
        ensures
            final(self).wf(),
            ok == (old(self)@.retransmit_count < MAX_RETRANSMIT),
            ok ==> final(self)@ == (RetransmitView {
                packet_bytes: old(self)@.packet_bytes,
                retransmit_count: (old(self)@.retransmit_count + 1) as u32,
                current_timeout: (2 * old(self)@.current_timeout) as u64,
                next_retransmit: (now + 2 * old(self)@.current_timeout) as u64,
            }),
            !ok ==> final(self)@ == old(self)@,
    {
        if self.retransmit_count >= MAX_RETRANSMIT {
            return false;
        }
        proof {
            lemma_backoff_cap_bounded(self.retransmit_count as nat);
        }
        self.retransmit_count = self.retransmit_count + 1;
        self.current_timeout = self.current_timeout * 2;
        self.next_retransmit = now + self.current_timeout;
        true
    }

    /// Retransmissions sent so far.
    pub fn retransmit_count(&self) -> (r: u32)
        ensures
            r == self@.retransmit_count,
    {
        self.retransmit_count
    }

    /// The current timeout in milliseconds.
    pub fn current_timeout(&self) -> (r: u64)
        ensures
            r == self@.current_timeout,
    {
        self.current_timeout
    }

    /// The serialized packet to re-send.
    pub fn packet_bytes(&self) -> (r: &[u8])
        ensures
            r@ == self@.packet_bytes,
    {
        self.packet_bytes.as_slice()
    }

    /// When the next retransmission is due.
    pub fn deadline(&self) -> (r: u64)
        ensures
            r == self@.next_retransmit,
    {
        self.next_retransmit
    }

    /// Whether the next retransmission is due at `now`.
    pub fn is_due(&self, now: u64) -> (r: bool)
        ensures
            r == (now >= self@.next_retransmit),
    {
        now >= self.next_retransmit
    }
}

/// Dedup entry for an inbound message ID.
pub struct DedupEntry {
    /// Cached response bytes for re-sending to a duplicate confirmable
    /// message.
    pub cached_response: Option<Vec<u8>>,
    /// When this entry was created.
    pub created: u64,
}

/// Two tokens allocated one after the other differ, and so do two message
/// IDs.
pub proof fn law_successive_allocations_differ(n: u32, mid: u16)
    ensures
        token_bytes(n) != token_bytes(wrapping_next_u32(n)),
        mid != wrapping_next_u16(mid),
{
    lemma_token_bytes_injective(n, wrapping_next_u32(n));
}

} // verus!
