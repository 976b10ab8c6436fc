use coapable::reliability::{
    random_ack_timeout, MessageIdAllocator, RetransmitState, TokenAllocator, ACK_TIMEOUT_MAX_MS, ACK_TIMEOUT_MS,
    MAX_RETRANSMIT,
};

#[test]
fn mid_allocator_wraps() {
    let mut alloc = MessageIdAllocator { next: u16::MAX - 1 };
    assert_eq!(alloc.allocate(), u16::MAX - 1);
    assert_eq!(alloc.allocate(), u16::MAX);
    assert_eq!(alloc.allocate(), 0);
    assert_eq!(alloc.allocate(), 1);
}

#[test]
fn random_ack_timeout_in_range() {
    for _ in 0..100 {
        let t = random_ack_timeout();
        assert!(t >= ACK_TIMEOUT_MS);
        assert!(t <= ACK_TIMEOUT_MAX_MS);
    }
}

#[test]
fn retransmit_state_backoff() {
    let now = 1_000;
    let mut state = RetransmitState::new(vec![1, 2, 3], now);

    let initial = state.current_timeout();
    assert!(initial >= ACK_TIMEOUT_MS);
    assert!(initial <= ACK_TIMEOUT_MAX_MS);
    assert_eq!(state.deadline(), now + initial);
    assert_eq!(state.packet_bytes(), &[1, 2, 3]);

    for i in 0..MAX_RETRANSMIT {
        assert!(state.advance(now), "advance should succeed at count {}", i);
        assert_eq!(state.retransmit_count(), i + 1);
        assert_eq!(state.current_timeout(), initial << (i + 1));
        assert_eq!(state.deadline(), now + (initial << (i + 1)));
    }

    assert!(!state.advance(now));
    assert_eq!(state.retransmit_count(), MAX_RETRANSMIT);
}

#[test]
fn retransmit_state_is_due_at_deadline() {
    let state = RetransmitState::new(vec![9], 0);
    let d = state.deadline();
    assert!(!state.is_due(d - 1));
    assert!(state.is_due(d));
    assert!(state.is_due(d + 1));
}

#[test]
fn token_allocator_counts_big_endian() {
    let mut alloc = TokenAllocator { next: 0x0102_0304 };
    assert_eq!(alloc.allocate(), vec![1, 2, 3, 4]);
    assert_eq!(alloc.allocate(), vec![1, 2, 3, 5]);
    let mut wrap = TokenAllocator { next: u32::MAX };
    assert_eq!(wrap.allocate(), vec![0xff, 0xff, 0xff, 0xff]);
    assert_eq!(wrap.allocate(), vec![0, 0, 0, 0]);
}

#[test]
fn successive_allocations_differ() {
    let mut mids = MessageIdAllocator::new();
    let a = mids.allocate();
    let b = mids.allocate();
    assert_ne!(a, b);
    assert_eq!(b, a.wrapping_add(1));
    let mut tokens = TokenAllocator::new();
    let t1 = tokens.allocate();
    let t2 = tokens.allocate();
    assert_ne!(t1, t2);
}
