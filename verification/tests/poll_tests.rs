use lib::dataplane::poll::{
    dataplane_poll_step, NvmeCompletionToken, PollAction, SpscQueue, CQ_DEPTH,
};

#[test]
fn token_fields() {
    let t = NvmeCompletionToken::from_raw(0xFFFF_FFFF_0007_002A);
    assert_eq!(t.cid(), 0x002A);
    assert_eq!(t.sqid(), 0x0007);
    let u = NvmeCompletionToken::from_raw((3u64 << 16) | 9);
    assert_eq!(u.cid(), 9);
    assert_eq!(u.sqid(), 3);
}

#[test]
fn empty_queue_pops_none() {
    let mut q: SpscQueue<u32, 4> = SpscQueue::new();
    assert_eq!(q.pop(), None);
}

#[test]
fn fifo_order() {
    let mut q: SpscQueue<u32, 8> = SpscQueue::new();
    assert!(q.push(1));
    assert!(q.push(2));
    assert!(q.push(3));
    assert_eq!(q.pop(), Some(1));
    assert!(q.push(4));
    assert_eq!(q.pop(), Some(2));
    assert_eq!(q.pop(), Some(3));
    assert_eq!(q.pop(), Some(4));
    assert_eq!(q.pop(), None);
}

#[test]
fn capacity_is_n() {
    let mut q: SpscQueue<u8, 4> = SpscQueue::new();
    assert!(q.push(10));
    assert!(q.push(11));
    assert!(q.push(12));
    assert!(q.push(13));
    assert!(!q.push(14));
    assert_eq!(q.pop(), Some(10));
    assert!(q.push(14));
    assert!(!q.push(15));
    assert_eq!(q.pop(), Some(11));
    assert_eq!(q.pop(), Some(12));
    assert_eq!(q.pop(), Some(13));
    assert_eq!(q.pop(), Some(14));
    assert_eq!(q.pop(), None);
}

#[test]
fn single_slot_ring() {
    let mut q: SpscQueue<u64, 1> = SpscQueue::new();
    assert!(q.push(5));
    assert!(!q.push(6));
    assert_eq!(q.pop(), Some(5));
    assert!(q.push(6));
    assert_eq!(q.pop(), Some(6));
}

#[test]
fn wraps_around_the_slots_many_times() {
    let mut q: SpscQueue<u32, 4> = SpscQueue::new();
    let mut next_in: u32 = 0;
    let mut next_out: u32 = 0;
    while next_out < 1000 {
        while q.push(next_in) {
            next_in += 1;
        }
        assert_eq!(next_in - next_out, 4);
        assert_eq!(q.pop(), Some(next_out));
        next_out += 1;
        assert_eq!(q.pop(), Some(next_out));
        next_out += 1;
    }
}

#[test]
fn poll_step_processes_then_waits() {
    let mut ring: SpscQueue<NvmeCompletionToken, CQ_DEPTH> = SpscQueue::new();
    assert_eq!(dataplane_poll_step(&mut ring), PollAction::Wait);
    assert!(ring.push(NvmeCompletionToken::from_raw(0x0001_0011)));
    assert!(ring.push(NvmeCompletionToken::from_raw(0x0002_0022)));
    assert_eq!(dataplane_poll_step(&mut ring), PollAction::Process { cid: 0x11 });
    assert_eq!(dataplane_poll_step(&mut ring), PollAction::Process { cid: 0x22 });
    assert_eq!(dataplane_poll_step(&mut ring), PollAction::Wait);
}

#[test]
fn completion_ring_holds_cq_depth_tokens() {
    let mut ring: SpscQueue<NvmeCompletionToken, CQ_DEPTH> = SpscQueue::new();
    let mut i: u64 = 0;
    while i < CQ_DEPTH as u64 {
        assert!(ring.push(NvmeCompletionToken::from_raw(i)));
        i += 1;
    }
    assert!(!ring.push(NvmeCompletionToken::from_raw(999)));
    assert_eq!(dataplane_poll_step(&mut ring), PollAction::Process { cid: 0 });
}
