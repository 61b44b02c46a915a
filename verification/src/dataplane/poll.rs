use vstd::prelude::*;
use vstd::arithmetic::div_mod::{lemma_fundamental_div_mod, lemma_mod_multiples_vanish};

verus! {

/// Number of distinct `usize` values: index arithmetic wraps modulo this.
pub open spec fn index_space() -> int {
    usize::MAX as int + 1
}

/// Whether `n` is a power of two, in the form the ring's index mask relies on.
pub open spec fn is_pow2_size(n: usize) -> bool {
    n > 0 && n & ((n - 1) as usize) == 0
}

/// Splitting a bitwise and into its low bit and the rest.
proof fn lemma_and_split_low_bit(x: usize, m: usize)
    by (bit_vector)
    ensures
        x & m == ((x / 2) & (m / 2)) * 2 + ((x % 2) & (m % 2)),
{
}

/// Halving a power of two above one gives a power of two.
proof fn lemma_pow2_size_half(n: usize)
    by (bit_vector)
    requires
        n > 1,
        n & ((n - 1) as usize) == 0,
    ensures
        n % 2 == 0,
        (n / 2) & ((n / 2 - 1) as usize) == 0,
        ((n - 1) as usize) / 2 == n / 2 - 1,
        ((n - 1) as usize) % 2 == 1,
{
}

/// For a power-of-two `n`, `x & (n - 1) == x % n`.
proof fn lemma_mask_is_mod(x: usize, n: usize)
    requires
        is_pow2_size(n),
    ensures
        x & ((n - 1) as usize) == x % n,
    decreases n,
{
    if n == 1 {
        assert(x & 0usize == 0) by (bit_vector);
    } else {
        lemma_pow2_size_half(n);
        let h = n / 2;
        lemma_mask_is_mod(x / 2, h);
        lemma_and_split_low_bit(x, (n - 1) as usize);
        assert((x % 2) & 1usize == x % 2) by (bit_vector);
        vstd::arithmetic::div_mod::lemma_mod_breakdown(x as int, 2, h as int);
        assert(x % n == 2 * ((x / 2) % h) + x % 2) by {
            assert(n as int == 2 * h);
        }
    }
}

/// For a power-of-two `n`, masking with `n - 1` is reduction modulo `n`, and `n`
/// divides the size of the index space.
proof fn lemma_pow2_mask(x: usize, n: usize)
    requires
        is_pow2_size(n),
    ensures
        x & ((n - 1) as usize) == x % n,
        index_space() % (n as int) == 0,
{
    lemma_mask_is_mod(x, n);
    let m = usize::MAX;
    assert(m == 0xFFFF_FFFF || m == 0xFFFF_FFFF_FFFF_FFFF);
    assert(m % n == n - 1) by {
        let mm = m as u64;
        let nn = n as u64;
        assert(nn & ((nn - 1) as u64) == 0) by (bit_vector)
            requires
                n & ((n - 1) as usize) == 0,
                nn == n,
        ;
        assert(nn > 0 && nn & ((nn - 1) as u64) == 0 && nn <= mm && (mm == 0xFFFF_FFFFu64 || mm
            == 0xFFFF_FFFF_FFFF_FFFFu64) ==> mm % nn == nn - 1) by (bit_vector);
    }
    assert((usize::MAX as int + 1) % (n as int) == 0) by {
        lemma_fundamental_div_mod(usize::MAX as int, n as int);
        let q = usize::MAX as int / n as int;
        assert(usize::MAX as int + 1 == n * (q + 1)) by (nonlinear_arith)
            requires
                usize::MAX as int == n * q + (n - 1),
        ;
        lemma_mod_multiples_vanish(q + 1, 0, n as int);
    }
}

/// Values that differ by the size of the index space fall in the same slot of a
/// power-of-two ring.
proof fn lemma_wrap_slot(x: int, n: usize)
    requires
        is_pow2_size(n),
    ensures
        (x - index_space()) % (n as int) == x % (n as int),
{
    lemma_pow2_mask(0, n);
    let q = index_space() / n as int;
    lemma_fundamental_div_mod(index_space(), n as int);
    assert(x - index_space() == n * (-q) + x) by (nonlinear_arith)
        requires
            index_space() == n * q,
    ;
    lemma_mod_multiples_vanish(-q, x, n as int);
}

/// A ring index kept on a cache line of its own, so that the producer's and the
/// consumer's index never share one.
struct CacheLineAtomicUsize {
    value: usize,
}

impl CacheLineAtomicUsize {
    /// An index holding `v`.
    fn new(v: usize) -> (c: Self)
        ensures
            c.value == v,
    {
        Self { value: v }
    }
}

/// A fixed-capacity single-producer single-consumer ring of `N` slots (`N` a
/// power of two). `head` counts the values ever pushed and `tail` the values ever
/// popped, both modulo the size of `usize`; value number `k` lives in slot
/// `k & (N - 1)`.
pub struct SpscQueue<T: Copy, const N: usize> {
    head: CacheLineAtomicUsize,
    tail: CacheLineAtomicUsize,
    buffer: [Option<T>; N],
    items: Ghost<Seq<T>>,
}

impl<T: Copy, const N: usize> View for SpscQueue<T, N> {
    /// The values in the queue, oldest first.
    type V = Seq<T>;

    closed spec fn view(&self) -> Seq<T> {
        self.items@
    }
}

impl<T: Copy, const N: usize> SpscQueue<T, N> {
    /// The producer index: the number of values ever pushed, modulo the index space.
    pub closed spec fn head_index(self) -> usize {
        self.head.value
    }

    /// The consumer index: the number of values ever popped, modulo the index space.
    pub closed spec fn tail_index(self) -> usize {
        self.tail.value
    }

    /// The ring's slots: `None` for a slot never written.
    pub closed spec fn slots(self) -> Seq<Option<T>> {
        self.buffer@
    }

    /// What the ring's layout guarantees: `N` is a power of two, at most `N` values
    /// are held, `head` is ahead of `tail` by their number (modulo the index space),
    /// and the `i`-th oldest value sits in slot `(tail + i) % N`.
    pub proof fn lemma_wf_facts(self)
        requires
            self.wf(),
        ensures
            is_pow2_size(N),
            self.slots().len() == N,
            self@.len() <= N,
            self.head_index() as int == (self.tail_index() + self@.len()) % index_space(),
            forall|i: int|
                0 <= i < self@.len() ==> #[trigger] self.slots()[(self.tail_index() + i) % (
                N as int)] == Some(self@[i]),
    {
        let t = self.tail.value as int + self.items@.len();
        if t < index_space() {
            vstd::arithmetic::div_mod::lemma_small_mod(t as nat, index_space() as nat);
        } else {
            vstd::arithmetic::div_mod::lemma_mod_sub_multiples_vanish(t, index_space());
            vstd::arithmetic::div_mod::lemma_small_mod((t - index_space()) as nat, index_space() as nat);
        }
    }

    /// The ring's layout: `N` a power of two, `N` slots, at most `N` values held,
    /// `head` ahead of `tail` by their number (modulo the index space), and the
    /// `i`-th oldest value in slot `(tail + i) % N`.
    pub closed spec fn wf(self) -> bool {
        let len = self.items@.len() as int;
        let tail = self.tail.value as int;
        &&& is_pow2_size(N)
        &&& self.buffer@.len() == N
        &&& len <= N
        &&& self.head.value as int == (if tail + len < index_space() {
            tail + len
        } else {
            tail + len - index_space()
        })
        &&& forall|i: int|
            0 <= i < len ==> #[trigger] self.buffer@[(tail + i) % (N as int)] == Some(
                self.items@[i],
            )
    }

    /// An empty queue.
    pub fn new() -> (q: Self)
        requires
            is_pow2_size(N),
        ensures
            q.wf(),
            q@ == Seq::<T>::empty(),
            q.head_index() == 0,
            q.tail_index() == 0,
            q.slots() == Seq::new(N as nat, |i: int| None::<T>),
    {
        let q = Self {
            head: CacheLineAtomicUsize::new(0),
            tail: CacheLineAtomicUsize::new(0),
            buffer: [None; N],
            items: Ghost(Seq::empty()),
        };
        proof {
            assert(q.slots() =~= Seq::new(N as nat, |i: int| None::<T>));
        }
        q
    }

    /// Enqueue `value` (producer side). Returns `true` and appends `value` when
    /// fewer than `N` values are held; returns `false` and changes nothing when
    /// the queue is full.
    pub fn push(&mut self, value: T) -> (pushed: bool)
        requires
            old(self).wf(),
        ensures
            final(self).wf(),
            pushed == (old(self)@.len() < N),
            pushed ==> final(self)@ == old(self)@.push(value),
            !pushed ==> final(self)@ == old(self)@,
            final(self).tail_index() == old(self).tail_index(),
            pushed ==> final(self).head_index() == old(self).head_index().wrapping_add(1)
                && final(self).slots() == old(self).slots().update(
                old(self).head_index() as int % (N as int),
                Some(value),
            ),
            !pushed ==> final(self).head_index() == old(self).head_index() && final(self).slots()
                == old(self).slots(),
    {
        let head = self.head.value;
        let tail = self.tail.value;
        if head.wrapping_sub(tail) >= N {
            return false;
        }
        let slot = head & (N - 1);
        proof {
            lemma_pow2_mask(head, N);
            let len = self.items@.len() as int;
            if tail + len >= index_space() {
                lemma_wrap_slot(tail + len, N);
            }
        }
        let ghost pre = self.items@;
        self.buffer[slot] = Some(value);
        self.head.value = head.wrapping_add(1);
        self.items = Ghost(self.items@.push(value));
        proof {
            let len = pre.len() as int;
            assert forall|i: int| 0 <= i < len + 1 implies #[trigger] self.buffer@[(tail + i) % (
            N as int)] == Some(self.items@[i]) by {
                if i < len {
                    assert((tail + i) % (N as int) != (tail + len) % (N as int)) by {
                        vstd::arithmetic::div_mod::lemma_fundamental_div_mod(tail + i, N as int);
                        vstd::arithmetic::div_mod::lemma_fundamental_div_mod(tail + len, N as int);
                        assert(0 < len - i <= N);
                        if (tail + i) % (N as int) == (tail + len) % (N as int) {
                            let qi = (tail + i) / (N as int);
                            let ql = (tail + len) / (N as int);
                            assert(len - i == N * (ql - qi)) by (nonlinear_arith)
                                requires
                                    tail + i == N * qi + (tail + i) % (N as int),
                                    tail + len == N * ql + (tail + len) % (N as int),
                                    (tail + i) % (N as int) == (tail + len) % (N as int),
                            ;
                            assert(false) by (nonlinear_arith)
                                requires
                                    len - i == N * (ql - qi),
                                    0 < len - i < N,
                                    N > 0,
                            ;
                        }
                    }
                }
            }
        }
        true
    }
}

impl<T: Copy, const N: usize> SpscQueue<T, N> {
    /// Dequeue the oldest value (consumer side): `Some` of it, removed from the
    /// queue, when the queue holds one; `None`, changing nothing, when it is empty.
    pub fn pop(&mut self) -> (out: Option<T>)
        requires
            old(self).wf(),
        ensures
            final(self).wf(),
            old(self)@.len() == 0 ==> out is None && final(self)@ == old(self)@,
            old(self)@.len() > 0 ==> out == Some(old(self)@[0]) && final(self)@ == old(
                self,
            )@.drop_first(),
            final(self).head_index() == old(self).head_index(),
            final(self).slots() == old(self).slots(),
            out is None ==> final(self).tail_index() == old(self).tail_index(),
            out is Some ==> final(self).tail_index() == old(self).tail_index().wrapping_add(1),
            out is Some ==> old(self).head_index() != old(self).tail_index() && old(self).slots()[old(
                self,
            ).tail_index() as int % (N as int)] == out,
    {
        let tail = self.tail.value;
        let head = self.head.value;
        if head == tail {
            return None;
        }
        let slot = tail & (N - 1);
        proof {
            lemma_pow2_mask(tail, N);
            assert(self.buffer@[(tail + 0) % (N as int)] == Some(self.items@[0]));
        }
        let value = self.buffer[slot].unwrap();
        let ghost pre = self.items@;
        self.tail.value = tail.wrapping_add(1);
        self.items = Ghost(self.items@.drop_first());
        proof {
            let len = pre.len() as int;
            let nt = self.tail.value as int;
            assert forall|i: int| 0 <= i < len - 1 implies #[trigger] self.buffer@[(nt + i) % (
            N as int)] == Some(self.items@[i]) by {
                assert(self.buffer@[(tail + (i + 1)) % (N as int)] == Some(pre[i + 1]));
                if tail + 1 >= index_space() {
                    lemma_wrap_slot(tail + 1 + i, N);
                }
            }
        }
        Some(value)
    }
}

/// An NVMe completion token: bits [15:0] hold the Command ID, bits [31:16] the
/// Submission Queue ID, bits [63:32] are reserved.
#[derive(Clone, Copy)]
pub struct NvmeCompletionToken(u64);

impl View for NvmeCompletionToken {
    type V = u64;

    closed spec fn view(&self) -> u64 {
        self.0
    }
}

/// The Command ID carried by a token's raw value: bits [15:0].
pub open spec fn cid_of(raw: u64) -> int {
    raw as int % 0x1_0000
}

/// The Submission Queue ID carried by a token's raw value: bits [31:16].
pub open spec fn sqid_of(raw: u64) -> int {
    (raw as int / 0x1_0000) % 0x1_0000
}

impl NvmeCompletionToken {
    /// A token with the given raw 64-bit value.
    pub fn from_raw(raw: u64) -> (t: Self)
        ensures
            t@ == raw,
    {
        Self(raw)
    }

    /// The 16-bit Command ID.
    pub fn cid(self) -> (c: u16)
        ensures
            c == cid_of(self@),
    {
        let v = self.0;
        assert(v as u16 == v % 0x1_0000) by (bit_vector);
        v as u16
    }

    /// The 16-bit Submission Queue ID.
    pub fn sqid(self) -> (s: u16)
        ensures
            s == sqid_of(self@),
    {
        let v = self.0;
        assert((v >> 16u64) as u16 == (v / 0x1_0000) % 0x1_0000) by (bit_vector);
        (v >> 16) as u16
    }
}

/// Depth of the NVMe completion ring: a power of two.
pub const CQ_DEPTH: usize = 256;

/// What the data-plane core does next.
#[derive(Clone, Copy, Debug, PartialEq, Eq, Structural)]
pub enum PollAction {
    /// A completion was taken off the ring: process the command with this ID.
    Process { cid: u16 },
    /// The ring is empty: park until an event arrives.
    Wait,
}

/// One turn of the data-plane polling loop: take the oldest completion off the
/// ring and process its command, or wait when the ring is empty.
pub fn dataplane_poll_step(ring: &mut SpscQueue<NvmeCompletionToken, CQ_DEPTH>) -> (action:
    PollAction)
    requires
        old(ring).wf(),
    ensures
        final(ring).wf(),
        old(ring)@.len() == 0 ==> action is Wait && final(ring)@ == old(ring)@,
        old(ring)@.len() > 0 ==> action == (PollAction::Process { cid: cid_of(old(ring)@[0]@) as u16 })
            && final(ring)@ == old(ring)@.drop_first(),
        final(ring).head_index() == old(ring).head_index(),
        final(ring).slots() == old(ring).slots(),
        action is Wait ==> final(ring).tail_index() == old(ring).tail_index(),
        action is Process ==> final(ring).tail_index() == old(ring).tail_index().wrapping_add(1),
{
    match ring.pop() {
        Some(token) => PollAction::Process { cid: token.cid() },
        None => PollAction::Wait,
    }
}

/// A token assembled from a Submission Queue ID and a Command ID gives both back.
pub proof fn lemma_token_fields(sqid: u16, cid: u16)
    ensures
        cid_of((sqid as u64 * 0x1_0000 + cid as u64) as u64) == cid,
        sqid_of((sqid as u64 * 0x1_0000 + cid as u64) as u64) == sqid,
{
    let raw = sqid as int * 0x1_0000 + cid as int;
    assert(raw / 0x1_0000 == sqid as int) by (nonlinear_arith)
        requires
            raw == sqid as int * 0x1_0000 + cid as int,
            0 <= cid < 0x1_0000,
    ;
}

} // verus!
