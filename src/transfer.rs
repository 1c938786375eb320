use vstd::prelude::*;
use vstd::arithmetic::div_mod::lemma_div_denominator;
use vstd::slice::{slice_subrange, slice_to_vec};

use crate::types::TransferMode;

verus! {

/// Largest datagram payload of the legacy transport.
pub const LEGACY_CHUNK_SIZE: usize = 1400;

/// Largest file payload of one semi-reliable chunk (8 more bytes carry its
/// sequence number).
pub const SEMI_RELIABLE_CHUNK_SIZE: usize = 1392;

/// Width of the size header, of a sequence number and of an acknowledgement.
pub const HEADER_LEN: usize = 8;

/// First wait for an acknowledgement, in milliseconds.
pub const INITIAL_TIMEOUT_MS: u64 = 100;

/// Longest wait for an acknowledgement, in milliseconds.
pub const MAX_TIMEOUT_MS: u64 = 2000;

/// The number that eight bytes spell in big-endian order.
pub open spec fn be_value(b: Seq<u8>) -> int
    recommends
        b.len() == 8,
{
    b[0] as int * 0x100000000000000 + b[1] as int * 0x1000000000000 + b[2] as int
        * 0x10000000000 + b[3] as int * 0x100000000 + b[4] as int * 0x1000000 + b[5] as int
        * 0x10000 + b[6] as int * 0x100 + b[7] as int
}

/// The eight big-endian bytes of `n`.
pub open spec fn be_bytes(n: u64) -> Seq<u8> {
    seq![
        (n / 0x100000000000000) as u8,
        ((n / 0x1000000000000) % 0x100) as u8,
        ((n / 0x10000000000) % 0x100) as u8,
        ((n / 0x100000000) % 0x100) as u8,
        ((n / 0x1000000) % 0x100) as u8,
        ((n / 0x10000) % 0x100) as u8,
        ((n / 0x100) % 0x100) as u8,
        (n % 0x100) as u8,
    ]
}

/// Reading back the bytes of a number gives the number.
pub proof fn lemma_be_round_trip(n: u64)
    ensures
        be_bytes(n).len() == 8,
        be_value(be_bytes(n)) == n,
{
    let x = n as int;
    let q1 = x / 0x100;
    let q2 = x / 0x10000;
    let q3 = x / 0x1000000;
    let q4 = x / 0x100000000;
    let q5 = x / 0x10000000000;
    let q6 = x / 0x1000000000000;
    let q7 = x / 0x100000000000000;
    lemma_div_denominator(x, 0x100, 0x100);
    lemma_div_denominator(x, 0x10000, 0x100);
    lemma_div_denominator(x, 0x1000000, 0x100);
    lemma_div_denominator(x, 0x100000000, 0x100);
    lemma_div_denominator(x, 0x10000000000, 0x100);
    lemma_div_denominator(x, 0x1000000000000, 0x100);
    assert(q2 == q1 / 0x100);
    assert(q3 == q2 / 0x100);
    assert(q4 == q3 / 0x100);
    assert(q5 == q4 / 0x100);
    assert(q6 == q5 / 0x100);
    assert(q7 == q6 / 0x100);
    assert(x == q1 * 0x100 + x % 0x100);
    assert(q1 == q2 * 0x100 + q1 % 0x100);
    assert(q2 == q3 * 0x100 + q2 % 0x100);
    assert(q3 == q4 * 0x100 + q3 % 0x100);
    assert(q4 == q5 * 0x100 + q4 % 0x100);
    assert(q5 == q6 * 0x100 + q5 % 0x100);
    assert(q6 == q7 * 0x100 + q6 % 0x100);
    assert(q7 < 0x100);
    let b = be_bytes(n);
    assert(b[0] as int == q7);
    assert(b[1] as int == q6 % 0x100);
    assert(b[2] as int == q5 % 0x100);
    assert(b[3] as int == q4 % 0x100);
    assert(b[4] as int == q3 % 0x100);
    assert(b[5] as int == q2 % 0x100);
    assert(b[6] as int == q1 % 0x100);
    assert(b[7] as int == x % 0x100);
}

/// The size header, the sequence number of a chunk and an acknowledgement:
/// `n` as eight big-endian bytes.
pub fn encode_be_u64(n: u64) -> (r: Vec<u8>)
    ensures
        r@ == be_bytes(n),
        be_value(r@) == n,
{
    proof {
        lemma_be_round_trip(n);
    }
    let mut v: Vec<u8> = Vec::with_capacity(HEADER_LEN);
    v.push((n / 0x100000000000000) as u8);
    v.push(((n / 0x1000000000000) % 0x100) as u8);
    v.push(((n / 0x10000000000) % 0x100) as u8);
    v.push(((n / 0x100000000) % 0x100) as u8);
    v.push(((n / 0x1000000) % 0x100) as u8);
    v.push(((n / 0x10000) % 0x100) as u8);
    v.push(((n / 0x100) % 0x100) as u8);
    v.push((n % 0x100) as u8);
    assert(v@ =~= be_bytes(n));
    v
}

/// The number that eight big-endian bytes spell.
pub fn decode_be_u64(b: &[u8]) -> (r: u64)
    requires
        b@.len() == 8,
    ensures
        r == be_value(b@),
{
    (b[0] as u64) * 0x100000000000000 + (b[1] as u64) * 0x1000000000000 + (b[2] as u64)
        * 0x10000000000 + (b[3] as u64) * 0x100000000 + (b[4] as u64) * 0x1000000 + (b[5] as u64)
        * 0x10000 + (b[6] as u64) * 0x100 + (b[7] as u64)
}

/// The sequence number at the head of a semi-reliable chunk.
pub open spec fn chunk_seq(d: Seq<u8>) -> int {
    be_value(d.subrange(0, 8))
}

/// A semi-reliable chunk on the wire: the sequence number, then the payload.
pub open spec fn semi_reliable_packet(seq: u64, payload: Seq<u8>) -> Seq<u8> {
    be_bytes(seq) + payload
}

/// What one datagram asks of the receiving side: bytes to append to the
/// output, and the sequence number to acknowledge, if any.
pub struct ReceiveStep {
    pub write: Vec<u8>,
    pub ack: Option<u64>,
}

/// The receiving side of a transfer: how many bytes are still owed and, in
/// semi-reliable mode, the sequence number of the next chunk to apply.
#[derive(Debug, Clone, Copy, PartialEq, Eq, Structural)]
pub struct Receiver {
    pub mode: TransferMode,
    pub remaining: u64,
    pub next_expected: u64,
}

impl Receiver {
    /// Whether the datagram carries the bytes that come next.
    pub open spec fn applies(self, d: Seq<u8>) -> bool {
        match self.mode {
            TransferMode::Legacy => true,
            TransferMode::SemiReliable => d.len() >= 8 && chunk_seq(d) == self.next_expected,
        }
    }

    /// The file bytes a datagram carries.
    pub open spec fn payload(self, d: Seq<u8>) -> Seq<u8> {
        match self.mode {
            TransferMode::Legacy => d,
            TransferMode::SemiReliable => d.subrange(8, d.len() as int),
        }
    }

    /// The bytes appended to the output for datagram `d`: its payload, cut to
    /// what is still owed, if it applies; nothing otherwise.
    pub open spec fn written(self, d: Seq<u8>) -> Seq<u8> {
        if self.applies(d) {
            let p = self.payload(d);
            if p.len() <= self.remaining {
                p
            } else {
                p.subrange(0, self.remaining as int)
            }
        } else {
            Seq::empty()
        }
    }

    /// The acknowledgement sent for datagram `d`: in semi-reliable mode, the
    /// chunk's own sequence number when it is the expected chunk or one
    /// already applied; none for a chunk from the future, a datagram too short
    /// to hold a sequence number, or any legacy datagram.
    pub open spec fn ack(self, d: Seq<u8>) -> Option<u64> {
        if self.mode == TransferMode::SemiReliable && d.len() >= 8 && chunk_seq(d)
            <= self.next_expected {
            Some(chunk_seq(d) as u64)
        } else {
            None
        }
    }

    /// The state after datagram `d`.
    pub open spec fn next_state(self, d: Seq<u8>) -> Receiver {
        Receiver {
            mode: self.mode,
            remaining: (self.remaining - self.written(d).len()) as u64,
            next_expected: if self.mode == TransferMode::SemiReliable && self.applies(d)
                && self.next_expected < u64::MAX {
                (self.next_expected + 1) as u64
            } else {
                self.next_expected
            },
        }
    }

    /// A receiver in `mode` owed nothing yet, expecting chunk 0.
    pub open spec fn new_spec(mode: TransferMode) -> Receiver {
        Receiver { mode, remaining: 0, next_expected: 0 }
    }

    /// A receiver owed `size` bytes, expecting chunk 0.
    pub fn new(mode: TransferMode, size: u64) -> (r: Receiver)
        ensures
            r == (Receiver { mode, remaining: size, next_expected: 0 }),
    {
        Receiver { mode, remaining: size, next_expected: 0 }
    }

    /// Whether every byte owed has been written.
    pub fn is_complete(&self) -> (r: bool)
        ensures
            r == (self.remaining == 0),
    {
        self.remaining == 0
    }

    /// Handles one received datagram (after the size header).
    pub fn on_datagram(&mut self, datagram: &[u8]) -> (step: ReceiveStep)
        ensures
            step.write@ == old(self).written(datagram@),
            step.ack == old(self).ack(datagram@),
            *final(self) == old(self).next_state(datagram@),
    {
        let n = datagram.len();
        match self.mode {
            TransferMode::Legacy => {
                let w: u64 = if (n as u64) < self.remaining {
                    n as u64
                } else {
                    self.remaining
                };
                let write = slice_to_vec(slice_subrange(datagram, 0, w as usize));
                assert(write@ =~= self.written(datagram@));
                self.remaining = self.remaining - w;
                ReceiveStep { write, ack: None }
            },
            TransferMode::SemiReliable => {
                if n < HEADER_LEN {
                    return ReceiveStep { write: Vec::new(), ack: None };
                }
                let seq = decode_be_u64(slice_subrange(datagram, 0, HEADER_LEN));
                if seq < self.next_expected {
                    ReceiveStep { write: Vec::new(), ack: Some(seq) }
                } else if seq > self.next_expected {
                    ReceiveStep { write: Vec::new(), ack: None }
                } else {
                    let avail = (n - HEADER_LEN) as u64;
                    let w: u64 = if avail < self.remaining {
                        avail
                    } else {
                        self.remaining
                    };
                    let write = slice_to_vec(
                        slice_subrange(datagram, HEADER_LEN, HEADER_LEN + w as usize),
                    );
                    assert(write@ =~= self.written(datagram@));
                    self.remaining = self.remaining - w;
                    if self.next_expected < u64::MAX {
                        self.next_expected = self.next_expected + 1;
                    }
                    ReceiveStep { write, ack: Some(seq) }
                }
            },
        }
    }
}

/// What the sender learns while it waits for an acknowledgement.
#[derive(Debug, Clone, Copy, PartialEq, Eq, Structural)]
pub enum AckEvent {
    /// An eight-byte reply carrying `seq`; `from_target` tells whether it came
    /// from the peer the chunk was sent to.
    Reply { from_target: bool, seq: u64 },
    /// The wait ran out (or the socket reported an error).
    TimedOut,
}

/// The wait after `t` milliseconds went unanswered: doubled, up to the cap.
pub open spec fn escalated_timeout(t: u64) -> u64 {
    if 2 * t < MAX_TIMEOUT_MS {
        (2 * t) as u64
    } else {
        MAX_TIMEOUT_MS
    }
}

/// The sending side of a semi-reliable transfer (stop-and-wait): how much of
/// the file has been acknowledged, the sequence number of the chunk in
/// flight, and the current wait for its acknowledgement.
#[derive(Debug, Clone, Copy, PartialEq, Eq, Structural)]
pub struct SemiReliableSender {
    pub file_size: u64,
    pub sent_bytes: u64,
    pub sequence: u64,
    pub timeout_ms: u64,
}

impl SemiReliableSender {
    /// Whether `event` acknowledges the chunk in flight.
    pub open spec fn acknowledges(self, event: AckEvent) -> bool {
        match event {
            AckEvent::Reply { from_target, seq } => from_target && seq == self.sequence,
            AckEvent::TimedOut => false,
        }
    }

    /// A sender about to send chunk 0 of a file of `file_size` bytes.
    pub fn new(file_size: u64) -> (r: SemiReliableSender)
        ensures
            r == (SemiReliableSender {
                file_size,
                sent_bytes: 0,
                sequence: 0,
                timeout_ms: INITIAL_TIMEOUT_MS,
            }),
    {
        SemiReliableSender { file_size, sent_bytes: 0, sequence: 0, timeout_ms: INITIAL_TIMEOUT_MS }
    }

    /// Whether every byte of the file has been acknowledged.
    pub fn is_done(&self) -> (r: bool)
        ensures
            r == (self.sent_bytes >= self.file_size),
    {
        self.sent_bytes >= self.file_size
    }

    /// How many file bytes the next chunk carries: a full chunk, or what is
    /// left of the file.
    pub fn next_chunk_len(&self) -> (r: usize)
        ensures
            r as int == if self.sent_bytes >= self.file_size {
                0
            } else if self.file_size - self.sent_bytes < SEMI_RELIABLE_CHUNK_SIZE {
                self.file_size - self.sent_bytes
            } else {
                SEMI_RELIABLE_CHUNK_SIZE as int
            },
    {
        if self.sent_bytes >= self.file_size {
            0
        } else if self.file_size - self.sent_bytes < SEMI_RELIABLE_CHUNK_SIZE as u64 {
            (self.file_size - self.sent_bytes) as usize
        } else {
            SEMI_RELIABLE_CHUNK_SIZE
        }
    }

    /// The datagram for the chunk in flight: its sequence number, then
    /// `payload`.
    pub fn packet(&self, payload: &[u8]) -> (r: Vec<u8>)
        requires
            payload@.len() <= SEMI_RELIABLE_CHUNK_SIZE,
        ensures
            r@ == semi_reliable_packet(self.sequence, payload@),
            r@.len() <= LEGACY_CHUNK_SIZE,
    {
        let mut r = encode_be_u64(self.sequence);
        let mut i: usize = 0;
        while i < payload.len()
            invariant
                i <= payload@.len(),
                payload@.len() <= SEMI_RELIABLE_CHUNK_SIZE,
                r@ == be_bytes(self.sequence) + payload@.subrange(0, i as int),
            decreases payload@.len() - i,
        {
            r.push(payload[i]);
            i = i + 1;
            assert(r@ =~= be_bytes(self.sequence) + payload@.subrange(0, i as int));
        }
        assert(payload@.subrange(0, i as int) =~= payload@);
        r
    }

    /// Takes the outcome of one wait. An acknowledgement of the chunk in
    /// flight, from the peer it went to, moves on to the next chunk
    /// (`payload_len` bytes further into the file) with the first wait again;
    /// anything else keeps the chunk, to be sent again, with the wait doubled
    /// up to its cap. Returns whether the chunk was acknowledged.
    pub fn on_event(&mut self, event: AckEvent, payload_len: u64) -> (delivered: bool)
        ensures
            delivered == old(self).acknowledges(event),
            final(self).file_size == old(self).file_size,
            delivered ==> {
                &&& final(self).sent_bytes == if old(self).sent_bytes + payload_len <= u64::MAX {
                    old(self).sent_bytes + payload_len
                } else {
                    u64::MAX as int
                }
                &&& final(self).sequence == if old(self).sequence < u64::MAX {
                    old(self).sequence + 1
                } else {
                    u64::MAX as int
                }
                &&& final(self).timeout_ms == INITIAL_TIMEOUT_MS
            },
            !delivered ==> {
                &&& final(self).sent_bytes == old(self).sent_bytes
                &&& final(self).sequence == old(self).sequence
                &&& final(self).timeout_ms == escalated_timeout(old(self).timeout_ms)
            },
    {
        let delivered = match event {
            AckEvent::Reply { from_target, seq } => from_target && seq == self.sequence,
            AckEvent::TimedOut => false,
        };
        if delivered {
            self.sent_bytes = if payload_len <= u64::MAX - self.sent_bytes {
                self.sent_bytes + payload_len
            } else {
                u64::MAX
            };
            if self.sequence < u64::MAX {
                self.sequence = self.sequence + 1;
            }
            self.timeout_ms = INITIAL_TIMEOUT_MS;
        } else {
            self.timeout_ms = if self.timeout_ms < MAX_TIMEOUT_MS / 2 {
                self.timeout_ms * 2
            } else {
                MAX_TIMEOUT_MS
            };
        }
        delivered
    }
}

/// The output of a receiver fed `ds` in order, and its state afterwards; it
/// stops taking datagrams once nothing more is owed.
pub open spec fn run(r: Receiver, ds: Seq<Seq<u8>>) -> (Receiver, Seq<u8>)
    decreases ds.len(),
{
    if ds.len() == 0 || r.remaining == 0 {
        (r, Seq::empty())
    } else {
        let rest = run(r.next_state(ds[0]), ds.drop_first());
        (rest.0, r.written(ds[0]) + rest.1)
    }
}

/// `m` copies of one datagram.
pub open spec fn repeated(p: Seq<u8>, m: nat) -> Seq<Seq<u8>> {
    Seq::new(m, |i: int| p)
}

/// What reaches the receiver over a lossy, in-order channel from a
/// stop-and-wait sender of `chunks`, from chunk `k` on: `copies[i]` copies of
/// chunk `i` (the transmissions of it that were not lost), chunk by chunk.
pub open spec fn lossy_deliveries(chunks: Seq<Seq<u8>>, copies: Seq<nat>, k: nat) -> Seq<
    Seq<u8>,
>
    decreases chunks.len() - k,
{
    if k >= chunks.len() {
        Seq::empty()
    } else {
        repeated(semi_reliable_packet(k as u64, chunks[k as int]), copies[k as int])
            + lossy_deliveries(chunks, copies, k + 1)
    }
}

/// Feeding two runs of datagrams one after the other.
pub proof fn lemma_run_concat(r: Receiver, a: Seq<Seq<u8>>, b: Seq<Seq<u8>>)
    ensures
        run(r, a + b) == (run(run(r, a).0, b).0, run(r, a).1 + run(run(r, a).0, b).1),
    decreases a.len(),
{
    if a.len() == 0 {
        assert(a + b =~= b);
        assert(run(r, a).1 + run(r, b).1 =~= run(r, b).1);
    } else if r.remaining == 0 {
        assert(Seq::<u8>::empty() + Seq::<u8>::empty() =~= Seq::<u8>::empty());
    } else {
        assert((a + b)[0] == a[0]);
        assert((a + b).drop_first() =~= a.drop_first() + b);
        lemma_run_concat(r.next_state(a[0]), a.drop_first(), b);
        let x = run(r.next_state(a[0]), a.drop_first());
        let y = run(x.0, b);
        assert(r.written(a[0]) + (x.1 + y.1) =~= (r.written(a[0]) + x.1) + y.1);
    }
}

/// The stream of a legacy sender, delivered whole and in order, is
/// written out whole by a receiver owed exactly its length.
proof fn lemma_legacy_lossless_from(r: Receiver, chunks: Seq<Seq<u8>>)
    requires
        r.mode == TransferMode::Legacy,
        r.remaining == chunks.flatten().len(),
    ensures
        run(r, chunks).1 == chunks.flatten(),
    decreases chunks.len(),
{
    if chunks.len() == 0 {
    } else if r.remaining == 0 {
        assert(chunks.flatten() =~= Seq::<u8>::empty());
    } else {
        let c = chunks[0];
        assert(chunks.flatten() == c + chunks.drop_first().flatten());
        assert(r.written(c) == c);
        lemma_legacy_lossless_from(r.next_state(c), chunks.drop_first());
    }
}

/// Legacy transfer over a lossless, in-order channel: whatever chunks the
/// sender cut the file into, a receiver owed the file's length writes out
/// exactly the file.
pub proof fn lemma_legacy_lossless(chunks: Seq<Seq<u8>>)
    requires
        chunks.flatten().len() <= u64::MAX,
    ensures
        run(
            Receiver {
                mode: TransferMode::Legacy,
                remaining: chunks.flatten().len() as u64,
                next_expected: 0,
            },
            chunks,
        ).1 == chunks.flatten(),
{
    lemma_legacy_lossless_from(
        Receiver {
            mode: TransferMode::Legacy,
            remaining: chunks.flatten().len() as u64,
            next_expected: 0,
        },
        chunks,
    );
}

/// The sequence number of a semi-reliable packet is the one it was built with.
pub proof fn lemma_packet_seq(seq: u64, payload: Seq<u8>)
    ensures
        semi_reliable_packet(seq, payload).len() == 8 + payload.len(),
        chunk_seq(semi_reliable_packet(seq, payload)) == seq,
        semi_reliable_packet(seq, payload).subrange(8, 8 + payload.len() as int) == payload,
{
    lemma_be_round_trip(seq);
    let p = semi_reliable_packet(seq, payload);
    assert(p.subrange(0, 8) =~= be_bytes(seq));
    assert(p.subrange(8, 8 + payload.len() as int) =~= payload);
}

/// Copies of a chunk already applied change nothing and write nothing.
proof fn lemma_stale_copies(r: Receiver, k: u64, c: Seq<u8>, m: nat)
    requires
        r.mode == TransferMode::SemiReliable,
        k < r.next_expected,
    ensures
        run(r, repeated(semi_reliable_packet(k, c), m)) == (r, Seq::<u8>::empty()),
    decreases m,
{
    let p = semi_reliable_packet(k, c);
    lemma_packet_seq(k, c);
    if m == 0 || r.remaining == 0 {
    } else {
        assert(!r.applies(p));
        assert(r.next_state(p) == r);
        assert(repeated(p, m).drop_first() =~= repeated(p, (m - 1) as nat));
        lemma_stale_copies(r, k, c, (m - 1) as nat);
    }
}

proof fn lemma_semi_reliable_from(r: Receiver, chunks: Seq<Seq<u8>>, copies: Seq<nat>, k: nat)
    requires
        r.mode == TransferMode::SemiReliable,
        k <= chunks.len(),
        chunks.len() == copies.len(),
        chunks.len() < u64::MAX,
        forall|i: int| 0 <= i < copies.len() ==> copies[i] >= 1,
        r.next_expected == k,
        r.remaining == chunks.skip(k as int).flatten().len(),
    ensures
        run(r, lossy_deliveries(chunks, copies, k)).1 == chunks.skip(k as int).flatten(),
    decreases chunks.len() - k,
{
    if k == chunks.len() {
        assert(chunks.skip(k as int) =~= Seq::<Seq<u8>>::empty());
    } else {
        let c = chunks[k as int];
        let p = semi_reliable_packet(k as u64, c);
        let m = copies[k as int];
        let rest = lossy_deliveries(chunks, copies, k + 1);
        assert(chunks.skip(k as int)[0] == c);
        assert(chunks.skip(k as int).drop_first() =~= chunks.skip(k + 1 as int));
        assert(chunks.skip(k as int).flatten() == c + chunks.skip(k + 1 as int).flatten());
        lemma_packet_seq(k as u64, c);
        let reps = repeated(p, m);
        lemma_run_concat(r, reps, rest);
        if r.remaining == 0 {
            assert(chunks.skip(k as int).flatten() =~= Seq::<u8>::empty());
            assert(run(r, reps) == (r, Seq::<u8>::empty()));
            assert(run(r, rest) == (r, Seq::<u8>::empty()));
            assert(Seq::<u8>::empty() + Seq::<u8>::empty() =~= Seq::<u8>::empty());
        } else {
            assert(r.applies(p));
            assert(r.payload(p) =~= c);
            assert(r.written(p) == c);
            let r1 = r.next_state(p);
            assert(r1.next_expected == k + 1);
            assert(reps[0] == p);
            assert(reps.drop_first() =~= repeated(p, (m - 1) as nat));
            lemma_stale_copies(r1, k as u64, c, (m - 1) as nat);
            assert(run(r, reps) == (r1, c + Seq::<u8>::empty()));
            assert(c + Seq::<u8>::empty() =~= c);
            lemma_semi_reliable_from(r1, chunks, copies, k + 1);
        }
    }
}

/// Semi-reliable transfer over a lossy, in-order channel: as long as at
/// least one transmission of each chunk gets through (what a loss rate below
/// one yields in time), the receiver writes out exactly the file, however many
/// copies of each chunk it is handed.
pub proof fn lemma_semi_reliable_lossy(chunks: Seq<Seq<u8>>, copies: Seq<nat>)
    requires
        chunks.len() == copies.len(),
        chunks.len() < u64::MAX,
        forall|i: int| 0 <= i < copies.len() ==> copies[i] >= 1,
        chunks.flatten().len() <= u64::MAX,
    ensures
        run(
            Receiver {
                mode: TransferMode::SemiReliable,
                remaining: chunks.flatten().len() as u64,
                next_expected: 0,
            },
            lossy_deliveries(chunks, copies, 0),
        ).1 == chunks.flatten(),
{
    assert(chunks.skip(0) =~= chunks);
    lemma_semi_reliable_from(
        Receiver {
            mode: TransferMode::SemiReliable,
            remaining: chunks.flatten().len() as u64,
            next_expected: 0,
        },
        chunks,
        copies,
        0,
    );
}

/// A chunk delivered twice is written once, and its second delivery is
/// acknowledged with its sequence number all the same.
pub proof fn lemma_duplicate_chunk(r: Receiver, d: Seq<u8>)
    requires
        r.mode == TransferMode::SemiReliable,
        d.len() >= 8,
        chunk_seq(d) <= r.next_expected,
        r.next_expected < u64::MAX,
    ensures
        r.next_state(d).written(d) == Seq::<u8>::empty(),
        r.next_state(d).ack(d) == Some(chunk_seq(d) as u64),
        r.next_state(d).next_state(d) == r.next_state(d),
{
}

/// A chunk from beyond the next expected one is dropped: nothing written, no
/// acknowledgement, and the receiver's state unchanged.
pub proof fn lemma_future_chunk_dropped(r: Receiver, d: Seq<u8>)
    requires
        r.mode == TransferMode::SemiReliable,
        d.len() >= 8,
        chunk_seq(d) > r.next_expected,
    ensures
        r.written(d) == Seq::<u8>::empty(),
        r.ack(d) == None::<u64>,
        r.next_state(d) == r,
{
}

} // verus!
