//! Selective reliability over UDP: per-destination inbound dedup by
//! sequence number, and the outbound pending table with sequence
//! assignment, acknowledgement handling and the timed resend sweep.

use vstd::prelude::*;
use crate::protocol::PacketType;

verus! {

/// A peer address as plain values. The caller maps socket addresses to
/// this form and back; IPv4 addresses occupy the low 32 bits of `ip`.
#[derive(Debug, Clone, Copy, PartialEq, Eq, Structural)]
pub struct PeerAddr {
    pub ip: u128,
    pub port: u16,
}

/// Resend sweep: age after which a pending entry is retransmitted.
pub const RETRY_TIMEOUT_MS: u64 = 600;

/// Resend sweep: attempts after which delivery is abandoned.
pub const MAX_ATTEMPTS: u8 = 10;

/// Pending table size beyond which the sweep drains everything.
pub const MAX_PENDING: usize = 2048;

/// Outstanding entries per destination beyond which new reliable sends
/// to that destination are silently dropped.
pub const MAX_PENDING_PER_ADDR: usize = 256;

/// The last accepted inbound sequence for one `(address, type tag)`
/// stream. Streams are independent per tag.
#[derive(Debug, Clone, Copy, PartialEq, Eq, Structural)]
pub struct InboundSeqEntry {
    pub addr: PeerAddr,
    pub tag: u8,
    pub last: u32,
}

/// Inbound dedup state: the last accepted sequence per
/// `(source address, type tag)`, defaulting to 0.
#[derive(Debug, Clone)]
pub struct InboundDedup {
    pub entries: Vec<InboundSeqEntry>,
}

impl InboundDedup {
    /// At most one entry per `(address, tag)` stream.
    pub open spec fn wf(self) -> bool {
        forall|i: int, j: int|
            0 <= i < j < self.entries@.len() ==> !((#[trigger] self.entries@[i]).addr == (
            #[trigger] self.entries@[j]).addr && self.entries@[i].tag == self.entries@[j].tag)
    }

    /// The last accepted sequence for a stream; 0 when none was accepted.
    pub open spec fn spec_last(self, addr: PeerAddr, tag: u8) -> u32 {
        if exists|i: int|
            0 <= i < self.entries@.len() && (#[trigger] self.entries@[i]).addr == addr
                && self.entries@[i].tag == tag {
            let i = choose|i: int|
                0 <= i < self.entries@.len() && (#[trigger] self.entries@[i]).addr == addr
                    && self.entries@[i].tag == tag;
            self.entries@[i].last
        } else {
            0
        }
    }

    /// An empty table: every stream's last accepted sequence is 0.
    pub fn new() -> (r: InboundDedup)
        ensures
            r.wf(),
            forall|a: PeerAddr, t: u8| r.spec_last(a, t) == 0,
    {
        InboundDedup { entries: Vec::new() }
    }

    /// Under well-formedness, any entry matching a stream holds that
    /// stream's last accepted sequence.
    proof fn lemma_entry_is_last(self, addr: PeerAddr, tag: u8, i: int)
        requires
            self.wf(),
            0 <= i < self.entries@.len(),
            self.entries@[i].addr == addr,
            self.entries@[i].tag == tag,
        ensures
            self.spec_last(addr, tag) == self.entries@[i].last,
    {
        let j = choose|j: int|
            0 <= j < self.entries@.len() && (#[trigger] self.entries@[j]).addr == addr
                && self.entries@[j].tag == tag;
        if i < j {
            assert(!(self.entries@[i].addr == self.entries@[j].addr && self.entries@[i].tag
                == self.entries@[j].tag));
        } else if j < i {
            assert(!(self.entries@[j].addr == self.entries@[i].addr && self.entries@[j].tag
                == self.entries@[i].tag));
        }
    }

    /// Decides one inbound reliable datagram: fresh (and recorded) exactly
    /// when its sequence exceeds the stream's last accepted one, otherwise
    /// a duplicate to be dropped. Other streams are untouched.
    pub fn accept(&mut self, addr: PeerAddr, tag: u8, seq: u32) -> (fresh: bool)
        requires
            old(self).wf(),
        ensures
            final(self).wf(),
            fresh == (seq > old(self).spec_last(addr, tag)),
            fresh ==> final(self).spec_last(addr, tag) == seq,
            !fresh ==> *final(self) == *old(self),
            forall|a: PeerAddr, t: u8|
                !(a == addr && t == tag) ==> final(self).spec_last(a, t) == old(self).spec_last(
                    a,
                    t,
                ),
    {
        let n = self.entries.len();
        let mut i: usize = 0;
        while i < n
            invariant
                old(self).wf(),
                *self == *old(self),
                n == self.entries@.len(),
                i <= n,
                forall|k: int|
                    0 <= k < i ==> !((#[trigger] self.entries@[k]).addr == addr
                        && self.entries@[k].tag == tag),
            decreases n - i,
        {
            if self.entries[i].addr.ip == addr.ip && self.entries[i].addr.port == addr.port
                && self.entries[i].tag == tag {
                proof {
                    assert(self.entries@[i as int].addr == addr);
                    old(self).lemma_entry_is_last(addr, tag, i as int);
                }
                let last = self.entries[i].last;
                if seq <= last {
                    return false;
                }
                self.entries[i] = InboundSeqEntry { addr, tag, last: seq };
                proof {
                    assert(self.entries@ =~= old(self).entries@.update(
                        i as int,
                        InboundSeqEntry { addr, tag, last: seq },
                    ));
                    assert(self.wf());
                    self.lemma_entry_is_last(addr, tag, i as int);
                    assert forall|a: PeerAddr, t: u8| !(a == addr && t == tag) implies self
                        .spec_last(a, t) == old(self).spec_last(a, t) by {
                        if exists|k: int|
                            0 <= k < self.entries@.len() && (#[trigger] self.entries@[k]).addr == a
                                && self.entries@[k].tag == t {
                            let k = choose|k: int|
                                0 <= k < self.entries@.len() && (#[trigger] self.entries@[k]).addr
                                    == a && self.entries@[k].tag == t;
                            assert(old(self).entries@[k].addr == a && old(self).entries@[k].tag
                                == t);
                            old(self).lemma_entry_is_last(a, t, k);
                            self.lemma_entry_is_last(a, t, k);
                        } else {
                            assert forall|k: int|
                                0 <= k < old(self).entries@.len() implies !((
                            #[trigger] old(self).entries@[k]).addr == a && old(
                                self,
                            ).entries@[k].tag == t) by {
                                assert(!(self.entries@[k].addr == a && self.entries@[k].tag == t));
                                if k == i as int {
                                    assert(old(self).entries@[k].addr == addr && old(
                                        self,
                                    ).entries@[k].tag == tag);
                                } else {
                                    assert(self.entries@[k] == old(self).entries@[k]);
                                }
                            }
                        }
                    }
                }
                return true;
            }
            i = i + 1;
        }
        proof {
            assert(forall|k: int|
                0 <= k < self.entries@.len() ==> !((#[trigger] self.entries@[k]).addr == addr
                    && self.entries@[k].tag == tag));
            assert(old(self).spec_last(addr, tag) == 0);
        }
        if seq == 0 {
            return false;
        }
        self.entries.push(InboundSeqEntry { addr, tag, last: seq });
        proof {
            assert(self.entries@ =~= old(self).entries@.push(
                InboundSeqEntry { addr, tag, last: seq },
            ));
            assert(self.wf());
            self.lemma_entry_is_last(addr, tag, self.entries@.len() - 1);
            assert forall|a: PeerAddr, t: u8| !(a == addr && t == tag) implies self.spec_last(a, t)
                == old(self).spec_last(a, t) by {
                if exists|k: int|
                    0 <= k < self.entries@.len() && (#[trigger] self.entries@[k]).addr == a
                        && self.entries@[k].tag == t {
                    let k = choose|k: int|
                        0 <= k < self.entries@.len() && (#[trigger] self.entries@[k]).addr == a
                            && self.entries@[k].tag == t;
                    assert(k < self.entries@.len() - 1);
                    assert(old(self).entries@[k].addr == a && old(self).entries@[k].tag == t);
                    old(self).lemma_entry_is_last(a, t, k);
                    self.lemma_entry_is_last(a, t, k);
                } else {
                    assert forall|k: int|
                        0 <= k < old(self).entries@.len() implies !((
                    #[trigger] old(self).entries@[k]).addr == a && old(self).entries@[k].tag
                        == t) by {
                        assert(!(self.entries@[k].addr == a && self.entries@[k].tag == t));
                        assert(self.entries@[k] == old(self).entries@[k]);
                    }
                }
            }
        }
        true
    }
}

/// The accepted subsequence of an inbound sequence-number stream, given
/// the last sequence accepted so far: each number is accepted exactly
/// when it exceeds every previously accepted one (or `last` initially).
pub open spec fn dedup_accepts(last: u32, seqs: Seq<u32>) -> Seq<u32>
    decreases seqs.len(),
{
    if seqs.len() == 0 {
        Seq::empty()
    } else if seqs.first() > last {
        seq![seqs.first()] + dedup_accepts(seqs.first(), seqs.drop_first())
    } else {
        dedup_accepts(last, seqs.drop_first())
    }
}

/// Inbound dedup order: over any inbound stream, the accepted sequences
/// are strictly increasing (hence each is delivered at most once), and
/// all exceed the starting point; gaps are accepted silently.
pub proof fn lemma_dedup_accepts_strictly_increasing(last: u32, seqs: Seq<u32>)
    ensures
        forall|i: int, j: int|
            0 <= i < j < dedup_accepts(last, seqs).len() ==> dedup_accepts(last, seqs)[i]
                < dedup_accepts(last, seqs)[j],
        forall|i: int|
            0 <= i < dedup_accepts(last, seqs).len() ==> dedup_accepts(last, seqs)[i] > last,
    decreases seqs.len(),
{
    let out = dedup_accepts(last, seqs);
    if seqs.len() == 0 {
    } else if seqs.first() > last {
        lemma_dedup_accepts_strictly_increasing(seqs.first(), seqs.drop_first());
        let rest = dedup_accepts(seqs.first(), seqs.drop_first());
        assert(out =~= seq![seqs.first()] + rest);
        assert forall|i: int, j: int| 0 <= i < j < out.len() implies out[i] < out[j] by {
            assert(out[j] == rest[j - 1]);
            assert(rest[j - 1] > seqs.first());
            if i == 0 {
                assert(out[0] == seqs.first());
            } else {
                assert(out[i] == rest[i - 1] && out[j] == rest[j - 1]);
            }
        }
        assert forall|i: int| 0 <= i < out.len() implies out[i] > last by {
            if i == 0 {
                assert(out[0] == seqs.first());
            } else {
                assert(out[i] == rest[i - 1]);
                assert(rest[i - 1] > seqs.first());
            }
        }
    } else {
        lemma_dedup_accepts_strictly_increasing(last, seqs.drop_first());
        let rest = dedup_accepts(last, seqs.drop_first());
        assert(out == rest);
        assert forall|i: int, j: int| 0 <= i < j < out.len() implies out[i] < out[j] by {
            assert(rest[i] < rest[j]);
        }
        assert forall|i: int| 0 <= i < out.len() implies out[i] > last by {
            assert(rest[i] > last);
        }
    }
}

/// One reliable message awaiting acknowledgement.
#[derive(Debug, Clone)]
pub struct PendingReliable {
    pub addr: PeerAddr,
    pub seq: u32,
    pub packet_type: PacketType,
    pub payload: Vec<u8>,
    pub last_send_ms: u64,
    pub attempts: u8,
}

/// Mathematical image of a [`PendingReliable`].
#[verifier::ext_equal]
pub ghost struct PendingV {
    pub addr: PeerAddr,
    pub seq: u32,
    pub packet_type: PacketType,
    pub payload: Seq<u8>,
    pub last_send_ms: u64,
    pub attempts: u8,
}

impl View for PendingReliable {
    type V = PendingV;

    open spec fn view(&self) -> PendingV {
        PendingV {
            addr: self.addr,
            seq: self.seq,
            packet_type: self.packet_type,
            payload: self.payload@,
            last_send_ms: self.last_send_ms,
            attempts: self.attempts,
        }
    }
}

/// How many pending entries address the given destination.
pub open spec fn count_for(s: Seq<PendingV>, addr: PeerAddr) -> int
    decreases s.len(),
{
    if s.len() == 0 {
        0
    } else {
        count_for(s.drop_first(), addr) + if s.first().addr == addr {
            1int
        } else {
            0int
        }
    }
}

/// Whether a pending entry is due for retransmission at `now`: never
/// sent, or older than the retry timeout (measured over the integers).
pub open spec fn resend_due(e: PendingV, now: u64) -> bool {
    e.last_send_ms == 0 || now - e.last_send_ms >= RETRY_TIMEOUT_MS
}

/// A pending entry after one retransmission at `now`: the attempt count
/// rises (saturating) and the send time is stamped.
pub open spec fn bumped(e: PendingV, now: u64) -> PendingV {
    PendingV {
        last_send_ms: now,
        attempts: if e.attempts == 255 {
            255u8
        } else {
            (e.attempts + 1) as u8
        },
        ..e
    }
}

/// The entries a sweep at `now` keeps, in order: abandoned entries
/// (attempts at the cap) leave, due entries are stamped and bumped.
pub open spec fn sweep_kept(s: Seq<PendingV>, now: u64) -> Seq<PendingV>
    decreases s.len(),
{
    if s.len() == 0 {
        Seq::empty()
    } else {
        let rest = sweep_kept(s.drop_first(), now);
        if s.first().attempts >= MAX_ATTEMPTS {
            rest
        } else if resend_due(s.first(), now) {
            seq![bumped(s.first(), now)] + rest
        } else {
            seq![s.first()] + rest
        }
    }
}

/// The entries a sweep at `now` retransmits, in order: exactly the kept
/// entries that were due, after their bump.
pub open spec fn sweep_resends(s: Seq<PendingV>, now: u64) -> Seq<PendingV>
    decreases s.len(),
{
    if s.len() == 0 {
        Seq::empty()
    } else {
        let rest = sweep_resends(s.drop_first(), now);
        if s.first().attempts < MAX_ATTEMPTS && resend_due(s.first(), now) {
            seq![bumped(s.first(), now)] + rest
        } else {
            rest
        }
    }
}

/// Outbound reliability state: the globally monotonic sequence counter
/// and the pending table awaiting acknowledgements.
#[derive(Debug, Clone)]
pub struct ReliableOutbound {
    pub next_seq: u32,
    pub entries: Vec<PendingReliable>,
}

impl View for ReliableOutbound {
    type V = Seq<PendingV>;

    open spec fn view(&self) -> Seq<PendingV> {
        Seq::new(self.entries@.len(), |i: int| self.entries@[i]@)
    }
}

impl ReliableOutbound {
    /// The next sequence number to be assigned.
    pub open spec fn spec_next_seq(self) -> u32 {
        self.next_seq
    }

    /// An empty pending table; sequence numbers start at 1.
    pub fn new() -> (r: ReliableOutbound)
        ensures
            r@ == Seq::<PendingV>::empty(),
            r.spec_next_seq() == 1,
    {
        let r = ReliableOutbound { next_seq: 1, entries: Vec::new() };
        proof {
            assert(r@ =~= Seq::<PendingV>::empty());
        }
        r
    }

    /// The number of pending entries.
    pub fn len(&self) -> (n: usize)
        ensures
            n == self@.len(),
    {
        self.entries.len()
    }

    /// Registers one reliable send: unless the destination already has
    /// `MAX_PENDING_PER_ADDR` entries outstanding (then the send is
    /// silently dropped), assigns the next sequence and appends a pending
    /// entry that was never sent (`last_send_ms` 0, no attempts).
    pub fn register(&mut self, packet_type: PacketType, payload: &[u8], addr: PeerAddr) -> (r:
        Option<u32>)
        ensures
            match r {
                None => count_for(old(self)@, addr) >= MAX_PENDING_PER_ADDR && *final(self) == *old(
                    self,
                ),
                Some(seq) => {
                    &&& count_for(old(self)@, addr) < MAX_PENDING_PER_ADDR
                    &&& seq == old(self).spec_next_seq()
                    &&& final(self).spec_next_seq() == (if old(self).spec_next_seq() == u32::MAX {
                        0u32
                    } else {
                        (old(self).spec_next_seq() + 1) as u32
                    })
                    &&& final(self)@ == old(self)@.push(
                        PendingV {
                            addr,
                            seq,
                            packet_type,
                            payload: payload@,
                            last_send_ms: 0,
                            attempts: 0,
                        },
                    )
                },
            },
    {
        let n = self.entries.len();
        let mut count: usize = 0;
        let mut i: usize = 0;
        while i < n
            invariant
                *self == *old(self),
                n == self.entries@.len(),
                i <= n,
                count == count_for(self@.take(i as int), addr),
                count <= i,
            decreases n - i,
        {
            proof {
                assert(self@.take(i + 1).drop_last() =~= self@.take(i as int));
                lemma_count_for_push(self@.take(i as int), self@[i as int], addr);
                assert(self@.take(i + 1) =~= self@.take(i as int).push(self@[i as int]));
            }
            if self.entries[i].addr.ip == addr.ip && self.entries[i].addr.port == addr.port {
                count = count + 1;
                proof {
                    assert(self@[i as int].addr == addr);
                }
            } else {
                proof {
                    assert(self@[i as int].addr != addr);
                }
            }
            i = i + 1;
        }
        proof {
            assert(self@.take(n as int) =~= self@);
        }
        if count >= MAX_PENDING_PER_ADDR {
            return None;
        }
        let seq = self.next_seq;
        self.next_seq = if self.next_seq == u32::MAX {
            0
        } else {
            self.next_seq + 1
        };
        self.entries.push(
            PendingReliable {
                addr,
                seq,
                packet_type,
                payload: vstd::slice::slice_to_vec(payload),
                last_send_ms: 0,
                attempts: 0,
            },
        );
        proof {
            assert(self@ =~= old(self)@.push(
                PendingV {
                    addr,
                    seq,
                    packet_type,
                    payload: payload@,
                    last_send_ms: 0,
                    attempts: 0,
                },
            ));
        }
        Some(seq)
    }

    /// Removes the pending entry for `(addr, seq)` on acknowledgement;
    /// an unknown acknowledgement changes nothing.
    pub fn ack(&mut self, addr: PeerAddr, seq: u32)
        ensures
            (exists|i: int|
                0 <= i < old(self)@.len() && (#[trigger] old(self)@[i]).addr == addr && old(
                    self,
                )@[i].seq == seq) ==> exists|i: int|
                {
                    &&& 0 <= i < old(self)@.len()
                    &&& (#[trigger] old(self)@[i]).addr == addr
                    &&& old(self)@[i].seq == seq
                    &&& final(self)@ == old(self)@.remove(i)
                },
            !(exists|i: int|
                0 <= i < old(self)@.len() && (#[trigger] old(self)@[i]).addr == addr && old(
                    self,
                )@[i].seq == seq) ==> *final(self) == *old(self),
            final(self).spec_next_seq() == old(self).spec_next_seq(),
    {
        let n = self.entries.len();
        let mut i: usize = 0;
        while i < n
            invariant
                *self == *old(self),
                n == self.entries@.len(),
                i <= n,
                forall|k: int|
                    0 <= k < i ==> !((#[trigger] self@[k]).addr == addr && self@[k].seq == seq),
            decreases n - i,
        {
            if self.entries[i].addr.ip == addr.ip && self.entries[i].addr.port == addr.port
                && self.entries[i].seq == seq {
                proof {
                    assert((old(self)@[i as int]).addr == addr && old(self)@[i as int].seq == seq);
                }
                self.entries.remove(i);
                proof {
                    assert(self@ =~= old(self)@.remove(i as int));
                }
                return ;
            }
            i = i + 1;
        }
    }

    /// The resend sweep at `now`. When the table has grown past
    /// `MAX_PENDING`, everything is drained and nothing is resent (the
    /// emergency valve). Otherwise abandoned entries (attempt cap
    /// reached) are dropped, due entries are retransmitted with their
    /// attempt counts bumped, and the rest wait. Returns the entries to
    /// retransmit, in table order.
    pub fn sweep(&mut self, now: u64) -> (resends: Vec<PendingReliable>)
        ensures
            old(self)@.len() > MAX_PENDING ==> final(self)@ == Seq::<PendingV>::empty()
                && resends@.len() == 0,
            old(self)@.len() <= MAX_PENDING ==> {
                &&& final(self)@ == sweep_kept(old(self)@, now)
                &&& Seq::new(resends@.len(), |i: int| resends@[i]@) == sweep_resends(
                    old(self)@,
                    now,
                )
            },
            final(self).spec_next_seq() == old(self).spec_next_seq(),
    {
        if self.entries.len() > MAX_PENDING {
            self.entries.clear();
            proof {
                assert(self@ =~= Seq::<PendingV>::empty());
            }
            return Vec::new();
        }
        let n = self.entries.len();
        let mut kept: Vec<PendingReliable> = Vec::new();
        let mut resends: Vec<PendingReliable> = Vec::new();
        let mut i: usize = 0;
        proof {
            assert(self@.skip(0) =~= self@);
            assert(Seq::new(kept@.len(), |k: int| kept@[k]@) + sweep_kept(self@, now)
                =~= sweep_kept(self@, now));
            assert(Seq::new(resends@.len(), |k: int| resends@[k]@) + sweep_resends(self@, now)
                =~= sweep_resends(self@, now));
        }
        while i < n
            invariant
                *self == *old(self),
                n == self.entries@.len(),
                i <= n,
                Seq::new(kept@.len(), |k: int| kept@[k]@) + sweep_kept(self@.skip(i as int), now)
                    =~= sweep_kept(self@, now),
                Seq::new(resends@.len(), |k: int| resends@[k]@) + sweep_resends(
                    self@.skip(i as int),
                    now,
                ) =~= sweep_resends(self@, now),
            decreases n - i,
        {
            proof {
                assert(self@.skip(i as int).drop_first() =~= self@.skip(i + 1));
                assert(self@.skip(i as int).first() == self@[i as int]);
            }
            let ghost prev_kept = Seq::new(kept@.len(), |k: int| kept@[k]@);
            let ghost prev_resends = Seq::new(resends@.len(), |k: int| resends@[k]@);
            let e = &self.entries[i];
            if e.attempts >= MAX_ATTEMPTS {
                // abandoned: dropped without a resend
            } else if e.last_send_ms == 0 || (now >= e.last_send_ms && now - e.last_send_ms
                >= RETRY_TIMEOUT_MS) {
                let bumped_entry = PendingReliable {
                    addr: e.addr,
                    seq: e.seq,
                    packet_type: e.packet_type,
                    payload: e.payload.clone(),
                    last_send_ms: now,
                    attempts: if e.attempts == 255 {
                        255
                    } else {
                        e.attempts + 1
                    },
                };
                let resend_entry = PendingReliable {
                    addr: bumped_entry.addr,
                    seq: bumped_entry.seq,
                    packet_type: bumped_entry.packet_type,
                    payload: bumped_entry.payload.clone(),
                    last_send_ms: bumped_entry.last_send_ms,
                    attempts: bumped_entry.attempts,
                };
                proof {
                    assert(bumped_entry@ =~= bumped(self@[i as int], now));
                    assert(resend_entry@ =~= bumped(self@[i as int], now));
                    assert(resend_due(self@[i as int], now));
                }
                kept.push(bumped_entry);
                resends.push(resend_entry);
                proof {
                    assert(Seq::new(kept@.len(), |k: int| kept@[k]@) =~= prev_kept.push(
                        bumped(self@[i as int], now),
                    ));
                    assert(Seq::new(resends@.len(), |k: int| resends@[k]@) =~= prev_resends.push(
                        bumped(self@[i as int], now),
                    ));
                    assert(prev_kept.push(bumped(self@[i as int], now)) + sweep_kept(
                        self@.skip(i + 1),
                        now,
                    ) =~= prev_kept + sweep_kept(self@.skip(i as int), now));
                    assert(prev_resends.push(bumped(self@[i as int], now)) + sweep_resends(
                        self@.skip(i + 1),
                        now,
                    ) =~= prev_resends + sweep_resends(self@.skip(i as int), now));
                }
            } else {
                let waiting = PendingReliable {
                    addr: e.addr,
                    seq: e.seq,
                    packet_type: e.packet_type,
                    payload: e.payload.clone(),
                    last_send_ms: e.last_send_ms,
                    attempts: e.attempts,
                };
                proof {
                    assert(waiting@ =~= self@[i as int]);
                    assert(!resend_due(self@[i as int], now));
                }
                kept.push(waiting);
                proof {
                    assert(Seq::new(kept@.len(), |k: int| kept@[k]@) =~= prev_kept.push(
                        self@[i as int],
                    ));
                    assert(prev_kept.push(self@[i as int]) + sweep_kept(self@.skip(i + 1), now)
                        =~= prev_kept + sweep_kept(self@.skip(i as int), now));
                }
            }
            i = i + 1;
        }
        proof {
            assert(self@.skip(n as int) =~= Seq::<PendingV>::empty());
        }
        self.entries = kept;
        proof {
            assert(self@ =~= sweep_kept(old(self)@, now));
        }
        resends
    }
}

/// Counting per-destination entries distributes over appending one entry.
proof fn lemma_count_for_push(s: Seq<PendingV>, e: PendingV, addr: PeerAddr)
    ensures
        count_for(s.push(e), addr) == count_for(s, addr) + if e.addr == addr {
            1int
        } else {
            0int
        },
    decreases s.len(),
{
    let t = s.push(e);
    if s.len() == 0 {
        assert(t.drop_first() =~= Seq::<PendingV>::empty());
        assert(t.first() == e);
        assert(count_for(t, addr) == count_for(t.drop_first(), addr) + if t.first().addr == addr {
            1int
        } else {
            0int
        });
        assert(count_for(t.drop_first(), addr) == 0);
        assert(count_for(s, addr) == 0);
    } else {
        assert(t.drop_first() =~= s.drop_first().push(e));
        assert(t.first() == s.first());
        assert(count_for(t, addr) == count_for(t.drop_first(), addr) + if t.first().addr == addr {
            1int
        } else {
            0int
        });
        assert(count_for(s, addr) == count_for(s.drop_first(), addr) + if s.first().addr == addr {
            1int
        } else {
            0int
        });
        lemma_count_for_push(s.drop_first(), e, addr);
    }
}

/// The sweep never abandons early and never drops a waiting entry: every
/// kept entry has at most `MAX_ATTEMPTS` attempts, and an entry is
/// retransmitted exactly when it is due and not yet abandoned.
pub proof fn lemma_sweep_attempt_bound(s: Seq<PendingV>, now: u64)
    requires
        forall|i: int| 0 <= i < s.len() ==> (#[trigger] s[i]).attempts <= 255,
    ensures
        forall|i: int|
            0 <= i < sweep_kept(s, now).len() ==> (#[trigger] sweep_kept(s, now)[i]).attempts
                <= MAX_ATTEMPTS,
        sweep_resends(s, now).len() <= s.len(),
    decreases s.len(),
{
    if s.len() == 0 {
    } else {
        assert(forall|i: int|
            0 <= i < s.drop_first().len() ==> (#[trigger] s.drop_first()[i]).attempts <= 255);
        lemma_sweep_attempt_bound(s.drop_first(), now);
    }
}

} // verus!
