//! A plain-value model of the unsent-transaction buffer collaborator:
//! buffered packets with their forwarding bookkeeping, the filter step
//! that hands a pass its account-lock-bounded batches, and the clear
//! step that purges entries a pass has already handed out.
//!
//! Sanitization against ledger state stays outside the library: every
//! packet the buffer holds is assumed well formed, as the forwarder
//! requires of its collaborator.

use vstd::prelude::*;

verus! {

/// Policy tag selecting whether and how the buffer's contents are
/// relayed; derived once per forwarding pass.
#[derive(Clone, Copy, PartialEq, Eq, Structural, Debug)]
pub enum ForwardOption {
    /// The pass is a no-op.
    NotForward,
    /// Relay to the next leader's transaction-forwarding address over
    /// a pooled connection.
    ForwardTransaction,
    /// Relay to the next leader's vote address over the direct
    /// datagram transport.
    ForwardVote,
}

/// One candidate packet. `forwarded` is the wire-level flag carried by
/// the packet itself: a packet another node already relayed is never
/// relayed again. `tracer` marks packets whose journey is traced for
/// instrumentation.
pub struct Packet {
    pub data: Vec<u8>,
    pub forwarded: bool,
    pub tracer: bool,
}

/// Mathematical model of a packet.
pub struct PacketModel {
    pub data: Seq<u8>,
    pub forwarded: bool,
    pub tracer: bool,
}

impl View for Packet {
    type V = PacketModel;

    open spec fn view(&self) -> PacketModel {
        PacketModel { data: self.data@, forwarded: self.forwarded, tracer: self.tracer }
    }
}

/// A buffered packet plus the buffer's own bookkeeping:
/// `marked_forwarded` is set once a forwarding pass has taken the entry
/// into its batches, so later passes skip it and a no-hold pass purges
/// it.
pub struct BufferedPacket {
    pub packet: Packet,
    pub marked_forwarded: bool,
}

/// Mathematical model of a buffered packet.
pub struct BufferedPacketModel {
    pub packet: PacketModel,
    pub marked_forwarded: bool,
}

impl View for BufferedPacket {
    type V = BufferedPacketModel;

    open spec fn view(&self) -> BufferedPacketModel {
        BufferedPacketModel { packet: self.packet@, marked_forwarded: self.marked_forwarded }
    }
}

/// The views of a sequence of packets.
pub open spec fn packet_models(s: Seq<Packet>) -> Seq<PacketModel> {
    s.map_values(|p: Packet| p@)
}

/// The views of a sequence of buffered packets.
pub open spec fn buffered_models(s: Seq<BufferedPacket>) -> Seq<BufferedPacketModel> {
    s.map_values(|b: BufferedPacket| b@)
}

/// The views of a sequence of batches.
pub open spec fn batch_models(s: Seq<Vec<Packet>>) -> Seq<Seq<PacketModel>> {
    s.map_values(|b: Vec<Packet>| packet_models(b@))
}

/// Every entry with its bookkeeping flag set: what a filter pass leaves
/// behind.
pub open spec fn mark_all(s: Seq<BufferedPacketModel>) -> Seq<BufferedPacketModel> {
    s.map_values(
        |e: BufferedPacketModel| BufferedPacketModel { packet: e.packet, marked_forwarded: true },
    )
}

/// The packets of the entries not yet handed to any pass, in buffer
/// order: what the next pass is allowed to forward.
pub open spec fn eligible_packets(s: Seq<BufferedPacketModel>) -> Seq<PacketModel>
    decreases s.len(),
{
    if s.len() == 0 {
        Seq::empty()
    } else {
        let rest = eligible_packets(s.drop_last());
        if !s.last().marked_forwarded {
            rest.push(s.last().packet)
        } else {
            rest
        }
    }
}

/// The entries that survive a purge: those no pass has handed out.
pub open spec fn unmarked_entries(s: Seq<BufferedPacketModel>) -> Seq<BufferedPacketModel>
    decreases s.len(),
{
    if s.len() == 0 {
        Seq::empty()
    } else {
        let rest = unmarked_entries(s.drop_last());
        if !s.last().marked_forwarded {
            rest.push(s.last())
        } else {
            rest
        }
    }
}

/// How many of these packets are tracer packets.
pub open spec fn count_tracer_packets(s: Seq<PacketModel>) -> nat
    decreases s.len(),
{
    if s.len() == 0 {
        0
    } else {
        count_tracer_packets(s.drop_last()) + (if s.last().tracer {
            1nat
        } else {
            0nat
        })
    }
}

/// How many buffered entries hold tracer packets.
pub open spec fn count_tracer_entries(s: Seq<BufferedPacketModel>) -> nat
    decreases s.len(),
{
    if s.len() == 0 {
        0
    } else {
        count_tracer_entries(s.drop_last()) + (if s.last().packet.tracer {
            1nat
        } else {
            0nat
        })
    }
}

/// The eligible packets split into batches of at most `limit` packets,
/// preserving buffer order; every batch is non-empty.
pub open spec fn spec_chunks(s: Seq<PacketModel>, limit: int) -> Seq<Seq<PacketModel>>
    decreases s.len(),
    when limit >= 1
{
    if s.len() == 0 {
        Seq::empty()
    } else {
        let k = if s.len() <= limit {
            s.len() as int
        } else {
            limit
        };
        seq![s.take(k)] + spec_chunks(s.skip(k), limit)
    }
}

/// What one filter pass reports back: how much forwardable work it
/// found. Timing of the pass is measured by the caller that owns the
/// clock.
#[derive(Clone, Copy, PartialEq, Eq, Structural, Debug)]
pub struct FilterResult {
    pub total_forwardable_packets: usize,
    pub total_forwardable_tracer_packets: usize,
    pub total_tracer_packets_in_buffer: usize,
}

/// Batches of forwardable packets grouped so that no batch exceeds the
/// per-account lock limit the producer was configured with.
pub struct ForwardBatches {
    pub batches: Vec<Vec<Packet>>,
    pub batch_limit: usize,
}

/// Batch size used when the caller does not configure one.
pub const DEFAULT_FORWARD_BATCH_LIMIT: usize = 128;

impl ForwardBatches {
    /// Empty batches with the default per-batch packet limit.
    pub fn new_with_default_batch_limits() -> (b: Self)
        ensures
            b.batches@ == Seq::<Vec<Packet>>::empty(),
            b.batch_limit == DEFAULT_FORWARD_BATCH_LIMIT,
    {
        ForwardBatches { batches: Vec::new(), batch_limit: DEFAULT_FORWARD_BATCH_LIMIT }
    }

    /// Empty batches with a caller-chosen per-batch packet limit.
    pub fn new_with_batch_limit(batch_limit: usize) -> (b: Self)
        requires
            batch_limit >= 1,
        ensures
            b.batches@ == Seq::<Vec<Packet>>::empty(),
            b.batch_limit == batch_limit,
    {
        ForwardBatches { batches: Vec::new(), batch_limit }
    }
}

/// Copy one byte buffer; the library never aliases buffered data.
pub fn copy_bytes(v: &Vec<u8>) -> (r: Vec<u8>)
    ensures
        r@ == v@,
{
    let mut data: Vec<u8> = Vec::new();
    let n = v.len();
    let mut i: usize = 0;
    while i < n
        invariant
            i <= n,
            n == v@.len(),
            data@ == v@.take(i as int),
        decreases n - i,
    {
        data.push(v[i]);
        proof {
            assert(data@ =~= v@.take(i + 1 as int));
        }
        i += 1;
    }
    proof {
        assert(data@ =~= v@);
    }
    data
}

/// Copy one packet.
pub fn clone_packet(p: &Packet) -> (r: Packet)
    ensures
        r@ == p@,
{
    Packet { data: copy_bytes(&p.data), forwarded: p.forwarded, tracer: p.tracer }
}

/// Scan the buffer once: rebuild every entry with its bookkeeping flag
/// set, collect the packets of the previously unmarked entries in
/// order, and count the tracer packets seen.
fn scan_buffer(entries: &Vec<BufferedPacket>) -> (r: (
    Vec<BufferedPacket>,
    Vec<Packet>,
    FilterResult,
))
    ensures
        buffered_models(r.0@) == mark_all(buffered_models(entries@)),
        packet_models(r.1@) == eligible_packets(buffered_models(entries@)),
        r.2.total_forwardable_packets == eligible_packets(buffered_models(entries@)).len(),
        r.2.total_forwardable_tracer_packets == count_tracer_packets(
            eligible_packets(buffered_models(entries@)),
        ),
        r.2.total_tracer_packets_in_buffer == count_tracer_entries(buffered_models(entries@)),
{
    let n = entries.len();
    let mut marked: Vec<BufferedPacket> = Vec::new();
    let mut eligible: Vec<Packet> = Vec::new();
    let mut tracer_eligible: usize = 0;
    let mut tracer_total: usize = 0;
    let mut i: usize = 0;
    while i < n
        invariant
            i <= n,
            n == entries@.len(),
            buffered_models(marked@) == mark_all(buffered_models(entries@.take(i as int))),
            packet_models(eligible@) == eligible_packets(buffered_models(entries@.take(i as int))),
            eligible@.len() <= i,
            tracer_eligible == count_tracer_packets(
                eligible_packets(buffered_models(entries@.take(i as int))),
            ),
            tracer_total == count_tracer_entries(buffered_models(entries@.take(i as int))),
            tracer_eligible <= i,
            tracer_total <= i,
        decreases n - i,
    {
        let ghost prefix = buffered_models(entries@.take(i as int));
        let ghost next = buffered_models(entries@.take(i + 1 as int));
        proof {
            assert(next.drop_last() =~= prefix);
            assert(next.last() == entries@[i as int]@);
            assert(count_tracer_entries(next) == count_tracer_entries(prefix) + (
            if entries@[i as int]@.packet.tracer {
                1nat
            } else {
                0nat
            }));
        }
        let ghost pm = entries@[i as int].packet@;
        let ghost m0 = buffered_models(marked@);
        let ghost e0 = packet_models(eligible@);
        let packet = clone_packet(&entries[i].packet);
        if !entries[i].marked_forwarded {
            if packet.tracer {
                tracer_eligible += 1;
            }
            let packet_copy = clone_packet(&entries[i].packet);
            eligible.push(packet_copy);
            marked.push(BufferedPacket { packet, marked_forwarded: true });
            proof {
                assert(packet_models(eligible@) =~= e0.push(pm));
                assert(eligible_packets(next) == e0.push(pm));
                assert(e0.push(pm).drop_last() =~= e0);
                assert(e0.push(pm).last() == pm);
                assert(count_tracer_packets(e0.push(pm)) == count_tracer_packets(e0) + (
                if pm.tracer {
                    1nat
                } else {
                    0nat
                }));
            }
        } else {
            marked.push(BufferedPacket { packet, marked_forwarded: true });
            proof {
                assert(packet_models(eligible@) == e0);
                assert(eligible_packets(next) == e0);
            }
        }
        if entries[i].packet.tracer {
            tracer_total += 1;
        }
        proof {
            assert(forall|t: int| 0 <= t < i ==> next[t] == prefix[t]);
            assert(buffered_models(marked@) =~= m0.push(
                (BufferedPacketModel { packet: pm, marked_forwarded: true }),
            ));
            assert(mark_all(next) =~= m0.push(
                (BufferedPacketModel { packet: pm, marked_forwarded: true }),
            ));
        }
        i += 1;
    }
    proof {
        assert(entries@.take(n as int) =~= entries@);
    }
    let result = FilterResult {
        total_forwardable_packets: eligible.len(),
        total_forwardable_tracer_packets: tracer_eligible,
        total_tracer_packets_in_buffer: tracer_total,
    };
    (marked, eligible, result)
}

/// Split `packets` into consecutive batches of at most `limit` packets.
fn chunk_packets(packets: Vec<Packet>, limit: usize) -> (out: Vec<Vec<Packet>>)
    requires
        limit >= 1,
    ensures
        batch_models(out@) == spec_chunks(packet_models(packets@), limit as int),
{
    let n = packets.len();
    let mut out: Vec<Vec<Packet>> = Vec::new();
    let mut i: usize = 0;
    proof {
        assert(packet_models(packets@).skip(0) =~= packet_models(packets@));
        assert(batch_models(out@) =~= Seq::<Seq<PacketModel>>::empty());
    }
    while i < n
        invariant
            i <= n,
            limit >= 1,
            n == packets@.len(),
            batch_models(out@) + spec_chunks(packet_models(packets@).skip(i as int), limit as int)
                == spec_chunks(packet_models(packets@), limit as int),
        decreases n - i,
    {
        let remaining = n - i;
        let k = if remaining <= limit {
            remaining
        } else {
            limit
        };
        let mut chunk: Vec<Packet> = Vec::new();
        let mut j: usize = 0;
        while j < k
            invariant
                j <= k,
                i + k <= n,
                n == packets@.len(),
                packet_models(chunk@) == packet_models(packets@).subrange(
                    i as int,
                    i + j as int,
                ),
            decreases k - j,
        {
            let ghost c0 = packet_models(chunk@);
            chunk.push(clone_packet(&packets[i + j]));
            proof {
                assert(packet_models(chunk@) =~= c0.push(packets@[i + j as int]@));
                assert(packet_models(chunk@) =~= packet_models(packets@).subrange(
                    i as int,
                    i + j + 1 as int,
                ));
            }
            j += 1;
        }
        let ghost whole = packet_models(packets@);
        let ghost tail = whole.skip(i as int);
        proof {
            assert(tail.len() == n - i);
            assert(tail.take(k as int) =~= whole.subrange(i as int, i + k as int));
            assert(tail.skip(k as int) =~= whole.skip(i + k as int));
            assert(spec_chunks(tail, limit as int) == seq![tail.take(k as int)] + spec_chunks(
                tail.skip(k as int),
                limit as int,
            ));
        }
        out.push(chunk);
        proof {
            assert(batch_models(out@) + spec_chunks(whole.skip(i + k as int), limit as int)
                =~= spec_chunks(whole, limit as int));
        }
        i += k;
    }
    proof {
        assert(packet_models(packets@).skip(i as int) =~= Seq::<PacketModel>::empty());
        assert(batch_models(out@) + Seq::<Seq<PacketModel>>::empty() =~= batch_models(out@));
    }
    out
}

/// The buffer of not-yet-processed transactions a forwarding pass works
/// over, together with the relay policy its producer configured.
pub struct TransactionBuffer {
    pub packets: Vec<BufferedPacket>,
    pub forward_option: ForwardOption,
}

impl TransactionBuffer {
    /// An empty buffer with the given relay policy.
    pub fn new(forward_option: ForwardOption) -> (b: Self)
        ensures
            buffered_models(b.packets@) == Seq::<BufferedPacketModel>::empty(),
            b.forward_option == forward_option,
    {
        let b = TransactionBuffer { packets: Vec::new(), forward_option };
        proof {
            assert(buffered_models(b.packets@) =~= Seq::<BufferedPacketModel>::empty());
        }
        b
    }

    /// Add one fresh (not yet handed out) packet at the back.
    pub fn push_packet(&mut self, packet: Packet)
        ensures
            buffered_models(final(self).packets@) == buffered_models(old(self).packets@).push(
                (BufferedPacketModel { packet: packet@, marked_forwarded: false }),
            ),
            final(self).forward_option == old(self).forward_option,
    {
        let ghost prior = buffered_models(self.packets@);
        let ghost model = packet@;
        self.packets.push(BufferedPacket { packet, marked_forwarded: false });
        proof {
            assert(buffered_models(self.packets@) =~= prior.push(
                (BufferedPacketModel { packet: model, marked_forwarded: false }),
            ));
        }
    }

    /// How many packets the buffer holds, handed out or not.
    pub fn len(&self) -> (n: usize)
        ensures
            n == self.packets@.len(),
    {
        self.packets.len()
    }

    /// The relay policy for the next pass.
    pub fn forward_option(&self) -> (opt: ForwardOption)
        ensures
            opt == self.forward_option,
    {
        self.forward_option
    }

    /// Hand the next pass its work: append the packets of every entry
    /// not yet handed out, in buffer order and in batches of at most
    /// the configured limit, to `batches`; mark every entry as handed
    /// out; and report how much forwardable work was found.
    pub fn filter_forwardable_packets_and_add_batches(
        &mut self,
        batches: &mut ForwardBatches,
    ) -> (r: FilterResult)
        requires
            old(batches).batch_limit >= 1,
        ensures
            buffered_models(final(self).packets@) == mark_all(
                buffered_models(old(self).packets@),
            ),
            final(self).forward_option == old(self).forward_option,
            final(batches).batch_limit == old(batches).batch_limit,
            batch_models(final(batches).batches@) == batch_models(old(batches).batches@)
                + spec_chunks(
                eligible_packets(buffered_models(old(self).packets@)),
                old(batches).batch_limit as int,
            ),
            r.total_forwardable_packets == eligible_packets(
                buffered_models(old(self).packets@),
            ).len(),
            r.total_forwardable_tracer_packets == count_tracer_packets(
                eligible_packets(buffered_models(old(self).packets@)),
            ),
            r.total_tracer_packets_in_buffer == count_tracer_entries(
                buffered_models(old(self).packets@),
            ),
    {
        let (marked, eligible, result) = scan_buffer(&self.packets);
        self.packets = marked;
        let mut chunks = chunk_packets(eligible, batches.batch_limit);
        let ghost prior = batch_models(batches.batches@);
        let ghost added = batch_models(chunks@);
        batches.batches.append(&mut chunks);
        proof {
            assert(batch_models(batches.batches@) =~= prior + added);
        }
        result
    }

    /// Purge every entry a pass has handed out; entries never handed
    /// out stay, in order.
    pub fn clear_forwarded_packets(&mut self)
        ensures
            buffered_models(final(self).packets@) == unmarked_entries(
                buffered_models(old(self).packets@),
            ),
            final(self).forward_option == old(self).forward_option,
    {
        let n = self.packets.len();
        let mut kept: Vec<BufferedPacket> = Vec::new();
        let mut i: usize = 0;
        proof {
            assert(buffered_models(kept@) =~= unmarked_entries(
                buffered_models(self.packets@.take(0)),
            ));
        }
        while i < n
            invariant
                i <= n,
                n == self.packets@.len(),
                self.packets@ == old(self).packets@,
                buffered_models(kept@) == unmarked_entries(
                    buffered_models(self.packets@.take(i as int)),
                ),
            decreases n - i,
        {
            let ghost prefix = buffered_models(self.packets@.take(i as int));
            let ghost next = buffered_models(self.packets@.take(i + 1 as int));
            proof {
                assert(next.drop_last() =~= prefix);
                assert(next.last() == self.packets@[i as int]@);
            }
            if !self.packets[i].marked_forwarded {
                let entry = &self.packets[i];
                kept.push(
                    BufferedPacket {
                        packet: clone_packet(&entry.packet),
                        marked_forwarded: entry.marked_forwarded,
                    },
                );
            }
            proof {
                assert(buffered_models(kept@) =~= unmarked_entries(next));
            }
            i += 1;
        }
        proof {
            assert(self.packets@.take(n as int) =~= self.packets@);
        }
        self.packets = kept;
    }
}

/// Law: entries already handed to a pass yield nothing to the next
/// pass — a buffer whose entries are all marked has no eligible
/// packets, so nothing is re-sent or re-counted.
pub proof fn lemma_marked_entries_yield_nothing(s: Seq<BufferedPacketModel>)
    requires
        forall|i: int| 0 <= i < s.len() ==> (#[trigger] s[i]).marked_forwarded,
    ensures
        eligible_packets(s) == Seq::<PacketModel>::empty(),
    decreases s.len(),
{
    if s.len() > 0 {
        assert(s.last() == s[s.len() - 1]);
        lemma_marked_entries_yield_nothing(s.drop_last());
    }
    assert(eligible_packets(s) =~= Seq::<PacketModel>::empty());
}

/// Law: in a buffer of only fresh entries, every packet is eligible
/// for the next pass.
pub proof fn lemma_fresh_entries_all_eligible(s: Seq<BufferedPacketModel>)
    requires
        forall|i: int| 0 <= i < s.len() ==> !(#[trigger] s[i]).marked_forwarded,
    ensures
        eligible_packets(s).len() == s.len(),
    decreases s.len(),
{
    if s.len() > 0 {
        assert(s.last() == s[s.len() - 1]);
        lemma_fresh_entries_all_eligible(s.drop_last());
    }
}

/// Law: a purge right after a filter pass empties the buffer — the
/// filter marks every entry, and the purge keeps none of them.
pub proof fn lemma_clear_after_mark_empties(s: Seq<BufferedPacketModel>)
    ensures
        unmarked_entries(mark_all(s)) == Seq::<BufferedPacketModel>::empty(),
    decreases s.len(),
{
    if s.len() > 0 {
        assert(mark_all(s).drop_last() =~= mark_all(s.drop_last()));
        lemma_clear_after_mark_empties(s.drop_last());
    }
    assert(unmarked_entries(mark_all(s)) =~= Seq::<BufferedPacketModel>::empty());
}

/// Law: a filter pass marks every entry it leaves behind.
pub proof fn lemma_mark_all_marks(s: Seq<BufferedPacketModel>)
    ensures
        mark_all(s).len() == s.len(),
        forall|i: int| 0 <= i < s.len() ==> (#[trigger] mark_all(s)[i]).marked_forwarded,
{
}

} // verus!
