//! The forwarding pass: one invocation relays the buffer's eligible
//! packets toward the current leader, under the outbound byte budget.
//!
//! The pass pulls batches from the transaction buffer, resolves the
//! destination from the leader information its caller supplies (the
//! leader schedule lives outside the library), refreshes and draws on
//! the rate budget, sends votes over the direct datagram path and
//! everything else over a pooled non-blocking connection, and accounts
//! successes and failures per batch: a transport error counts the whole
//! batch as failed.

use vstd::prelude::*;

use crate::connection_cache::CacheModel;
use crate::connection_cache::ConnectionCache;
use crate::rate_budget::RateBudget;
use crate::rate_budget::spec_update;
use crate::transaction_buffer::BufferedPacketModel;
use crate::transaction_buffer::DEFAULT_FORWARD_BATCH_LIMIT;
use crate::transaction_buffer::ForwardBatches;
use crate::transaction_buffer::ForwardOption;
use crate::transaction_buffer::Packet;
use crate::transaction_buffer::PacketModel;
use crate::transaction_buffer::TransactionBuffer;
use crate::transaction_buffer::batch_models;
use crate::transaction_buffer::buffered_models;
use crate::transaction_buffer::copy_bytes;
use crate::transaction_buffer::eligible_packets;
use crate::transaction_buffer::lemma_clear_after_mark_empties;
use crate::transaction_buffer::lemma_fresh_entries_all_eligible;
use crate::transaction_buffer::lemma_marked_entries_yield_nothing;
use crate::transaction_buffer::mark_all;
use crate::transaction_buffer::packet_models;
use crate::transaction_buffer::spec_chunks;
use crate::transaction_buffer::unmarked_entries;
use crate::transport::Protocol;
use crate::transport::SocketAddress;
use crate::transport::TransmissionModel;
use crate::transport::TransportError;
use crate::transport::TransportSink;
use crate::transport::payload_models;

verus! {

/// How often the forwarding budget refills.
pub const FORWARD_REFILL_INTERVAL_MS: u64 = 100;

/// Sustained outbound limit: 12 MB per second, spread over the refill
/// interval.
pub const FORWARD_MAX_BYTES_PER_INTERVAL: usize = 12_000_000 * 100 / 1000;

/// Budget ceiling: five intervals' worth, allowing a limited burst
/// after idle periods.
pub const FORWARD_MAX_BYTES_BUDGET: usize = FORWARD_MAX_BYTES_PER_INTERVAL * 5;

/// The resolved next leader: its identity and the address packets for
/// it should be sent to. Produced by the leader-schedule collaborator
/// outside the library; `None` stands for "no leader currently known".
#[derive(Clone, Copy, PartialEq, Eq, Structural, Debug)]
pub struct LeaderInfo {
    pub leader: u64,
    pub addr: SocketAddress,
}

/// Per-pass counters reported into metrics. Saturating: a counter
/// pegged at the maximum stays there rather than wrapping.
#[derive(Clone, Copy, PartialEq, Eq, Structural, Debug)]
pub struct ForwardingStats {
    pub forwardable_batches: u64,
    pub successful_forwarded_packets: u64,
    pub failed_forwarded_packets: u64,
    pub packet_batch_forward_failures: u64,
    pub forwarded_transaction_count: u64,
    pub forwarded_vote_count: u64,
    pub forwardable_tracer_packets: u64,
    pub cleared_from_buffer_after_forward: u64,
    pub cleared_tracer_packets: u64,
}

impl ForwardingStats {
    /// All counters at zero.
    pub fn new() -> (st: Self)
        ensures
            st == (ForwardingStats {
                forwardable_batches: 0,
                successful_forwarded_packets: 0,
                failed_forwarded_packets: 0,
                packet_batch_forward_failures: 0,
                forwarded_transaction_count: 0,
                forwarded_vote_count: 0,
                forwardable_tracer_packets: 0,
                cleared_from_buffer_after_forward: 0,
                cleared_tracer_packets: 0,
            }),
    {
        ForwardingStats {
            forwardable_batches: 0,
            successful_forwarded_packets: 0,
            failed_forwarded_packets: 0,
            packet_batch_forward_failures: 0,
            forwarded_transaction_count: 0,
            forwarded_vote_count: 0,
            forwardable_tracer_packets: 0,
            cleared_from_buffer_after_forward: 0,
            cleared_tracer_packets: 0,
        }
    }
}

/// Saturating add on a counter.
pub open spec fn sat_add(a: u64, b: int) -> u64 {
    if a + b > u64::MAX {
        u64::MAX
    } else {
        (a + b) as u64
    }
}

/// Saturating add, executably.
fn add_sat(a: u64, b: u64) -> (r: u64)
    ensures
        r == sat_add(a, b as int),
{
    match a.checked_add(b) {
        Some(sum) => sum,
        None => u64::MAX,
    }
}

/// What budget admission does to one batch: packets are considered in
/// batch order; a packet already flagged forwarded on the wire is
/// skipped, any other packet is admitted exactly when its full size is
/// still available in the budget, and admitted packets' bytes are
/// deducted as they are admitted. Returns the admitted payloads in
/// order and the budget that remains.
pub open spec fn spec_admit(batch: Seq<PacketModel>, b: RateBudget) -> (Seq<Seq<u8>>, RateBudget)
    decreases batch.len(),
{
    if batch.len() == 0 {
        (Seq::empty(), b)
    } else {
        let p = batch[0];
        if !p.forwarded && p.data.len() <= b.bytes_available {
            let b2 = RateBudget {
                bytes_available: (b.bytes_available - p.data.len()) as usize,
                last_refill_ms: b.last_refill_ms,
            };
            let rest = spec_admit(batch.skip(1), b2);
            (seq![p.data] + rest.0, rest.1)
        } else {
            spec_admit(batch.skip(1), b)
        }
    }
}

/// Everything one batch-forwarding step changes or reports.
pub struct ForwardOutcome {
    /// The budget after refresh and admission.
    pub budget: RateBudget,
    /// The connection cache after any pooled lookup.
    pub cache: CacheModel,
    /// The transmissions put on the wire: one batch, or nothing.
    pub sends: Seq<TransmissionModel>,
    /// How many packets passed budget admission.
    pub admitted: nat,
    /// How many packets count as successfully forwarded.
    pub successes: nat,
    /// The leader the batch was addressed to, if one was resolved.
    pub leader: Option<u64>,
    /// Whether the transport refused the batch.
    pub failed_send: bool,
}

/// What forwarding one non-empty batch does. With no relaying policy or
/// no resolvable leader the step is a no-op. Otherwise the budget is
/// refreshed once, the batch is admitted against it in order, and the
/// admitted payloads — if any — go out as one transmission: votes over
/// the direct datagram path, transactions over a pooled non-blocking
/// connection. A transport failure yields zero successes for the whole
/// batch.
pub open spec fn spec_forward(
    batch: Seq<PacketModel>,
    opt: ForwardOption,
    tx_leader: Option<LeaderInfo>,
    vote_leader: Option<LeaderInfo>,
    now_ms: u64,
    failing: bool,
    b: RateBudget,
    c: CacheModel,
) -> ForwardOutcome {
    let resolved = match opt {
        ForwardOption::NotForward => None,
        ForwardOption::ForwardTransaction => tx_leader,
        ForwardOption::ForwardVote => vote_leader,
    };
    match resolved {
        None => ForwardOutcome {
            budget: b,
            cache: c,
            sends: Seq::empty(),
            admitted: 0,
            successes: 0,
            leader: None,
            failed_send: false,
        },
        Some(info) => {
            let b1 = spec_update(
                b,
                now_ms,
                FORWARD_REFILL_INTERVAL_MS,
                FORWARD_MAX_BYTES_PER_INTERVAL,
                FORWARD_MAX_BYTES_BUDGET,
            );
            let ad = spec_admit(batch, b1);
            let payloads = ad.0;
            if payloads.len() == 0 {
                ForwardOutcome {
                    budget: ad.1,
                    cache: c,
                    sends: Seq::empty(),
                    admitted: 0,
                    successes: 0,
                    leader: Some(info.leader),
                    failed_send: false,
                }
            } else if opt == ForwardOption::ForwardVote {
                if failing {
                    ForwardOutcome {
                        budget: ad.1,
                        cache: c,
                        sends: Seq::empty(),
                        admitted: payloads.len(),
                        successes: 0,
                        leader: Some(info.leader),
                        failed_send: true,
                    }
                } else {
                    ForwardOutcome {
                        budget: ad.1,
                        cache: c,
                        sends: seq![
                            TransmissionModel {
                                addr: info.addr,
                                protocol: Protocol::Udp,
                                connection_id: None,
                                payloads,
                            },
                        ],
                        admitted: payloads.len(),
                        successes: payloads.len(),
                        leader: Some(info.leader),
                        failed_send: false,
                    }
                }
            } else {
                let looked_up = c.spec_get(info.addr);
                if failing {
                    ForwardOutcome {
                        budget: ad.1,
                        cache: looked_up.0,
                        sends: Seq::empty(),
                        admitted: payloads.len(),
                        successes: 0,
                        leader: Some(info.leader),
                        failed_send: true,
                    }
                } else {
                    ForwardOutcome {
                        budget: ad.1,
                        cache: looked_up.0,
                        sends: seq![
                            TransmissionModel {
                                addr: info.addr,
                                protocol: looked_up.1.protocol,
                                connection_id: Some(looked_up.1.id),
                                payloads,
                            },
                        ],
                        admitted: payloads.len(),
                        successes: payloads.len(),
                        leader: Some(info.leader),
                        failed_send: false,
                    }
                }
            }
        },
    }
}

/// The counter updates the batch-forwarding step itself makes: the
/// vote or transaction counter grows by the number of admitted packets
/// as soon as they are handed to the transport, success or not.
pub open spec fn spec_forward_stats(
    st: ForwardingStats,
    o: ForwardOutcome,
    opt: ForwardOption,
) -> ForwardingStats {
    if o.admitted > 0 {
        if opt == ForwardOption::ForwardVote {
            ForwardingStats {
                forwarded_vote_count: sat_add(st.forwarded_vote_count, o.admitted as int),
                ..st
            }
        } else {
            ForwardingStats {
                forwarded_transaction_count: sat_add(
                    st.forwarded_transaction_count,
                    o.admitted as int,
                ),
                ..st
            }
        }
    } else {
        st
    }
}

/// The counter updates the pass makes around one non-empty batch:
/// count the batch, count the pass's forwardable tracer packets once a
/// leader is resolved, and count failures as the difference between the
/// admitted and the successfully forwarded packets — on a transport
/// error the whole admitted batch counts as failed, not partially
/// failed.
pub open spec fn spec_batch_stats(
    st: ForwardingStats,
    o: ForwardOutcome,
    opt: ForwardOption,
    tracer_count: u64,
) -> ForwardingStats {
    let st1 = ForwardingStats {
        forwardable_batches: sat_add(st.forwardable_batches, 1),
        ..st
    };
    let st2 = spec_forward_stats(st1, o, opt);
    let st3 = if o.leader is Some {
        ForwardingStats {
            forwardable_tracer_packets: sat_add(
                st2.forwardable_tracer_packets,
                tracer_count as int,
            ),
            ..st2
        }
    } else {
        st2
    };
    let failed: int = if o.admitted >= o.successes {
        o.admitted - o.successes
    } else {
        0
    };
    let st4 = if failed > 0 {
        ForwardingStats {
            failed_forwarded_packets: sat_add(st3.failed_forwarded_packets, failed),
            packet_batch_forward_failures: sat_add(st3.packet_batch_forward_failures, 1),
            ..st3
        }
    } else {
        st3
    };
    if o.successes > 0 {
        ForwardingStats {
            successful_forwarded_packets: sat_add(
                st4.successful_forwarded_packets,
                o.successes as int,
            ),
            ..st4
        }
    } else {
        st4
    }
}

/// Everything one whole pass leaves behind.
pub struct PassOutcome {
    pub budget: RateBudget,
    pub cache: CacheModel,
    pub log: Seq<TransmissionModel>,
    pub stats: ForwardingStats,
}

/// What processing the pass's batches in order does: empty batches are
/// skipped outright; each non-empty batch goes through the
/// batch-forwarding step, threading the budget, the cache, the
/// transport log and the counters.
pub open spec fn spec_run_batches(
    batches: Seq<Seq<PacketModel>>,
    opt: ForwardOption,
    tx_leader: Option<LeaderInfo>,
    vote_leader: Option<LeaderInfo>,
    now_ms: u64,
    failing: bool,
    tracer_count: u64,
    b: RateBudget,
    c: CacheModel,
    log: Seq<TransmissionModel>,
    st: ForwardingStats,
) -> PassOutcome
    decreases batches.len(),
{
    if batches.len() == 0 {
        PassOutcome { budget: b, cache: c, log, stats: st }
    } else {
        let batch = batches[0];
        if batch.len() == 0 {
            spec_run_batches(
                batches.skip(1),
                opt,
                tx_leader,
                vote_leader,
                now_ms,
                failing,
                tracer_count,
                b,
                c,
                log,
                st,
            )
        } else {
            let o = spec_forward(batch, opt, tx_leader, vote_leader, now_ms, failing, b, c);
            let st2 = spec_batch_stats(st, o, opt, tracer_count);
            spec_run_batches(
                batches.skip(1),
                opt,
                tx_leader,
                vote_leader,
                now_ms,
                failing,
                tracer_count,
                o.budget,
                o.cache,
                log + o.sends,
                st2,
            )
        }
    }
}

/// What a whole forwarding pass does to the counters and to the buffer:
/// run the eligible packets' batches, and under no-hold semantics also
/// count the purged packets.
pub open spec fn spec_pass_stats(
    pass_stats: ForwardingStats,
    hold: bool,
    forwardable: nat,
    tracer_in_buffer: nat,
) -> ForwardingStats {
    if !hold {
        ForwardingStats {
            cleared_from_buffer_after_forward: sat_add(
                pass_stats.cleared_from_buffer_after_forward,
                forwardable as int,
            ),
            cleared_tracer_packets: sat_add(
                pass_stats.cleared_tracer_packets,
                tracer_in_buffer as int,
            ),
            ..pass_stats
        }
    } else {
        pass_stats
    }
}

/// Admit one batch against the budget: skip wire-flagged packets, then
/// deduct each remaining packet's size if it still fits.
fn admit_packets(batch: &Vec<Packet>, budget: &mut RateBudget) -> (payloads: Vec<Vec<u8>>)
    ensures
        ({
            let a = spec_admit(packet_models(batch@), *old(budget));
            &&& payload_models(payloads@) == a.0
            &&& *final(budget) == a.1
        }),
{
    let ghost b0 = *budget;
    let ghost whole = packet_models(batch@);
    let mut b = *budget;
    let mut payloads: Vec<Vec<u8>> = Vec::new();
    let n = batch.len();
    let mut i: usize = 0;
    proof {
        assert(whole.skip(0) =~= whole);
        assert(payload_models(payloads@) =~= Seq::<Seq<u8>>::empty());
        assert(Seq::<Seq<u8>>::empty() + spec_admit(whole, b0).0 =~= spec_admit(whole, b0).0);
    }
    while i < n
        invariant
            i <= n,
            n == batch@.len(),
            whole == packet_models(batch@),
            spec_admit(whole, b0).0 == payload_models(payloads@) + spec_admit(
                whole.skip(i as int),
                b,
            ).0,
            spec_admit(whole, b0).1 == spec_admit(whole.skip(i as int), b).1,
        decreases n - i,
    {
        let ghost tail = whole.skip(i as int);
        proof {
            assert(tail.len() == n - i);
            assert(tail[0] == whole[i as int]);
            assert(tail.skip(1) =~= whole.skip(i + 1 as int));
        }
        let p = &batch[i];
        let size = p.data.len();
        if !p.forwarded && size <= b.bytes_available {
            b.bytes_available = b.bytes_available - size;
            let ghost pay0 = payload_models(payloads@);
            payloads.push(copy_bytes(&p.data));
            proof {
                assert(payload_models(payloads@) =~= pay0.push(whole[i as int].data));
                assert(pay0.push(whole[i as int].data) =~= pay0 + seq![whole[i as int].data]);
                assert(pay0 + (seq![whole[i as int].data] + spec_admit(
                    whole.skip(i + 1 as int),
                    b,
                ).0) =~= (pay0 + seq![whole[i as int].data]) + spec_admit(
                    whole.skip(i + 1 as int),
                    b,
                ).0);
            }
        }
        i += 1;
    }
    proof {
        assert(whole.skip(n as int) =~= Seq::<PacketModel>::empty());
        assert(payload_models(payloads@) + Seq::<Seq<u8>>::empty() =~= payload_models(payloads@));
    }
    *budget = b;
    payloads
}

/// The top-level orchestrator of one forwarding pass.
pub struct Forwarder;

impl Forwarder {
    /// Forward one non-empty batch: resolve the destination for the
    /// pass's policy, refresh the budget, admit packets against it, and
    /// hand the admitted payloads to the transport. Returns the
    /// transport result, the number of successfully forwarded packets,
    /// the number of admitted packets, and the resolved leader.
    fn forward_buffered_packets(
        connection_cache: &mut ConnectionCache,
        forward_option: ForwardOption,
        tx_leader: Option<LeaderInfo>,
        vote_leader: Option<LeaderInfo>,
        transport: &mut TransportSink,
        batch: &Vec<Packet>,
        data_budget: &mut RateBudget,
        now_ms: u64,
        stats: &mut ForwardingStats,
    ) -> (r: (Result<(), TransportError>, usize, usize, Option<u64>))
        requires
            old(connection_cache).wf(),
        ensures
            ({
                let o = spec_forward(
                    packet_models(batch@),
                    forward_option,
                    tx_leader,
                    vote_leader,
                    now_ms,
                    old(transport).failing,
                    *old(data_budget),
                    old(connection_cache)@,
                );
                &&& *final(data_budget) == o.budget
                &&& final(connection_cache)@ == o.cache
                &&& final(connection_cache).wf()
                &&& final(connection_cache).config() == old(connection_cache).config()
                &&& final(transport).log() == old(transport).log() + o.sends
                &&& final(transport).failing == old(transport).failing
                &&& *final(stats) == spec_forward_stats(*old(stats), o, forward_option)
                &&& r.1 == o.successes
                &&& r.2 == o.admitted
                &&& r.3 == o.leader
                &&& r.0 == (if o.failed_send {
                    Result::<(), TransportError>::Err(TransportError::SendFailed)
                } else {
                    Result::<(), TransportError>::Ok(())
                })
            }),
    {
        let ghost log0 = old(transport).log();
        let resolved = match forward_option {
            ForwardOption::NotForward => None,
            ForwardOption::ForwardTransaction => tx_leader,
            ForwardOption::ForwardVote => vote_leader,
        };
        let info = match resolved {
            Some(info) => info,
            None => {
                proof {
                    assert(transport.log() =~= log0 + Seq::<TransmissionModel>::empty());
                }
                return (Ok(()), 0, 0, None);
            },
        };
        let _ = data_budget.update(
            now_ms,
            FORWARD_REFILL_INTERVAL_MS,
            FORWARD_MAX_BYTES_PER_INTERVAL,
            FORWARD_MAX_BYTES_BUDGET,
        );
        let payloads = admit_packets(batch, data_budget);
        let n_admitted = payloads.len();
        if n_admitted == 0 {
            proof {
                assert(transport.log() =~= log0 + Seq::<TransmissionModel>::empty());
            }
            return (Ok(()), 0, 0, Some(info.leader));
        }
        let res = if forward_option == ForwardOption::ForwardVote {
            stats.forwarded_vote_count = add_sat(stats.forwarded_vote_count, n_admitted as u64);
            // The vote must be forwarded over the datagram transport
            // only, bypassing the pool.
            transport.send_batch_direct(info.addr, payloads)
        } else {
            stats.forwarded_transaction_count = add_sat(
                stats.forwarded_transaction_count,
                n_admitted as u64,
            );
            let conn = connection_cache.get_nonblocking_connection(info.addr);
            conn.send_data_batch_async(transport, payloads)
        };
        match res {
            Err(err) => {
                proof {
                    assert(transport.log() =~= log0 + Seq::<TransmissionModel>::empty());
                }
                (Err(err), 0, n_admitted, Some(info.leader))
            },
            Ok(()) => {
                proof {
                    assert(log0.push(transport.log().last()) =~= log0 + seq![
                        transport.log().last(),
                    ]);
                }
                (Ok(()), n_admitted, n_admitted, Some(info.leader))
            },
        }
    }

    /// Process the pass's batches from `start` on, in order.
    fn process_batches(
        batches: &Vec<Vec<Packet>>,
        start: usize,
        forward_option: ForwardOption,
        tx_leader: Option<LeaderInfo>,
        vote_leader: Option<LeaderInfo>,
        now_ms: u64,
        tracer_count: u64,
        data_budget: &mut RateBudget,
        connection_cache: &mut ConnectionCache,
        transport: &mut TransportSink,
        stats: &mut ForwardingStats,
    )
        requires
            start <= batches@.len(),
            old(connection_cache).wf(),
        ensures
            ({
                let pass = spec_run_batches(
                    batch_models(batches@).skip(start as int),
                    forward_option,
                    tx_leader,
                    vote_leader,
                    now_ms,
                    old(transport).failing,
                    tracer_count,
                    *old(data_budget),
                    old(connection_cache)@,
                    old(transport).log(),
                    *old(stats),
                );
                &&& *final(data_budget) == pass.budget
                &&& final(connection_cache)@ == pass.cache
                &&& final(connection_cache).wf()
                &&& final(connection_cache).config() == old(connection_cache).config()
                &&& final(transport).log() == pass.log
                &&& final(transport).failing == old(transport).failing
                &&& *final(stats) == pass.stats
            }),
        decreases batches@.len() - start,
    {
        let n = batches.len();
        if start == n {
            proof {
                assert(batch_models(batches@).skip(start as int) =~= Seq::<
                    Seq<PacketModel>,
                >::empty());
            }
            return;
        }
        let ghost all = batch_models(batches@);
        let ghost tail = all.skip(start as int);
        proof {
            assert(tail.len() == n - start);
            assert(tail[0] == all[start as int]);
            assert(tail[0] == packet_models(batches@[start as int]@));
            assert(tail.skip(1) =~= all.skip(start + 1 as int));
        }
        let batch = &batches[start];
        if batch.len() > 0 {
            stats.forwardable_batches = add_sat(stats.forwardable_batches, 1);
            let (_res, successes, admitted, leader) = Self::forward_buffered_packets(
                connection_cache,
                forward_option,
                tx_leader,
                vote_leader,
                transport,
                batch,
                data_budget,
                now_ms,
                stats,
            );
            if leader.is_some() {
                stats.forwardable_tracer_packets = add_sat(
                    stats.forwardable_tracer_packets,
                    tracer_count,
                );
            }
            let failed = admitted - (if successes <= admitted {
                successes
            } else {
                admitted
            });
            if failed > 0 {
                stats.failed_forwarded_packets = add_sat(
                    stats.failed_forwarded_packets,
                    failed as u64,
                );
                stats.packet_batch_forward_failures = add_sat(
                    stats.packet_batch_forward_failures,
                    1,
                );
            }
            if successes > 0 {
                stats.successful_forwarded_packets = add_sat(
                    stats.successful_forwarded_packets,
                    successes as u64,
                );
            }
        }
        Self::process_batches(
            batches,
            start + 1,
            forward_option,
            tx_leader,
            vote_leader,
            now_ms,
            tracer_count,
            data_budget,
            connection_cache,
            transport,
            stats,
        );
    }

    /// One forwarding pass over the buffer.
    ///
    /// The pass takes every packet not yet handed out, in order and in
    /// bounded batches, marks those entries as handed out, relays the
    /// batches as the buffer's policy directs — applying the byte
    /// budget, skipping wire-flagged packets, votes over the direct
    /// datagram path, transactions over a pooled connection — and
    /// accounts successes and failures per batch. With `hold` the
    /// buffer keeps all its entries; without it every entry already
    /// handed out (including this pass's) is purged, whether or not its
    /// packets made it onto the wire.
    pub fn handle_forwarding(
        buffer: &mut TransactionBuffer,
        tx_leader: Option<LeaderInfo>,
        vote_leader: Option<LeaderInfo>,
        hold: bool,
        data_budget: &mut RateBudget,
        now_ms: u64,
        connection_cache: &mut ConnectionCache,
        transport: &mut TransportSink,
        stats: &mut ForwardingStats,
    )
        requires
            old(connection_cache).wf(),
        ensures
            ({
                let entries = buffered_models(old(buffer).packets@);
                let eligible = eligible_packets(entries);
                let pass = spec_run_batches(
                    spec_chunks(eligible, DEFAULT_FORWARD_BATCH_LIMIT as int),
                    old(buffer).forward_option,
                    tx_leader,
                    vote_leader,
                    now_ms,
                    old(transport).failing,
                    crate::transaction_buffer::count_tracer_packets(eligible) as u64,
                    *old(data_budget),
                    old(connection_cache)@,
                    old(transport).log(),
                    *old(stats),
                );
                &&& final(buffer).forward_option == old(buffer).forward_option
                &&& buffered_models(final(buffer).packets@) == (if hold {
                    mark_all(entries)
                } else {
                    Seq::<BufferedPacketModel>::empty()
                })
                &&& *final(data_budget) == pass.budget
                &&& final(connection_cache)@ == pass.cache
                &&& final(connection_cache).wf()
                &&& final(connection_cache).config() == old(connection_cache).config()
                &&& final(transport).log() == pass.log
                &&& final(transport).failing == old(transport).failing
                &&& *final(stats) == spec_pass_stats(
                    pass.stats,
                    hold,
                    eligible.len(),
                    crate::transaction_buffer::count_tracer_entries(entries),
                )
            }),
    {
        let forward_option = buffer.forward_option();
        let mut batches = ForwardBatches::new_with_default_batch_limits();
        let filter_result = buffer.filter_forwardable_packets_and_add_batches(&mut batches);
        proof {
            assert(batch_models(batches.batches@) =~= spec_chunks(
                eligible_packets(buffered_models(old(buffer).packets@)),
                DEFAULT_FORWARD_BATCH_LIMIT as int,
            ));
            assert(batch_models(batches.batches@).skip(0) =~= batch_models(batches.batches@));
        }
        let tracer_count: u64 = filter_result.total_forwardable_tracer_packets as u64;
        Self::process_batches(
            &batches.batches,
            0,
            forward_option,
            tx_leader,
            vote_leader,
            now_ms,
            tracer_count,
            data_budget,
            connection_cache,
            transport,
            stats,
        );
        if !hold {
            stats.cleared_from_buffer_after_forward = add_sat(
                stats.cleared_from_buffer_after_forward,
                filter_result.total_forwardable_packets as u64,
            );
            stats.cleared_tracer_packets = add_sat(
                stats.cleared_tracer_packets,
                filter_result.total_tracer_packets_in_buffer as u64,
            );
            buffer.clear_forwarded_packets();
            proof {
                lemma_clear_after_mark_empties(buffered_models(old(buffer).packets@));
            }
        }
    }
}

/// Law: under a budget that holds nothing and can never refill, a
/// batch of packets that each carry at least one byte is forwarded as
/// nothing at all: no admission, no transmission, no success.
pub proof fn lemma_zero_budget_admits_nothing(batch: Seq<PacketModel>, b: RateBudget)
    requires
        b.bytes_available == 0,
        forall|i: int| 0 <= i < batch.len() ==> (#[trigger] batch[i]).data.len() > 0,
    ensures
        spec_admit(batch, b).0 == Seq::<Seq<u8>>::empty(),
        spec_admit(batch, b).1 == b,
    decreases batch.len(),
{
    if batch.len() > 0 {
        assert(batch[0].data.len() > 0);
        assert(forall|i: int|
            0 <= i < batch.skip(1).len() ==> #[trigger] batch.skip(1)[i] == batch[i + 1]);
        lemma_zero_budget_admits_nothing(batch.skip(1), b);
    }
}

/// Law: a restricted budget forwards zero packets — the batch step
/// under a restricted budget and packets of at least one byte each
/// sends nothing, admits nothing, and succeeds on nothing, whatever
/// the policy, the leader and the transport.
pub proof fn lemma_restricted_budget_forwards_nothing(
    batch: Seq<PacketModel>,
    opt: ForwardOption,
    tx_leader: Option<LeaderInfo>,
    vote_leader: Option<LeaderInfo>,
    now_ms: u64,
    failing: bool,
    b: RateBudget,
    c: CacheModel,
)
    requires
        b.bytes_available == 0,
        b.last_refill_ms == u64::MAX,
        forall|i: int| 0 <= i < batch.len() ==> (#[trigger] batch[i]).data.len() > 0,
    ensures
        spec_forward(batch, opt, tx_leader, vote_leader, now_ms, failing, b, c).sends == Seq::<
            TransmissionModel,
        >::empty(),
        spec_forward(batch, opt, tx_leader, vote_leader, now_ms, failing, b, c).admitted == 0,
        spec_forward(batch, opt, tx_leader, vote_leader, now_ms, failing, b, c).successes == 0,
        spec_forward(batch, opt, tx_leader, vote_leader, now_ms, failing, b, c).cache == c,
{
    crate::rate_budget::lemma_restricted_never_refills(
        b,
        now_ms,
        FORWARD_REFILL_INTERVAL_MS,
        FORWARD_MAX_BYTES_PER_INTERVAL,
        FORWARD_MAX_BYTES_BUDGET,
    );
    lemma_zero_budget_admits_nothing(batch, b);
}

/// Law: packets a pass has already handed out are skipped by the next
/// pass and are neither re-sent nor re-counted — over a buffer whose
/// entries are all marked, a whole pass leaves the budget, the cache,
/// the transport log and every counter exactly as they were.
pub proof fn lemma_second_pass_sends_nothing(
    entries: Seq<BufferedPacketModel>,
    opt: ForwardOption,
    tx_leader: Option<LeaderInfo>,
    vote_leader: Option<LeaderInfo>,
    now_ms: u64,
    failing: bool,
    tracer_count: u64,
    b: RateBudget,
    c: CacheModel,
    log: Seq<TransmissionModel>,
    st: ForwardingStats,
)
    requires
        forall|i: int| 0 <= i < entries.len() ==> (#[trigger] entries[i]).marked_forwarded,
    ensures
        spec_run_batches(
            spec_chunks(eligible_packets(entries), DEFAULT_FORWARD_BATCH_LIMIT as int),
            opt,
            tx_leader,
            vote_leader,
            now_ms,
            failing,
            tracer_count,
            b,
            c,
            log,
            st,
        ) == (PassOutcome { budget: b, cache: c, log, stats: st }),
{
    lemma_marked_entries_yield_nothing(entries);
    assert(spec_chunks(eligible_packets(entries), DEFAULT_FORWARD_BATCH_LIMIT as int) =~= Seq::<
        Seq<PacketModel>,
    >::empty());
}

/// Law: a pass over a buffer of only fresh entries followed by a purge
/// (the no-hold pass) leaves the buffer holding exactly the pre-pass
/// count minus the packets that were eligible this pass — every one of
/// them, whether or not its bytes made it onto the wire.
pub proof fn lemma_no_hold_purges_all_eligible(entries: Seq<BufferedPacketModel>)
    requires
        forall|i: int| 0 <= i < entries.len() ==> !(#[trigger] entries[i]).marked_forwarded,
    ensures
        unmarked_entries(mark_all(entries)).len() == entries.len() - eligible_packets(
            entries,
        ).len(),
{
    lemma_clear_after_mark_empties(entries);
    lemma_fresh_entries_all_eligible(entries);
}

/// Law: budget admission never re-sends a packet that is already
/// flagged forwarded on the wire — every admitted payload is the data
/// of some unflagged packet of the batch.
pub proof fn lemma_admitted_only_unflagged(batch: Seq<PacketModel>, b: RateBudget)
    ensures
        forall|i: int|
            0 <= i < spec_admit(batch, b).0.len() ==> exists|j: int|
                0 <= j < batch.len() && !batch[j].forwarded && batch[j].data == #[trigger] spec_admit(
                    batch,
                    b,
                ).0[i],
    decreases batch.len(),
{
    if batch.len() > 0 {
        let p = batch[0];
        if !p.forwarded && p.data.len() <= b.bytes_available {
            let b2 = RateBudget {
                bytes_available: (b.bytes_available - p.data.len()) as usize,
                last_refill_ms: b.last_refill_ms,
            };
            lemma_admitted_only_unflagged(batch.skip(1), b2);
            assert forall|i: int| 0 <= i < spec_admit(batch, b).0.len() implies exists|j: int|
                0 <= j < batch.len() && !batch[j].forwarded && batch[j].data
                    == #[trigger] spec_admit(batch, b).0[i] by {
                let rest = spec_admit(batch.skip(1), b2);
                if i == 0 {
                    assert(spec_admit(batch, b).0[i] == p.data);
                    assert(!batch[0].forwarded && batch[0].data == spec_admit(batch, b).0[i]);
                } else {
                    assert(spec_admit(batch, b).0[i] == rest.0[i - 1]);
                    let j0 = choose|j: int|
                        0 <= j < batch.skip(1).len() && !batch.skip(1)[j].forwarded && batch.skip(
                            1,
                        )[j].data == rest.0[i - 1];
                    assert(batch.skip(1)[j0] == batch[j0 + 1]);
                    assert(!batch[j0 + 1].forwarded && batch[j0 + 1].data == spec_admit(
                        batch,
                        b,
                    ).0[i]);
                }
            }
        } else {
            lemma_admitted_only_unflagged(batch.skip(1), b);
            assert forall|i: int| 0 <= i < spec_admit(batch, b).0.len() implies exists|j: int|
                0 <= j < batch.len() && !batch[j].forwarded && batch[j].data
                    == #[trigger] spec_admit(batch, b).0[i] by {
                let rest = spec_admit(batch.skip(1), b);
                assert(spec_admit(batch, b).0[i] == rest.0[i]);
                let j0 = choose|j: int|
                    0 <= j < batch.skip(1).len() && !batch.skip(1)[j].forwarded && batch.skip(
                        1,
                    )[j].data == rest.0[i];
                assert(batch.skip(1)[j0] == batch[j0 + 1]);
                assert(!batch[j0 + 1].forwarded && batch[j0 + 1].data == spec_admit(batch, b).0[i]);
            }
        }
    }
}

} // verus!
