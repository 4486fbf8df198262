use transaction_relay::connection_cache::ConnectionCache;
use transaction_relay::forwarder::Forwarder;
use transaction_relay::forwarder::ForwardingStats;
use transaction_relay::forwarder::LeaderInfo;
use transaction_relay::rate_budget::RateBudget;
use transaction_relay::transaction_buffer::ForwardBatches;
use transaction_relay::transaction_buffer::ForwardOption;
use transaction_relay::transaction_buffer::Packet;
use transaction_relay::transaction_buffer::TransactionBuffer;
use transaction_relay::transport::Protocol;
use transaction_relay::transport::SocketAddress;
use transaction_relay::transport::TransportSink;

fn leader_at(port: u16) -> LeaderInfo {
    LeaderInfo {
        leader: 11,
        addr: SocketAddress { ip: 10, port },
    }
}

fn fresh_packet(data: Vec<u8>) -> Packet {
    Packet {
        data,
        forwarded: false,
        tracer: false,
    }
}

#[test]
fn test_forwarder_budget() {
    // (name, budget, expected number of forwarded packets)
    let cases = [
        ("budget-restricted", RateBudget::restricted(), 0usize),
        ("budget-available", RateBudget::new(), 1usize),
    ];
    for (name, mut budget, expected_num_forwarded) in cases {
        let mut buffer = TransactionBuffer::new(ForwardOption::ForwardTransaction);
        buffer.push_packet(fresh_packet(vec![7; 64]));
        let mut cache = ConnectionCache::new(1);
        let mut sink = TransportSink::new();
        let mut stats = ForwardingStats::new();
        Forwarder::handle_forwarding(
            &mut buffer,
            Some(leader_at(9001)),
            None,
            true,
            &mut budget,
            100,
            &mut cache,
            &mut sink,
            &mut stats,
        );
        let forwarded: usize = sink.sent.iter().map(|t| t.payloads.len()).sum();
        assert_eq!(forwarded, expected_num_forwarded, "{name}");
        assert_eq!(
            stats.successful_forwarded_packets,
            expected_num_forwarded as u64,
            "{name}"
        );
    }
}

#[test]
fn test_handle_forwarding() {
    let fwd_data = vec![0xAA; 32];
    let normal_data = vec![0xBB; 32];
    let mut buffer = TransactionBuffer::new(ForwardOption::ForwardTransaction);
    buffer.push_packet(Packet {
        data: fwd_data,
        forwarded: true,
        tracer: false,
    });
    buffer.push_packet(fresh_packet(normal_data.clone()));

    let mut cache = ConnectionCache::new(1);
    let mut sink = TransportSink::new();

    // (name, hold, expected newly received payloads, expected buffer len)
    let cases: [(&str, bool, Vec<Vec<u8>>, usize); 3] = [
        ("fwd-normal", true, vec![normal_data.clone()], 2),
        ("fwd-no-op", true, vec![], 2),
        ("fwd-no-hold", false, vec![], 0),
    ];
    for (name, hold, expected_payloads, expected_num_unprocessed) in cases {
        let mut budget = RateBudget::new();
        let mut stats = ForwardingStats::new();
        let already_sent = sink.sent.len();
        Forwarder::handle_forwarding(
            &mut buffer,
            Some(leader_at(9002)),
            None,
            hold,
            &mut budget,
            100,
            &mut cache,
            &mut sink,
            &mut stats,
        );
        let new_payloads: Vec<Vec<u8>> = sink.sent[already_sent..]
            .iter()
            .flat_map(|t| t.payloads.iter().cloned())
            .collect();
        assert_eq!(new_payloads, expected_payloads, "{name}");
        assert_eq!(buffer.len(), expected_num_unprocessed, "{name}");
    }
}

#[test]
fn one_pass_forwards_the_fresh_packet_only() {
    // One packet already flagged forwarded on the wire and one fresh
    // packet carrying a distinctive payload: exactly the fresh one is
    // observed at the destination, and with hold the buffer keeps both.
    let target = vec![0xDE, 0xAD, 0xBE, 0xEF];
    let mut buffer = TransactionBuffer::new(ForwardOption::ForwardTransaction);
    buffer.push_packet(Packet {
        data: vec![1, 2, 3],
        forwarded: true,
        tracer: false,
    });
    buffer.push_packet(fresh_packet(target.clone()));
    let mut budget = RateBudget::new();
    let mut cache = ConnectionCache::new(2);
    let mut sink = TransportSink::new();
    let mut stats = ForwardingStats::new();
    Forwarder::handle_forwarding(
        &mut buffer,
        Some(leader_at(9003)),
        None,
        true,
        &mut budget,
        100,
        &mut cache,
        &mut sink,
        &mut stats,
    );
    assert_eq!(sink.sent.len(), 1);
    assert_eq!(sink.sent[0].payloads, vec![target]);
    assert_eq!(sink.sent[0].addr, leader_at(9003).addr);
    assert_eq!(buffer.len(), 2);
    assert_eq!(stats.successful_forwarded_packets, 1);
    // The flagged packet was admitted by nobody, so it never counts as
    // failed either.
    assert_eq!(stats.failed_forwarded_packets, 0);
}

#[test]
fn no_hold_purges_everything_the_pass_took() {
    let mut buffer = TransactionBuffer::new(ForwardOption::ForwardTransaction);
    buffer.push_packet(fresh_packet(vec![1; 16]));
    buffer.push_packet(fresh_packet(vec![2; 16]));
    let before = buffer.len();
    let mut budget = RateBudget::new();
    let mut cache = ConnectionCache::new(1);
    // The transport fails every send: purging must not depend on
    // transport success.
    let mut sink = TransportSink::unreliable();
    let mut stats = ForwardingStats::new();
    Forwarder::handle_forwarding(
        &mut buffer,
        Some(leader_at(9004)),
        None,
        false,
        &mut budget,
        100,
        &mut cache,
        &mut sink,
        &mut stats,
    );
    // Both packets were eligible this pass, so none remain.
    assert_eq!(buffer.len(), before - 2);
    assert_eq!(sink.sent.len(), 0);
    assert_eq!(stats.successful_forwarded_packets, 0);
    assert_eq!(stats.failed_forwarded_packets, 2);
    assert_eq!(stats.packet_batch_forward_failures, 1);
    // The packets were handed to the transport before it refused them.
    assert_eq!(stats.forwarded_transaction_count, 2);
    assert_eq!(stats.cleared_from_buffer_after_forward, 2);
}

#[test]
fn votes_go_over_the_direct_datagram_path() {
    let mut buffer = TransactionBuffer::new(ForwardOption::ForwardVote);
    buffer.push_packet(fresh_packet(vec![5; 8]));
    let mut budget = RateBudget::new();
    let mut cache = ConnectionCache::new(1);
    let mut sink = TransportSink::new();
    let mut stats = ForwardingStats::new();
    Forwarder::handle_forwarding(
        &mut buffer,
        None,
        Some(leader_at(9005)),
        true,
        &mut budget,
        100,
        &mut cache,
        &mut sink,
        &mut stats,
    );
    assert_eq!(sink.sent.len(), 1);
    assert_eq!(sink.sent[0].protocol, Protocol::Udp);
    assert_eq!(sink.sent[0].connection_id, None);
    assert_eq!(sink.sent[0].addr, leader_at(9005).addr);
    assert_eq!(stats.forwarded_vote_count, 1);
    // The vote path never touches the connection pool.
    assert_eq!(cache.entries.len(), 0);
}

#[test]
fn not_forward_passes_send_nothing() {
    let mut buffer = TransactionBuffer::new(ForwardOption::NotForward);
    buffer.push_packet(fresh_packet(vec![9; 8]));
    let mut budget = RateBudget::new();
    let mut cache = ConnectionCache::new(1);
    let mut sink = TransportSink::new();
    let mut stats = ForwardingStats::new();
    Forwarder::handle_forwarding(
        &mut buffer,
        Some(leader_at(9006)),
        Some(leader_at(9007)),
        true,
        &mut budget,
        100,
        &mut cache,
        &mut sink,
        &mut stats,
    );
    assert_eq!(sink.sent.len(), 0);
    assert_eq!(stats.successful_forwarded_packets, 0);
    assert_eq!(stats.failed_forwarded_packets, 0);
    // The budget is untouched: the pass never got past resolution.
    assert_eq!(budget.available(), 0);
}

#[test]
fn unresolved_leader_skips_the_batch_without_failures() {
    let mut buffer = TransactionBuffer::new(ForwardOption::ForwardTransaction);
    buffer.push_packet(fresh_packet(vec![3; 8]));
    let mut budget = RateBudget::new();
    let mut cache = ConnectionCache::new(1);
    let mut sink = TransportSink::new();
    let mut stats = ForwardingStats::new();
    Forwarder::handle_forwarding(
        &mut buffer,
        None,
        None,
        true,
        &mut budget,
        100,
        &mut cache,
        &mut sink,
        &mut stats,
    );
    assert_eq!(sink.sent.len(), 0);
    assert_eq!(stats.successful_forwarded_packets, 0);
    assert_eq!(stats.failed_forwarded_packets, 0);
    assert_eq!(stats.packet_batch_forward_failures, 0);
}

#[test]
fn batches_respect_the_batch_limit() {
    let mut buffer = TransactionBuffer::new(ForwardOption::ForwardTransaction);
    for n in 0..130u8 {
        buffer.push_packet(fresh_packet(vec![n]));
    }
    let mut budget = RateBudget::new();
    let mut cache = ConnectionCache::new(1);
    let mut sink = TransportSink::new();
    let mut stats = ForwardingStats::new();
    Forwarder::handle_forwarding(
        &mut buffer,
        Some(leader_at(9008)),
        None,
        true,
        &mut budget,
        100,
        &mut cache,
        &mut sink,
        &mut stats,
    );
    // 130 packets under the default batch limit of 128 travel as two
    // transmissions, in order.
    assert_eq!(sink.sent.len(), 2);
    assert_eq!(sink.sent[0].payloads.len(), 128);
    assert_eq!(sink.sent[1].payloads.len(), 2);
    assert_eq!(sink.sent[0].payloads[0], vec![0]);
    assert_eq!(sink.sent[1].payloads[1], vec![129]);
    assert_eq!(stats.forwardable_batches, 2);
    assert_eq!(stats.successful_forwarded_packets, 130);
}

#[test]
fn filter_marks_batches_and_counts() {
    let mut buffer = TransactionBuffer::new(ForwardOption::ForwardTransaction);
    for n in 0..5u8 {
        buffer.push_packet(Packet {
            data: vec![n],
            forwarded: false,
            tracer: n == 0,
        });
    }
    let mut batches = ForwardBatches::new_with_batch_limit(2);
    let mut b2 = ForwardBatches::new_with_batch_limit(2);
    let result = buffer.filter_forwardable_packets_and_add_batches(&mut batches);
    assert_eq!(result.total_forwardable_packets, 5);
    assert_eq!(result.total_forwardable_tracer_packets, 1);
    assert_eq!(result.total_tracer_packets_in_buffer, 1);
    let sizes: Vec<usize> = batches.batches.iter().map(|b| b.len()).collect();
    assert_eq!(sizes, vec![2, 2, 1]);
    // Everything is marked now: a second filter pass finds nothing.
    let second = buffer.filter_forwardable_packets_and_add_batches(&mut b2);
    assert_eq!(second.total_forwardable_packets, 0);
    assert_eq!(b2.batches.len(), 0);
    assert_eq!(buffer.len(), 5);
    buffer.clear_forwarded_packets();
    assert_eq!(buffer.len(), 0);
}

#[test]
fn tracer_packets_are_counted_once_a_leader_is_resolved() {
    let mut buffer = TransactionBuffer::new(ForwardOption::ForwardTransaction);
    buffer.push_packet(Packet {
        data: vec![1, 2],
        forwarded: false,
        tracer: true,
    });
    let mut budget = RateBudget::new();
    let mut cache = ConnectionCache::new(1);
    let mut sink = TransportSink::new();
    let mut stats = ForwardingStats::new();
    Forwarder::handle_forwarding(
        &mut buffer,
        Some(leader_at(9009)),
        None,
        false,
        &mut budget,
        100,
        &mut cache,
        &mut sink,
        &mut stats,
    );
    assert_eq!(stats.forwardable_tracer_packets, 1);
    assert_eq!(stats.cleared_tracer_packets, 1);
}

#[test]
fn budget_carries_across_batches_of_one_pass() {
    // Two packets of 700,000 bytes each: the interval allotment of
    // 1,200,000 bytes admits the first and refuses the second, with no
    // double refill within the pass.
    let mut buffer = TransactionBuffer::new(ForwardOption::ForwardTransaction);
    buffer.push_packet(fresh_packet(vec![0; 700_000]));
    buffer.push_packet(fresh_packet(vec![1; 700_000]));
    let mut budget = RateBudget::new();
    let mut cache = ConnectionCache::new(1);
    let mut sink = TransportSink::new();
    let mut stats = ForwardingStats::new();
    Forwarder::handle_forwarding(
        &mut buffer,
        Some(leader_at(9011)),
        None,
        true,
        &mut budget,
        100,
        &mut cache,
        &mut sink,
        &mut stats,
    );
    assert_eq!(sink.sent.len(), 1);
    assert_eq!(sink.sent[0].payloads.len(), 1);
    assert_eq!(stats.successful_forwarded_packets, 1);
    assert_eq!(budget.available(), 1_200_000 - 700_000);
}
