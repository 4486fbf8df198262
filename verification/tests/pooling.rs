use transaction_relay::connection_cache::ConnectionCache;
use transaction_relay::connection_cache::CertificateInfo;
use transaction_relay::connection_cache::ClientEndpoint;
use transaction_relay::connection_cache::StakeBinding;
use transaction_relay::connection_cache::DEFAULT_CONNECTION_POOL_SIZE;
use transaction_relay::connection_cache::MAX_CONNECTIONS;
use transaction_relay::rate_budget::RateBudget;
use transaction_relay::transport::Protocol;
use transaction_relay::transport::SocketAddress;
use transaction_relay::transport::TransportSink;

fn addr(n: u16) -> SocketAddress {
    SocketAddress { ip: 0x7f_00_00_01, port: n }
}

#[test]
fn pool_size_is_clamped_to_one() {
    assert_eq!(ConnectionCache::new(0).pool_size, 1);
    assert_eq!(ConnectionCache::with_udp(0).pool_size, 1);
    assert_eq!(
        ConnectionCache::new_with_client_options(0, None, None, None).pool_size,
        1
    );
    assert_eq!(ConnectionCache::new(7).pool_size, 7);
    assert_eq!(ConnectionCache::with_udp(3).pool_size, 3);
}

#[test]
fn protocol_selection_is_construction_time() {
    assert!(ConnectionCache::new(4).use_quic());
    assert!(!ConnectionCache::with_udp(4).use_quic());
    let cache = ConnectionCache::default();
    assert!(cache.use_quic());
    assert_eq!(cache.pool_size, DEFAULT_CONNECTION_POOL_SIZE);
}

#[test]
fn one_destination_reuses_one_bounded_pool() {
    let mut cache = ConnectionCache::with_udp(2);
    let a = cache.get_connection(addr(9001));
    let b = cache.get_nonblocking_connection(addr(9001));
    assert_eq!(a.addr, addr(9001));
    assert_eq!(b.addr, addr(9001));
    assert_ne!(a.id, b.id);
    // The pool is full now: every further lookup reuses a pooled
    // handle instead of creating a third connection.
    for _ in 0..10 {
        let c = cache.get_connection(addr(9001));
        assert_eq!(c.id, b.id);
        let d = cache.get_nonblocking_connection(addr(9001));
        assert_eq!(d.id, b.id);
    }
    assert_eq!(cache.entries.len(), 1);
    assert_eq!(cache.entries[0].connections.len(), 2);
}

#[test]
fn connection_handles_report_their_destination() {
    let mut cache = ConnectionCache::new(1);
    let conn = cache.get_connection(addr(9007));
    assert_eq!(conn.server_addr(), addr(9007));
    assert_eq!(conn.protocol, Protocol::Quic);
}

#[test]
fn least_recently_used_destination_is_evicted_at_the_cap() {
    let mut cache = ConnectionCache::with_udp(1);
    for n in 0..MAX_CONNECTIONS {
        let _ = cache.get_connection(addr(n as u16));
    }
    assert_eq!(cache.entries.len(), MAX_CONNECTIONS);
    // Touch the oldest destination so it becomes the most recent.
    let _ = cache.get_connection(addr(0));
    assert_eq!(cache.entries.last().unwrap().addr, addr(0));
    // A new destination now evicts the least recently used one, which
    // is port 1, not port 0.
    let _ = cache.get_connection(addr(60000));
    assert_eq!(cache.entries.len(), MAX_CONNECTIONS);
    assert!(cache.entries.iter().any(|e| e.addr == addr(0)));
    assert!(!cache.entries.iter().any(|e| e.addr == addr(1)));
    assert!(cache.entries.iter().any(|e| e.addr == addr(60000)));
}

#[test]
fn client_options_are_stored_at_construction() {
    let cache = ConnectionCache::new_with_client_options(
        2,
        Some(ClientEndpoint { id: 5 }),
        Some(CertificateInfo { ip: 0x7f_00_00_01 }),
        Some(StakeBinding { identity: 9 }),
    );
    assert_eq!(cache.pool_size, 2);
    assert!(cache.use_quic());
    assert_eq!(cache.client_endpoint, Some(ClientEndpoint { id: 5 }));
    assert_eq!(cache.cert_info, Some(CertificateInfo { ip: 0x7f_00_00_01 }));
    assert_eq!(cache.stake_binding, Some(StakeBinding { identity: 9 }));
    assert_eq!(cache.entries.len(), 0);
}

#[test]
fn deprecated_mutators_are_no_ops_that_succeed() {
    let mut cache = ConnectionCache::new(4);
    let before_protocol = cache.protocol;
    let before_pool = cache.pool_size;
    assert!(cache
        .update_client_certificate(&CertificateInfo { ip: 1 })
        .is_ok());
    cache.set_staked_nodes(&StakeBinding { identity: 42 });
    assert_eq!(cache.protocol, before_protocol);
    assert_eq!(cache.pool_size, before_pool);
    assert_eq!(cache.cert_info, None);
    assert_eq!(cache.stake_binding, None);
}

#[test]
fn blocking_send_goes_through_the_pooled_handle() {
    let mut cache = ConnectionCache::new(1);
    let mut sink = TransportSink::new();
    let conn = cache.get_connection(addr(9010));
    assert!(conn.send_data(&mut sink, vec![1, 2, 3]).is_ok());
    assert_eq!(sink.sent.len(), 1);
    assert_eq!(sink.sent[0].addr, addr(9010));
    assert_eq!(sink.sent[0].protocol, Protocol::Quic);
    assert_eq!(sink.sent[0].connection_id, Some(conn.id));
    assert_eq!(sink.sent[0].payloads, vec![vec![1, 2, 3]]);
}

#[test]
fn budget_take_has_no_double_spend() {
    let mut budget = RateBudget {
        bytes_available: 7,
        last_refill_ms: 0,
    };
    assert!(budget.take(7));
    assert_eq!(budget.available(), 0);
    assert!(!budget.take(7));
    assert_eq!(budget.available(), 0);
}

#[test]
fn budget_update_refills_once_per_interval() {
    let mut budget = RateBudget::new();
    assert!(budget.update(100, 100, 1_000, 5_000));
    assert_eq!(budget.available(), 1_000);
    // A second update within the same interval window changes nothing.
    assert!(!budget.update(150, 100, 1_000, 5_000));
    assert_eq!(budget.available(), 1_000);
    // Once the interval has elapsed the refill happens, clamped to the
    // ceiling after enough rounds.
    assert!(budget.update(200, 100, 1_000, 5_000));
    assert_eq!(budget.available(), 2_000);
    for tick in 3..10 {
        budget.update(tick * 100, 100, 1_000, 5_000);
    }
    assert_eq!(budget.available(), 5_000);
}

#[test]
fn restricted_budget_never_refills() {
    let mut budget = RateBudget::restricted();
    assert!(!budget.update(u64::MAX - 1, 100, 1_000, 5_000));
    assert_eq!(budget.available(), 0);
    assert!(!budget.take(1));
    assert!(budget.take(0));
}
