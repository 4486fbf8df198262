//! A keyed pool of reusable peer connections.
//!
//! The cache maps a destination address to a bounded pool of connection
//! handles of one protocol variant, chosen at construction. Lookups
//! reuse pooled handles, grow a destination's pool up to the configured
//! size, and evict the least-recently-used destination once the global
//! destination cap is reached. `entries` is kept in recency order:
//! least recently used first, most recently used last.

use vstd::prelude::*;

use crate::transport::Connection;
use crate::transport::Protocol;
use crate::transport::SocketAddress;
use crate::transport::TransportError;

verus! {

/// Pool size used when the caller does not configure one.
pub const DEFAULT_CONNECTION_POOL_SIZE: usize = 4;

/// Protocol variant used by `Default::default`.
pub const DEFAULT_CONNECTION_CACHE_USE_QUIC: bool = true;

/// Global cap on distinct destinations tracked at once.
pub const MAX_CONNECTIONS: usize = 1024;

/// An externally owned network endpoint, shared across caches so that
/// many logical caches can reuse one bound socket and identity. The
/// endpoint itself lives outside the library; the handle names it.
#[derive(Clone, Copy, PartialEq, Eq, Structural, Debug)]
pub struct ClientEndpoint {
    pub id: u64,
}

/// Identity certificate configuration: the address advertised when
/// authenticating the stream protocol. The key material itself is held
/// by the caller that owns the real endpoint.
#[derive(Clone, Copy, PartialEq, Eq, Structural, Debug)]
pub struct CertificateInfo {
    pub ip: u128,
}

/// Binding to an externally mutated stake table: this node's identity,
/// used by the transport to prioritize connections by relative stake.
#[derive(Clone, Copy, PartialEq, Eq, Structural, Debug)]
pub struct StakeBinding {
    pub identity: u64,
}

/// One destination's bounded pool of live connection handles.
pub struct PoolEntry {
    pub addr: SocketAddress,
    pub connections: Vec<Connection>,
}

/// Mathematical model of one pool entry.
pub struct EntryModel {
    pub addr: SocketAddress,
    pub connections: Seq<Connection>,
}

impl View for PoolEntry {
    type V = EntryModel;

    open spec fn view(&self) -> EntryModel {
        EntryModel { addr: self.addr, connections: self.connections@ }
    }
}

impl EntryModel {
    /// A handle belongs in this pool when it is bound to the entry's
    /// destination and speaks the cache's protocol.
    pub open spec fn conn_ok(self, protocol: Protocol, c: Connection) -> bool {
        c.addr == self.addr && c.protocol == protocol
    }

    /// Every handle in the pool is bound to the entry's destination and
    /// the cache's protocol, and the pool is non-empty and bounded.
    pub open spec fn wf(self, protocol: Protocol, pool_size: usize) -> bool {
        &&& 1 <= self.connections.len() <= pool_size
        &&& forall|k: int|
            0 <= k < self.connections.len() ==> self.conn_ok(
                protocol,
                #[trigger] self.connections[k],
            )
    }
}

/// Mathematical model of the cache's dynamic state.
pub struct CacheModel {
    pub protocol: Protocol,
    pub pool_size: usize,
    pub entries: Seq<EntryModel>,
    pub next_id: u64,
}

/// The next fresh connection tag; freshness stops once the counter is
/// exhausted, which no contract relies on.
pub open spec fn next_tag(id: u64) -> u64 {
    if id == u64::MAX {
        id
    } else {
        (id + 1) as u64
    }
}

impl CacheModel {
    pub open spec fn has_entry(self, addr: SocketAddress) -> bool {
        exists|i: int| 0 <= i < self.entries.len() && #[trigger] self.entries[i].addr == addr
    }

    pub open spec fn index_of(self, addr: SocketAddress) -> int {
        choose|i: int| 0 <= i < self.entries.len() && #[trigger] self.entries[i].addr == addr
    }

    /// The pool of live connections for one destination.
    pub open spec fn pool_of(self, addr: SocketAddress) -> Seq<Connection> {
        if self.has_entry(addr) {
            self.entries[self.index_of(addr)].connections
        } else {
            Seq::empty()
        }
    }

    /// Cache invariant: a clamped pool size, a capped number of
    /// destinations, one entry per destination, and well-formed pools.
    pub open spec fn wf(self) -> bool {
        &&& self.pool_size >= 1
        &&& self.entries.len() <= MAX_CONNECTIONS
        &&& forall|i: int, j: int|
            0 <= i < j < self.entries.len() ==> #[trigger] self.entries[i].addr
                != #[trigger] self.entries[j].addr
        &&& forall|i: int|
            0 <= i < self.entries.len() ==> (#[trigger] self.entries[i]).wf(
                self.protocol,
                self.pool_size,
            )
    }

    /// What one lookup does: reuse the most recently added handle of a
    /// full pool, grow a non-full pool by one fresh handle, or create
    /// the destination's pool (evicting the least-recently-used
    /// destination at the cap). The touched entry moves to the
    /// most-recently-used position.
    pub open spec fn spec_get(self, addr: SocketAddress) -> (CacheModel, Connection) {
        let fresh = Connection { addr, protocol: self.protocol, id: self.next_id };
        if self.has_entry(addr) {
            let i = self.index_of(addr);
            let e = self.entries[i];
            if e.connections.len() < self.pool_size {
                let grown = EntryModel { addr: e.addr, connections: e.connections.push(fresh) };
                (
                    CacheModel {
                        protocol: self.protocol,
                        pool_size: self.pool_size,
                        entries: self.entries.remove(i).push(grown),
                        next_id: next_tag(self.next_id),
                    },
                    fresh,
                )
            } else {
                (
                    CacheModel {
                        protocol: self.protocol,
                        pool_size: self.pool_size,
                        entries: self.entries.remove(i).push(e),
                        next_id: self.next_id,
                    },
                    e.connections.last(),
                )
            }
        } else {
            let created = EntryModel { addr, connections: seq![fresh] };
            let kept = if self.entries.len() >= MAX_CONNECTIONS {
                self.entries.skip(1)
            } else {
                self.entries
            };
            (
                CacheModel {
                    protocol: self.protocol,
                    pool_size: self.pool_size,
                    entries: kept.push(created),
                    next_id: next_tag(self.next_id),
                },
                fresh,
            )
        }
    }
}

/// Law: a lookup never grows a destination's pool past the configured
/// size, keeps the cache well formed with its configuration intact, and
/// hands back a handle from the destination's own pool — in particular,
/// a lookup against an already full pool reuses a pooled handle instead
/// of creating one.
pub proof fn lemma_lookup_preserves_bounds(c: CacheModel, addr: SocketAddress)
    requires
        c.wf(),
    ensures
        c.spec_get(addr).0.wf(),
        c.spec_get(addr).0.protocol == c.protocol,
        c.spec_get(addr).0.pool_size == c.pool_size,
        c.spec_get(addr).0.has_entry(addr),
        c.spec_get(addr).0.pool_of(addr).len() <= c.pool_size,
        c.spec_get(addr).0.pool_of(addr).contains(c.spec_get(addr).1),
        c.spec_get(addr).1.addr == addr,
        c.spec_get(addr).1.protocol == c.protocol,
        c.has_entry(addr) && c.pool_of(addr).len() >= c.pool_size ==> c.pool_of(addr).contains(
            c.spec_get(addr).1,
        ),
{
    let (c2, conn) = c.spec_get(addr);
    let last = (c2.entries.len() - 1) as int;
    assert(c2.entries[last].addr == addr);
    assert(c2.has_entry(addr));
    if c.has_entry(addr) {
        let i = c.index_of(addr);
        assert(0 <= i < c.entries.len() && c.entries[i].addr == addr);
        let e = c.entries[i];
        assert(e.wf(c.protocol, c.pool_size));
        assert(forall|k: int|
            0 <= k < e.connections.len() ==> e.conn_ok(c.protocol, #[trigger] e.connections[k]));
        // The rearranged entries are the old ones minus index i, plus
        // the touched entry at the back.
        assert(forall|k: int|
            0 <= k < c.entries.remove(i).len() ==> #[trigger] c.entries.remove(i)[k] == (if k < i {
                c.entries[k]
            } else {
                c.entries[k + 1]
            }));
        assert(forall|k: int|
            0 <= k < c2.entries.len() - 1 ==> #[trigger] c2.entries[k].addr != addr);
        let j = c2.index_of(addr);
        assert(c2.entries[j].addr == addr);
        assert(j == last);
        if e.connections.len() < c.pool_size {
            assert(c2.entries[last].connections == e.connections.push(conn));
            assert(forall|k: int|
                0 <= k < e.connections.push(conn).len() ==> #[trigger] e.connections.push(conn)[k]
                    == (if k < e.connections.len() {
                    e.connections[k]
                } else {
                    conn
                }));
            assert(forall|k: int|
                0 <= k < c2.entries[last].connections.len() ==> c2.entries[last].conn_ok(
                    c.protocol,
                    #[trigger] c2.entries[last].connections[k],
                ));
            assert(c2.entries[last].wf(c2.protocol, c2.pool_size));
            assert(c2.pool_of(addr)[c2.pool_of(addr).len() - 1] == conn);
            assert(c2.pool_of(addr).contains(conn));
        } else {
            assert(c2.entries[last] == e);
            assert(e.connections.len() >= 1);
            assert(conn == e.connections[e.connections.len() - 1]);
            assert(e.connections[e.connections.len() - 1].addr == e.addr);
            assert(conn.addr == addr && conn.protocol == c.protocol);
            assert(c2.pool_of(addr)[c2.pool_of(addr).len() - 1] == conn);
            assert(c2.pool_of(addr).contains(conn));
            assert(c.pool_of(addr)[c.pool_of(addr).len() - 1] == conn);
            assert(c.pool_of(addr).contains(conn));
        }
        assert(c2.wf());
    } else {
        assert(forall|k: int| 0 <= k < c.entries.len() ==> #[trigger] c.entries[k].addr != addr);
        let kept = if c.entries.len() >= MAX_CONNECTIONS {
            c.entries.skip(1)
        } else {
            c.entries
        };
        assert(forall|k: int|
            0 <= k < kept.len() ==> #[trigger] kept[k] == c.entries[k + (c.entries.len()
                - kept.len())]);
        assert(forall|k: int| 0 <= k < c2.entries.len() - 1 ==> #[trigger] c2.entries[k].addr != addr);
        let j = c2.index_of(addr);
        assert(j == last);
        assert(c2.entries[last].connections == seq![conn]);
        assert(c2.entries[last].wf(c2.protocol, c2.pool_size));
        assert(c2.pool_of(addr)[0] == conn);
        assert(c2.pool_of(addr).contains(conn));
        assert(c2.wf());
    }
}

/// The cache after a whole sequence of lookups, one per address in
/// order. Both accessors perform exactly this lookup, so this is the
/// reachable-state space of a cache under any call sequence.
pub open spec fn spec_get_all(c: CacheModel, addrs: Seq<SocketAddress>) -> CacheModel
    decreases addrs.len(),
{
    if addrs.len() == 0 {
        c
    } else {
        spec_get_all(c.spec_get(addrs[0]).0, addrs.skip(1))
    }
}

/// In a well-formed cache no destination's pool exceeds the configured
/// size.
pub proof fn lemma_pool_of_bounded(c: CacheModel, addr: SocketAddress)
    requires
        c.wf(),
    ensures
        c.pool_of(addr).len() <= c.pool_size,
{
    if c.has_entry(addr) {
        let i = c.index_of(addr);
        assert(0 <= i < c.entries.len() && c.entries[i].addr == addr);
        assert(c.entries[i].wf(c.protocol, c.pool_size));
    }
}

/// Law: under every sequence of lookups, however long and whatever
/// its destinations, the cache stays well formed, its configuration
/// stands, and no destination ever accumulates more live connections
/// than the configured pool size — reuse, not unbounded growth.
pub proof fn lemma_lookup_sequence_preserves_bounds(
    c: CacheModel,
    addrs: Seq<SocketAddress>,
    addr: SocketAddress,
)
    requires
        c.wf(),
    ensures
        spec_get_all(c, addrs).wf(),
        spec_get_all(c, addrs).pool_size == c.pool_size,
        spec_get_all(c, addrs).protocol == c.protocol,
        spec_get_all(c, addrs).pool_of(addr).len() <= c.pool_size,
    decreases addrs.len(),
{
    if addrs.len() == 0 {
        lemma_pool_of_bounded(c, addr);
    } else {
        lemma_lookup_preserves_bounds(c, addrs[0]);
        lemma_lookup_sequence_preserves_bounds(c.spec_get(addrs[0]).0, addrs.skip(1), addr);
    }
}

/// A thin facade over the pool: construction-time protocol selection
/// and configuration, plus the two connection accessors that share one
/// pooled state.
pub struct ConnectionCache {
    pub protocol: Protocol,
    pub pool_size: usize,
    pub entries: Vec<PoolEntry>,
    pub next_id: u64,
    pub client_endpoint: Option<ClientEndpoint>,
    pub cert_info: Option<CertificateInfo>,
    pub stake_binding: Option<StakeBinding>,
}

impl View for ConnectionCache {
    type V = CacheModel;

    open spec fn view(&self) -> CacheModel {
        CacheModel {
            protocol: self.protocol,
            pool_size: self.pool_size,
            entries: self.entries@.map_values(|e: PoolEntry| e@),
            next_id: self.next_id,
        }
    }
}

/// Find the index of the entry for `addr`, if one exists.
fn find_entry(entries: &Vec<PoolEntry>, addr: SocketAddress) -> (r: Option<usize>)
    ensures
        match r {
            Some(i) => i < entries@.len() && entries@[i as int].addr == addr,
            None => forall|j: int| 0 <= j < entries@.len() ==> #[trigger] entries@[j].addr != addr,
        },
{
    let n = entries.len();
    let mut i: usize = 0;
    while i < n
        invariant
            i <= n,
            n == entries@.len(),
            forall|j: int| 0 <= j < i ==> #[trigger] entries@[j].addr != addr,
        decreases n - i,
    {
        if entries[i].addr.ip == addr.ip && entries[i].addr.port == addr.port {
            return Some(i);
        }
        i += 1;
    }
    None
}

impl ConnectionCache {
    /// The cache invariant, stated on the model.
    pub open spec fn wf(&self) -> bool {
        self@.wf()
    }

    /// The cache's immutable construction-time configuration.
    pub open spec fn config(&self) -> (Option<ClientEndpoint>, Option<CertificateInfo>, Option<
        StakeBinding,
    >) {
        (self.client_endpoint, self.cert_info, self.stake_binding)
    }

    /// Create a stream-protocol cache with default client options.
    /// The pool size is clamped to a minimum of 1.
    pub fn new(connection_pool_size: usize) -> (cache: Self)
        ensures
            cache.wf(),
            cache.protocol == Protocol::Quic,
            cache.pool_size == (if connection_pool_size < 1 {
                1usize
            } else {
                connection_pool_size
            }),
            cache@.entries == Seq::<EntryModel>::empty(),
            cache.config() == (
                None::<ClientEndpoint>,
                None::<CertificateInfo>,
                None::<StakeBinding>,
            ),
    {
        Self::new_with_client_options(connection_pool_size, None, None, None)
    }

    /// Create a stream-protocol cache with more client options: an
    /// externally owned endpoint to share one socket and identity
    /// across caches, an identity certificate for authenticating the
    /// stream protocol, and a stake-table binding. All configuration is
    /// immutable after construction. The pool size is clamped to a
    /// minimum of 1.
    pub fn new_with_client_options(
        connection_pool_size: usize,
        client_endpoint: Option<ClientEndpoint>,
        cert_info: Option<CertificateInfo>,
        stake_info: Option<StakeBinding>,
    ) -> (cache: Self)
        ensures
            cache.wf(),
            cache.protocol == Protocol::Quic,
            cache.pool_size == (if connection_pool_size < 1 {
                1usize
            } else {
                connection_pool_size
            }),
            cache@.entries == Seq::<EntryModel>::empty(),
            cache.config() == (client_endpoint, cert_info, stake_info),
    {
        // The minimum pool size is 1.
        let connection_pool_size = if connection_pool_size < 1 {
            1
        } else {
            connection_pool_size
        };
        let cache = ConnectionCache {
            protocol: Protocol::Quic,
            pool_size: connection_pool_size,
            entries: Vec::new(),
            next_id: 0,
            client_endpoint,
            cert_info,
            stake_binding: stake_info,
        };
        proof {
            assert(cache@.entries =~= Seq::<EntryModel>::empty());
        }
        cache
    }

    /// Create a datagram-only cache; no identity or encryption concepts
    /// apply. The pool size is clamped to a minimum of 1.
    pub fn with_udp(connection_pool_size: usize) -> (cache: Self)
        ensures
            cache.wf(),
            cache.protocol == Protocol::Udp,
            cache.pool_size == (if connection_pool_size < 1 {
                1usize
            } else {
                connection_pool_size
            }),
            cache@.entries == Seq::<EntryModel>::empty(),
            cache.config() == (
                None::<ClientEndpoint>,
                None::<CertificateInfo>,
                None::<StakeBinding>,
            ),
    {
        // The minimum pool size is 1.
        let connection_pool_size = if connection_pool_size < 1 {
            1
        } else {
            connection_pool_size
        };
        let cache = ConnectionCache {
            protocol: Protocol::Udp,
            pool_size: connection_pool_size,
            entries: Vec::new(),
            next_id: 0,
            client_endpoint: None,
            cert_info: None,
            stake_binding: None,
        };
        proof {
            assert(cache@.entries =~= Seq::<EntryModel>::empty());
        }
        cache
    }

    /// Deprecated entry point kept for caller compatibility: setting
    /// the certificate after construction is not supported, so this
    /// mutates nothing and reports success unconditionally. Use
    /// `new_with_client_options` instead.
    pub fn update_client_certificate(&mut self, cert_info: &CertificateInfo) -> (r: Result<
        (),
        TransportError,
    >)
        ensures
            *final(self) == *old(self),
            r == Result::<(), TransportError>::Ok(()),
    {
        let _ = cert_info;
        Ok(())
    }

    /// Deprecated entry point kept for caller compatibility: setting
    /// the stake binding after construction is not supported, so this
    /// mutates nothing. Use `new_with_client_options` instead.
    pub fn set_staked_nodes(&mut self, stake_info: &StakeBinding)
        ensures
            *final(self) == *old(self),
    {
        let _ = stake_info;
    }

    /// Whether this cache was built for the encrypted stream protocol.
    /// Pure query, no side effects.
    pub fn use_quic(&self) -> (r: bool)
        ensures
            r == (self.protocol == Protocol::Quic),
    {
        match self.protocol {
            Protocol::Quic => true,
            Protocol::Udp => false,
        }
    }

    /// Shared pooled lookup behind both accessors.
    fn obtain(&mut self, addr: SocketAddress) -> (conn: Connection)
        requires
            old(self).wf(),
        ensures
            final(self).wf(),
            (final(self)@, conn) == old(self)@.spec_get(addr),
            final(self).pool_size == old(self).pool_size,
            final(self).protocol == old(self).protocol,
            final(self).config() == old(self).config(),
            conn.addr == addr,
            conn.protocol == old(self).protocol,
            final(self)@.pool_of(addr).len() <= old(self).pool_size,
            final(self)@.pool_of(addr).contains(conn),
    {
        proof {
            lemma_lookup_preserves_bounds(self@, addr);
        }
        let found = find_entry(&self.entries, addr);
        let fresh = Connection { addr, protocol: self.protocol, id: self.next_id };
        match found {
            Some(i) => {
                proof {
                    assert(self@.entries[i as int].addr == addr);
                    assert(self@.has_entry(addr));
                    let j = self@.index_of(addr);
                    assert(0 <= j < self@.entries.len() && self@.entries[j].addr == addr);
                    assert(j == i as int);
                }
                let ghost prior = self@;
                let mut e = self.entries.remove(i);
                if e.connections.len() < self.pool_size {
                    e.connections.push(fresh);
                    self.entries.push(e);
                    self.next_id = if self.next_id < u64::MAX {
                        self.next_id + 1
                    } else {
                        self.next_id
                    };
                    proof {
                        assert(self@.entries =~= prior.spec_get(addr).0.entries);
                        assert(self@ == prior.spec_get(addr).0);
                    }
                    fresh
                } else {
                    let conn = e.connections[e.connections.len() - 1];
                    self.entries.push(e);
                    proof {
                        assert(self@.entries =~= prior.spec_get(addr).0.entries);
                        assert(self@ == prior.spec_get(addr).0);
                        assert(conn == prior.entries[i as int].connections.last());
                    }
                    conn
                }
            },
            None => {
                let ghost prior = self@;
                proof {
                    assert(!prior.has_entry(addr));
                }
                if self.entries.len() >= MAX_CONNECTIONS {
                    let _ = self.entries.remove(0);
                }
                let mut connections: Vec<Connection> = Vec::new();
                connections.push(fresh);
                self.entries.push(PoolEntry { addr, connections });
                self.next_id = if self.next_id < u64::MAX {
                    self.next_id + 1
                } else {
                    self.next_id
                };
                proof {
                    assert(connections@ =~= seq![fresh]);
                    assert(self@.entries =~= prior.spec_get(addr).0.entries);
                    assert(self@ == prior.spec_get(addr).0);
                }
                fresh
            },
        }
    }

    /// Return a pooled handle for blocking-style use. The call itself
    /// never fails: establishment failures surface only when the handle
    /// is later used to send. Creates and pools a connection when none
    /// exists, evicting the least-recently-used destination at the cap.
    pub fn get_connection(&mut self, addr: SocketAddress) -> (conn: Connection)
        requires
            old(self).wf(),
        ensures
            final(self).wf(),
            (final(self)@, conn) == old(self)@.spec_get(addr),
            final(self).pool_size == old(self).pool_size,
            final(self).protocol == old(self).protocol,
            final(self).config() == old(self).config(),
            conn.addr == addr,
            conn.protocol == old(self).protocol,
            final(self)@.pool_of(addr).len() <= old(self).pool_size,
            final(self)@.pool_of(addr).contains(conn),
    {
        self.obtain(addr)
    }

    /// Return a pooled handle whose send does not block the caller's
    /// thread; used by asynchronous submission paths. Both accessors
    /// draw on the same bounded pool.
    pub fn get_nonblocking_connection(&mut self, addr: SocketAddress) -> (conn: Connection)
        requires
            old(self).wf(),
        ensures
            final(self).wf(),
            (final(self)@, conn) == old(self)@.spec_get(addr),
            final(self).pool_size == old(self).pool_size,
            final(self).protocol == old(self).protocol,
            final(self).config() == old(self).config(),
            conn.addr == addr,
            conn.protocol == old(self).protocol,
            final(self)@.pool_of(addr).len() <= old(self).pool_size,
            final(self)@.pool_of(addr).contains(conn),
    {
        self.obtain(addr)
    }
}

impl Default for ConnectionCache {
    /// The system-wide default: a stream-protocol cache of the default
    /// pool size with a placeholder advertised address.
    fn default() -> (cache: Self)
        ensures
            cache.wf(),
            cache.pool_size == DEFAULT_CONNECTION_POOL_SIZE,
            cache@.entries == Seq::<EntryModel>::empty(),
            cache.protocol == (if DEFAULT_CONNECTION_CACHE_USE_QUIC {
                Protocol::Quic
            } else {
                Protocol::Udp
            }),
    {
        if DEFAULT_CONNECTION_CACHE_USE_QUIC {
            ConnectionCache::new_with_client_options(
                DEFAULT_CONNECTION_POOL_SIZE,
                None,
                Some(CertificateInfo { ip: 0 }),
                None,
            )
        } else {
            ConnectionCache::with_udp(DEFAULT_CONNECTION_POOL_SIZE)
        }
    }
}

} // verus!
