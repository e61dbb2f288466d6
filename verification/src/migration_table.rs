//! The migrations a server takes part in, keyed by connection.
//!
//! A `MigrationTable` holds one `ActiveMigration` per connection being migrated in or
//! out, keyed by (origin, client), the origin of each connection migrated in, keyed by
//! (target, client), and the clients whose connections were migrated out. `receive`
//! routes each TCPMig segment to its migration and says what the caller has to do next:
//! answer, migrate the connection out or in, or nothing. Sending segments, moving TCP
//! state in and out of the TCP layer and (de)serialising it are the caller's.

use crate::active_migration::{
    fragment_fits, fresh_header, reply_to, same_but_stage, same_migration, ActiveMigration,
    MigrationError, MigrationRequestStatus,
};
use crate::addr::{octets_to_u32, Ipv4Addr, SocketAddrV4};
use crate::buffer::Buffer;
use crate::defragmenter::{defrag_step, FragmentView};
use crate::ipv4::Ipv4Header;
use crate::queue::QDesc;
use crate::stage::MigrationStage;
use crate::tcpmig_header::TcpMigHeader;
use crate::tcpmig_stats::{conn_key, connection_key, picked, Connection, TcpMigStats};
use std::collections::{HashMap, HashSet, VecDeque};
use vstd::prelude::*;

verus! {

broadcast use vstd::std_specs::hash::group_hash_axioms;

/// The address of the frontend that all migration segments go through.
pub open spec fn frontend_addr() -> Ipv4Addr {
    Ipv4Addr { octets: [10, 0, 1, 8] }
}

/// The address of the frontend that all migration segments go through.
pub fn frontend_ip() -> (a: Ipv4Addr)
    ensures
        a == frontend_addr(),
{
    Ipv4Addr { octets: [10, 0, 1, 8] }
}

/// The UDP port an origin first sends its proposal to: the other of the two migration
/// ports.
pub open spec fn other_udp_port(port: u16) -> u16 {
    if port == 10001 {
        10000
    } else {
        10001
    }
}

/// The 48-bit number that identifies a socket address: address, then port.
pub open spec fn addr_key(a: SocketAddrV4) -> u64 {
    (octets_to_u32(a.ip.octets) * 0x1_0000 + a.port as int) as u64
}

/// Computes the number that identifies a socket address.
pub fn address_key(a: &SocketAddrV4) -> (k: u64)
    ensures
        k == addr_key(*a),
{
    let o = a.ip.octets;
    let ip: u64 = (o[0] as u64) * 0x100_0000 + (o[1] as u64) * 0x1_0000 + (o[2] as u64) * 0x100
        + (o[3] as u64);
    ip * 0x1_0000 + (a.port as u64)
}

/// What the caller does after a segment was received.
pub enum PeerAction {
    /// Nothing.
    Nothing,
    /// Send this header back, with an empty payload.
    Reply(TcpMigHeader),
    /// The target acknowledged the proposal: take the connection out of the TCP layer
    /// (its queue descriptor, when the migration was initiated with one) and send its
    /// serialised state under this header.
    MigrateOut(Option<QDesc>, TcpMigHeader),
    /// The target refused the migration.
    Rejected,
    /// The connection state arrived whole: the reassembled header and payload. Once the
    /// state is deserialised and handed to the TCP layer, `accept_state` acknowledges it.
    MigrateIn(TcpMigHeader, Buffer),
    /// The target acknowledged the state: the migration is over and left the table.
    Completed,
}

/// Why a segment or a request could not be handled.
#[derive(Debug, Clone, Copy, PartialEq, Eq, Structural)]
pub enum PeerError {
    /// No migration of the connection is in progress.
    NoSuchActiveMigration,
    /// No connection migrated in from the given target and client.
    NoOrigin,
    /// The segment's stage does not follow the last stage sent.
    Protocol(MigrationError),
}

/// Chooses a connection to migrate out, at most `migration_limit` times in all as
/// counted by `migrations_done`: `None` when at most one connection is tracked, the limit
/// is reached, the average global receive-queue length is not above the threshold, or no
/// connection is in the bucket list. Otherwise the connection `get_connection_to_migrate_out`
/// picks, counted in `migrations_done`.
pub fn should_migrate(stats: &mut TcpMigStats, migrations_done: &mut u32, migration_limit: u32) -> (r:
    Option<Connection>)
    requires
        old(stats).wf(),
        old(stats).tracked_connections().len() > 1 && *old(migrations_done) < migration_limit
            && old(stats).avg() > old(stats).threshold() ==> old(stats).can_pick(),
    ensures
        final(stats).wf(),
        ({
            let due = old(stats).tracked_connections().len() > 1 && *old(migrations_done) < migration_limit
                && old(stats).avg() > old(stats).threshold() && !old(stats).buckets().is_empty();
            if due {
                &&& r matches Some(c) && picked(*old(stats), *final(stats), c)
                &&& *final(migrations_done) == *old(migrations_done) + 1
            } else {
                &&& r is None
                &&& *final(stats) == *old(stats)
                &&& *final(migrations_done) == *old(migrations_done)
            }
        }),
{
    if stats.num_of_connections() <= 1 || *migrations_done >= migration_limit {
        return None;
    }
    let recv_queue_len = stats.avg_global_recv_queue_length();
    if recv_queue_len > stats.recv_queue_threshold() {
        match stats.get_connection_to_migrate_out() {
            Some(connection) => {
                *migrations_done = *migrations_done + 1;
                Some(connection)
            },
            None => None,
        }
    } else {
        None
    }
}

/// The least time between two heartbeats, in nanoseconds.
pub const HEARTBEAT_INTERVAL_NANOS: u128 = 1_000_000;

/// Whether a backend sends the frontend a heartbeat with its global receive-queue length
/// `queue_len`, `elapsed_nanos` after the last one: only while the length is not above
/// the migration threshold, and once more than the heartbeat interval has passed.
pub fn heartbeat_due(queue_len: usize, threshold: usize, elapsed_nanos: u128) -> (b: bool)
    ensures
        b == (queue_len <= threshold && elapsed_nanos > HEARTBEAT_INTERVAL_NANOS),
{
    if queue_len > threshold {
        return false;
    }
    elapsed_nanos > HEARTBEAT_INTERVAL_NANOS
}

/// The stages a migration in the table can be at: proposed, acknowledged (target side),
/// state sent, state acknowledged (target side).
pub open spec fn stage_in_table(s: MigrationStage) -> bool {
    ||| s == MigrationStage::PrepareMigration
    ||| s == MigrationStage::PrepareMigrationAck
    ||| s == MigrationStage::ConnectionState
    ||| s == MigrationStage::ConnectionStateAck
}

/// `a` and `b` are the migration of the same connection between the same endpoints,
/// with the same packets buffered.
pub open spec fn same_connection<H>(a: ActiveMigration<H>, b: ActiveMigration<H>) -> bool {
    &&& a.local_addr() == b.local_addr()
    &&& a.remote_addr() == b.remote_addr()
    &&& a.self_port() == b.self_port()
    &&& a.origin_addr() == b.origin_addr()
    &&& a.client_addr() == b.client_addr()
    &&& a.buffered() == b.buffered()
}

/// `a` is a migration between `local:port` and the frontend of the connection between
/// `origin` and `client`, with no packet buffered and no fragment held, whose proposal
/// goes to UDP port `dest`.
pub open spec fn new_migration<H>(
    a: ActiveMigration<H>,
    local: Ipv4Addr,
    port: u16,
    dest: u16,
    origin: SocketAddrV4,
    client: SocketAddrV4,
) -> bool {
    &&& a.local_addr() == local
    &&& a.remote_addr() == frontend_addr()
    &&& a.self_port() == port
    &&& a.dest_port() == dest
    &&& a.origin_addr() == origin
    &&& a.client_addr() == client
    &&& !a.prepared()
    &&& a.buffered() == Seq::<(Ipv4Header, H, Buffer)>::empty()
    &&& a.defrag_count() is None
    &&& a.defrag_held() == Seq::<FragmentView>::empty()
}

/// `b` is `a` after the target acknowledged its proposal from UDP port `port` and the
/// state was sent.
pub open spec fn sent_state<H>(a: ActiveMigration<H>, b: ActiveMigration<H>, port: u16) -> bool {
    &&& same_connection(a, b)
    &&& b.last_stage() == MigrationStage::ConnectionState
    &&& b.prepared()
    &&& b.dest_port() == port
    &&& b.defrag_count() == a.defrag_count()
    &&& b.defrag_held() == a.defrag_held()
}

/// `b` is `a` with the reassembly of its state at fragment count `count` holding `held`.
pub open spec fn took_fragment<H>(
    a: ActiveMigration<H>,
    b: ActiveMigration<H>,
    count: Option<usize>,
    held: Seq<FragmentView>,
) -> bool {
    &&& same_connection(a, b)
    &&& b.last_stage() == a.last_stage()
    &&& b.prepared() == a.prepared()
    &&& b.dest_port() == a.dest_port()
    &&& b.defrag_count() == count
    &&& b.defrag_held() == held
}

/// The migrations a server takes part in; `H` is the type of the TCP headers of the
/// packets buffered for connections being migrated in.
pub struct MigrationTable<H> {
    local_ipv4_addr: Ipv4Addr,
    self_udp_port: u16,
    /// The migrations in progress, by the number of (origin, client), with the queue
    /// descriptor of the connection on the origin side.
    active: HashMap<u128, (ActiveMigration<H>, Option<QDesc>)>,
    /// The origin of each connection migrated in, by the number of (target, client).
    origins: HashMap<u128, SocketAddrV4>,
    /// The clients whose connections were migrated out, by address number.
    migrated_out: HashSet<u64>,
}

/// `a` and `b` hold the same migrations, origins and migrated-out clients.
pub open spec fn same_table<H>(a: MigrationTable<H>, b: MigrationTable<H>) -> bool {
    &&& a.local_addr() == b.local_addr()
    &&& a.self_port() == b.self_port()
    &&& a.entries() == b.entries()
    &&& a.origins() == b.origins()
    &&& a.migrated_out() == b.migrated_out()
}

impl<H> MigrationTable<H> {
    /// The local IPv4 address.
    pub closed spec fn local_addr(&self) -> Ipv4Addr {
        self.local_ipv4_addr
    }

    /// The local UDP port of the migration protocol.
    pub closed spec fn self_port(&self) -> u16 {
        self.self_udp_port
    }

    /// The migrations in progress, by the number of (origin, client), each with its
    /// queue descriptor.
    pub closed spec fn entries(&self) -> Map<u128, (ActiveMigration<H>, Option<QDesc>)> {
        self.active@
    }

    /// The origin of each connection migrated in, by the number of (target, client).
    pub closed spec fn origins(&self) -> Map<u128, SocketAddrV4> {
        self.origins@
    }

    /// The numbers of the clients whose connections were migrated out.
    pub closed spec fn migrated_out(&self) -> Set<u64> {
        self.migrated_out@
    }

    /// Every migration in the table is at a stage it can be kept at.
    pub open spec fn wf(&self) -> bool {
        forall|k: u128| #[trigger]
            self.entries().contains_key(k) ==> stage_in_table(self.entries()[k].0.last_stage())
    }

    /// Whether `receive` can take segment `hdr`: a last fragment of connection state does
    /// not announce fewer fragments than are held already, and the acknowledgement of a
    /// proposal does not come for a client already migrated out.
    pub open spec fn accepts(&self, hdr: TcpMigHeader) -> bool {
        let k = conn_key((hdr.origin, hdr.remote));
        hdr.stage != MigrationStage::PrepareMigration && self.entries().contains_key(k) ==> {
            let a = self.entries()[k].0;
            &&& a.last_stage() == MigrationStage::PrepareMigrationAck && hdr.stage
                == MigrationStage::ConnectionState ==> fragment_fits(a, hdr)
            &&& a.last_stage() == MigrationStage::PrepareMigration && hdr.stage
                == MigrationStage::PrepareMigrationAck ==> !self.migrated_out().contains(
                addr_key(hdr.remote),
            )
        }
    }

    /// An empty table for the server at `local_ipv4_addr`, with migration port
    /// `self_udp_port`.
    pub fn new(local_ipv4_addr: Ipv4Addr, self_udp_port: u16) -> (t: MigrationTable<H>)
        ensures
            t.wf(),
            t.local_addr() == local_ipv4_addr,
            t.self_port() == self_udp_port,
            t.entries() == Map::<u128, (ActiveMigration<H>, Option<QDesc>)>::empty(),
            t.origins() == Map::<u128, SocketAddrV4>::empty(),
            t.migrated_out() == Set::<u64>::empty(),
    {
        MigrationTable {
            local_ipv4_addr,
            self_udp_port,
            active: HashMap::new(),
            origins: HashMap::new(),
            migrated_out: HashSet::new(),
        }
    }

    /// Sets the local UDP port of the migration protocol.
    pub fn set_port(&mut self, port: u16)
        ensures
            final(self).self_port() == port,
            final(self).local_addr() == old(self).local_addr(),
            final(self).entries() == old(self).entries(),
            final(self).origins() == old(self).origins(),
            final(self).migrated_out() == old(self).migrated_out(),
    {
        self.self_udp_port = port;
    }

    /// Whether a migration of `conn` (origin, client) is in progress.
    pub fn is_migrating(&self, conn: &Connection) -> (b: bool)
        ensures
            b == self.entries().contains_key(conn_key(*conn)),
    {
        self.active.contains_key(&connection_key(conn))
    }

    /// Whether the connection of `client` was migrated out.
    pub fn is_migrated_out(&self, client: &SocketAddrV4) -> (b: bool)
        ensures
            b == self.migrated_out().contains(addr_key(*client)),
    {
        self.migrated_out.contains(&address_key(client))
    }

    /// Takes TCPMig segment `(hdr, payload)`, which came from UDP port
    /// `source_udp_port`, and says what the caller does next.
    ///
    /// A PREPARE_MIGRATION starts migrating in the connection (origin, client) of `hdr`:
    /// a new migration is entered, the origin recorded under (this server, client), and
    /// the proposal acknowledged. When a migration of that connection is already in
    /// progress, the proposal came back to the server that sent it: that migration is
    /// dropped and nothing else happens. Any other segment goes to the migration of its
    /// connection, and it is an error when there is none. An acknowledged proposal makes
    /// the connection migrate out (its state is sent at once, and its client counted as
    /// migrated out), reassembled state makes it migrate in, and an acknowledged state
    /// ends the migration.
    pub fn receive(&mut self, hdr: TcpMigHeader, source_udp_port: u16, payload: Buffer) -> (r: Result<
        PeerAction,
        PeerError,
    >)
        requires
            old(self).wf(),
            old(self).accepts(hdr),
        ensures
            final(self).wf(),
            final(self).local_addr() == old(self).local_addr(),
            final(self).self_port() == old(self).self_port(),
            ({
                let k = conn_key((hdr.origin, hdr.remote));
                let m = old(self).entries();
                let n = final(self).entries();
                if hdr.stage == MigrationStage::PrepareMigration {
                    if m.contains_key(k) {
                        &&& r matches Ok(PeerAction::Nothing)
                        &&& n == m.remove(k)
                        &&& final(self).origins() == old(self).origins()
                        &&& final(self).migrated_out() == old(self).migrated_out()
                    } else {
                        let target = SocketAddrV4 { ip: old(self).local_addr(), port: old(self).self_port() };
                        &&& r matches Ok(PeerAction::Reply(reply))
                        &&& reply == TcpMigHeader {
                            flag_load: true,
                            ..reply_to(hdr, MigrationStage::PrepareMigrationAck)
                        }
                        &&& n.contains_key(k)
                        &&& n.remove(k) == m
                        &&& n[k].1 is None
                        &&& n[k].0.last_stage() == MigrationStage::PrepareMigrationAck
                        &&& new_migration(
                            n[k].0,
                            old(self).local_addr(),
                            old(self).self_port(),
                            hdr.origin.port,
                            hdr.origin,
                            hdr.remote,
                        )
                        &&& final(self).origins() == old(self).origins().insert(
                            conn_key((target, hdr.remote)),
                            hdr.origin,
                        )
                        &&& final(self).migrated_out() == old(self).migrated_out()
                    }
                } else if !m.contains_key(k) {
                    &&& r == Err::<PeerAction, PeerError>(PeerError::NoSuchActiveMigration)
                    &&& same_table(*final(self), *old(self))
                } else {
                    let (a, qd) = m[k];
                    let unchanged = same_table(*final(self), *old(self));
                    match a.last_stage() {
                        MigrationStage::PrepareMigration => if hdr.stage == MigrationStage::PrepareMigrationAck {
                            &&& r matches Ok(PeerAction::MigrateOut(q, state_hdr))
                            &&& q == qd
                            &&& state_hdr == fresh_header(a.origin_addr(), a.client_addr(), MigrationStage::ConnectionState)
                            &&& n.contains_key(k)
                            &&& n == m.insert(k, (n[k].0, qd))
                            &&& sent_state(a, n[k].0, source_udp_port)
                            &&& final(self).origins() == old(self).origins()
                            &&& final(self).migrated_out() == old(self).migrated_out().insert(addr_key(hdr.remote))
                        } else if hdr.stage == MigrationStage::Rejected {
                            &&& r matches Ok(PeerAction::Rejected)
                            &&& unchanged
                        } else {
                            &&& r == Err::<PeerAction, PeerError>(
                                PeerError::Protocol(MigrationError::ExpectedPrepareMigrationAckOrRejected),
                            )
                            &&& unchanged
                        },
                        MigrationStage::PrepareMigrationAck => if hdr.stage == MigrationStage::ConnectionState {
                            let (count, held, result) = defrag_step(a.defrag_count(), a.defrag_held(), (hdr, payload@));
                            &&& n.contains_key(k)
                            &&& n == m.insert(k, (n[k].0, qd))
                            &&& took_fragment(a, n[k].0, count, held)
                            &&& final(self).origins() == old(self).origins()
                            &&& final(self).migrated_out() == old(self).migrated_out()
                            &&& match result {
                                Some((h, bytes)) => r matches Ok(PeerAction::MigrateIn(rh, rb)) && rh == h
                                    && rb@ == bytes,
                                None => r matches Ok(PeerAction::Nothing),
                            }
                        } else {
                            &&& r == Err::<PeerAction, PeerError>(
                                PeerError::Protocol(MigrationError::ExpectedConnectionState),
                            )
                            &&& unchanged
                        },
                        MigrationStage::ConnectionState => if hdr.stage == MigrationStage::ConnectionStateAck {
                            &&& r matches Ok(PeerAction::Completed)
                            &&& n == m.remove(k)
                            &&& final(self).origins() == old(self).origins()
                            &&& final(self).migrated_out() == old(self).migrated_out()
                        } else {
                            &&& r == Err::<PeerAction, PeerError>(
                                PeerError::Protocol(MigrationError::ExpectedConnectionStateAck),
                            )
                            &&& unchanged
                        },
                        MigrationStage::ConnectionStateAck => {
                            &&& r matches Ok(PeerAction::Nothing)
                            &&& unchanged
                        },
                        _ => false,
                    }
                }
            }),
    {
        let k = connection_key(&(hdr.origin, hdr.remote));
        if hdr.stage == MigrationStage::PrepareMigration {
            if self.active.contains_key(&k) {
                // The proposal came back to the server that sent it.
                let _ = self.active.remove(&k);
                return Ok(PeerAction::Nothing);
            }
            let mut a: ActiveMigration<H> = ActiveMigration::new(
                self.local_ipv4_addr,
                frontend_ip(),
                self.self_udp_port,
                hdr.origin.port,
                hdr.origin,
                hdr.remote,
            );
            let target = SocketAddrV4 { ip: self.local_ipv4_addr, port: self.self_udp_port };
            let _ = self.origins.insert(connection_key(&(target, hdr.remote)), hdr.origin);
            return match a.process_packet(hdr, source_udp_port, payload) {
                Ok((_, Some(reply))) => {
                    let _ = self.active.insert(k, (a, None));
                    Ok(PeerAction::Reply(reply))
                },
                _ => {
                    proof {
                        assert(false);
                    }
                    Err(PeerError::NoSuchActiveMigration)
                },
            };
        }
        let (mut a, qd) = match self.active.remove(&k) {
            None => {
                assert(self.entries() =~= old(self).entries());
                return Err(PeerError::NoSuchActiveMigration);
            },
            Some(e) => e,
        };
        let ghost m = old(self).entries();
        let before = a.stage();
        proof {
            assert(m.contains_key(k));
            assert(stage_in_table(before));
        }
        match a.process_packet(hdr, source_udp_port, payload) {
            Err(e) => {
                let _ = self.active.insert(k, (a, qd));
                assert(self.entries() =~= m);
                Err(PeerError::Protocol(e))
            },
            Ok((status, reply)) => match status {
                MigrationRequestStatus::Handled => {
                    if before == MigrationStage::PrepareMigration {
                        let state_hdr = a.send_connection_state();
                        let _ = self.migrated_out.insert(address_key(&hdr.remote));
                        let _ = self.active.insert(k, (a, qd));
                        Ok(PeerAction::MigrateOut(qd, state_hdr))
                    } else {
                        let _ = self.active.insert(k, (a, qd));
                        proof {
                            if before == MigrationStage::ConnectionStateAck {
                                assert(self.entries() =~= m);
                            }
                        }
                        match reply {
                            Some(h) => Ok(PeerAction::Reply(h)),
                            None => Ok(PeerAction::Nothing),
                        }
                    }
                },
                MigrationRequestStatus::Rejected => {
                    let _ = self.active.insert(k, (a, qd));
                    assert(self.entries() =~= m);
                    Ok(PeerAction::Rejected)
                },
                MigrationRequestStatus::StateReceived(h, b) => {
                    let _ = self.active.insert(k, (a, qd));
                    Ok(PeerAction::MigrateIn(h, b))
                },
                MigrationRequestStatus::MigrationCompleted => Ok(PeerAction::Completed),
            },
        }
    }

    /// Origin side: starts migrating out connection `conn` (origin, client), whose queue
    /// descriptor is `qd`, and returns the PREPARE_MIGRATION header to send (with an empty
    /// payload). The proposal goes to the other migration port until the target answers.
    pub fn initiate_migration(&mut self, conn: Connection, qd: QDesc) -> (hdr: TcpMigHeader)
        requires
            old(self).wf(),
            !old(self).entries().contains_key(conn_key(conn)),
        ensures
            final(self).wf(),
            hdr == fresh_header(conn.0, conn.1, MigrationStage::PrepareMigration),
            ({
                let k = conn_key(conn);
                let n = final(self).entries();
                &&& n.contains_key(k)
                &&& n.remove(k) == old(self).entries()
                &&& n[k].1 == Some(qd)
                &&& n[k].0.last_stage() == MigrationStage::PrepareMigration
                &&& new_migration(
                    n[k].0,
                    old(self).local_addr(),
                    old(self).self_port(),
                    other_udp_port(old(self).self_port()),
                    conn.0,
                    conn.1,
                )
            }),
            final(self).local_addr() == old(self).local_addr(),
            final(self).self_port() == old(self).self_port(),
            final(self).origins() == old(self).origins(),
            final(self).migrated_out() == old(self).migrated_out(),
    {
        let dest: u16 = if self.self_udp_port == 10001 {
            10000
        } else {
            10001
        };
        let mut a: ActiveMigration<H> = ActiveMigration::new(
            self.local_ipv4_addr,
            frontend_ip(),
            self.self_udp_port,
            dest,
            conn.0,
            conn.1,
        );
        let hdr = a.initiate_migration();
        let _ = self.active.insert(connection_key(&conn), (a, Some(qd)));
        assert(self.entries().remove(conn_key(conn)) =~= old(self).entries());
        hdr
    }

    /// Target side: acknowledges the connection state carried by `hdr` (as returned in
    /// `MigrateIn`) once the caller has taken it in; returns the CONNECTION_STATE_ACK
    /// header, or `None` (and changes nothing) when the connection of `hdr` has no
    /// migration waiting for its state.
    pub fn accept_state(&mut self, hdr: TcpMigHeader) -> (r: Option<TcpMigHeader>)
        requires
            old(self).wf(),
        ensures
            final(self).wf(),
            ({
                let k = conn_key((hdr.origin, hdr.remote));
                let m = old(self).entries();
                let n = final(self).entries();
                if m.contains_key(k) && m[k].0.last_stage() == MigrationStage::PrepareMigrationAck {
                    &&& r == Some(reply_to(hdr, MigrationStage::ConnectionStateAck))
                    &&& n.contains_key(k)
                    &&& n == m.insert(k, (n[k].0, m[k].1))
                    &&& n[k].0.last_stage() == MigrationStage::ConnectionStateAck
                    &&& same_but_stage(m[k].0, n[k].0)
                } else {
                    &&& r is None
                    &&& n == m
                }
            }),
            final(self).local_addr() == old(self).local_addr(),
            final(self).self_port() == old(self).self_port(),
            final(self).origins() == old(self).origins(),
            final(self).migrated_out() == old(self).migrated_out(),
    {
        let k = connection_key(&(hdr.origin, hdr.remote));
        match self.active.remove(&k) {
            None => {
                assert(self.entries() =~= old(self).entries());
                None
            },
            Some((mut a, qd)) => {
                if a.stage() == MigrationStage::PrepareMigrationAck {
                    let reply = a.accept_state(hdr);
                    let _ = self.active.insert(k, (a, qd));
                    Some(reply)
                } else {
                    let _ = self.active.insert(k, (a, qd));
                    assert(self.entries() =~= old(self).entries());
                    None
                }
            },
        }
    }

    /// Target side: buffers a packet of connection (`target`, `client`) while it is being
    /// migrated in. Hands the packet back when the connection has no recorded origin or
    /// no migration in progress.
    pub fn try_buffer_packet(
        &mut self,
        target: SocketAddrV4,
        client: SocketAddrV4,
        ip_hdr: Ipv4Header,
        tcp_hdr: H,
        data: Buffer,
    ) -> (r: Result<(), (Ipv4Header, H, Buffer)>)
        requires
            old(self).wf(),
        ensures
            final(self).wf(),
            ({
                let t = conn_key((target, client));
                let m = old(self).entries();
                let n = final(self).entries();
                if old(self).origins().contains_key(t) && m.contains_key(
                    conn_key((old(self).origins()[t], client)),
                ) {
                    let k = conn_key((old(self).origins()[t], client));
                    &&& r is Ok
                    &&& n.contains_key(k)
                    &&& n == m.insert(k, (n[k].0, m[k].1))
                    &&& n[k].0.buffered() == m[k].0.buffered().push((ip_hdr, tcp_hdr, data))
                    &&& n[k].0.last_stage() == m[k].0.last_stage()
                    &&& same_migration(m[k].0, n[k].0)
                } else {
                    &&& r == Err::<(), (Ipv4Header, H, Buffer)>((ip_hdr, tcp_hdr, data))
                    &&& n == m
                }
            }),
            final(self).local_addr() == old(self).local_addr(),
            final(self).self_port() == old(self).self_port(),
            final(self).origins() == old(self).origins(),
            final(self).migrated_out() == old(self).migrated_out(),
    {
        let origin = match self.origins.get(&connection_key(&(target, client))) {
            Some(o) => *o,
            None => {
                return Err((ip_hdr, tcp_hdr, data));
            },
        };
        let k = connection_key(&(origin, client));
        match self.active.remove(&k) {
            None => {
                assert(self.entries() =~= old(self).entries());
                Err((ip_hdr, tcp_hdr, data))
            },
            Some((mut a, qd)) => {
                a.buffer_packet(ip_hdr, tcp_hdr, data);
                let _ = self.active.insert(k, (a, qd));
                Ok(())
            },
        }
    }

    /// Target side: takes out the packets buffered for connection (`target`, `client`),
    /// oldest first.
    pub fn take_buffer_queue(&mut self, target: SocketAddrV4, client: SocketAddrV4) -> (r: Result<
        VecDeque<(Ipv4Header, H, Buffer)>,
        PeerError,
    >)
        requires
            old(self).wf(),
        ensures
            final(self).wf(),
            ({
                let t = conn_key((target, client));
                let m = old(self).entries();
                let n = final(self).entries();
                if !old(self).origins().contains_key(t) {
                    &&& r == Err::<VecDeque<(Ipv4Header, H, Buffer)>, PeerError>(PeerError::NoOrigin)
                    &&& n == m
                } else if !m.contains_key(conn_key((old(self).origins()[t], client))) {
                    &&& r == Err::<VecDeque<(Ipv4Header, H, Buffer)>, PeerError>(
                        PeerError::NoSuchActiveMigration,
                    )
                    &&& n == m
                } else {
                    let k = conn_key((old(self).origins()[t], client));
                    &&& r matches Ok(q) && q@ == m[k].0.buffered()
                    &&& n.contains_key(k)
                    &&& n == m.insert(k, (n[k].0, m[k].1))
                    &&& n[k].0.buffered() == Seq::<(Ipv4Header, H, Buffer)>::empty()
                    &&& n[k].0.last_stage() == m[k].0.last_stage()
                    &&& same_migration(m[k].0, n[k].0)
                }
            }),
            final(self).local_addr() == old(self).local_addr(),
            final(self).self_port() == old(self).self_port(),
            final(self).origins() == old(self).origins(),
            final(self).migrated_out() == old(self).migrated_out(),
    {
        let origin = match self.origins.get(&connection_key(&(target, client))) {
            Some(o) => *o,
            None => {
                return Err(PeerError::NoOrigin);
            },
        };
        let k = connection_key(&(origin, client));
        match self.active.remove(&k) {
            None => {
                assert(self.entries() =~= old(self).entries());
                Err(PeerError::NoSuchActiveMigration)
            },
            Some((mut a, qd)) => {
                let q = a.take_recv_queue();
                let _ = self.active.insert(k, (a, qd));
                Ok(q)
            },
        }
    }

    /// Target side: ends the migration of connection (`target`, `client`) once it was
    /// migrated in: its migration leaves the table and its client no longer counts as
    /// migrated out.
    pub fn complete_migrating_in(&mut self, target: SocketAddrV4, client: SocketAddrV4)
        requires
            old(self).wf(),
            old(self).origins().contains_key(conn_key((target, client))),
            old(self).entries().contains_key(
                conn_key((old(self).origins()[conn_key((target, client))], client)),
            ),
        ensures
            final(self).wf(),
            final(self).entries() == old(self).entries().remove(
                conn_key((old(self).origins()[conn_key((target, client))], client)),
            ),
            final(self).migrated_out() == old(self).migrated_out().remove(addr_key(client)),
            final(self).local_addr() == old(self).local_addr(),
            final(self).self_port() == old(self).self_port(),
            final(self).origins() == old(self).origins(),
    {
        let origin = match self.origins.get(&connection_key(&(target, client))) {
            Some(o) => *o,
            None => {
                proof {
                    assert(false);
                }
                return;
            },
        };
        let _ = self.active.remove(&connection_key(&(origin, client)));
        let _ = self.migrated_out.remove(&address_key(&client));
    }

    /// Whether a migration of the connection (`target`, `client`) migrated in is in
    /// progress.
    pub fn is_migrating_in(&self, target: SocketAddrV4, client: SocketAddrV4) -> (b: bool)
        ensures
            b == (self.origins().contains_key(conn_key((target, client))) && self.entries().contains_key(
                conn_key((self.origins()[conn_key((target, client))], client)),
            )),
    {
        match self.origins.get(&connection_key(&(target, client))) {
            Some(o) => self.active.contains_key(&connection_key(&(*o, client))),
            None => false,
        }
    }

    /// Whether `receive` can take segment `hdr`.
    pub fn can_receive(&self, hdr: &TcpMigHeader) -> (b: bool)
        requires
            self.wf(),
        ensures
            b == self.accepts(*hdr),
    {
        if hdr.stage == MigrationStage::PrepareMigration {
            return true;
        }
        let k = connection_key(&(hdr.origin, hdr.remote));
        match self.active.get(&k) {
            None => true,
            Some(e) => {
                let s = e.0.stage();
                if s == MigrationStage::PrepareMigrationAck && hdr.stage == MigrationStage::ConnectionState {
                    e.0.fits_fragment(hdr)
                } else if s == MigrationStage::PrepareMigration && hdr.stage
                    == MigrationStage::PrepareMigrationAck {
                    !self.migrated_out.contains(&address_key(&hdr.remote))
                } else {
                    true
                }
            },
        }
    }
}

} // verus!
