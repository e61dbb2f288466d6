//! The per-connection side of the TCP migration protocol.
//!
//! The origin server proposes a migration (PREPARE_MIGRATION), waits for the target's
//! acknowledgement, then sends the connection state (CONNECTION_STATE) and waits for its
//! acknowledgement. The target answers each of those. An `ActiveMigration` holds where one
//! connection stands and decides, for each segment received, what is answered; sending
//! the answers and (de)serialising the connection state are left to the caller.

use crate::addr::{Ipv4Addr, SocketAddrV4};
use crate::buffer::Buffer;
use crate::defragmenter::{defrag_step, FragmentView, TcpMigDefragmenter};
use crate::ipv4::Ipv4Header;
use crate::stage::{stage_number, MigrationStage};
use crate::tcpmig_header::TcpMigHeader;
use std::collections::VecDeque;
use vstd::prelude::*;

verus! {

/// What a received TCPMig segment led to.
pub enum MigrationRequestStatus {
    /// Nothing for the caller to do.
    Handled,
    /// The target refused the migration.
    Rejected,
    /// All fragments of the connection state arrived: the reassembled header and
    /// payload. Once the payload has been deserialised, `accept_state` acknowledges it.
    StateReceived(TcpMigHeader, Buffer),
    /// The target acknowledged the connection state.
    MigrationCompleted,
}

/// A segment whose stage does not follow the last stage sent.
#[derive(Debug, Clone, Copy, PartialEq, Eq, Structural)]
pub enum MigrationError {
    ExpectedPrepareMigration,
    ExpectedConnectionState,
    ExpectedPrepareMigrationAckOrRejected,
    ExpectedConnectionStateAck,
}

impl MigrationError {
    /// The error's text.
    pub fn message(&self) -> (m: &'static str)
        ensures
            m@ == match *self {
                MigrationError::ExpectedPrepareMigration => "expected PREPARE_MIGRATION"@,
                MigrationError::ExpectedConnectionState => "expected CONNECTION_STATE"@,
                MigrationError::ExpectedPrepareMigrationAckOrRejected =>
                    "expected PREPARE_MIGRATION_ACK or REJECTED"@,
                MigrationError::ExpectedConnectionStateAck => "expected CONNECTION_STATE_ACK"@,
            },
    {
        match self {
            MigrationError::ExpectedPrepareMigration => "expected PREPARE_MIGRATION",
            MigrationError::ExpectedConnectionState => "expected CONNECTION_STATE",
            MigrationError::ExpectedPrepareMigrationAckOrRejected =>
                "expected PREPARE_MIGRATION_ACK or REJECTED",
            MigrationError::ExpectedConnectionStateAck => "expected CONNECTION_STATE_ACK",
        }
    }
}

/// The answer to `hdr`: the same header at stage `stage`.
pub open spec fn reply_to(hdr: TcpMigHeader, stage: MigrationStage) -> TcpMigHeader {
    TcpMigHeader { stage, ..hdr }
}

/// A header with no payload, no fragmentation and no flags, at stage `stage`.
pub open spec fn fresh_header(origin: SocketAddrV4, remote: SocketAddrV4, stage: MigrationStage) -> TcpMigHeader {
    TcpMigHeader {
        origin,
        remote,
        payload_length: 0,
        fragment_offset: 0,
        flag_load: false,
        flag_next_fragment: false,
        stage,
    }
}

/// `a` and `b` are the same migration, but for their last stage sent and their
/// buffered packets.
pub open spec fn same_migration<H>(a: ActiveMigration<H>, b: ActiveMigration<H>) -> bool {
    &&& a.local_addr() == b.local_addr()
    &&& a.remote_addr() == b.remote_addr()
    &&& a.self_port() == b.self_port()
    &&& a.dest_port() == b.dest_port()
    &&& a.origin_addr() == b.origin_addr()
    &&& a.client_addr() == b.client_addr()
    &&& a.prepared() == b.prepared()
    &&& a.defrag_count() == b.defrag_count()
    &&& a.defrag_held() == b.defrag_held()
}

/// `a` and `b` differ at most in their last stage sent.
pub open spec fn same_but_stage<H>(a: ActiveMigration<H>, b: ActiveMigration<H>) -> bool {
    &&& same_migration(a, b)
    &&& a.buffered() == b.buffered()
}

/// Whether fragment `hdr` can be taken by the reassembly of `a`'s connection state: a last
/// fragment does not announce fewer fragments than are held already, and one more can be
/// counted.
pub open spec fn fragment_fits<H>(a: ActiveMigration<H>, hdr: TcpMigHeader) -> bool {
    &&& a.defrag_count() is None && !hdr.flag_next_fragment ==> hdr.fragment_offset + 1
        >= a.defrag_held().len()
    &&& a.defrag_held().len() + 1 <= usize::MAX
}

/// A migration in progress for one connection; `H` is the type of the TCP headers of the
/// packets buffered while the connection is in flight.
pub struct ActiveMigration<H> {
    local_ipv4_addr: Ipv4Addr,
    remote_ipv4_addr: Ipv4Addr,
    self_udp_port: u16,
    dest_udp_port: u16,
    origin: SocketAddrV4,
    remote: SocketAddrV4,
    last_sent_stage: MigrationStage,
    is_prepared: bool,
    /// Packets of the connection received while it is being migrated in.
    recv_queue: VecDeque<(Ipv4Header, H, Buffer)>,
    defragmenter: TcpMigDefragmenter,
}

impl<H> ActiveMigration<H> {
    /// The stage of the last segment sent.
    pub closed spec fn last_stage(&self) -> MigrationStage {
        self.last_sent_stage
    }

    /// Whether the target acknowledged the proposal (origin side).
    pub closed spec fn prepared(&self) -> bool {
        self.is_prepared
    }

    /// The UDP port the origin sends the connection state to.
    pub closed spec fn dest_port(&self) -> u16 {
        self.dest_udp_port
    }

    /// The local UDP port.
    pub closed spec fn self_port(&self) -> u16 {
        self.self_udp_port
    }

    /// The local IPv4 address.
    pub closed spec fn local_addr(&self) -> Ipv4Addr {
        self.local_ipv4_addr
    }

    /// The IPv4 address segments are sent to.
    pub closed spec fn remote_addr(&self) -> Ipv4Addr {
        self.remote_ipv4_addr
    }

    /// The client-facing address of the origin server.
    pub closed spec fn origin_addr(&self) -> SocketAddrV4 {
        self.origin
    }

    /// The client's address.
    pub closed spec fn client_addr(&self) -> SocketAddrV4 {
        self.remote
    }

    /// The packets buffered, oldest first.
    pub closed spec fn buffered(&self) -> Seq<(Ipv4Header, H, Buffer)> {
        self.recv_queue@
    }

    /// The fragment count known to the reassembly of the connection state.
    pub closed spec fn defrag_count(&self) -> Option<usize> {
        self.defragmenter.count()
    }

    /// The fragments of the connection state held so far.
    pub closed spec fn defrag_held(&self) -> Seq<FragmentView> {
        self.defragmenter.held()
    }

    /// A migration of the connection between `origin` and client `remote` in which
    /// nothing was sent yet.
    pub fn new(
        local_ipv4_addr: Ipv4Addr,
        remote_ipv4_addr: Ipv4Addr,
        self_udp_port: u16,
        dest_udp_port: u16,
        origin: SocketAddrV4,
        remote: SocketAddrV4,
    ) -> (a: ActiveMigration<H>)
        ensures
            a.buffered() == Seq::<(Ipv4Header, H, Buffer)>::empty(),
            a.last_stage() == MigrationStage::NoStage,
            !a.prepared(),
            a.local_addr() == local_ipv4_addr,
            a.remote_addr() == remote_ipv4_addr,
            a.self_port() == self_udp_port,
            a.dest_port() == dest_udp_port,
            a.origin_addr() == origin,
            a.client_addr() == remote,
            a.defrag_count() is None,
            a.defrag_held() == Seq::<FragmentView>::empty(),
    {
        ActiveMigration {
            local_ipv4_addr,
            remote_ipv4_addr,
            self_udp_port,
            dest_udp_port,
            origin,
            remote,
            last_sent_stage: MigrationStage::NoStage,
            is_prepared: false,
            recv_queue: VecDeque::new(),
            defragmenter: TcpMigDefragmenter::new(),
        }
    }

    /// The stage of the last segment sent.
    pub fn stage(&self) -> (s: MigrationStage)
        ensures
            s == self.last_stage(),
    {
        self.last_sent_stage
    }

    /// Whether fragment `hdr` can be taken by the reassembly of the connection state.
    pub fn fits_fragment(&self, hdr: &TcpMigHeader) -> (b: bool)
        ensures
            b == fragment_fits(*self, *hdr),
    {
        let held = self.defragmenter.held_len();
        if held == usize::MAX {
            return false;
        }
        match self.defragmenter.fragment_count() {
            None => hdr.flag_next_fragment || hdr.fragment_offset as usize + 1 >= held,
            Some(_) => true,
        }
    }

    /// Whether the target acknowledged the proposal, so that the connection can be
    /// migrated out.
    pub fn is_prepared(&self) -> (b: bool)
        ensures
            b == self.prepared(),
    {
        self.is_prepared
    }

    /// The address a migrated-in connection takes locally.
    pub fn local_endpoint(&self) -> (e: SocketAddrV4)
        ensures
            e == (SocketAddrV4 { ip: self.local_addr(), port: self.self_port() }),
    {
        SocketAddrV4 { ip: self.local_ipv4_addr, port: self.self_udp_port }
    }

    /// Takes segment `(hdr, buf)`, which came from UDP port `source_udp_port`, and returns
    /// what it led to together with the header to answer with, if any (its payload is
    /// empty).
    ///
    /// The target expects PREPARE_MIGRATION first and answers PREPARE_MIGRATION_ACK with
    /// the load flag set; it then collects the fragments of CONNECTION_STATE. The origin
    /// expects PREPARE_MIGRATION_ACK, which marks the migration prepared and makes the
    /// sender's port the destination of the state, or REJECTED; after sending the state
    /// it expects CONNECTION_STATE_ACK. Once the state was acknowledged, segments are
    /// ignored. A segment of another stage is an error and changes nothing.
    pub fn process_packet(&mut self, hdr: TcpMigHeader, source_udp_port: u16, buf: Buffer) -> (r: Result<
        (MigrationRequestStatus, Option<TcpMigHeader>),
        MigrationError,
    >)
        requires
            old(self).last_stage() != MigrationStage::Rejected,
            old(self).last_stage() == MigrationStage::PrepareMigrationAck && hdr.stage
                == MigrationStage::ConnectionState ==> fragment_fits(*old(self), hdr),
        ensures
            final(self).local_addr() == old(self).local_addr(),
            final(self).remote_addr() == old(self).remote_addr(),
            final(self).self_port() == old(self).self_port(),
            final(self).origin_addr() == old(self).origin_addr(),
            final(self).client_addr() == old(self).client_addr(),
            final(self).buffered() == old(self).buffered(),
            stage_number(old(self).last_stage()) <= stage_number(final(self).last_stage()),
            r is Err ==> *final(self) == *old(self),
            match old(self).last_stage() {
                MigrationStage::NoStage => if hdr.stage == MigrationStage::PrepareMigration {
                    &&& r matches Ok((MigrationRequestStatus::Handled, Some(reply)))
                    &&& reply == TcpMigHeader {
                        flag_load: true,
                        ..reply_to(hdr, MigrationStage::PrepareMigrationAck)
                    }
                    &&& final(self).last_stage() == MigrationStage::PrepareMigrationAck
                    &&& final(self).prepared() == old(self).prepared()
                    &&& final(self).dest_port() == old(self).dest_port()
                    &&& final(self).defrag_count() == old(self).defrag_count()
                    &&& final(self).defrag_held() == old(self).defrag_held()
                } else {
                    r == Err::<(MigrationRequestStatus, Option<TcpMigHeader>), MigrationError>(
                        MigrationError::ExpectedPrepareMigration,
                    )
                },
                MigrationStage::PrepareMigrationAck => if hdr.stage == MigrationStage::ConnectionState {
                    let (count, held, result) = defrag_step(
                        old(self).defrag_count(),
                        old(self).defrag_held(),
                        (hdr, buf@),
                    );
                    &&& final(self).defrag_count() == count
                    &&& final(self).defrag_held() == held
                    &&& final(self).last_stage() == old(self).last_stage()
                    &&& final(self).prepared() == old(self).prepared()
                    &&& final(self).dest_port() == old(self).dest_port()
                    &&& match result {
                        Some((h, bytes)) => r matches Ok(
                            (MigrationRequestStatus::StateReceived(rh, rb), None),
                        ) && rh == h && rb@ == bytes,
                        None => r matches Ok((MigrationRequestStatus::Handled, None)),
                    }
                } else {
                    r == Err::<(MigrationRequestStatus, Option<TcpMigHeader>), MigrationError>(
                        MigrationError::ExpectedConnectionState,
                    )
                },
                MigrationStage::PrepareMigration => if hdr.stage == MigrationStage::PrepareMigrationAck {
                    &&& r matches Ok((MigrationRequestStatus::Handled, None))
                    &&& final(self).prepared()
                    &&& final(self).dest_port() == source_udp_port
                    &&& final(self).last_stage() == old(self).last_stage()
                    &&& final(self).defrag_count() == old(self).defrag_count()
                    &&& final(self).defrag_held() == old(self).defrag_held()
                } else if hdr.stage == MigrationStage::Rejected {
                    &&& r matches Ok((MigrationRequestStatus::Rejected, None))
                    &&& *final(self) == *old(self)
                } else {
                    r == Err::<(MigrationRequestStatus, Option<TcpMigHeader>), MigrationError>(
                        MigrationError::ExpectedPrepareMigrationAckOrRejected,
                    )
                },
                MigrationStage::ConnectionState => if hdr.stage == MigrationStage::ConnectionStateAck {
                    &&& r matches Ok((MigrationRequestStatus::MigrationCompleted, None))
                    &&& *final(self) == *old(self)
                } else {
                    r == Err::<(MigrationRequestStatus, Option<TcpMigHeader>), MigrationError>(
                        MigrationError::ExpectedConnectionStateAck,
                    )
                },
                _ => {
                    &&& r matches Ok((MigrationRequestStatus::Handled, None))
                    &&& *final(self) == *old(self)
                },
            },
    {
        match self.last_sent_stage {
            // Target: expect PREPARE_MIGRATION and acknowledge it.
            MigrationStage::NoStage => {
                if hdr.stage == MigrationStage::PrepareMigration {
                    // The migration is always accepted.
                    let mut reply = hdr;
                    reply.stage = MigrationStage::PrepareMigrationAck;
                    reply.flag_load = true;
                    self.last_sent_stage = MigrationStage::PrepareMigrationAck;
                    Ok((MigrationRequestStatus::Handled, Some(reply)))
                } else {
                    Err(MigrationError::ExpectedPrepareMigration)
                }
            },
            // Target: expect the fragments of CONNECTION_STATE.
            MigrationStage::PrepareMigrationAck => {
                if hdr.stage == MigrationStage::ConnectionState {
                    match self.defragmenter.defragment(hdr, buf) {
                        Some((whole, payload)) => Ok(
                            (MigrationRequestStatus::StateReceived(whole, payload), None),
                        ),
                        None => Ok((MigrationRequestStatus::Handled, None)),
                    }
                } else {
                    Err(MigrationError::ExpectedConnectionState)
                }
            },
            // Origin: expect the acknowledgement, or a rejection.
            MigrationStage::PrepareMigration => {
                if hdr.stage == MigrationStage::PrepareMigrationAck {
                    self.dest_udp_port = source_udp_port;
                    self.is_prepared = true;
                    Ok((MigrationRequestStatus::Handled, None))
                } else if hdr.stage == MigrationStage::Rejected {
                    Ok((MigrationRequestStatus::Rejected, None))
                } else {
                    Err(MigrationError::ExpectedPrepareMigrationAckOrRejected)
                }
            },
            // Origin: expect the acknowledgement of the state.
            MigrationStage::ConnectionState => {
                if hdr.stage == MigrationStage::ConnectionStateAck {
                    Ok((MigrationRequestStatus::MigrationCompleted, None))
                } else {
                    Err(MigrationError::ExpectedConnectionStateAck)
                }
            },
            // Target, after acknowledging the state: nothing left to do.
            _ => Ok((MigrationRequestStatus::Handled, None)),
        }
    }

    /// Acknowledges the connection state carried by `hdr` (as returned in
    /// `StateReceived`) once the caller deserialised it: returns the acknowledgement.
    pub fn accept_state(&mut self, hdr: TcpMigHeader) -> (reply: TcpMigHeader)
        requires
            old(self).last_stage() == MigrationStage::PrepareMigrationAck,
        ensures
            reply == reply_to(hdr, MigrationStage::ConnectionStateAck),
            final(self).last_stage() == MigrationStage::ConnectionStateAck,
            same_but_stage(*old(self), *final(self)),
    {
        let mut reply = hdr;
        reply.stage = MigrationStage::ConnectionStateAck;
        self.last_sent_stage = MigrationStage::ConnectionStateAck;
        reply
    }

    /// Origin side: proposes the migration; returns the PREPARE_MIGRATION header to send
    /// (with an empty payload).
    pub fn initiate_migration(&mut self) -> (hdr: TcpMigHeader)
        requires
            old(self).last_stage() == MigrationStage::NoStage,
        ensures
            hdr == fresh_header(old(self).origin_addr(), old(self).client_addr(), MigrationStage::PrepareMigration),
            final(self).last_stage() == MigrationStage::PrepareMigration,
            same_but_stage(*old(self), *final(self)),
    {
        let hdr = TcpMigHeader::new(self.origin, self.remote, 0, MigrationStage::PrepareMigration);
        self.last_sent_stage = MigrationStage::PrepareMigration;
        hdr
    }

    /// Origin side: returns the CONNECTION_STATE header under which the serialised
    /// connection state is sent to `dest_port()`.
    pub fn send_connection_state(&mut self) -> (hdr: TcpMigHeader)
        requires
            old(self).last_stage() == MigrationStage::PrepareMigration,
        ensures
            hdr == fresh_header(old(self).origin_addr(), old(self).client_addr(), MigrationStage::ConnectionState),
            final(self).last_stage() == MigrationStage::ConnectionState,
            same_but_stage(*old(self), *final(self)),
    {
        let hdr = TcpMigHeader::new(self.origin, self.remote, 0, MigrationStage::ConnectionState);
        self.last_sent_stage = MigrationStage::ConnectionState;
        hdr
    }

    /// Buffers a packet of the connection that arrived while it is being migrated in.
    pub fn buffer_packet(&mut self, ip_hdr: Ipv4Header, tcp_hdr: H, buf: Buffer)
        ensures
            final(self).buffered() == old(self).buffered().push((ip_hdr, tcp_hdr, buf)),
            final(self).last_stage() == old(self).last_stage(),
            same_migration(*old(self), *final(self)),
    {
        self.recv_queue.push_back((ip_hdr, tcp_hdr, buf));
    }

    /// Takes out the packets buffered, oldest first.
    pub fn take_recv_queue(&mut self) -> (q: VecDeque<(Ipv4Header, H, Buffer)>)
        ensures
            q@ == old(self).buffered(),
            final(self).buffered() == Seq::<(Ipv4Header, H, Buffer)>::empty(),
            final(self).last_stage() == old(self).last_stage(),
            same_migration(*old(self), *final(self)),
    {
        let mut q: VecDeque<(Ipv4Header, H, Buffer)> = VecDeque::new();
        std::mem::swap(&mut q, &mut self.recv_queue);
        q
    }
}

} // verus!
