//! The host's side of a Classic link: pairing, encryption, flow control and the
//! channels of the one connection it has.

use std::collections::{BTreeMap, VecDeque};
use vstd::prelude::*;
use vstd::std_specs::cmp::OrdSpec;

use crate::acl_flow::{
    drop_data, acl_outputs, queue_views, without_data, AclFlow, AclFlowV, HostOutput,
    HostOutputV, SessionEvent,
};
use crate::api::{loaded_view, BondStore, BondStoreError};
use crate::bytes::{append_bytes, first_of, le16, optional_bytes, push_le16, rest_of};
use crate::hci::{
    fed, fragment_l2cap_pdu, l2cap_fragments, AclAssembler, AclPacket, AclPacketV, CodecError,
    CommandPacket, CommandPacketV, PendingAclV,
};
use crate::l2cap::classic::{
    spec_fault, ChannelManager, ChannelSpec, ClassicChannelSpec, ClassicChannelState,
    ClassicChannelV,
};
use crate::l2cap::information::InformationCapabilities;
use crate::l2cap::manager::{pdu_views, ChannelManagerV};
use crate::l2cap::{Error as L2capError, L2capPdu, L2capPduV};
use crate::values::{BluetoothAddress, ClassicBond, ClassicBondV};

verus! {

pub const HCI_ACCEPT_CONNECTION_REQUEST: u16 = 0x0409;

pub const HCI_LINK_KEY_REQUEST_REPLY: u16 = 0x040B;

pub const HCI_LINK_KEY_REQUEST_NEGATIVE_REPLY: u16 = 0x040C;

pub const HCI_AUTHENTICATION_REQUESTED: u16 = 0x0411;

pub const HCI_SET_CONNECTION_ENCRYPTION: u16 = 0x0413;

pub const HCI_IO_CAPABILITY_REQUEST_REPLY: u16 = 0x042B;

pub const HCI_USER_CONFIRMATION_REQUEST_REPLY: u16 = 0x042C;

pub const HCI_ROLE_PERIPHERAL: u8 = 0x01;

pub const HCI_IO_CAPABILITY_NO_INPUT_NO_OUTPUT: u8 = 0x03;

pub const HCI_AUTHENTICATION_REQUIREMENTS_GENERAL_BONDING: u8 = 0x01;

/// What the controller reports about the link.
#[derive(Clone, Copy, Debug, PartialEq, Eq)]
pub enum ClassicEvent {
    ConnectionRequest { peer: BluetoothAddress },
    ConnectionComplete { status: u8, connection_handle: u16, peer: BluetoothAddress },
    LinkKeyRequest { peer: BluetoothAddress },
    LinkKeyNotification { peer: BluetoothAddress, link_key: [u8; 16], link_key_type: u8 },
    IoCapabilityRequest { peer: BluetoothAddress },
    UserConfirmationRequest { peer: BluetoothAddress },
    AuthenticationComplete { status: u8, connection_handle: u16 },
    EncryptionChange { status: u8, connection_handle: u16, enabled: bool },
    NumberOfCompletedPackets { connection_handle: u16, completed: u16 },
    DisconnectionComplete { connection_handle: u16, reason: u8 },
}

/// Why the host refuses what the controller or the peer sent.
#[derive(Clone, Debug, PartialEq, Eq)]
pub enum HostError {
    BondStore(BondStoreError),
    Codec(CodecError),
    L2cap(L2capError),
    NoConnection,
    ConnectionHandleMismatch { expected: u16, actual: u16 },
    PeerMismatch { expected: BluetoothAddress, actual: BluetoothAddress },
    AclCreditUnderflow { in_flight: u16, completed: u16 },
}

/// What a host error says.
#[allow(inconsistent_fields)]
pub enum HostErrorV {
    BondStore(BondStoreError),
    Codec(CodecError),
    L2cap(Seq<char>),
    NoConnection,
    ConnectionHandleMismatch { expected: u16, actual: u16 },
    PeerMismatch { expected: BluetoothAddress, actual: BluetoothAddress },
    AclCreditUnderflow { in_flight: u16, completed: u16 },
}

impl View for HostError {
    type V = HostErrorV;

    open spec fn view(&self) -> HostErrorV {
        match *self {
            HostError::BondStore(error) => HostErrorV::BondStore(error),
            HostError::Codec(error) => HostErrorV::Codec(error),
            HostError::L2cap(error) => HostErrorV::L2cap(error@),
            HostError::NoConnection => HostErrorV::NoConnection,
            HostError::ConnectionHandleMismatch { expected, actual } =>
            HostErrorV::ConnectionHandleMismatch { expected, actual },
            HostError::PeerMismatch { expected, actual } => HostErrorV::PeerMismatch {
                expected,
                actual,
            },
            HostError::AclCreditUnderflow { in_flight, completed } =>
            HostErrorV::AclCreditUnderflow { in_flight, completed },
        }
    }
}

impl HostError {
    /// An error that says the same.
    pub fn copy(&self) -> (error: HostError)
        ensures
            error@ == self@,
    {
        match self {
            HostError::BondStore(error) => HostError::BondStore(*error),
            HostError::Codec(error) => HostError::Codec(*error),
            HostError::L2cap(error) => HostError::L2cap(error.copy()),
            HostError::NoConnection => HostError::NoConnection,
            HostError::ConnectionHandleMismatch { expected, actual } => {
                HostError::ConnectionHandleMismatch { expected: *expected, actual: *actual }
            },
            HostError::PeerMismatch { expected, actual } => {
                HostError::PeerMismatch { expected: *expected, actual: *actual }
            },
            HostError::AclCreditUnderflow { in_flight, completed } => {
                HostError::AclCreditUnderflow { in_flight: *in_flight, completed: *completed }
            },
        }
    }
}

/// A result of the host and the one its model gives.
pub open spec fn host_agrees<T>(result: Result<T, HostError>, expected: Result<T, HostErrorV>) -> bool {
    match (result, expected) {
        (Ok(value), Ok(model)) => value == model,
        (Err(error), Err(model)) => error@ == model,
        _ => false,
    }
}

/// The state of the connection.
pub struct ConnectionV {
    pub peer: BluetoothAddress,
    pub handle: u16,
    pub encrypted: bool,
    pub channels: ChannelManagerV,
}

/// The one connection of the host.
#[derive(Debug)]
pub struct Connection {
    pub peer: BluetoothAddress,
    pub handle: u16,
    pub encrypted: bool,
    pub channels: ChannelManager,
}

impl View for Connection {
    type V = ConnectionV;

    open spec fn view(&self) -> ConnectionV {
        ConnectionV {
            peer: self.peer,
            handle: self.handle,
            encrypted: self.encrypted,
            channels: self.channels@,
        }
    }
}

pub open spec fn connection_view(connection: Option<Connection>) -> Option<ConnectionV> {
    match connection {
        Some(connection) => Some(connection@),
        None => None,
    }
}

/// What a bond store answered.
pub struct StoreReply {
    pub loaded: Result<Option<ClassicBondV>, BondStoreError>,
    pub stored: Result<(), BondStoreError>,
}

/// The bond that a link key notification asks to keep. Keys of type 5 and 8 come
/// from an authenticated pairing.
pub open spec fn bond_of_key(link_key: Seq<u8>, link_key_type: u8) -> ClassicBondV {
    ClassicBondV {
        link_key,
        link_key_type,
        authenticated: link_key_type == 5 || link_key_type == 8,
    }
}

/// Whether a store that is asked about an event gives this reply. It is asked for
/// the bond of a peer that requests a link key.
pub open spec fn store_asked<S: BondStore>(
    store: S,
    event: ClassicEvent,
    reply: StoreReply,
) -> bool {
    match event {
        ClassicEvent::LinkKeyRequest { peer } => exists|
            loaded: Result<Option<ClassicBond>, BondStoreError>,
        |
            loaded_view(loaded) == reply.loaded && #[trigger] call_ensures(
                S::load,
                (&store, peer),
                loaded,
            ),
        _ => true,
    }
}

/// Whether a store that is handed the bond of a link key notification gives this
/// reply.
pub open spec fn key_handed<S: BondStore>(
    asked: &mut S,
    event: ClassicEvent,
    reply: StoreReply,
) -> bool {
    match event {
        ClassicEvent::LinkKeyNotification { peer, link_key, link_key_type } => exists|
            bond: ClassicBond,
        |
            bond@ == bond_of_key(link_key@, link_key_type) && #[trigger] call_ensures(
                S::upsert,
                (asked, peer, bond),
                reply.stored,
            ),
        _ => false,
    }
}

/// A link's channels with the servers from PSM `from` on registered in ascending
/// order, up to the first one that is refused.
pub open spec fn servers_installed(
    servers: Map<u32, ClassicChannelSpec>,
    from: int,
    channels: ChannelManagerV,
) -> Result<ChannelManagerV, Seq<char>>
    decreases 0x1_0000_0000 - from,
{
    if from > 0xFFFF_FFFF {
        Ok(channels)
    } else if !servers.contains_key(from as u32) {
        servers_installed(servers, from + 1, channels)
    } else if spec_fault(servers[from as u32]) is Some {
        Err(spec_fault(servers[from as u32])->0)
    } else {
        let (next, result) = channels.registered(
            Some(from as u32),
            ChannelSpec::Basic(servers[from as u32]),
        );
        match result {
            Err(reason) => Err(reason),
            Ok(_) => servers_installed(servers, from + 1, next),
        }
    }
}

/// The packets that wait after L2CAP units were split and added in order, up to
/// the first unit that is refused.
pub open spec fn units_queued(
    queued: Seq<AclPacketV>,
    handle: u16,
    payload_size: int,
    units: Seq<L2capPduV>,
) -> (Seq<AclPacketV>, Result<(), CodecError>)
    decreases units.len(),
{
    if units.len() == 0 {
        (queued, Ok(()))
    } else {
        let (before, result) = units_queued(queued, handle, payload_size, units.drop_last());
        if result is Err {
            (before, result)
        } else {
            match l2cap_fragments(handle, 0, payload_size, units.last().encode(false), false) {
                Ok(packets) => (before + packets, Ok(())),
                Err(error) => (before, Err(error)),
            }
        }
    }
}

/// The channels that the peer opened, each with its PSM.
pub open spec fn opened_channels(channels: Map<u16, ClassicChannelV>, cids: Seq<u16>) -> Seq<
    (u32, u16),
>
    decreases cids.len(),
{
    if cids.len() == 0 {
        seq![]
    } else {
        let before = opened_channels(channels, cids.drop_last());
        if channels.contains_key(cids.last()) {
            before.push((channels[cids.last()].psm, cids.last()))
        } else {
            before
        }
    }
}

pub open spec fn opened_events(opened: Seq<(u32, u16)>) -> Seq<HostOutputV> {
    opened.map_values(
        |channel: (u32, u16)|
            HostOutputV::Event(
                SessionEvent::ChannelOpened { psm: channel.0, source_cid: channel.1 },
            ),
    )
}

/// The state of the host, all but its bond store.
pub struct HostV {
    pub connection: Option<ConnectionV>,
    pub pending_peer: Option<BluetoothAddress>,
    pub servers: Map<u32, ClassicChannelSpec>,
    pub assembler: Map<u16, PendingAclV>,
    pub flow: AclFlowV,
    pub output: Seq<HostOutputV>,
}

/// A state and what the operation that led to it returned.
pub type HostOutcome = (HostV, Result<(), HostErrorV>);

impl HostV {
    pub open spec fn initial(payload_size: usize, total_packets: u16) -> HostV {
        HostV {
            connection: None,
            pending_peer: None,
            servers: Map::empty(),
            assembler: Map::empty(),
            flow: AclFlowV {
                payload_size,
                total_packets,
                in_flight: Map::empty(),
                queued: seq![],
            },
            output: seq![],
        }
    }

    /// A command for the controller waits.
    pub open spec fn commanded(self, opcode: u16, parameters: Seq<u8>) -> HostV {
        HostV {
            output: self.output.push(HostOutputV::Command(CommandPacketV { opcode, parameters })),
            ..self
        }
    }

    /// An event for the session waits.
    pub open spec fn noted(self, event: SessionEvent) -> HostV {
        HostV { output: self.output.push(HostOutputV::Event(event)), ..self }
    }

    /// Why something about a connection handle is refused.
    pub open spec fn handle_fault(self, actual: u16) -> Option<HostErrorV> {
        match self.connection {
            None => Some(HostErrorV::NoConnection),
            Some(connection) => if connection.handle == actual {
                None
            } else {
                Some(
                    HostErrorV::ConnectionHandleMismatch { expected: connection.handle, actual },
                )
            },
        }
    }

    pub open spec fn with_channels(self, channels: ChannelManagerV) -> HostV {
        HostV {
            connection: match self.connection {
                None => None,
                Some(connection) => Some(ConnectionV { channels, ..connection }),
            },
            ..self
        }
    }

    /// A server is kept for coming connections, and registered on the present one.
    pub open spec fn server_registered(self, psm: u32, spec: ClassicChannelSpec) -> HostOutcome {
        let kept = HostV { servers: self.servers.insert(psm, spec), ..self };
        match self.connection {
            None => (kept, Ok(())),
            Some(connection) => match spec_fault(spec) {
                Some(reason) => (self, Err(HostErrorV::L2cap(reason))),
                None => {
                    let (channels, result) = connection.channels.registered(
                        Some(psm),
                        ChannelSpec::Basic(spec),
                    );
                    match result {
                        Err(reason) => (
                            self.with_channels(channels),
                            Err(HostErrorV::L2cap(reason)),
                        ),
                        Ok(_) => (kept.with_channels(channels), Ok(())),
                    }
                },
            },
        }
    }

    /// A peer asks for a connection.
    pub open spec fn connection_offered(self, peer: BluetoothAddress) -> HostV {
        HostV { pending_peer: Some(peer), ..self }.commanded(
            HCI_ACCEPT_CONNECTION_REQUEST,
            peer@.bytes_le + seq![HCI_ROLE_PERIPHERAL],
        )
    }

    /// A connection stands. Authentication is asked for at once.
    pub open spec fn connection_made(self, handle: u16, peer: BluetoothAddress) -> HostOutcome {
        if self.pending_peer is Some && self.pending_peer->0 != peer {
            (self, Err(HostErrorV::PeerMismatch { expected: self.pending_peer->0, actual: peer }))
        } else {
            match servers_installed(
                self.servers,
                0,
                ChannelManagerV::initial(InformationCapabilities::initial()),
            ) {
                Err(reason) => (self, Err(HostErrorV::L2cap(reason))),
                Ok(channels) => (
                    HostV {
                        pending_peer: None,
                        connection: Some(ConnectionV { peer, handle, encrypted: false, channels }),
                        ..self
                    }.noted(
                        SessionEvent::Connected { peer, connection_handle: handle },
                    ).commanded(HCI_AUTHENTICATION_REQUESTED, le16(handle)),
                    Ok(()),
                ),
            }
        }
    }

    /// The controller wants the link key of a peer, and the store answered.
    pub open spec fn link_key_answered(
        self,
        peer: BluetoothAddress,
        loaded: Result<Option<ClassicBondV>, BondStoreError>,
    ) -> HostOutcome {
        match loaded {
            Err(error) => (self, Err(HostErrorV::BondStore(error))),
            Ok(Some(bond)) => (
                self.commanded(HCI_LINK_KEY_REQUEST_REPLY, peer@.bytes_le + bond.link_key),
                Ok(()),
            ),
            Ok(None) => (
                self.commanded(HCI_LINK_KEY_REQUEST_NEGATIVE_REPLY, peer@.bytes_le),
                Ok(()),
            ),
        }
    }

    /// A new link key was handed to the store, and the store answered.
    pub open spec fn link_key_kept(
        self,
        peer: BluetoothAddress,
        stored: Result<(), BondStoreError>,
    ) -> HostOutcome {
        match stored {
            Err(error) => (self, Err(HostErrorV::BondStore(error))),
            Ok(_) => (self.noted(SessionEvent::BondStored { peer }), Ok(())),
        }
    }

    /// Authentication succeeded: encryption is asked for.
    pub open spec fn authenticated(self, handle: u16) -> HostOutcome {
        match self.handle_fault(handle) {
            Some(error) => (self, Err(error)),
            None => (
                self.commanded(HCI_SET_CONNECTION_ENCRYPTION, le16(handle) + seq![1u8]),
                Ok(()),
            ),
        }
    }

    /// The link is encrypted.
    pub open spec fn link_encrypted(self, handle: u16) -> HostOutcome {
        match self.handle_fault(handle) {
            Some(error) => (self, Err(error)),
            None => {
                let connection = self.connection->0;
                (
                    HostV {
                        connection: Some(ConnectionV { encrypted: true, ..connection }),
                        ..self
                    }.noted(SessionEvent::Encrypted { peer: connection.peer }),
                    Ok(()),
                )
            },
        }
    }

    pub open spec fn flow_flushed(self) -> HostV {
        HostV {
            flow: self.flow.flushed(),
            output: self.output + acl_outputs(self.flow.ready()),
            ..self
        }
    }

    /// The controller is done with some packets, and gets the next ones.
    pub open spec fn packets_completed(self, handle: u16, completed: u16) -> HostOutcome {
        match self.flow.completed(handle, completed) {
            Err(error) => (self, Err(error)),
            Ok(flow) => (HostV { flow, ..self }.flow_flushed(), Ok(())),
        }
    }

    /// The link is gone, and with it all data that was meant for it.
    pub open spec fn disconnected(self, handle: u16, reason: u8) -> HostOutcome {
        match self.handle_fault(handle) {
            Some(error) => (self, Err(error)),
            None => (
                HostV {
                    connection: None,
                    flow: self.flow.handle_cleared(handle),
                    assembler: self.assembler.remove(handle),
                    output: without_data(self.output, handle),
                    ..self
                }.noted(
                    SessionEvent::Disconnected { peer: self.connection->0.peer, reason },
                ),
                Ok(()),
            ),
        }
    }

    /// What an event of the controller does.
    pub open spec fn event_handled(self, event: ClassicEvent, reply: StoreReply) -> HostOutcome {
        match event {
            ClassicEvent::ConnectionRequest { peer } => (self.connection_offered(peer), Ok(())),
            ClassicEvent::ConnectionComplete { status, connection_handle, peer } => if status
                == 0 {
                self.connection_made(connection_handle, peer)
            } else {
                (HostV { pending_peer: None, ..self }, Ok(()))
            },
            ClassicEvent::LinkKeyRequest { peer } => self.link_key_answered(peer, reply.loaded),
            ClassicEvent::LinkKeyNotification { peer, .. } => self.link_key_kept(
                peer,
                reply.stored,
            ),
            ClassicEvent::IoCapabilityRequest { peer } => (
                self.commanded(
                    HCI_IO_CAPABILITY_REQUEST_REPLY,
                    peer@.bytes_le + seq![
                        HCI_IO_CAPABILITY_NO_INPUT_NO_OUTPUT,
                        0u8,
                        HCI_AUTHENTICATION_REQUIREMENTS_GENERAL_BONDING,
                    ],
                ),
                Ok(()),
            ),
            ClassicEvent::UserConfirmationRequest { peer } => (
                self.commanded(HCI_USER_CONFIRMATION_REQUEST_REPLY, peer@.bytes_le),
                Ok(()),
            ),
            ClassicEvent::AuthenticationComplete { status, connection_handle } => if status == 0 {
                self.authenticated(connection_handle)
            } else {
                (self, Ok(()))
            },
            ClassicEvent::EncryptionChange { status, connection_handle, enabled } => if status == 0
                && enabled {
                self.link_encrypted(connection_handle)
            } else {
                (self, Ok(()))
            },
            ClassicEvent::NumberOfCompletedPackets { connection_handle, completed } =>
            self.packets_completed(connection_handle, completed),
            ClassicEvent::DisconnectionComplete { connection_handle, reason } => self.disconnected(
                connection_handle,
                reason,
            ),
        }
    }

    /// All that the channels have to send goes out, as far as the controller has
    /// room, and the session learns of the channels that the peer opened.
    pub open spec fn channels_flushed(self) -> HostOutcome {
        match self.connection {
            None => (self, Err(HostErrorV::NoConnection)),
            Some(connection) => {
                let channels = connection.channels;
                let drained = self.with_channels(
                    ChannelManagerV { outbound: seq![], accepted_channels: seq![], ..channels },
                );
                let (queued, result) = units_queued(
                    self.flow.queued,
                    connection.handle,
                    self.flow.payload_size as int,
                    channels.outbound,
                );
                let filled = HostV { flow: AclFlowV { queued, ..self.flow }, ..drained };
                match result {
                    Err(error) => (filled, Err(HostErrorV::Codec(error))),
                    Ok(_) => {
                        let sent = filled.flow_flushed();
                        (
                            HostV {
                                output: sent.output + opened_events(
                                    opened_channels(channels.channels, channels.accepted_channels),
                                ),
                                ..sent
                            },
                            Ok(()),
                        )
                    },
                }
            },
        }
    }

    /// A unit that came in on the link goes to its channel.
    pub open spec fn unit_received(self, bytes: Seq<u8>) -> HostOutcome {
        match L2capPduV::decode(bytes) {
            Err(reason) => (self, Err(HostErrorV::L2cap(reason))),
            Ok(pdu) => {
                let (channels, result) = self.connection->0.channels.pdu_received(pdu);
                match result {
                    Err(reason) => (self.with_channels(channels), Err(HostErrorV::L2cap(reason))),
                    Ok(_) => self.with_channels(channels).channels_flushed(),
                }
            },
        }
    }

    /// One ACL packet came in.
    pub open spec fn acl_received(self, packet: AclPacketV) -> HostOutcome {
        match self.handle_fault(packet.connection_handle) {
            Some(error) => (self, Err(error)),
            None => {
                let (assembler, result) = fed(self.assembler, packet);
                let next = HostV { assembler, ..self };
                match result {
                    Err(error) => (next, Err(HostErrorV::Codec(error))),
                    Ok(None) => (next, Ok(())),
                    Ok(Some(bytes)) => next.unit_received(bytes),
                }
            },
        }
    }

    /// An SDU goes out on a channel.
    pub open spec fn sdu_sent(self, source_cid: u16, sdu: Seq<u8>) -> HostOutcome {
        match self.connection {
            None => (self, Err(HostErrorV::NoConnection)),
            Some(connection) => {
                let (channels, result) = connection.channels.sdu_sent(source_cid, sdu);
                match result {
                    Err(reason) => (self.with_channels(channels), Err(HostErrorV::L2cap(reason))),
                    Ok(_) => self.with_channels(channels).channels_flushed(),
                }
            },
        }
    }

    /// A channel to the peer is asked for.
    pub open spec fn channel_requested(self, psm: u32, spec: ClassicChannelSpec) -> (
        HostV,
        Result<u16, HostErrorV>,
    ) {
        match self.connection {
            None => (self, Err(HostErrorV::NoConnection)),
            Some(connection) => {
                let (channels, result) = connection.channels.connect_outcome(
                    psm,
                    spec_fault(spec),
                    ChannelSpec::Basic(spec),
                );
                match result {
                    Err(reason) => (self.with_channels(channels), Err(HostErrorV::L2cap(reason))),
                    Ok(cid) => {
                        let (flushed, outcome) = self.with_channels(channels).channels_flushed();
                        match outcome {
                            Err(error) => (flushed, Err(error)),
                            Ok(_) => (flushed, Ok(cid)),
                        }
                    },
                }
            },
        }
    }

    pub open spec fn has_channel(self, cid: u16) -> bool {
        self.connection is Some && self.connection->0.channels.channels.contains_key(cid)
    }

    pub open spec fn channel(self, cid: u16) -> ClassicChannelV {
        self.connection->0.channels.channels[cid]
    }

    /// The next SDU that came in on a channel, and the state without it.
    pub open spec fn sdu_taken(self, cid: u16) -> (HostV, Option<Seq<u8>>) {
        if !self.has_channel(cid) {
            (self, None)
        } else {
            let channel = self.channel(cid);
            (
                self.with_channels(
                    self.connection->0.channels.with_channel(
                        cid,
                        ClassicChannelV {
                            received: rest_of(channel.received),
                            ..channel
                        },
                    ),
                ),
                first_of(channel.received),
            )
        }
    }
}

/// The host's side of a Classic link. Bonds are kept in `bonds`.
pub struct ClassicHost<S> {
    pub bonds: S,
    pub connection: Option<Connection>,
    pub pending_peer: Option<BluetoothAddress>,
    pub servers: BTreeMap<u32, ClassicChannelSpec>,
    pub acl_assembler: AclAssembler,
    pub acl_flow: AclFlow,
    pub output: VecDeque<HostOutput>,
}

impl<S> View for ClassicHost<S> {
    type V = HostV;

    open spec fn view(&self) -> HostV {
        HostV {
            connection: connection_view(self.connection),
            pending_peer: self.pending_peer,
            servers: self.servers@,
            assembler: self.acl_assembler@,
            flow: self.acl_flow@,
            output: queue_views(self.output@),
        }
    }
}

/// The PSMs of the servers, in ascending order.
fn sorted_psms(servers: &BTreeMap<u32, ClassicChannelSpec>) -> (psms: Vec<u32>)
    ensures
        forall|i: int, j: int| 0 <= i < j < psms@.len() ==> psms@[i] < psms@[j],
        forall|psm: u32| #[trigger] servers@.contains_key(psm) <==> psms@.contains(psm),
{
    broadcast use vstd::std_specs::btree::group_btree_axioms;

    let mut psms: Vec<u32> = Vec::new();
    let walk = servers.keys();
    let ghost all = vstd::std_specs::iter::IteratorSpec::remaining(&walk);
    for psm in steps: servers.keys()
        invariant
            psms@ =~= steps.seq().unref().take(steps.index()),
    {
        psms.push(*psm);
    }
    proof {
        assert(psms@ =~= all.unref());
        assert(vstd::laws_cmp::obeys_cmp::<&u32>());
        assert forall|i: int, j: int| 0 <= i < j < psms@.len() implies psms@[i] < psms@[j] by {
            assert(OrdSpec::cmp_spec(&all[i], &all[j]) is Less);
        }
        assert forall|psm: u32| #[trigger] servers@.contains_key(psm) <==> psms@.contains(psm) by {
            assert(psms@.to_set().contains(psm) <==> servers@.dom().contains(psm));
        }
    }
    psms
}

pub proof fn lemma_install_skip(
    servers: Map<u32, ClassicChannelSpec>,
    from: int,
    to: int,
    channels: ChannelManagerV,
)
    requires
        0 <= from <= to <= 0x1_0000_0000,
        forall|psm: u32| from <= psm < to ==> !servers.contains_key(psm),
    ensures
        servers_installed(servers, from, channels) == servers_installed(servers, to, channels),
    decreases to - from,
{
    if from < to {
        assert(!servers.contains_key(from as u32));
        lemma_install_skip(servers, from + 1, to, channels);
    }
}

/// The channels of a new link, with all servers registered.
#[verifier::spinoff_prover]
fn install_servers(servers: &BTreeMap<u32, ClassicChannelSpec>) -> (result: Result<
    ChannelManager,
    L2capError,
>)
    ensures
        match (
            result,
            servers_installed(
                servers@,
                0,
                ChannelManagerV::initial(InformationCapabilities::initial()),
            ),
        ) {
            (Ok(channels), Ok(model)) => channels@ == model,
            (Err(error), Err(reason)) => error@ == reason,
            _ => false,
        },
{
    let psms = sorted_psms(servers);
    let ghost map = servers@;
    let ghost goal = servers_installed(
        map,
        0,
        ChannelManagerV::initial(InformationCapabilities::initial()),
    );
    let mut channels = ChannelManager::new();
    let mut index: usize = 0;
    let ghost mut next: int = 0;
    while index < psms.len()
        invariant
            index <= psms@.len(),
            map == servers@,
            forall|i: int, j: int| 0 <= i < j < psms@.len() ==> psms@[i] < psms@[j],
            forall|psm: u32| #[trigger] map.contains_key(psm) <==> psms@.contains(psm),
            0 <= next <= 0x1_0000_0000,
            index > 0 ==> next == psms@[index - 1] + 1,
            index == 0 ==> next == 0,
            servers_installed(map, next, channels@) == goal,
            goal == servers_installed(
                servers@,
                0,
                ChannelManagerV::initial(InformationCapabilities::initial()),
            ),
        decreases psms@.len() - index,
    {
        broadcast use vstd::std_specs::btree::group_btree_axioms;

        let psm: u32 = psms[index];
        proof {
            assert forall|other: u32| next <= other < psm implies !map.contains_key(other) by {
                if map.contains_key(other) {
                    let i = choose|i: int| 0 <= i < psms@.len() && psms@[i] == other;
                    assert(i < index);
                    assert(i == index - 1 || psms@[i] < psms@[index - 1]);
                }
            }
            if index > 0 {
                assert(psms@[index - 1] < psms@[index as int]);
            }
            lemma_install_skip(map, next, psm as int, channels@);
            assert(psms@.contains(psm));
            assert(map.contains_key(psm));
            next = psm + 1;
        }
        match servers.get(&psm) {
            None => {},
            Some(spec) => {
                match channels.register_server(Some(psm), *spec) {
                    Err(error) => {
                        return Err(error);
                    },
                    Ok(_) => {},
                }
            },
        }
        index = index + 1;
    }
    proof {
        assert forall|other: u32| next <= other < 0x1_0000_0000 implies !map.contains_key(
            other,
        ) by {
            if map.contains_key(other) {
                let i = choose|i: int| 0 <= i < psms@.len() && psms@[i] == other;
                assert(i == index - 1 || psms@[i] < psms@[index - 1]);
            }
        }
        lemma_install_skip(map, next, 0x1_0000_0000, channels@);
    }
    Ok(channels)
}

/// Takes the channels that the peer opened, each with its PSM.
fn take_opened(channels: &mut ChannelManager) -> (opened: Vec<(u32, u16)>)
    ensures
        opened@ == opened_channels(old(channels)@.channels, old(channels)@.accepted_channels),
        final(channels)@ == (ChannelManagerV { accepted_channels: seq![], ..old(channels)@ }),
{
    let ghost start = channels@;
    let ghost all = start.accepted_channels;
    let mut opened: Vec<(u32, u16)> = Vec::new();
    let ghost mut done: int = 0;
    let mut open_ended: bool = true;
    assert(all.skip(0) =~= all);
    assert(all.take(0) =~= Seq::<u16>::empty());
    while open_ended
        invariant
            0 <= done <= all.len(),
            all == start.accepted_channels,
            channels@ == (ChannelManagerV { accepted_channels: all.skip(done), ..start }),
            opened@ == opened_channels(start.channels, all.take(done)),
            !open_ended ==> done == all.len(),
        decreases all.len() - done + if open_ended { 1int } else { 0int },
    {
        match channels.poll_accepted_channel() {
            None => {
                open_ended = false;
                assert(all.skip(done).len() == 0);
            },
            Some(cid) => {
                proof {
                    assert(all.skip(done).len() > 0);
                    assert(cid == all[done]);
                    assert(all.take(done + 1).drop_last() =~= all.take(done));
                    assert(all.skip(done).skip(1) =~= all.skip(done + 1));
                }
                match channels.channel(cid) {
                    None => {},
                    Some(channel) => {
                        opened.push((channel.psm, cid));
                    },
                }
                proof {
                    done = done + 1;
                }
            },
        }
    }
    assert(all.take(done) =~= all);
    assert(channels@.accepted_channels =~= seq![]);
    opened
}

/// The bond that a link key notification asks to keep.
pub fn notified_bond(link_key: [u8; 16], link_key_type: u8) -> (bond: ClassicBond)
    ensures
        bond@ == bond_of_key(link_key@, link_key_type),
{
    ClassicBond::new(link_key, link_key_type, link_key_type == 5 || link_key_type == 8)
}

fn address_bytes(peer: BluetoothAddress) -> (bytes: Vec<u8>)
    ensures
        bytes@ == peer@.bytes_le,
        bytes@.len() == 6,
{
    let mut bytes: Vec<u8> = Vec::new();
    append_bytes(&mut bytes, peer.as_le_bytes());
    assert(bytes@ =~= peer@.bytes_le);
    bytes
}

impl<S> ClassicHost<S> {
    pub fn new(bonds: S, acl_payload_size: usize, total_acl_packets: u16) -> (host: Self)
        ensures
            host@ == HostV::initial(acl_payload_size, total_acl_packets),
            host.bonds == bonds,
    {
        let host = ClassicHost {
            bonds,
            connection: None,
            pending_peer: None,
            servers: BTreeMap::new(),
            acl_assembler: AclAssembler::new(),
            acl_flow: AclFlow::new(acl_payload_size, total_acl_packets),
            output: VecDeque::new(),
        };
        assert(host@.output =~= seq![]);
        assert(host@.servers =~= Map::empty());
        host
    }

    /// Offers a channel on a PSM, on the present connection and on later ones.
    pub fn register_server(&mut self, psm: u32, spec: ClassicChannelSpec) -> (result: Result<
        (),
        HostError,
    >)
        ensures
            final(self)@ == old(self)@.server_registered(psm, spec).0,
            host_agrees(result, old(self)@.server_registered(psm, spec).1),
            final(self).bonds == old(self).bonds,
    {
        broadcast use vstd::std_specs::btree::group_btree_axioms;

        match &mut self.connection {
            None => {},
            Some(connection) => match connection.channels.register_server(Some(psm), spec) {
                Err(error) => {
                    return Err(HostError::L2cap(error));
                },
                Ok(_) => {},
            },
        }
        self.servers.insert(psm, spec);
        Ok(())
    }

    fn queue_command(&mut self, opcode: u16, parameters: Vec<u8>)
        requires
            parameters@.len() <= 255,
        ensures
            final(self)@ == old(self)@.commanded(opcode, parameters@),
            final(self).bonds == old(self).bonds,
    {
        match CommandPacket::new(opcode, parameters) {
            Err(_) => {},
            Ok(packet) => {
                self.output.push_back(HostOutput::Command(packet));
                assert(queue_views(self.output@) =~= old(self)@.output.push(
                    HostOutputV::Command(packet@),
                ));
            },
        }
    }

    fn queue_event(&mut self, event: SessionEvent)
        ensures
            final(self)@ == old(self)@.noted(event),
            final(self).bonds == old(self).bonds,
    {
        self.output.push_back(HostOutput::Event(event));
        assert(queue_views(self.output@) =~= old(self)@.output.push(HostOutputV::Event(event)));
    }

    fn ensure_handle(&self, actual: u16) -> (result: Result<(), HostError>)
        ensures
            match (result, self@.handle_fault(actual)) {
                (Ok(_), None) => true,
                (Err(error), Some(model)) => error@ == model,
                _ => false,
            },
    {
        match &self.connection {
            None => Err(HostError::NoConnection),
            Some(connection) => if connection.handle == actual {
                Ok(())
            } else {
                Err(
                    HostError::ConnectionHandleMismatch { expected: connection.handle, actual },
                )
            },
        }
    }

    /// Answers a link key request with what the bond store gave.
    pub fn answer_link_key_request(
        &mut self,
        peer: BluetoothAddress,
        loaded: Result<Option<ClassicBond>, BondStoreError>,
    ) -> (result: Result<(), HostError>)
        ensures
            final(self)@ == old(self)@.link_key_answered(peer, loaded_view(loaded)).0,
            host_agrees(result, old(self)@.link_key_answered(peer, loaded_view(loaded)).1),
            final(self).bonds == old(self).bonds,
    {
        let mut parameters = address_bytes(peer);
        match loaded {
            Err(error) => {
                return Err(HostError::BondStore(error));
            },
            Ok(Some(bond)) => {
                append_bytes(&mut parameters, bond.link_key());
                self.queue_command(HCI_LINK_KEY_REQUEST_REPLY, parameters);
            },
            Ok(None) => {
                self.queue_command(HCI_LINK_KEY_REQUEST_NEGATIVE_REPLY, parameters);
            },
        }
        Ok(())
    }

    /// Reports a new link key, once the bond store answered to it.
    pub fn finish_link_key_notification(
        &mut self,
        peer: BluetoothAddress,
        stored: Result<(), BondStoreError>,
    ) -> (result: Result<(), HostError>)
        ensures
            final(self)@ == old(self)@.link_key_kept(peer, stored).0,
            host_agrees(result, old(self)@.link_key_kept(peer, stored).1),
            final(self).bonds == old(self).bonds,
    {
        match stored {
            Err(error) => Err(HostError::BondStore(error)),
            Ok(()) => {
                self.queue_event(SessionEvent::BondStored { peer });
                Ok(())
            },
        }
    }

    fn complete_connection(&mut self, connection_handle: u16, peer: BluetoothAddress) -> (result:
        Result<(), HostError>)
        ensures
            final(self)@ == old(self)@.connection_made(connection_handle, peer).0,
            host_agrees(result, old(self)@.connection_made(connection_handle, peer).1),
            final(self).bonds == old(self).bonds,
    {
        match &self.pending_peer {
            None => {},
            Some(expected) => if !peer.same(expected) {
                return Err(HostError::PeerMismatch { expected: *expected, actual: peer });
            },
        }
        match install_servers(&self.servers) {
            Err(error) => Err(HostError::L2cap(error)),
            Ok(channels) => {
                self.pending_peer = None;
                self.connection = Some(
                    Connection { peer, handle: connection_handle, encrypted: false, channels },
                );
                self.queue_event(SessionEvent::Connected { peer, connection_handle });
                let mut parameters: Vec<u8> = Vec::new();
                push_le16(&mut parameters, connection_handle);
                assert(parameters@ =~= le16(connection_handle));
                self.queue_command(HCI_AUTHENTICATION_REQUESTED, parameters);
                Ok(())
            },
        }
    }

    fn complete_authentication(&mut self, connection_handle: u16) -> (result: Result<
        (),
        HostError,
    >)
        ensures
            final(self)@ == old(self)@.authenticated(connection_handle).0,
            host_agrees(result, old(self)@.authenticated(connection_handle).1),
            final(self).bonds == old(self).bonds,
    {
        match self.ensure_handle(connection_handle) {
            Err(error) => Err(error),
            Ok(()) => {
                let mut parameters: Vec<u8> = Vec::new();
                push_le16(&mut parameters, connection_handle);
                parameters.push(1);
                assert(parameters@ =~= le16(connection_handle) + seq![1u8]);
                self.queue_command(HCI_SET_CONNECTION_ENCRYPTION, parameters);
                Ok(())
            },
        }
    }

    fn complete_encryption(&mut self, connection_handle: u16) -> (result: Result<(), HostError>)
        ensures
            final(self)@ == old(self)@.link_encrypted(connection_handle).0,
            host_agrees(result, old(self)@.link_encrypted(connection_handle).1),
            final(self).bonds == old(self).bonds,
    {
        match self.ensure_handle(connection_handle) {
            Err(error) => {
                return Err(error);
            },
            Ok(()) => {},
        }
        let peer = match &mut self.connection {
            None => {
                return Err(HostError::NoConnection);
            },
            Some(connection) => {
                connection.encrypted = true;
                connection.peer
            },
        };
        self.queue_event(SessionEvent::Encrypted { peer });
        Ok(())
    }

    fn complete_packets(&mut self, connection_handle: u16, completed: u16) -> (result: Result<
        (),
        HostError,
    >)
        ensures
            final(self)@ == old(self)@.packets_completed(connection_handle, completed).0,
            host_agrees(result, old(self)@.packets_completed(connection_handle, completed).1),
            final(self).bonds == old(self).bonds,
    {
        match self.acl_flow.complete(connection_handle, completed) {
            Err(error) => Err(error),
            Ok(()) => {
                self.acl_flow.flush(&mut self.output);
                Ok(())
            },
        }
    }

    fn complete_disconnection(&mut self, connection_handle: u16, reason: u8) -> (result: Result<
        (),
        HostError,
    >)
        ensures
            final(self)@ == old(self)@.disconnected(connection_handle, reason).0,
            host_agrees(result, old(self)@.disconnected(connection_handle, reason).1),
            final(self).bonds == old(self).bonds,
    {
        match self.ensure_handle(connection_handle) {
            Err(error) => {
                return Err(error);
            },
            Ok(()) => {},
        }
        let peer = match &self.connection {
            None => {
                return Err(HostError::NoConnection);
            },
            Some(connection) => connection.peer,
        };
        self.acl_flow.clear_handle(connection_handle);
        self.acl_assembler.clear_handle(connection_handle);
        drop_data(&mut self.output, connection_handle);
        self.connection = None;
        self.queue_event(SessionEvent::Disconnected { peer, reason });
        Ok(())
    }
}

/// Hands the bond of a link key notification to a store.
fn hand_key<S: BondStore>(
    store: &mut S,
    peer: BluetoothAddress,
    link_key: [u8; 16],
    link_key_type: u8,
) -> (stored: Result<(), BondStoreError>)
    ensures
        exists|asked: &mut S|
            *asked == *old(store) && *final(asked) == *final(store) && #[trigger] key_handed(
                asked,
                (ClassicEvent::LinkKeyNotification { peer, link_key, link_key_type }),
                (StoreReply { loaded: Ok(None), stored }),
            ),
{
    let ghost before = *store;
    let bond = notified_bond(link_key, link_key_type);
    let ghost handed = bond;
    let stored = store.upsert(peer, bond);
    proof {
        let asked = choose|asked: &mut S|
            *asked == before && *final(asked) == *store && #[trigger] call_ensures(
                S::upsert,
                (asked, peer, handed),
                stored,
            );
        assert(key_handed(
            asked,
            ClassicEvent::LinkKeyNotification { peer, link_key, link_key_type },
            StoreReply { loaded: Ok(None), stored },
        ));
    }
    stored
}

impl<S: BondStore> ClassicHost<S> {
    /// Takes an event of the controller. What a bond store answers decides on a
    /// link key request or notification; nothing else depends on the store.
    #[verifier::spinoff_prover]
    pub fn handle_event(&mut self, event: ClassicEvent) -> (result: Result<(), HostError>)
        ensures
            exists|reply: StoreReply|
                final(self)@ == (#[trigger] old(self)@.event_handled(event, reply)).0
                    && host_agrees(result, old(self)@.event_handled(event, reply).1)
                    && store_asked(old(self).bonds, event, reply) && (event
                    is LinkKeyNotification ==> exists|asked: &mut S|
                    *asked == old(self).bonds && *final(asked) == final(self).bonds
                        && #[trigger] key_handed(asked, event, reply)),
            !(event is LinkKeyNotification) ==> final(self).bonds == old(self).bonds,
    {
        let ghost start = self@;
        let ghost mut reply = StoreReply { loaded: Ok(None), stored: Ok(()) };
        let result = match event {
            ClassicEvent::ConnectionRequest { peer } => {
                self.pending_peer = Some(peer);
                let mut parameters = address_bytes(peer);
                parameters.push(HCI_ROLE_PERIPHERAL);
                assert(parameters@ =~= peer@.bytes_le + seq![HCI_ROLE_PERIPHERAL]);
                self.queue_command(HCI_ACCEPT_CONNECTION_REQUEST, parameters);
                Ok(())
            },
            ClassicEvent::ConnectionComplete { status, connection_handle, peer } => if status
                == 0 {
                self.complete_connection(connection_handle, peer)
            } else {
                self.pending_peer = None;
                Ok(())
            },
            ClassicEvent::LinkKeyRequest { peer } => {
                let loaded = self.bonds.load(peer);
                proof {
                    reply = StoreReply { loaded: loaded_view(loaded), stored: Ok(()) };
                }
                self.answer_link_key_request(peer, loaded)
            },
            ClassicEvent::LinkKeyNotification { peer, link_key, link_key_type } => {
                let stored = hand_key(&mut self.bonds, peer, link_key, link_key_type);
                proof {
                    reply = StoreReply { loaded: Ok(None), stored };
                }
                self.finish_link_key_notification(peer, stored)
            },
            ClassicEvent::IoCapabilityRequest { peer } => {
                let mut parameters = address_bytes(peer);
                parameters.push(HCI_IO_CAPABILITY_NO_INPUT_NO_OUTPUT);
                parameters.push(0);
                parameters.push(HCI_AUTHENTICATION_REQUIREMENTS_GENERAL_BONDING);
                assert(parameters@ =~= peer@.bytes_le + seq![
                    HCI_IO_CAPABILITY_NO_INPUT_NO_OUTPUT,
                    0u8,
                    HCI_AUTHENTICATION_REQUIREMENTS_GENERAL_BONDING,
                ]);
                self.queue_command(HCI_IO_CAPABILITY_REQUEST_REPLY, parameters);
                Ok(())
            },
            ClassicEvent::UserConfirmationRequest { peer } => {
                self.queue_command(HCI_USER_CONFIRMATION_REQUEST_REPLY, address_bytes(peer));
                Ok(())
            },
            ClassicEvent::AuthenticationComplete { status, connection_handle } => if status == 0 {
                self.complete_authentication(connection_handle)
            } else {
                Ok(())
            },
            ClassicEvent::EncryptionChange { status, connection_handle, enabled } => if status == 0
                && enabled {
                self.complete_encryption(connection_handle)
            } else {
                Ok(())
            },
            ClassicEvent::NumberOfCompletedPackets { connection_handle, completed } => {
                self.complete_packets(connection_handle, completed)
            },
            ClassicEvent::DisconnectionComplete { connection_handle, reason } => {
                self.complete_disconnection(connection_handle, reason)
            },
        };
        assert(self@ == start.event_handled(event, reply).0);
        result
    }
}

impl<S> ClassicHost<S> {
    #[verifier::spinoff_prover]
    fn flush_channels(&mut self) -> (result: Result<(), HostError>)
        ensures
            final(self)@ == old(self)@.channels_flushed().0,
            host_agrees(result, old(self)@.channels_flushed().1),
            final(self).bonds == old(self).bonds,
    {
        let ghost start = self@;
        let (handle, pdus, opened) = match &mut self.connection {
            None => {
                return Err(HostError::NoConnection);
            },
            Some(connection) => {
                let pdus = connection.channels.drain_outbound();
                let opened = take_opened(&mut connection.channels);
                (connection.handle, pdus, opened)
            },
        };
        let ghost drained = self@;
        let ghost units = pdu_views(pdus@);
        let ghost queued = start.flow.queued;
        let mut index: usize = 0;
        assert(units.take(0) =~= Seq::<L2capPduV>::empty());
        while index < pdus.len()
            invariant
                index <= pdus@.len(),
                units == pdu_views(pdus@),
                queued == start.flow.queued,
                drained.flow == start.flow,
                self@ == (HostV {
                    flow: AclFlowV {
                        queued: units_queued(
                            queued,
                            handle,
                            start.flow.payload_size as int,
                            units.take(index as int),
                        ).0,
                        ..start.flow
                    },
                    ..drained
                }),
                units_queued(
                    queued,
                    handle,
                    start.flow.payload_size as int,
                    units.take(index as int),
                ).1 is Ok,
                start.connection is Some,
                start.connection->0.handle == handle,
                start.connection->0.channels.outbound == units,
                drained == start.with_channels(
                    ChannelManagerV {
                        outbound: seq![],
                        accepted_channels: seq![],
                        ..start.connection->0.channels
                    },
                ),
                start == old(self)@,
                self.bonds == old(self).bonds,
            decreases pdus@.len() - index,
        {
            proof {
                assert(units.take(index + 1).drop_last() =~= units.take(index as int));
                assert(units.take(index + 1).last() == units[index as int]);
            }
            let bytes = pdus[index].to_bytes(false);
            match fragment_l2cap_pdu(handle, 0, self.acl_flow.payload_size, &bytes, false) {
                Err(error) => {
                    proof {
                        lemma_refused_unit(
                            queued,
                            handle,
                            start.flow.payload_size as int,
                            units,
                            index as int,
                        );
                    }
                    return Err(HostError::Codec(error));
                },
                Ok(packets) => {
                    self.acl_flow.enqueue(packets);
                },
            }
            index = index + 1;
        }
        assert(units.take(index as int) =~= units);
        self.acl_flow.flush(&mut self.output);
        let ghost sent = self@;
        let ghost events = opened_events(opened@);
        let mut position: usize = 0;
        assert(sent.output + events.take(0) =~= sent.output);
        while position < opened.len()
            invariant
                position <= opened@.len(),
                events == opened_events(opened@),
                self@ == (HostV { output: sent.output + events.take(position as int), ..sent }),
                self.bonds == old(self).bonds,
            decreases opened@.len() - position,
        {
            let (psm, source_cid) = opened[position];
            self.queue_event(SessionEvent::ChannelOpened { psm, source_cid });
            assert(events.take(position + 1) =~= events.take(position as int).push(
                events[position as int],
            ));
            assert(self@.output =~= sent.output + events.take(position + 1));
            position = position + 1;
        }
        assert(events.take(position as int) =~= events);
        Ok(())
    }

    fn process_unit(&mut self, bytes: &[u8]) -> (result: Result<(), HostError>)
        requires
            old(self)@.connection is Some,
        ensures
            final(self)@ == old(self)@.unit_received(bytes@).0,
            host_agrees(result, old(self)@.unit_received(bytes@).1),
            final(self).bonds == old(self).bonds,
    {
        let pdu = match L2capPdu::from_bytes(bytes) {
            Err(error) => {
                return Err(HostError::L2cap(error));
            },
            Ok(pdu) => pdu,
        };
        match &mut self.connection {
            None => {
                return Err(HostError::NoConnection);
            },
            Some(connection) => match connection.channels.process_pdu(pdu) {
                Err(error) => {
                    return Err(HostError::L2cap(error));
                },
                Ok(()) => {},
            },
        }
        self.flush_channels()
    }

    /// Takes an ACL packet of the controller.
    pub fn process_acl(&mut self, packet: AclPacket) -> (result: Result<(), HostError>)
        ensures
            final(self)@ == old(self)@.acl_received(packet@).0,
            host_agrees(result, old(self)@.acl_received(packet@).1),
            final(self).bonds == old(self).bonds,
    {
        match self.ensure_handle(packet.connection_handle) {
            Err(error) => {
                return Err(error);
            },
            Ok(()) => {},
        }
        match self.acl_assembler.feed(&packet) {
            Err(error) => Err(HostError::Codec(error)),
            Ok(None) => Ok(()),
            Ok(Some(bytes)) => self.process_unit(&bytes),
        }
    }

    /// Sends an SDU on a channel.
    pub fn send_channel_sdu(&mut self, source_cid: u16, sdu: &[u8]) -> (result: Result<
        (),
        HostError,
    >)
        ensures
            final(self)@ == old(self)@.sdu_sent(source_cid, sdu@).0,
            host_agrees(result, old(self)@.sdu_sent(source_cid, sdu@).1),
            final(self).bonds == old(self).bonds,
    {
        match &mut self.connection {
            None => {
                return Err(HostError::NoConnection);
            },
            Some(connection) => match connection.channels.send(source_cid, sdu) {
                Err(error) => {
                    return Err(HostError::L2cap(error));
                },
                Ok(()) => {},
            },
        }
        self.flush_channels()
    }

    /// Asks the peer for a channel, and returns its local identifier.
    pub fn connect_channel(&mut self, psm: u32, spec: ClassicChannelSpec) -> (result: Result<
        u16,
        HostError,
    >)
        ensures
            final(self)@ == old(self)@.channel_requested(psm, spec).0,
            host_agrees(result, old(self)@.channel_requested(psm, spec).1),
            final(self).bonds == old(self).bonds,
    {
        let cid: u16 = match &mut self.connection {
            None => {
                return Err(HostError::NoConnection);
            },
            Some(connection) => match connection.channels.connect(psm, spec) {
                Err(error) => {
                    return Err(HostError::L2cap(error));
                },
                Ok(cid) => cid,
            },
        };
        match self.flush_channels() {
            Err(error) => Err(error),
            Ok(()) => Ok(cid),
        }
    }

    /// Takes the next SDU that came in on a channel.
    pub fn take_channel_sdu(&mut self, source_cid: u16) -> (sdu: Option<Vec<u8>>)
        ensures
            final(self)@ == old(self)@.sdu_taken(source_cid).0,
            optional_bytes(sdu) == old(self)@.sdu_taken(source_cid).1,
            final(self).bonds == old(self).bonds,
    {
        match &mut self.connection {
            None => None,
            Some(connection) => match connection.channels.channel_mut(source_cid) {
                None => None,
                Some(channel) => channel.pop_received(),
            },
        }
    }

    /// The PSM of a channel, the largest SDU that its peer takes, and whether it is open.
    pub fn channel_info(&self, source_cid: u16) -> (info: Option<(u32, u16, bool)>)
        ensures
            info == if self@.has_channel(source_cid) {
                let channel = self@.channel(source_cid);
                Some((channel.psm, channel.peer_mtu, channel.state == ClassicChannelState::Open))
            } else {
                None
            },
    {
        match &self.connection {
            None => None,
            Some(connection) => match connection.channels.channel(source_cid) {
                None => None,
                Some(channel) => Some((channel.psm, channel.peer_mtu, channel.is_open())),
            },
        }
    }

    /// Takes the next thing that the host wants done.
    pub fn pop_output(&mut self) -> (output: Option<HostOutput>)
        ensures
            match output {
                Some(output) => first_of(old(self)@.output) == Some(output@),
                None => old(self)@.output.len() == 0,
            },
            final(self)@ == (HostV { output: rest_of(old(self)@.output), ..old(self)@ }),
            final(self).bonds == old(self).bonds,
    {
        let output = self.output.pop_front();
        assert(queue_views(self.output@) =~= rest_of(old(self)@.output));
        output
    }

    pub fn bond_store(&self) -> (bonds: &S)
        ensures
            *bonds == self.bonds,
    {
        &self.bonds
    }

    /// Whether a packet would go to the controller without waiting.
    pub fn interrupt_send_capacity_available(&self) -> (available: bool)
        ensures
            available == self@.flow.has_room(),
    {
        assert(self@.flow.queued.len() == self.acl_flow.queued@.len());
        self.acl_flow.queued.len() == 0 && self.acl_flow.in_flight_total()
            < self.acl_flow.total_packets as u64
    }

    /// Whether all that the channels had to send was handed to the controller.
    pub fn channel_output_is_flushed(&self) -> (flushed: bool)
        ensures
            flushed == (self@.flow.queued.len() == 0),
    {
        assert(self@.flow.queued.len() == self.acl_flow.queued@.len());
        self.acl_flow.queued.len() == 0
    }
}

proof fn lemma_refused_unit(
    queued: Seq<AclPacketV>,
    handle: u16,
    payload_size: int,
    units: Seq<L2capPduV>,
    index: int,
)
    requires
        0 <= index < units.len(),
        units_queued(queued, handle, payload_size, units.take(index)).1 is Ok,
        l2cap_fragments(handle, 0, payload_size, units[index].encode(false), false) is Err,
    ensures
        units_queued(queued, handle, payload_size, units).0 == units_queued(
            queued,
            handle,
            payload_size,
            units.take(index),
        ).0,
        units_queued(queued, handle, payload_size, units).1 == Err::<(), CodecError>(
            l2cap_fragments(handle, 0, payload_size, units[index].encode(false), false)->Err_0,
        ),
    decreases units.len(),
{
    if index == units.len() - 1 {
        assert(units.drop_last() =~= units.take(index));
    } else {
        assert(units.drop_last().take(index) =~= units.take(index));
        lemma_refused_unit(queued, handle, payload_size, units.drop_last(), index);
    }
}

} // verus!
