//! What goes to the controller, byte for byte: which command answers which
//! event, and what the requests of the application make the controller do.

use vstd::prelude::*;

use super::events::{classic_events, key_of, peer_at};
use super::model::{SessionOutcome, SessionV};
use super::state::{key_event, sole_key};
use crate::acl_flow::HostOutputV;
use crate::api::{BondStore, BondStoreError, ErrorKind, ErrorSourceV, ErrorV};
use crate::classic_host::{key_handed, ClassicEvent, HostErrorV, HostV, StoreReply};
use crate::hci::{CommandPacketV, EventPacketV, PacketV};
use crate::values::{
    address_has_its_bytes, address_is_its_view, AddressKind, BluetoothAddress, ClassicBond,
    ClassicBondV,
};

verus! {

/// A packet with an event of the controller.
pub open spec fn event_packet(event_code: u8, parameters: Seq<u8>) -> PacketV {
    PacketV::Event(EventPacketV { event_code, parameters })
}

/// A packet with a command for the controller.
pub open spec fn command_packet(opcode: u16, parameters: Seq<u8>) -> PacketV {
    PacketV::Command(CommandPacketV { opcode, parameters })
}

/// Whether an address is the public one with these bytes, least significant first.
pub open spec fn is_public(peer: BluetoothAddress, address: Seq<u8>) -> bool {
    peer@.bytes_le == address && peer@.kind == AddressKind::Public
}

/// The number whose two bytes are these, least significant first.
pub open spec fn number_of(low: u8, high: u8) -> u16 {
    (low + 256 * high) as u16
}

/// Whether a session and its host have nothing left to hand over.
pub open spec fn settled(session: SessionV) -> bool {
    session.host.output.len() == 0
}

/// The session with one packet more to send, and success.
pub open spec fn answered_by(session: SessionV, packet: PacketV) -> SessionOutcome {
    (SessionV { outgoing: session.outgoing.push(packet), ..session }, Ok(()))
}

pub proof fn lemma_peer(address: Seq<u8>, parameters: Seq<u8>, offset: int)
    requires
        address.len() == 6,
        0 <= offset,
        offset + 6 <= parameters.len(),
        parameters.subrange(offset, offset + 6) == address,
    ensures
        is_public(peer_at(parameters, offset), address),
{
    address_has_its_bytes(address, AddressKind::Public);
}

/// There is one public address with given bytes.
pub proof fn lemma_one_public(left: BluetoothAddress, right: BluetoothAddress, address: Seq<u8>)
    requires
        is_public(left, address),
        is_public(right, address),
    ensures
        left == right,
{
    address_is_its_view(left, right);
}

/// An event that the session does not screen goes to the host, whose output is
/// then handed over.
pub proof fn lemma_one_event(
    session: SessionV,
    event_code: u8,
    parameters: Seq<u8>,
    event: ClassicEvent,
    reply: StoreReply,
)
    requires
        classic_events(EventPacketV { event_code, parameters }) == Ok::<
            Seq<ClassicEvent>,
            ErrorV,
        >(seq![event]),
    ensures
        ({
            let (host, result) = session.host.event_handled(event, reply);
            let next = SessionV { host, ..session };
            session.link_events_taken(EventPacketV { event_code, parameters }, reply)
                == match result {
                Err(error) => (next, Err(super::model::host_refused(error))),
                Ok(_) => next.output_drained(),
            }
        }),
{
    reveal_with_fuel(HostV::events_handled, 2);
    let events = seq![event];
    assert(events.drop_last() =~= Seq::<ClassicEvent>::empty());
    assert(session.host.events_handled(events.drop_last(), reply) == (
        session.host,
        Ok::<(), HostErrorV>(()),
    ));
}

pub proof fn lemma_drained_empty(session: SessionV)
    requires
        settled(session),
    ensures
        session.output_drained() == (session, Ok::<(), ErrorV>(())),
{
}

/// A command of the host goes out, and the rest follows.
pub proof fn lemma_drained_command(session: SessionV, host: HostV, command: CommandPacketV)
    requires
        settled(session),
        host == (HostV { output: seq![HostOutputV::Command(command)], ..session.host }),
    ensures
        (SessionV { host, ..session }).output_drained() == answered_by(
            session,
            PacketV::Command(command),
        ),
{
    reveal(SessionV::output_applied);
    let next = SessionV { host, ..session };
    assert(session.host.output =~= seq![]);
    assert(host.output.skip(1) =~= seq![]);
    assert(next.output_popped() == session);
    let after = answered_by(session, PacketV::Command(command)).0;
    lemma_drained_empty(after);
    assert(next.output_popped().output_applied(host.output[0]) == (after, Ok::<(), ErrorV>(())));
    assert(next.output_drained() == after.output_drained());
}

/// While the link is being paired, the controller's questions about a peer are
/// answered with commands about that peer: the IO capability request by "no
/// input, no output", no out-of-band data and general bonding, the user
/// confirmation request by a confirmation.
pub proof fn pairing_questions_are_answered(
    session: SessionV,
    address: Seq<u8>,
    value: Seq<u8>,
    reply: StoreReply,
)
    requires
        settled(session),
        address.len() == 6,
        value.len() == 4,
    ensures
        session.packet_taken(event_packet(0x31, address), reply) == answered_by(
            session,
            command_packet(0x042B, address + seq![0x03u8, 0x00, 0x01]),
        ),
        session.packet_taken(event_packet(0x33, address + value), reply) == answered_by(
            session,
            command_packet(0x042C, address),
        ),
{
    let asked = ClassicEvent::IoCapabilityRequest { peer: peer_at(address, 0) };
    assert(address.subrange(0, 6) =~= address);
    lemma_peer(address, address, 0);
    assert(classic_events(EventPacketV { event_code: 0x31, parameters: address })->Ok_0 =~= seq![
        asked,
    ]);
    lemma_one_event(session, 0x31, address, asked, reply);
    let capability = CommandPacketV {
        opcode: 0x042B,
        parameters: address + seq![0x03u8, 0x00, 0x01],
    };
    assert(session.host.output =~= seq![]);
    let host = session.host.event_handled(asked, reply).0;
    assert(host.output =~= seq![HostOutputV::Command(capability)]);
    lemma_drained_command(session, host, capability);
    let whole = address + value;
    let confirm = ClassicEvent::UserConfirmationRequest { peer: peer_at(whole, 0) };
    assert(whole.subrange(0, 6) =~= address);
    lemma_peer(address, whole, 0);
    assert(classic_events(EventPacketV { event_code: 0x33, parameters: whole })->Ok_0 =~= seq![
        confirm,
    ]);
    lemma_one_event(session, 0x33, whole, confirm, reply);
    let confirmation = CommandPacketV { opcode: 0x042C, parameters: address };
    let host = session.host.event_handled(confirm, reply).0;
    assert(host.output =~= seq![HostOutputV::Command(confirmation)]);
    lemma_drained_command(session, host, confirmation);
}

/// A request for a link key is answered, for the peer that it names, with the
/// key that the store holds, or refused where the store holds none. A failing
/// store ends in an error, and nothing is sent.
pub proof fn link_key_request_gets_the_stored_key(
    session: SessionV,
    address: Seq<u8>,
    reply: StoreReply,
)
    requires
        settled(session),
        address.len() == 6,
    ensures
        ({
            let outcome = session.packet_taken(event_packet(0x17, address), reply);
            match reply.loaded {
                Ok(Some(bond)) => outcome == answered_by(
                    session,
                    command_packet(0x040B, address + bond.link_key),
                ),
                Ok(None) => outcome == answered_by(session, command_packet(0x040C, address)),
                Err(error) => outcome.0 == session && outcome.1 == Err::<(), ErrorV>(
                    ErrorV {
                        kind: ErrorKind::InvalidBondStore,
                        source: Some(ErrorSourceV::Host(HostErrorV::BondStore(error))),
                    },
                ),
            }
        }),
{
    let asked = ClassicEvent::LinkKeyRequest { peer: peer_at(address, 0) };
    assert(address.subrange(0, 6) =~= address);
    lemma_peer(address, address, 0);
    assert(classic_events(EventPacketV { event_code: 0x17, parameters: address })->Ok_0 =~= seq![
        asked,
    ]);
    lemma_one_event(session, 0x17, address, asked, reply);
    assert(session.host.output =~= seq![]);
    let host = session.host.event_handled(asked, reply).0;
    match reply.loaded {
        Ok(Some(bond)) => {
            let command = CommandPacketV { opcode: 0x040B, parameters: address + bond.link_key };
            assert(host.output =~= seq![HostOutputV::Command(command)]);
            lemma_drained_command(session, host, command);
        },
        Ok(None) => {
            let command = CommandPacketV { opcode: 0x040C, parameters: address };
            assert(host.output =~= seq![HostOutputV::Command(command)]);
            lemma_drained_command(session, host, command);
        },
        Err(_) => {},
    }
}

/// Whether a store is handed this bond for the public address with these bytes,
/// and gives this answer.
pub open spec fn bond_handed<B: BondStore>(
    asked: &mut B,
    address: Seq<u8>,
    bond: ClassicBondV,
    answer: Result<(), BondStoreError>,
) -> bool {
    exists|peer: BluetoothAddress, handed: ClassicBond|
        is_public(peer, address) && handed@ == bond && #[trigger] call_ensures(
            B::upsert,
            (asked, peer, handed),
            answer,
        )
}

/// A link key notification is the peer's address, the sixteen bytes of the key
/// and its type: the store is handed a bond with exactly that key and type, for
/// exactly that peer. The key is an authenticated one for the types 5 and 8.
/// What the session does next depends on the store alone.
pub proof fn notified_key_is_handed_to_the_store<B: BondStore>(
    session: SessionV,
    asked: &mut B,
    address: Seq<u8>,
    key: Seq<u8>,
    key_type: u8,
    reply: StoreReply,
)
    requires
        settled(session),
        address.len() == 6,
        key.len() == 16,
    ensures
        ({
            let packet = event_packet(0x18, address + key + seq![key_type]);
            let outcome = session.packet_taken(packet, reply);
            &&& key_event(packet) matches Some(event) && (key_handed(asked, event, reply)
                ==> bond_handed(
                asked,
                address,
                ClassicBondV {
                    link_key: key,
                    link_key_type: key_type,
                    authenticated: key_type == 5 || key_type == 8,
                },
                reply.stored,
            ))
            &&& reply.stored is Ok ==> outcome == (session, Ok::<(), ErrorV>(()))
            &&& reply.stored matches Err(error) ==> outcome == (
                session,
                Err::<(), ErrorV>(
                    ErrorV {
                        kind: ErrorKind::InvalidBondStore,
                        source: Some(ErrorSourceV::Host(HostErrorV::BondStore(error))),
                    },
                ),
            )
        }),
{
    let parameters = address + key + seq![key_type];
    let packet = event_packet(0x18, parameters);
    assert(parameters.subrange(0, 6) =~= address);
    assert(parameters.subrange(6, 22) =~= key);
    lemma_peer(address, parameters, 0);
    let array: [u8; 16] = [
        key[0],
        key[1],
        key[2],
        key[3],
        key[4],
        key[5],
        key[6],
        key[7],
        key[8],
        key[9],
        key[10],
        key[11],
        key[12],
        key[13],
        key[14],
        key[15],
    ];
    assert(array@ =~= key);
    assert(key_of(key)@ == key);
    let event = ClassicEvent::LinkKeyNotification {
        peer: peer_at(parameters, 0),
        link_key: key_of(key),
        link_key_type: key_type,
    };
    assert(classic_events(EventPacketV { event_code: 0x18, parameters })->Ok_0 =~= seq![event]);
    assert(sole_key(seq![event]));
    assert(key_event(packet) == Some(event));
    if key_handed(asked, event, reply) {
        let bond = choose|bond: ClassicBond|
            bond@ == crate::classic_host::bond_of_key(key_of(key)@, key_type)
                && #[trigger] call_ensures(
                B::upsert,
                (asked, peer_at(parameters, 0), bond),
                reply.stored,
            );
        assert(is_public(peer_at(parameters, 0), address));
    }
    lemma_one_event(session, 0x18, parameters, event, reply);
    assert(session.host.output =~= seq![]);
    if reply.stored is Ok {
        reveal(SessionV::output_applied);
        let host = session.host.event_handled(event, reply).0;
        let next = SessionV { host, ..session };
        assert(host.output.skip(1) =~= seq![]);
        assert(next.output_popped() == session);
        lemma_drained_empty(session);
        assert(next.output_drained() == session.output_drained());
    }
}

/// Once a peer is authenticated, encryption is switched on for its connection.
/// A failed authentication changes nothing, and neither does a failed change of
/// encryption or the end of it.
pub proof fn authentication_is_followed_by_encryption(
    session: SessionV,
    status: u8,
    low: u8,
    high: u8,
    enabled: u8,
    reply: StoreReply,
)
    requires
        settled(session),
        session.host.connection is Some,
    ensures
        ({
            let outcome = session.packet_taken(event_packet(0x06, seq![status, low, high]), reply);
            &&& status == 0 && session.host.connection->0.handle == number_of(low, high)
                ==> outcome == answered_by(
                session,
                command_packet(0x0413, seq![low, high, 1u8]),
            )
            &&& status != 0 ==> outcome == (session, Ok::<(), ErrorV>(()))
            &&& status == 0 && session.host.connection->0.handle != number_of(low, high) ==> outcome
                == (
                session,
                Err::<(), ErrorV>(
                    ErrorV {
                        kind: ErrorKind::ProtocolViolation,
                        source: Some(
                            ErrorSourceV::Host(
                                HostErrorV::ConnectionHandleMismatch {
                                    expected: session.host.connection->0.handle,
                                    actual: number_of(low, high),
                                },
                            ),
                        ),
                    },
                ),
            )
            &&& status != 0 || enabled == 0 ==> session.packet_taken(
                event_packet(0x08, seq![status, low, high, enabled]),
                reply,
            ) == (session, Ok::<(), ErrorV>(()))
        }),
{
    let parameters = seq![status, low, high];
    let handle = number_of(low, high);
    let event = ClassicEvent::AuthenticationComplete { status, connection_handle: handle };
    assert(classic_events(EventPacketV { event_code: 0x06, parameters })->Ok_0 =~= seq![event]);
    lemma_one_event(session, 0x06, parameters, event, reply);
    lemma_drained_empty(session);
    assert(session.host.output =~= seq![]);
    if status == 0 && session.host.connection->0.handle == handle {
        let command = CommandPacketV { opcode: 0x0413, parameters: seq![low, high, 1u8] };
        let host = session.host.event_handled(event, reply).0;
        assert(crate::bytes::le16(handle) + seq![1u8] =~= command.parameters);
        assert(host.output =~= seq![HostOutputV::Command(command)]);
        lemma_drained_command(session, host, command);
    }
    let change = seq![status, low, high, enabled];
    let changed = ClassicEvent::EncryptionChange {
        status,
        connection_handle: handle,
        enabled: enabled != 0,
    };
    assert(classic_events(EventPacketV { event_code: 0x08, parameters: change })->Ok_0 =~= seq![
        changed,
    ]);
    lemma_one_event(session, 0x08, change, changed, reply);
}

} // verus!
