//! What a controller is told while it is made ready, and how its answers are
//! read.

use vstd::prelude::*;

use super::events::event_shape;
use super::identity::{
    identity_mismatch_kind, map_identity_error, read_address, target_display_order,
    vendor_reply_to, AdapterIdentityPreparation, IdentityPreparationErrorKind,
};
use super::startup::{reply_to, IdentityV, InitializedController, ProgressV, StartupV};
use super::state::opening;
use super::wire_laws::{event_packet, is_public, number_of};
use crate::api::{
    BondStoreError, ControllerVersion, Error, ErrorKind, ErrorSourceV, ErrorV, LocalIdentity,
};
use crate::hci::PacketV;
use crate::values::{address_has_its_bytes, AddressKind, BluetoothAddress};

verus! {

/// The command complete event that answers a command with success.
pub open spec fn success(opcode: u16, reply: Seq<u8>) -> PacketV {
    event_packet(0x0E, seq![1u8, (opcode % 256) as u8, (opcode / 256) as u8, 0u8] + reply)
}

/// Bytes followed by so many zeros.
pub open spec fn then_zeros(bytes: Seq<u8>, count: int) -> Seq<u8> {
    bytes + Seq::new(count as nat, |i: int| 0u8)
}

proof fn lemma_success(opcode: u16, reply: Seq<u8>)
    ensures
        reply_to(opcode, success(opcode, reply)) matches Ok(Some(read)) && read == reply,
{
    let parameters = seq![1u8, (opcode % 256) as u8, (opcode / 256) as u8, 0u8] + reply;
    assert(parameters.skip(4) =~= reply);
}

/// A controller is first reset, then asked for its commands, its version and its
/// features, told which events to report, asked for its buffers and its address,
/// and told its name, its class, that it pairs, what it answers to an inquiry,
/// its link policy and, last, not to scan.
pub proof fn commands_have_their_codes(state: StartupV, identity: IdentityV)
    requires
        state.stage < 14,
    ensures
        state.command(identity).opcode == seq![
            0x0C03u16,
            0x1002,
            0x1001,
            0x1004,
            0x0C01,
            0x2001,
            0x1005,
            0x1009,
            0x0C13,
            0x0C24,
            0x0C56,
            0x0C52,
            0x080F,
            0x0C1A,
        ][state.stage as int],
{
}

/// Each command carries what the configuration says: the name is filled up with
/// zeros, the class goes out with its least significant byte first, and the
/// inquiry response holds the complete name. Simple pairing is on, role switch and
/// sniff mode are allowed, and scanning is off.
pub proof fn commands_carry_the_configuration(state: StartupV, identity: IdentityV)
    requires
        state.stage < 14,
        1 <= identity.name.len() <= 238,
        identity.class <= 0x00FF_FFFF,
    ensures
        ({
            let parameters = state.command(identity).parameters;
            let length = identity.name.len();
            &&& [0u8, 1, 2, 6, 7]@.contains(state.stage) ==> parameters.len() == 0
            &&& state.stage == 3 ==> parameters == seq![0u8]
            &&& state.stage == 8 ==> parameters == then_zeros(identity.name, 248 - length)
            &&& state.stage == 9 ==> parameters.len() == 3 && identity.class == parameters[0]
                + 0x100 * parameters[1] + 0x10000 * parameters[2]
            &&& state.stage == 10 ==> parameters == seq![1u8]
            &&& state.stage == 11 ==> parameters == then_zeros(
                seq![0u8, (length + 1) as u8, 0x09] + identity.name,
                238 - length,
            )
            &&& state.stage == 12 ==> parameters == seq![0x05u8, 0x00]
            &&& state.stage == 13 ==> parameters == seq![0u8]
        }),
{
    let parameters = state.command(identity).parameters;
    let length = identity.name.len();
    if state.stage == 8 {
        assert(parameters =~= then_zeros(identity.name, 248 - length));
    }
    if state.stage == 11 {
        assert(parameters =~= then_zeros(
            seq![0u8, (length + 1) as u8, 0x09] + identity.name,
            238 - length,
        ));
    }
    if state.stage == 12 {
        assert(parameters =~= seq![0x05u8, 0x00]);
    }
    let plain = [0u8, 1, 2, 6, 7];
    assert(plain@ == seq![0u8, 1, 2, 6, 7]);
}

/// Whether a mask, least significant byte first, has a bit set.
pub open spec fn has_bit(mask: Seq<u8>, bit: nat) -> bool {
    bit_set(mask[bit as int / 8] as nat, bit % 8)
}

/// Whether a number has a bit set.
pub open spec fn bit_set(number: nat, bit: nat) -> bool
    decreases bit,
{
    if bit == 0 {
        number % 2 == 1
    } else {
        bit_set(number / 2, (bit - 1) as nat)
    }
}

/// The controller is told to report every event that a session reads. Of the LE
/// events, one up to version 6 is told to report those that it knows.
pub proof fn events_are_asked_for(state: StartupV, identity: IdentityV, event_code: u8)
    ensures
        state.stage == 4 ==> ({
            let mask = state.command(identity).parameters;
            &&& mask == seq![0xFFu8, 0x9F, 0xFF, 0xBF, 0x07, 0xF8, 0xBF, 0x3D]
            &&& event_shape(event_code) is Some ==> 1 <= event_code <= 64 && has_bit(
                mask,
                (event_code - 1) as nat,
            )
        }),
        state.stage == 5 ==> state.command(identity).parameters == if state.known.version.hci_version
            <= 6 {
            seq![0x1Fu8, 0, 0, 0, 0, 0, 0, 0]
        } else {
            seq![0xFFu8, 0xFF, 0xF7, 0xFF, 0x0F, 0xED, 0x7B, 0x00]
        },
{
    reveal_with_fuel(bit_set, 8);
}

/// A command is answered by the first command complete event that names it; a
/// failure in that event, or in a command status event that names it, fails the
/// command with the status. Events for other commands, and packets that are no
/// events, are passed over.
pub proof fn answers_name_their_command(
    opcode: u16,
    count: u8,
    low: u8,
    high: u8,
    status: u8,
    reply: Seq<u8>,
    code: u8,
)
    ensures
        ({
            let named = number_of(low, high) == opcode;
            let complete = reply_to(
                opcode,
                event_packet(0x0E, seq![count, low, high, status] + reply),
            );
            let told = reply_to(opcode, event_packet(0x0F, seq![status, count, low, high]));
            &&& !named ==> complete == Ok::<Option<Seq<u8>>, ErrorV>(None)
            &&& named && status == 0 ==> complete == Ok::<Option<Seq<u8>>, ErrorV>(
                Some(reply),
            )
            &&& named && status != 0 ==> refused_with(complete, opcode, status)
            &&& named && status != 0 ==> refused_with(told, opcode, status)
            &&& !named || status == 0 ==> told == Ok::<Option<Seq<u8>>, ErrorV>(None)
        }),
        code != 0x0E && code != 0x0F ==> reply_to(opcode, event_packet(code, reply)) == Ok::<
            Option<Seq<u8>>,
            ErrorV,
        >(None),
        reply.len() < 4 ==> reply_to(opcode, event_packet(0x0E, reply)) is Err,
        reply.len() != 4 ==> reply_to(opcode, event_packet(0x0F, reply)) is Err,
{
    let parameters = seq![count, low, high, status] + reply;
    assert(parameters.skip(4) =~= reply);
}

/// Whether a result is the failure of a command with a status.
pub open spec fn refused_with(
    result: Result<Option<Seq<u8>>, ErrorV>,
    opcode: u16,
    status: u8,
) -> bool {
    result matches Err(error) && error.kind == ErrorKind::OpenFailed && (error.source matches Some(
        ErrorSourceV::Command(failure),
    ) && failure.opcode == opcode && failure.status == status)
}

/// What becomes of a state by the successful answer to its command.
pub open spec fn stepped(state: StartupV, identity: IdentityV, reply: Seq<u8>) -> (
    StartupV,
    Result<ProgressV, ErrorV>,
) {
    state.packet_taken(identity, success(state.command(identity).opcode, reply))
}

/// Whether an outcome is a refusal that leaves a state as it was.
pub open spec fn stays_with(
    outcome: (StartupV, Result<ProgressV, ErrorV>),
    state: StartupV,
    kind: ErrorKind,
) -> bool {
    outcome.0 == state && (outcome.1 matches Err(error) && error.kind == kind)
}

/// A plain answer, or one of the right length, takes the controller to the next
/// command; the answer to the last command makes it ready. What is known of the
/// controller does not change.
pub proof fn plain_answers_go_on(state: StartupV, identity: IdentityV, reply: Seq<u8>)
    requires
        state.stage < 14,
        state.stage == 1 ==> reply.len() == 64,
        state.stage == 3 ==> reply.len() == 10 && reply[0] == 0 && reply[6] == 0,
        state.stage != 2 && state.stage != 6 && state.stage != 7,
    ensures
        ({
            let (after, result) = stepped(state, identity, reply);
            &&& after.stage == state.stage + 1
            &&& after.known == state.known
            &&& state.stage == 13 ==> result == Ok::<ProgressV, ErrorV>(
                ProgressV::Ready(state.known),
            )
            &&& state.stage < 13 ==> result == Ok::<ProgressV, ErrorV>(
                ProgressV::Send(after.command(identity)),
            )
        }),
{
    lemma_success(state.command(identity).opcode, reply);
    assert(0u8 & 0x20u8 == 0u8) by (bit_vector);
}

/// Answers of a wrong length, and those of a controller that cannot be used,
/// leave it where it is: one without Classic (bit five of the seventh byte), one
/// without room for data, and one with no address.
pub proof fn unusable_controllers_are_refused(state: StartupV, identity: IdentityV, reply: Seq<u8>)
    ensures
        ({
            let outcome = stepped(state, identity, reply);
            &&& state.stage == 1 && reply.len() != 64 ==> stays_with(
                outcome,
                state,
                ErrorKind::ProtocolViolation,
            )
            &&& state.stage == 2 && reply.len() != 8 ==> stays_with(
                outcome,
                state,
                ErrorKind::ProtocolViolation,
            )
            &&& state.stage == 3 && reply.len() != 10 ==> stays_with(
                outcome,
                state,
                ErrorKind::ProtocolViolation,
            )
            &&& state.stage == 3 && reply.len() == 10 && (reply[0] != 0 || reply[6] / 32 % 2 == 1)
                ==> stays_with(outcome, state, ErrorKind::UnsupportedController)
            &&& state.stage == 3 && reply.len() == 10 && reply[0] == 0 && reply[6] / 32 % 2 == 0
                ==> outcome.0.stage == 4
            &&& state.stage == 6 && reply.len() != 7 ==> stays_with(
                outcome,
                state,
                ErrorKind::ProtocolViolation,
            )
            &&& state.stage == 6 && reply.len() == 7 && (number_of(reply[0], reply[1]) == 0
                || number_of(reply[3], reply[4]) == 0) ==> stays_with(
                outcome,
                state,
                ErrorKind::UnsupportedController,
            )
            &&& state.stage == 7 && reply.len() != 6 ==> stays_with(
                outcome,
                state,
                ErrorKind::ProtocolViolation,
            )
            &&& state.stage == 7 && reply == seq![0u8, 0, 0, 0, 0, 0] ==> stays_with(
                outcome,
                state,
                ErrorKind::InvalidControllerIdentity,
            )
        }),
{
    lemma_success(state.command(identity).opcode, reply);
    if state.stage == 3 && reply.len() == 10 {
        let byte = reply[6];
        assert((byte & 0x20u8 != 0u8) == (byte / 32u8 % 2u8 == 1u8)) by (bit_vector);
    }
}

/// The version, the buffers and the address that the controller reports are what
/// is known of it from then on, and each leaves the others as they were.
pub proof fn reports_are_kept(state: StartupV, identity: IdentityV, reply: Seq<u8>)
    ensures
        ({
            let (after, result) = stepped(state, identity, reply);
            let known = after.known;
            &&& state.stage == 2 && reply.len() == 8 ==> {
                &&& after.stage == 3
                &&& known == InitializedController { version: known.version, ..state.known }
                &&& known.version == ControllerVersion {
                    hci_version: reply[0],
                    hci_subversion: number_of(reply[1], reply[2]),
                    lmp_version: reply[3],
                    company_identifier: number_of(reply[4], reply[5]),
                    lmp_subversion: number_of(reply[6], reply[7]),
                }
            }
            &&& state.stage == 6 && reply.len() == 7 && number_of(reply[0], reply[1]) != 0
                && number_of(reply[3], reply[4]) != 0 ==> {
                &&& after.stage == 7
                &&& known == InitializedController {
                    acl_packet_length: number_of(reply[0], reply[1]),
                    acl_packet_count: number_of(reply[3], reply[4]),
                    ..state.known
                }
            }
            &&& state.stage == 7 && reply.len() == 6 && reply != seq![0u8, 0, 0, 0, 0, 0] ==> {
                &&& after.stage == 8
                &&& is_public(known.local_address, reply)
                &&& known == InitializedController {
                    local_address: known.local_address,
                    ..state.known
                }
            }
            &&& [2u8, 6, 7]@.contains(state.stage) && after.stage != state.stage ==> result == Ok::<
                ProgressV,
                ErrorV,
            >(ProgressV::Send(after.command(identity)))
        }),
{
    let read = [2u8, 6, 7];
    assert(read@ == seq![2u8, 6, 7]);
    lemma_success(state.command(identity).opcode, reply);
    if state.stage == 7 && reply.len() == 6 {
        address_has_its_bytes(reply, AddressKind::Public);
    }
}

/// A vendor command is answered by a vendor event that matches, whose parameters
/// are the answer; it fails by a command status event. All else is passed over.
pub proof fn vendor_commands_are_answered(
    opcode: u16,
    code: u8,
    parameters: Seq<u8>,
    status: u8,
    count: u8,
    low: u8,
    high: u8,
)
    ensures
        vendor_reply_to(opcode, event_packet(0xFF, parameters), true) == Ok::<
            Option<Seq<u8>>,
            ErrorV,
        >(Some(parameters)),
        code != 0x0F ==> vendor_reply_to(opcode, event_packet(code, parameters), false) == Ok::<
            Option<Seq<u8>>,
            ErrorV,
        >(None),
        code != 0x0F && code != 0xFF ==> vendor_reply_to(
            opcode,
            event_packet(code, parameters),
            true,
        ) == Ok::<Option<Seq<u8>>, ErrorV>(None),
        number_of(low, high) == opcode && status != 0 ==> refused_with(
            vendor_reply_to(opcode, event_packet(0x0F, seq![status, count, low, high]), true),
            opcode,
            status,
        ),
        number_of(low, high) != opcode || status == 0 ==> vendor_reply_to(
            opcode,
            event_packet(0x0F, seq![status, count, low, high]),
            true,
        ) == Ok::<Option<Seq<u8>>, ErrorV>(None),
{
}

/// Only after a write can an adapter need recovery; before it, a failure is one
/// of the adapter, or of opening it.
pub proof fn identity_failures_are_told_apart(
    preparation: Option<AdapterIdentityPreparation>,
    failure: IdentityPreparationErrorKind,
    kind: ErrorKind,
    mapped: ErrorKind,
)
    requires
        call_ensures(identity_mismatch_kind, (preparation,), kind),
        call_ensures(map_identity_error, (failure,), mapped),
    ensures
        kind == ErrorKind::AdapterIdentityRecoveryRequired || kind == ErrorKind::IdentityMismatch,
        kind == ErrorKind::AdapterIdentityRecoveryRequired <==> preparation == Some(
            AdapterIdentityPreparation::Rewritten,
        ),
        mapped == ErrorKind::AdapterIdentityRecoveryRequired <==> failure
            == IdentityPreparationErrorKind::RecoveryRequired,
        mapped == ErrorKind::UnsupportedController <==> failure
            == IdentityPreparationErrorKind::UnsupportedController,
        mapped == ErrorKind::OpenFailed <==> failure
            == IdentityPreparationErrorKind::FailedBeforeWrite,
{
}

/// The address for an adapter and the one that it reports are both given with the
/// most significant byte first, so that they can be held against each other: they
/// agree exactly where the adapter reports the bytes of that address.
pub proof fn addresses_can_be_held_against_each_other(
    target: BluetoothAddress,
    response: &[u8],
    wanted: Result<[u8; 6], Error>,
    found: Result<[u8; 6], Error>,
)
    requires
        call_ensures(target_display_order, (target,), wanted),
        call_ensures(read_address, (response,), found),
    ensures
        wanted is Ok <==> target@.kind == AddressKind::Public,
        found is Ok <==> response@.len() == 6,
        wanted matches Err(error) ==> error@.kind == ErrorKind::InvalidConfiguration,
        found matches Err(error) ==> error@.kind == ErrorKind::ProtocolViolation,
        found matches Ok(octets) ==> octets@[0] == response@[5] && octets@[1] == response@[4]
            && octets@[2] == response@[3] && octets@[3] == response@[2] && octets@[4]
            == response@[1] && octets@[5] == response@[0],
        wanted is Ok && found is Ok ==> (wanted->Ok_0@ == found->Ok_0@ <==> target@.bytes_le
            == response@),
{
    crate::values::address_has_six_bytes(target);
    if wanted is Ok && found is Ok {
        let left = target@.bytes_le;
        let right = response@;
        if wanted->Ok_0@ == found->Ok_0@ {
            assert forall|i: int| 0 <= i < 6 implies left[i] == right[i] by {
                assert(left.reverse()[5 - i] == right.reverse()[5 - i]);
            }
            assert(left =~= right);
        }
    }
}

/// A session opens where the bond store takes the controller's address and the
/// controller has the address that it was asked to have. A store that refuses comes
/// first; an address that differs after a write needs recovery.
pub proof fn sessions_open_on_the_right_controller(
    selected: Result<(), BondStoreError>,
    wanted: BluetoothAddress,
    found: BluetoothAddress,
    preparation: Option<AdapterIdentityPreparation>,
)
    ensures
        ({
            let explicit = opening(selected, LocalIdentity::Explicit(wanted), found, preparation);
            let plain = opening(selected, LocalIdentity::AdapterDefault, found, preparation);
            &&& explicit is Ok <==> selected is Ok && wanted == found
            &&& plain is Ok <==> selected is Ok
            &&& selected matches Err(fault) ==> (explicit matches Err(error) && error.kind
                == ErrorKind::InvalidBondStore && error.source == Some(
                ErrorSourceV::BondStore(fault),
            )) && (plain matches Err(error) && error.kind == ErrorKind::InvalidBondStore)
            &&& selected is Ok && wanted != found && preparation == Some(
                AdapterIdentityPreparation::Rewritten,
            ) ==> (explicit matches Err(error) && error.kind
                == ErrorKind::AdapterIdentityRecoveryRequired)
            &&& selected is Ok && wanted != found && preparation != Some(
                AdapterIdentityPreparation::Rewritten,
            ) ==> (explicit matches Err(error) && error.kind == ErrorKind::IdentityMismatch)
        }),
{
}

} // verus!
