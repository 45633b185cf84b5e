//! The channels of one link, without input or output.
//!
//! [`ChannelManager`] owns the signaling state and emits complete [`L2capPdu`]
//! values through [`ChannelManager::poll_outbound`]. The caller feeds the peer's
//! units back through [`ChannelManager::process_pdu`].

use std::collections::{BTreeMap, VecDeque};
use vstd::prelude::*;

use super::classic::{
    append_fcs, encode_ertm_option, ertm_option_bytes, ertm_spec_fault, fcs_appended, fcs_stripped,
    spec_fault, valid_psm, validate_ertm_spec, validate_psm, validate_spec, verify_and_strip_fcs,
    ChannelSpec, ClassicChannel, ClassicChannelSpec, ClassicChannelState, ClassicChannelV,
    ErtmChannelSpec, L2CAP_ACL_U_DYNAMIC_CID_RANGE_END, L2CAP_ACL_U_DYNAMIC_CID_RANGE_START,
    L2CAP_PSM_DYNAMIC_RANGE_END, L2CAP_PSM_DYNAMIC_RANGE_START,
};
use super::control::{ControlFrame, ControlFrameV};
use super::ertm::{buffers, ErtmEngineV};
use super::information::{InformationCapabilities, InformationResponse, InformationResponseV};
use super::negotiation::{new_option, plain_option, review_options, settled, NegotiationV};
use super::table::Table;
use super::{
    agrees, checked_options, decode_configuration_options, decode_options,
    encode_configuration_options, option_views, ConfigurationOption, ConfigurationOptionV, Error,
    L2capPdu, L2capPduV, CONFIGURATION_OPTION_FCS, CONFIGURATION_OPTION_MTU,
    CONFIGURATION_OPTION_RETRANSMISSION_AND_FLOW_CONTROL, CONFIGURATION_SUCCESS,
    CONNECTION_REFUSED_NO_RESOURCES_AVAILABLE, CONNECTION_REFUSED_PSM_NOT_SUPPORTED,
    CONNECTION_SUCCESSFUL, L2CAP_SIGNALING_CID,
};
use crate::bytes::{copy_bytes, first_of, le16, push_le16, rest_of};
use crate::text::{decimal, hex_number, hexadecimal, plain_hex_text, with_decimal, with_hex};

verus! {

/// The state of the channels of one link.
pub struct ChannelManagerV {
    pub servers: Map<u32, ChannelSpec>,
    pub channels: Map<u16, ClassicChannelV>,
    pub accepted_channels: Seq<u16>,
    pub outbound: Seq<L2capPduV>,
    pub information: InformationCapabilities,
    pub information_responses: Seq<InformationResponseV>,
    pub identifier: u8,
}

/// A state and what the operation that led to it returned.
pub type ManagerOutcome = (ChannelManagerV, Result<(), Seq<char>>);

/// The identifier after `identifier`, never zero.
pub open spec fn identifier_after(identifier: u8) -> u8 {
    if identifier == 255 {
        1
    } else {
        (identifier + 1) as u8
    }
}

/// The least channel identifier from `from` on that is not in use.
pub open spec fn least_free_cid(channels: Map<u16, ClassicChannelV>, from: int) -> Option<u16>
    decreases 65536 - from,
{
    if from > 65535 {
        None
    } else if from >= 0 && !channels.contains_key(from as u16) {
        Some(from as u16)
    } else {
        least_free_cid(channels, from + 1)
    }
}

/// The least valid PSM that is not registered, in steps of two from `from` on.
pub open spec fn least_free_psm(servers: Map<u32, ChannelSpec>, from: int) -> Option<u32>
    decreases 65538 - from,
{
    if from > 65535 {
        None
    } else if from >= 0 && valid_psm(from as u32) && !servers.contains_key(from as u32) {
        Some(from as u32)
    } else {
        least_free_psm(servers, from + 2)
    }
}

/// The options of this end's own configuration request.
pub open spec fn own_options(spec: ChannelSpec) -> Seq<ConfigurationOptionV> {
    let mtu = seq![plain_option(CONFIGURATION_OPTION_MTU, le16(spec.spec_mtu()))];
    match spec {
        ChannelSpec::Basic(_) => mtu,
        ChannelSpec::Ertm(ertm) => {
            let mode = mtu.push(
                plain_option(
                    CONFIGURATION_OPTION_RETRANSMISSION_AND_FLOW_CONTROL,
                    ertm_option_bytes(ertm),
                ),
            );
            if ertm.fcs_enabled {
                mode.push(plain_option(CONFIGURATION_OPTION_FCS, seq![1u8]))
            } else {
                mode
            }
        },
    }
}

/// The units that carry engine frames to the peer's end of a channel, up to the
/// first frame that is too large for a frame check sequence.
pub open spec fn framed(frames: Seq<Seq<u8>>, cid: u16, with_fcs: bool) -> (
    Seq<L2capPduV>,
    Result<(), Seq<char>>,
)
    decreases frames.len(),
{
    if frames.len() == 0 {
        (seq![], Ok(()))
    } else {
        let payload = if with_fcs {
            fcs_appended(cid, frames[0])
        } else {
            Ok(frames[0])
        };
        match payload {
            Err(reason) => (seq![], Err(reason)),
            Ok(payload) => {
                let (rest, result) = framed(frames.skip(1), cid, with_fcs);
                (seq![L2capPduV { cid, payload }] + rest, result)
            },
        }
    }
}

pub open spec fn missing_channel(cid: u16) -> Seq<char> {
    "channel not found for CID "@ + hex_number(cid as u32)
}

impl ChannelManagerV {
    pub open spec fn initial(information: InformationCapabilities) -> ChannelManagerV {
        ChannelManagerV {
            servers: Map::empty(),
            channels: Map::empty(),
            accepted_channels: seq![],
            outbound: seq![],
            information,
            information_responses: seq![],
            identifier: 0,
        }
    }

    pub open spec fn with_channel(self, cid: u16, channel: ClassicChannelV) -> ChannelManagerV {
        ChannelManagerV { channels: self.channels.insert(cid, channel), ..self }
    }

    /// A signaling frame waits to be sent.
    pub open spec fn control_queued(self, frame: ControlFrameV) -> ChannelManagerV {
        ChannelManagerV {
            outbound: self.outbound.push(
                L2capPduV { cid: L2CAP_SIGNALING_CID, payload: frame.encode() },
            ),
            ..self
        }
    }

    /// The next signaling identifier is in use.
    pub open spec fn identified(self) -> ChannelManagerV {
        ChannelManagerV { identifier: identifier_after(self.identifier), ..self }
    }

    pub open spec fn free_cid(self) -> Option<u16> {
        least_free_cid(self.channels, L2CAP_ACL_U_DYNAMIC_CID_RANGE_START as int)
    }

    pub open spec fn information_requested(self, info_type: u16) -> ChannelManagerV {
        let next = self.identified();
        next.control_queued(
            ControlFrameV::InformationRequest { identifier: next.identifier, info_type },
        )
    }

    /// A server is registered, under the given PSM or the least free dynamic one.
    pub open spec fn registered(self, psm: Option<u32>, spec: ChannelSpec) -> (
        ChannelManagerV,
        Result<u32, Seq<char>>,
    ) {
        let chosen = match psm {
            Some(psm) => if valid_psm(psm) {
                Ok(psm)
            } else {
                Err("invalid Classic PSM"@)
            },
            None => match least_free_psm(self.servers, L2CAP_PSM_DYNAMIC_RANGE_START as int) {
                Some(psm) => Ok(psm),
                None => Err("no free Classic PSM"@),
            },
        };
        match chosen {
            Err(reason) => (self, Err(reason)),
            Ok(psm) => if self.servers.contains_key(psm) {
                (self, Err("PSM "@ + ("0x"@ + hexadecimal(psm as nat)) + " is already in use"@))
            } else {
                (ChannelManagerV { servers: self.servers.insert(psm, spec), ..self }, Ok(psm))
            },
        }
    }

    /// A connection to a PSM of the peer is asked for.
    pub open spec fn connection_requested(self, psm: u32, spec: ChannelSpec) -> (
        ChannelManagerV,
        Result<u16, Seq<char>>,
    ) {
        match self.free_cid() {
            None => (self, Err("no free Classic CID"@)),
            Some(cid) => {
                let next = self.identified();
                (
                    next.with_channel(cid, ClassicChannelV::started(psm, cid, spec)).control_queued(
                        ControlFrameV::ConnectionRequest {
                            identifier: next.identifier,
                            psm,
                            source_cid: cid,
                        },
                    ),
                    Ok(cid),
                )
            },
        }
    }

    /// This end's own configuration request is sent.
    pub open spec fn configuration_requested(self, local_cid: u16) -> ManagerOutcome {
        if !self.channels.contains_key(local_cid) {
            (self, Err(missing_channel(local_cid)))
        } else {
            let channel = self.channels[local_cid];
            let next = self.identified();
            match checked_options(own_options(channel.spec)) {
                Err(reason) => (next, Err(reason)),
                Ok(options) => (
                    next.control_queued(
                        ControlFrameV::ConfigureRequest {
                            identifier: next.identifier,
                            destination_cid: channel.destination_cid,
                            flags: 0,
                            options,
                        },
                    ),
                    Ok(()),
                ),
            }
        }
    }

    pub open spec fn connection_refused(
        self,
        identifier: u8,
        remote_cid: u16,
        result: u16,
    ) -> ChannelManagerV {
        self.control_queued(
            ControlFrameV::ConnectionResponse {
                identifier,
                destination_cid: 0,
                source_cid: remote_cid,
                result,
                status: 0,
            },
        )
    }

    /// The peer asks for a connection.
    #[verifier::opaque]
    pub open spec fn connection_request_received(
        self,
        identifier: u8,
        psm: u32,
        remote_cid: u16,
    ) -> ManagerOutcome {
        if !self.servers.contains_key(psm) {
            (
                self.connection_refused(
                    identifier,
                    remote_cid,
                    CONNECTION_REFUSED_PSM_NOT_SUPPORTED,
                ),
                Ok(()),
            )
        } else {
            match self.free_cid() {
                None => (
                    self.connection_refused(
                        identifier,
                        remote_cid,
                        CONNECTION_REFUSED_NO_RESOURCES_AVAILABLE,
                    ),
                    Ok(()),
                ),
                Some(cid) => self.with_channel(
                    cid,
                    ClassicChannelV::accepted(psm, cid, remote_cid, self.servers[psm]),
                ).control_queued(
                    ControlFrameV::ConnectionResponse {
                        identifier,
                        destination_cid: cid,
                        source_cid: remote_cid,
                        result: CONNECTION_SUCCESSFUL,
                        status: 0,
                    },
                ).configuration_requested(cid),
            }
        }
    }

    /// The peer answers a connection request.
    #[verifier::opaque]
    pub open spec fn connection_response_received(
        self,
        destination_cid: u16,
        source_cid: u16,
        result: u16,
    ) -> ManagerOutcome {
        if !self.channels.contains_key(source_cid) {
            (
                self,
                Err("connection response for unknown CID "@ + hex_number(source_cid as u32)),
            )
        } else {
            let channel = self.channels[source_cid];
            if channel.state != ClassicChannelState::WaitConnectResponse {
                (self, Err("connection response in invalid state"@))
            } else if result != CONNECTION_SUCCESSFUL {
                (
                    self.with_channel(
                        source_cid,
                        ClassicChannelV {
                            connection_result: Some(result),
                            state: ClassicChannelState::Closed,
                            ..channel
                        },
                    ),
                    Ok(()),
                )
            } else {
                self.with_channel(
                    source_cid,
                    ClassicChannelV {
                        connection_result: Some(result),
                        destination_cid,
                        state: ClassicChannelState::Configuring,
                        ..channel
                    },
                ).configuration_requested(source_cid)
            }
        }
    }

    /// A channel opens once both ends' configurations are accepted. A channel
    /// that the peer asked for is then announced, once.
    #[verifier::opaque]
    pub open spec fn opened(self, local_cid: u16) -> ChannelManagerV {
        let channel = self.channels[local_cid];
        if self.channels.contains_key(local_cid) && channel.peer_configuration_received
            && channel.configuration_response_received && channel.state
            == ClassicChannelState::Configuring {
            let announced = channel.incoming && !channel.open_announced;
            ChannelManagerV {
                channels: self.channels.insert(
                    local_cid,
                    ClassicChannelV {
                        state: ClassicChannelState::Open,
                        open_announced: channel.open_announced || announced,
                        ..channel
                    },
                ),
                accepted_channels: if announced {
                    self.accepted_channels.push(local_cid)
                } else {
                    self.accepted_channels
                },
                ..self
            }
        } else {
            self
        }
    }

    /// The peer sends its configuration.
    #[verifier::opaque]
    pub open spec fn configure_request_received(
        self,
        identifier: u8,
        local_cid: u16,
        flags: u16,
        encoded_options: Seq<u8>,
    ) -> ManagerOutcome {
        match decode_options(encoded_options) {
            Err(reason) => (self, Err(reason)),
            Ok(options) => if !self.channels.contains_key(local_cid) {
                (
                    self,
                    Err("configuration request for unknown CID "@ + hex_number(local_cid as u32)),
                )
            } else {
                let channel = self.channels[local_cid];
                let seen = NegotiationV::start(channel.peer_mtu).reviewed_all(
                    options,
                    channel.mode,
                );
                let settlement = settled(channel, flags, seen);
                let updated = self.with_channel(local_cid, settlement.channel);
                match settlement.fault {
                    Some(reason) => (updated, Err(reason)),
                    None => match checked_options(settlement.response) {
                        Err(reason) => (updated, Err(reason)),
                        Ok(options) => (
                            updated.control_queued(
                                ControlFrameV::ConfigureResponse {
                                    identifier,
                                    source_cid: channel.destination_cid,
                                    flags: 0,
                                    result: settlement.result,
                                    options,
                                },
                            ).opened(local_cid),
                            Ok(()),
                        ),
                    },
                }
            },
        }
    }

    /// The peer answers this end's configuration.
    #[verifier::opaque]
    pub open spec fn configure_response_received(
        self,
        local_cid: u16,
        result: u16,
    ) -> ManagerOutcome {
        if !self.channels.contains_key(local_cid) {
            (
                self,
                Err("configuration response for unknown CID "@ + hex_number(local_cid as u32)),
            )
        } else {
            let channel = self.channels[local_cid];
            let updated = if result == CONFIGURATION_SUCCESS {
                ClassicChannelV { configuration_response_received: true, ..channel }
            } else {
                ClassicChannelV {
                    connection_result: Some(result),
                    state: ClassicChannelState::Closed,
                    ..channel
                }
            };
            (self.with_channel(local_cid, updated).opened(local_cid), Ok(()))
        }
    }

    /// The peer closes a channel.
    #[verifier::opaque]
    pub open spec fn disconnection_request_received(
        self,
        identifier: u8,
        local_cid: u16,
        remote_cid: u16,
    ) -> ManagerOutcome {
        if !self.channels.contains_key(local_cid) {
            (
                self,
                Err("disconnection request for unknown CID "@ + hex_number(local_cid as u32)),
            )
        } else {
            let channel = self.channels[local_cid];
            if channel.destination_cid != remote_cid {
                (self, Err("disconnection CID mismatch"@))
            } else {
                (
                    self.with_channel(
                        local_cid,
                        ClassicChannelV { state: ClassicChannelState::Closed, ..channel },
                    ).control_queued(
                        ControlFrameV::DisconnectionResponse {
                            identifier,
                            destination_cid: local_cid,
                            source_cid: remote_cid,
                        },
                    ),
                    Ok(()),
                )
            }
        }
    }

    /// The peer confirms that a channel is closed.
    #[verifier::opaque]
    pub open spec fn disconnection_response_received(
        self,
        destination_cid: u16,
        source_cid: u16,
    ) -> ManagerOutcome {
        if !self.channels.contains_key(source_cid) {
            (
                self,
                Err("disconnection response for unknown CID "@ + hex_number(source_cid as u32)),
            )
        } else {
            let channel = self.channels[source_cid];
            if channel.destination_cid != destination_cid {
                (self, Err("disconnection CID mismatch"@))
            } else {
                (
                    self.with_channel(
                        source_cid,
                        ClassicChannelV { state: ClassicChannelState::Closed, ..channel },
                    ),
                    Ok(()),
                )
            }
        }
    }

    /// A signaling frame came.
    #[verifier::opaque]
    pub open spec fn control_received(self, frame: ControlFrameV) -> ManagerOutcome {
        match frame {
            ControlFrameV::ConnectionRequest { identifier, psm, source_cid } =>
            self.connection_request_received(identifier, psm, source_cid),
            ControlFrameV::ConnectionResponse { destination_cid, source_cid, result, .. } =>
            self.connection_response_received(destination_cid, source_cid, result),
            ControlFrameV::ConfigureRequest { identifier, destination_cid, flags, options } =>
            self.configure_request_received(identifier, destination_cid, flags, options),
            ControlFrameV::ConfigureResponse { source_cid, result, .. } =>
            self.configure_response_received(source_cid, result),
            ControlFrameV::DisconnectionRequest { identifier, destination_cid, source_cid } =>
            self.disconnection_request_received(identifier, destination_cid, source_cid),
            ControlFrameV::DisconnectionResponse { destination_cid, source_cid, .. } =>
            self.disconnection_response_received(destination_cid, source_cid),
            ControlFrameV::EchoRequest { identifier, data } => (
                self.control_queued(ControlFrameV::EchoResponse { identifier, data }),
                Ok(()),
            ),
            ControlFrameV::InformationRequest { identifier, info_type } => (
                self.control_queued(self.information.answer(identifier, info_type)),
                Ok(()),
            ),
            ControlFrameV::InformationResponse { identifier, info_type, result, data } => (
                ChannelManagerV {
                    information_responses: self.information_responses.push(
                        InformationResponseV { identifier, info_type, result, data },
                    ),
                    ..self
                },
                Ok(()),
            ),
            _ => (self, Ok(())),
        }
    }

    /// What an engine has to send and to deliver leaves it.
    #[verifier::opaque]
    pub open spec fn flushed(self, local_cid: u16) -> ManagerOutcome {
        if !self.channels.contains_key(local_cid) {
            (self, Err(missing_channel(local_cid)))
        } else {
            let channel = self.channels[local_cid];
            match channel.ertm {
                None => (self, Err("channel is not using ERTM"@)),
                Some(engine) => {
                    let (pdus, result) = framed(
                        engine.outbound,
                        channel.destination_cid,
                        channel.fcs_enabled,
                    );
                    let updated = ClassicChannelV {
                        ertm: Some(ErtmEngineV { outbound: seq![], received: seq![], ..engine }),
                        received: channel.received + engine.received,
                        ..channel
                    };
                    (
                        ChannelManagerV {
                            channels: self.channels.insert(local_cid, updated),
                            outbound: self.outbound + pdus,
                            ..self
                        },
                        result,
                    )
                },
            }
        }
    }

    /// The engine of a channel did something; its output leaves it unless that failed.
    pub open spec fn engine_stepped(
        self,
        local_cid: u16,
        step: (ErtmEngineV, Result<(), Seq<char>>),
    ) -> ManagerOutcome {
        let stepped = self.with_channel(
            local_cid,
            ClassicChannelV { ertm: Some(step.0), ..self.channels[local_cid] },
        );
        match step.1 {
            Err(reason) => (stepped, Err(reason)),
            Ok(_) => stepped.flushed(local_cid),
        }
    }

    /// A unit came on a channel.
    #[verifier::opaque]
    pub open spec fn data_received(self, local_cid: u16, payload: Seq<u8>) -> ManagerOutcome {
        let channel = self.channels[local_cid];
        if !self.channels.contains_key(local_cid) {
            (self, Err(missing_channel(local_cid)))
        } else if channel.state != ClassicChannelState::Open {
            (self, Err("channel "@ + hex_number(local_cid as u32) + " is not open"@))
        } else {
            match channel.ertm {
                Some(engine) => {
                    let body = if channel.fcs_enabled {
                        fcs_stripped(local_cid, payload)
                    } else {
                        Ok(payload)
                    };
                    match body {
                        Err(reason) => (self, Err(reason)),
                        Ok(body) => self.engine_stepped(local_cid, engine.frame_received(body)),
                    }
                },
                None => if payload.len() > channel.mtu {
                    (self, Err("incoming SDU exceeds channel MTU "@ + decimal(channel.mtu as nat)))
                } else {
                    (
                        self.with_channel(
                            local_cid,
                            ClassicChannelV { received: channel.received.push(payload), ..channel },
                        ),
                        Ok(()),
                    )
                },
            }
        }
    }

    /// A unit came, on the signaling channel or any other.
    pub open spec fn pdu_received(self, pdu: L2capPduV) -> ManagerOutcome {
        if pdu.cid == L2CAP_SIGNALING_CID {
            match ControlFrameV::decode(pdu.payload) {
                Err(reason) => (self, Err(reason)),
                Ok(frame) => self.control_received(frame),
            }
        } else {
            self.data_received(pdu.cid, pdu.payload)
        }
    }

    /// An SDU is sent on a channel.
    #[verifier::opaque]
    pub open spec fn sdu_sent(self, source_cid: u16, sdu: Seq<u8>) -> ManagerOutcome {
        let channel = self.channels[source_cid];
        if !self.channels.contains_key(source_cid) {
            (self, Err(missing_channel(source_cid)))
        } else if channel.state != ClassicChannelState::Open {
            (self, Err("channel not open"@))
        } else {
            match channel.ertm {
                Some(engine) => self.engine_stepped(source_cid, engine.sdu_sent(sdu)),
                None => if sdu.len() > channel.peer_mtu {
                    (self, Err("SDU exceeds peer MTU "@ + decimal(channel.peer_mtu as nat)))
                } else {
                    (
                        ChannelManagerV {
                            outbound: self.outbound.push(
                                L2capPduV { cid: channel.destination_cid, payload: sdu },
                            ),
                            ..self
                        },
                        Ok(()),
                    )
                },
            }
        }
    }

    /// This end closes a channel.
    pub open spec fn disconnection_requested(self, source_cid: u16) -> ManagerOutcome {
        let channel = self.channels[source_cid];
        if !self.channels.contains_key(source_cid) {
            (self, Err(missing_channel(source_cid)))
        } else if channel.state != ClassicChannelState::Open {
            (self, Err("channel not open"@))
        } else {
            let next = self.with_channel(
                source_cid,
                ClassicChannelV { state: ClassicChannelState::WaitDisconnect, ..channel },
            ).identified();
            (
                next.control_queued(
                    ControlFrameV::DisconnectionRequest {
                        identifier: next.identifier,
                        destination_cid: channel.destination_cid,
                        source_cid,
                    },
                ),
                Ok(()),
            )
        }
    }

    pub open spec fn has_engine(self, cid: u16) -> bool {
        self.channels.contains_key(cid) && self.channels[cid].ertm is Some
    }

    /// Time goes by for every engine, in the order of the channel identifiers
    /// from `from` on, up to the first that fails.
    pub open spec fn ticked_from(self, from: int, ticks: u32) -> ManagerOutcome
        decreases 65536 - from,
    {
        if from > 65535 {
            (self, Ok(()))
        } else if from >= 0 && self.has_engine(from as u16) {
            let (next, result) = self.engine_stepped(
                from as u16,
                self.channels[from as u16].ertm->0.ticked(ticks),
            );
            match result {
                Err(reason) => (next, Err(reason)),
                Ok(_) => next.ticked_from(from + 1, ticks),
            }
        } else {
            self.ticked_from(from + 1, ticks)
        }
    }

    /// The receiving side of a channel became busy, or free again.
    pub open spec fn busy_set(self, source_cid: u16, busy: bool) -> ManagerOutcome {
        if !self.channels.contains_key(source_cid) {
            (self, Err(missing_channel(source_cid)))
        } else {
            match self.channels[source_cid].ertm {
                None => (self, Err("channel is not using ERTM"@)),
                Some(engine) => self.engine_stepped(source_cid, engine.busy_set(busy)),
            }
        }
    }
}

/// The channels of one link.
#[derive(Debug)]
pub struct ChannelManager {
    servers: BTreeMap<u32, ChannelSpec>,
    channels: Table<ClassicChannel>,
    accepted_channels: VecDeque<u16>,
    outbound: VecDeque<L2capPdu>,
    information: InformationCapabilities,
    information_responses: VecDeque<InformationResponse>,
    identifier: u8,
}

/// The contents of a list of units.
pub open spec fn pdu_views(pdus: Seq<L2capPdu>) -> Seq<L2capPduV> {
    pdus.map_values(|pdu: L2capPdu| pdu@)
}

/// The contents of a list of information responses.
pub open spec fn response_views(responses: Seq<InformationResponse>) -> Seq<InformationResponseV> {
    responses.map_values(|response: InformationResponse| response@)
}

impl View for ChannelManager {
    type V = ChannelManagerV;

    closed spec fn view(&self) -> ChannelManagerV {
        ChannelManagerV {
            servers: self.servers@,
            channels: self.channels@,
            accepted_channels: self.accepted_channels@,
            outbound: pdu_views(self.outbound@),
            information: self.information,
            information_responses: response_views(self.information_responses@),
            identifier: self.identifier,
        }
    }
}

impl Default for ChannelManager {
    fn default() -> (manager: Self)
        ensures
            manager@ == ChannelManagerV::initial(InformationCapabilities::initial()),
    {
        ChannelManager::with_information_capabilities(InformationCapabilities::default())
    }
}

impl ChannelManager {
    pub fn new() -> (manager: Self)
        ensures
            manager@ == ChannelManagerV::initial(InformationCapabilities::initial()),
    {
        ChannelManager::default()
    }

    pub fn with_information_capabilities(information: InformationCapabilities) -> (manager: Self)
        ensures
            manager@ == ChannelManagerV::initial(information),
    {
        let manager = ChannelManager {
            servers: BTreeMap::new(),
            channels: Table::new(),
            accepted_channels: VecDeque::new(),
            outbound: VecDeque::new(),
            information,
            information_responses: VecDeque::new(),
            identifier: 0,
        };
        let ghost model = ChannelManagerV::initial(information);
        assert(manager@.servers =~= model.servers);
        assert(manager@.accepted_channels =~= model.accepted_channels);
        assert(manager@.outbound =~= model.outbound);
        assert(manager@.information_responses =~= model.information_responses);
        manager
    }

    pub fn information_capabilities(&self) -> (information: &InformationCapabilities)
        ensures
            *information == self@.information,
    {
        &self.information
    }

    fn next_identifier(&mut self) -> (identifier: u8)
        ensures
            final(self)@ == old(self)@.identified(),
            identifier == final(self)@.identifier,
    {
        self.identifier = if self.identifier == 255 {
            1
        } else {
            self.identifier + 1
        };
        self.identifier
    }

    fn queue_control(&mut self, frame: ControlFrame)
        ensures
            final(self)@ == old(self)@.control_queued(frame@),
    {
        let pdu = L2capPdu::new(L2CAP_SIGNALING_CID, frame.to_bytes());
        self.queue_pdu(pdu);
    }

    fn queue_pdu(&mut self, pdu: L2capPdu)
        ensures
            final(self)@ == (ChannelManagerV {
                outbound: old(self)@.outbound.push(pdu@),
                ..old(self)@
            }),
    {
        let ghost model = pdu@;
        self.outbound.push_back(pdu);
        assert(self@.outbound =~= old(self)@.outbound.push(model));
    }

    /// Asks the peer about itself, and returns the identifier its answer will have.
    pub fn request_information(&mut self, info_type: u16) -> (identifier: u8)
        ensures
            final(self)@ == old(self)@.information_requested(info_type),
            identifier == final(self)@.identifier,
    {
        let identifier: u8 = self.next_identifier();
        self.queue_control(ControlFrame::InformationRequest { identifier, info_type });
        identifier
    }

    /// Takes the next information response that came.
    pub fn poll_information_response(&mut self) -> (response: Option<InformationResponse>)
        ensures
            match response {
                Some(response) => first_of(old(self)@.information_responses) == Some(response@),
                None => old(self)@.information_responses.len() == 0,
            },
            final(self)@ == (ChannelManagerV {
                information_responses: rest_of(old(self)@.information_responses),
                ..old(self)@
            }),
    {
        let response = self.information_responses.pop_front();
        assert(self@.information_responses =~= rest_of(old(self)@.information_responses));
        response
    }

    /// Takes all information responses that came, in order.
    pub fn drain_information_responses(&mut self) -> (responses: Vec<InformationResponse>)
        ensures
            response_views(responses@) == old(self)@.information_responses,
            final(self)@ == (ChannelManagerV { information_responses: seq![], ..old(self)@ }),
    {
        let ghost start = self@;
        let mut responses: Vec<InformationResponse> = Vec::new();
        assert(start.information_responses =~= response_views(responses@)
            + self@.information_responses);
        while self.information_responses.len() > 0
            invariant
                start.information_responses == response_views(responses@)
                    + self@.information_responses,
                self@ == (ChannelManagerV {
                    information_responses: self@.information_responses,
                    ..start
                }),
            decreases self.information_responses@.len(),
        {
            let ghost before = self.information_responses@;
            let ghost taken = responses@;
            match self.information_responses.pop_front() {
                None => {},
                Some(response) => {
                    responses.push(response);
                    assert(response_views(responses@) =~= response_views(taken).push(before[0]@));
                    assert(response_views(self.information_responses@) =~= response_views(
                        before,
                    ).skip(1));
                    assert(start.information_responses =~= response_views(responses@)
                        + response_views(self.information_responses@));
                },
            }
        }
        assert(self@.information_responses =~= seq![]);
        assert(start.information_responses =~= response_views(responses@));
        responses
    }

    /// Registers a basic mode server. Without a PSM the least free valid dynamic
    /// PSM is taken.
    pub fn register_server(&mut self, psm: Option<u32>, spec: ClassicChannelSpec) -> (result:
        Result<u32, Error>)
        ensures
            match spec_fault(spec) {
                Some(reason) => final(self)@ == old(self)@ && agrees(
                    result,
                    Err::<u32, Seq<char>>(reason),
                ),
                None => final(self)@ == old(self)@.registered(psm, ChannelSpec::Basic(spec)).0
                    && agrees(result, old(self)@.registered(psm, ChannelSpec::Basic(spec)).1),
            },
    {
        match validate_spec(spec) {
            Err(error) => Err(error),
            Ok(()) => self.register_server_with_spec(psm, ChannelSpec::Basic(spec)),
        }
    }

    /// Registers an enhanced retransmission mode server. Without a PSM the least
    /// free valid dynamic PSM is taken.
    pub fn register_ertm_server(&mut self, psm: Option<u32>, spec: ErtmChannelSpec) -> (result:
        Result<u32, Error>)
        ensures
            match ertm_spec_fault(spec) {
                Some(reason) => final(self)@ == old(self)@ && agrees(
                    result,
                    Err::<u32, Seq<char>>(reason),
                ),
                None => final(self)@ == old(self)@.registered(psm, ChannelSpec::Ertm(spec)).0
                    && agrees(result, old(self)@.registered(psm, ChannelSpec::Ertm(spec)).1),
            },
    {
        match validate_ertm_spec(spec) {
            Err(error) => Err(error),
            Ok(()) => self.register_server_with_spec(psm, ChannelSpec::Ertm(spec)),
        }
    }

    fn dynamic_psm(&self) -> (found: Option<u32>)
        ensures
            found == least_free_psm(self@.servers, L2CAP_PSM_DYNAMIC_RANGE_START as int),
    {
        broadcast use vstd::std_specs::btree::group_btree_axioms;

        let mut candidate: u32 = L2CAP_PSM_DYNAMIC_RANGE_START;
        while candidate <= L2CAP_PSM_DYNAMIC_RANGE_END
            invariant
                candidate <= 65537,
                least_free_psm(self@.servers, candidate as int) == least_free_psm(
                    self@.servers,
                    L2CAP_PSM_DYNAMIC_RANGE_START as int,
                ),
            decreases 65538 - candidate,
        {
            if validate_psm(candidate).is_ok() && !self.servers.contains_key(&candidate) {
                return Some(candidate);
            }
            candidate = candidate + 2;
        }
        None
    }

    fn register_server_with_spec(&mut self, psm: Option<u32>, spec: ChannelSpec) -> (result: Result<
        u32,
        Error,
    >)
        ensures
            final(self)@ == old(self)@.registered(psm, spec).0,
            agrees(result, old(self)@.registered(psm, spec).1),
    {
        broadcast use vstd::std_specs::btree::group_btree_axioms;

        let chosen: u32 = match psm {
            Some(psm) => match validate_psm(psm) {
                Err(error) => {
                    return Err(error);
                },
                Ok(()) => psm,
            },
            None => match self.dynamic_psm() {
                None => {
                    return Err(Error::new("no free Classic PSM"));
                },
                Some(psm) => psm,
            },
        };
        if self.servers.contains_key(&chosen) {
            let mut reason = "PSM ".to_owned();
            reason.append(plain_hex_text(chosen).as_str());
            reason.append(" is already in use");
            return Err(Error::InvalidPacket(reason));
        }
        self.servers.insert(chosen, spec);
        Ok(chosen)
    }

    /// Withdraws a server, and says whether there was one.
    pub fn unregister_server(&mut self, psm: u32) -> (found: bool)
        ensures
            found == old(self)@.servers.contains_key(psm),
            final(self)@ == (ChannelManagerV {
                servers: old(self)@.servers.remove(psm),
                ..old(self)@
            }),
    {
        broadcast use vstd::std_specs::btree::group_btree_axioms;

        self.servers.remove(&psm).is_some()
    }

    fn allocate_cid(&self) -> (result: Result<u16, Error>)
        ensures
            match result {
                Ok(cid) => self@.free_cid() == Some(cid),
                Err(error) => self@.free_cid() is None && error@ == "no free Classic CID"@,
            },
    {
        let mut cid: u32 = L2CAP_ACL_U_DYNAMIC_CID_RANGE_START as u32;
        while cid <= L2CAP_ACL_U_DYNAMIC_CID_RANGE_END as u32
            invariant
                cid <= 65536,
                least_free_cid(self@.channels, cid as int) == self@.free_cid(),
            decreases 65536 - cid,
        {
            if !self.channels.contains(cid as u16) {
                return Ok(cid as u16);
            }
            cid = cid + 1;
        }
        Err(Error::new("no free Classic CID"))
    }

    /// Asks for a basic mode channel, and returns its local identifier.
    pub fn connect(&mut self, psm: u32, spec: ClassicChannelSpec) -> (result: Result<u16, Error>)
        ensures
            final(self)@ == old(self)@.connect_outcome(
                psm,
                spec_fault(spec),
                ChannelSpec::Basic(spec),
            ).0,
            agrees(
                result,
                old(self)@.connect_outcome(psm, spec_fault(spec), ChannelSpec::Basic(spec)).1,
            ),
    {
        match validate_psm(psm) {
            Err(error) => {
                return Err(error);
            },
            Ok(()) => {},
        }
        match validate_spec(spec) {
            Err(error) => Err(error),
            Ok(()) => self.connect_with_spec(psm, ChannelSpec::Basic(spec)),
        }
    }

    /// Asks for an enhanced retransmission mode channel, and returns its local identifier.
    pub fn connect_ertm(&mut self, psm: u32, spec: ErtmChannelSpec) -> (result: Result<u16, Error>)
        ensures
            final(self)@ == old(self)@.connect_outcome(
                psm,
                ertm_spec_fault(spec),
                ChannelSpec::Ertm(spec),
            ).0,
            agrees(
                result,
                old(self)@.connect_outcome(psm, ertm_spec_fault(spec), ChannelSpec::Ertm(spec)).1,
            ),
    {
        match validate_psm(psm) {
            Err(error) => {
                return Err(error);
            },
            Ok(()) => {},
        }
        match validate_ertm_spec(spec) {
            Err(error) => Err(error),
            Ok(()) => self.connect_with_spec(psm, ChannelSpec::Ertm(spec)),
        }
    }

    fn connect_with_spec(&mut self, psm: u32, spec: ChannelSpec) -> (result: Result<u16, Error>)
        ensures
            final(self)@ == old(self)@.connection_requested(psm, spec).0,
            agrees(result, old(self)@.connection_requested(psm, spec).1),
    {
        let source_cid: u16 = match self.allocate_cid() {
            Err(error) => {
                return Err(error);
            },
            Ok(cid) => cid,
        };
        let identifier: u8 = self.next_identifier();
        self.channels.put(source_cid, ClassicChannel::outgoing(psm, source_cid, spec));
        self.queue_control(ControlFrame::ConnectionRequest { identifier, psm, source_cid });
        Ok(source_cid)
    }

    pub fn channel(&self, source_cid: u16) -> (channel: Option<&ClassicChannel>)
        ensures
            match channel {
                Some(channel) => self@.channels.contains_key(source_cid) && channel@
                    == self@.channels[source_cid],
                None => !self@.channels.contains_key(source_cid),
            },
    {
        self.channels.get(source_cid)
    }

    pub fn channel_mut(&mut self, source_cid: u16) -> (channel: Option<&mut ClassicChannel>)
        ensures
            match channel {
                Some(channel) => old(self)@.channels.contains_key(source_cid) && channel@ == old(self)@.channels[source_cid] && final(self)@ == old(self)@.with_channel(
                    source_cid,
                    final(channel)@,
                ),
                None => !old(self)@.channels.contains_key(source_cid) && final(self)@ == old(self)@,
            },
    {
        self.channels.get_mut(source_cid)
    }

    /// Takes the next channel of the peer's that completed configuration.
    pub fn poll_accepted_channel(&mut self) -> (cid: Option<u16>)
        ensures
            cid == first_of(old(self)@.accepted_channels),
            final(self)@ == (ChannelManagerV {
                accepted_channels: rest_of(old(self)@.accepted_channels),
                ..old(self)@
            }),
    {
        let cid = self.accepted_channels.pop_front();
        assert(self@.accepted_channels =~= rest_of(old(self)@.accepted_channels));
        cid
    }

    /// Takes the next unit to send.
    pub fn poll_outbound(&mut self) -> (pdu: Option<L2capPdu>)
        ensures
            match pdu {
                Some(pdu) => first_of(old(self)@.outbound) == Some(pdu@),
                None => old(self)@.outbound.len() == 0,
            },
            final(self)@ == (ChannelManagerV {
                outbound: rest_of(old(self)@.outbound),
                ..old(self)@
            }),
    {
        let pdu = self.outbound.pop_front();
        assert(self@.outbound =~= rest_of(old(self)@.outbound));
        pdu
    }

    /// Takes all units to send, in order.
    pub fn drain_outbound(&mut self) -> (pdus: Vec<L2capPdu>)
        ensures
            pdu_views(pdus@) == old(self)@.outbound,
            final(self)@ == (ChannelManagerV { outbound: seq![], ..old(self)@ }),
    {
        let ghost start = self@;
        let mut pdus: Vec<L2capPdu> = Vec::new();
        assert(start.outbound =~= pdu_views(pdus@) + self@.outbound);
        while self.outbound.len() > 0
            invariant
                start.outbound == pdu_views(pdus@) + self@.outbound,
                self@ == (ChannelManagerV { outbound: self@.outbound, ..start }),
            decreases self.outbound@.len(),
        {
            let ghost before = self.outbound@;
            let ghost taken = pdus@;
            match self.outbound.pop_front() {
                None => {},
                Some(pdu) => {
                    pdus.push(pdu);
                    assert(pdu_views(pdus@) =~= pdu_views(taken).push(before[0]@));
                    assert(pdu_views(self.outbound@) =~= pdu_views(before).skip(1));
                    assert(start.outbound =~= pdu_views(pdus@) + pdu_views(self.outbound@));
                },
            }
        }
        assert(self@.outbound =~= seq![]);
        assert(start.outbound =~= pdu_views(pdus@));
        pdus
    }
}

impl ChannelManagerV {
    /// A connection to a PSM is asked for with a specification that may be refused.
    pub open spec fn connect_outcome(
        self,
        psm: u32,
        fault: Option<Seq<char>>,
        spec: ChannelSpec,
    ) -> (ChannelManagerV, Result<u16, Seq<char>>) {
        if !valid_psm(psm) {
            (self, Err("invalid Classic PSM"@))
        } else if fault is Some {
            (self, Err(fault->0))
        } else {
            self.connection_requested(psm, spec)
        }
    }
}

impl ChannelManager {
    fn missing_channel_error(cid: u16) -> (error: Error)
        ensures
            error@ == missing_channel(cid),
    {
        Error::InvalidPacket(with_hex("channel not found for CID ", cid as u32))
    }

    fn queue_configure_request(&mut self, local_cid: u16) -> (result: Result<(), Error>)
        ensures
            final(self)@ == old(self)@.configuration_requested(local_cid).0,
            agrees(result, old(self)@.configuration_requested(local_cid).1),
    {
        let (remote_cid, spec) = match self.channels.get(local_cid) {
            None => {
                return Err(ChannelManager::missing_channel_error(local_cid));
            },
            Some(channel) => (channel.destination_cid, channel.spec),
        };
        let identifier: u8 = self.next_identifier();
        let mut options: Vec<ConfigurationOption> = Vec::new();
        let mut mtu: Vec<u8> = Vec::new();
        push_le16(&mut mtu, spec.mtu());
        assert(mtu@ =~= le16(spec.spec_mtu()));
        options.push(new_option(CONFIGURATION_OPTION_MTU, mtu));
        match spec {
            ChannelSpec::Basic(_) => {},
            ChannelSpec::Ertm(ertm) => {
                options.push(
                    new_option(
                        CONFIGURATION_OPTION_RETRANSMISSION_AND_FLOW_CONTROL,
                        encode_ertm_option(ertm),
                    ),
                );
                if ertm.fcs_enabled {
                    let mut flag: Vec<u8> = Vec::new();
                    flag.push(1);
                    assert(flag@ =~= seq![1u8]);
                    options.push(new_option(CONFIGURATION_OPTION_FCS, flag));
                }
            },
        }
        assert(option_views(options@) =~= own_options(spec));
        match encode_configuration_options(&options) {
            Err(error) => Err(error),
            Ok(options) => {
                self.queue_control(
                    ControlFrame::ConfigureRequest {
                        identifier,
                        destination_cid: remote_cid,
                        flags: 0,
                        options,
                    },
                );
                Ok(())
            },
        }
    }

    fn refuse_connection(&mut self, identifier: u8, remote_cid: u16, result: u16)
        ensures
            final(self)@ == old(self)@.connection_refused(identifier, remote_cid, result),
    {
        self.queue_control(
            ControlFrame::ConnectionResponse {
                identifier,
                destination_cid: 0,
                source_cid: remote_cid,
                result,
                status: 0,
            },
        );
    }

    fn on_connection_request(&mut self, identifier: u8, psm: u32, remote_cid: u16) -> (result:
        Result<(), Error>)
        ensures
            final(self)@ == old(self)@.connection_request_received(identifier, psm, remote_cid).0,
            agrees(
                result,
                old(self)@.connection_request_received(identifier, psm, remote_cid).1,
            ),
    {
        reveal(ChannelManagerV::connection_request_received);
        broadcast use vstd::std_specs::btree::group_btree_axioms;

        let spec = match self.servers.get(&psm) {
            None => {
                self.refuse_connection(
                    identifier,
                    remote_cid,
                    CONNECTION_REFUSED_PSM_NOT_SUPPORTED,
                );
                return Ok(());
            },
            Some(spec) => *spec,
        };
        let local_cid: u16 = match self.allocate_cid() {
            Err(_) => {
                self.refuse_connection(
                    identifier,
                    remote_cid,
                    CONNECTION_REFUSED_NO_RESOURCES_AVAILABLE,
                );
                return Ok(());
            },
            Ok(cid) => cid,
        };
        self.channels.put(local_cid, ClassicChannel::incoming(psm, local_cid, remote_cid, spec));
        self.queue_control(
            ControlFrame::ConnectionResponse {
                identifier,
                destination_cid: local_cid,
                source_cid: remote_cid,
                result: CONNECTION_SUCCESSFUL,
                status: 0,
            },
        );
        self.queue_configure_request(local_cid)
    }

    fn on_connection_response(&mut self, destination_cid: u16, source_cid: u16, result: u16) -> (r:
        Result<(), Error>)
        ensures
            final(self)@ == old(self)@.connection_response_received(
                destination_cid,
                source_cid,
                result,
            ).0,
            agrees(
                r,
                old(self)@.connection_response_received(destination_cid, source_cid, result).1,
            ),
    {
        reveal(ChannelManagerV::connection_response_received);
        match self.channels.get(source_cid) {
            None => {
                return Err(
                    Error::InvalidPacket(
                        with_hex("connection response for unknown CID ", source_cid as u32),
                    ),
                );
            },
            Some(channel) => {
                if channel.state != ClassicChannelState::WaitConnectResponse {
                    return Err(Error::new("connection response in invalid state"));
                }
            },
        }
        match self.channels.get_mut(source_cid) {
            None => {},
            Some(channel) => {
                channel.connection_result = Some(result);
                if result != CONNECTION_SUCCESSFUL {
                    channel.state = ClassicChannelState::Closed;
                } else {
                    channel.destination_cid = destination_cid;
                    channel.state = ClassicChannelState::Configuring;
                }
            },
        }
        if result != CONNECTION_SUCCESSFUL {
            return Ok(());
        }
        self.queue_configure_request(source_cid)
    }

    fn maybe_open(&mut self, local_cid: u16)
        ensures
            final(self)@ == old(self)@.opened(local_cid),
    {
        reveal(ChannelManagerV::opened);
        let announced = match self.channels.get(local_cid) {
            None => {
                return;
            },
            Some(channel) => {
                if !(channel.peer_configuration_received && channel.configuration_response_received
                    && channel.state == ClassicChannelState::Configuring) {
                    return;
                }
                channel.incoming && !channel.open_announced
            },
        };
        match self.channels.get_mut(local_cid) {
            None => {},
            Some(channel) => {
                channel.state = ClassicChannelState::Open;
                if announced {
                    channel.open_announced = true;
                }
            },
        }
        if announced {
            self.accepted_channels.push_back(local_cid);
        }
    }

    fn on_configure_request(
        &mut self,
        identifier: u8,
        local_cid: u16,
        flags: u16,
        encoded_options: &[u8],
    ) -> (result: Result<(), Error>)
        ensures
            final(self)@ == old(self)@.configure_request_received(
                identifier,
                local_cid,
                flags,
                encoded_options@,
            ).0,
            agrees(
                result,
                old(self)@.configure_request_received(
                    identifier,
                    local_cid,
                    flags,
                    encoded_options@,
                ).1,
            ),
    {
        reveal(ChannelManagerV::configure_request_received);
        let options = match decode_configuration_options(encoded_options) {
            Err(error) => {
                return Err(error);
            },
            Ok(options) => options,
        };
        let (remote_cid, mode, peer_mtu) = match self.channels.get(local_cid) {
            None => {
                return Err(
                    Error::InvalidPacket(
                        with_hex("configuration request for unknown CID ", local_cid as u32),
                    ),
                );
            },
            Some(channel) => (channel.destination_cid, channel.mode, channel.peer_mtu),
        };
        let seen = review_options(&options, mode, peer_mtu);
        let settled = match self.channels.get_mut(local_cid) {
            None => {
                return Err(Error::new("configuration request for unknown CID"));
            },
            Some(channel) => channel.settle(flags, seen),
        };
        let answer = match settled {
            Err(error) => {
                return Err(error);
            },
            Ok(answer) => answer,
        };
        match encode_configuration_options(&answer.response) {
            Err(error) => {
                return Err(error);
            },
            Ok(options) => {
                self.queue_control(
                    ControlFrame::ConfigureResponse {
                        identifier,
                        source_cid: remote_cid,
                        flags: 0,
                        result: answer.result,
                        options,
                    },
                );
            },
        }
        self.maybe_open(local_cid);
        Ok(())
    }

    fn on_configure_response(&mut self, local_cid: u16, result: u16) -> (r: Result<(), Error>)
        ensures
            final(self)@ == old(self)@.configure_response_received(local_cid, result).0,
            agrees(r, old(self)@.configure_response_received(local_cid, result).1),
    {
        reveal(ChannelManagerV::configure_response_received);
        match self.channels.get_mut(local_cid) {
            None => {
                return Err(
                    Error::InvalidPacket(
                        with_hex("configuration response for unknown CID ", local_cid as u32),
                    ),
                );
            },
            Some(channel) => {
                if result == CONFIGURATION_SUCCESS {
                    channel.configuration_response_received = true;
                } else {
                    channel.connection_result = Some(result);
                    channel.state = ClassicChannelState::Closed;
                }
            },
        }
        self.maybe_open(local_cid);
        Ok(())
    }

    fn on_disconnection_request(&mut self, identifier: u8, local_cid: u16, remote_cid: u16) -> (r:
        Result<(), Error>)
        ensures
            final(self)@ == old(self)@.disconnection_request_received(
                identifier,
                local_cid,
                remote_cid,
            ).0,
            agrees(
                r,
                old(self)@.disconnection_request_received(identifier, local_cid, remote_cid).1,
            ),
    {
        reveal(ChannelManagerV::disconnection_request_received);
        match self.channels.get(local_cid) {
            None => {
                return Err(
                    Error::InvalidPacket(
                        with_hex("disconnection request for unknown CID ", local_cid as u32),
                    ),
                );
            },
            Some(channel) => {
                if channel.destination_cid != remote_cid {
                    return Err(Error::new("disconnection CID mismatch"));
                }
            },
        }
        self.set_state(local_cid, ClassicChannelState::Closed);
        self.queue_control(
            ControlFrame::DisconnectionResponse {
                identifier,
                destination_cid: local_cid,
                source_cid: remote_cid,
            },
        );
        Ok(())
    }

    fn on_disconnection_response(&mut self, destination_cid: u16, source_cid: u16) -> (r: Result<
        (),
        Error,
    >)
        ensures
            final(self)@ == old(self)@.disconnection_response_received(
                destination_cid,
                source_cid,
            ).0,
            agrees(r, old(self)@.disconnection_response_received(destination_cid, source_cid).1),
    {
        reveal(ChannelManagerV::disconnection_response_received);
        match self.channels.get(source_cid) {
            None => {
                return Err(
                    Error::InvalidPacket(
                        with_hex("disconnection response for unknown CID ", source_cid as u32),
                    ),
                );
            },
            Some(channel) => {
                if channel.destination_cid != destination_cid {
                    return Err(Error::new("disconnection CID mismatch"));
                }
            },
        }
        self.set_state(source_cid, ClassicChannelState::Closed);
        Ok(())
    }

    fn set_state(&mut self, cid: u16, state: ClassicChannelState)
        requires
            old(self)@.channels.contains_key(cid),
        ensures
            final(self)@ == old(self)@.with_channel(
                cid,
                (ClassicChannelV { state, ..old(self)@.channels[cid] }),
            ),
    {
        match self.channels.get_mut(cid) {
            None => {},
            Some(channel) => {
                channel.state = state;
            },
        }
    }

    fn process_control(&mut self, frame: ControlFrame) -> (r: Result<(), Error>)
        ensures
            final(self)@ == old(self)@.control_received(frame@).0,
            agrees(r, old(self)@.control_received(frame@).1),
    {
        reveal(ChannelManagerV::control_received);
        match frame {
            ControlFrame::ConnectionRequest { identifier, psm, source_cid } => {
                self.on_connection_request(identifier, psm, source_cid)
            },
            ControlFrame::ConnectionResponse { destination_cid, source_cid, result, .. } => {
                self.on_connection_response(destination_cid, source_cid, result)
            },
            ControlFrame::ConfigureRequest { identifier, destination_cid, flags, options } => {
                self.on_configure_request(identifier, destination_cid, flags, &options)
            },
            ControlFrame::ConfigureResponse { source_cid, result, .. } => {
                self.on_configure_response(source_cid, result)
            },
            ControlFrame::DisconnectionRequest { identifier, destination_cid, source_cid } => {
                self.on_disconnection_request(identifier, destination_cid, source_cid)
            },
            ControlFrame::DisconnectionResponse { destination_cid, source_cid, .. } => {
                self.on_disconnection_response(destination_cid, source_cid)
            },
            ControlFrame::EchoRequest { identifier, data } => {
                self.queue_control(ControlFrame::EchoResponse { identifier, data });
                Ok(())
            },
            ControlFrame::InformationRequest { identifier, info_type } => {
                let answer = self.information.response(identifier, info_type);
                self.queue_control(answer);
                Ok(())
            },
            ControlFrame::InformationResponse { identifier, info_type, result, data } => {
                let response = InformationResponse { identifier, info_type, result, data };
                let ghost model = response@;
                self.information_responses.push_back(response);
                assert(self@.information_responses =~= old(self)@.information_responses.push(
                    model,
                ));
                Ok(())
            },
            _ => Ok(()),
        }
    }

    fn flush_ertm(&mut self, local_cid: u16) -> (r: Result<(), Error>)
        ensures
            final(self)@ == old(self)@.flushed(local_cid).0,
            agrees(r, old(self)@.flushed(local_cid).1),
    {
        reveal(ChannelManagerV::flushed);
        match self.channels.get(local_cid) {
            None => {
                return Err(ChannelManager::missing_channel_error(local_cid));
            },
            Some(channel) => {
                if channel.ertm.is_none() {
                    return Err(Error::new("channel is not using ERTM"));
                }
            },
        }
        match self.channels.get_mut(local_cid) {
            None => Err(ChannelManager::missing_channel_error(local_cid)),
            Some(channel) => {
                let destination_cid: u16 = channel.destination_cid;
                let fcs_enabled = channel.fcs_enabled;
                let frames = channel.drain_engine();
                self.queue_frames(frames, destination_cid, fcs_enabled)
            },
        }
    }

    fn queue_frames(&mut self, frames: Vec<Vec<u8>>, cid: u16, with_fcs: bool) -> (r: Result<
        (),
        Error,
    >)
        ensures
            final(self)@ == (ChannelManagerV {
                outbound: old(self)@.outbound + framed(buffers(frames@), cid, with_fcs).0,
                ..old(self)@
            }),
            agrees(r, framed(buffers(frames@), cid, with_fcs).1),
    {
        let ghost all = buffers(frames@);
        let ghost whole = framed(all, cid, with_fcs);
        let ghost start = self@;
        let mut index: usize = 0;
        assert(all.skip(0) =~= all);
        while index < frames.len()
            invariant
                index <= frames@.len(),
                all == buffers(frames@),
                whole == framed(all, cid, with_fcs),
                start == old(self)@,
                self@ == (ChannelManagerV { outbound: self@.outbound, ..start }),
                start.outbound + whole.0 == self@.outbound + framed(
                    all.skip(index as int),
                    cid,
                    with_fcs,
                ).0,
                whole.1 == framed(all.skip(index as int), cid, with_fcs).1,
            decreases frames@.len() - index,
        {
            let ghost rest = all.skip(index as int);
            assert(rest[0] == frames@[index as int]@);
            assert(rest.skip(1) =~= all.skip(index + 1));
            let frame = copy_bytes(&frames[index]);
            let payload = if with_fcs {
                match append_fcs(cid, frame) {
                    Err(error) => {
                        assert(self@.outbound + Seq::<L2capPduV>::empty() =~= self@.outbound);
                        return Err(error);
                    },
                    Ok(payload) => payload,
                }
            } else {
                frame
            };
            let ghost before = self@.outbound;
            let ghost pdu = L2capPduV { cid, payload: payload@ };
            self.queue_pdu(L2capPdu::new(cid, payload));
            assert(before.push(pdu) + framed(rest.skip(1), cid, with_fcs).0 =~= before + (seq![pdu]
                + framed(rest.skip(1), cid, with_fcs).0));
            index = index + 1;
        }
        assert(self@.outbound + Seq::<L2capPduV>::empty() =~= self@.outbound);
        Ok(())
    }

    /// Takes one unit from the peer, as bytes.
    pub fn process_bytes(&mut self, bytes: &[u8]) -> (result: Result<(), Error>)
        ensures
            match L2capPduV::decode(bytes@) {
                Err(reason) => final(self)@ == old(self)@ && agrees(
                    result,
                    Err::<(), Seq<char>>(reason),
                ),
                Ok(pdu) => final(self)@ == old(self)@.pdu_received(pdu).0 && agrees(
                    result,
                    old(self)@.pdu_received(pdu).1,
                ),
            },
    {
        match L2capPdu::from_bytes(bytes) {
            Err(error) => Err(error),
            Ok(pdu) => self.process_pdu(pdu),
        }
    }

    /// Takes one unit from the peer.
    pub fn process_pdu(&mut self, pdu: L2capPdu) -> (result: Result<(), Error>)
        ensures
            final(self)@ == old(self)@.pdu_received(pdu@).0,
            agrees(result, old(self)@.pdu_received(pdu@).1),
    {
        if pdu.cid == L2CAP_SIGNALING_CID {
            match ControlFrame::from_bytes(&pdu.payload) {
                Err(error) => Err(error),
                Ok(frame) => self.process_control(frame),
            }
        } else {
            self.process_data(pdu.cid, pdu.payload)
        }
    }

    fn process_data(&mut self, local_cid: u16, payload: Vec<u8>) -> (result: Result<(), Error>)
        ensures
            final(self)@ == old(self)@.data_received(local_cid, payload@).0,
            agrees(result, old(self)@.data_received(local_cid, payload@).1),
    {
        reveal(ChannelManagerV::data_received);
        let (engine, with_fcs, mtu) = match self.channels.get(local_cid) {
            None => {
                return Err(ChannelManager::missing_channel_error(local_cid));
            },
            Some(channel) => {
                if channel.state != ClassicChannelState::Open {
                    let mut reason = with_hex("channel ", local_cid as u32);
                    reason.append(" is not open");
                    return Err(Error::InvalidPacket(reason));
                }
                (channel.ertm.is_some(), channel.fcs_enabled, channel.mtu)
            },
        };
        if engine {
            let body = if with_fcs {
                match verify_and_strip_fcs(local_cid, &payload) {
                    Err(error) => {
                        return Err(error);
                    },
                    Ok(body) => body,
                }
            } else {
                payload
            };
            let stepped = match self.channels.get_mut(local_cid) {
                None => Ok(()),
                Some(channel) => channel.receive_frame(&body),
            };
            match stepped {
                Err(error) => Err(error),
                Ok(()) => self.flush_ertm(local_cid),
            }
        } else {
            if payload.len() > mtu as usize {
                return Err(
                    Error::InvalidPacket(
                        with_decimal("incoming SDU exceeds channel MTU ", mtu as u64),
                    ),
                );
            }
            match self.channels.get_mut(local_cid) {
                None => {},
                Some(channel) => {
                    channel.push_received(payload);
                },
            }
            Ok(())
        }
    }

    /// Sends an SDU on an open channel.
    pub fn send(&mut self, source_cid: u16, sdu: &[u8]) -> (result: Result<(), Error>)
        ensures
            final(self)@ == old(self)@.sdu_sent(source_cid, sdu@).0,
            agrees(result, old(self)@.sdu_sent(source_cid, sdu@).1),
    {
        reveal(ChannelManagerV::sdu_sent);
        let (engine, destination_cid, peer_mtu) = match self.channels.get(source_cid) {
            None => {
                return Err(ChannelManager::missing_channel_error(source_cid));
            },
            Some(channel) => {
                if channel.state != ClassicChannelState::Open {
                    return Err(Error::new("channel not open"));
                }
                (channel.ertm.is_some(), channel.destination_cid, channel.peer_mtu)
            },
        };
        if engine {
            let stepped = match self.channels.get_mut(source_cid) {
                None => Ok(()),
                Some(channel) => channel.send_sdu(sdu),
            };
            match stepped {
                Err(error) => Err(error),
                Ok(()) => self.flush_ertm(source_cid),
            }
        } else {
            if sdu.len() > peer_mtu as usize {
                return Err(
                    Error::InvalidPacket(with_decimal("SDU exceeds peer MTU ", peer_mtu as u64)),
                );
            }
            self.queue_pdu(L2capPdu::new(destination_cid, copy_bytes(sdu)));
            Ok(())
        }
    }

    /// Closes an open channel.
    pub fn disconnect(&mut self, source_cid: u16) -> (result: Result<(), Error>)
        ensures
            final(self)@ == old(self)@.disconnection_requested(source_cid).0,
            agrees(result, old(self)@.disconnection_requested(source_cid).1),
    {
        let destination_cid: u16 = match self.channels.get(source_cid) {
            None => {
                return Err(ChannelManager::missing_channel_error(source_cid));
            },
            Some(channel) => {
                if channel.state != ClassicChannelState::Open {
                    return Err(Error::new("channel not open"));
                }
                channel.destination_cid
            },
        };
        self.set_state(source_cid, ClassicChannelState::WaitDisconnect);
        let identifier: u8 = self.next_identifier();
        self.queue_control(
            ControlFrame::DisconnectionRequest { identifier, destination_cid, source_cid },
        );
        Ok(())
    }

    /// Says whether the receiving side of a channel can take frames.
    pub fn set_receiver_busy(&mut self, source_cid: u16, busy: bool) -> (result: Result<(), Error>)
        ensures
            final(self)@ == old(self)@.busy_set(source_cid, busy).0,
            agrees(result, old(self)@.busy_set(source_cid, busy).1),
    {
        match self.channels.get(source_cid) {
            None => {
                return Err(ChannelManager::missing_channel_error(source_cid));
            },
            Some(channel) => {
                if channel.ertm.is_none() {
                    return Err(Error::new("channel is not using ERTM"));
                }
            },
        }
        let stepped = match self.channels.get_mut(source_cid) {
            None => Ok(()),
            Some(channel) => channel.set_receiver_busy(busy),
        };
        match stepped {
            Err(error) => Err(error),
            Ok(()) => self.flush_ertm(source_cid),
        }
    }

    /// How many frames of an enhanced retransmission mode channel wait or are
    /// unacknowledged.
    pub fn ertm_pending_frames(&self, source_cid: u16) -> (count: Option<usize>)
        ensures
            count == (if self@.has_engine(source_cid) {
                Some(self@.channels[source_cid].ertm->0.frames_outstanding())
            } else {
                None
            }),
    {
        match self.channels.get(source_cid) {
            None => None,
            Some(channel) => match &channel.ertm {
                None => None,
                Some(engine) => Some(engine.pending_frames()),
            },
        }
    }

    /// Lets time go by for every enhanced retransmission mode channel.
    pub fn tick(&mut self, ticks: u32) -> (result: Result<(), Error>)
        ensures
            final(self)@ == old(self)@.ticked_from(0, ticks).0,
            agrees(result, old(self)@.ticked_from(0, ticks).1),
    {
        let cids = self.channels.keys();
        let ghost start = self@;
        let ghost mut next: int = 0;
        let mut index: usize = 0;
        while index < cids.len()
            invariant
                index <= cids@.len(),
                forall|i: int, j: int| 0 <= i < j < cids@.len() ==> cids@[i] < cids@[j],
                forall|cid: u16| #[trigger] self@.channels.contains_key(cid) <==> cids@.contains(cid),
                start == old(self)@,
                0 <= next <= 65536,
                index > 0 ==> next == cids@[index - 1] + 1,
                index == 0 ==> next == 0,
                start.ticked_from(0, ticks) == self@.ticked_from(next, ticks),
            decreases cids@.len() - index,
        {
            let cid: u16 = cids[index];
            proof {
                assert forall|other: u16| next <= other < cid implies !self@.channels.contains_key(
                    other,
                ) by {
                    if self@.channels.contains_key(other) {
                        let i = choose|i: int| 0 <= i < cids@.len() && cids@[i] == other;
                        assert(i < index);
                        assert(i == index - 1 || cids@[i] < cids@[index - 1]);
                    }
                }
                lemma_ticked_skip(self@, next, cid as int, ticks);
                assert(cids@.contains(cid));
            }
            let ghost before = self@;
            match self.tick_channel(cid, ticks) {
                Err(error) => {
                    return Err(error);
                },
                Ok(()) => {},
            }
            proof {
                next = cid + 1;
                assert(self@.channels.dom() =~= before.channels.dom());
                assert forall|other: u16| #[trigger] self@.channels.contains_key(other) <==> cids@.contains(
                    other,
                ) by {
                    assert(self@.channels.dom().contains(other) <==> before.channels.dom().contains(
                        other,
                    ));
                }
            }
            index = index + 1;
        }
        proof {
            assert forall|other: u16| next <= other < 65536 implies !self@.channels.contains_key(
                other,
            ) by {
                if self@.channels.contains_key(other) {
                    let i = choose|i: int| 0 <= i < cids@.len() && cids@[i] == other;
                    assert(i == index - 1 || cids@[i] < cids@[index - 1]);
                }
            }
            lemma_ticked_skip(self@, next, 65536, ticks);
        }
        Ok(())
    }

    fn tick_channel(&mut self, cid: u16, ticks: u32) -> (result: Result<(), Error>)
        ensures
            final(self)@.channels.dom() =~= old(self)@.channels.dom(),
            match result {
                Ok(_) => final(self)@.ticked_from(cid + 1, ticks) == old(self)@.ticked_from(
                    cid as int,
                    ticks,
                ),
                Err(error) => final(self)@ == old(self)@.ticked_from(cid as int, ticks).0 && agrees(
                    result,
                    old(self)@.ticked_from(cid as int, ticks).1,
                ),
            },
    {
        let engine = match self.channels.get(cid) {
            None => false,
            Some(channel) => channel.ertm.is_some(),
        };
        if !engine {
            return Ok(());
        }
        let stepped = match self.channels.get_mut(cid) {
            None => Ok(()),
            Some(channel) => channel.tick(ticks),
        };
        reveal(ChannelManagerV::flushed);
        match stepped {
            Err(error) => Err(error),
            Ok(()) => self.flush_ertm(cid),
        }
    }
}

proof fn lemma_ticked_skip(manager: ChannelManagerV, from: int, to: int, ticks: u32)
    requires
        0 <= from <= to <= 65536,
        forall|cid: u16| from <= cid < to ==> !manager.channels.contains_key(cid),
    ensures
        manager.ticked_from(from, ticks) == manager.ticked_from(to, ticks),
    decreases to - from,
{
    if from < to {
        assert(!manager.channels.contains_key(from as u16));
        lemma_ticked_skip(manager, from + 1, to, ticks);
    }
}

} // verus!
