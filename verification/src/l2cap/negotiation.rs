//! The peer's configuration request: which options are accepted, what is
//! answered, and what that makes of the channel.

use vstd::prelude::*;

use super::classic::{
    decode_ertm_option, encode_ertm_option, ertm_option_bytes, ertm_option_of, ChannelSpec,
    ClassicChannel, ClassicChannelMode, ClassicChannelState, ClassicChannelV, ErtmChannelSpec,
    ErtmOption, L2CAP_MIN_BR_EDR_MTU, RETRANSMISSION_MODE_ENHANCED,
};
use super::ertm::{ErtmConfig, ErtmEngine, ErtmEngineV};
use super::{
    option_views, ConfigurationOption, ConfigurationOptionV, Error, CONFIGURATION_OPTION_FCS,
    CONFIGURATION_OPTION_MTU, CONFIGURATION_OPTION_RETRANSMISSION_AND_FLOW_CONTROL,
    CONFIGURATION_SUCCESS, CONFIGURATION_UNACCEPTABLE_PARAMETERS, CONFIGURATION_UNKNOWN_OPTIONS,
};
use crate::bytes::{le16, le16_at, push_le16, read_le16};

verus! {

/// What the options seen so far amount to.
pub struct NegotiationV {
    pub result: u16,
    pub response: Seq<ConfigurationOptionV>,
    pub peer_mtu: u16,
    pub ertm: Option<ErtmOption>,
    pub fcs: Option<bool>,
}

/// An option of this type without the hint bit.
pub open spec fn plain_option(option_type: u8, value: Seq<u8>) -> ConfigurationOptionV {
    ConfigurationOptionV { option_type, hint: false, value }
}

pub open spec fn mode_code(mode: ClassicChannelMode) -> u8 {
    match mode {
        ClassicChannelMode::Basic => 0,
        ClassicChannelMode::EnhancedRetransmission => RETRANSMISSION_MODE_ENHANCED,
    }
}

/// Whether the peer may ask for these retransmission parameters.
pub open spec fn acceptable_parameters(parameters: ErtmOption, mode: ClassicChannelMode) -> bool {
    &&& parameters.mode == mode_code(mode)
    &&& parameters.mode == RETRANSMISSION_MODE_ENHANCED ==> 1 <= parameters.tx_window_size < 64
        && parameters.mps != 0
}

impl NegotiationV {
    pub open spec fn start(peer_mtu: u16) -> NegotiationV {
        NegotiationV {
            result: CONFIGURATION_SUCCESS,
            response: seq![],
            peer_mtu,
            ertm: None,
            fcs: None,
        }
    }

    /// Everything is refused because of one option, which the answer names.
    pub open spec fn refused(self, result: u16, option: ConfigurationOptionV) -> NegotiationV {
        NegotiationV { result, response: seq![option], ..self }
    }

    /// One more option is echoed in the answer.
    pub open spec fn echoed(self, option: ConfigurationOptionV) -> NegotiationV {
        NegotiationV { response: self.response.push(option), ..self }
    }

    /// The next option of the request.
    pub open spec fn reviewed(
        self,
        option: ConfigurationOptionV,
        mode: ClassicChannelMode,
    ) -> NegotiationV {
        if option.option_type == CONFIGURATION_OPTION_MTU {
            if option.value.len() != 2 {
                self.refused(CONFIGURATION_UNACCEPTABLE_PARAMETERS, option)
            } else if le16_at(option.value, 0) < L2CAP_MIN_BR_EDR_MTU {
                self.refused(
                    CONFIGURATION_UNACCEPTABLE_PARAMETERS,
                    plain_option(CONFIGURATION_OPTION_MTU, le16(L2CAP_MIN_BR_EDR_MTU)),
                )
            } else {
                NegotiationV { peer_mtu: le16_at(option.value, 0), ..self }.echoed(option)
            }
        } else if option.option_type == CONFIGURATION_OPTION_RETRANSMISSION_AND_FLOW_CONTROL {
            match ertm_option_of(option.value) {
                Some(parameters) => if acceptable_parameters(parameters, mode) {
                    NegotiationV { ertm: Some(parameters), ..self }.echoed(option)
                } else {
                    self.refused(CONFIGURATION_UNACCEPTABLE_PARAMETERS, option)
                },
                None => self.refused(CONFIGURATION_UNACCEPTABLE_PARAMETERS, option),
            }
        } else if option.option_type == CONFIGURATION_OPTION_FCS {
            if option.value.len() != 1 || option.value[0] > 1 {
                self.refused(CONFIGURATION_UNACCEPTABLE_PARAMETERS, option)
            } else {
                NegotiationV { fcs: Some(option.value[0] != 0), ..self }.echoed(option)
            }
        } else if !option.hint {
            self.refused(CONFIGURATION_UNKNOWN_OPTIONS, option)
        } else {
            self
        }
    }

    /// All options of the request in order, up to the first that is refused.
    pub open spec fn reviewed_all(
        self,
        options: Seq<ConfigurationOptionV>,
        mode: ClassicChannelMode,
    ) -> NegotiationV
        decreases options.len(),
    {
        if options.len() == 0 {
            self
        } else {
            let next = self.reviewed(options[0], mode);
            if next.result != CONFIGURATION_SUCCESS {
                next
            } else {
                next.reviewed_all(options.skip(1), mode)
            }
        }
    }
}

pub struct Negotiation {
    pub(crate) result: u16,
    pub(crate) response: Vec<ConfigurationOption>,
    pub(crate) peer_mtu: u16,
    pub(crate) ertm: Option<ErtmOption>,
    pub(crate) fcs: Option<bool>,
}

impl View for Negotiation {
    type V = NegotiationV;

    open(crate) spec fn view(&self) -> NegotiationV {
        NegotiationV {
            result: self.result,
            response: option_views(self.response@),
            peer_mtu: self.peer_mtu,
            ertm: self.ertm,
            fcs: self.fcs,
        }
    }
}

impl Negotiation {
    fn start(peer_mtu: u16) -> (negotiation: Negotiation)
        ensures
            negotiation@ == NegotiationV::start(peer_mtu),
    {
        let negotiation = Negotiation {
            result: CONFIGURATION_SUCCESS,
            response: Vec::new(),
            peer_mtu,
            ertm: None,
            fcs: None,
        };
        assert(negotiation@.response =~= seq![]);
        negotiation
    }

    fn refuse(&mut self, result: u16, option: ConfigurationOption)
        ensures
            final(self)@ == old(self)@.refused(result, option@),
    {
        let ghost model = option@;
        self.result = result;
        self.response = single(option);
        assert(self@.response =~= seq![model]);
    }

    fn echo(&mut self, option: ConfigurationOption)
        ensures
            final(self)@ == old(self)@.echoed(option@),
    {
        let ghost model = option@;
        self.response.push(option);
        assert(self@.response =~= old(self)@.response.push(model));
    }

    fn weigh(&mut self, option: ConfigurationOption, mode: ClassicChannelMode)
        ensures
            final(self)@ == old(self)@.reviewed(option@, mode),
    {
        match option.option_type {
            CONFIGURATION_OPTION_MTU => {
                if option.value.len() != 2 {
                    self.refuse(CONFIGURATION_UNACCEPTABLE_PARAMETERS, option);
                    return;
                }
                let mtu: u16 = read_le16(&option.value, 0);
                if mtu < L2CAP_MIN_BR_EDR_MTU {
                    let mut value: Vec<u8> = Vec::new();
                    push_le16(&mut value, L2CAP_MIN_BR_EDR_MTU);
                    assert(value@ =~= le16(L2CAP_MIN_BR_EDR_MTU));
                    self.refuse(
                        CONFIGURATION_UNACCEPTABLE_PARAMETERS,
                        new_option(CONFIGURATION_OPTION_MTU, value),
                    );
                    return;
                }
                self.peer_mtu = mtu;
                self.echo(option);
            },
            CONFIGURATION_OPTION_RETRANSMISSION_AND_FLOW_CONTROL => {
                match decode_ertm_option(&option.value) {
                    None => {
                        self.refuse(CONFIGURATION_UNACCEPTABLE_PARAMETERS, option);
                    },
                    Some(parameters) => {
                        let expected_mode: u8 = match mode {
                            ClassicChannelMode::Basic => 0,
                            ClassicChannelMode::EnhancedRetransmission => RETRANSMISSION_MODE_ENHANCED,
                        };
                        if parameters.mode != expected_mode || (parameters.mode
                            == RETRANSMISSION_MODE_ENHANCED && (parameters.tx_window_size == 0
                            || parameters.tx_window_size >= 64 || parameters.mps == 0)) {
                            self.refuse(CONFIGURATION_UNACCEPTABLE_PARAMETERS, option);
                            return;
                        }
                        self.ertm = Some(parameters);
                        self.echo(option);
                    },
                }
            },
            CONFIGURATION_OPTION_FCS => {
                if option.value.len() != 1 || option.value[0] > 1 {
                    self.refuse(CONFIGURATION_UNACCEPTABLE_PARAMETERS, option);
                    return;
                }
                self.fcs = Some(option.value[0] != 0);
                self.echo(option);
            },
            _ => {
                if !option.hint {
                    self.refuse(CONFIGURATION_UNKNOWN_OPTIONS, option);
                }
            },
        }
    }
}

fn single(option: ConfigurationOption) -> (options: Vec<ConfigurationOption>)
    ensures
        options@ == seq![option],
{
    let mut options: Vec<ConfigurationOption> = Vec::new();
    options.push(option);
    assert(options@ =~= seq![option]);
    options
}

/// An option of one of the defined types, without the hint bit.
pub(crate) fn new_option(option_type: u8, value: Vec<u8>) -> (option: ConfigurationOption)
    requires
        option_type < 0x80,
    ensures
        option@ == plain_option(option_type, value@),
{
    assert(option_type & 0x7f == option_type) by (bit_vector)
        requires
            option_type < 0x80,
    ;
    ConfigurationOption::new(option_type, value)
}

/// Goes through the options of a configuration request.
pub fn review_options(
    options: &Vec<ConfigurationOption>,
    mode: ClassicChannelMode,
    peer_mtu: u16,
) -> (negotiation: Negotiation)
    ensures
        negotiation@ == NegotiationV::start(peer_mtu).reviewed_all(option_views(options@), mode),
{
    let mut negotiation = Negotiation::start(peer_mtu);
    let mut index: usize = 0;
    let ghost all = option_views(options@);
    let ghost whole = NegotiationV::start(peer_mtu).reviewed_all(all, mode);
    assert(all.skip(0) =~= all);
    while index < options.len()
        invariant
            index <= options@.len(),
            all == option_views(options@),
            whole == NegotiationV::start(peer_mtu).reviewed_all(all, mode),
            whole == negotiation@.reviewed_all(all.skip(index as int), mode),
        decreases options@.len() - index,
    {
        let ghost rest = all.skip(index as int);
        let option = options[index].copy();
        assert(rest[0] == option@);
        assert(rest.skip(1) =~= all.skip(index + 1));
        negotiation.weigh(option, mode);
        if negotiation.result != CONFIGURATION_SUCCESS {
            return negotiation;
        }
        index = index + 1;
    }
    negotiation
}

/// What a configuration request made of a channel, and what is answered.
pub struct SettlementV {
    pub channel: ClassicChannelV,
    pub result: u16,
    pub response: Seq<ConfigurationOptionV>,
    /// Why the channel cannot be configured at all, in which case nothing is
    /// answered.
    pub fault: Option<Seq<char>>,
}

/// The engine configuration that both ends' wishes add up to. SDU sizes are
/// bounded by the 16-bit length field alone.
pub open spec fn engine_config(spec: ErtmChannelSpec, parameters: ErtmOption) -> ErtmConfig {
    ErtmConfig {
        local_mtu: 65535,
        peer_mtu: 65535,
        local_mps: spec.mps,
        peer_mps: parameters.mps,
        tx_window_size: parameters.tx_window_size,
        max_retransmissions: parameters.max_retransmissions,
        retransmission_timeout_ticks: spec.retransmission_timeout_ms as u32,
    }
}

/// The channel is given up and the answer says why.
pub open spec fn settled_refusal(
    channel: ClassicChannelV,
    response: Seq<ConfigurationOptionV>,
) -> SettlementV {
    SettlementV {
        channel: ClassicChannelV {
            state: ClassicChannelState::Closed,
            connection_result: Some(CONFIGURATION_UNACCEPTABLE_PARAMETERS),
            ..channel
        },
        result: CONFIGURATION_UNACCEPTABLE_PARAMETERS,
        response,
        fault: None,
    }
}

/// The peer's configuration is complete and accepted.
pub open spec fn settled_acceptance(
    channel: ClassicChannelV,
    response: Seq<ConfigurationOptionV>,
) -> SettlementV {
    SettlementV {
        channel: ClassicChannelV { peer_configuration_received: true, ..channel },
        result: CONFIGURATION_SUCCESS,
        response,
        fault: None,
    }
}

/// What the reviewed options make of the channel. Where one of them was refused,
/// or more are to follow (bit 0 of `flags`), only the peer's MTU is taken over.
pub open spec fn settled(channel: ClassicChannelV, flags: u16, seen: NegotiationV) -> SettlementV {
    let updated = ClassicChannelV { peer_mtu: seen.peer_mtu, ..channel };
    let wants_fcs = seen.fcs == Some(true);
    if seen.result != CONFIGURATION_SUCCESS || flags % 2 != 0 {
        SettlementV {
            channel: updated,
            result: seen.result,
            response: seen.response,
            fault: None,
        }
    } else {
        match (channel.spec, seen.ertm) {
            (ChannelSpec::Ertm(spec), None) => settled_refusal(
                updated,
                seq![
                    plain_option(
                        CONFIGURATION_OPTION_RETRANSMISSION_AND_FLOW_CONTROL,
                        ertm_option_bytes(spec),
                    ),
                ],
            ),
            (ChannelSpec::Ertm(spec), Some(parameters)) => if wants_fcs != spec.fcs_enabled {
                settled_refusal(
                    updated,
                    seq![
                        plain_option(
                            CONFIGURATION_OPTION_FCS,
                            seq![
                                if spec.fcs_enabled {
                                    1u8
                                } else {
                                    0u8
                                },
                            ],
                        ),
                    ],
                )
            } else {
                let agreed = ClassicChannelV {
                    peer_mps: parameters.mps,
                    fcs_enabled: spec.fcs_enabled,
                    ..updated
                };
                match engine_config(spec, parameters).checked() {
                    Err(reason) => SettlementV {
                        channel: agreed,
                        result: seen.result,
                        response: seen.response,
                        fault: Some(reason),
                    },
                    Ok(config) => settled_acceptance(
                        ClassicChannelV { ertm: Some(ErtmEngineV::initial(config)), ..agreed },
                        seen.response,
                    ),
                }
            },
            (ChannelSpec::Basic(_), parameters) => if parameters is Some || wants_fcs {
                settled_refusal(updated, seen.response)
            } else {
                settled_acceptance(updated, seen.response)
            },
        }
    }
}

/// The answer to a configuration request.
pub struct Answer {
    pub(crate) result: u16,
    pub(crate) response: Vec<ConfigurationOption>,
}

impl ClassicChannel {
    fn refuse_configuration(&mut self, response: Vec<ConfigurationOption>) -> (answer: Answer)
        ensures
            final(self)@ == settled_refusal(old(self)@, option_views(response@)).channel,
            answer.result == CONFIGURATION_UNACCEPTABLE_PARAMETERS,
            answer.response@ == response@,
    {
        self.state = ClassicChannelState::Closed;
        self.connection_result = Some(CONFIGURATION_UNACCEPTABLE_PARAMETERS);
        Answer { result: CONFIGURATION_UNACCEPTABLE_PARAMETERS, response }
    }

    /// Takes over what the reviewed options of the peer's request amount to.
    #[verifier::spinoff_prover]
    pub(crate) fn settle(&mut self, flags: u16, seen: Negotiation) -> (result: Result<Answer, Error>)
        ensures
            final(self)@ == settled(old(self)@, flags, seen@).channel,
            match result {
                Ok(answer) => {
                    &&& settled(old(self)@, flags, seen@).fault is None
                    &&& answer.result == settled(old(self)@, flags, seen@).result
                    &&& option_views(answer.response@) == settled(old(self)@, flags, seen@).response
                },
                Err(error) => settled(old(self)@, flags, seen@).fault == Some(error@),
            },
    {
        self.peer_mtu = seen.peer_mtu;
        if seen.result != CONFIGURATION_SUCCESS || flags % 2 != 0 {
            return Ok(Answer { result: seen.result, response: seen.response });
        }
        let wants_fcs: bool = match seen.fcs {
            Some(wanted) => wanted,
            None => false,
        };
        match self.spec {
            ChannelSpec::Basic(_) => {
                if seen.ertm.is_some() || wants_fcs {
                    return Ok(self.refuse_configuration(seen.response));
                }
            },
            ChannelSpec::Ertm(spec) => {
                match seen.ertm {
                    None => {
                        let wish = new_option(
                            CONFIGURATION_OPTION_RETRANSMISSION_AND_FLOW_CONTROL,
                            encode_ertm_option(spec),
                        );
                        let ghost model = wish@;
                        let response = single(wish);
                        assert(option_views(response@) =~= seq![model]);
                        return Ok(self.refuse_configuration(response));
                    },
                    Some(parameters) => {
                        if wants_fcs != spec.fcs_enabled {
                            let flag: u8 = if spec.fcs_enabled {
                                1
                            } else {
                                0
                            };
                            let mut value: Vec<u8> = Vec::new();
                            value.push(flag);
                            assert(value@ =~= seq![flag]);
                            let wish = new_option(CONFIGURATION_OPTION_FCS, value);
                            let ghost model = wish@;
                            let response = single(wish);
                            assert(option_views(response@) =~= seq![model]);
                            return Ok(self.refuse_configuration(response));
                        }
                        self.peer_mps = parameters.mps;
                        self.fcs_enabled = spec.fcs_enabled;
                        let config = ErtmConfig {
                            local_mtu: 65535,
                            peer_mtu: 65535,
                            local_mps: spec.mps,
                            peer_mps: parameters.mps,
                            tx_window_size: parameters.tx_window_size,
                            max_retransmissions: parameters.max_retransmissions,
                            retransmission_timeout_ticks: spec.retransmission_timeout_ms as u32,
                        };
                        match ErtmEngine::new(config) {
                            Err(error) => {
                                return Err(error);
                            },
                            Ok(engine) => {
                                self.ertm = Some(engine);
                            },
                        }
                    },
                }
            },
        }
        self.peer_configuration_received = true;
        Ok(Answer { result: CONFIGURATION_SUCCESS, response: seen.response })
    }
}

} // verus!
