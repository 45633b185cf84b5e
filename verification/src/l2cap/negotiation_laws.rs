//! What becomes of the options in a peer's configuration request.

use vstd::prelude::*;

use super::classic::{
    ChannelSpec, ClassicChannelMode, ClassicChannelSpec, ClassicChannelState, ClassicChannelV,
    ErtmChannelSpec, ErtmOption,
};
use super::negotiation::{settled, NegotiationV};
use super::ConfigurationOptionV;

verus! {

/// Whether an option was taken: it is echoed behind those before it.
pub open spec fn taken(before: NegotiationV, after: NegotiationV, option: ConfigurationOptionV) -> bool {
    after.result == before.result && after.response == before.response.push(option)
}

/// Whether the request was refused with a code, and the answer names one option
/// alone.
pub open spec fn refused_for(
    before: NegotiationV,
    after: NegotiationV,
    code: u16,
    option: ConfigurationOptionV,
) -> bool {
    &&& after.result == code
    &&& after.response == seq![option]
    &&& after.peer_mtu == before.peer_mtu
    &&& after.ertm == before.ertm
    &&& after.fcs == before.fcs
}

/// An MTU, option 1, is two bytes and at least 48, and is then the peer's; a
/// smaller one is refused with the code 1 and answered by 48. A check sequence,
/// option 5, is one byte that is 0 or 1. An option that is not known is refused with
/// the code 3, unless it is a hint, which is passed over.
pub proof fn options_are_reviewed(
    seen: NegotiationV,
    option: ConfigurationOptionV,
    mode: ClassicChannelMode,
)
    ensures
        ({
            let after = seen.reviewed(option, mode);
            let value = option.value;
            &&& option.option_type == 1 ==> {
                &&& value.len() != 2 ==> refused_for(seen, after, 1, option)
                &&& value.len() == 2 && value[0] + 256 * value[1] < 48 ==> refused_for(
                    seen,
                    after,
                    1,
                    ConfigurationOptionV { option_type: 1, hint: false, value: seq![48u8, 0] },
                )
                &&& value.len() == 2 && value[0] + 256 * value[1] >= 48 ==> taken(
                    seen,
                    after,
                    option,
                ) && after.peer_mtu == value[0] + 256 * value[1] && after.ertm == seen.ertm
                    && after.fcs == seen.fcs
            }
            &&& option.option_type == 5 ==> {
                &&& value.len() == 1 && value[0] <= 1 ==> taken(seen, after, option) && after.fcs
                    == Some(value[0] == 1) && after.peer_mtu == seen.peer_mtu && after.ertm
                    == seen.ertm
                &&& !(value.len() == 1 && value[0] <= 1) ==> refused_for(seen, after, 1, option)
            }
            &&& option.option_type != 1 && option.option_type != 4 && option.option_type != 5 ==> {
                &&& option.hint ==> after == seen
                &&& !option.hint ==> refused_for(seen, after, 3, option)
            }
        }),
{
    assert(crate::bytes::le16(48) =~= seq![48u8, 0]);
}

/// A mode, option 4, is nine bytes: it is taken where the first names this end's
/// mode (0 basic, 3 retransmission) and, for retransmission, the window has 1 to 63
/// frames and segments hold something; and refused with the code 1 otherwise.
pub proof fn modes_are_reviewed(
    seen: NegotiationV,
    hint: bool,
    value: Seq<u8>,
    mode: ClassicChannelMode,
)
    ensures
        ({
            let option = ConfigurationOptionV { option_type: 4, hint, value };
            let after = seen.reviewed(option, mode);
            let mps = value[7] + 256 * value[8];
            let fits = value.len() == 9 && match mode {
                ClassicChannelMode::Basic => value[0] == 0,
                ClassicChannelMode::EnhancedRetransmission => value[0] == 3 && 1 <= value[1] <= 63
                    && mps > 0,
            };
            &&& !fits ==> refused_for(seen, after, 1, option)
            &&& fits ==> taken(seen, after, option) && after.peer_mtu == seen.peer_mtu && after.fcs
                == seen.fcs && (after.ertm matches Some(kept) && kept.mode == value[0]
                && kept.tx_window_size == value[1] && kept.max_retransmissions == value[2]
                && kept.mps == mps)
        }),
{
}

/// Options are reviewed in order, and the first that is refused ends the review.
pub proof fn first_refusal_ends_the_review(
    seen: NegotiationV,
    options: Seq<ConfigurationOptionV>,
    mode: ClassicChannelMode,
)
    requires
        options.len() > 0,
    ensures
        ({
            let next = seen.reviewed(options[0], mode);
            seen.reviewed_all(options, mode) == (if next.result == 0 {
                next.reviewed_all(options.skip(1), mode)
            } else {
                next
            })
        }),
        seen.reviewed_all(seq![], mode) == seen,
{
}

/// A request that was refused, or of which more is to come, changes the peer's MTU
/// alone, and its answer is that of the review.
pub proof fn unfinished_requests_settle_nothing(
    channel: ClassicChannelV,
    flags: u16,
    seen: NegotiationV,
)
    requires
        seen.result != 0 || flags % 2 == 1,
    ensures
        ({
            let outcome = settled(channel, flags, seen);
            &&& outcome.channel == (ClassicChannelV { peer_mtu: seen.peer_mtu, ..channel })
            &&& outcome.result == seen.result
            &&& outcome.response == seen.response
            &&& outcome.fault is None
        }),
{
}

/// Whether a channel was given up over one option.
pub open spec fn given_up(
    channel: ClassicChannelV,
    result: u16,
    response: Seq<ConfigurationOptionV>,
    option: ConfigurationOptionV,
) -> bool {
    &&& channel.state == ClassicChannelState::Closed
    &&& channel.connection_result == Some(1u16)
    &&& channel.ertm is None
    &&& result == 1
    &&& response == seq![option]
}

/// A channel with retransmission is given up where the peer does not ask for
/// retransmission, and the answer then names this end's mode; or where the two ends
/// do not agree on check sequences, and the answer then says what this end wants.
/// Where they agree the configuration is accepted, and the channel has an engine.
pub proof fn retransmission_needs_both_ends(
    channel: ClassicChannelV,
    spec: ErtmChannelSpec,
    flags: u16,
    seen: NegotiationV,
    parameters: ErtmOption,
)
    requires
        channel.spec == ChannelSpec::Ertm(spec),
        channel.ertm is None,
        seen.result == 0,
        flags % 2 == 0,
    ensures
        ({
            let outcome = settled(channel, flags, seen);
            let wanted = seen.fcs == Some(true);
            &&& seen.ertm is None ==> {
                &&& outcome.response.len() == 1
                &&& outcome.response[0].option_type == 4
                &&& outcome.response[0].value.len() == 9 && outcome.response[0].value[0] == 3
                    && outcome.response[0].value[1] == spec.tx_window_size
                &&& given_up(
                    outcome.channel,
                    outcome.result,
                    outcome.response,
                    outcome.response[0],
                )
            }
            &&& seen.ertm == Some(parameters) && wanted != spec.fcs_enabled ==> given_up(
                outcome.channel,
                outcome.result,
                outcome.response,
                ConfigurationOptionV {
                    option_type: 5,
                    hint: false,
                    value: seq![
                        if spec.fcs_enabled {
                            1u8
                        } else {
                            0u8
                        },
                    ],
                },
            )
            &&& seen.ertm == Some(parameters) && wanted == spec.fcs_enabled && spec.mps > 0
                && parameters.mps > 0 && 1 <= parameters.tx_window_size <= 63
                && spec.retransmission_timeout_ms > 0 ==> {
                &&& outcome.result == 0
                &&& outcome.response == seen.response
                &&& outcome.channel.peer_configuration_received
                &&& outcome.channel.fcs_enabled == spec.fcs_enabled
                &&& outcome.channel.peer_mtu == seen.peer_mtu
                &&& outcome.channel.peer_mps == parameters.mps
                &&& outcome.channel.state == channel.state
                &&& outcome.channel.ertm matches Some(engine) && engine.config.tx_window_size
                    == parameters.tx_window_size && engine.config.peer_mps == parameters.mps
            }
        }),
{
}

/// A basic channel is given up where the peer asks for a mode or for check
/// sequences, with the options that were reviewed as the answer, and is accepted
/// otherwise, with the MTU that the peer gave.
pub proof fn basic_channels_stay_basic(
    channel: ClassicChannelV,
    spec: ClassicChannelSpec,
    flags: u16,
    seen: NegotiationV,
)
    requires
        channel.spec == ChannelSpec::Basic(spec),
        seen.result == 0,
        flags % 2 == 0,
    ensures
        ({
            let outcome = settled(channel, flags, seen);
            let plain = seen.ertm is None && seen.fcs != Some(true);
            &&& outcome.response == seen.response
            &&& outcome.channel.peer_mtu == seen.peer_mtu
            &&& outcome.channel.ertm == channel.ertm
            &&& outcome.fault is None
            &&& plain ==> outcome.result == 0 && outcome.channel.peer_configuration_received
                && outcome.channel.state == channel.state
            &&& !plain ==> outcome.result == 1 && outcome.channel.state
                == ClassicChannelState::Closed
        }),
{
}

} // verus!
