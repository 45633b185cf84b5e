//! Check sequences, PSMs and options byte for byte, and what the two ends of a
//! channel agree on.

use vstd::prelude::*;

use super::classic::{
    fcs_appended, fcs_stripped, ChannelSpec, ClassicChannelSpec, ErtmChannelSpec, ErtmOption,
};
use super::ertm::{first_exhausted, ErtmConfig, ErtmEngineV, TransmittedFrameV};
use super::manager::{identifier_after, least_free_psm, ChannelManagerV};
use super::negotiation::engine_config;
use super::{crc, crc_bit, crc_bits, option_from, psm_at, psm_bytes, ConfigurationOptionV};

verus! {

/// The check sequence divides by the polynomial with the bits 16, 15, 2 and 0, the
/// lowest bit first: eight steps for each byte, from a register of zeros. In a step
/// the register loses its lowest bit, and where that was set the polynomial is
/// added.
pub proof fn check_sequence_divides_by_the_polynomial(
    register: u16,
    bits: nat,
    data: Seq<u8>,
    byte: u8,
)
    ensures
        register % 2 == 0 ==> crc_bit(register) == register / 2,
        register % 2 == 1 ==> crc_bit(register) == (register / 2) ^ 0xA001,
        crc_bits(register, 0) == register,
        crc_bits(register, bits + 1) == crc_bit(crc_bits(register, bits)),
        crc(seq![]) == 0,
        crc(data.push(byte)) == crc_bits(crc(data) ^ (byte as u16), 8),
{
    assert((register & 1 != 0) == (register % 2 == 1) && register >> 1 == register / 2)
        by (bit_vector);
    assert(data.push(byte).drop_last() =~= data);
}

/// The check sequence of a frame is that of its length, which counts the sequence
/// too, its channel and its contents; it follows the contents with its least
/// significant byte first. A frame with any other sequence is refused.
pub proof fn frames_carry_their_check_sequence(cid: u16, payload: Seq<u8>, low: u8, high: u8)
    requires
        payload.len() + 2 <= 65535,
    ensures
        ({
            let length = payload.len() + 2;
            let check = crc(
                seq![
                    (length % 256) as u8,
                    (length / 256) as u8,
                    (cid % 256) as u8,
                    (cid / 256) as u8,
                ] + payload,
            );
            &&& fcs_appended(cid, payload) == Ok::<Seq<u8>, Seq<char>>(
                payload + seq![(check % 256) as u8, (check / 256) as u8],
            )
            &&& low + 256 * high == check ==> fcs_stripped(cid, payload + seq![low, high]) == Ok::<
                Seq<u8>,
                Seq<char>,
            >(payload)
            &&& low + 256 * high != check ==> fcs_stripped(cid, payload + seq![low, high]) is Err
        }),
        payload.len() < 2 ==> fcs_stripped(cid, payload) is Err,
{
    let length = payload.len() + 2;
    let covered = seq![
        (length % 256) as u8,
        (length / 256) as u8,
        (cid % 256) as u8,
        (cid / 256) as u8,
    ] + payload;
    assert(super::classic::fcs_input(cid, length as u16, payload) =~= covered);
    let whole = payload + seq![low, high];
    assert(whole.take(whole.len() - 2) =~= payload);
    let check = crc(covered);
    assert(crate::bytes::le16(check) =~= seq![(check % 256) as u8, (check / 256) as u8]);
}

/// A PSM has two bytes, or as many as it takes, the least significant first.
pub proof fn psms_have_their_bytes(psm: u32)
    ensures
        psm < 0x1_0000 ==> psm_bytes(psm) == seq![(psm % 256) as u8, (psm / 256) as u8],
        0x1_0000 <= psm < 0x100_0000 ==> psm_bytes(psm) == seq![
            (psm % 256) as u8,
            (psm / 256 % 256) as u8,
            (psm / 0x1_0000) as u8,
        ],
        0x100_0000 <= psm ==> psm_bytes(psm) == seq![
            (psm % 256) as u8,
            (psm / 256 % 256) as u8,
            (psm / 0x1_0000 % 256) as u8,
            (psm / 0x100_0000) as u8,
        ],
        psm_at(seq![], 0) is Err,
        psm_at(seq![1u8], 0) is Err,
        psm_at(seq![1u8, 1], 0) is Err,
{
    reveal_with_fuel(super::psm_end, 3);
    if psm < 0x1_0000 {
        assert(psm_bytes(psm) =~= seq![(psm % 256) as u8, (psm / 256) as u8]);
    } else if psm < 0x100_0000 {
        assert(psm_bytes(psm) =~= seq![
            (psm % 256) as u8,
            (psm / 256 % 256) as u8,
            (psm / 0x1_0000) as u8,
        ]);
    } else {
        assert(psm_bytes(psm) =~= seq![
            (psm % 256) as u8,
            (psm / 256 % 256) as u8,
            (psm / 0x1_0000 % 256) as u8,
            (psm / 0x100_0000) as u8,
        ]);
    }
}

/// An option is its type, with the highest bit set where it is a hint, its length
/// and its value.
pub proof fn options_have_their_bytes(option_type: u8, hint: bool, value: Seq<u8>, tag: u8)
    requires
        option_type < 128,
        value.len() <= 255,
    ensures
        (ConfigurationOptionV { option_type, hint, value }).encode() == seq![
            (option_type + if hint {
                128int
            } else {
                0
            }) as u8,
            value.len() as u8,
        ] + value,
        option_from(tag, value).hint == (tag >= 128),
        option_from(tag, value).option_type == tag % 128,
        option_from(tag, value).value == value,
{
    assert(option_type | 0x80u8 == option_type + 128 && option_type | 0u8 == option_type)
        by (bit_vector)
        requires
            option_type < 128u8,
    ;
    assert((tag & 0x80u8 != 0) == (tag >= 128) && tag & 0x7fu8 == tag % 128) by (bit_vector);
}

/// A server without a PSM of its own gets the least free odd one from 0x1001 on
/// whose second byte is even.
pub proof fn servers_get_the_least_free_psm(manager: ChannelManagerV, spec: ChannelSpec, psm: u16)
    requires
        0x1001 <= psm,
        psm % 2 == 1 && psm / 256 % 2 == 0,
        !manager.servers.contains_key(psm as u32),
        forall|other: u32|
            0x1001 <= other < psm && other % 2 == 1 && other / 256 % 2 == 0
                ==> manager.servers.contains_key(other),
    ensures
        manager.registered(None, spec) == (
            ChannelManagerV { servers: manager.servers.insert(psm as u32, spec), ..manager },
            Ok::<u32, Seq<char>>(psm as u32),
        ),
{
    lemma_least_psm(manager, psm, 0x1001);
}

proof fn lemma_least_psm(manager: ChannelManagerV, psm: u16, from: int)
    requires
        0x1001 <= from <= psm,
        from % 2 == 1,
        psm % 2 == 1 && psm / 256 % 2 == 0,
        !manager.servers.contains_key(psm as u32),
        forall|other: u32|
            0x1001 <= other < psm && other % 2 == 1 && other / 256 % 2 == 0
                ==> manager.servers.contains_key(other),
    ensures
        least_free_psm(manager.servers, from) == Some(psm as u32),
    decreases psm - from,
{
    let other = from as u32;
    if from < psm {
        lemma_least_psm(manager, psm, from + 2);
    }
}

/// Requests are numbered from 1 to 255 in turn.
pub proof fn requests_are_numbered_in_turn(identifier: u8)
    ensures
        identifier < 255 ==> identifier_after(identifier) == identifier + 1,
        identifier == 255 ==> identifier_after(identifier) == 1,
{
}

/// An engine can work where both ends take something, its window has 1 to 63
/// frames, and it does not wait forever.
pub proof fn usable_engines_are_accepted(config: ErtmConfig)
    ensures
        config.checked() is Ok <==> config.local_mtu > 0 && config.peer_mtu > 0 && config.local_mps
            > 0 && config.peer_mps > 0 && 1 <= config.tx_window_size <= 63
            && config.retransmission_timeout_ticks > 0,
        config.checked() matches Ok(checked) ==> checked == config,
{
}

/// What an engine goes by: this end's own segment size and timeout for what it
/// gets and how long it waits, and the peer's segment size, window and number of
/// retransmissions for what it sends. An SDU can have up to 65535 bytes.
pub proof fn peer_decides_what_it_gets(spec: ErtmChannelSpec, parameters: ErtmOption)
    ensures
        ({
            let config = engine_config(spec, parameters);
            &&& config.local_mtu == 0xFFFF && config.peer_mtu == 0xFFFF
            &&& config.local_mps == spec.mps
            &&& config.peer_mps == parameters.mps
            &&& config.tx_window_size == parameters.tx_window_size
            &&& config.max_retransmissions == parameters.max_retransmissions
            &&& config.retransmission_timeout_ticks == spec.retransmission_timeout_ms
        }),
{
}

/// A frame may be sent once and then repeated as often as was agreed; where that
/// number is zero there is no limit. Each transmission is counted.
pub proof fn repetitions_are_limited(sent: TransmittedFrameV, max: u8)
    ensures
        max == 0 ==> !sent.exhausted(max),
        max > 0 ==> (sent.exhausted(max) <==> sent.transmissions > max),
        sent.transmissions < 65535 ==> sent.repeated().transmissions == sent.transmissions + 1,
        sent.repeated().frame == sent.frame,
{
}

/// Frames go out in order and as far as the window lets them: no more of them are
/// unacknowledged than the window has, and none waits while there is room, unless
/// the peer is busy. While a frame is unacknowledged the timer runs.
pub proof fn window_is_filled_in_order(engine: ErtmEngineV)
    requires
        engine.tx_window.len() <= engine.config.tx_window_size,
    ensures
        ({
            let after = engine.output_processed();
            let moved = after.tx_window.len() - engine.tx_window.len();
            &&& after.tx_window.len() <= engine.config.tx_window_size
            &&& engine.remote_busy ==> after == engine
            &&& !engine.remote_busy ==> {
                &&& after.pending.len() > 0 ==> after.tx_window.len()
                    == engine.config.tx_window_size
                &&& engine.pending.len() == moved + after.pending.len()
                &&& forall|i: int|
                    0 <= i < engine.tx_window.len() ==> #[trigger] after.tx_window[i]
                        == engine.tx_window[i]
                &&& forall|i: int|
                    0 <= i < moved ==> (#[trigger] after.tx_window[engine.tx_window.len()
                        + i]).frame == engine.pending[i] && after.tx_window[engine.tx_window.len()
                        + i].transmissions == 1
                &&& forall|i: int|
                    0 <= i < after.pending.len() ==> #[trigger] after.pending[i]
                        == engine.pending[moved + i]
                &&& after.tx_window.len() == 0 ==> after.retransmission_deadline is None
                &&& after.tx_window.len() > 0 && engine.now
                    + engine.config.retransmission_timeout_ticks <= u64::MAX
                    ==> after.retransmission_deadline == Some(
                    (engine.now + engine.config.retransmission_timeout_ticks) as u64,
                )
            }
        }),
{
}

/// Where nothing is exhausted, a timeout repeats all; the first exhausted frame
/// ends the engine.
pub proof fn first_exhausted_frame_counts(window: Seq<TransmittedFrameV>, max: u8, at: int)
    requires
        0 <= at < window.len(),
        forall|i: int| 0 <= i < at ==> !(#[trigger] window[i]).exhausted(max),
    ensures
        window[at].exhausted(max) ==> first_exhausted(window, max) == Some(window[at]),
        !window[at].exhausted(max) && at == window.len() - 1 ==> first_exhausted(window, max)
            is None,
    decreases at,
{
    reveal_with_fuel(first_exhausted, 2);
    let rest = window.skip(1);
    if at > 0 {
        assert forall|i: int| 0 <= i < at - 1 implies !(#[trigger] rest[i]).exhausted(max) by {
            assert(rest[i] == window[i + 1]);
        }
        first_exhausted_frame_counts(rest, max, at - 1);
        assert(rest[at - 1] == window[at]);
    }
}

/// What is asked for where nothing else is said: channels of 2048 bytes; for
/// retransmission, segments of 1010 bytes, a window of 63 frames, one repetition, two
/// seconds until a repetition and twelve until the link is asked after, and no check
/// sequence. An engine by itself repeats without end.
pub proof fn defaults_can_be_used(
    basic: ClassicChannelSpec,
    ertm: ErtmChannelSpec,
    engine: ErtmConfig,
)
    ensures
        call_ensures(ClassicChannelSpec::default, (), basic) ==> basic.mtu == 2048,
        call_ensures(ErtmChannelSpec::default, (), ertm) ==> ertm.mtu == 2048 && ertm.mps == 1010
            && ertm.tx_window_size == 63 && ertm.max_retransmissions == 1
            && ertm.retransmission_timeout_ms == 2000 && ertm.monitor_timeout_ms == 12000
            && !ertm.fcs_enabled,
        call_ensures(ErtmConfig::default, (), engine) ==> engine.checked() is Ok
            && engine.local_mtu == 2048 && engine.peer_mtu == 2048 && engine.local_mps == 1010
            && engine.peer_mps == 1010 && engine.tx_window_size == 63
            && engine.max_retransmissions == 0 && engine.retransmission_timeout_ticks == 2000,
{
}

} // verus!
