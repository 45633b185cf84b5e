//! Classic L2CAP: data units, signaling frames, configuration options, channel
//! management and enhanced retransmission mode.

use vstd::prelude::*;

use crate::bytes::{append_bytes, copy_bytes, copy_range, le16, le16_at, le32, push_le16, read_le16};

pub mod announcement_laws;
pub mod answer_laws;
pub mod classic;
pub mod classic_laws;
pub mod codes;
pub mod configuration_laws;
pub mod control;
pub mod engine_laws;
pub mod ertm;
pub mod ertm_laws;
pub mod information;
pub mod link_laws;
pub mod manager;
pub mod negotiation;
pub mod negotiation_laws;
pub mod signaling_laws;
pub mod supervision_laws;
pub mod table;
pub mod timeout_laws;
pub mod transfer_laws;

pub use control::{ControlFrame, ControlFrameV};
pub use information::{InformationCapabilities, InformationResponse, InformationResponseV};

verus! {

/// The signaling channel identifier used for BR/EDR L2CAP.
pub const L2CAP_SIGNALING_CID: u16 = 0x0001;

/// The signaling channel identifier used for LE L2CAP.
pub const L2CAP_LE_SIGNALING_CID: u16 = 0x0005;

/// Default MTU advertised for connectionless L2CAP data.
pub const L2CAP_DEFAULT_CONNECTIONLESS_MTU: u16 = 1024;

pub const INFORMATION_TYPE_CONNECTIONLESS_MTU: u16 = 0x0001;

pub const INFORMATION_TYPE_EXTENDED_FEATURES_SUPPORTED: u16 = 0x0002;

pub const INFORMATION_TYPE_FIXED_CHANNELS_SUPPORTED: u16 = 0x0003;

pub const INFORMATION_RESULT_SUCCESS: u16 = 0x0000;

pub const INFORMATION_RESULT_NOT_SUPPORTED: u16 = 0x0001;

pub const CONNECTION_SUCCESSFUL: u16 = 0x0000;

pub const CONNECTION_PENDING: u16 = 0x0001;

pub const CONNECTION_REFUSED_PSM_NOT_SUPPORTED: u16 = 0x0002;

pub const CONNECTION_REFUSED_NO_RESOURCES_AVAILABLE: u16 = 0x0004;

pub const CONFIGURATION_SUCCESS: u16 = 0x0000;

pub const CONFIGURATION_UNACCEPTABLE_PARAMETERS: u16 = 0x0001;

pub const CONFIGURATION_REJECTED: u16 = 0x0002;

pub const CONFIGURATION_UNKNOWN_OPTIONS: u16 = 0x0003;

pub const CONFIGURATION_OPTION_MTU: u8 = 0x01;

pub const CONFIGURATION_OPTION_RETRANSMISSION_AND_FLOW_CONTROL: u8 = 0x04;

pub const CONFIGURATION_OPTION_FCS: u8 = 0x05;

/// A frame or a request that L2CAP refuses, with the reason.
#[derive(Clone, Debug, PartialEq, Eq)]
pub enum Error {
    InvalidPacket(String),
}

impl View for Error {
    type V = Seq<char>;

    open spec fn view(&self) -> Seq<char> {
        match self {
            Error::InvalidPacket(message) => message@,
        }
    }
}

impl Error {
    /// The error with this reason.
    pub fn new(reason: &str) -> (error: Error)
        ensures
            error@ == reason@,
    {
        Error::InvalidPacket(reason.to_owned())
    }

    /// An error with the same reason.
    pub fn copy(&self) -> (error: Error)
        ensures
            error@ == self@,
    {
        match self {
            Error::InvalidPacket(message) => Error::new(message.as_str()),
        }
    }

    /// The text shown for the error.
    pub fn message(&self) -> (text: String)
        ensures
            text@ == "invalid packet: "@ + self@,
    {
        match self {
            Error::InvalidPacket(reason) => {
                let mut text = "invalid packet: ".to_owned();
                text.append(reason.as_str());
                text
            },
        }
    }
}

/// Whether an L2CAP operation returned the expected value or the expected reason.
pub open spec fn agrees<T: View>(
    actual: Result<T, Error>,
    expected: Result<T::V, Seq<char>>,
) -> bool {
    match (actual, expected) {
        (Ok(value), Ok(model)) => value@ == model,
        (Err(error), Err(reason)) => error@ == reason,
        _ => false,
    }
}

/// One step of the frame check sequence: the register shifted by one bit.
pub open spec fn crc_bit(crc: u16) -> u16 {
    if crc & 0x0001 != 0 {
        (crc >> 1) ^ 0xA001
    } else {
        crc >> 1
    }
}

/// The register after `bits` steps.
pub open spec fn crc_bits(crc: u16, bits: nat) -> u16
    decreases bits,
{
    if bits == 0 {
        crc
    } else {
        crc_bit(crc_bits(crc, (bits - 1) as nat))
    }
}

/// The frame check sequence of `data`: the CRC with reversed polynomial
/// `0xA001`, starting from zero.
pub open spec fn crc(data: Seq<u8>) -> u16
    decreases data.len(),
{
    if data.len() == 0 {
        0
    } else {
        crc_bits(crc(data.drop_last()) ^ (data.last() as u16), 8)
    }
}

/// The frame check sequence of `data`.
pub fn crc_16(data: &[u8]) -> (check: u16)
    ensures
        check == crc(data@),
{
    let mut check: u16 = 0x0000;
    let mut index: usize = 0;
    assert(data@.take(0) =~= Seq::<u8>::empty());
    while index < data.len()
        invariant
            index <= data@.len(),
            check == crc(data@.take(index as int)),
        decreases data@.len() - index,
    {
        check = check ^ (data[index] as u16);
        let ghost start = check;
        let mut bit: usize = 0;
        while bit < 8
            invariant
                bit <= 8,
                check == crc_bits(start, bit as nat),
            decreases 8 - bit,
        {
            if check & 0x0001 != 0 {
                check = (check >> 1) ^ 0xA001;
            } else {
                check = check >> 1;
            }
            bit = bit + 1;
        }
        assert(data@.take(index + 1).drop_last() =~= data@.take(index as int));
        index = index + 1;
    }
    assert(data@.take(data@.len() as int) =~= data@);
    check
}

/// The bytes of a PSM: its low 16 bits little-endian, then one byte for each
/// further 8 bits that are in use.
pub open spec fn psm_bytes(psm: u32) -> Seq<u8> {
    if psm < 65536 {
        le16(psm as u16)
    } else if psm < 16777216 {
        le32(psm).take(3)
    } else {
        le32(psm)
    }
}

/// The bytes of a PSM.
#[verifier::spinoff_prover]
pub fn serialize_psm(psm: u32) -> (bytes: Vec<u8>)
    ensures
        bytes@ == psm_bytes(psm),
{
    let mut bytes: Vec<u8> = Vec::new();
    push_le16(&mut bytes, (psm % 65536) as u16);
    let mut rest: u32 = psm / 65536;
    if rest != 0 {
        bytes.push((rest % 256) as u8);
        rest = rest / 256;
        if rest != 0 {
            bytes.push(rest as u8);
        }
    }
    assert(bytes@ =~= psm_bytes(psm));
    bytes
}

/// Where a PSM field ends whose length is decided from position `at` on: just
/// after the first even byte.
pub open spec fn psm_end(data: Seq<u8>, at: int) -> Option<int>
    decreases data.len() - at,
{
    if at < 0 || at >= data.len() {
        None
    } else if data[at] % 2 == 0 {
        Some(at + 1)
    } else {
        psm_end(data, at + 1)
    }
}

/// The value of a PSM field: each byte stands eight bits above the one before,
/// and from the fifth byte on the positions start again at the lowest.
pub open spec fn psm_value(field: Seq<u8>) -> u32
    decreases field.len(),
{
    if field.len() == 0 {
        0
    } else {
        let index = field.len() - 1;
        psm_value(field.drop_last()) | ((field.last() as u32) << ((8 * (index % 4)) as u32))
    }
}

/// The PSM at `offset` and the position after it.
pub open spec fn psm_at(data: Seq<u8>, offset: int) -> Result<(usize, u32), Seq<char>> {
    if offset + 2 > data.len() {
        Err("not enough data for PSM"@)
    } else {
        match psm_end(data, offset + 1) {
            None => Err("truncated PSM"@),
            Some(end) => Ok((end as usize, psm_value(data.subrange(offset, end)))),
        }
    }
}

/// Whether the bytes of `psm` mark their own end: all bytes between the first
/// and the last are odd, and the last one is even.
pub open spec fn self_delimiting_psm(psm: u32) -> bool {
    if psm < 65536 {
        psm / 256 % 2 == 0
    } else if psm < 16777216 {
        psm / 256 % 2 == 1 && psm / 65536 % 2 == 0
    } else {
        psm / 256 % 2 == 1 && psm / 65536 % 2 == 1 && psm / 16777216 % 2 == 0
    }
}

/// Reads a PSM, which takes at least two bytes and goes on while the byte read
/// last is odd. Returns the position after it and its value.
pub fn parse_psm(data: &[u8], offset: usize) -> (result: Result<(usize, u32), Error>)
    ensures
        agrees(result, psm_at(data@, offset as int)),
{
    if data.len() < 2 || offset > data.len() - 2 {
        return Err(Error::new("not enough data for PSM"));
    }
    let mut psm: u32 = data[offset] as u32;
    let mut next: usize = offset + 1;
    proof {
        let field = data@.subrange(offset as int, next as int);
        assert(field.drop_last() =~= Seq::<u8>::empty());
        let byte = data@[offset as int] as u32;
        assert(0u32 | (byte << 0u32) == byte) by (bit_vector);
        assert(psm_value(field.drop_last()) == 0);
        assert(psm_value(field) == byte);
    }
    let mut last: u8 = 1;
    while last % 2 == 1
        invariant
            offset < next <= data@.len(),
            offset + 2 <= data@.len(),
            psm == psm_value(data@.subrange(offset as int, next as int)),
            last % 2 == 1 ==> psm_end(data@, offset + 1) == psm_end(data@, next as int),
            last % 2 == 0 ==> psm_end(data@, offset + 1) == Some(next as int),
        decreases data@.len() - next,
    {
        if next >= data.len() {
            return Err(Error::new("truncated PSM"));
        }
        last = data[next];
        let index: usize = next - offset;
        proof {
            let field = data@.subrange(offset as int, next + 1);
            assert(field.drop_last() =~= data@.subrange(offset as int, next as int));
        }
        let shift: u32 = (8 * (index % 4)) as u32;
        psm = psm | ((last as u32) << shift);
        next = next + 1;
    }
    Ok((next, psm))
}

proof fn lemma_psm_value(psm: u32)
    requires
        self_delimiting_psm(psm),
    ensures
        psm_value(psm_bytes(psm)) == psm,
{
    let field = psm_bytes(psm);
    let b0 = field[0] as u32;
    let b1 = field[1] as u32;
    reveal_with_fuel(psm_value, 5);
    assert((0u32 | ((psm % 256) << 0u32)) | ((psm / 256 % 256) << 8u32) == psm % 65536)
        by (bit_vector);
    assert((psm % 65536) | ((psm / 65536 % 256) << 16u32) == psm % 16777216) by (bit_vector);
    assert((psm % 16777216) | ((psm / 16777216) << 24u32) == psm) by (bit_vector);
    let two = field.take(2);
    assert(two.drop_last().drop_last() =~= Seq::<u8>::empty());
    assert(psm_value(two.drop_last()) == (0u32 | (b0 << 0u32)));
    assert(psm_value(two) == psm % 65536);
    if psm < 65536 {
        assert(two =~= field);
    } else {
        let three = field.take(3);
        assert(three.drop_last() =~= two);
        assert(psm_value(three) == psm % 16777216);
        if psm < 16777216 {
            assert(three =~= field);
        } else {
            assert(field.drop_last() =~= three);
        }
    }
}

/// A PSM whose bytes mark their own end is read back from them, whatever follows.
pub proof fn psm_reads_back(psm: u32, tail: Seq<u8>)
    requires
        self_delimiting_psm(psm),
    ensures
        psm_at(psm_bytes(psm) + tail, 0) == Ok::<(usize, u32), Seq<char>>(
            (psm_bytes(psm).len() as usize, psm),
        ),
{
    let data = psm_bytes(psm) + tail;
    lemma_psm_value(psm);
    reveal_with_fuel(psm_end, 4);
    assert(data.subrange(0, psm_bytes(psm).len() as int) =~= psm_bytes(psm));
}

/// The contents of an L2CAP data unit.
pub struct L2capPduV {
    pub cid: u16,
    pub payload: Seq<u8>,
}

impl L2capPduV {
    /// The bytes of the unit: length, channel identifier, payload and, where
    /// asked for, the frame check sequence over all that precedes it.
    pub open spec fn encode(self, with_fcs: bool) -> Seq<u8> {
        let length = self.payload.len() + if with_fcs {
            2int
        } else {
            0int
        };
        let body = le16((length % 65536) as u16) + le16(self.cid) + self.payload;
        if with_fcs {
            body + le16(crc(body))
        } else {
            body
        }
    }

    pub open spec fn decode(data: Seq<u8>) -> Result<L2capPduV, Seq<char>> {
        if data.len() < 4 {
            Err("not enough data for L2CAP header"@)
        } else {
            let declared = 4 + le16_at(data, 0);
            let end = if declared < data.len() {
                declared
            } else {
                data.len() as int
            };
            Ok(L2capPduV { cid: le16_at(data, 2), payload: data.subrange(4, end) })
        }
    }
}

/// An L2CAP data unit: a channel identifier and a payload.
#[derive(Clone, Debug, PartialEq, Eq)]
pub struct L2capPdu {
    pub cid: u16,
    pub payload: Vec<u8>,
}

impl View for L2capPdu {
    type V = L2capPduV;

    open spec fn view(&self) -> L2capPduV {
        L2capPduV { cid: self.cid, payload: self.payload@ }
    }
}

impl L2capPdu {
    pub fn new(cid: u16, payload: Vec<u8>) -> (pdu: L2capPdu)
        ensures
            pdu@ == (L2capPduV { cid, payload: payload@ }),
    {
        L2capPdu { cid, payload }
    }

    /// Reads a unit. The payload is as long as the header says, or shorter
    /// where fewer bytes are there.
    pub fn from_bytes(data: &[u8]) -> (result: Result<L2capPdu, Error>)
        ensures
            agrees(result, L2capPduV::decode(data@)),
    {
        if data.len() < 4 {
            return Err(Error::new("not enough data for L2CAP header"));
        }
        let declared: usize = 4 + read_le16(data, 0) as usize;
        let end: usize = if declared < data.len() {
            declared
        } else {
            data.len()
        };
        Ok(L2capPdu { cid: read_le16(data, 2), payload: copy_range(data, 4, end) })
    }

    /// The bytes of the unit.
    #[verifier::spinoff_prover]
    pub fn to_bytes(&self, with_fcs: bool) -> (body: Vec<u8>)
        ensures
            body@ == self@.encode(with_fcs),
    {
        let extra: usize = if with_fcs {
            2
        } else {
            0
        };
        let low: usize = self.payload.len() % 65536;
        let length: usize = (low + extra) % 65536;
        proof {
            let payload = self.payload@.len() as int;
            vstd::arithmetic::div_mod::lemma_fundamental_div_mod(payload, 65536);
            vstd::arithmetic::div_mod::lemma_mod_multiples_vanish(
                payload / 65536,
                low + extra,
                65536,
            );
        }
        let mut body: Vec<u8> = Vec::new();
        push_le16(&mut body, length as u16);
        push_le16(&mut body, self.cid);
        append_bytes(&mut body, &self.payload);
        assert(body@ =~= le16(length as u16) + le16(self.cid) + self.payload@);
        if with_fcs {
            let check: u16 = crc_16(&body);
            push_le16(&mut body, check);
        }
        body
    }
}

/// A data unit whose length fits the header is read back from its bytes; the
/// frame check sequence, where there is one, comes at the end of the payload.
pub proof fn pdu_reads_back(pdu: L2capPduV, with_fcs: bool)
    requires
        pdu.payload.len() + (if with_fcs {
            2int
        } else {
            0int
        }) <= 65535,
    ensures
        L2capPduV::decode(pdu.encode(with_fcs)) == Ok::<L2capPduV, Seq<char>>(
            if with_fcs {
                L2capPduV {
                    cid: pdu.cid,
                    payload: pdu.payload + le16(crc(pdu.encode(true).drop_last().drop_last())),
                }
            } else {
                pdu
            },
        ),
{
    let bytes = pdu.encode(with_fcs);
    let payload = bytes.subrange(4, bytes.len() as int);
    if with_fcs {
        let body = le16(((pdu.payload.len() + 2) % 65536) as u16) + le16(pdu.cid) + pdu.payload;
        assert(bytes.drop_last().drop_last() =~= body);
        assert(payload =~= pdu.payload + le16(crc(body)));
    } else {
        assert(payload =~= pdu.payload);
    }
}

/// The contents of a configuration option.
pub struct ConfigurationOptionV {
    pub option_type: u8,
    pub hint: bool,
    pub value: Seq<u8>,
}

impl ConfigurationOptionV {
    /// The first byte of the entry: the type, with bit 7 set for a hint.
    pub open spec fn tag(self) -> u8 {
        self.option_type | if self.hint {
            0x80u8
        } else {
            0u8
        }
    }

    pub open spec fn encode(self) -> Seq<u8> {
        seq![self.tag(), self.value.len() as u8] + self.value
    }

    /// An option that the wire format can carry.
    pub open spec fn valid(self) -> bool {
        self.option_type < 0x80 && self.value.len() <= 255
    }
}

/// The option read from an entry's first byte and value.
pub open spec fn option_from(tag: u8, value: Seq<u8>) -> ConfigurationOptionV {
    ConfigurationOptionV { option_type: tag & 0x7f, hint: tag & 0x80 != 0, value }
}

/// Options as consecutive type, length and value entries.
pub open spec fn encode_options(options: Seq<ConfigurationOptionV>) -> Seq<u8>
    decreases options.len(),
{
    if options.len() == 0 {
        seq![]
    } else {
        options[0].encode() + encode_options(options.skip(1))
    }
}

/// The options in consecutive entries, or the reason the first bad entry is refused.
pub open spec fn decode_options(data: Seq<u8>) -> Result<Seq<ConfigurationOptionV>, Seq<char>>
    decreases data.len(),
{
    if data.len() == 0 {
        Ok(seq![])
    } else if data.len() < 2 {
        Err("truncated configuration option header"@)
    } else if data.len() < 2 + data[1] {
        Err("truncated configuration option value"@)
    } else {
        let end = 2 + data[1];
        match decode_options(data.skip(end)) {
            Ok(rest) => Ok(seq![option_from(data[0], data.subrange(2, end))] + rest),
            Err(reason) => Err(reason),
        }
    }
}

/// One type/length/value entry of a configuration frame.
///
/// Bit 7 of the wire type is the hint bit. Unknown hinted options may be
/// ignored; unknown options without it must be refused.
#[derive(Clone, Debug, PartialEq, Eq)]
pub struct ConfigurationOption {
    pub option_type: u8,
    pub hint: bool,
    pub value: Vec<u8>,
}

impl View for ConfigurationOption {
    type V = ConfigurationOptionV;

    open spec fn view(&self) -> ConfigurationOptionV {
        ConfigurationOptionV {
            option_type: self.option_type,
            hint: self.hint,
            value: self.value@,
        }
    }
}

impl ConfigurationOption {
    pub fn new(option_type: u8, value: Vec<u8>) -> (option: Self)
        ensures
            option@ == (ConfigurationOptionV {
                option_type: option_type & 0x7f,
                hint: false,
                value: value@,
            }),
    {
        ConfigurationOption { option_type: option_type & 0x7f, hint: false, value }
    }

    /// An option with the same contents.
    pub fn copy(&self) -> (option: Self)
        ensures
            option@ == self@,
    {
        ConfigurationOption {
            option_type: self.option_type,
            hint: self.hint,
            value: copy_bytes(&self.value),
        }
    }

    pub fn hinted(option_type: u8, value: Vec<u8>) -> (option: Self)
        ensures
            option@ == (ConfigurationOptionV {
                option_type: option_type & 0x7f,
                hint: true,
                value: value@,
            }),
    {
        ConfigurationOption { option_type: option_type & 0x7f, hint: true, value }
    }
}

/// The contents of a list of options.
pub open spec fn option_views(options: Seq<ConfigurationOption>) -> Seq<ConfigurationOptionV> {
    options.map_values(|option: ConfigurationOption| option@)
}

/// Whether every option's value fits a one-byte length.
pub open spec fn option_values_fit(options: Seq<ConfigurationOptionV>) -> bool {
    forall|i: int| 0 <= i < options.len() ==> (#[trigger] options[i]).value.len() <= 255
}

/// The entries of a list of options, or the reason they cannot be written.
pub open spec fn checked_options(options: Seq<ConfigurationOptionV>) -> Result<
    Seq<u8>,
    Seq<char>,
> {
    if option_values_fit(options) {
        Ok(encode_options(options))
    } else {
        Err("configuration option is too long"@)
    }
}

/// Writes configuration options as type/length/value entries.
pub fn encode_configuration_options(options: &[ConfigurationOption]) -> (result: Result<
    Vec<u8>,
    Error,
>)
    ensures
        agrees(result, checked_options(option_views(options@))),
{
    let mut encoded: Vec<u8> = Vec::new();
    let mut index: usize = 0;
    let ghost all = option_views(options@);
    assert(all.skip(0) =~= all);
    assert(encoded@ + encode_options(all) =~= encode_options(all));
    while index < options.len()
        invariant
            index <= options@.len(),
            all == option_views(options@),
            encode_options(all) == encoded@ + encode_options(all.skip(index as int)),
            forall|i: int| 0 <= i < index ==> (#[trigger] all[i]).value.len() <= 255,
        decreases options@.len() - index,
    {
        let option = &options[index];
        if option.value.len() > 255 {
            assert(!option_values_fit(all)) by {
                assert(all[index as int].value.len() > 255);
            }
            return Err(Error::new("configuration option is too long"));
        }
        let ghost before = encoded@;
        let ghost rest = all.skip(index as int);
        let flag: u8 = if option.hint {
            0x80
        } else {
            0
        };
        encoded.push(option.option_type | flag);
        encoded.push(option.value.len() as u8);
        append_bytes(&mut encoded, &option.value);
        proof {
            assert(rest[0] == option@);
            assert(rest.skip(1) =~= all.skip(index + 1));
            assert(encoded@ =~= before + option@.encode());
            assert(encoded@ + encode_options(all.skip(index + 1)) =~= before + (option@.encode()
                + encode_options(all.skip(index + 1))));
        }
        index = index + 1;
    }
    assert(all.skip(index as int) =~= Seq::<ConfigurationOptionV>::empty());
    assert(encoded@ =~= encode_options(all));
    Ok(encoded)
}

/// Reads configuration options, refusing truncated entries.
pub fn decode_configuration_options(data: &[u8]) -> (result: Result<
    Vec<ConfigurationOption>,
    Error,
>)
    ensures
        match (result, decode_options(data@)) {
            (Ok(options), Ok(expected)) => option_views(options@) == expected,
            (Err(error), Err(reason)) => error@ == reason,
            _ => false,
        },
{
    let mut options: Vec<ConfigurationOption> = Vec::new();
    let mut at: usize = 0;
    let ghost all = decode_options(data@);
    assert(data@.skip(0) =~= data@);
    proof {
        if all is Ok {
            assert(option_views(options@) + all->Ok_0 =~= all->Ok_0);
        }
    }
    while at < data.len()
        invariant
            at <= data@.len(),
            all == decode_options(data@),
            match decode_options(data@.skip(at as int)) {
                Ok(rest) => all == Ok::<Seq<ConfigurationOptionV>, Seq<char>>(
                    option_views(options@) + rest,
                ),
                Err(reason) => all == Err::<Seq<ConfigurationOptionV>, Seq<char>>(reason),
            },
        decreases data@.len() - at,
    {
        let ghost rest = data@.skip(at as int);
        if data.len() - at < 2 {
            return Err(Error::new("truncated configuration option header"));
        }
        let raw_type: u8 = data[at];
        let length: usize = data[at + 1] as usize;
        if data.len() - at < 2 + length {
            return Err(Error::new("truncated configuration option value"));
        }
        let option = ConfigurationOption {
            option_type: raw_type & 0x7f,
            hint: raw_type & 0x80 != 0,
            value: copy_range(data, at + 2, at + 2 + length),
        };
        let ghost before = option_views(options@);
        let ghost model = option@;
        options.push(option);
        at = at + 2 + length;
        proof {
            assert(rest.subrange(2, 2 + length) =~= model.value);
            assert(rest.skip(2 + length) =~= data@.skip(at as int));
            assert(option_views(options@) =~= before.push(model));
            if decode_options(data@.skip(at as int)) is Ok {
                let tail = decode_options(data@.skip(at as int))->Ok_0;
                assert(before + (seq![model] + tail) =~= option_views(options@) + tail);
            }
        }
    }
    assert(data@.skip(at as int) =~= Seq::<u8>::empty());
    assert(option_views(options@) + Seq::<ConfigurationOptionV>::empty() =~= option_views(
        options@,
    ));
    Ok(options)
}

/// Options that the wire format can carry are read back from their entries.
pub proof fn options_read_back(options: Seq<ConfigurationOptionV>)
    requires
        forall|i: int| 0 <= i < options.len() ==> (#[trigger] options[i]).valid(),
    ensures
        decode_options(encode_options(options)) == Ok::<Seq<ConfigurationOptionV>, Seq<char>>(
            options,
        ),
    decreases options.len(),
{
    if options.len() > 0 {
        let first = options[0];
        let rest = options.skip(1);
        let data = encode_options(options);
        options_read_back(rest);
        let kind = first.option_type;
        assert((kind | 0x80u8) & 0x7f == kind && (kind | 0u8) & 0x7f == kind && (kind | 0x80u8)
            & 0x80 != 0 && (kind | 0u8) & 0x80 == 0) by (bit_vector)
            requires
                kind < 0x80,
        ;
        assert(data.subrange(2, 2 + first.value.len() as int) =~= first.value);
        assert(data.skip(2 + first.value.len() as int) =~= encode_options(rest));
        assert(seq![first] + rest =~= options);
    } else {
        assert(options =~= Seq::<ConfigurationOptionV>::empty());
    }
}

/// Entries that are accepted are exactly the entries of the options read.
pub proof fn options_write_back(data: Seq<u8>)
    requires
        decode_options(data) is Ok,
    ensures
        encode_options(decode_options(data)->Ok_0) == data,
    decreases data.len(),
{
    if data.len() > 0 {
        let end = 2 + data[1];
        let tail = data.skip(end);
        options_write_back(tail);
        let options = decode_options(data)->Ok_0;
        let tag = data[0];
        assert((tag & 0x80 != 0 ==> (tag & 0x7f) | 0x80u8 == tag) && (tag & 0x80 == 0 ==> (tag
            & 0x7f) | 0u8 == tag)) by (bit_vector);
        assert(options.skip(1) =~= decode_options(tail)->Ok_0);
        assert(options[0].encode() + tail =~= data);
    } else {
        assert(data =~= Seq::<u8>::empty());
    }
}

} // verus!
