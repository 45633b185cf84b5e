//! What each end tells the other about itself in information requests and
//! responses.

use vstd::prelude::*;

use super::control::{ControlFrame, ControlFrameV};
use super::{
    Error, INFORMATION_RESULT_NOT_SUPPORTED, INFORMATION_RESULT_SUCCESS,
    INFORMATION_TYPE_CONNECTIONLESS_MTU, INFORMATION_TYPE_EXTENDED_FEATURES_SUPPORTED,
    INFORMATION_TYPE_FIXED_CHANNELS_SUPPORTED, L2CAP_DEFAULT_CONNECTIONLESS_MTU,
};
use crate::bytes::{le16, le32, le64, push_le16, push_le32, push_le64};
use crate::text::{hex_number, hex_number_text};

verus! {

/// Local values returned to a peer's information request.
#[derive(Clone, Copy, Debug, PartialEq, Eq, Structural)]
pub struct InformationCapabilities {
    connectionless_mtu: u16,
    extended_features: u32,
    fixed_channels: u64,
}

impl Default for InformationCapabilities {
    fn default() -> (capabilities: Self)
        ensures
            capabilities == InformationCapabilities::initial(),
    {
        InformationCapabilities {
            connectionless_mtu: L2CAP_DEFAULT_CONNECTIONLESS_MTU,
            extended_features: 0,
            fixed_channels: 2,
        }
    }
}

/// The sum of feature bits.
pub open spec fn feature_sum(features: Seq<u16>) -> int
    decreases features.len(),
{
    if features.len() == 0 {
        0
    } else {
        feature_sum(features.drop_last()) + features.last()
    }
}

/// The mask bit of a fixed channel.
pub open spec fn channel_bit(cid: u16) -> u64 {
    1u64 << (cid as u64)
}

/// The reason for refusing a fixed channel that the mask has no bit for.
pub open spec fn unrepresentable_channel(cid: u16) -> Seq<char> {
    "fixed channel CID "@ + hex_number(cid as u32)
        + " cannot be represented in the information mask"@
}

impl InformationCapabilities {
    /// Only the signaling channel, the default connectionless MTU and no features.
    pub closed spec fn initial() -> InformationCapabilities {
        InformationCapabilities {
            connectionless_mtu: L2CAP_DEFAULT_CONNECTIONLESS_MTU,
            extended_features: 0,
            fixed_channels: 2,
        }
    }

    pub closed spec fn mtu(self) -> u16 {
        self.connectionless_mtu
    }

    pub closed spec fn features(self) -> u32 {
        self.extended_features
    }

    pub closed spec fn channels(self) -> u64 {
        self.fixed_channels
    }

    /// The capabilities with other features.
    pub closed spec fn with_features(self, extended_features: u32) -> InformationCapabilities {
        InformationCapabilities { extended_features, ..self }
    }

    /// The capabilities with another connectionless MTU.
    pub closed spec fn with_mtu(self, connectionless_mtu: u16) -> InformationCapabilities {
        InformationCapabilities { connectionless_mtu, ..self }
    }

    /// The capabilities with another fixed channel mask.
    pub closed spec fn with_channels(self, fixed_channels: u64) -> InformationCapabilities {
        InformationCapabilities { fixed_channels, ..self }
    }

    /// The answer to an information request.
    pub open spec fn answer(self, identifier: u8, info_type: u16) -> ControlFrameV {
        let supported = 1 <= info_type <= 3;
        ControlFrameV::InformationResponse {
            identifier,
            info_type,
            result: if supported {
                INFORMATION_RESULT_SUCCESS
            } else {
                INFORMATION_RESULT_NOT_SUPPORTED
            },
            data: if info_type == INFORMATION_TYPE_CONNECTIONLESS_MTU {
                le16(self.mtu())
            } else if info_type == INFORMATION_TYPE_EXTENDED_FEATURES_SUPPORTED {
                le32(self.features())
            } else if info_type == INFORMATION_TYPE_FIXED_CHANNELS_SUPPORTED {
                le64(self.channels())
            } else {
                seq![]
            },
        }
    }

    /// The default capabilities with the given extended features.
    pub fn new(extended_features: Vec<u16>) -> (capabilities: Self)
        requires
            feature_sum(extended_features@) <= u32::MAX,
        ensures
            capabilities == InformationCapabilities::initial().with_features(
                feature_sum(extended_features@) as u32,
            ),
    {
        let mut sum: u32 = 0;
        let mut index: usize = 0;
        assert(extended_features@.take(0) =~= Seq::<u16>::empty());
        while index < extended_features.len()
            invariant
                index <= extended_features@.len(),
                sum == feature_sum(extended_features@.take(index as int)),
                feature_sum(extended_features@) <= u32::MAX,
            decreases extended_features@.len() - index,
        {
            proof {
                lemma_feature_sum_grows(extended_features@, index + 1);
                assert(extended_features@.take(index + 1).drop_last() =~= extended_features@.take(
                    index as int,
                ));
            }
            sum = sum + extended_features[index] as u32;
            index = index + 1;
        }
        assert(extended_features@.take(index as int) =~= extended_features@);
        InformationCapabilities {
            connectionless_mtu: L2CAP_DEFAULT_CONNECTIONLESS_MTU,
            extended_features: sum,
            fixed_channels: 2,
        }
    }

    pub fn connectionless_mtu(&self) -> (mtu: u16)
        ensures
            mtu == self.mtu(),
    {
        self.connectionless_mtu
    }

    pub fn set_connectionless_mtu(&mut self, connectionless_mtu: u16)
        ensures
            *final(self) == old(self).with_mtu(connectionless_mtu),
    {
        self.connectionless_mtu = connectionless_mtu;
    }

    pub fn extended_features(&self) -> (features: u32)
        ensures
            features == self.features(),
    {
        self.extended_features
    }

    pub fn fixed_channels(&self) -> (channels: u64)
        ensures
            channels == self.channels(),
    {
        self.fixed_channels
    }

    /// Sets the mask bit of a fixed channel.
    pub fn register_fixed_channel(&mut self, cid: u16) -> (result: Result<(), Error>)
        ensures
            match result {
                Ok(_) => cid < 64 && *final(self) == old(self).with_channels(
                    old(self).channels() | channel_bit(cid),
                ),
                Err(error) => cid >= 64 && error@ == unrepresentable_channel(cid) && *final(self)
                    == *old(self),
            },
    {
        if cid >= 64 {
            let mut reason = "fixed channel CID ".to_owned();
            reason.append(hex_number_text(cid as u32).as_str());
            reason.append(" cannot be represented in the information mask");
            return Err(Error::InvalidPacket(reason));
        }
        self.fixed_channels = self.fixed_channels | (1u64 << (cid as u64));
        Ok(())
    }

    /// Clears the mask bit of a fixed channel, and says whether it was set.
    pub fn deregister_fixed_channel(&mut self, cid: u16) -> (was_registered: bool)
        ensures
            cid >= 64 ==> !was_registered && *final(self) == *old(self),
            cid < 64 ==> was_registered == (old(self).channels() & channel_bit(cid) != 0),
            cid < 64 ==> *final(self) == old(self).with_channels(
                old(self).channels() & !channel_bit(cid),
            ),
    {
        if cid >= 64 {
            return false;
        }
        let bit: u64 = 1u64 << (cid as u64);
        let was_registered = self.fixed_channels & bit != 0;
        self.fixed_channels = self.fixed_channels & !bit;
        was_registered
    }

    /// The answer to an information request.
    pub fn response(&self, identifier: u8, info_type: u16) -> (frame: ControlFrame)
        ensures
            frame@ == self.answer(identifier, info_type),
    {
        let mut data: Vec<u8> = Vec::new();
        let mut result: u16 = INFORMATION_RESULT_SUCCESS;
        match info_type {
            INFORMATION_TYPE_CONNECTIONLESS_MTU => {
                push_le16(&mut data, self.connectionless_mtu);
                assert(data@ =~= le16(self.mtu()));
            },
            INFORMATION_TYPE_EXTENDED_FEATURES_SUPPORTED => {
                push_le32(&mut data, self.extended_features);
                assert(data@ =~= le32(self.features()));
            },
            INFORMATION_TYPE_FIXED_CHANNELS_SUPPORTED => {
                push_le64(&mut data, self.fixed_channels);
                assert(data@ =~= le64(self.channels()));
            },
            _ => {
                result = INFORMATION_RESULT_NOT_SUPPORTED;
                assert(data@ =~= seq![]);
            },
        }
        ControlFrame::InformationResponse { identifier, info_type, result, data }
    }
}

proof fn lemma_feature_sum_grows(features: Seq<u16>, count: int)
    requires
        0 <= count <= features.len(),
    ensures
        0 <= feature_sum(features.take(count)) <= feature_sum(features),
    decreases features.len(),
{
    if count == features.len() {
        assert(features.take(count) =~= features);
        if count > 0 {
            lemma_feature_sum_grows(features.drop_last(), count - 1);
            assert(features.drop_last().take(count - 1) =~= features.drop_last());
        }
    } else {
        lemma_feature_sum_grows(features.drop_last(), count);
        assert(features.drop_last().take(count) =~= features.take(count));
    }
}

/// A fixed channel that was registered reads as registered, and no longer after
/// it was deregistered; no other channel's bit changes.
pub proof fn fixed_channel_mask(mask: u64, cid: u16, other: u16)
    requires
        cid < 64,
        other < 64,
        cid != other,
    ensures
        (mask | channel_bit(cid)) & channel_bit(cid) != 0,
        (mask & !channel_bit(cid)) & channel_bit(cid) == 0,
        (mask | channel_bit(cid)) & channel_bit(other) == mask & channel_bit(other),
        (mask & !channel_bit(cid)) & channel_bit(other) == mask & channel_bit(other),
{
    let c = cid as u64;
    let o = other as u64;
    assert((mask | (1u64 << c)) & (1u64 << c) != 0 && (mask & !(1u64 << c)) & (1u64 << c) == 0 && (
    mask | (1u64 << c)) & (1u64 << o) == mask & (1u64 << o) && (mask & !(1u64 << c)) & (1u64 << o)
        == mask & (1u64 << o)) by (bit_vector)
        requires
            c < 64,
            o < 64,
            c != o,
    ;
}

/// The default mask names the signaling channel alone, and not the one of low energy links.
pub proof fn default_mask_names_signaling_only()
    ensures
        InformationCapabilities::initial().channels() == channel_bit(super::L2CAP_SIGNALING_CID),
        InformationCapabilities::initial().channels() & channel_bit(super::L2CAP_LE_SIGNALING_CID)
            == 0,
{
    assert(1u64 << 1u64 == 2 && 2u64 & (1u64 << 5u64) == 0) by (bit_vector);
}

/// A new link takes connectionless data of 1024 bytes, has no features, and has
/// the signaling channel alone, whose bit is the second.
pub proof fn default_capabilities_are_the_least()
    ensures
        InformationCapabilities::initial().mtu() == 1024,
        InformationCapabilities::initial().features() == 0,
        InformationCapabilities::initial().channels() == 2,
{
}

/// Each capability that is set reads back, and leaves the others as they were.
pub proof fn capabilities_are_independent(
    capabilities: InformationCapabilities,
    mtu: u16,
    features: u32,
    channels: u64,
)
    ensures
        ({
            let after = capabilities.with_mtu(mtu);
            after.mtu() == mtu && after.features() == capabilities.features() && after.channels()
                == capabilities.channels()
        }),
        ({
            let after = capabilities.with_features(features);
            after.mtu() == capabilities.mtu() && after.features() == features && after.channels()
                == capabilities.channels()
        }),
        ({
            let after = capabilities.with_channels(channels);
            after.mtu() == capabilities.mtu() && after.features() == capabilities.features()
                && after.channels() == channels
        }),
{
}

/// A peer's answer to an information request.
pub struct InformationResponseV {
    pub identifier: u8,
    pub info_type: u16,
    pub result: u16,
    pub data: Seq<u8>,
}

/// A peer's answer to an information request.
#[derive(Clone, Debug, PartialEq, Eq)]
pub struct InformationResponse {
    pub identifier: u8,
    pub info_type: u16,
    pub result: u16,
    pub data: Vec<u8>,
}

impl View for InformationResponse {
    type V = InformationResponseV;

    open spec fn view(&self) -> InformationResponseV {
        InformationResponseV {
            identifier: self.identifier,
            info_type: self.info_type,
            result: self.result,
            data: self.data@,
        }
    }
}

} // verus!
