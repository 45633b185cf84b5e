//! What the application sees of the backend: settings, capabilities, events,
//! errors and the storage of bonds.

use vstd::prelude::*;
use vstd::slice::slice_subrange;
use vstd::string::*;

use crate::bytes::copy_bytes;
use crate::classic_host::{HostError, HostErrorV};
use crate::hci::CodecError;
use crate::hid_service::HidpBridgeError;
use crate::text::{append_upper_hex_pair, decimal, decimal_text, upper_hex_pair};
use crate::values::{BluetoothAddress, ClassicBond, ClassicBondV};

verus! {

pub const EXTENDED_INQUIRY_RESPONSE_LEN: usize = 240;

pub const COMPLETE_LOCAL_NAME_DATA_TYPE: u8 = 0x09;

pub const MAX_COMPLETE_LOCAL_NAME_LEN: usize = 238;

/// Opaque selector for a USB Bluetooth adapter.
///
/// The selector is parsed only when a session is opened. It can contain a USB
/// serial number, so it is shown as [`AdapterSelector::redacted`] only.
#[derive(Clone, PartialEq, Eq, Hash)]
pub struct AdapterSelector(String);

impl View for AdapterSelector {
    type V = Seq<char>;

    closed spec fn view(&self) -> Seq<char> {
        self.0@
    }
}

impl AdapterSelector {
    /// The text of the selector.
    pub fn as_str(&self) -> (text: &str)
        ensures
            text@ == self@,
    {
        self.0.as_str()
    }

    /// The text to show for the selector, without what it selects.
    pub fn redacted(&self) -> (text: String)
        ensures
            text@ == "AdapterSelector(\"<redacted>\")"@,
    {
        "AdapterSelector(\"<redacted>\")".to_owned()
    }
}

impl vstd::std_specs::convert::FromSpecImpl<String> for AdapterSelector {
    closed spec fn obeys_from_spec() -> bool {
        true
    }

    closed spec fn from_spec(value: String) -> AdapterSelector {
        AdapterSelector(value)
    }
}

impl From<String> for AdapterSelector {
    fn from(value: String) -> (selector: Self)
        ensures
            selector@ == value@,
    {
        AdapterSelector(value)
    }
}

impl vstd::std_specs::convert::FromSpecImpl<&str> for AdapterSelector {
    open spec fn obeys_from_spec() -> bool {
        false
    }

    open spec fn from_spec(value: &str) -> AdapterSelector {
        arbitrary()
    }
}

impl From<&str> for AdapterSelector {
    fn from(value: &str) -> (selector: Self)
        ensures
            selector@ == value@,
    {
        AdapterSelector(value.to_owned())
    }
}

/// Callback invoked when the backend receives input or reaches a terminal state.
#[derive(Clone)]
pub struct ActivityNotifier<F: Fn()> {
    callback: F,
}

impl<F: Fn()> ActivityNotifier<F> {
    pub closed spec fn inner(self) -> F {
        self.callback
    }

    /// Creates a notifier from a callback.
    pub fn new(callback: F) -> (notifier: Self)
        ensures
            notifier.inner() == callback,
    {
        ActivityNotifier { callback }
    }

    /// Invokes the configured activity callback.
    pub fn notify(&self)
        requires
            call_requires(self.inner(), ()),
        ensures
            call_ensures(self.inner(), (), ()),
    {
        (self.callback)()
    }
}

/// Bluetooth identity policy applied before controller initialization.
#[derive(Clone, Copy, Debug, PartialEq, Eq)]
pub enum LocalIdentity {
    /// Retain the public address already reported by the adapter.
    AdapterDefault,
    /// Require the adapter to use the supplied public address.
    Explicit(BluetoothAddress),
}

impl Default for LocalIdentity {
    fn default() -> (identity: Self)
        ensures
            identity == LocalIdentity::AdapterDefault,
    {
        LocalIdentity::AdapterDefault
    }
}

/// SDP policy fields for one Bluetooth Classic HID service record.
#[derive(Debug, PartialEq, Eq)]
pub struct HidSdpPolicy {
    /// Primary service name advertised through SDP.
    pub service_name: String,
    /// Optional human-readable service description.
    pub service_description: Option<String>,
    /// Optional provider name.
    pub provider_name: Option<String>,
    /// Optional HID device release number.
    pub device_release_number: Option<u16>,
    /// Bluetooth profile descriptor version.
    pub bluetooth_profile_version: u16,
    /// HID parser version.
    pub parser_version: u16,
    /// HID device subclass.
    pub device_subclass: u8,
    /// HID country code.
    pub country_code: u8,
    /// Whether the device supports a virtual cable.
    pub virtual_cable: bool,
    /// Whether the device initiates reconnects.
    pub reconnect_initiate: bool,
    /// Optional remote-wake capability.
    pub remote_wake: Option<bool>,
    /// HID profile version.
    pub profile_version: u16,
    /// Link supervision timeout.
    pub supervision_timeout: u16,
    /// Whether the device is normally connectable.
    pub normally_connectable: bool,
    /// Whether the device supports the HID boot protocol.
    pub boot_device: bool,
    /// SSR host maximum latency.
    pub ssr_host_max_latency: u16,
    /// SSR host minimum timeout.
    pub ssr_host_min_timeout: u16,
}

impl Clone for HidSdpPolicy {
    fn clone(&self) -> (policy: Self)
        ensures
            policy == *self,
    {
        HidSdpPolicy {
            service_name: self.service_name.clone(),
            service_description: match &self.service_description {
                Some(description) => Some(description.clone()),
                None => None,
            },
            provider_name: match &self.provider_name {
                Some(provider) => Some(provider.clone()),
                None => None,
            },
            device_release_number: self.device_release_number,
            bluetooth_profile_version: self.bluetooth_profile_version,
            parser_version: self.parser_version,
            device_subclass: self.device_subclass,
            country_code: self.country_code,
            virtual_cable: self.virtual_cable,
            reconnect_initiate: self.reconnect_initiate,
            remote_wake: self.remote_wake,
            profile_version: self.profile_version,
            supervision_timeout: self.supervision_timeout,
            normally_connectable: self.normally_connectable,
            boot_device: self.boot_device,
            ssr_host_max_latency: self.ssr_host_max_latency,
            ssr_host_min_timeout: self.ssr_host_min_timeout,
        }
    }
}

/// HID report descriptor and SDP policy used by a session.
#[derive(Debug, PartialEq, Eq)]
pub struct HidServiceConfig {
    report_descriptor: Vec<u8>,
    sdp_policy: HidSdpPolicy,
}

impl Clone for HidServiceConfig {
    fn clone(&self) -> (config: Self)
        ensures
            config.descriptor() == self.descriptor(),
            config.policy() == self.policy(),
    {
        HidServiceConfig {
            report_descriptor: copy_bytes(&self.report_descriptor),
            sdp_policy: self.sdp_policy.clone(),
        }
    }
}

impl HidServiceConfig {
    pub closed spec fn descriptor(self) -> Seq<u8> {
        self.report_descriptor@
    }

    pub closed spec fn policy(self) -> HidSdpPolicy {
        self.sdp_policy
    }

    /// Creates a HID service definition.
    pub fn new(report_descriptor: Vec<u8>, sdp_policy: HidSdpPolicy) -> (config: Self)
        ensures
            config.descriptor() == report_descriptor@,
            config.policy() == sdp_policy,
    {
        HidServiceConfig { report_descriptor, sdp_policy }
    }

    /// Returns the HID report descriptor advertised through SDP.
    pub fn report_descriptor(&self) -> (descriptor: &[u8])
        ensures
            descriptor@ == self.descriptor(),
    {
        self.report_descriptor.as_slice()
    }

    /// Returns the SDP policy.
    pub fn sdp_policy(&self) -> (policy: &HidSdpPolicy)
        ensures
            *policy == self.policy(),
    {
        &self.sdp_policy
    }
}

/// Controller identity and HID service settings for one session.
#[derive(Debug, PartialEq, Eq)]
pub struct SessionConfig {
    local_name: String,
    class_of_device: u32,
    extended_inquiry_response: [u8; 240],
    complete_local_name_eir_len: usize,
    hid_service: HidServiceConfig,
}

/// The complete-local-name field of an extended inquiry response: its length,
/// its type and the name.
pub open spec fn name_field(name: Seq<u8>) -> Seq<u8> {
    seq![(name.len() + 1) as u8, COMPLETE_LOCAL_NAME_DATA_TYPE] + name
}

/// Bytes followed by zeros up to a length.
pub open spec fn zero_padded(bytes: Seq<u8>, length: int) -> Seq<u8> {
    Seq::new(
        length as nat,
        |i: int|
            if i < bytes.len() {
                bytes[i]
            } else {
                0u8
            },
    )
}

/// Whether a session can be configured with this name and class of device.
pub open spec fn valid_identity(name: Seq<u8>, class_of_device: u32) -> bool {
    1 <= name.len() <= MAX_COMPLETE_LOCAL_NAME_LEN && class_of_device <= 0x00ff_ffff
}

impl Clone for SessionConfig {
    fn clone(&self) -> (config: Self)
        ensures
            config.name() == self.name(),
            config.class() == self.class(),
            config.hid().descriptor() == self.hid().descriptor(),
            config.hid().policy() == self.hid().policy(),
    {
        proof {
            use_type_invariant(self);
        }
        SessionConfig {
            local_name: self.local_name.clone(),
            class_of_device: self.class_of_device,
            extended_inquiry_response: self.extended_inquiry_response,
            complete_local_name_eir_len: self.complete_local_name_eir_len,
            hid_service: self.hid_service.clone(),
        }
    }
}

impl SessionConfig {
    pub closed spec fn name(self) -> Seq<char> {
        self.local_name@
    }

    /// The UTF-8 bytes of the local name.
    pub open spec fn name_bytes(self) -> Seq<u8> {
        vstd::utf8::encode_utf8(self.name())
    }

    pub closed spec fn class(self) -> u32 {
        self.class_of_device
    }

    pub closed spec fn hid(self) -> HidServiceConfig {
        self.hid_service
    }

    #[verifier::type_invariant]
    spec fn consistent(self) -> bool {
        &&& valid_identity(self.name_bytes(), self.class_of_device)
        &&& self.extended_inquiry_response@ == zero_padded(name_field(self.name_bytes()), 240)
        &&& self.complete_local_name_eir_len == self.name_bytes().len() + 2
    }

    /// Builds Classic-only controller settings and a complete-local-name EIR.
    ///
    /// # Errors
    ///
    /// Returns [`ErrorKind::InvalidConfiguration`] when `local_name` is empty,
    /// does not fit the 240-byte EIR, or `class_of_device` exceeds 24 bits.
    pub fn new(local_name: &str, class_of_device: u32, hid_service: HidServiceConfig) -> (result:
        Result<Self, Error>)
        ensures
            match result {
                Ok(config) => {
                    &&& valid_identity(local_name.spec_bytes(), class_of_device)
                    &&& config.name() == local_name@
                    &&& config.class() == class_of_device
                    &&& config.hid() == hid_service
                },
                Err(error) => !valid_identity(local_name.spec_bytes(), class_of_device) && error@
                    == kind_only(ErrorKind::InvalidConfiguration),
            },
    {
        let name_bytes = local_name.as_bytes();
        if name_bytes.len() == 0 || name_bytes.len() > MAX_COMPLETE_LOCAL_NAME_LEN
            || class_of_device > 0x00ff_ffff {
            return Err(Error::new(ErrorKind::InvalidConfiguration));
        }
        let mut response: [u8; 240] = [0; 240];
        response[0] = (name_bytes.len() + 1) as u8;
        response[1] = COMPLETE_LOCAL_NAME_DATA_TYPE;
        let mut index: usize = 0;
        while index < name_bytes.len()
            invariant
                index <= name_bytes@.len() <= 238,
                response@.len() == 240,
                response@[0] == (name_bytes@.len() + 1) as u8,
                response@[1] == COMPLETE_LOCAL_NAME_DATA_TYPE,
                forall|i: int| 2 <= i < index + 2 ==> response@[i] == name_bytes@[i - 2],
                forall|i: int| index + 2 <= i < 240 ==> response@[i] == 0,
            decreases name_bytes@.len() - index,
        {
            response[index + 2] = name_bytes[index];
            index = index + 1;
        }
        assert(response@ =~= zero_padded(name_field(name_bytes@), 240));
        Ok(
            SessionConfig {
                local_name: local_name.to_owned(),
                class_of_device,
                extended_inquiry_response: response,
                complete_local_name_eir_len: name_bytes.len() + 2,
                hid_service,
            },
        )
    }

    /// Returns the controller local name.
    pub fn local_name(&self) -> (name: &str)
        ensures
            name@ == self.name(),
            1 <= self.name_bytes().len() <= 238,
    {
        proof {
            use_type_invariant(self);
        }
        self.local_name.as_str()
    }

    /// Returns the 24-bit Bluetooth Class of Device value.
    pub fn class_of_device(&self) -> (class: u32)
        ensures
            class == self.class(),
            class <= 0x00ff_ffff,
    {
        proof {
            use_type_invariant(self);
        }
        self.class_of_device
    }

    /// Returns the populated complete-local-name EIR field without zero padding.
    pub fn complete_local_name_eir(&self) -> (field: &[u8])
        ensures
            field@ == name_field(self.name_bytes()),
    {
        proof {
            use_type_invariant(self);
        }
        let field = slice_subrange(
            self.extended_inquiry_response.as_slice(),
            0,
            self.complete_local_name_eir_len,
        );
        assert(field@ =~= name_field(self.name_bytes()));
        field
    }

    /// Returns the HID service definition.
    pub fn hid_service(&self) -> (service: &HidServiceConfig)
        ensures
            *service == self.hid(),
    {
        &self.hid_service
    }

    /// The whole extended inquiry response.
    pub fn extended_inquiry_response(&self) -> (response: &[u8; 240])
        ensures
            response@ == zero_padded(name_field(self.name_bytes()), 240),
    {
        proof {
            use_type_invariant(self);
        }
        &self.extended_inquiry_response
    }
}

/// Inputs retained by a newly opened backend session.
#[derive(Clone)]
pub struct OpenOptions<F: Fn()> {
    adapter: AdapterSelector,
    config: SessionConfig,
    local_identity: LocalIdentity,
    activity: ActivityNotifier<F>,
}

impl<F: Fn()> OpenOptions<F> {
    pub closed spec fn parts(self) -> (
        AdapterSelector,
        SessionConfig,
        LocalIdentity,
        ActivityNotifier<F>,
    ) {
        (self.adapter, self.config, self.local_identity, self.activity)
    }

    /// Creates options that retain the adapter's current public address.
    pub fn new(adapter: AdapterSelector, config: SessionConfig, activity: ActivityNotifier<F>) -> (options:
        Self)
        ensures
            options.parts() == (adapter, config, LocalIdentity::AdapterDefault, activity),
    {
        OpenOptions { adapter, config, local_identity: LocalIdentity::AdapterDefault, activity }
    }

    /// Selects the controller identity policy.
    #[must_use]
    pub fn with_local_identity(self, local_identity: LocalIdentity) -> (options: Self)
        ensures
            options.parts() == (self.parts().0, self.parts().1, local_identity, self.parts().3),
    {
        OpenOptions {
            adapter: self.adapter,
            config: self.config,
            local_identity,
            activity: self.activity,
        }
    }

    /// Returns the adapter selector.
    pub fn adapter(&self) -> (adapter: &AdapterSelector)
        ensures
            *adapter == self.parts().0,
    {
        &self.adapter
    }

    /// Returns the controller and HID settings.
    pub fn config(&self) -> (config: &SessionConfig)
        ensures
            *config == self.parts().1,
    {
        &self.config
    }

    /// Returns the controller identity policy.
    pub fn local_identity(&self) -> (identity: LocalIdentity)
        ensures
            identity == self.parts().2,
    {
        self.local_identity
    }

    /// Gives up the options for their parts.
    pub fn into_parts(self) -> (parts: (
        AdapterSelector,
        SessionConfig,
        LocalIdentity,
        ActivityNotifier<F>,
    ))
        ensures
            parts == self.parts(),
    {
        (self.adapter, self.config, self.local_identity, self.activity)
    }
}

/// Failure returned by a caller-provided Classic bond store.
#[derive(Clone, Copy, Debug, PartialEq, Eq, Structural)]
#[non_exhaustive]
pub enum BondStoreError {
    /// One peer's bond could not be read.
    LoadFailed,
    /// The set of reconnectable bonds could not be listed.
    ListFailed,
    /// A new or replacement bond could not be persisted.
    UpsertFailed,
}

impl BondStoreError {
    pub open spec fn text(self) -> Seq<char> {
        match self {
            BondStoreError::LoadFailed => "Classic bond could not be read"@,
            BondStoreError::ListFailed => "Classic bonds could not be listed"@,
            BondStoreError::UpsertFailed => "Classic bond could not be persisted"@,
        }
    }

    /// The text shown for the error.
    pub fn message(&self) -> (text: String)
        ensures
            text@ == self.text(),
    {
        match self {
            BondStoreError::LoadFailed => "Classic bond could not be read".to_owned(),
            BondStoreError::ListFailed => "Classic bonds could not be listed".to_owned(),
            BondStoreError::UpsertFailed => "Classic bond could not be persisted".to_owned(),
        }
    }
}

/// What a lookup in a bond store gave.
pub open spec fn loaded_view(loaded: Result<Option<ClassicBond>, BondStoreError>) -> Result<
    Option<ClassicBondV>,
    BondStoreError,
> {
    match loaded {
        Ok(Some(bond)) => Ok(Some(bond@)),
        Ok(None) => Ok(None),
        Err(error) => Err(error),
    }
}

/// What listing the bonds of a store gave.
pub open spec fn list_view(
    bonds: Result<Vec<(BluetoothAddress, ClassicBond)>, BondStoreError>,
) -> Result<Seq<(BluetoothAddress, ClassicBondV)>, BondStoreError> {
    match bonds {
        Ok(bonds) => Ok(
            bonds@.map_values(|bond: (BluetoothAddress, ClassicBond)| (bond.0, bond.1@)),
        ),
        Err(error) => Err(error),
    }
}

/// Storage boundary for Classic link keys used by pairing and reconnect.
pub trait BondStore: Send {
    /// Selects the namespace for the initialized local controller address.
    ///
    /// The session calls this once after HCI initialization and before any
    /// bond lookup. Stores without local-controller namespaces may keep the
    /// default no-op implementation.
    ///
    /// # Errors
    ///
    /// Returns [`BondStoreError`] when the selected namespace cannot be used.
    fn select_local_address(&mut self, _local_address: BluetoothAddress) -> (answer: Result<
        (),
        BondStoreError,
    >) {
        Ok(())
    }

    /// Loads the bond for one peer.
    ///
    /// # Errors
    ///
    /// Returns [`BondStoreError`] when the backing store cannot be read.
    fn load(&self, peer: BluetoothAddress) -> (loaded: Result<Option<ClassicBond>, BondStoreError>);

    /// Lists all bonds in the current local-controller namespace.
    ///
    /// # Errors
    ///
    /// Returns [`BondStoreError`] when the backing store cannot be read.
    fn load_all(&self) -> (bonds: Result<Vec<(BluetoothAddress, ClassicBond)>, BondStoreError>);

    /// Persists a new or replacement bond for one peer.
    ///
    /// # Errors
    ///
    /// Returns [`BondStoreError`] when the backing store cannot be updated.
    fn upsert(&mut self, peer: BluetoothAddress, bond: ClassicBond) -> (answer: Result<
        (),
        BondStoreError,
    >);
}

/// Controller version reported during HCI initialization.
#[derive(Clone, Copy, Debug, PartialEq, Eq, Structural)]
pub struct ControllerVersion {
    /// HCI specification version.
    pub hci_version: u8,
    /// Manufacturer-defined HCI revision.
    pub hci_subversion: u16,
    /// Link Manager specification version.
    pub lmp_version: u8,
    /// Bluetooth SIG company identifier.
    pub company_identifier: u16,
    /// Manufacturer-defined Link Manager subversion.
    pub lmp_subversion: u16,
}

/// USB adapter location and identity metadata.
#[derive(Clone, Debug, PartialEq, Eq)]
pub struct UsbAdapterMetadata {
    /// USB vendor identifier.
    pub vendor_id: u16,
    /// USB product identifier.
    pub product_id: u16,
    /// USB bus number.
    pub bus: u8,
    /// Address assigned by the USB host.
    pub device_address: u8,
    /// Physical USB port path from the root hub.
    pub ports: Vec<u8>,
}

/// Validated controller capabilities retained by an open session.
#[derive(Clone, Debug, PartialEq, Eq)]
pub struct Capabilities {
    local_address: BluetoothAddress,
    controller_version: ControllerVersion,
    usb: UsbAdapterMetadata,
}

impl Capabilities {
    pub closed spec fn parts(self) -> (BluetoothAddress, ControllerVersion, UsbAdapterMetadata) {
        (self.local_address, self.controller_version, self.usb)
    }

    pub fn new(
        local_address: BluetoothAddress,
        controller_version: ControllerVersion,
        usb: UsbAdapterMetadata,
    ) -> (capabilities: Self)
        ensures
            capabilities.parts() == (local_address, controller_version, usb),
    {
        Capabilities { local_address, controller_version, usb }
    }

    /// Returns the initialized public controller address.
    pub fn local_address(&self) -> (address: BluetoothAddress)
        ensures
            address == self.parts().0,
    {
        self.local_address
    }

    /// Returns the initialized controller version.
    pub fn controller_version(&self) -> (version: ControllerVersion)
        ensures
            version == self.parts().1,
    {
        self.controller_version
    }

    /// Returns USB adapter metadata.
    pub fn usb(&self) -> (usb: &UsbAdapterMetadata)
        ensures
            *usb == self.parts().2,
    {
        &self.usb
    }
}

/// HID L2CAP channel visible to the application.
#[derive(Clone, Copy, Debug, PartialEq, Eq, Structural)]
pub enum Channel {
    /// HID control channel on PSM 0x0011.
    Control,
    /// HID interrupt channel on PSM 0x0013.
    Interrupt,
}

/// What the application learns from a session.
pub enum EventV {
    Connected { peer: BluetoothAddress },
    ChannelOpened { channel: Channel },
    HidOutput { channel: Channel, payload: Seq<u8> },
    Disconnected { reason: Option<u8> },
}

/// Application-visible output from a backend session.
#[derive(Clone, Debug, PartialEq, Eq)]
#[non_exhaustive]
pub enum Event {
    /// A Classic ACL connection was established.
    Connected { peer: BluetoothAddress },
    /// One HID channel completed L2CAP setup.
    ChannelOpened { channel: Channel },
    /// The peer sent a HID output report.
    HidOutput { channel: Channel, payload: Vec<u8> },
    /// The Classic ACL connection ended.
    Disconnected { reason: Option<u8> },
}

impl View for Event {
    type V = EventV;

    open spec fn view(&self) -> EventV {
        match *self {
            Event::Connected { peer } => EventV::Connected { peer },
            Event::ChannelOpened { channel } => EventV::ChannelOpened { channel },
            Event::HidOutput { channel, payload } => EventV::HidOutput {
                channel,
                payload: payload@,
            },
            Event::Disconnected { reason } => EventV::Disconnected { reason },
        }
    }
}

/// Stable error classification for session operations.
#[derive(Clone, Copy, Debug, PartialEq, Eq, Structural)]
#[non_exhaustive]
pub enum ErrorKind {
    /// Controller or HID configuration is invalid.
    InvalidConfiguration,
    /// The adapter could not be opened or initialized.
    OpenFailed,
    /// The controller returned an unusable public address.
    InvalidControllerIdentity,
    /// The controller address differs from the requested explicit identity.
    IdentityMismatch,
    /// An explicit identity write started but its final state is uncertain.
    AdapterIdentityRecoveryRequired,
    /// Required Bluetooth Classic or ACL capabilities are absent.
    UnsupportedController,
    /// The caller-provided bond store failed.
    InvalidBondStore,
    /// No single reconnectable Classic bond exists.
    NoBond,
    /// The session is closed.
    Closed,
    /// The interrupt report could not enter the host-side queue.
    SendRejected,
    /// Pending host-side interrupt data was not drained before the deadline.
    DrainTimedOut,
    /// The bounded application event queue overflowed.
    EventQueueOverflow,
    /// The USB packet source ended or failed.
    SourceTerminated,
    /// The reader thread or USB handle could not be closed cleanly.
    CloseFailed,
    /// An HCI, L2CAP, SDP, or HIDP packet violated the required protocol.
    ProtocolViolation,
}

impl ErrorKind {
    /// The name of the classification.
    pub open spec fn name(self) -> Seq<char> {
        match self {
            ErrorKind::InvalidConfiguration => "InvalidConfiguration"@,
            ErrorKind::OpenFailed => "OpenFailed"@,
            ErrorKind::InvalidControllerIdentity => "InvalidControllerIdentity"@,
            ErrorKind::IdentityMismatch => "IdentityMismatch"@,
            ErrorKind::AdapterIdentityRecoveryRequired => "AdapterIdentityRecoveryRequired"@,
            ErrorKind::UnsupportedController => "UnsupportedController"@,
            ErrorKind::InvalidBondStore => "InvalidBondStore"@,
            ErrorKind::NoBond => "NoBond"@,
            ErrorKind::Closed => "Closed"@,
            ErrorKind::SendRejected => "SendRejected"@,
            ErrorKind::DrainTimedOut => "DrainTimedOut"@,
            ErrorKind::EventQueueOverflow => "EventQueueOverflow"@,
            ErrorKind::SourceTerminated => "SourceTerminated"@,
            ErrorKind::CloseFailed => "CloseFailed"@,
            ErrorKind::ProtocolViolation => "ProtocolViolation"@,
        }
    }

    pub open spec fn text(self) -> Seq<char> {
        match self {
            ErrorKind::InvalidConfiguration => "backend configuration is invalid"@,
            ErrorKind::OpenFailed => "Bluetooth adapter could not be opened or initialized"@,
            ErrorKind::InvalidControllerIdentity =>
            "Bluetooth controller returned an invalid identity"@,
            ErrorKind::IdentityMismatch =>
            "Bluetooth controller identity does not match the requested identity"@,
            ErrorKind::AdapterIdentityRecoveryRequired =>
            "Bluetooth adapter identity is uncertain after a write"@,
            ErrorKind::UnsupportedController =>
            "Bluetooth controller lacks required Classic ACL capability"@,
            ErrorKind::InvalidBondStore => "Classic bond store could not be accessed"@,
            ErrorKind::NoBond => "no single reconnectable Classic bond exists"@,
            ErrorKind::Closed => "backend session is closed"@,
            ErrorKind::SendRejected => "backend session rejected the interrupt report"@,
            ErrorKind::DrainTimedOut => "backend interrupt queue did not drain before the deadline"@,
            ErrorKind::EventQueueOverflow => "backend application event queue overflowed"@,
            ErrorKind::SourceTerminated => "Bluetooth packet source terminated"@,
            ErrorKind::CloseFailed => "backend session could not be closed cleanly"@,
            ErrorKind::ProtocolViolation => "Bluetooth protocol packet is invalid or unsupported"@,
        }
    }
}

/// A packet field whose length is not the expected one.
#[derive(Clone, Copy, Debug, PartialEq, Eq)]
pub struct PacketLengthError {
    pub field: &'static str,
    pub expected: usize,
    pub actual: usize,
}

impl PacketLengthError {
    pub open spec fn text(self) -> Seq<char> {
        self.field@ + " has length "@ + decimal(self.actual as nat) + ", expected "@ + decimal(
            self.expected as nat,
        )
    }

    /// The text shown for the error.
    pub fn message(&self) -> (text: String)
        ensures
            text@ == self.text(),
    {
        let mut text = self.field.to_owned();
        text.append(" has length ");
        text.append(decimal_text(self.actual as u64).as_str());
        text.append(", expected ");
        text.append(decimal_text(self.expected as u64).as_str());
        text
    }
}

/// A command that the controller refused.
#[derive(Clone, Copy, Debug, PartialEq, Eq)]
pub struct CommandFailure {
    pub opcode: u16,
    pub status: u8,
}

impl CommandFailure {
    pub open spec fn text(self) -> Seq<char> {
        "HCI command 0x"@ + upper_hex_pair((self.opcode / 256) as u8) + upper_hex_pair(
            (self.opcode % 256) as u8,
        ) + " failed with status 0x"@ + upper_hex_pair(self.status)
    }

    /// The text shown for the failure.
    pub fn message(&self) -> (text: String)
        ensures
            text@ == self.text(),
    {
        let mut text = "HCI command 0x".to_owned();
        append_upper_hex_pair(&mut text, (self.opcode / 256) as u8);
        append_upper_hex_pair(&mut text, (self.opcode % 256) as u8);
        text.append(" failed with status 0x");
        append_upper_hex_pair(&mut text, self.status);
        text
    }
}

/// What lies behind a session error.
pub enum ErrorSourceV {
    Codec(CodecError),
    Host(HostErrorV),
    Hidp(HidpBridgeError),
    BondStore(BondStoreError),
    PacketLength(PacketLengthError),
    Command(CommandFailure),
    Transport(Seq<char>),
}

/// What lies behind a session error. What went wrong outside the library is
/// told by a text.
#[derive(Clone, Debug, PartialEq, Eq)]
pub enum ErrorSource {
    Codec(CodecError),
    Host(HostError),
    Hidp(HidpBridgeError),
    BondStore(BondStoreError),
    PacketLength(PacketLengthError),
    Command(CommandFailure),
    Transport(String),
}

impl View for ErrorSource {
    type V = ErrorSourceV;

    open spec fn view(&self) -> ErrorSourceV {
        match *self {
            ErrorSource::Codec(error) => ErrorSourceV::Codec(error),
            ErrorSource::Host(error) => ErrorSourceV::Host(error@),
            ErrorSource::Hidp(error) => ErrorSourceV::Hidp(error),
            ErrorSource::BondStore(error) => ErrorSourceV::BondStore(error),
            ErrorSource::PacketLength(error) => ErrorSourceV::PacketLength(error),
            ErrorSource::Command(failure) => ErrorSourceV::Command(failure),
            ErrorSource::Transport(text) => ErrorSourceV::Transport(text@),
        }
    }
}

impl ErrorSource {
    fn copy(&self) -> (source: ErrorSource)
        ensures
            source@ == self@,
    {
        match self {
            ErrorSource::Codec(error) => ErrorSource::Codec(*error),
            ErrorSource::Host(error) => ErrorSource::Host(error.copy()),
            ErrorSource::Hidp(error) => ErrorSource::Hidp(*error),
            ErrorSource::BondStore(error) => ErrorSource::BondStore(*error),
            ErrorSource::PacketLength(error) => ErrorSource::PacketLength(*error),
            ErrorSource::Command(failure) => ErrorSource::Command(*failure),
            ErrorSource::Transport(text) => ErrorSource::Transport(text.clone()),
        }
    }
}

/// What a session error says.
pub struct ErrorV {
    pub kind: ErrorKind,
    pub source: Option<ErrorSourceV>,
}

/// An error without anything known behind it.
pub open spec fn kind_only(kind: ErrorKind) -> ErrorV {
    ErrorV { kind, source: None }
}

/// An error with what lies behind it.
pub open spec fn caused(kind: ErrorKind, source: ErrorSourceV) -> ErrorV {
    ErrorV { kind, source: Some(source) }
}

/// Error returned by a backend session operation.
///
/// What lies behind an error can tell of peers and adapters, so it is shown as
/// [`Error::redacted`] only.
pub struct Error {
    kind: ErrorKind,
    source: Option<ErrorSource>,
}

impl View for Error {
    type V = ErrorV;

    closed spec fn view(&self) -> ErrorV {
        ErrorV {
            kind: self.kind,
            source: match self.source {
                Some(source) => Some(source@),
                None => None,
            },
        }
    }
}

impl Clone for Error {
    fn clone(&self) -> (error: Self)
        ensures
            error@ == self@,
    {
        Error {
            kind: self.kind,
            source: match &self.source {
                Some(source) => Some(source.copy()),
                None => None,
            },
        }
    }
}

/// A result of the session and the one its model gives.
pub open spec fn session_agrees<T>(result: Result<T, Error>, expected: Result<T, ErrorV>) -> bool {
    match (result, expected) {
        (Ok(value), Ok(model)) => value == model,
        (Err(error), Err(model)) => error@ == model,
        _ => false,
    }
}

impl Error {
    /// An error of this kind without a cause.
    pub fn new(kind: ErrorKind) -> (error: Self)
        ensures
            error@ == kind_only(kind),
    {
        Error { kind, source: None }
    }

    /// An error of this kind with its cause.
    pub fn with_source(kind: ErrorKind, source: ErrorSource) -> (error: Self)
        ensures
            error@ == caused(kind, source@),
    {
        Error { kind, source: Some(source) }
    }

    /// What lies behind the error, where it is known.
    pub fn source(&self) -> (source: Option<&ErrorSource>)
        ensures
            match source {
                Some(source) => self@.source == Some(source@),
                None => self@.source is None,
            },
    {
        match &self.source {
            Some(source) => Some(source),
            None => None,
        }
    }

    /// The classification alone, for logs and failure reports.
    pub fn redacted(&self) -> (text: String)
        ensures
            text@ == "Error { kind: "@ + self@.kind.name() + ", .. }"@,
    {
        let name = match self.kind {
            ErrorKind::InvalidConfiguration => "InvalidConfiguration",
            ErrorKind::OpenFailed => "OpenFailed",
            ErrorKind::InvalidControllerIdentity => "InvalidControllerIdentity",
            ErrorKind::IdentityMismatch => "IdentityMismatch",
            ErrorKind::AdapterIdentityRecoveryRequired => "AdapterIdentityRecoveryRequired",
            ErrorKind::UnsupportedController => "UnsupportedController",
            ErrorKind::InvalidBondStore => "InvalidBondStore",
            ErrorKind::NoBond => "NoBond",
            ErrorKind::Closed => "Closed",
            ErrorKind::SendRejected => "SendRejected",
            ErrorKind::DrainTimedOut => "DrainTimedOut",
            ErrorKind::EventQueueOverflow => "EventQueueOverflow",
            ErrorKind::SourceTerminated => "SourceTerminated",
            ErrorKind::CloseFailed => "CloseFailed",
            ErrorKind::ProtocolViolation => "ProtocolViolation",
        };
        let mut text = "Error { kind: ".to_owned();
        text.append(name);
        text.append(", .. }");
        text
    }

    /// Returns the stable error classification.
    pub fn kind(&self) -> (kind: ErrorKind)
        ensures
            kind == self@.kind,
    {
        self.kind
    }

    /// The text shown for the error.
    pub fn message(&self) -> (text: String)
        ensures
            text@ == self@.kind.text(),
    {
        match self.kind {
            ErrorKind::InvalidConfiguration => "backend configuration is invalid".to_owned(),
            ErrorKind::OpenFailed => {
                "Bluetooth adapter could not be opened or initialized".to_owned()
            },
            ErrorKind::InvalidControllerIdentity => {
                "Bluetooth controller returned an invalid identity".to_owned()
            },
            ErrorKind::IdentityMismatch => {
                "Bluetooth controller identity does not match the requested identity".to_owned()
            },
            ErrorKind::AdapterIdentityRecoveryRequired => {
                "Bluetooth adapter identity is uncertain after a write".to_owned()
            },
            ErrorKind::UnsupportedController => {
                "Bluetooth controller lacks required Classic ACL capability".to_owned()
            },
            ErrorKind::InvalidBondStore => "Classic bond store could not be accessed".to_owned(),
            ErrorKind::NoBond => "no single reconnectable Classic bond exists".to_owned(),
            ErrorKind::Closed => "backend session is closed".to_owned(),
            ErrorKind::SendRejected => "backend session rejected the interrupt report".to_owned(),
            ErrorKind::DrainTimedOut => {
                "backend interrupt queue did not drain before the deadline".to_owned()
            },
            ErrorKind::EventQueueOverflow => {
                "backend application event queue overflowed".to_owned()
            },
            ErrorKind::SourceTerminated => "Bluetooth packet source terminated".to_owned(),
            ErrorKind::CloseFailed => "backend session could not be closed cleanly".to_owned(),
            ErrorKind::ProtocolViolation => {
                "Bluetooth protocol packet is invalid or unsupported".to_owned()
            },
        }
    }
}

impl<T: BondStore + ?Sized> BondStore for Box<T> {
    fn select_local_address(&mut self, local_address: BluetoothAddress) -> (answer: Result<
        (),
        BondStoreError,
    >)
        ensures
            exists|asked: &mut T|
                &*asked == &**old(self) && &*final(asked) == &**final(self) && #[trigger] call_ensures(
                    T::select_local_address,
                    (asked, local_address),
                    answer,
                ),
    {
        let inner: &mut T = &mut **self;
        inner.select_local_address(local_address)
    }

    fn load(&self, peer: BluetoothAddress) -> (loaded: Result<Option<ClassicBond>, BondStoreError>)
        ensures
            call_ensures(T::load, (&**self, peer), loaded),
    {
        (**self).load(peer)
    }

    fn load_all(&self) -> (bonds: Result<Vec<(BluetoothAddress, ClassicBond)>, BondStoreError>)
        ensures
            call_ensures(T::load_all, (&**self,), bonds),
    {
        (**self).load_all()
    }

    fn upsert(&mut self, peer: BluetoothAddress, bond: ClassicBond) -> (answer: Result<
        (),
        BondStoreError,
    >)
        ensures
            exists|asked: &mut T|
                &*asked == &**old(self) && &*final(asked) == &**final(self) && #[trigger] call_ensures(
                    T::upsert,
                    (asked, peer, bond),
                    answer,
                ),
    {
        let inner: &mut T = &mut **self;
        inner.upsert(peer, bond)
    }
}

} // verus!
