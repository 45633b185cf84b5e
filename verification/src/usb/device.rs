//! Which adapter is the one that is meant, and which of its endpoints carry HCI.

use vstd::prelude::*;
use vstd::string::*;

use super::selector::{UsbSelector, UsbSelectorV};
use crate::bytes::equal_bytes;

verus! {

pub const USB_DEVICE_CLASS_DEVICE: u8 = 0x00;

pub const USB_DEVICE_CLASS_WIRELESS_CONTROLLER: u8 = 0xE0;

pub const USB_DEVICE_SUBCLASS_RF_CONTROLLER: u8 = 0x01;

pub const USB_DEVICE_PROTOCOL_BLUETOOTH_PRIMARY_CONTROLLER: u8 = 0x01;

/// Which way an endpoint carries data.
#[derive(Clone, Copy, Debug, PartialEq, Eq, Structural)]
pub enum Direction {
    In,
    Out,
}

/// How an endpoint carries data.
#[derive(Clone, Copy, Debug, PartialEq, Eq, Structural)]
pub enum TransferType {
    Control,
    Isochronous,
    Bulk,
    Interrupt,
}

#[derive(Clone, Copy, Debug, PartialEq, Eq, Structural)]
pub struct UsbEndpointInfo {
    pub address: u8,
    pub direction: Direction,
    pub transfer_type: TransferType,
}

/// The contents of an interface description.
pub struct UsbInterfaceInfoV {
    pub configuration: u8,
    pub interface: u8,
    pub alternate: u8,
    pub class: u8,
    pub subclass: u8,
    pub protocol: u8,
    pub endpoints: Seq<UsbEndpointInfo>,
}

/// One setting of an interface.
#[derive(Clone, Debug, PartialEq, Eq)]
pub struct UsbInterfaceInfo {
    pub configuration: u8,
    pub interface: u8,
    pub alternate: u8,
    pub class: u8,
    pub subclass: u8,
    pub protocol: u8,
    pub endpoints: Vec<UsbEndpointInfo>,
}

impl View for UsbInterfaceInfo {
    type V = UsbInterfaceInfoV;

    open spec fn view(&self) -> UsbInterfaceInfoV {
        UsbInterfaceInfoV {
            configuration: self.configuration,
            interface: self.interface,
            alternate: self.alternate,
            class: self.class,
            subclass: self.subclass,
            protocol: self.protocol,
            endpoints: self.endpoints@,
        }
    }
}

/// The contents of a list of interface descriptions.
pub open spec fn interface_views(interfaces: Seq<UsbInterfaceInfo>) -> Seq<UsbInterfaceInfoV> {
    interfaces.map_values(|interface: UsbInterfaceInfo| interface@)
}

/// The interface and the endpoints that carry HCI.
#[derive(Clone, Copy, Debug, PartialEq, Eq, Structural)]
pub struct UsbLayout {
    pub configuration: u8,
    pub interface: u8,
    pub alternate: u8,
    pub interrupt_in: u8,
    pub bulk_in: u8,
    pub bulk_out: u8,
}

/// Whether class, subclass and protocol are those of a Bluetooth controller.
pub open spec fn bluetooth_codes(class: u8, subclass: u8, protocol: u8) -> bool {
    class == USB_DEVICE_CLASS_WIRELESS_CONTROLLER && subclass == USB_DEVICE_SUBCLASS_RF_CONTROLLER
        && protocol == USB_DEVICE_PROTOCOL_BLUETOOTH_PRIMARY_CONTROLLER
}

/// The address of the first endpoint of a kind.
pub open spec fn endpoint_of(
    endpoints: Seq<UsbEndpointInfo>,
    direction: Direction,
    transfer_type: TransferType,
) -> Option<u8>
    decreases endpoints.len(),
{
    if endpoints.len() == 0 {
        None
    } else if endpoints[0].direction == direction && endpoints[0].transfer_type == transfer_type {
        Some(endpoints[0].address)
    } else {
        endpoint_of(endpoints.skip(1), direction, transfer_type)
    }
}

/// The endpoints of an interface that carry HCI, if it has all of them.
pub open spec fn layout_of(interface: UsbInterfaceInfoV) -> Option<UsbLayout> {
    if !bluetooth_codes(interface.class, interface.subclass, interface.protocol) {
        None
    } else {
        match (
            endpoint_of(interface.endpoints, Direction::In, TransferType::Interrupt),
            endpoint_of(interface.endpoints, Direction::In, TransferType::Bulk),
            endpoint_of(interface.endpoints, Direction::Out, TransferType::Bulk),
        ) {
            (Some(interrupt_in), Some(bulk_in), Some(bulk_out)) => Some(
                UsbLayout {
                    configuration: interface.configuration,
                    interface: interface.interface,
                    alternate: interface.alternate,
                    interrupt_in,
                    bulk_in,
                    bulk_out,
                },
            ),
            _ => None,
        }
    }
}

/// The first interface that carries HCI.
pub open spec fn layout_in(interfaces: Seq<UsbInterfaceInfoV>) -> Option<UsbLayout>
    decreases interfaces.len(),
{
    if interfaces.len() == 0 {
        None
    } else if layout_of(interfaces[0]) is Some {
        layout_of(interfaces[0])
    } else {
        layout_in(interfaces.skip(1))
    }
}

fn is_bluetooth(class: u8, subclass: u8, protocol: u8) -> (bluetooth: bool)
    ensures
        bluetooth == bluetooth_codes(class, subclass, protocol),
{
    class == USB_DEVICE_CLASS_WIRELESS_CONTROLLER && subclass == USB_DEVICE_SUBCLASS_RF_CONTROLLER
        && protocol == USB_DEVICE_PROTOCOL_BLUETOOTH_PRIMARY_CONTROLLER
}

fn find_endpoint(
    endpoints: &Vec<UsbEndpointInfo>,
    direction: Direction,
    transfer_type: TransferType,
) -> (address: Option<u8>)
    ensures
        address == endpoint_of(endpoints@, direction, transfer_type),
{
    let mut index: usize = 0;
    assert(endpoints@.skip(0) =~= endpoints@);
    while index < endpoints.len()
        invariant
            index <= endpoints@.len(),
            endpoint_of(endpoints@, direction, transfer_type) == endpoint_of(
                endpoints@.skip(index as int),
                direction,
                transfer_type,
            ),
        decreases endpoints@.len() - index,
    {
        let endpoint = endpoints[index];
        assert(endpoints@.skip(index as int).skip(1) =~= endpoints@.skip(index + 1));
        if endpoint.direction == direction && endpoint.transfer_type == transfer_type {
            return Some(endpoint.address);
        }
        index = index + 1;
    }
    None
}

fn interface_layout(interface: &UsbInterfaceInfo) -> (layout: Option<UsbLayout>)
    ensures
        layout == layout_of(interface@),
{
    if !is_bluetooth(interface.class, interface.subclass, interface.protocol) {
        return None;
    }
    match (
        find_endpoint(&interface.endpoints, Direction::In, TransferType::Interrupt),
        find_endpoint(&interface.endpoints, Direction::In, TransferType::Bulk),
        find_endpoint(&interface.endpoints, Direction::Out, TransferType::Bulk),
    ) {
        (Some(interrupt_in), Some(bulk_in), Some(bulk_out)) => Some(
            UsbLayout {
                configuration: interface.configuration,
                interface: interface.interface,
                alternate: interface.alternate,
                interrupt_in,
                bulk_in,
                bulk_out,
            },
        ),
        _ => None,
    }
}

/// Finds the first interface that carries HCI.
pub fn select_layout(interfaces: &[UsbInterfaceInfo]) -> (layout: Option<UsbLayout>)
    ensures
        layout == layout_in(interface_views(interfaces@)),
{
    let ghost models = interface_views(interfaces@);
    let mut index: usize = 0;
    assert(models.skip(0) =~= models);
    while index < interfaces.len()
        invariant
            index <= interfaces@.len(),
            models == interface_views(interfaces@),
            layout_in(models) == layout_in(models.skip(index as int)),
        decreases interfaces@.len() - index,
    {
        let layout = interface_layout(&interfaces[index]);
        assert(models.skip(index as int)[0] == interfaces@[index as int]@);
        assert(models.skip(index as int).skip(1) =~= models.skip(index + 1));
        if layout.is_some() {
            return layout;
        }
        index = index + 1;
    }
    None
}

/// Whether a device is a Bluetooth controller: by its own codes, or, where these
/// leave it to the interfaces, by those of an interface.
pub open spec fn is_controller(
    class: u8,
    subclass: u8,
    protocol: u8,
    interfaces: Seq<UsbInterfaceInfo>,
) -> bool {
    bluetooth_codes(class, subclass, protocol) || class == USB_DEVICE_CLASS_DEVICE && exists|i: int|
        0 <= i < interfaces.len() && bluetooth_codes(
            (#[trigger] interfaces[i]).class,
            interfaces[i].subclass,
            interfaces[i].protocol,
        )
}

/// Whether a device is a Bluetooth controller: by its own codes, or, where these
/// leave it to the interfaces, by those of an interface.
pub fn device_is_bluetooth_hci(
    class: u8,
    subclass: u8,
    protocol: u8,
    interfaces: &[UsbInterfaceInfo],
) -> (bluetooth: bool)
    ensures
        bluetooth == is_controller(class, subclass, protocol, interfaces@),
{
    if is_bluetooth(class, subclass, protocol) {
        return true;
    }
    if class != USB_DEVICE_CLASS_DEVICE {
        return false;
    }
    let mut index: usize = 0;
    while index < interfaces.len()
        invariant
            index <= interfaces@.len(),
            class == USB_DEVICE_CLASS_DEVICE,
            forall|i: int|
                0 <= i < index ==> !bluetooth_codes(
                    (#[trigger] interfaces@[i]).class,
                    interfaces@[i].subclass,
                    interfaces@[i].protocol,
                ),
        decreases interfaces@.len() - index,
    {
        if is_bluetooth(
            interfaces[index].class,
            interfaces[index].subclass,
            interfaces[index].protocol,
        ) {
            return true;
        }
        index = index + 1;
    }
    false
}

/// What is known of a device.
pub struct DeviceInfoV {
    pub ids: Option<(u16, u16)>,
    pub bus: u8,
    pub ports: Option<Seq<u8>>,
    pub bluetooth: bool,
}

/// What is known of a device: its vendor and product, where it is connected, and
/// whether it is a Bluetooth controller.
#[derive(Clone, Debug, PartialEq, Eq)]
pub struct DeviceInfo {
    pub ids: Option<(u16, u16)>,
    pub bus: u8,
    pub ports: Option<Vec<u8>>,
    pub bluetooth: bool,
}

impl View for DeviceInfo {
    type V = DeviceInfoV;

    open spec fn view(&self) -> DeviceInfoV {
        DeviceInfoV {
            ids: self.ids,
            bus: self.bus,
            ports: match self.ports {
                Some(ports) => Some(ports@),
                None => None,
            },
            bluetooth: self.bluetooth,
        }
    }
}

/// What is to be done with a device: pass over it, look at its serial number, or
/// take it.
#[derive(Clone, Copy, Debug, PartialEq, Eq, Structural)]
pub enum Verdict {
    Skip,
    ReadSerial,
    Take,
}

/// A search for the device that is meant.
pub struct DeviceSearchV {
    pub selector: UsbSelectorV,
    pub left: usize,
}

/// Whether a device fits a selector, its serial number apart.
pub open spec fn fits(selector: UsbSelectorV, device: DeviceInfoV) -> bool {
    match selector {
        UsbSelectorV::Index(_) => device.bluetooth,
        UsbSelectorV::Path { bus, ports } => device.bus == bus && device.ports == Some(ports),
        UsbSelectorV::VidPid { vendor_id, product_id, .. } => device.ids == Some(
            (vendor_id, product_id),
        ),
    }
}

/// How many fitting devices come before the one that is meant.
pub open spec fn skipped_before(selector: UsbSelectorV) -> usize {
    match selector {
        UsbSelectorV::Index(index) => index,
        UsbSelectorV::Path { .. } => 0,
        UsbSelectorV::VidPid { occurrence, .. } => occurrence,
    }
}

impl DeviceSearchV {
    /// A fitting device came: it is the one, or one less is to come before it.
    pub open spec fn counted(self) -> (DeviceSearchV, Verdict) {
        if self.left == 0 {
            (self, Verdict::Take)
        } else {
            (DeviceSearchV { left: (self.left - 1) as usize, ..self }, Verdict::Skip)
        }
    }

    /// The next device is looked at.
    pub open spec fn offered(self, device: DeviceInfoV) -> (DeviceSearchV, Verdict) {
        if !fits(self.selector, device) {
            (self, Verdict::Skip)
        } else if self.selector matches UsbSelectorV::VidPid { serial_number: Some(_), .. } {
            (self, Verdict::ReadSerial)
        } else {
            self.counted()
        }
    }

    /// The serial number of that device was read.
    pub open spec fn serial_offered(self, serial: Seq<char>) -> (DeviceSearchV, Verdict) {
        match self.selector {
            UsbSelectorV::VidPid { serial_number: Some(expected), .. } => if serial == expected {
                self.counted()
            } else {
                (self, Verdict::Skip)
            },
            _ => (self, Verdict::Skip),
        }
    }
}

/// A search for the device that is meant, one device after the other.
#[derive(Debug)]
pub struct DeviceSearch {
    selector: UsbSelector,
    left: usize,
}

impl View for DeviceSearch {
    type V = DeviceSearchV;

    closed spec fn view(&self) -> DeviceSearchV {
        DeviceSearchV { selector: self.selector@, left: self.left }
    }
}

impl DeviceSearch {
    pub fn new(selector: UsbSelector) -> (search: Self)
        ensures
            search@ == (DeviceSearchV {
                selector: selector@,
                left: skipped_before(selector@),
            }),
    {
        let left: usize = match &selector {
            UsbSelector::Index(index) => *index,
            UsbSelector::Path { .. } => 0,
            UsbSelector::VidPid { occurrence, .. } => *occurrence,
        };
        DeviceSearch { selector, left }
    }

    fn count(&mut self) -> (verdict: Verdict)
        ensures
            (final(self)@, verdict) == old(self)@.counted(),
    {
        if self.left == 0 {
            Verdict::Take
        } else {
            self.left = self.left - 1;
            Verdict::Skip
        }
    }

    /// Looks at the next device.
    pub fn offer(&mut self, device: &DeviceInfo) -> (verdict: Verdict)
        ensures
            (final(self)@, verdict) == old(self)@.offered(device@),
    {
        let (fitting, serial) = match &self.selector {
            UsbSelector::Index(_) => (device.bluetooth, false),
            UsbSelector::Path { bus, ports } => (
                device.bus == *bus && match &device.ports {
                    Some(actual) => equal_bytes(actual, ports),
                    None => false,
                },
                false,
            ),
            UsbSelector::VidPid { vendor_id, product_id, serial_number, .. } => (
                match device.ids {
                    Some((vendor, product)) => vendor == *vendor_id && product == *product_id,
                    None => false,
                },
                serial_number.is_some(),
            ),
        };
        if !fitting {
            Verdict::Skip
        } else if serial {
            Verdict::ReadSerial
        } else {
            self.count()
        }
    }

    /// Looks at the serial number of the device that was just looked at.
    pub fn offer_serial(&mut self, serial: &String) -> (verdict: Verdict)
        ensures
            (final(self)@, verdict) == old(self)@.serial_offered(serial@),
    {
        let expected = match &self.selector {
            UsbSelector::VidPid { serial_number: Some(expected), .. } => *expected == *serial,
            _ => false,
        };
        if expected {
            self.count()
        } else {
            Verdict::Skip
        }
    }
}

/// A device and its serial number.
pub struct CandidateV {
    pub info: DeviceInfoV,
    pub serial: Seq<char>,
}

/// Whether a device fits a selector, its serial number and all.
pub open spec fn meant(selector: UsbSelectorV, candidate: CandidateV) -> bool {
    fits(selector, candidate.info) && match selector {
        UsbSelectorV::VidPid { serial_number: Some(expected), .. } => candidate.serial == expected,
        _ => true,
    }
}

/// How many of the devices fit.
pub open spec fn fitting_count(selector: UsbSelectorV, candidates: Seq<CandidateV>) -> nat
    decreases candidates.len(),
{
    if candidates.len() == 0 {
        0
    } else {
        fitting_count(selector, candidates.drop_last()) + if meant(selector, candidates.last()) {
            1nat
        } else {
            0nat
        }
    }
}

impl DeviceSearchV {
    /// A device is looked at, and its serial number where that is asked for.
    pub open spec fn searched(self, candidate: CandidateV) -> (DeviceSearchV, bool) {
        let (next, verdict) = self.offered(candidate.info);
        match verdict {
            Verdict::Take => (next, true),
            Verdict::Skip => (next, false),
            Verdict::ReadSerial => {
                let (last, verdict) = next.serial_offered(candidate.serial);
                (last, verdict == Verdict::Take)
            },
        }
    }

    /// The search after some devices, none of which was taken.
    pub open spec fn after(self, candidates: Seq<CandidateV>) -> DeviceSearchV
        decreases candidates.len(),
    {
        if candidates.len() == 0 {
            self
        } else {
            self.after(candidates.drop_last()).searched(candidates.last()).0
        }
    }
}

/// A search takes the device that fits and has as many fitting ones before it as
/// the selector says, and no other.
pub proof fn search_takes_the_one_meant(
    selector: UsbSelectorV,
    before: Seq<CandidateV>,
    candidate: CandidateV,
)
    requires
        fitting_count(selector, before) <= skipped_before(selector),
    ensures
        ({
            let start = DeviceSearchV { selector, left: skipped_before(selector) };
            start.after(before).searched(candidate).1 == (meant(selector, candidate)
                && fitting_count(selector, before) == skipped_before(selector))
        }),
{
    lemma_left(selector, before);
}

proof fn lemma_left(selector: UsbSelectorV, before: Seq<CandidateV>)
    requires
        fitting_count(selector, before) <= skipped_before(selector),
    ensures
        ({
            let start = DeviceSearchV { selector, left: skipped_before(selector) };
            start.after(before) == (DeviceSearchV {
                selector,
                left: (skipped_before(selector) - fitting_count(selector, before)) as usize,
            })
        }),
    decreases before.len(),
{
    if before.len() > 0 {
        lemma_left(selector, before.drop_last());
    }
}

} // verus!
