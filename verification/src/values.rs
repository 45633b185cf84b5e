//! Addresses, service identifiers and pairing material.

use vstd::prelude::*;
use vstd::string::*;
use vstd::utf8::{decode_utf8, encode_utf8, is_ascii_chars, valid_utf8};

use crate::bytes::{copy_bytes, copy_range, equal_bytes, le16, push_le16};
use crate::text::{
    append_upper_hex_pair, debug_quoted, decimal, decimal_text, digits_value, parse_digit, quoted,
    upper_hex_pair, utf8_text, with_decimal,
};

verus! {

/// Invalid backend value input.
#[derive(Clone, Debug, PartialEq, Eq)]
#[non_exhaustive]
pub enum ValueError {
    /// A Bluetooth address has the wrong width or contains a non-hexadecimal octet.
    InvalidAddress(String),
    /// A Bluetooth UUID has a width other than 16, 32, or 128 bits.
    InvalidUuid(String),
    /// A Classic link key does not contain the controller-defined 16 bytes.
    InvalidLinkKeyLength { actual: usize },
}

/// What a value error says.
pub enum ValueErrorV {
    InvalidAddress(Seq<char>),
    InvalidUuid(Seq<char>),
    InvalidLinkKeyLength { actual: usize },
}

impl View for ValueError {
    type V = ValueErrorV;

    open spec fn view(&self) -> ValueErrorV {
        match self {
            ValueError::InvalidAddress(message) => ValueErrorV::InvalidAddress(message@),
            ValueError::InvalidUuid(message) => ValueErrorV::InvalidUuid(message@),
            ValueError::InvalidLinkKeyLength { actual } => ValueErrorV::InvalidLinkKeyLength {
                actual: *actual,
            },
        }
    }
}

impl ValueErrorV {
    /// The text shown for the error.
    pub open spec fn text(self) -> Seq<char> {
        match self {
            ValueErrorV::InvalidAddress(message) => "invalid Bluetooth address: "@ + message,
            ValueErrorV::InvalidUuid(message) => "invalid Bluetooth UUID: "@ + message,
            ValueErrorV::InvalidLinkKeyLength { actual } => "Classic link key must be 16 bytes, got "@
                + decimal(actual as nat),
        }
    }
}

impl ValueError {
    /// The text shown for the error.
    pub fn message(&self) -> (text: String)
        ensures
            text@ == self@.text(),
    {
        match self {
            ValueError::InvalidAddress(message) => {
                let mut text = "invalid Bluetooth address: ".to_owned();
                text.append(message.as_str());
                text
            },
            ValueError::InvalidUuid(message) => {
                let mut text = "invalid Bluetooth UUID: ".to_owned();
                text.append(message.as_str());
                text
            },
            ValueError::InvalidLinkKeyLength { actual } => {
                with_decimal("Classic link key must be 16 bytes, got ", *actual as u64)
            },
        }
    }
}

/// Whether an operation returned the expected value or the expected error.
pub open spec fn value_agrees<T: View>(
    actual: Result<T, ValueError>,
    expected: Result<T::V, ValueErrorV>,
) -> bool {
    match (actual, expected) {
        (Ok(value), Ok(model)) => value@ == model,
        (Err(error), Err(model)) => error@ == model,
        _ => false,
    }
}

/// Address qualifier used at the backend boundary.
#[derive(Clone, Copy, Debug, PartialEq, Eq, Hash, Structural)]
pub enum AddressKind {
    Public,
    Random,
}

/// A device address: six bytes, least significant first, and a qualifier.
pub struct BluetoothAddressV {
    pub bytes_le: Seq<u8>,
    pub kind: AddressKind,
}

/// Six-byte Bluetooth device address.
#[derive(Clone, Copy, Debug, PartialEq, Eq, Hash)]
pub struct BluetoothAddress {
    bytes_le: [u8; 6],
    kind: AddressKind,
}

impl View for BluetoothAddress {
    type V = BluetoothAddressV;

    closed spec fn view(&self) -> BluetoothAddressV {
        BluetoothAddressV { bytes_le: self.bytes_le@, kind: self.kind }
    }
}

/// The text without a `/P` suffix, and the qualifier that results.
pub open spec fn address_body(text: Seq<u8>, kind: AddressKind) -> (Seq<u8>, AddressKind) {
    let length = text.len();
    if length >= 2 && text[length - 2] == 0x2F && text[length - 1] == 0x50 {
        (text.take(length - 2), AddressKind::Public)
    } else {
        (text, kind)
    }
}

/// Whether a text of 17 bytes is six pairs with colons between them, and no
/// other colon.
pub open spec fn separated_pairs(body: Seq<u8>) -> bool {
    body.len() == 17 && forall|i: int| 0 <= i < 17 ==> (#[trigger] body[i] == 0x3A <==> i % 3 == 2)
}

/// The twelve bytes that should be hexadecimal digits, or the reason there are none.
pub open spec fn address_digits(body: Seq<u8>) -> Result<Seq<u8>, ValueErrorV> {
    if body.len() == 12 && !body.contains(0x3A) {
        Ok(body)
    } else if body.len() == 17 {
        if separated_pairs(body) {
            Ok(Seq::new(12, |i: int| body[i + i / 2]))
        } else {
            Err(ValueErrorV::InvalidAddress("expected six two-digit octets"@))
        }
    } else {
        Err(ValueErrorV::InvalidAddress("expected 12 hexadecimal digits"@))
    }
}

/// The byte that two hexadecimal digits stand for.
pub open spec fn octet(pair: Seq<u8>) -> Result<u8, ValueErrorV> {
    if !valid_utf8(pair) {
        Err(ValueErrorV::InvalidAddress("address is not UTF-8"@))
    } else {
        match digits_value(pair, 16) {
            Some(value) => Ok(value as u8),
            None => Err(
                ValueErrorV::InvalidAddress("invalid octet "@ + debug_quoted(decode_utf8(pair))),
            ),
        }
    }
}

/// The bytes of consecutive pairs of digits in order, or the first error.
pub open spec fn octets(digits: Seq<u8>, count: nat) -> Result<Seq<u8>, ValueErrorV>
    decreases count,
{
    if count == 0 {
        Ok(seq![])
    } else {
        match octets(digits, (count - 1) as nat) {
            Err(error) => Err(error),
            Ok(before) => match octet(digits.subrange(2 * (count - 1), (2 * count) as int)) {
                Err(error) => Err(error),
                Ok(value) => Ok(before.push(value)),
            },
        }
    }
}

/// The address that a text stands for: six hexadecimal octets, most significant
/// first, together or with colons between them, and an optional `/P`.
pub open spec fn parsed_address(text: Seq<u8>, kind: AddressKind) -> Result<
    BluetoothAddressV,
    ValueErrorV,
> {
    let (body, kind) = address_body(text, kind);
    match address_digits(body) {
        Err(error) => Err(error),
        Ok(digits) => match octets(digits, 6) {
            Err(error) => Err(error),
            Ok(bytes) => Ok(BluetoothAddressV { bytes_le: bytes.reverse(), kind }),
        },
    }
}

/// The octets of an address, most significant first, with colons between them.
pub open spec fn octet_text(bytes_le: Seq<u8>) -> Seq<char> {
    upper_hex_pair(bytes_le[5]) + ":"@ + upper_hex_pair(bytes_le[4]) + ":"@ + upper_hex_pair(
        bytes_le[3],
    ) + ":"@ + upper_hex_pair(bytes_le[2]) + ":"@ + upper_hex_pair(bytes_le[1]) + ":"@
        + upper_hex_pair(bytes_le[0])
}

impl BluetoothAddressV {
    /// The address as text, with `/P` behind a public one.
    pub open spec fn text(self) -> Seq<char> {
        octet_text(self.bytes_le) + if self.kind == AddressKind::Public {
            "/P"@
        } else {
            seq![]
        }
    }
}

impl BluetoothAddress {
    /// Creates an address from little-endian controller bytes.
    pub fn from_le_bytes(bytes_le: [u8; 6], kind: AddressKind) -> (address: Self)
        ensures
            address@ == (BluetoothAddressV { bytes_le: bytes_le@, kind }),
    {
        BluetoothAddress { bytes_le, kind }
    }

    /// Parses a big-endian address with optional colon separators.
    ///
    /// # Errors
    ///
    /// Returns [`ValueError::InvalidAddress`] when the input does not contain
    /// six hexadecimal octets. A `/P` suffix selects [`AddressKind::Public`].
    pub fn parse(value: &str, kind: AddressKind) -> (result: Result<Self, ValueError>)
        ensures
            value_agrees(result, parsed_address(value.spec_bytes(), kind)),
    {
        let text = value.as_bytes();
        let length: usize = text.len();
        let public = length >= 2 && text[length - 2] == 0x2F && text[length - 1] == 0x50;
        let body = if public {
            copy_range(text, 0, length - 2)
        } else {
            copy_bytes(text)
        };
        let kind = if public {
            AddressKind::Public
        } else {
            kind
        };
        assert(body@ =~= address_body(text@, kind).0);
        let digits = match compact_digits(&body) {
            Err(error) => {
                return Err(error);
            },
            Ok(digits) => digits,
        };
        let mut bytes_le: [u8; 6] = [0; 6];
        let mut index: usize = 0;
        while index < 6
            invariant
                index <= 6,
                digits@.len() == 12,
                address_digits(body@) == Ok::<Seq<u8>, ValueErrorV>(digits@),
                match octets(digits@, index as nat) {
                    Ok(before) => before.len() == index && forall|i: int|
                        6 - index <= i < 6 ==> #[trigger] bytes_le@[i] == before[5 - i],
                    Err(_) => false,
                },
                text@ == value.spec_bytes(),
                address_body(text@, kind) == (body@, kind),
                parsed_address(value.spec_bytes(), kind) == (match octets(digits@, 6) {
                    Err(error) => Err(error),
                    Ok(bytes) => Ok(BluetoothAddressV { bytes_le: bytes.reverse(), kind }),
                }),
            decreases 6 - index,
        {
            let pair = copy_range(&digits, 2 * index, 2 * index + 2);
            proof {
                lemma_octets_stop(digits@, (index + 1) as nat, 6);
            }
            let ghost before = octets(digits@, index as nat)->Ok_0;
            match parse_octet(pair) {
                Err(error) => {
                    return Err(error);
                },
                Ok(byte) => {
                    bytes_le[5 - index] = byte;
                    assert(octets(digits@, (index + 1) as nat) == Ok::<Seq<u8>, ValueErrorV>(
                        before.push(byte),
                    ));
                },
            }
            index = index + 1;
        }
        let address = BluetoothAddress { bytes_le, kind };
        proof {
            let bytes = octets(digits@, 6)->Ok_0;
            assert(bytes_le@ =~= bytes.reverse());
        }
        Ok(address)
    }

    /// Returns the little-endian bytes used by HCI packets.
    pub fn as_le_bytes(&self) -> (bytes: &[u8; 6])
        ensures
            bytes@ == self@.bytes_le,
    {
        &self.bytes_le
    }

    /// Returns the address qualifier.
    pub fn kind(&self) -> (kind: AddressKind)
        ensures
            kind == self@.kind,
    {
        self.kind
    }

    /// The address as text, with `/P` behind a public one.
    pub fn to_text(&self) -> (text: String)
        ensures
            text@ == self@.text(),
    {
        let mut text = String::new();
        append_upper_hex_pair(&mut text, self.bytes_le[5]);
        text.append(":");
        append_upper_hex_pair(&mut text, self.bytes_le[4]);
        text.append(":");
        append_upper_hex_pair(&mut text, self.bytes_le[3]);
        text.append(":");
        append_upper_hex_pair(&mut text, self.bytes_le[2]);
        text.append(":");
        append_upper_hex_pair(&mut text, self.bytes_le[1]);
        text.append(":");
        append_upper_hex_pair(&mut text, self.bytes_le[0]);
        assert(text@ =~= octet_text(self@.bytes_le));
        if self.kind == AddressKind::Public {
            text.append("/P");
        }
        assert(text@ =~= self@.text());
        text
    }

    /// Whether two addresses have the same bytes and qualifier.
    pub fn same(&self, other: &BluetoothAddress) -> (same: bool)
        ensures
            same == (self@ == other@),
            same == (*self == *other),
    {
        let same = equal_bytes(self.bytes_le.as_slice(), other.bytes_le.as_slice())
            && self.kind == other.kind;
        proof {
            if self@ == other@ {
                assert(self.bytes_le =~= other.bytes_le);
            }
        }
        same
    }
}

/// Two addresses with the same contents are the same address.
pub proof fn address_is_its_view(left: BluetoothAddress, right: BluetoothAddress)
    requires
        left@ == right@,
    ensures
        left == right,
{
    assert(left.bytes_le =~= right.bytes_le);
}

/// The address with these bytes in the order of HCI packets.
pub open spec fn address_of(bytes_le: Seq<u8>, kind: AddressKind) -> BluetoothAddress {
    choose|address: BluetoothAddress| address@ == (BluetoothAddressV { bytes_le, kind })
}

/// An address is the one with its bytes.
pub proof fn address_is_of_its_bytes(address: BluetoothAddress)
    ensures
        address == address_of(address@.bytes_le, address@.kind),
{
    address_is_its_view(address, address_of(address@.bytes_le, address@.kind));
}

/// Every address has six bytes.
pub proof fn address_has_six_bytes(address: BluetoothAddress)
    ensures
        address@.bytes_le.len() == 6,
{
}

/// Any six bytes are those of an address.
pub proof fn address_has_its_bytes(bytes_le: Seq<u8>, kind: AddressKind)
    requires
        bytes_le.len() == 6,
    ensures
        address_of(bytes_le, kind)@ == (BluetoothAddressV { bytes_le, kind }),
{
    let array: [u8; 6] = [
        bytes_le[0],
        bytes_le[1],
        bytes_le[2],
        bytes_le[3],
        bytes_le[4],
        bytes_le[5],
    ];
    assert(array@ =~= bytes_le);
    let address = BluetoothAddress { bytes_le: array, kind };
    assert(address@ == (BluetoothAddressV { bytes_le, kind }));
}

fn compact_digits(body: &Vec<u8>) -> (result: Result<Vec<u8>, ValueError>)
    ensures
        value_agrees(result, address_digits(body@)),
{
    let mut index: usize = 0;
    let mut colon = false;
    let mut regular = true;
    let mut digits: Vec<u8> = Vec::new();
    while index < body.len()
        invariant
            index <= body@.len(),
            colon == exists|i: int| 0 <= i < index && body@[i] == 0x3A,
            regular == forall|i: int| 0 <= i < index ==> (#[trigger] body@[i] == 0x3A <==> i % 3 == 2),
            digits@.len() == index - index / 3,
            forall|i: int| 0 <= i < digits@.len() ==> #[trigger] digits@[i] == body@[i + i / 2],
        decreases body@.len() - index,
    {
        let byte: u8 = body[index];
        if byte == 0x3A {
            colon = true;
        }
        if (byte == 0x3A) != (index % 3 == 2) {
            regular = false;
        }
        if index % 3 != 2 {
            digits.push(byte);
        }
        index = index + 1;
    }
    if body.len() == 12 && !colon {
        assert(!body@.contains(0x3A));
        Ok(copy_bytes(body))
    } else if body.len() == 17 {
        assert(body@.len() == 17 ==> regular == separated_pairs(body@));
        if regular {
            assert(digits@ =~= Seq::new(12, |i: int| body@[i + i / 2]));
            Ok(digits)
        } else {
            Err(ValueError::InvalidAddress("expected six two-digit octets".to_owned()))
        }
    } else {
        assert(body@.len() == 12 ==> body@.contains(0x3A));
        Err(ValueError::InvalidAddress("expected 12 hexadecimal digits".to_owned()))
    }
}

fn parse_octet(pair: Vec<u8>) -> (result: Result<u8, ValueError>)
    requires
        pair@.len() == 2,
    ensures
        value_agrees(result, octet(pair@)),
{
    let high = parse_digit(pair[0], 16);
    let low = parse_digit(pair[1], 16);
    proof {
        reveal_with_fuel(digits_value, 3);
        assert(pair@.drop_last().last() == pair@[0]);
        assert(pair@.drop_last().drop_last() =~= Seq::<u8>::empty());
    }
    match utf8_text(pair) {
        Err(_) => Err(ValueError::InvalidAddress("address is not UTF-8".to_owned())),
        Ok(text) => match (high, low) {
            (Some(high), Some(low)) => Ok((high * 16 + low) as u8),
            _ => {
                let mut reason = "invalid octet ".to_owned();
                reason.append(quoted(text.as_str()).as_str());
                Err(ValueError::InvalidAddress(reason))
            },
        },
    }
}

proof fn lemma_octets_stop(digits: Seq<u8>, at: nat, count: nat)
    requires
        at <= count,
    ensures
        octets(digits, at) is Err ==> octets(digits, count) == octets(digits, at),
    decreases count,
{
    if at < count {
        lemma_octets_stop(digits, at, (count - 1) as nat);
    }
}

/// The Bluetooth base UUID without its highest four bytes, least significant
/// byte first.
pub open spec fn base_uuid() -> Seq<u8> {
    seq![0xFBu8, 0x34, 0x9B, 0x5F, 0x80, 0x00, 0x00, 0x80, 0x00, 0x10, 0x00, 0x00]
}

/// The widths a UUID can have.
pub open spec fn uuid_width(length: int) -> bool {
    length == 2 || length == 4 || length == 16
}

/// The 128-bit form of a UUID: a short one stands above the Bluetooth base.
pub open spec fn expanded_uuid(bytes_le: Seq<u8>) -> Seq<u8> {
    if bytes_le.len() == 2 {
        base_uuid() + bytes_le + seq![0u8, 0u8]
    } else if bytes_le.len() == 4 {
        base_uuid() + bytes_le
    } else {
        bytes_le
    }
}

/// The error for bytes of no UUID width.
pub open spec fn uuid_fault(length: int) -> ValueErrorV {
    ValueErrorV::InvalidUuid("expected 2, 4, or 16 bytes, got "@ + decimal(length as nat))
}

/// A UUID, or the error for bytes of no UUID width.
pub open spec fn checked_uuid(bytes: Seq<u8>) -> Result<Seq<u8>, ValueErrorV> {
    if uuid_width(bytes.len() as int) {
        Ok(bytes)
    } else {
        Err(uuid_fault(bytes.len() as int))
    }
}

/// Bluetooth UUID stored in little-endian wire order.
#[derive(Debug)]
pub struct BluetoothUuid {
    bytes_le: Vec<u8>,
}

impl View for BluetoothUuid {
    type V = Seq<u8>;

    closed spec fn view(&self) -> Seq<u8> {
        self.bytes_le@
    }
}

impl BluetoothUuid {
    #[verifier::type_invariant]
    spec fn valid_width(self) -> bool {
        uuid_width(self.bytes_le@.len() as int)
    }

    /// Creates a 16-bit Bluetooth UUID.
    pub fn from_u16(value: u16) -> (uuid: Self)
        ensures
            uuid@ == le16(value),
    {
        let mut bytes_le: Vec<u8> = Vec::new();
        push_le16(&mut bytes_le, value);
        assert(bytes_le@ =~= le16(value));
        BluetoothUuid { bytes_le }
    }

    /// Creates a UUID from its 2-, 4-, or 16-byte little-endian form.
    ///
    /// # Errors
    ///
    /// Returns [`ValueError::InvalidUuid`] for every other byte length.
    pub fn from_le_bytes(bytes: &[u8]) -> (result: Result<Self, ValueError>)
        ensures
            value_agrees(result, checked_uuid(bytes@)),
    {
        let length: usize = bytes.len();
        if length == 2 || length == 4 || length == 16 {
            Ok(BluetoothUuid { bytes_le: copy_bytes(bytes) })
        } else {
            Err(
                ValueError::InvalidUuid(
                    with_decimal("expected 2, 4, or 16 bytes, got ", length as u64),
                ),
            )
        }
    }

    /// Returns the UUID in its original little-endian width.
    pub fn as_le_bytes(&self) -> (bytes: &[u8])
        ensures
            bytes@ == self@,
            uuid_width(bytes@.len() as int),
    {
        proof {
            use_type_invariant(self);
        }
        self.bytes_le.as_slice()
    }

    /// The bytes of the UUID, in its own width or in 128 bits.
    pub fn to_bytes(&self, force_128: bool) -> (bytes: Vec<u8>)
        ensures
            bytes@ == (if force_128 {
                expanded_uuid(self@)
            } else {
                self@
            }),
            uuid_width(bytes@.len() as int),
    {
        proof {
            use_type_invariant(self);
        }
        if force_128 {
            copy_bytes(self.expanded_le_bytes().as_slice())
        } else {
            copy_bytes(&self.bytes_le)
        }
    }

    /// Returns the 128-bit Bluetooth-base expansion in little-endian order.
    pub fn expanded_le_bytes(&self) -> (expanded: [u8; 16])
        ensures
            expanded@ == expanded_uuid(self@),
    {
        proof {
            use_type_invariant(self);
        }
        let b = &self.bytes_le;
        let expanded: [u8; 16] = if b.len() == 2 {
            [
                0xFB, 0x34, 0x9B, 0x5F, 0x80, 0x00, 0x00, 0x80, 0x00, 0x10, 0x00, 0x00, b[0], b[1],
                0, 0,
            ]
        } else if b.len() == 4 {
            [
                0xFB, 0x34, 0x9B, 0x5F, 0x80, 0x00, 0x00, 0x80, 0x00, 0x10, 0x00, 0x00, b[0], b[1],
                b[2], b[3],
            ]
        } else {
            [
                b[0], b[1], b[2], b[3], b[4], b[5], b[6], b[7], b[8], b[9], b[10], b[11], b[12],
                b[13], b[14], b[15],
            ]
        };
        assert(expanded@ =~= expanded_uuid(self@));
        expanded
    }

    /// Whether two UUIDs have the same 128-bit form.
    pub fn same(&self, other: &BluetoothUuid) -> (same: bool)
        ensures
            same == (expanded_uuid(self@) == expanded_uuid(other@)),
    {
        let left = self.expanded_le_bytes();
        let right = other.expanded_le_bytes();
        equal_bytes(left.as_slice(), right.as_slice())
    }

    /// A UUID with the same bytes.
    pub fn copy(&self) -> (uuid: BluetoothUuid)
        ensures
            uuid@ == self@,
    {
        proof {
            use_type_invariant(self);
        }
        BluetoothUuid { bytes_le: copy_bytes(&self.bytes_le) }
    }
}

impl Clone for BluetoothUuid {
    fn clone(&self) -> (uuid: Self)
        ensures
            uuid@ == self@,
    {
        self.copy()
    }
}

impl vstd::std_specs::cmp::PartialEqSpecImpl for BluetoothUuid {
    open spec fn obeys_eq_spec() -> bool {
        true
    }

    open spec fn eq_spec(&self, other: &BluetoothUuid) -> bool {
        expanded_uuid(self@) == expanded_uuid(other@)
    }
}

impl PartialEq for BluetoothUuid {
    fn eq(&self, other: &Self) -> (equal: bool) {
        self.same(other)
    }
}

impl Eq for BluetoothUuid {

}

/// A short UUID and its 128-bit form are the same UUID: expanding once more
/// changes nothing.
pub proof fn expansion_is_stable(bytes_le: Seq<u8>)
    requires
        uuid_width(bytes_le.len() as int),
    ensures
        expanded_uuid(bytes_le).len() == 16,
        expanded_uuid(expanded_uuid(bytes_le)) == expanded_uuid(bytes_le),
{
}

/// Two UUIDs of the same width are the same only where their bytes are.
pub proof fn expansion_is_injective(left: Seq<u8>, right: Seq<u8>)
    requires
        uuid_width(left.len() as int),
        left.len() == right.len(),
        expanded_uuid(left) == expanded_uuid(right),
    ensures
        left == right,
{
    let l = expanded_uuid(left);
    let r = expanded_uuid(right);
    assert forall|i: int| 0 <= i < left.len() implies left[i] == right[i] by {
        if left.len() < 16 {
            assert(l[12 + i] == left[i]);
            assert(r[12 + i] == right[i]);
        }
    }
    assert(left =~= right);
}

/// Classic pairing material.
pub struct ClassicBondV {
    pub link_key: Seq<u8>,
    pub link_key_type: u8,
    pub authenticated: bool,
}

impl ClassicBondV {
    /// The text shown for a bond, in which the key does not appear.
    pub open spec fn redacted_text(self) -> Seq<char> {
        "ClassicBond { link_key: \"<redacted>\", link_key_type: "@ + decimal(
            self.link_key_type as nat,
        ) + ", authenticated: "@ + (if self.authenticated {
            "true"@
        } else {
            "false"@
        }) + " }"@
    }
}

/// Classic pairing material retained for reconnect.
#[derive(PartialEq, Eq)]
pub struct ClassicBond {
    link_key: [u8; 16],
    link_key_type: u8,
    authenticated: bool,
}

impl View for ClassicBond {
    type V = ClassicBondV;

    closed spec fn view(&self) -> ClassicBondV {
        ClassicBondV {
            link_key: self.link_key@,
            link_key_type: self.link_key_type,
            authenticated: self.authenticated,
        }
    }
}

impl Clone for ClassicBond {
    fn clone(&self) -> (bond: Self)
        ensures
            bond@ == self@,
    {
        ClassicBond {
            link_key: self.link_key,
            link_key_type: self.link_key_type,
            authenticated: self.authenticated,
        }
    }
}

impl ClassicBond {
    /// Creates a bond from a controller link key.
    pub fn new(link_key: [u8; 16], link_key_type: u8, authenticated: bool) -> (bond: Self)
        ensures
            bond@ == (ClassicBondV { link_key: link_key@, link_key_type, authenticated }),
    {
        ClassicBond { link_key, link_key_type, authenticated }
    }

    /// Converts a dynamic key buffer into a fixed Classic bond.
    ///
    /// # Errors
    ///
    /// Returns [`ValueError::InvalidLinkKeyLength`] unless `link_key` contains
    /// exactly 16 bytes.
    pub fn from_slice(link_key: &[u8], link_key_type: u8, authenticated: bool) -> (result: Result<
        Self,
        ValueError,
    >)
        ensures
            value_agrees(
                result,
                if link_key@.len() == 16 {
                    Ok((ClassicBondV { link_key: link_key@, link_key_type, authenticated }))
                } else {
                    Err(ValueErrorV::InvalidLinkKeyLength { actual: link_key@.len() as usize })
                },
            ),
    {
        if link_key.len() != 16 {
            return Err(ValueError::InvalidLinkKeyLength { actual: link_key.len() });
        }
        let key: [u8; 16] = [
            link_key[0],
            link_key[1],
            link_key[2],
            link_key[3],
            link_key[4],
            link_key[5],
            link_key[6],
            link_key[7],
            link_key[8],
            link_key[9],
            link_key[10],
            link_key[11],
            link_key[12],
            link_key[13],
            link_key[14],
            link_key[15],
        ];
        assert(key@ =~= link_key@);
        Ok(ClassicBond::new(key, link_key_type, authenticated))
    }

    /// Returns the 16-byte Classic link key.
    pub fn link_key(&self) -> (key: &[u8; 16])
        ensures
            key@ == self@.link_key,
    {
        &self.link_key
    }

    /// Returns the HCI link-key type.
    pub fn link_key_type(&self) -> (link_key_type: u8)
        ensures
            link_key_type == self@.link_key_type,
    {
        self.link_key_type
    }

    /// Returns whether the pairing authenticated the peer.
    pub fn authenticated(&self) -> (authenticated: bool)
        ensures
            authenticated == self@.authenticated,
    {
        self.authenticated
    }

    /// The text to show for the bond, without the key.
    pub fn redacted(&self) -> (text: String)
        ensures
            text@ == self@.redacted_text(),
    {
        let mut text = "ClassicBond { link_key: \"<redacted>\", link_key_type: ".to_owned();
        text.append(decimal_text(self.link_key_type as u64).as_str());
        text.append(", authenticated: ");
        text.append(
            if self.authenticated {
                "true"
            } else {
                "false"
            },
        );
        text.append(" }");
        text
    }
}

/// The text shown for a bond says nothing about its key.
pub proof fn redacted_text_hides_the_key(left: ClassicBondV, right: ClassicBondV)
    requires
        left.link_key_type == right.link_key_type,
        left.authenticated == right.authenticated,
    ensures
        left.redacted_text() == right.redacted_text(),
{
}

proof fn lemma_pair_reads_back(value: u8)
    ensures
        octet(
            Seq::new(2, |i: int| upper_hex_pair(value)[i] as u8),
        ) == Ok::<u8, ValueErrorV>(value),
{
    let chars = upper_hex_pair(value);
    let pair = Seq::new(2, |i: int| chars[i] as u8);
    assert(is_ascii_chars(chars));
    vstd::utf8::is_ascii_chars_encode_utf8(chars);
    assert(encode_utf8(chars) =~= pair);
    vstd::utf8::encode_utf8_valid_utf8(chars);
    reveal_with_fuel(digits_value, 3);
    assert(pair.drop_last().drop_last() =~= Seq::<u8>::empty());
    assert(digits_value(pair.drop_last().drop_last(), 16) == Some(0int));
    assert(pair.drop_last().last() == pair[0]);
    assert(pair.last() == pair[1]);
    assert(digits_value(pair.drop_last(), 16) == Some((value / 16) as int));
    assert(digits_value(pair, 16) == Some(value as int));
}

/// The text of an address, parsed again with the address's own qualifier, gives
/// the address back.
#[verifier::spinoff_prover]
#[verifier::rlimit(40)]
pub proof fn address_reads_back(address: BluetoothAddressV)
    requires
        address.bytes_le.len() == 6,
    ensures
        parsed_address(encode_utf8(address.text()), address.kind) == Ok::<
            BluetoothAddressV,
            ValueErrorV,
        >(address),
{
    let chars = address.text();
    let b = address.bytes_le;
    reveal_strlit(":");
    reveal_strlit("/P");
    assert(is_ascii_chars(chars));
    vstd::utf8::is_ascii_chars_encode_utf8(chars);
    let text = encode_utf8(chars);
    let body = octet_text(b);
    let plain = Seq::new(17, |i: int| body[i] as u8);
    assert(body.len() == 17);
    assert(address_body(text, address.kind).1 == address.kind);
    assert(address_body(text, address.kind).0 =~= plain);
    assert(separated_pairs(plain)) by {
        assert forall|i: int| 0 <= i < 17 implies (#[trigger] plain[i] == 0x3A <==> i % 3 == 2) by {
            assert(plain[i] == body[i] as u8);
        }
    }
    let digits = Seq::new(12, |i: int| plain[i + i / 2]);
    assert(address_digits(plain) == Ok::<Seq<u8>, ValueErrorV>(digits));
    assert forall|k: int| 0 <= k < 6 implies octet(#[trigger] digits.subrange(2 * k, 2 * k + 2)) == Ok::<
        u8,
        ValueErrorV,
    >(b[5 - k]) by {
        lemma_pair_reads_back(b[5 - k]);
        let pair = Seq::new(2, |i: int| upper_hex_pair(b[5 - k])[i] as u8);
        assert(digits[2 * k] == plain[3 * k]);
        assert(digits[2 * k + 1] == plain[3 * k + 1]);
        assert(body[3 * k] == upper_hex_pair(b[5 - k])[0]);
        assert(body[3 * k + 1] == upper_hex_pair(b[5 - k])[1]);
        assert(digits.subrange(2 * k, 2 * k + 2) =~= pair);
    }
    lemma_octets(digits, b, 6);
    assert(octets(digits, 6)->Ok_0.reverse() =~= b);
}

proof fn lemma_octets(digits: Seq<u8>, bytes_le: Seq<u8>, count: nat)
    requires
        count <= 6,
        bytes_le.len() == 6,
        forall|k: int|
            0 <= k < 6 ==> octet(#[trigger] digits.subrange(2 * k, 2 * k + 2)) == Ok::<
                u8,
                ValueErrorV,
            >(bytes_le[5 - k]),
    ensures
        octets(digits, count) == Ok::<Seq<u8>, ValueErrorV>(
            Seq::new(count, |i: int| bytes_le[5 - i]),
        ),
    decreases count,
{
    let whole = Seq::new(count, |i: int| bytes_le[5 - i]);
    if count > 0 {
        let k = count - 1;
        lemma_octets(digits, bytes_le, (count - 1) as nat);
        assert(octet(digits.subrange(2 * k, 2 * k + 2)) == Ok::<u8, ValueErrorV>(bytes_le[5 - k]));
        assert(2 * k + 2 == (2 * count) as int);
        assert(Seq::new((count - 1) as nat, |i: int| bytes_le[5 - i]).push(bytes_le[5 - k])
            =~= whole);
    } else {
        assert(whole =~= seq![]);
    }
}

} // verus!
