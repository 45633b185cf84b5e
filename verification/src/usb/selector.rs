//! The text that says which adapter is meant: a position among the adapters,
//! USB identifiers, or a place in the USB topology.

use vstd::prelude::*;
use vstd::string::*;
use vstd::utf8::{decode_utf8, valid_utf8};

use super::UsbError;
use crate::bytes::{copy_bytes, copy_range};
use crate::text::{number_value, parse_number, utf8_text};

verus! {

/// Which adapter is meant.
pub enum UsbSelectorV {
    Index(usize),
    VidPid {
        vendor_id: u16,
        product_id: u16,
        serial_number: Option<Seq<char>>,
        occurrence: usize,
    },
    Path { bus: u8, ports: Seq<u8> },
}

/// Which adapter is meant.
#[derive(Clone, Debug, PartialEq, Eq)]
pub enum UsbSelector {
    Index(usize),
    VidPid {
        vendor_id: u16,
        product_id: u16,
        serial_number: Option<String>,
        occurrence: usize,
    },
    Path { bus: u8, ports: Vec<u8> },
}

pub open spec fn optional_text(text: Option<String>) -> Option<Seq<char>> {
    match text {
        Some(text) => Some(text@),
        None => None,
    }
}

impl View for UsbSelector {
    type V = UsbSelectorV;

    open spec fn view(&self) -> UsbSelectorV {
        match *self {
            UsbSelector::Index(index) => UsbSelectorV::Index(index),
            UsbSelector::VidPid { vendor_id, product_id, serial_number, occurrence } =>
            UsbSelectorV::VidPid {
                vendor_id,
                product_id,
                serial_number: optional_text(serial_number),
                occurrence,
            },
            UsbSelector::Path { bus, ports } => UsbSelectorV::Path { bus, ports: ports@ },
        }
    }
}

pub const SLASH: u8 = 0x2F;

pub const COLON: u8 = 0x3A;

pub const HASH: u8 = 0x23;

pub const DASH: u8 = 0x2D;

pub const DOT: u8 = 0x2E;

/// Where a byte first occurs in a text.
pub open spec fn first_at(text: Seq<u8>, byte: u8) -> Option<int>
    decreases text.len(),
{
    if text.len() == 0 {
        None
    } else if text[0] == byte {
        Some(0)
    } else {
        match first_at(text.skip(1), byte) {
            Some(at) => Some(at + 1),
            None => None,
        }
    }
}

/// What stands before and after the first occurrence of a byte in a text.
pub open spec fn split_text(text: Seq<u8>, byte: u8) -> Option<(Seq<u8>, Seq<u8>)> {
    match first_at(text, byte) {
        Some(at) => Some((text.take(at), text.skip(at + 1))),
        None => None,
    }
}

pub open spec fn usb_prefix() -> Seq<u8> {
    seq![0x75u8, 0x73u8, 0x62u8, 0x3Au8]
}

/// A text without the prefix that selectors may have.
pub open spec fn unprefixed(text: Seq<u8>) -> Seq<u8> {
    if text.len() >= 4 && text.take(4) == usb_prefix() {
        text.skip(4)
    } else {
        text
    }
}

/// The numbers between the dots of a text.
pub open spec fn dotted_numbers(text: Seq<u8>) -> Option<Seq<u8>>
    decreases text.len(),
{
    match first_at(text, DOT) {
        None => match number_value(text, 10, 255) {
            Some(number) => Some(seq![number as u8]),
            None => None,
        },
        Some(at) => if 0 <= at < text.len() {
            match (number_value(text.take(at), 10, 255), dotted_numbers(text.skip(at + 1))) {
                (Some(number), Some(rest)) => Some(seq![number as u8] + rest),
                _ => None,
            }
        } else {
            None
        },
    }
}

/// Which adapter the part behind the vendor identifier means: a product
/// identifier, with a serial number behind a slash or an occurrence behind a
/// hash.
pub open spec fn product_of(vendor_id: u16, text: Seq<u8>) -> Option<UsbSelectorV> {
    match split_text(text, SLASH) {
        Some((product, serial)) => match number_value(product, 16, 0xFFFF) {
            Some(product_id) => if serial.len() == 0 {
                None
            } else {
                Some(
                    UsbSelectorV::VidPid {
                        vendor_id,
                        product_id: product_id as u16,
                        serial_number: Some(decode_utf8(serial)),
                        occurrence: 0,
                    },
                )
            },
            None => None,
        },
        None => match split_text(text, HASH) {
            Some((product, occurrence)) => match (
                number_value(product, 16, 0xFFFF),
                number_value(occurrence, 10, usize::MAX as int),
            ) {
                (Some(product_id), Some(occurrence)) => Some(
                    UsbSelectorV::VidPid {
                        vendor_id,
                        product_id: product_id as u16,
                        serial_number: None,
                        occurrence: occurrence as usize,
                    },
                ),
                _ => None,
            },
            None => match number_value(text, 16, 0xFFFF) {
                Some(product_id) => Some(
                    UsbSelectorV::VidPid {
                        vendor_id,
                        product_id: product_id as u16,
                        serial_number: None,
                        occurrence: 0,
                    },
                ),
                None => None,
            },
        },
    }
}

/// Which adapter a text means.
pub open spec fn selector_of(text: Seq<u8>) -> Option<UsbSelectorV> {
    let value = unprefixed(text);
    match split_text(value, COLON) {
        Some((vendor, product)) => match number_value(vendor, 16, 0xFFFF) {
            Some(vendor_id) => product_of(vendor_id as u16, product),
            None => None,
        },
        None => match split_text(value, DASH) {
            Some((bus, ports)) => match (number_value(bus, 10, 255), dotted_numbers(ports)) {
                (Some(bus), Some(ports)) => Some(UsbSelectorV::Path { bus: bus as u8, ports }),
                _ => None,
            },
            None => match number_value(value, 10, usize::MAX as int) {
                Some(index) => Some(UsbSelectorV::Index(index as usize)),
                None => None,
            },
        },
    }
}

proof fn lemma_first_at(text: Seq<u8>, byte: u8, at: int)
    requires
        0 <= at <= text.len(),
        forall|i: int| 0 <= i < at ==> text[i] != byte,
    ensures
        at < text.len() && text[at] == byte ==> first_at(text, byte) == Some(at),
        at == text.len() ==> first_at(text, byte) is None,
    decreases text.len(),
{
    if text.len() > 0 && at > 0 {
        assert(text[0] != byte);
        let rest = text.skip(1);
        assert forall|i: int| 0 <= i < at - 1 implies rest[i] != byte by {
            assert(text[i + 1] != byte);
        }
        lemma_first_at(rest, byte, at - 1);
        if at < text.len() {
            assert(rest[at - 1] == text[at]);
        }
    }
}

/// Where a byte first occurs in a text.
fn find_byte(text: &[u8], byte: u8) -> (at: Option<usize>)
    ensures
        match at {
            Some(at) => first_at(text@, byte) == Some(at as int) && at < text.len() && text@[
                at as int] == byte,
            None => first_at(text@, byte) is None,
        },
{
    let mut index: usize = 0;
    while index < text.len()
        invariant
            index <= text@.len(),
            forall|i: int| 0 <= i < index ==> text@[i] != byte,
        decreases text@.len() - index,
    {
        if text[index] == byte {
            proof {
                lemma_first_at(text@, byte, index as int);
            }
            return Some(index);
        }
        index = index + 1;
    }
    proof {
        lemma_first_at(text@, byte, index as int);
    }
    None
}

/// What stands before and after the first occurrence of a byte in a text.
fn split_bytes(text: &[u8], byte: u8) -> (parts: Option<(Vec<u8>, Vec<u8>)>)
    ensures
        match parts {
            Some((before, after)) => split_text(text@, byte) == Some((before@, after@)),
            None => split_text(text@, byte) is None,
        },
{
    match find_byte(text, byte) {
        None => None,
        Some(at) => {
            let before = copy_range(text, 0, at);
            let after = copy_range(text, at + 1, text.len());
            assert(before@ =~= text@.take(at as int));
            assert(after@ =~= text@.skip(at + 1));
            Some((before, after))
        },
    }
}

fn parse_hex_id(text: &[u8]) -> (id: Option<u16>)
    ensures
        match id {
            Some(id) => number_value(text@, 16, 0xFFFF) == Some(id as int),
            None => number_value(text@, 16, 0xFFFF) is None,
        },
{
    match parse_number(text, 16, 0xFFFF) {
        Some(value) => {
            assert(value <= 0xFFFF);
            Some(value as u16)
        },
        None => None,
    }
}

fn parse_octet(text: &[u8]) -> (number: Option<u8>)
    ensures
        match number {
            Some(number) => number_value(text@, 10, 255) == Some(number as int),
            None => number_value(text@, 10, 255) is None,
        },
{
    match parse_number(text, 10, 255) {
        Some(value) => {
            assert(value <= 255);
            Some(value as u8)
        },
        None => None,
    }
}

fn parse_count(text: &[u8]) -> (count: Option<usize>)
    ensures
        match count {
            Some(count) => number_value(text@, 10, usize::MAX as int) == Some(count as int),
            None => number_value(text@, 10, usize::MAX as int) is None,
        },
{
    match parse_number(text, 10, usize::MAX as u64) {
        Some(value) => {
            assert(value <= usize::MAX);
            Some(value as usize)
        },
        None => None,
    }
}

/// The numbers between the dots of a text.
fn parse_ports(text: &[u8]) -> (ports: Option<Vec<u8>>)
    ensures
        match ports {
            Some(ports) => dotted_numbers(text@) == Some(ports@),
            None => dotted_numbers(text@) is None,
        },
{
    let ghost goal = dotted_numbers(text@);
    let mut rest = copy_bytes(text);
    let mut ports: Vec<u8> = Vec::new();
    let mut more: bool = true;
    proof {
        if goal is Some {
            assert(ports@ + goal->0 =~= goal->0);
        }
    }
    while more
        invariant
            goal == dotted_numbers(text@),
            more ==> goal == match dotted_numbers(rest@) {
                Some(numbers) => Some(ports@ + numbers),
                None => None,
            },
            !more ==> goal == Some(ports@),
        decreases
                rest@.len() + if more {
                    1int
                } else {
                    0int
                },
    {
        match find_byte(&rest, DOT) {
            None => match parse_octet(&rest) {
                None => {
                    return None;
                },
                Some(number) => {
                    let ghost before = ports@;
                    ports.push(number);
                    assert(ports@ =~= before + seq![number]);
                    more = false;
                },
            },
            Some(at) => {
                let first = copy_range(&rest, 0, at);
                let tail = copy_range(&rest, at + 1, rest.len());
                proof {
                    assert(first@ =~= rest@.take(at as int));
                    assert(tail@ =~= rest@.skip(at + 1));
                }
                match parse_octet(&first) {
                    None => {
                        return None;
                    },
                    Some(number) => {
                        let ghost before = ports@;
                        ports.push(number);
                        proof {
                            if let Some(numbers) = dotted_numbers(tail@) {
                                assert(before + (seq![number] + numbers) =~= ports@ + numbers);
                            }
                        }
                        rest = tail;
                    },
                }
            },
        }
    }
    Some(ports)
}

proof fn lemma_suffix_valid(text: Seq<u8>, at: int)
    requires
        valid_utf8(text),
        0 <= at < text.len(),
        text[at] < 0x80,
    ensures
        valid_utf8(text.skip(at + 1)),
{
    vstd::utf8::is_char_boundary_iff_not_is_continuation_byte(text, at);
    vstd::utf8::valid_utf8_split(text, at);
    let tail = text.subrange(at, text.len() as int);
    assert(tail[0] == text[at]);
    assert(valid_utf8(tail));
    assert(vstd::utf8::length_of_first_scalar(tail) == 1);
    assert(vstd::utf8::pop_first_scalar(tail) =~= text.skip(at + 1));
}

fn parse_product(vendor_id: u16, text: &[u8]) -> (result: Option<UsbSelector>)
    requires
        valid_utf8(text@),
    ensures
        match result {
            Some(selector) => product_of(vendor_id, text@) == Some(selector@),
            None => product_of(vendor_id, text@) is None,
        },
{
    match find_byte(text, SLASH) {
        Some(at) => {
            let product = copy_range(text, 0, at);
            let serial = copy_range(text, at + 1, text.len());
            proof {
                assert(product@ =~= text@.take(at as int));
                assert(serial@ =~= text@.skip(at + 1));
                lemma_suffix_valid(text@, at as int);
            }
            if serial.len() == 0 {
                return None;
            }
            match parse_hex_id(&product) {
                None => None,
                Some(product_id) => match utf8_text(serial) {
                    Ok(serial) => Some(
                        UsbSelector::VidPid {
                            vendor_id,
                            product_id,
                            serial_number: Some(serial),
                            occurrence: 0,
                        },
                    ),
                    Err(_) => None,
                },
            }
        },
        None => match split_bytes(text, HASH) {
            Some((product, occurrence)) => match (
                parse_hex_id(&product),
                parse_count(&occurrence),
            ) {
                (Some(product_id), Some(occurrence)) => Some(
                    UsbSelector::VidPid { vendor_id, product_id, serial_number: None, occurrence },
                ),
                _ => None,
            },
            None => match parse_hex_id(text) {
                Some(product_id) => Some(
                    UsbSelector::VidPid {
                        vendor_id,
                        product_id,
                        serial_number: None,
                        occurrence: 0,
                    },
                ),
                None => None,
            },
        },
    }
}

impl UsbSelector {
    /// Reads the text that says which adapter is meant.
    pub fn parse(value: &str) -> (result: Result<Self, UsbError>)
        ensures
            match result {
                Ok(selector) => selector_of(value.spec_bytes()) == Some(selector@),
                Err(error) => selector_of(value.spec_bytes()) is None && error
                    == UsbError::InvalidSelector,
            },
    {
        proof {
            vstd::utf8::encode_utf8_valid_utf8(value@);
        }
        match parse_selector(value.as_bytes()) {
            Some(selector) => Ok(selector),
            None => Err(UsbError::InvalidSelector),
        }
    }
}

fn parse_selector(text: &[u8]) -> (result: Option<UsbSelector>)
    requires
        valid_utf8(text@),
    ensures
        match result {
            Some(selector) => selector_of(text@) == Some(selector@),
            None => selector_of(text@) is None,
        },
{
    let start: usize = if text.len() >= 4 && text[0] == 0x75 && text[1] == 0x73 && text[2] == 0x62
        && text[3] == 0x3A {
        assert(text@.take(4) =~= usb_prefix());
        4
    } else {
        proof {
            if text@.len() >= 4 && text@.take(4) == usb_prefix() {
                assert(text@.take(4)[0] == 0x75 && text@.take(4)[1] == 0x73 && text@.take(4)[2]
                    == 0x62 && text@.take(4)[3] == 0x3A);
            }
        }
        0
    };
    let value = copy_range(text, start, text.len());
    proof {
        if start == 4 {
            assert(value@ =~= text@.skip(4));
            lemma_suffix_valid(text@, 3);
        } else {
            assert(value@ =~= text@);
        }
        assert(value@ == unprefixed(text@));
    }
    match find_byte(&value, COLON) {
        Some(at) => {
            let vendor = copy_range(&value, 0, at);
            let product = copy_range(&value, at + 1, value.len());
            proof {
                assert(vendor@ =~= value@.take(at as int));
                assert(product@ =~= value@.skip(at + 1));
                lemma_suffix_valid(value@, at as int);
            }
            match parse_hex_id(&vendor) {
                Some(vendor_id) => parse_product(vendor_id, &product),
                None => None,
            }
        },
        None => match split_bytes(&value, DASH) {
            Some((bus, ports)) => match (parse_octet(&bus), parse_ports(&ports)) {
                (Some(bus), Some(ports)) => Some(UsbSelector::Path { bus, ports }),
                _ => None,
            },
            None => match parse_count(&value) {
                Some(index) => Some(UsbSelector::Index(index)),
                None => None,
            },
        },
    }
}

} // verus!
