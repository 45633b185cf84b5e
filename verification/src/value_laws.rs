//! How numbers, addresses and UUIDs are spelled, and what a session can be
//! configured with.

use vstd::prelude::*;
use vstd::utf8::valid_utf8;

use crate::api::{name_field, valid_identity};
use crate::bytes::{be16, be16_at, be32, be32_at, le16, le16_at, le32};
use crate::text::{decimal, digit_value, digits_value, hexadecimal, number_value};
use crate::values::{
    address_digits, checked_uuid, expanded_uuid, octet, octets, parsed_address, AddressKind, BluetoothAddressV,
    ValueErrorV,
};

verus! {

/// The digits are `0` to `9`, and in the radix sixteen `A` to `F` and `a` to `f`.
pub proof fn digits_have_their_values(value: int, byte: u8)
    ensures
        0 <= value < 10 ==> digit_value((0x30 + value) as u8, 10) == Some(value) && digit_value(
            (0x30 + value) as u8,
            16,
        ) == Some(value),
        10 <= value < 16 ==> digit_value((0x41 + value - 10) as u8, 16) == Some(value)
            && digit_value((0x61 + value - 10) as u8, 16) == Some(value),
        !(0x30 <= byte <= 0x39) ==> digit_value(byte, 10) is None,
        !(0x30 <= byte <= 0x39 || 0x41 <= byte <= 0x46 || 0x61 <= byte <= 0x66) ==> digit_value(
            byte,
            16,
        ) is None,
{
}

/// The last digit of a number counts once, the digits before it the radix times
/// as much. A plus sign may stand in front, a text without digits is no number,
/// and neither is one above the largest.
pub proof fn digits_count_by_their_place(front: Seq<u8>, last: u8, radix: int, max: int)
    requires
        radix == 10 || radix == 16,
        front.len() > 0 ==> front[0] != 0x2B,
        max >= 0,
    ensures
        digits_value(front, radix) matches Some(high) ==> (digit_value(last, radix) matches Some(
            low,
        ) ==> (digits_value(front.push(last), radix) == Some(high * radix + low) && (front.len() > 0
            ==> number_value(front.push(last), radix, max) == (if high * radix + low <= max {
            Some(high * radix + low)
        } else {
            None
        })))),
        digit_value(last, radix) is None ==> digits_value(front.push(last), radix) is None,
        digits_value(front, radix) is None ==> digits_value(front.push(last), radix) is None,
        digits_value(seq![], radix) == Some(0int),
        number_value(seq![], radix, max) is None,
        number_value(seq![0x2Bu8], radix, max) is None,
        front.len() > 0 ==> number_value(seq![0x2Bu8] + front, radix, max) == number_value(
            front,
            radix,
            max,
        ),
{
    assert(front.push(last).drop_last() =~= front);
    assert(seq![0x2Bu8].skip(1) =~= seq![]);
    assert((seq![0x2Bu8] + front).skip(1) =~= front);
}

/// The bytes of a text of ASCII characters.
pub open spec fn ascii(text: Seq<char>) -> Seq<u8> {
    text.map_values(|c: char| c as u8)
}

/// A number that is written out, in decimal or hexadecimal digits, reads back as
/// that number.
pub proof fn written_numbers_read_back(value: nat)
    ensures
        decimal(value).len() > 0,
        digits_value(ascii(decimal(value)), 10) == Some(value as int),
        hexadecimal(value).len() > 0,
        digits_value(ascii(hexadecimal(value)), 16) == Some(value as int),
    decreases value,
{
    reveal_with_fuel(digits_value, 2);
    let tens = decimal(value);
    let sixteens = hexadecimal(value);
    if value >= 10 {
        written_numbers_read_back(value / 10);
        assert(ascii(tens).drop_last() =~= ascii(decimal(value / 10)));
        assert(value / 10 * 10 + value % 10 == value);
    } else {
        assert(ascii(tens).drop_last() =~= seq![]);
    }
    if value >= 16 {
        written_numbers_read_back(value / 16);
        assert(ascii(sixteens).drop_last() =~= ascii(hexadecimal(value / 16)));
        assert(value / 16 * 16 + value % 16 == value);
    } else {
        assert(ascii(sixteens).drop_last() =~= seq![]);
    }
}

/// Numbers of several bytes: the order of their bytes is the one that the name
/// says, and they read back.
pub proof fn numbers_have_their_bytes(small: u16, wide: u32, tail: Seq<u8>)
    ensures
        le16(small) == seq![(small % 256) as u8, (small / 256) as u8],
        be16(small) == seq![(small / 256) as u8, (small % 256) as u8],
        le16_at(le16(small) + tail, 0) == small,
        be16_at(be16(small) + tail, 0) == small,
        le32(wide) == seq![
            (wide % 256) as u8,
            (wide / 256 % 256) as u8,
            (wide / 65536 % 256) as u8,
            (wide / 0x100_0000) as u8,
        ],
        be32(wide) == seq![
            (wide / 0x100_0000) as u8,
            (wide / 65536 % 256) as u8,
            (wide / 256 % 256) as u8,
            (wide % 256) as u8,
        ],
        be32_at(be32(wide) + tail, 0) == wide,
{
    assert(le16(small) =~= seq![(small % 256) as u8, (small / 256) as u8]);
    assert(be16(small) =~= seq![(small / 256) as u8, (small % 256) as u8]);
    assert(le32(wide) =~= seq![
        (wide % 256) as u8,
        (wide / 256 % 256) as u8,
        (wide / 65536 % 256) as u8,
        (wide / 0x100_0000) as u8,
    ]);
    assert(be32(wide) =~= seq![
        (wide / 0x100_0000) as u8,
        (wide / 65536 % 256) as u8,
        (wide / 256 % 256) as u8,
        (wide % 256) as u8,
    ]);
}

/// Whether twelve bytes are hexadecimal digits.
pub open spec fn twelve_digits(digits: Seq<u8>) -> bool {
    digits.len() == 12 && forall|i: int|
        0 <= i < 12 ==> digit_value(#[trigger] digits[i], 16) is Some
}

/// The byte that stands at a place of twelve digits, two for each byte.
pub open spec fn byte_at(digits: Seq<u8>, place: int) -> u8 {
    (16 * digit_value(digits[2 * place], 16)->0 + digit_value(digits[2 * place + 1], 16)->0) as u8
}

proof fn lemma_octets(digits: Seq<u8>, count: nat)
    requires
        twelve_digits(digits),
        count <= 6,
    ensures
        octets(digits, count) matches Ok(bytes) && bytes.len() == count && forall|i: int|
            0 <= i < count ==> #[trigger] bytes[i] == byte_at(digits, i),
    decreases count,
{
    if count > 0 {
        lemma_octets(digits, (count - 1) as nat);
        let at = 2 * (count - 1);
        let pair = digits.subrange(at, at + 2);
        assert(digit_value(digits[at], 16) is Some);
        assert(digit_value(digits[at + 1], 16) is Some);
        reveal_with_fuel(digits_value, 3);
        assert(pair.drop_last().drop_last() =~= seq![]);
        assert(pair.drop_last().last() == digits[at]);
        assert(pair.last() == digits[at + 1]);
        assert(valid_utf8(pair)) by {
            lemma_ascii_pair(pair);
        }
        assert(octet(pair) == Ok::<u8, ValueErrorV>(byte_at(digits, count - 1)));
    }
}

proof fn lemma_ascii_pair(pair: Seq<u8>)
    requires
        pair.len() == 2,
        pair[0] < 128,
        pair[1] < 128,
    ensures
        valid_utf8(pair),
{
    reveal_with_fuel(valid_utf8, 3);
}

/// Twelve digits with a colon behind every two but the last.
pub open spec fn spaced(digits: Seq<u8>) -> Seq<u8> {
    Seq::new(
        17,
        |i: int|
            if i % 3 == 2 {
                0x3Au8
            } else {
                digits[2 * (i / 3) + i % 3]
            },
    )
}

proof fn lemma_no_marks(digits: Seq<u8>)
    requires
        twelve_digits(digits),
    ensures
        forall|i: int|
            0 <= i < 12 ==> #[trigger] digits[i] != 0x3A && digits[i] != 0x2F && digits[i] != 0x50,
        address_digits(digits) == Ok::<Seq<u8>, ValueErrorV>(digits),
{
    assert forall|i: int| 0 <= i < 12 implies #[trigger] digits[i] != 0x3A && digits[i] != 0x2F
        && digits[i] != 0x50 by {
        assert(digit_value(digits[i], 16) is Some);
    }
}

proof fn lemma_spaced(digits: Seq<u8>)
    requires
        twelve_digits(digits),
    ensures
        address_digits(spaced(digits)) == Ok::<Seq<u8>, ValueErrorV>(digits),
{
    lemma_no_marks(digits);
    let body = spaced(digits);
    assert forall|i: int| 0 <= i < 17 implies (#[trigger] body[i] == 0x3A <==> i % 3 == 2) by {
        if i % 3 != 2 {
            assert(digits[2 * (i / 3) + i % 3] != 0x3A);
        }
    }
    let read = Seq::new(12, |i: int| body[i + i / 2]);
    assert forall|i: int| 0 <= i < 12 implies #[trigger] read[i] == digits[i] by {
        let at = i + i / 2;
        assert(at / 3 == i / 2 && at % 3 == i % 2);
        assert(read[i] == body[at]);
    }
    assert(read =~= digits);
}

/// An address is read from twelve hexadecimal digits, the most significant byte
/// first, with or without colons between the bytes. A `/P` behind it says that it is
/// public; otherwise it is of the kind that is assumed.
#[verifier::spinoff_prover]
pub proof fn addresses_are_read_from_digits(digits: Seq<u8>, kind: AddressKind)
    requires
        twelve_digits(digits),
    ensures
        ({
            let bytes_le = seq![
                byte_at(digits, 5),
                byte_at(digits, 4),
                byte_at(digits, 3),
                byte_at(digits, 2),
                byte_at(digits, 1),
                byte_at(digits, 0),
            ];
            let address = Ok::<BluetoothAddressV, ValueErrorV>(
                BluetoothAddressV { bytes_le, kind },
            );
            let public = Ok::<BluetoothAddressV, ValueErrorV>(
                BluetoothAddressV { bytes_le, kind: AddressKind::Public },
            );
            &&& parsed_address(digits, kind) == address
            &&& parsed_address(spaced(digits), kind) == address
            &&& parsed_address(digits + seq![0x2Fu8, 0x50], kind) == public
            &&& parsed_address(spaced(digits) + seq![0x2Fu8, 0x50], kind) == public
        }),
{
    lemma_octets(digits, 6);
    let bytes = octets(digits, 6)->Ok_0;
    let bytes_le = seq![
        byte_at(digits, 5),
        byte_at(digits, 4),
        byte_at(digits, 3),
        byte_at(digits, 2),
        byte_at(digits, 1),
        byte_at(digits, 0),
    ];
    assert(bytes.reverse() =~= bytes_le);
    lemma_no_marks(digits);
    lemma_spaced(digits);
    assert(spaced(digits)[16] == digits[11]);
    assert((digits + seq![0x2Fu8, 0x50]).take(12) =~= digits);
    assert((spaced(digits) + seq![0x2Fu8, 0x50]).take(17) =~= spaced(digits));
}

/// A UUID of two or four bytes stands for the Bluetooth base UUID
/// 00000000-0000-1000-8000-00805F9B34FB with its own bytes on top; one of sixteen
/// bytes for itself. There is none of another length.
pub proof fn short_uuids_stand_on_the_base(bytes_le: Seq<u8>)
    ensures
        checked_uuid(bytes_le) is Ok <==> bytes_le.len() == 2 || bytes_le.len() == 4
            || bytes_le.len() == 16,
        checked_uuid(bytes_le) matches Ok(uuid) ==> uuid == bytes_le,
        bytes_le.len() == 2 ==> expanded_uuid(bytes_le) == seq![
            0xFBu8, 0x34, 0x9B, 0x5F, 0x80, 0x00, 0x00, 0x80, 0x00, 0x10, 0x00, 0x00, bytes_le[0],
            bytes_le[1], 0x00, 0x00,
        ],
        bytes_le.len() == 4 ==> expanded_uuid(bytes_le) == seq![
            0xFBu8, 0x34, 0x9B, 0x5F, 0x80, 0x00, 0x00, 0x80, 0x00, 0x10, 0x00, 0x00, bytes_le[0],
            bytes_le[1], bytes_le[2], bytes_le[3],
        ],
        bytes_le.len() == 16 ==> expanded_uuid(bytes_le) == bytes_le,
{
    if bytes_le.len() == 2 {
        assert(expanded_uuid(bytes_le) =~= seq![
            0xFBu8, 0x34, 0x9B, 0x5F, 0x80, 0x00, 0x00, 0x80, 0x00, 0x10, 0x00, 0x00, bytes_le[0],
            bytes_le[1], 0x00, 0x00,
        ]);
    }
    if bytes_le.len() == 4 {
        assert(expanded_uuid(bytes_le) =~= seq![
            0xFBu8, 0x34, 0x9B, 0x5F, 0x80, 0x00, 0x00, 0x80, 0x00, 0x10, 0x00, 0x00, bytes_le[0],
            bytes_le[1], bytes_le[2], bytes_le[3],
        ]);
    }
}

/// A session can have a name that, with its length and its type 0x09 in front,
/// fits the 240 bytes of an inquiry response and is not empty, and a class of three
/// bytes.
pub proof fn names_fit_the_inquiry_response(name: Seq<u8>, class_of_device: u32)
    ensures
        valid_identity(name, class_of_device) <==> name.len() > 0 && name_field(name).len() <= 240
            && class_of_device < 0x0100_0000,
        name.len() < 255 ==> name_field(name) == seq![(name.len() + 1) as u8, 0x09] + name,
{
}

} // verus!
