//! Fixed-width integers in byte sequences, and copies between byte buffers.

use vstd::prelude::*;
use vstd::slice::{slice_subrange, slice_to_vec};

verus! {

/// What a fallible operation returned, compared with what it should return:
/// both succeed with the same contents, or both fail with the same error.
pub open spec fn same_outcome<T: View, E>(actual: Result<T, E>, expected: Result<T::V, E>) -> bool {
    match (actual, expected) {
        (Ok(value), Ok(model)) => value@ == model,
        (Err(error), Err(model)) => error == model,
        _ => false,
    }
}

/// The first element of a list, where there is one.
pub open spec fn first_of<T>(list: Seq<T>) -> Option<T> {
    if list.len() == 0 {
        None
    } else {
        Some(list[0])
    }
}

/// A list without its first element.
pub open spec fn rest_of<T>(list: Seq<T>) -> Seq<T> {
    if list.len() == 0 {
        list
    } else {
        list.skip(1)
    }
}

/// What an optional byte buffer holds.
pub open spec fn optional_bytes(value: Option<Vec<u8>>) -> Option<Seq<u8>> {
    match value {
        Some(bytes) => Some(bytes@),
        None => None,
    }
}

/// Whether a fallible result with an optional byte buffer is the expected one.
pub open spec fn same_optional_bytes<E>(
    actual: Result<Option<Vec<u8>>, E>,
    expected: Result<Option<Seq<u8>>, E>,
) -> bool {
    match (actual, expected) {
        (Ok(value), Ok(model)) => optional_bytes(value) == model,
        (Err(error), Err(model)) => error == model,
        _ => false,
    }
}

/// The two bytes of `value`, least significant first.
pub open spec fn le16(value: u16) -> Seq<u8> {
    seq![(value % 256) as u8, (value / 256) as u8]
}

/// The little-endian integer in the two bytes of `data` from `at` on.
pub open spec fn le16_at(data: Seq<u8>, at: int) -> u16 {
    (data[at] + 256 * data[at + 1]) as u16
}

/// The two bytes of `value`, most significant first.
pub open spec fn be16(value: u16) -> Seq<u8> {
    seq![(value / 256) as u8, (value % 256) as u8]
}

/// The big-endian integer in the two bytes of `data` from `at` on.
pub open spec fn be16_at(data: Seq<u8>, at: int) -> u16 {
    (256 * data[at] + data[at + 1]) as u16
}

/// The four bytes of `value`, least significant first.
pub open spec fn le32(value: u32) -> Seq<u8> {
    seq![
        (value % 256) as u8,
        (value / 256 % 256) as u8,
        (value / 65536 % 256) as u8,
        (value / 16777216) as u8,
    ]
}

/// The four bytes of `value`, most significant first.
pub open spec fn be32(value: u32) -> Seq<u8> {
    seq![
        (value / 16777216) as u8,
        (value / 65536 % 256) as u8,
        (value / 256 % 256) as u8,
        (value % 256) as u8,
    ]
}

/// The big-endian integer in the four bytes of `data` from `at` on.
pub open spec fn be32_at(data: Seq<u8>, at: int) -> u32 {
    (16777216 * data[at] + 65536 * data[at + 1] + 256 * data[at + 2] + data[at + 3]) as u32
}

/// Reading two little-endian bytes gives back the integer they were written from.
pub proof fn le16_reads_back(value: u16, data: Seq<u8>, at: int)
    requires
        0 <= at,
        at + 2 <= data.len(),
        data.subrange(at, at + 2) == le16(value),
    ensures
        le16_at(data, at) == value,
{
    assert(data[at] == data.subrange(at, at + 2)[0]);
    assert(data[at + 1] == data.subrange(at, at + 2)[1]);
}

/// Appends `tail` to `buffer`.
pub fn append_bytes(buffer: &mut Vec<u8>, tail: &[u8])
    ensures
        final(buffer)@ == old(buffer)@ + tail@,
{
    buffer.extend_from_slice(tail);
    assert(buffer@ =~= old(buffer)@ + tail@);
}

/// A copy of the bytes from `start` up to `end`.
pub fn copy_range(data: &[u8], start: usize, end: usize) -> (copy: Vec<u8>)
    requires
        start <= end <= data@.len(),
    ensures
        copy@ == data@.subrange(start as int, end as int),
{
    slice_to_vec(slice_subrange(data, start, end))
}

/// A copy of a byte buffer.
pub fn copy_bytes(data: &[u8]) -> (copy: Vec<u8>)
    ensures
        copy@ == data@,
{
    slice_to_vec(data)
}

/// Whether two byte sequences are equal.
pub fn equal_bytes(left: &[u8], right: &[u8]) -> (equal: bool)
    ensures
        equal == (left@ == right@),
{
    if left.len() != right.len() {
        return false;
    }
    let mut index: usize = 0;
    while index < left.len()
        invariant
            left@.len() == right@.len(),
            index <= left@.len(),
            forall|i: int| 0 <= i < index ==> left@[i] == right@[i],
        decreases left@.len() - index,
    {
        if left[index] != right[index] {
            return false;
        }
        index = index + 1;
    }
    assert(left@ =~= right@);
    true
}

pub fn push_le16(buffer: &mut Vec<u8>, value: u16)
    ensures
        final(buffer)@ == old(buffer)@ + le16(value),
{
    buffer.push((value % 256) as u8);
    buffer.push((value / 256) as u8);
    assert(buffer@ =~= old(buffer)@ + le16(value));
}

pub fn push_be16(buffer: &mut Vec<u8>, value: u16)
    ensures
        final(buffer)@ == old(buffer)@ + be16(value),
{
    buffer.push((value / 256) as u8);
    buffer.push((value % 256) as u8);
    assert(buffer@ =~= old(buffer)@ + be16(value));
}

pub fn push_le32(buffer: &mut Vec<u8>, value: u32)
    ensures
        final(buffer)@ == old(buffer)@ + le32(value),
{
    buffer.push((value % 256) as u8);
    buffer.push((value / 256 % 256) as u8);
    buffer.push((value / 65536 % 256) as u8);
    buffer.push((value / 16777216) as u8);
    assert(buffer@ =~= old(buffer)@ + le32(value));
}

pub fn push_be32(buffer: &mut Vec<u8>, value: u32)
    ensures
        final(buffer)@ == old(buffer)@ + be32(value),
{
    buffer.push((value / 16777216) as u8);
    buffer.push((value / 65536 % 256) as u8);
    buffer.push((value / 256 % 256) as u8);
    buffer.push((value % 256) as u8);
    assert(buffer@ =~= old(buffer)@ + be32(value));
}

pub fn read_le16(data: &[u8], at: usize) -> (value: u16)
    requires
        at + 2 <= data@.len(),
    ensures
        value == le16_at(data@, at as int),
{
    data[at] as u16 + 256 * data[at + 1] as u16
}

pub fn read_be16(data: &[u8], at: usize) -> (value: u16)
    requires
        at + 2 <= data@.len(),
    ensures
        value == be16_at(data@, at as int),
{
    256 * data[at] as u16 + data[at + 1] as u16
}

pub fn read_be32(data: &[u8], at: usize) -> (value: u32)
    requires
        at + 4 <= data@.len(),
    ensures
        value == be32_at(data@, at as int),
{
    16777216 * data[at] as u32 + 65536 * data[at + 1] as u32 + 256 * data[at + 2] as u32 + data[at
        + 3] as u32
}

/// The eight bytes of `value`, least significant first.
pub open spec fn le64(value: u64) -> Seq<u8> {
    le32((value % 4294967296) as u32) + le32((value / 4294967296) as u32)
}

pub fn push_le64(buffer: &mut Vec<u8>, value: u64)
    ensures
        final(buffer)@ == old(buffer)@ + le64(value),
{
    push_le32(buffer, (value % 4294967296) as u32);
    push_le32(buffer, (value / 4294967296) as u32);
    assert(buffer@ =~= old(buffer)@ + le64(value));
}

} // verus!
