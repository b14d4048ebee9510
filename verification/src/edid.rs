//! The identity of a display, taken from the identification block that it
//! reports over its connection.
//!
//! The block is conventionally 128 bytes long. Its first eight bytes are a
//! fixed header; the manufacturer code, the product code and the serial number
//! follow, each in little-endian byte order.

use vstd::prelude::*;
use vstd::slice::slice_subrange;

verus! {

/// The number of bytes of the block that the identity is read from.
pub const IDENTITY_BYTES: usize = 16;

/// The 16-bit number whose little-endian notation is `b0`, `b1`.
pub open spec fn le_u16(b0: u8, b1: u8) -> u16 {
    (b0 as u16) | ((b1 as u16) << 8)
}

/// The 32-bit number whose little-endian notation is `b0`, `b1`, `b2`, `b3`.
pub open spec fn le_u32(b0: u8, b1: u8, b2: u8, b3: u8) -> u32 {
    (b0 as u32) | ((b1 as u32) << 8) | ((b2 as u32) << 16) | ((b3 as u32) << 24)
}

/// The manufacturer code of a block of at least 16 bytes.
pub open spec fn manufacturer_code(block: Seq<u8>) -> u16 {
    le_u16(block[8], block[9])
}

/// The product code of a block of at least 16 bytes.
pub open spec fn product_code(block: Seq<u8>) -> u16 {
    le_u16(block[10], block[11])
}

/// The serial number of a block of at least 16 bytes.
pub open spec fn serial_number(block: Seq<u8>) -> u32 {
    le_u32(block[12], block[13], block[14], block[15])
}

/// The three numbers packed into one: the serial number in the upper half,
/// the product code above the manufacturer code in the lower half.
pub open spec fn pack(serial: u32, product: u16, manufacturer: u16) -> u64 {
    ((serial as u64) << 32) | ((product as u64) << 16) | (manufacturer as u64)
}

/// The identity code of a display that reports `block`: zero where the block
/// is too short to hold the three numbers.
pub open spec fn identity_code(block: Seq<u8>) -> u64 {
    if block.len() < IDENTITY_BYTES {
        0
    } else {
        pack(serial_number(block), product_code(block), manufacturer_code(block))
    }
}

/// The name of the property that holds the identification block.
pub open spec fn edid_property_name() -> Seq<u8> {
    seq![69u8, 68u8, 73u8, 68u8]
}

/// Calls `byteorder::LittleEndian::read_u16`, which reads the first two bytes
/// of `buf` as a number in little-endian order and panics on a shorter `buf`.
#[verifier::external_body]
fn read_u16_le(buf: &[u8]) -> (r: u16)
    requires
        buf@.len() >= 2,
    ensures
        r == le_u16(buf@[0], buf@[1]),
{
    <byteorder::LittleEndian as byteorder::ByteOrder>::read_u16(buf)
}

/// Calls `byteorder::LittleEndian::read_u32`, which reads the first four bytes
/// of `buf` as a number in little-endian order and panics on a shorter `buf`.
#[verifier::external_body]
fn read_u32_le(buf: &[u8]) -> (r: u32)
    requires
        buf@.len() >= 4,
    ensures
        r == le_u32(buf@[0], buf@[1], buf@[2], buf@[3]),
{
    <byteorder::LittleEndian as byteorder::ByteOrder>::read_u32(buf)
}

/// The identity code of the display that reports `block`.
///
/// A block that is too short to hold the three numbers counts as unreadable
/// and gives zero, which callers treat as "identity unknown".
pub fn display_code(block: &[u8]) -> (code: u64)
    ensures
        code == identity_code(block@),
{
    if block.len() < IDENTITY_BYTES {
        return 0;
    }
    let manufacturer = read_u16_le(slice_subrange(block, 8, 10));
    let product = read_u16_le(slice_subrange(block, 10, 12));
    let serial = read_u32_le(slice_subrange(block, 12, 16));
    ((serial as u64) << 32) | ((product as u64) << 16) | (manufacturer as u64)
}

/// The identity code of an output whose identification block is `block`, or
/// zero where the output reports none.
pub fn display_code_of(block: &Option<Vec<u8>>) -> (code: u64)
    ensures
        code == match *block {
            Some(bytes) => identity_code(bytes@),
            None => 0,
        },
{
    match block {
        Some(bytes) => display_code(bytes.as_slice()),
        None => 0,
    }
}

fn is_edid_name(name: &Vec<u8>) -> (r: bool)
    ensures
        r == (name@ == edid_property_name()),
{
    let r = name.len() == 4 && name[0] == 69 && name[1] == 68 && name[2] == 73 && name[3] == 68;
    assert(r == (name@ =~= edid_property_name()));
    r
}

/// The position of the first property named `EDID` among the property names
/// of an output, if there is one.
pub fn edid_property_index(names: &Vec<Vec<u8>>) -> (r: Option<usize>)
    ensures
        match r {
            Some(i) => i < names.len() && names[i as int]@ == edid_property_name()
                && forall|j: int| 0 <= j < i ==> names[j]@ != edid_property_name(),
            None => forall|j: int| 0 <= j < names.len() ==> names[j]@ != edid_property_name(),
        },
{
    let mut i: usize = 0;
    while i < names.len()
        invariant
            i <= names.len(),
            forall|j: int| 0 <= j < i ==> names[j]@ != edid_property_name(),
        decreases names.len() - i,
    {
        if is_edid_name(&names[i]) {
            return Some(i);
        }
        i = i + 1;
    }
    None
}

} // verus!
