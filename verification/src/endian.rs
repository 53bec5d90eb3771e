//! Byte order and the fixed-width integers of an archive.

use vstd::prelude::*;

verus! {

/// The order of the bytes of a multi-byte integer.
#[derive(Clone, Copy, Debug, PartialEq, Eq, Structural)]
pub enum Endian {
    /// Most significant byte first.
    Big,
    /// Least significant byte first.
    Little,
}

/// Whether `n` bytes lie in `data` from `pos` on.
pub open spec fn fits(data: Seq<u8>, pos: int, n: int) -> bool {
    0 <= pos && pos + n <= data.len()
}

/// The 16-bit integer that the two bytes at `pos` spell in the given order.
pub open spec fn u16_at(data: Seq<u8>, pos: int, endian: Endian) -> u16 {
    match endian {
        Endian::Big => (data[pos] as int * 0x100 + data[pos + 1] as int) as u16,
        Endian::Little => (data[pos + 1] as int * 0x100 + data[pos] as int) as u16,
    }
}

/// The 32-bit integer that the four bytes at `pos` spell in the given order.
pub open spec fn u32_at(data: Seq<u8>, pos: int, endian: Endian) -> u32 {
    match endian {
        Endian::Big => (data[pos] as int * 0x100_0000 + data[pos + 1] as int * 0x1_0000 + data[pos
            + 2] as int * 0x100 + data[pos + 3] as int) as u32,
        Endian::Little => (data[pos + 3] as int * 0x100_0000 + data[pos + 2] as int * 0x1_0000
            + data[pos + 1] as int * 0x100 + data[pos] as int) as u32,
    }
}

/// The error of `binrw`, which the readers below hand on unread.
#[verifier::external_type_specification]
#[verifier::external_body]
pub struct ExReadError(binrw::Error);

/// The byte order of the machine, as `binrw::Endian::NATIVE` gives it.
/// Nothing is claimed of which of the two it is.
#[verifier::external_body]
pub(crate) fn native_endian() -> Endian {
    match binrw::Endian::NATIVE {
        binrw::Endian::Big => Endian::Big,
        binrw::Endian::Little => Endian::Little,
    }
}

/// One byte read with `binrw::BinRead::read` from a cursor over `data` that
/// stands at `pos`: the byte there, or an error where `data` has ended.
#[verifier::external_body]
pub(crate) fn read_u8(data: &[u8], pos: u64) -> (r: Result<u8, binrw::Error>)
    ensures
        r is Ok <==> fits(data@, pos as int, 1),
        r matches Ok(v) ==> v == data@[pos as int],
{
    let mut cursor = std::io::Cursor::new(data);
    cursor.set_position(pos);
    binrw::BinRead::read(&mut cursor)
}

/// A 16-bit integer read with `binrw::BinReaderExt::read_type` from a cursor
/// over `data` that stands at `pos`: the two bytes there taken in the given
/// order, or an error where fewer than two bytes are left.
#[verifier::external_body]
pub(crate) fn read_u16(data: &[u8], pos: u64, endian: Endian) -> (r: Result<u16, binrw::Error>)
    ensures
        r is Ok <==> fits(data@, pos as int, 2),
        r matches Ok(v) ==> v == u16_at(data@, pos as int, endian),
{
    let mut cursor = std::io::Cursor::new(data);
    cursor.set_position(pos);
    let order = match endian {
        Endian::Big => binrw::Endian::Big,
        Endian::Little => binrw::Endian::Little,
    };
    binrw::BinReaderExt::read_type::<u16>(&mut cursor, order)
}

/// A 32-bit integer read with `binrw::BinReaderExt::read_type` from a cursor
/// over `data` that stands at `pos`: the four bytes there taken in the given
/// order, or an error where fewer than four bytes are left.
#[verifier::external_body]
pub(crate) fn read_u32(data: &[u8], pos: u64, endian: Endian) -> (r: Result<u32, binrw::Error>)
    ensures
        r is Ok <==> fits(data@, pos as int, 4),
        r matches Ok(v) ==> v == u32_at(data@, pos as int, endian),
{
    let mut cursor = std::io::Cursor::new(data);
    cursor.set_position(pos);
    let order = match endian {
        Endian::Big => binrw::Endian::Big,
        Endian::Little => binrw::Endian::Little,
    };
    binrw::BinReaderExt::read_type::<u32>(&mut cursor, order)
}

} // verus!
