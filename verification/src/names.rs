//! Names: zero-terminated byte strings in the string table, and the
//! four-byte tags of folders.

use vstd::prelude::*;
use vstd::utf8::encode_utf8;

verus! {

/// The text that `String::from_utf8_lossy` makes of the given bytes.
pub uninterp spec fn utf8_lossy(bytes: Seq<u8>) -> Seq<char>;

/// Turns bytes into text with `String::from_utf8_lossy`, which replaces
/// what is not UTF-8 and depends on the bytes alone.
#[verifier::external_body]
pub(crate) fn string_from_bytes(bytes: &[u8]) -> (r: String)
    ensures
        r@ == utf8_lossy(bytes@),
{
    String::from_utf8_lossy(bytes).into_owned()
}

/// How many bytes from `pos` on come before the first zero byte or the end
/// of `data`.
pub open spec fn cstring_len(data: Seq<u8>, pos: int) -> nat
    decreases data.len() - pos,
{
    if pos < 0 || pos >= data.len() || data[pos] == 0 {
        0
    } else {
        1 + cstring_len(data, pos + 1)
    }
}

/// The bytes from `pos` up to the first zero byte or the end of `data`.
/// Empty where `pos` lies outside `data`.
pub open spec fn cstring_at(data: Seq<u8>, pos: int) -> Seq<u8> {
    if 0 <= pos < data.len() {
        data.subrange(pos, pos + cstring_len(data, pos))
    } else {
        Seq::empty()
    }
}

/// The name stored at `pos`: the zero-terminated bytes there, as text.
pub open spec fn name_at(data: Seq<u8>, pos: int) -> Seq<char> {
    utf8_lossy(cstring_at(data, pos))
}

/// The run that `cstring_len` measures holds no zero byte and ends at a
/// zero byte or at the end of the data.
pub proof fn lemma_cstring_len(data: Seq<u8>, pos: int)
    requires
        0 <= pos <= data.len(),
    ensures
        pos + cstring_len(data, pos) <= data.len(),
        forall|i: int| pos <= i < pos + cstring_len(data, pos) ==> data[i] != 0,
        pos + cstring_len(data, pos) == data.len() || data[pos + cstring_len(data, pos)] == 0,
    decreases data.len() - pos,
{
    if pos < data.len() && data[pos] != 0 {
        lemma_cstring_len(data, pos + 1);
    }
}

/// Reads the zero-terminated bytes at `pos`.
pub fn read_cstring(data: &[u8], pos: u64) -> (r: Vec<u8>)
    ensures
        r@ == cstring_at(data@, pos as int),
{
    let mut out: Vec<u8> = Vec::new();
    if pos >= data.len() as u64 {
        return out;
    }
    let start: usize = pos as usize;
    let mut i: usize = start;
    while i < data.len() && data[i] != 0
        invariant
            start <= i <= data.len(),
            out@ == data@.subrange(start as int, i as int),
            cstring_len(data@, start as int) == (i - start) + cstring_len(data@, i as int),
        decreases data.len() - i,
    {
        out.push(data[i]);
        i = i + 1;
    }
    out
}

/// Reads the name at `pos`.
pub fn read_name(data: &[u8], pos: u64) -> (r: String)
    ensures
        r@ == name_at(data@, pos as int),
{
    let bytes: Vec<u8> = read_cstring(data, pos);
    string_from_bytes(bytes.as_slice())
}

/// The upper-case form of an ASCII letter; any other byte as it is.
pub open spec fn upper(b: u8) -> u8 {
    if 0x61 <= b <= 0x7a {
        (b - 0x20) as u8
    } else {
        b
    }
}

/// The byte at `i` of a name that is padded with spaces.
pub open spec fn padded(bytes: Seq<u8>, i: int) -> u8 {
    if 0 <= i < bytes.len() {
        bytes[i]
    } else {
        0x20
    }
}

/// The tag of a folder: the first four bytes of its name in upper case, with
/// spaces where the name is shorter.
pub open spec fn short_name(bytes: Seq<u8>) -> [u8; 4] {
    [
        upper(padded(bytes, 0)),
        upper(padded(bytes, 1)),
        upper(padded(bytes, 2)),
        upper(padded(bytes, 3)),
    ]
}

/// The tag of the root folder, `ROOT`.
pub open spec fn root_tag() -> [u8; 4] {
    [0x52u8, 0x4fu8, 0x4fu8, 0x54u8]
}

/// Whether the name is `.` or `..`, which a directory listing may hold and
/// which stand for no child.
pub open spec fn is_dot_name(name: Seq<char>) -> bool {
    encode_utf8(name) =~= seq![0x2eu8] || encode_utf8(name) =~= seq![0x2eu8, 0x2eu8]
}

fn upper_byte(b: u8) -> (r: u8)
    ensures
        r == upper(b),
{
    if 0x61 <= b && b <= 0x7a {
        b - 0x20
    } else {
        b
    }
}

fn padded_byte(bytes: &[u8], i: usize) -> (r: u8)
    ensures
        r == padded(bytes@, i as int),
{
    if i < bytes.len() {
        bytes[i]
    } else {
        0x20
    }
}

/// Computes the tag of a folder with the given name.
pub fn make_short_name(name: &str) -> (r: [u8; 4])
    ensures
        r == short_name(encode_utf8(name@)),
{
    let bytes: &[u8] = name.as_bytes();
    [
        upper_byte(padded_byte(bytes, 0)),
        upper_byte(padded_byte(bytes, 1)),
        upper_byte(padded_byte(bytes, 2)),
        upper_byte(padded_byte(bytes, 3)),
    ]
}

/// Tells whether the name is `.` or `..`.
pub fn check_dot_name(name: &str) -> (r: bool)
    ensures
        r == is_dot_name(name@),
{
    let bytes: &[u8] = name.as_bytes();
    if bytes.len() == 1 {
        let r: bool = bytes[0] == 0x2e;
        assert(r ==> bytes@ =~= seq![0x2eu8]);
        r
    } else if bytes.len() == 2 {
        let r: bool = bytes[0] == 0x2e && bytes[1] == 0x2e;
        assert(r ==> bytes@ =~= seq![0x2eu8, 0x2eu8]);
        r
    } else {
        false
    }
}

} // verus!
