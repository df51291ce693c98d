//! ELF64 header parsing: recognises a little-endian x86-64 executable and
//! reads its entry point and program-header table position.
use vstd::prelude::*;

verus! {

/// What the header of an ELF64 executable gives.
pub struct Elf64Info {
    pub entry_point: u64,
    pub phoff: u64,
    pub phnum: u16,
    pub is_valid: bool,
}

/// The little-endian 16-bit value at `b[i..i + 2]`.
pub open spec fn le16(b: Seq<u8>, i: int) -> int {
    b[i] + 256 * b[i + 1]
}

/// The little-endian 64-bit value at `b[i..i + 8]`.
pub open spec fn le64(b: Seq<u8>, i: int) -> int {
    b[i] + 256 * (b[i + 1] + 256 * (b[i + 2] + 256 * (b[i + 3] + 256 * (b[i + 4] + 256 * (b[i
        + 5] + 256 * (b[i + 6] + 256 * b[i + 7]))))))
}

/// `b` starts with the header of an ELF64, little-endian, current-version,
/// x86-64 executable: at least 64 bytes, the magic `0x7f 'E' 'L' 'F'`, class 2,
/// data 1, version 1, type 2 (executable) and machine 62 (x86-64).
pub open spec fn is_elf64_executable(b: Seq<u8>) -> bool {
    &&& b.len() >= 64
    &&& b[0] == 0x7f && b[1] == 0x45 && b[2] == 0x4c && b[3] == 0x46
    &&& b[4] == 2
    &&& b[5] == 1
    &&& b[6] == 1
    &&& le16(b, 16) == 2
    &&& le16(b, 18) == 62
}

fn read_le16(data: &[u8], i: usize) -> (r: u16)
    requires
        i + 2 <= data.len(),
    ensures
        r == le16(data@, i as int),
{
    data[i] as u16 + (data[i + 1] as u16) * 256
}

fn read_le64(data: &[u8], i: usize) -> (r: u64)
    requires
        i + 8 <= data.len(),
    ensures
        r == le64(data@, i as int),
{
    let v7 = data[i + 7] as u64;
    let v6 = data[i + 6] as u64 + 256 * v7;
    let v5 = data[i + 5] as u64 + 256 * v6;
    let v4 = data[i + 4] as u64 + 256 * v5;
    let v3 = data[i + 3] as u64 + 256 * v4;
    let v2 = data[i + 2] as u64 + 256 * v3;
    let v1 = data[i + 1] as u64 + 256 * v2;
    data[i] as u64 + 256 * v1
}

/// Parses an ELF64 header from raw bytes: `None` unless `data` starts with
/// the header of a little-endian x86-64 executable.
pub fn parse_elf64(data: &[u8]) -> (r: Option<Elf64Info>)
    ensures
        r is Some <==> is_elf64_executable(data@),
        r matches Some(info) ==> {
            &&& info.entry_point == le64(data@, 24)
            &&& info.phoff == le64(data@, 32)
            &&& info.phnum == le16(data@, 56)
            &&& info.is_valid
        },
{
    if data.len() < 64 {
        return None;
    }
    if data[0] != 0x7f || data[1] != 0x45 || data[2] != 0x4c || data[3] != 0x46 {
        return None;
    }
    if data[4] != 2 {
        return None;
    }
    if data[5] != 1 {
        return None;
    }
    if data[6] != 1 {
        return None;
    }
    let e_type = read_le16(data, 16);
    if e_type != 2 {
        return None;
    }
    let e_machine = read_le16(data, 18);
    if e_machine != 62 {
        return None;
    }
    let entry_point = read_le64(data, 24);
    let phoff = read_le64(data, 32);
    let phnum = read_le16(data, 56);
    Some(Elf64Info { entry_point, phoff, phnum, is_valid: true })
}

} // verus!
