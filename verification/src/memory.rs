//! The guest's linear memory as the host sees it: a slice of bytes that is
//! read and written at 32-bit addresses, every access checked against the
//! slice's length, integers in little-endian order.

use vstd::prelude::*;
use vstd::slice::*;
use vstd::string::*;
use vstd::utf8::*;
use crate::error::Trap;

verus! {

/// The unsigned number with the same 32 bits as `value`. Pointers, lengths
/// and handles cross the boundary as `i32` and mean this number.
pub open spec fn bits(value: i32) -> u32 {
    if value >= 0 {
        value as u32
    } else {
        (value + 0x1_0000_0000) as u32
    }
}

/// The signed number with the same 32 bits as `value`.
pub open spec fn signed(value: u32) -> i32 {
    if value < 0x8000_0000 {
        value as i32
    } else {
        (value - 0x1_0000_0000) as i32
    }
}

/// The unsigned number with the same 64 bits as `value`.
pub open spec fn bits64(value: i64) -> u64 {
    if value >= 0 {
        value as u64
    } else {
        (value + 0x1_0000_0000_0000_0000) as u64
    }
}

/// Whether `size` bytes starting at `addr` lie inside a memory of `len` bytes.
pub open spec fn fits(len: nat, addr: int, size: nat) -> bool {
    0 <= addr && addr + size <= len
}

/// `mem` with `bytes` written over it from `addr` on.
pub open spec fn write_at(mem: Seq<u8>, addr: int, bytes: Seq<u8>) -> Seq<u8> {
    Seq::new(
        mem.len(),
        |i: int|
            if addr <= i < addr + bytes.len() {
                bytes[i - addr]
            } else {
                mem[i]
            },
    )
}

/// The four bytes of `value`, least significant first.
pub open spec fn le_bytes(value: u32) -> Seq<u8> {
    seq![
        (value % 256) as u8,
        ((value / 256) % 256) as u8,
        ((value / 65536) % 256) as u8,
        (value / 16777216) as u8,
    ]
}

/// The number whose four bytes, least significant first, are `bytes`.
pub open spec fn from_le_bytes(bytes: Seq<u8>) -> u32 {
    (bytes[0] + 256 * bytes[1] + 65536 * bytes[2] + 16777216 * bytes[3]) as u32
}

/// Reading back what was written gives the number that was written.
pub proof fn lemma_le_bytes_round_trip(value: u32)
    ensures
        le_bytes(value).len() == 4,
        from_le_bytes(le_bytes(value)) == value,
{
}

/// `bits` and `signed` undo each other.
pub proof fn lemma_bits_signed(value: i32, word: u32)
    ensures
        signed(bits(value)) == value,
        bits(signed(word)) == word,
{
}

/// The unsigned reading of a 32-bit wire value.
pub fn to_bits(value: i32) -> (word: u32)
    ensures
        word == bits(value),
{
    if value >= 0 {
        value as u32
    } else {
        (value as i64 + 0x1_0000_0000) as u32
    }
}

/// The 32-bit wire value for an unsigned number.
pub fn to_signed(word: u32) -> (value: i32)
    ensures
        value == signed(word),
{
    if word < 0x8000_0000 {
        word as i32
    } else {
        (word as i64 - 0x1_0000_0000) as i32
    }
}

/// The unsigned reading of a 64-bit wire value.
pub fn to_bits64(value: i64) -> (word: u64)
    ensures
        word == bits64(value),
{
    if value >= 0 {
        value as u64
    } else {
        (value as i128 + 0x1_0000_0000_0000_0000) as u64
    }
}

/// Whether `size` bytes at `addr` lie inside `mem`.
fn check(mem: &[u8], addr: u64, size: usize) -> (inside: bool)
    ensures
        inside == fits(mem@.len(), addr as int, size as nat),
        mem@.len() <= usize::MAX,
{
    let len = mem.len();
    size <= len && addr <= (len - size) as u64
}

/// Writes one byte at `addr`, or traps and writes nothing.
pub(crate) fn put_u8(mem: &mut [u8], addr: u64, value: u8) -> (done: Result<(), Trap>)
    ensures
        final(mem)@.len() == old(mem)@.len(),
        match done {
            Ok(_) => fits(old(mem)@.len(), addr as int, 1) && final(mem)@ == write_at(
                old(mem)@,
                addr as int,
                seq![value],
            ),
            Err(trap) => trap == Trap::OutOfBounds && !fits(old(mem)@.len(), addr as int, 1)
                && final(mem)@ == old(mem)@,
        },
{
    if !check(mem, addr, 1) {
        return Err(Trap::OutOfBounds);
    }
    mem[addr as usize] = value;
    assert(mem@ =~= write_at(old(mem)@, addr as int, seq![value]));
    Ok(())
}

/// Writes the four bytes of `value` at `addr`, least significant first, or
/// traps and writes nothing.
pub(crate) fn put_u32(mem: &mut [u8], addr: u64, value: u32) -> (done: Result<(), Trap>)
    ensures
        final(mem)@.len() == old(mem)@.len(),
        match done {
            Ok(_) => fits(old(mem)@.len(), addr as int, 4) && final(mem)@ == write_at(
                old(mem)@,
                addr as int,
                le_bytes(value),
            ),
            Err(trap) => trap == Trap::OutOfBounds && !fits(old(mem)@.len(), addr as int, 4)
                && final(mem)@ == old(mem)@,
        },
{
    if !check(mem, addr, 4) {
        return Err(Trap::OutOfBounds);
    }
    let at = addr as usize;
    assert(value & 0xff == value % 256) by (bit_vector);
    assert((value >> 8) & 0xff == (value / 256) % 256) by (bit_vector);
    assert((value >> 16) & 0xff == (value / 65536) % 256) by (bit_vector);
    assert((value >> 24) & 0xff == value / 16777216) by (bit_vector);
    mem[at] = (value & 0xff) as u8;
    mem[at + 1] = ((value >> 8) & 0xff) as u8;
    mem[at + 2] = ((value >> 16) & 0xff) as u8;
    mem[at + 3] = ((value >> 24) & 0xff) as u8;
    assert(mem@ =~= write_at(old(mem)@, addr as int, le_bytes(value)));
    Ok(())
}

/// Copies `bytes` into the memory from `addr` on, or traps and writes
/// nothing.
pub(crate) fn put_bytes(mem: &mut [u8], addr: u64, bytes: &[u8]) -> (done: Result<(), Trap>)
    ensures
        final(mem)@.len() == old(mem)@.len(),
        match done {
            Ok(_) => fits(old(mem)@.len(), addr as int, bytes@.len()) && final(mem)@ == write_at(
                old(mem)@,
                addr as int,
                bytes@,
            ),
            Err(trap) => trap == Trap::OutOfBounds && !fits(
                old(mem)@.len(),
                addr as int,
                bytes@.len(),
            ) && final(mem)@ == old(mem)@,
        },
{
    let count = bytes.len();
    if !check(mem, addr, count) {
        return Err(Trap::OutOfBounds);
    }
    let at = addr as usize;
    let mut i: usize = 0;
    while i < count
        invariant
            i <= count,
            count == bytes@.len(),
            at == addr,
            at + count <= mem@.len() <= usize::MAX,
            mem@.len() == old(mem)@.len(),
            mem@ == write_at(old(mem)@, addr as int, bytes@.subrange(0, i as int)),
        decreases count - i,
    {
        mem[at + i] = bytes[i];
        i = i + 1;
        assert(mem@ =~= write_at(old(mem)@, addr as int, bytes@.subrange(0, i as int)));
    }
    assert(bytes@.subrange(0, count as int) =~= bytes@);
    Ok(())
}

/// Writes one byte at the address `offset`. The write traps, and changes
/// nothing, unless the byte lies inside the memory.
pub fn store_u8(mem: &mut [u8], offset: i32, value: u8) -> (done: Result<(), Trap>)
    ensures
        final(mem)@.len() == old(mem)@.len(),
        match done {
            Ok(_) => fits(old(mem)@.len(), bits(offset) as int, 1) && final(mem)@ == write_at(
                old(mem)@,
                bits(offset) as int,
                seq![value],
            ),
            Err(trap) => trap == Trap::OutOfBounds && !fits(
                old(mem)@.len(),
                bits(offset) as int,
                1,
            ) && final(mem)@ == old(mem)@,
        },
{
    put_u8(mem, to_bits(offset) as u64, value)
}

/// Writes the 32 bits of `value` at the address `offset`, least significant
/// byte first. The write traps, and changes nothing, unless all four bytes
/// lie inside the memory.
pub fn store_i32(mem: &mut [u8], offset: i32, value: i32) -> (done: Result<(), Trap>)
    ensures
        final(mem)@.len() == old(mem)@.len(),
        match done {
            Ok(_) => fits(old(mem)@.len(), bits(offset) as int, 4) && final(mem)@ == write_at(
                old(mem)@,
                bits(offset) as int,
                le_bytes(bits(value)),
            ),
            Err(trap) => trap == Trap::OutOfBounds && !fits(
                old(mem)@.len(),
                bits(offset) as int,
                4,
            ) && final(mem)@ == old(mem)@,
        },
{
    put_u32(mem, to_bits(offset) as u64, to_bits(value))
}

/// Copies `bytes` into the memory from the address `offset` on. The write
/// traps, and changes nothing, unless all of them lie inside the memory.
pub fn store_many(mem: &mut [u8], offset: i32, bytes: &[u8]) -> (done: Result<(), Trap>)
    ensures
        final(mem)@.len() == old(mem)@.len(),
        match done {
            Ok(_) => fits(old(mem)@.len(), bits(offset) as int, bytes@.len()) && final(mem)@
                == write_at(old(mem)@, bits(offset) as int, bytes@),
            Err(trap) => trap == Trap::OutOfBounds && !fits(
                old(mem)@.len(),
                bits(offset) as int,
                bytes@.len(),
            ) && final(mem)@ == old(mem)@,
        },
{
    put_bytes(mem, to_bits(offset) as u64, bytes)
}

/// Reads the four bytes at `addr` as a number, least significant byte first,
/// or traps.
pub(crate) fn get_u32(mem: &[u8], addr: u64) -> (loaded: Result<u32, Trap>)
    ensures
        match loaded {
            Ok(word) => fits(mem@.len(), addr as int, 4) && word == from_le_bytes(
                mem@.subrange(addr as int, addr + 4),
            ),
            Err(trap) => trap == Trap::OutOfBounds && !fits(mem@.len(), addr as int, 4),
        },
{
    if !check(mem, addr, 4) {
        return Err(Trap::OutOfBounds);
    }
    let at = addr as usize;
    let b0 = mem[at] as u32;
    let b1 = mem[at + 1] as u32;
    let b2 = mem[at + 2] as u32;
    let b3 = mem[at + 3] as u32;
    Ok(b0 + 256 * b1 + 65536 * b2 + 16777216 * b3)
}

/// Reads the 32-bit value at the address `offset`, least significant byte
/// first. The read traps unless all four bytes lie inside the memory.
pub fn load_i32(mem: &[u8], offset: i32) -> (loaded: Result<i32, Trap>)
    ensures
        match loaded {
            Ok(value) => fits(mem@.len(), bits(offset) as int, 4) && bits(value) == from_le_bytes(
                mem@.subrange(bits(offset) as int, bits(offset) + 4),
            ),
            Err(trap) => trap == Trap::OutOfBounds && !fits(mem@.len(), bits(offset) as int, 4),
        },
{
    match get_u32(mem, to_bits(offset) as u64) {
        Ok(word) => {
            proof {
                lemma_bits_signed(0, word);
            }
            Ok(to_signed(word))
        },
        Err(trap) => Err(trap),
    }
}

/// The text that `count` bytes at `addr` encode, or a trap.
pub(crate) fn get_str(mem: &[u8], addr: u64, count: u32) -> (text: Result<&str, Trap>)
    ensures
        match text {
            Ok(s) => {
                &&& fits(mem@.len(), addr as int, count as nat)
                &&& valid_utf8(mem@.subrange(addr as int, addr + count))
                &&& s@ == decode_utf8(mem@.subrange(addr as int, addr + count))
            },
            Err(Trap::OutOfBounds) => !fits(mem@.len(), addr as int, count as nat),
            Err(Trap::InvalidUtf8) => {
                &&& fits(mem@.len(), addr as int, count as nat)
                &&& !valid_utf8(mem@.subrange(addr as int, addr + count))
            },
            Err(_) => false,
        },
{
    if !check(mem, addr, count as usize) {
        return Err(Trap::OutOfBounds);
    }
    let start = addr as usize;
    let region = slice_subrange(mem, start, start + count as usize);
    match utf8_text(region) {
        Some(s) => {
            proof {
                encode_utf8_decode_utf8(s@);
            }
            Ok(s)
        },
        None => Err(Trap::InvalidUtf8),
    }
}

/// Whether `bytes` are the UTF-8 encoding of some text, by
/// `core::str::from_utf8`, and if so that text. The contract says what std
/// documents: the call succeeds exactly on well-formed UTF-8, and the string
/// it returns has the given bytes.
#[verifier::external_body]
fn utf8_text(bytes: &[u8]) -> (text: Option<&str>)
    ensures
        text is Some <==> valid_utf8(bytes@),
        text matches Some(s) ==> s.spec_bytes() == bytes@,
{
    core::str::from_utf8(bytes).ok()
}

/// The text that `len` bytes at the address `ptr` encode.
///
/// Traps with `OutOfBounds` unless the bytes lie inside the memory, and with
/// `InvalidUtf8` if they do but are not well-formed UTF-8.
pub fn slice_str(mem: &[u8], ptr: i32, len: i32) -> (text: Result<&str, Trap>)
    ensures
        match text {
            Ok(s) => {
                &&& fits(mem@.len(), bits(ptr) as int, bits(len) as nat)
                &&& valid_utf8(mem@.subrange(bits(ptr) as int, bits(ptr) + bits(len)))
                &&& s@ == decode_utf8(mem@.subrange(bits(ptr) as int, bits(ptr) + bits(len)))
            },
            Err(Trap::OutOfBounds) => !fits(mem@.len(), bits(ptr) as int, bits(len) as nat),
            Err(Trap::InvalidUtf8) => {
                &&& fits(mem@.len(), bits(ptr) as int, bits(len) as nat)
                &&& !valid_utf8(mem@.subrange(bits(ptr) as int, bits(ptr) + bits(len)))
            },
            Err(_) => false,
        },
{
    get_str(mem, to_bits(ptr) as u64, to_bits(len))
}

} // verus!
