//! How results cross into the guest's memory: a result is a discriminant byte
//! followed by its payload, a handle is a 32-bit word, and an error is a
//! variant byte followed by the address and the length of its message.

use vstd::prelude::*;
use vstd::string::*;
use vstd::utf8::*;
use crate::error::{Error, Trap};
use crate::memory::{
    bits, fits, from_le_bytes, get_str, get_u32, le_bytes, put_bytes, put_u32, put_u8, to_bits,
    to_signed, write_at,
};

verus! {

/// One store into the guest's memory: these bytes, from this address on.
pub struct Write {
    pub addr: int,
    pub bytes: Seq<u8>,
}

/// The memory after the stores of `writes` were made in order, up to the
/// first that does not fit, and whether all of them fitted. A store that
/// does not fit changes nothing, and none is made after it.
pub open spec fn carry_out(mem: Seq<u8>, writes: Seq<Write>) -> (Seq<u8>, bool)
    decreases writes.len(),
{
    if writes.len() == 0 {
        (mem, true)
    } else if !fits(mem.len(), writes[0].addr, writes[0].bytes.len()) {
        (mem, false)
    } else {
        carry_out(write_at(mem, writes[0].addr, writes[0].bytes), writes.drop_first())
    }
}

/// A successful result that carries a handle, at the address `ret`:
/// discriminant 0, and the handle in the word four bytes further on.
pub open spec fn handle_layout(ret: i32, handle: u32) -> Seq<Write> {
    seq![
        Write { addr: bits(ret) as int, bytes: seq![0u8] },
        Write { addr: bits(ret) + 4, bytes: le_bytes(handle) },
    ]
}

/// A successful result without a payload, at the address `ret`:
/// discriminant 0.
pub open spec fn unit_layout(ret: i32) -> Seq<Write> {
    seq![Write { addr: bits(ret) as int, bytes: seq![0u8] }]
}

/// The start of a failed result at the address `ret`: discriminant 1, and
/// the error's variant, 0, four bytes further on.
pub open spec fn error_header_layout(ret: i32) -> Seq<Write> {
    seq![
        Write { addr: bits(ret) as int, bytes: seq![1u8] },
        Write { addr: bits(ret) + 4, bytes: seq![0u8] },
    ]
}

/// The rest of a failed result at the address `ret`, once the guest has
/// given a buffer at `ptr`: the message goes into the buffer, then its
/// length into the word at `ret + 12` and the buffer's address into the
/// word at `ret + 8`.
pub open spec fn error_message_layout(ret: i32, ptr: i32, message: Seq<u8>) -> Seq<Write> {
    seq![
        Write { addr: bits(ptr) as int, bytes: message },
        Write { addr: bits(ret) + 12, bytes: le_bytes(message.len() as u32) },
        Write { addr: bits(ret) + 8, bytes: le_bytes(bits(ptr)) },
    ]
}

/// The bytes of an error's message as they are handed to the guest.
pub open spec fn message_bytes(error: Error) -> Seq<u8> {
    encode_utf8(error@)
}

/// What lowering a handle-carrying result writes first.
pub open spec fn handle_result_layout(ret: i32, result: Result<u32, Error>) -> Seq<Write> {
    match result {
        Ok(handle) => handle_layout(ret, handle),
        Err(_) => error_header_layout(ret),
    }
}

/// What lowering a result without a payload writes first.
pub open spec fn unit_result_layout(ret: i32, result: Result<(), Error>) -> Seq<Write> {
    match result {
        Ok(_) => unit_layout(ret),
        Err(_) => error_header_layout(ret),
    }
}

/// How far the lowering of a result has come.
pub enum Lowered {
    /// All of the result is in the guest's memory.
    Complete,
    /// The result is an error and its header is written. The guest has to
    /// give a buffer of `size` bytes, aligned to one byte, for the message;
    /// `lower_error_message` then writes the rest.
    NeedsBuffer { error: Error, size: i32 },
}

/// Writes the header of a failed result and asks for the message's buffer.
fn lower_error_header(mem: &mut [u8], ret: i32, error: Error) -> (lowered: Result<Lowered, Trap>)
    ensures
        final(mem)@.len() == old(mem)@.len(),
        final(mem)@ == carry_out(old(mem)@, error_header_layout(ret)).0,
        match lowered {
            Ok(Lowered::NeedsBuffer { error: kept, size }) => {
                &&& carry_out(old(mem)@, error_header_layout(ret)).1
                &&& kept == error
                &&& bits(size) == message_bytes(error).len()
            },
            Ok(Lowered::Complete) => false,
            Err(trap) => {
                &&& trap == Trap::OutOfBounds
                &&& !carry_out(old(mem)@, error_header_layout(ret)).1 || message_bytes(
                    error,
                ).len() > u32::MAX
            },
        },
{
    let base = to_bits(ret) as u64;
    proof {
        reveal_with_fuel(carry_out, 3);
        assert(error_header_layout(ret).drop_first() =~= seq![
            Write { addr: bits(ret) + 4, bytes: seq![0u8] },
        ]);
        assert(error_header_layout(ret).drop_first().drop_first() =~= Seq::<Write>::empty());
    }
    match put_u8(mem, base, 1) {
        Err(trap) => {
            return Err(trap);
        },
        Ok(_) => {},
    }
    match put_u8(mem, base + 4, 0) {
        Err(trap) => {
            return Err(trap);
        },
        Ok(_) => {},
    }
    let count = error.description().as_bytes().len();
    if count as u64 > 0xffff_ffff {
        return Err(Trap::OutOfBounds);
    }
    let size = to_signed(count as u32);
    proof {
        crate::memory::lemma_bits_signed(0, count as u32);
    }
    Ok(Lowered::NeedsBuffer { error, size })
}

/// Writes the result of an operation that returns a handle at the address
/// `ret`, store by store in the order of `handle_result_layout`; the first
/// store that does not fit traps and ends the lowering.
///
/// A success is then complete. For an error the header is written and the
/// message is still owed: its size is returned, and the lowering traps if
/// the message is too long to have a 32-bit length.
pub fn lower_handle_result(mem: &mut [u8], ret: i32, result: Result<u32, Error>) -> (lowered:
    Result<Lowered, Trap>)
    ensures
        final(mem)@.len() == old(mem)@.len(),
        final(mem)@ == carry_out(old(mem)@, handle_result_layout(ret, result)).0,
        match lowered {
            Ok(Lowered::Complete) => {
                &&& result is Ok
                &&& carry_out(old(mem)@, handle_result_layout(ret, result)).1
            },
            Ok(Lowered::NeedsBuffer { error, size }) => {
                &&& result == Err::<u32, Error>(error)
                &&& carry_out(old(mem)@, handle_result_layout(ret, result)).1
                &&& bits(size) == message_bytes(error).len()
            },
            Err(trap) => {
                &&& trap == Trap::OutOfBounds
                &&& !carry_out(old(mem)@, handle_result_layout(ret, result)).1 || (result matches Err(
                    error,
                ) && message_bytes(error).len() > u32::MAX)
            },
        },
{
    match result {
        Ok(handle) => {
            let base = to_bits(ret) as u64;
            proof {
                reveal_with_fuel(carry_out, 3);
                assert(handle_layout(ret, handle).drop_first() =~= seq![
                    Write { addr: bits(ret) + 4, bytes: le_bytes(handle) },
                ]);
                assert(handle_layout(ret, handle).drop_first().drop_first() =~= Seq::<
                    Write,
                >::empty());
            }
            match put_u8(mem, base, 0) {
                Err(trap) => {
                    return Err(trap);
                },
                Ok(_) => {},
            }
            match put_u32(mem, base + 4, handle) {
                Err(trap) => {
                    return Err(trap);
                },
                Ok(_) => {},
            }
            Ok(Lowered::Complete)
        },
        Err(error) => lower_error_header(mem, ret, error),
    }
}

/// Writes the result of an operation that returns nothing at the address
/// `ret`, as `lower_handle_result` does for one that returns a handle.
pub fn lower_unit_result(mem: &mut [u8], ret: i32, result: Result<(), Error>) -> (lowered: Result<
    Lowered,
    Trap,
>)
    ensures
        final(mem)@.len() == old(mem)@.len(),
        final(mem)@ == carry_out(old(mem)@, unit_result_layout(ret, result)).0,
        match lowered {
            Ok(Lowered::Complete) => {
                &&& result is Ok
                &&& carry_out(old(mem)@, unit_result_layout(ret, result)).1
            },
            Ok(Lowered::NeedsBuffer { error, size }) => {
                &&& result == Err::<(), Error>(error)
                &&& carry_out(old(mem)@, unit_result_layout(ret, result)).1
                &&& bits(size) == message_bytes(error).len()
            },
            Err(trap) => {
                &&& trap == Trap::OutOfBounds
                &&& !carry_out(old(mem)@, unit_result_layout(ret, result)).1 || (result matches Err(
                    error,
                ) && message_bytes(error).len() > u32::MAX)
            },
        },
{
    match result {
        Ok(_) => {
            proof {
                reveal_with_fuel(carry_out, 2);
                assert(unit_layout(ret).drop_first() =~= Seq::<Write>::empty());
            }
            match put_u8(mem, to_bits(ret) as u64, 0) {
                Err(trap) => Err(trap),
                Ok(_) => Ok(Lowered::Complete),
            }
        },
        Err(error) => lower_error_header(mem, ret, error),
    }
}

/// Finishes a failed result at the address `ret` with the buffer that the
/// guest gave at `ptr`: writes the stores of `error_message_layout` in order,
/// and traps at the first that does not fit. A message too long to have a
/// 32-bit length traps before anything is written.
pub fn lower_error_message(mem: &mut [u8], ret: i32, ptr: i32, error: &Error) -> (done: Result<
    (),
    Trap,
>)
    ensures
        final(mem)@.len() == old(mem)@.len(),
        message_bytes(*error).len() <= u32::MAX ==> {
            &&& final(mem)@ == carry_out(
                old(mem)@,
                error_message_layout(ret, ptr, message_bytes(*error)),
            ).0
            &&& done is Ok <==> carry_out(
                old(mem)@,
                error_message_layout(ret, ptr, message_bytes(*error)),
            ).1
        },
        message_bytes(*error).len() > u32::MAX ==> done is Err && final(mem)@ == old(mem)@,
        done matches Err(trap) ==> trap == Trap::OutOfBounds,
{
    let message = error.description().as_bytes();
    let count = message.len();
    if count as u64 > 0xffff_ffff {
        return Err(Trap::OutOfBounds);
    }
    let base = to_bits(ret) as u64;
    let buffer = to_bits(ptr);
    proof {
        let layout = error_message_layout(ret, ptr, message@);
        reveal_with_fuel(carry_out, 4);
        assert(layout.drop_first() =~= seq![layout[1], layout[2]]);
        assert(layout.drop_first().drop_first() =~= seq![layout[2]]);
        assert(layout.drop_first().drop_first().drop_first() =~= Seq::<Write>::empty());
    }
    match put_bytes(mem, buffer as u64, message) {
        Err(trap) => {
            return Err(trap);
        },
        Ok(_) => {},
    }
    match put_u32(mem, base + 12, count as u32) {
        Err(trap) => {
            return Err(trap);
        },
        Ok(_) => {},
    }
    match put_u32(mem, base + 8, buffer) {
        Err(trap) => {
            return Err(trap);
        },
        Ok(_) => {},
    }
    Ok(())
}

/// The text that the guest's handler returned: at the address `ret` stand
/// the address of its bytes and, in the next word, their number.
///
/// Traps with `OutOfBounds` if the two words or the bytes do not lie inside
/// the memory, and with `InvalidUtf8` if the bytes are not UTF-8.
pub fn lift_handler_result(mem: &[u8], ret: i32) -> (text: Result<String, Trap>)
    ensures
        match text {
            Ok(s) => {
                &&& fits(mem@.len(), bits(ret) as int, 8)
                &&& fits(mem@.len(), text_addr(mem@, ret) as int, text_len(mem@, ret) as nat)
                &&& valid_utf8(text_bytes(mem@, ret))
                &&& s@ == decode_utf8(text_bytes(mem@, ret))
            },
            Err(Trap::OutOfBounds) => {
                ||| !fits(mem@.len(), bits(ret) as int, 8)
                ||| !fits(mem@.len(), text_addr(mem@, ret) as int, text_len(mem@, ret) as nat)
            },
            Err(Trap::InvalidUtf8) => {
                &&& fits(mem@.len(), bits(ret) as int, 8)
                &&& fits(mem@.len(), text_addr(mem@, ret) as int, text_len(mem@, ret) as nat)
                &&& !valid_utf8(text_bytes(mem@, ret))
            },
            Err(_) => false,
        },
{
    let base = to_bits(ret) as u64;
    let ptr = match get_u32(mem, base) {
        Ok(ptr) => ptr,
        Err(trap) => {
            return Err(trap);
        },
    };
    let len = match get_u32(mem, base + 4) {
        Ok(len) => len,
        Err(trap) => {
            return Err(trap);
        },
    };
    match get_str(mem, ptr as u64, len) {
        Ok(s) => Ok(s.to_owned()),
        Err(trap) => Err(trap),
    }
}

/// The address of the returned text: the word at `ret`.
pub open spec fn text_addr(mem: Seq<u8>, ret: i32) -> u32 {
    from_le_bytes(mem.subrange(bits(ret) as int, bits(ret) + 4))
}

/// The length of the returned text in bytes: the word at `ret + 4`.
pub open spec fn text_len(mem: Seq<u8>, ret: i32) -> u32 {
    from_le_bytes(mem.subrange(bits(ret) + 4, bits(ret) + 8))
}

/// The bytes of the returned text.
pub open spec fn text_bytes(mem: Seq<u8>, ret: i32) -> Seq<u8> {
    mem.subrange(text_addr(mem, ret) as int, text_addr(mem, ret) + text_len(mem, ret))
}

} // verus!
