//! The two mutations of a byte buffer: overwrite in place, and insert.
//!
//! Both are checked against the length that the buffer has when they run,
//! and leave the buffer untouched when they fail.

use crate::event::PatchError;
use crate::hex::{hex_bytes, parse_hex_bytes};
use vstd::prelude::*;

verus! {

/// `data` with `bytes` written over the bytes from `offset` on.
pub open spec fn replaced(data: Seq<u8>, offset: int, bytes: Seq<u8>) -> Seq<u8>
    recommends
        0 <= offset,
        offset + bytes.len() <= data.len(),
{
    data.take(offset) + bytes + data.skip(offset + bytes.len())
}

/// `data` with `bytes` put in before index `offset`.
pub open spec fn inserted(data: Seq<u8>, offset: int, bytes: Seq<u8>) -> Seq<u8>
    recommends
        0 <= offset <= data.len(),
{
    data.take(offset) + bytes + data.skip(offset)
}

/// What overwriting with `bytes` at `offset` gives: the new buffer, or the
/// error when the bytes would not fit.
pub open spec fn replace_bytes(data: Seq<u8>, offset: usize, bytes: Seq<u8>) -> Result<
    Seq<u8>,
    PatchError,
> {
    if offset + bytes.len() <= data.len() {
        Ok(replaced(data, offset as int, bytes))
    } else {
        Err(PatchError::ReplaceOutOfRange { offset })
    }
}

/// What inserting `bytes` at `offset` gives: the new buffer, or the error
/// when `offset` lies past the end.
pub open spec fn insert_bytes(data: Seq<u8>, offset: usize, bytes: Seq<u8>) -> Result<
    Seq<u8>,
    PatchError,
> {
    if offset <= data.len() {
        Ok(inserted(data, offset as int, bytes))
    } else {
        Err(PatchError::InsertOutOfRange { offset })
    }
}

/// What overwriting with the hex byte string `text` at `offset` gives.
pub open spec fn replace_hex(data: Seq<u8>, offset: usize, text: Seq<char>) -> Result<
    Seq<u8>,
    PatchError,
> {
    match hex_bytes(text) {
        Some(bytes) => replace_bytes(data, offset, bytes),
        None => Err(PatchError::HexSyntax),
    }
}

/// What inserting the hex byte string `text` at `offset` gives.
pub open spec fn insert_hex(data: Seq<u8>, offset: usize, text: Seq<char>) -> Result<
    Seq<u8>,
    PatchError,
> {
    match hex_bytes(text) {
        Some(bytes) => insert_bytes(data, offset, bytes),
        None => Err(PatchError::HexSyntax),
    }
}

/// Overwrites `data[offset..offset + bytes.len()]` with `bytes`.
pub fn replace_at(data: &mut [u8], offset: usize, bytes: &[u8]) -> (r: Result<(), PatchError>)
    ensures
        match replace_bytes(old(data)@, offset, bytes@) {
            Ok(after) => r is Ok && final(data)@ == after,
            Err(e) => r == Err::<(), PatchError>(e) && final(data)@ == old(data)@,
        },
{
    if bytes.len() > data.len() || offset > data.len() - bytes.len() {
        return Err(PatchError::ReplaceOutOfRange { offset });
    }
    let mut k: usize = 0;
    while k < bytes.len()
        invariant
            k <= bytes.len(),
            offset + bytes.len() <= data@.len() <= usize::MAX,
            data@.len() == old(data)@.len(),
            forall|i: int| 0 <= i < data@.len() ==> data@[i] == if offset <= i < offset + k {
                bytes@[i - offset]
            } else {
                old(data)@[i]
            },
        decreases bytes.len() - k,
    {
        data[offset + k] = bytes[k];
        k += 1;
    }
    proof {
        assert(data@ =~= replaced(old(data)@, offset as int, bytes@));
    }
    Ok(())
}

/// Puts `bytes` into `data` before index `offset`; what stood at `offset`
/// and after moves up by `bytes.len()`.
pub fn insert_at(data: &mut Vec<u8>, offset: usize, bytes: &[u8]) -> (r: Result<(), PatchError>)
    ensures
        match insert_bytes(old(data)@, offset, bytes@) {
            Ok(after) => r is Ok && final(data)@ == after,
            Err(e) => r == Err::<(), PatchError>(e) && final(data)@ == old(data)@,
        },
{
    if offset > data.len() {
        return Err(PatchError::InsertOutOfRange { offset });
    }
    let mut tail = data.split_off(offset);
    data.extend_from_slice(bytes);
    data.append(&mut tail);
    proof {
        assert(data@ =~= inserted(old(data)@, offset as int, bytes@));
    }
    Ok(())
}

/// Overwrites the bytes at `offset` with those that the hex byte string
/// `repl` spells. The length of `data` never changes.
pub fn replace_hex_at_offset(data: &mut [u8], offset: usize, repl: &str) -> (r: Result<
    (),
    PatchError,
>)
    ensures
        match replace_hex(old(data)@, offset, repl@) {
            Ok(after) => r is Ok && final(data)@ == after,
            Err(e) => r == Err::<(), PatchError>(e) && final(data)@ == old(data)@,
        },
{
    match parse_hex_bytes(repl) {
        Some(bytes) => replace_at(data, offset, bytes.as_slice()),
        None => Err(PatchError::HexSyntax),
    }
}

/// Inserts at `offset` the bytes that the hex byte string `repl` spells.
pub fn insert_hex_at_offset(data: &mut Vec<u8>, offset: usize, repl: &str) -> (r: Result<
    (),
    PatchError,
>)
    ensures
        match insert_hex(old(data)@, offset, repl@) {
            Ok(after) => r is Ok && final(data)@ == after,
            Err(e) => r == Err::<(), PatchError>(e) && final(data)@ == old(data)@,
        },
{
    match parse_hex_bytes(repl) {
        Some(bytes) => insert_at(data, offset, bytes.as_slice()),
        None => Err(PatchError::HexSyntax),
    }
}

/// Replacing within the buffer succeeds, keeps the length, puts the payload
/// at the offset and leaves every other byte as it was.
pub proof fn lemma_replace_preserves_length(data: Seq<u8>, offset: usize, bytes: Seq<u8>)
    requires
        offset + bytes.len() <= data.len(),
    ensures
        replace_bytes(data, offset, bytes) == Ok::<Seq<u8>, PatchError>(
            replaced(data, offset as int, bytes),
        ),
        replaced(data, offset as int, bytes).len() == data.len(),
        replaced(data, offset as int, bytes).subrange(offset as int, offset + bytes.len())
            == bytes,
        replaced(data, offset as int, bytes).take(offset as int) == data.take(offset as int),
        replaced(data, offset as int, bytes).skip(offset + bytes.len()) == data.skip(
            offset + bytes.len(),
        ),
{
    let after = replaced(data, offset as int, bytes);
    assert(after.subrange(offset as int, offset + bytes.len()) =~= bytes);
    assert(after.take(offset as int) =~= data.take(offset as int));
    assert(after.skip(offset + bytes.len()) =~= data.skip(offset + bytes.len()));
}

/// Replacing twice with the same payload at the same offset gives what
/// replacing once gives.
pub proof fn lemma_replace_idempotent(data: Seq<u8>, offset: usize, bytes: Seq<u8>)
    requires
        offset + bytes.len() <= data.len(),
    ensures
        replace_bytes(replaced(data, offset as int, bytes), offset, bytes) == replace_bytes(
            data,
            offset,
            bytes,
        ),
{
    assert(replaced(replaced(data, offset as int, bytes), offset as int, bytes) =~= replaced(
        data,
        offset as int,
        bytes,
    ));
}

/// A replacement that would run past the end is refused, wherever it
/// starts.
pub proof fn lemma_replace_out_of_range(data: Seq<u8>, offset: usize, bytes: Seq<u8>)
    requires
        offset + bytes.len() > data.len(),
    ensures
        replace_bytes(data, offset, bytes) == Err::<Seq<u8>, PatchError>(
            (PatchError::ReplaceOutOfRange { offset }),
        ),
{
}

/// Inserting at or before the end succeeds, grows the buffer by the
/// payload's length, puts the payload at the offset, keeps what stood
/// before it and moves the rest up unchanged.
pub proof fn lemma_insert_grows_exactly(data: Seq<u8>, offset: usize, bytes: Seq<u8>)
    requires
        offset <= data.len(),
    ensures
        insert_bytes(data, offset, bytes) == Ok::<Seq<u8>, PatchError>(
            inserted(data, offset as int, bytes),
        ),
        inserted(data, offset as int, bytes).len() == data.len() + bytes.len(),
        inserted(data, offset as int, bytes).subrange(offset as int, offset + bytes.len())
            == bytes,
        inserted(data, offset as int, bytes).take(offset as int) == data.take(offset as int),
        inserted(data, offset as int, bytes).skip(offset + bytes.len()) == data.skip(
            offset as int,
        ),
{
    let after = inserted(data, offset as int, bytes);
    assert(after.subrange(offset as int, offset + bytes.len()) =~= bytes);
    assert(after.take(offset as int) =~= data.take(offset as int));
    assert(after.skip(offset + bytes.len()) =~= data.skip(offset as int));
}

/// Inserting the same payload twice at the same offset puts it there
/// twice.
pub proof fn lemma_insert_twice_doubles(data: Seq<u8>, offset: usize, bytes: Seq<u8>)
    requires
        offset <= data.len(),
    ensures
        insert_bytes(inserted(data, offset as int, bytes), offset, bytes) == insert_bytes(
            data,
            offset,
            bytes + bytes,
        ),
{
    assert(inserted(inserted(data, offset as int, bytes), offset as int, bytes) =~= inserted(
        data,
        offset as int,
        bytes + bytes,
    ));
}

} // verus!
