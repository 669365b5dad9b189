//! Byte-range operations on the contents of one file.
//!
//! Each operation takes the contents as they were when the request arrived
//! and either refuses the request or says what it yields: the bytes read, or
//! the contents that the file has afterwards. Nothing here touches a file; the
//! caller reads the contents and stores what comes back.
//!
//! An offset must lie inside the file, even where nothing is read or changed,
//! so nothing can be inserted at the very end of a file.

use vstd::prelude::*;
use vstd::string::*;

verus! {

/// Why a byte range does not fit the file.
#[derive(Clone, Copy, Debug, PartialEq, Eq, Structural)]
pub enum BoundsError {
    /// The offset is not inside the file.
    Offset,
    /// The payload would run past the end of the file.
    OffsetData,
    /// The range would run past the end of the file.
    OffsetAmount,
}

impl BoundsError {
    /// The reason as the client reads it.
    pub open spec fn reason(self) -> &'static str {
        match self {
            BoundsError::Offset => "Offset is too large",
            BoundsError::OffsetData => "Offset+Data is too large",
            BoundsError::OffsetAmount => "Offset+Amount is too large",
        }
    }

    /// The reason as the client reads it.
    pub fn message(self) -> (r: &'static str)
        ensures
            r == self.reason(),
    {
        match self {
            BoundsError::Offset => "Offset is too large",
            BoundsError::OffsetData => "Offset+Data is too large",
            BoundsError::OffsetAmount => "Offset+Amount is too large",
        }
    }
}

// ---------------------------------------------------------------------------
// What is refused
// ---------------------------------------------------------------------------

/// Why a file of `len` bytes refuses an offset.
pub open spec fn offset_error(len: nat, offset: u32) -> Option<BoundsError> {
    if offset >= len {
        Some(BoundsError::Offset)
    } else {
        None
    }
}

/// Why a file of `len` bytes refuses the range of `amount` bytes at `offset`.
pub open spec fn range_error(len: nat, offset: u32, amount: u32) -> Option<BoundsError> {
    if offset >= len {
        Some(BoundsError::Offset)
    } else if offset + amount > len {
        Some(BoundsError::OffsetAmount)
    } else {
        None
    }
}

/// Why a file of `len` bytes refuses to be overwritten at `offset` by `data_len` bytes.
pub open spec fn overwrite_error(len: nat, offset: u32, data_len: nat) -> Option<BoundsError> {
    if offset >= len {
        Some(BoundsError::Offset)
    } else if offset + data_len > len {
        Some(BoundsError::OffsetData)
    } else {
        None
    }
}

// ---------------------------------------------------------------------------
// What is done
// ---------------------------------------------------------------------------

/// The `amount` bytes of `contents` from `offset` on.
pub open spec fn read_range(contents: Seq<u8>, offset: int, amount: int) -> Seq<u8> {
    contents.subrange(offset, offset + amount)
}

/// `contents` with `data` put in at `offset`.
pub open spec fn with_insertion(contents: Seq<u8>, offset: int, data: Seq<u8>) -> Seq<u8> {
    contents.subrange(0, offset) + data + contents.subrange(offset, contents.len() as int)
}

/// `contents` with `data` written over what started at `offset`.
pub open spec fn with_overwrite(contents: Seq<u8>, offset: int, data: Seq<u8>) -> Seq<u8> {
    contents.subrange(0, offset) + data + contents.subrange(
        offset + data.len(),
        contents.len() as int,
    )
}

/// `contents` without the `amount` bytes from `offset` on.
pub open spec fn with_deletion(contents: Seq<u8>, offset: int, amount: int) -> Seq<u8> {
    contents.subrange(0, offset) + contents.subrange(offset + amount, contents.len() as int)
}

/// Returns the `amount` bytes from `offset` on.
pub fn read(contents: &[u8], offset: u32, amount: u32) -> (r: Result<Vec<u8>, BoundsError>)
    ensures
        match r {
            Ok(bytes) => range_error(contents@.len(), offset, amount) is None && bytes@
                == read_range(contents@, offset as int, amount as int),
            Err(e) => range_error(contents@.len(), offset, amount) == Some(e),
        },
{
    let len: usize = contents.len();
    if offset as usize >= len {
        return Err(BoundsError::Offset);
    }
    if amount as usize > len - offset as usize {
        return Err(BoundsError::OffsetAmount);
    }
    let start: usize = offset as usize;
    let end: usize = start + amount as usize;
    let mut bytes: Vec<u8> = Vec::new();
    bytes.extend_from_slice(&contents[start..end]);
    assert(bytes@ =~= read_range(contents@, offset as int, amount as int));
    Ok(bytes)
}

/// Puts `data` in at `offset` and moves what was there to the right.
pub fn insert(contents: &[u8], offset: u32, data: &[u8]) -> (r: Result<Vec<u8>, BoundsError>)
    ensures
        match r {
            Ok(after) => offset_error(contents@.len(), offset) is None && after@ == with_insertion(
                contents@,
                offset as int,
                data@,
            ),
            Err(e) => offset_error(contents@.len(), offset) == Some(e),
        },
{
    let len: usize = contents.len();
    if offset as usize >= len {
        return Err(BoundsError::Offset);
    }
    let at: usize = offset as usize;
    let mut after: Vec<u8> = Vec::new();
    after.extend_from_slice(&contents[0..at]);
    after.extend_from_slice(data);
    after.extend_from_slice(&contents[at..len]);
    assert(after@ =~= with_insertion(contents@, offset as int, data@));
    Ok(after)
}

/// Writes `data` over what starts at `offset`.
pub fn update(contents: &[u8], offset: u32, data: &[u8]) -> (r: Result<Vec<u8>, BoundsError>)
    ensures
        match r {
            Ok(after) => overwrite_error(contents@.len(), offset, data@.len()) is None && after@
                == with_overwrite(contents@, offset as int, data@),
            Err(e) => overwrite_error(contents@.len(), offset, data@.len()) == Some(e),
        },
{
    let len: usize = contents.len();
    if offset as usize >= len {
        return Err(BoundsError::Offset);
    }
    let at: usize = offset as usize;
    if data.len() > len - at {
        return Err(BoundsError::OffsetData);
    }
    let end: usize = at + data.len();
    let mut after: Vec<u8> = Vec::new();
    after.extend_from_slice(&contents[0..at]);
    after.extend_from_slice(data);
    after.extend_from_slice(&contents[end..len]);
    assert(after@ =~= with_overwrite(contents@, offset as int, data@));
    Ok(after)
}

/// Takes the `amount` bytes from `offset` on out and moves what followed to the left.
pub fn delete(contents: &[u8], offset: u32, amount: u32) -> (r: Result<Vec<u8>, BoundsError>)
    ensures
        match r {
            Ok(after) => range_error(contents@.len(), offset, amount) is None && after@
                == with_deletion(contents@, offset as int, amount as int),
            Err(e) => range_error(contents@.len(), offset, amount) == Some(e),
        },
{
    let len: usize = contents.len();
    if offset as usize >= len {
        return Err(BoundsError::Offset);
    }
    let at: usize = offset as usize;
    if amount as usize > len - at {
        return Err(BoundsError::OffsetAmount);
    }
    let end: usize = at + amount as usize;
    let mut after: Vec<u8> = Vec::new();
    after.extend_from_slice(&contents[0..at]);
    after.extend_from_slice(&contents[end..len]);
    assert(after@ =~= with_deletion(contents@, offset as int, amount as int));
    Ok(after)
}

// ---------------------------------------------------------------------------
// Laws
// ---------------------------------------------------------------------------

/// A range that starts at or behind the end of the file, or runs past it, is
/// refused: for reading, for overwriting and for deleting. For inserting, what
/// counts is the offset alone.
pub proof fn lemma_out_of_bounds_is_refused(len: nat, offset: u32, n: u32)
    requires
        offset >= len || offset + n > len,
    ensures
        range_error(len, offset, n) is Some,
        overwrite_error(len, offset, n as nat) is Some,
        offset >= len ==> offset_error(len, offset) is Some,
{
}

/// A range inside the file is accepted, and so is an insertion at an offset
/// inside the file, however long.
pub proof fn lemma_in_bounds_is_accepted(len: nat, offset: u32, n: u32)
    requires
        offset < len,
    ensures
        offset_error(len, offset) is None,
        offset + n <= len ==> range_error(len, offset, n) is None && overwrite_error(
            len,
            offset,
            n as nat,
        ) is None,
{
}

/// After an insertion the file is longer by the payload; what stood before the
/// offset stands there still, the payload follows, and what stood from the
/// offset on follows the payload.
pub proof fn lemma_insertion_splices(contents: Seq<u8>, offset: int, data: Seq<u8>)
    requires
        0 <= offset < contents.len(),
    ensures
        with_insertion(contents, offset, data).len() == contents.len() + data.len(),
        with_insertion(contents, offset, data).subrange(0, offset) == contents.subrange(0, offset),
        with_insertion(contents, offset, data).subrange(offset, offset + data.len()) == data,
        with_insertion(contents, offset, data).subrange(
            offset + data.len(),
            (contents.len() + data.len()) as int,
        ) == contents.subrange(offset, contents.len() as int),
{
    let after = with_insertion(contents, offset, data);
    assert(after.subrange(0, offset) =~= contents.subrange(0, offset));
    assert(after.subrange(offset, offset + data.len()) =~= data);
    assert(after.subrange(offset + data.len(), (contents.len() + data.len()) as int)
        =~= contents.subrange(offset, contents.len() as int));
}

/// After an overwrite the file is as long as before; the payload stands at the
/// offset and every other byte is as it was.
pub proof fn lemma_overwrite_splices(contents: Seq<u8>, offset: int, data: Seq<u8>)
    requires
        0 <= offset < contents.len(),
        offset + data.len() <= contents.len(),
    ensures
        with_overwrite(contents, offset, data).len() == contents.len(),
        with_overwrite(contents, offset, data).subrange(0, offset) == contents.subrange(0, offset),
        with_overwrite(contents, offset, data).subrange(offset, offset + data.len()) == data,
        with_overwrite(contents, offset, data).subrange(
            offset + data.len(),
            contents.len() as int,
        ) == contents.subrange(offset + data.len(), contents.len() as int),
{
    let after = with_overwrite(contents, offset, data);
    assert(after.subrange(0, offset) =~= contents.subrange(0, offset));
    assert(after.subrange(offset, offset + data.len()) =~= data);
    assert(after.subrange(offset + data.len(), contents.len() as int) =~= contents.subrange(
        offset + data.len(),
        contents.len() as int,
    ));
}

/// After a deletion the file is shorter by the amount; what stood before the
/// offset stands there still, and what stood behind the range follows it.
pub proof fn lemma_deletion_splices(contents: Seq<u8>, offset: int, amount: int)
    requires
        0 <= offset < contents.len(),
        0 <= amount,
        offset + amount <= contents.len(),
    ensures
        with_deletion(contents, offset, amount).len() == contents.len() - amount,
        with_deletion(contents, offset, amount).subrange(0, offset) == contents.subrange(
            0,
            offset,
        ),
        with_deletion(contents, offset, amount).subrange(offset, contents.len() - amount)
            == contents.subrange(offset + amount, contents.len() as int),
{
    let after = with_deletion(contents, offset, amount);
    assert(after.subrange(0, offset) =~= contents.subrange(0, offset));
    assert(after.subrange(offset, contents.len() - amount) =~= contents.subrange(
        offset + amount,
        contents.len() as int,
    ));
}

/// Reading takes exactly the bytes of the range.
pub proof fn lemma_read_is_exact(contents: Seq<u8>, offset: int, amount: int)
    requires
        0 <= offset < contents.len(),
        0 <= amount,
        offset + amount <= contents.len(),
    ensures
        read_range(contents, offset, amount).len() == amount,
        forall|i: int|
            0 <= i < amount ==> #[trigger] read_range(contents, offset, amount)[i] == contents[offset
                + i],
{
}

/// Inserting the same payload at the same offset a second time makes the file
/// longer a second time: the payload then stands there twice.
pub proof fn lemma_insertion_repeats(contents: Seq<u8>, offset: int, data: Seq<u8>)
    requires
        0 <= offset < contents.len(),
    ensures
        with_insertion(with_insertion(contents, offset, data), offset, data).len()
            == contents.len() + 2 * data.len(),
        with_insertion(with_insertion(contents, offset, data), offset, data)
            == contents.subrange(0, offset) + data + data + contents.subrange(
            offset,
            contents.len() as int,
        ),
{
    let once = with_insertion(contents, offset, data);
    let twice = with_insertion(once, offset, data);
    assert(twice =~= contents.subrange(0, offset) + data + data + contents.subrange(
        offset,
        contents.len() as int,
    ));
}

} // verus!
