//! The boundary between a host and a job: two blocks of bytes, each behind its
//! length.
//!
//! Deliberately dull. The host has to parse whatever crosses this boundary
//! while assuming the other side is hostile, and a format with no options is
//! the one with the fewest ways to be wrong.
use crate::bytes::{copy_range, get_u32_le, le_bytes, le_value, put_bytes, put_u32_le};
use vstd::prelude::*;

verus! {

/// Largest state or effects blob a job may hand back.
///
/// Present because the host has to allocate whatever the guest claims, and an
/// unchecked length is how a sandboxed job exhausts the memory of the machine
/// hosting it without ever escaping the sandbox.
pub const MAX_BLOB: usize = 16_777_216;

/// Why bytes are not a frame.
#[derive(Clone, Copy, Debug, PartialEq, Eq, Structural)]
pub enum FrameError {
    /// A length would stand past the end of the address space.
    TruncatedLength,
    /// Fewer than four bytes are left where a length should stand.
    TruncatedHeader,
    /// A block claims more than any block may hold.
    OverLimit { claimed: usize },
    /// A block would end past the end of the address space.
    LengthOverflows,
    /// A block claims more than the bytes that are left.
    PastEnd { claimed: usize, remaining: usize },
}

/// One block as it is written: its length in four bytes, then its bytes.
///
/// The length is written modulo two to the thirty-second.
pub open spec fn block(bytes: Seq<u8>) -> Seq<u8> {
    le_bytes(bytes.len() % 0x1_0000_0000, 4) + bytes
}

/// Two blocks, one behind the other.
pub open spec fn frame(first: Seq<u8>, second: Seq<u8>) -> Seq<u8> {
    block(first) + block(second)
}

/// How long a frame is.
pub proof fn lemma_frame_len(first: Seq<u8>, second: Seq<u8>)
    ensures
        frame(first, second).len() == 8 + first.len() + second.len(),
{
    crate::bytes::lemma_le_bytes_len(first.len() % 0x1_0000_0000, 4);
    crate::bytes::lemma_le_bytes_len(second.len() % 0x1_0000_0000, 4);
}

/// The length that stands at `at`.
pub open spec fn length_at(buf: Seq<u8>, at: int) -> nat {
    le_value(buf.subrange(at, at + 4))
}

/// What reading the block at `at` gives: its bytes and where it ends.
pub open spec fn block_at(buf: Seq<u8>, at: int) -> Result<(Seq<u8>, int), FrameError> {
    if at + 4 > usize::MAX {
        Err(FrameError::TruncatedLength)
    } else if at + 4 > buf.len() {
        Err(FrameError::TruncatedHeader)
    } else {
        let claimed = length_at(buf, at);
        if claimed > MAX_BLOB {
            Err(FrameError::OverLimit { claimed: claimed as usize })
        } else if at + 4 + claimed > usize::MAX {
            Err(FrameError::LengthOverflows)
        } else if at + 4 + claimed > buf.len() {
            Err(
                FrameError::PastEnd {
                    claimed: claimed as usize,
                    remaining: (buf.len() - (at + 4)) as usize,
                },
            )
        } else {
            Ok((buf.subrange(at + 4, at + 4 + claimed), at + 4 + claimed))
        }
    }
}

/// What reading a whole frame gives. Bytes after the second block are ignored.
pub open spec fn frame_of(buf: Seq<u8>) -> Result<(Seq<u8>, Seq<u8>), FrameError> {
    match block_at(buf, 0) {
        Err(error) => Err(error),
        Ok((first, next)) => match block_at(buf, next) {
            Err(error) => Err(error),
            Ok((second, end)) => Ok((first, second)),
        },
    }
}

/// Writes one block.
pub fn put_block(out: &mut Vec<u8>, bytes: &[u8])
    ensures
        final(out)@ == old(out)@ + block(bytes@),
{
    put_u32_le(out, (bytes.len() as u64 % 0x1_0000_0000) as u32);
    put_bytes(out, bytes);
    assert(out@ =~= old(out)@ + block(bytes@));
}

/// Writes a frame.
pub fn encode_frame(first: &[u8], second: &[u8]) -> (out: Vec<u8>)
    requires
        8 + first@.len() + second@.len() <= usize::MAX,
    ensures
        out@ == frame(first@, second@),
{
    let mut out: Vec<u8> = Vec::with_capacity(8 + first.len() + second.len());
    put_block(&mut out, first);
    put_block(&mut out, second);
    assert(out@ =~= frame(first@, second@));
    out
}

fn read_block(buf: &[u8], at: usize) -> (res: Result<(Vec<u8>, usize), FrameError>)
    requires
        at <= buf@.len(),
    ensures
        match res {
            Ok((bytes, end)) => block_at(buf@, at as int) == Ok::<_, FrameError>((bytes@, end as int)) && end
                <= buf@.len(),
            Err(error) => block_at(buf@, at as int) == Err::<(Seq<u8>, int), _>(error),
        },
{
    let header_end = match at.checked_add(4) {
        Some(end) => end,
        None => return Err(FrameError::TruncatedLength),
    };
    if header_end > buf.len() {
        return Err(FrameError::TruncatedHeader);
    }
    let claimed = get_u32_le(buf, at);
    if claimed as u64 > MAX_BLOB as u64 {
        return Err(FrameError::OverLimit { claimed: claimed as usize });
    }
    let end = match header_end.checked_add(claimed as usize) {
        Some(end) => end,
        None => return Err(FrameError::LengthOverflows),
    };
    if end > buf.len() {
        return Err(
            FrameError::PastEnd { claimed: claimed as usize, remaining: buf.len() - header_end },
        );
    }
    Ok((copy_range(buf, header_end, end), end))
}

/// The bytes that a reading gave, or why it gave none.
pub open spec fn blocks(res: Result<(Vec<u8>, Vec<u8>), FrameError>) -> Result<
    (Seq<u8>, Seq<u8>),
    FrameError,
> {
    match res {
        Ok((first, second)) => Ok((first@, second@)),
        Err(error) => Err(error),
    }
}

/// Reads a frame.
pub fn decode_frame(buf: &[u8]) -> (res: Result<(Vec<u8>, Vec<u8>), FrameError>)
    ensures
        blocks(res) == frame_of(buf@),
{
    match read_block(buf, 0) {
        Err(error) => Err(error),
        Ok((first, next)) => match read_block(buf, next) {
            Err(error) => Err(error),
            Ok((second, _)) => Ok((first, second)),
        },
    }
}

proof fn lemma_block_reads_back(before: Seq<u8>, bytes: Seq<u8>, after: Seq<u8>)
    requires
        bytes.len() <= MAX_BLOB,
        before.len() + 4 + bytes.len() <= usize::MAX,
    ensures
        block_at(before + block(bytes) + after, before.len() as int) == Ok::<_, FrameError>(
            (bytes, (before.len() + 4 + bytes.len()) as int),
        ),
{
    let whole = before + block(bytes) + after;
    let at = before.len() as int;
    crate::bytes::lemma_le_bytes_len(bytes.len(), 4);
    crate::bytes::lemma_byte_rooms();
    crate::bytes::lemma_le_round_trip(bytes.len(), 4);
    assert(whole.subrange(at, at + 4) =~= le_bytes(bytes.len(), 4));
    assert(whole.subrange(at + 4, at + 4 + bytes.len()) =~= bytes);
}

/// Reading gives back what was written, for every pair of blocks that a job
/// may hand over.
pub proof fn frames_round_trip(first: Seq<u8>, second: Seq<u8>)
    requires
        first.len() <= MAX_BLOB,
        second.len() <= MAX_BLOB,
    ensures
        frame_of(frame(first, second)) == Ok::<_, FrameError>((first, second)),
{
    let whole = frame(first, second);
    lemma_block_reads_back(Seq::empty(), first, block(second));
    assert(Seq::<u8>::empty() + block(first) + block(second) =~= whole);
    assert(block_at(whole, 0) == Ok::<_, FrameError>((first, 4 + first.len() as int)));
    assert(block(first).len() == 4 + first.len()) by {
        crate::bytes::lemma_le_bytes_len(first.len() % 0x1_0000_0000, 4);
    }
    lemma_block_reads_back(block(first), second, Seq::empty());
    assert(block(first) + block(second) + Seq::<u8>::empty() =~= whole);
    assert(block_at(whole, 4 + first.len() as int) is Ok);
}

/// Whatever is read, no block of it is over the limit, and both blocks stand
/// in the bytes that were read from.
pub proof fn blocks_are_bounded(buf: Seq<u8>)
    ensures
        frame_of(buf) matches Ok((first, second)) ==> {
            &&& first.len() <= MAX_BLOB
            &&& second.len() <= MAX_BLOB
            &&& 8 + first.len() + second.len() <= buf.len()
        },
{
}

/// A frame with a block over the limit is refused, whichever block it is.
pub proof fn oversized_blocks_are_refused(first: Seq<u8>, second: Seq<u8>)
    requires
        first.len() > MAX_BLOB || second.len() > MAX_BLOB,
        first.len() <= u32::MAX,
        second.len() <= u32::MAX,
        8 + first.len() + second.len() <= usize::MAX,
    ensures
        frame_of(frame(first, second)) is Err,
{
    let whole = frame(first, second);
    crate::bytes::lemma_byte_rooms();
    crate::bytes::lemma_le_bytes_len(first.len(), 4);
    crate::bytes::lemma_le_bytes_len(second.len(), 4);
    crate::bytes::lemma_le_round_trip(first.len(), 4);
    crate::bytes::lemma_le_round_trip(second.len(), 4);
    assert(whole.subrange(0, 4) =~= le_bytes(first.len(), 4));
    if first.len() <= MAX_BLOB {
        lemma_block_reads_back(Seq::empty(), first, block(second));
        assert(Seq::<u8>::empty() + block(first) + block(second) =~= whole);
        let at = 4 + first.len() as int;
        assert(whole.subrange(at, at + 4) =~= le_bytes(second.len(), 4));
    }
}

impl FrameError {
    /// The reason in words.
    pub open spec fn spec_message(self) -> Seq<char> {
        match self {
            FrameError::TruncatedLength => "truncated length"@,
            FrameError::TruncatedHeader => "truncated length header"@,
            FrameError::OverLimit { claimed } => "block claims "@ + crate::text::decimal(
                claimed as nat,
            ) + " bytes, over the "@ + crate::text::decimal(MAX_BLOB as nat) + " limit"@,
            FrameError::LengthOverflows => "length overflows"@,
            FrameError::PastEnd { claimed, remaining } => "block claims "@ + crate::text::decimal(
                claimed as nat,
            ) + " bytes but only "@ + crate::text::decimal(remaining as nat) + " remain"@,
        }
    }

    /// The reason in words.
    pub fn message(&self) -> (text: String)
        ensures
            text@ == self.spec_message(),
    {
        match *self {
            FrameError::TruncatedLength => "truncated length".to_owned(),
            FrameError::TruncatedHeader => "truncated length header".to_owned(),
            FrameError::OverLimit { claimed } => {
                let mut text = "block claims ".to_owned();
                crate::text::push_decimal(&mut text, claimed as u128);
                text.push_str(" bytes, over the ");
                crate::text::push_decimal(&mut text, MAX_BLOB as u128);
                text.push_str(" limit");
                text
            },
            FrameError::LengthOverflows => "length overflows".to_owned(),
            FrameError::PastEnd { claimed, remaining } => {
                let mut text = "block claims ".to_owned();
                crate::text::push_decimal(&mut text, claimed as u128);
                text.push_str(" bytes but only ");
                crate::text::push_decimal(&mut text, remaining as u128);
                text.push_str(" remain");
                text
            },
        }
    }
}

/// Whatever is read was written: bytes are read as two blocks only where they
/// begin with exactly the frame of those two.
pub proof fn what_is_read_was_written(buf: Seq<u8>)
    ensures
        frame_of(buf) matches Ok((first, second)) ==> frame(first, second).is_prefix_of(buf),
{
    if let Ok((first, second)) = frame_of(buf) {
        let at = 4 + first.len() as int;
        crate::bytes::lemma_byte_rooms();
        let (a, b) = (buf.subrange(0, 4), buf.subrange(at, at + 4));
        crate::bytes::lemma_le_value(a);
        crate::bytes::lemma_le_value(b);
        assert(first.len() == le_value(a));
        assert(second.len() == le_value(b));
        lemma_frame_len(first, second);
        let whole = frame(first, second);
        assert(le_bytes(first.len() % 0x1_0000_0000, 4) == a);
        assert(le_bytes(second.len() % 0x1_0000_0000, 4) == b);
        assert(buf.subrange(0, whole.len() as int) =~= whole);
    }
}

/// Blocks of up to sixteen mebibytes are read back, and a byte more is refused.
pub proof fn sixteen_mebibytes_are_the_limit(first: Seq<u8>, second: Seq<u8>)
    requires
        8 + first.len() + second.len() <= usize::MAX,
    ensures
        first.len() <= 16_777_216 && second.len() <= 16_777_216 ==> frame_of(frame(first, second))
            == Ok::<_, FrameError>((first, second)),
        16_777_216 < first.len() <= u32::MAX && second.len() <= u32::MAX ==> frame_of(
            frame(first, second),
        ) is Err,
        first.len() <= u32::MAX && 16_777_216 < second.len() <= u32::MAX ==> frame_of(
            frame(first, second),
        ) is Err,
{
    if first.len() <= 16_777_216 && second.len() <= 16_777_216 {
        frames_round_trip(first, second);
    } else if first.len() <= u32::MAX && second.len() <= u32::MAX {
        oversized_blocks_are_refused(first, second);
    }
}

/// A frame that was cut short anywhere is refused.
pub proof fn a_frame_cut_short_is_refused(first: Seq<u8>, second: Seq<u8>, n: int)
    requires
        first.len() <= MAX_BLOB,
        second.len() <= MAX_BLOB,
        0 <= n < frame(first, second).len(),
    ensures
        frame_of(frame(first, second).take(n)) is Err,
{
    let whole = frame(first, second);
    let cut = whole.take(n);
    lemma_frame_len(first, second);
    crate::bytes::lemma_byte_rooms();
    crate::bytes::lemma_le_bytes_len(first.len(), 4);
    crate::bytes::lemma_le_bytes_len(second.len(), 4);
    crate::bytes::lemma_le_round_trip(first.len(), 4);
    crate::bytes::lemma_le_round_trip(second.len(), 4);
    let at = 4 + first.len() as int;
    if n >= 4 {
        assert(cut.subrange(0, 4) =~= le_bytes(first.len(), 4));
    }
    if n >= at + 4 {
        assert(cut.subrange(at, at + 4) =~= le_bytes(second.len(), 4));
    }
}

/// A block begins with its length, the least significant byte first, and its bytes
/// follow.
pub proof fn a_block_begins_with_its_length(bytes: Seq<u8>)
    requires
        bytes.len() <= u32::MAX,
    ensures
        block(bytes) == seq![
            (bytes.len() % 0x100) as u8,
            (bytes.len() / 0x100 % 0x100) as u8,
            (bytes.len() / 0x1_0000 % 0x100) as u8,
            (bytes.len() / 0x100_0000) as u8,
        ] + bytes,
{
    crate::bytes::bytes_of_small_numbers(bytes.len());
}

} // verus!
