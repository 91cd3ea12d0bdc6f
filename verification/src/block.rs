//! MWC block scanning and bounded zlib decoding for one numbered data file.

use crate::bytes::{copy_bytes, le_u32, lemma_le_u32_bound, read_u32_le};
use flate2::read::ZlibDecoder;
use std::io::Read;
use vstd::prelude::*;

verus! {

/// Four-byte marker at the beginning of a compressed MWC block.
pub const MWC_MAGIC: [u8; 4] = [0x4D, 0x57, 0x43, 0x1A];

/// Byte length of a compressed MWC block header.
pub const BLOCK_HEADER_SIZE: usize = 12;

/// A byte position in one numbered data file.
#[derive(Debug, Clone, Copy, PartialEq, Eq, Structural)]
pub struct BlockLocation {
    pub file_number: u32,
    pub offset: usize,
}

/// A compressed block whose header and payload fit in the scanned file.
#[derive(Debug, Clone, Copy, PartialEq, Eq, Structural)]
pub struct MwcBlock {
    pub location: BlockLocation,
    pub uncompressed_size: u32,
    pub compressed_size: u32,
    pub payload_offset: usize,
}

/// Bytes that cannot yet be assigned a resource meaning.
#[derive(Debug, Clone, Copy, PartialEq, Eq, Structural)]
pub struct UnresolvedGap {
    pub location: BlockLocation,
    pub len: usize,
}

/// One ordered segment of a data file.
#[derive(Debug, Clone, Copy, PartialEq, Eq, Structural)]
pub enum DataSegment {
    ZlibBlock(MwcBlock),
    UnresolvedGap(UnresolvedGap),
}

/// Ordered scan results for one numbered data file.
#[derive(Debug, Clone, PartialEq, Eq)]
pub struct ScannedDataFile {
    pub file_number: u32,
    pub file_size: usize,
    pub segments: Vec<DataSegment>,
}

/// Structural failures found while walking a data file.
#[derive(Debug, Clone, Copy, PartialEq, Eq, Structural)]
pub enum BlockScanError {
    HeaderTruncated { location: BlockLocation, remaining_bytes: usize },
    PayloadEndOverflow { location: BlockLocation, compressed_size: u32 },
    PayloadTruncated { location: BlockLocation, compressed_size: u32, available_bytes: usize },
}

/// Failures found while decoding a structurally valid block descriptor.
#[derive(Debug, Clone, PartialEq, Eq)]
pub enum BlockDecodeError {
    OutputLimitExceeded { location: BlockLocation, declared_size: u32, max_output_size: usize },
    PayloadOutOfBounds {
        location: BlockLocation,
        payload_offset: usize,
        compressed_size: u32,
        file_size: usize,
    },
    PayloadSizeMismatch { location: BlockLocation, expected_size: u32, actual_size: usize },
    InvalidZlib { location: BlockLocation, message: String },
    OutputSizeMismatch { location: BlockLocation, expected_size: u32, actual_size: usize },
}

// ---------------------------------------------------------------------------
// Specification of the scan
// ---------------------------------------------------------------------------

/// Whether the four MWC magic bytes start at position `i`.
pub open spec fn magic_at(bytes: Seq<u8>, i: int) -> bool {
    &&& 0 <= i
    &&& i + 4 <= bytes.len()
    &&& bytes[i] == 0x4D
    &&& bytes[i + 1] == 0x57
    &&& bytes[i + 2] == 0x43
    &&& bytes[i + 3] == 0x1A
}

/// The first position at or after `from` where the magic starts.
pub open spec fn next_magic(bytes: Seq<u8>, from: int) -> Option<int>
    decreases bytes.len() - from,
{
    if from < 0 || from + 4 > bytes.len() {
        None
    } else if magic_at(bytes, from) {
        Some(from)
    } else {
        next_magic(bytes, from + 1)
    }
}

pub open spec fn gap_segment(file_number: u32, offset: int, len: int) -> DataSegment {
    DataSegment::UnresolvedGap(
        UnresolvedGap {
            location: BlockLocation { file_number, offset: offset as usize },
            len: len as usize,
        },
    )
}

pub open spec fn prepend_segments(
    prefix: Seq<DataSegment>,
    rest: Result<Seq<DataSegment>, BlockScanError>,
) -> Result<Seq<DataSegment>, BlockScanError> {
    match rest {
        Ok(tail) => Ok(prefix + tail),
        Err(error) => Err(error),
    }
}

/// The segments found from `cursor` to the end of `bytes`: every byte is either part of
/// an MWC block (header and payload) or part of an unresolved gap, in file order.
pub open spec fn spec_scan(file_number: u32, bytes: Seq<u8>, cursor: int) -> Result<
    Seq<DataSegment>,
    BlockScanError,
>
    decreases bytes.len() - cursor,
{
    if cursor < 0 || cursor >= bytes.len() {
        Ok(Seq::empty())
    } else {
        match next_magic(bytes, cursor) {
            None => Ok(seq![gap_segment(file_number, cursor, bytes.len() - cursor)]),
            Some(magic) => {
                let before = if magic > cursor {
                    seq![gap_segment(file_number, cursor, magic - cursor)]
                } else {
                    Seq::empty()
                };
                let location = BlockLocation { file_number, offset: magic as usize };
                let remaining = bytes.len() - magic;
                if magic < cursor {
                    Ok(Seq::empty())
                } else if remaining < 12 {
                    Err(
                        BlockScanError::HeaderTruncated {
                            location,
                            remaining_bytes: remaining as usize,
                        },
                    )
                } else {
                    let compressed = le_u32(bytes, magic + 8);
                    let payload_offset = magic + 12;
                    let payload_end = payload_offset + compressed;
                    if payload_end > usize::MAX {
                        Err(
                            BlockScanError::PayloadEndOverflow {
                                location,
                                compressed_size: compressed as u32,
                            },
                        )
                    } else if payload_end > bytes.len() {
                        Err(
                            BlockScanError::PayloadTruncated {
                                location,
                                compressed_size: compressed as u32,
                                available_bytes: (bytes.len() - payload_offset) as usize,
                            },
                        )
                    } else {
                        let block = DataSegment::ZlibBlock(
                            MwcBlock {
                                location,
                                uncompressed_size: le_u32(bytes, magic + 4) as u32,
                                compressed_size: compressed as u32,
                                payload_offset: payload_offset as usize,
                            },
                        );
                        prepend_segments(
                            before + seq![block],
                            spec_scan(file_number, bytes, payload_end),
                        )
                    }
                }
            },
        }
    }
}

/// Whether segment `i` and the one after it are both unresolved gaps.
pub open spec fn gap_follows_gap(segments: Seq<DataSegment>, i: int) -> bool {
    segments[i] is UnresolvedGap && segments[i + 1] is UnresolvedGap
}

/// A scan never lists two unresolved gaps one after the other: every gap is followed by a
/// block or ends the file.
pub proof fn lemma_scan_gaps_are_separated(file_number: u32, bytes: Seq<u8>, cursor: int)
    ensures
        spec_scan(file_number, bytes, cursor) matches Ok(segments) ==> forall|i: int|
            0 <= i < segments.len() - 1 ==> !#[trigger] gap_follows_gap(segments, i),
    decreases bytes.len() - cursor,
{
    if 0 <= cursor < bytes.len() {
        match next_magic(bytes, cursor) {
            None => {},
            Some(magic) => {
                if magic >= cursor && bytes.len() - magic >= 12 {
                    let compressed = le_u32(bytes, magic + 8);
                    let payload_end = magic + 12 + compressed;
                    if payload_end <= usize::MAX && payload_end <= bytes.len() {
                        lemma_scan_gaps_are_separated(file_number, bytes, payload_end);
                        if let Ok(segments) = spec_scan(file_number, bytes, cursor) {
                            let tail = spec_scan(file_number, bytes, payload_end)->Ok_0;
                            let head = segments.subrange(0, segments.len() - tail.len());
                            assert(segments =~= head + tail);
                            assert(head.last() is ZlibBlock);
                            assert forall|i: int| 0 <= i < segments.len() - 1 implies !#[trigger] gap_follows_gap(
                                segments,
                                i,
                            ) by {
                                if i >= head.len() {
                                    assert(segments[i] == tail[i - head.len()]);
                                    assert(segments[i + 1] == tail[i + 1 - head.len()]);
                                    assert(!gap_follows_gap(tail, i - head.len()));
                                } else if i == head.len() - 1 {
                                } else {
                                    assert(segments[i + 1] == head[i + 1]);
                                }
                            }
                        }
                    }
                }
            },
        }
    }
}

/// First byte covered by a segment.
pub open spec fn segment_start(segment: DataSegment) -> int {
    match segment {
        DataSegment::ZlibBlock(block) => block.location.offset as int,
        DataSegment::UnresolvedGap(gap) => gap.location.offset as int,
    }
}

/// One past the last byte covered by a segment.
pub open spec fn segment_end(segment: DataSegment) -> int {
    match segment {
        DataSegment::ZlibBlock(block) => block.payload_offset + block.compressed_size,
        DataSegment::UnresolvedGap(gap) => gap.location.offset + gap.len,
    }
}

pub open spec fn segment_file(segment: DataSegment) -> u32 {
    match segment {
        DataSegment::ZlibBlock(block) => block.location.file_number,
        DataSegment::UnresolvedGap(gap) => gap.location.file_number,
    }
}

/// The segments cover the byte range `[start, end)` contiguously and in order, every
/// segment is non-empty and belongs to `file_number`, every block starts with the magic,
/// and no gap contains the start of a magic marker.
pub open spec fn tiles(
    file_number: u32,
    bytes: Seq<u8>,
    segments: Seq<DataSegment>,
    start: int,
    end: int,
) -> bool
    decreases segments.len(),
{
    if segments.len() == 0 {
        start == end
    } else {
        let first = segments[0];
        &&& segment_start(first) == start
        &&& segment_end(first) > start
        &&& segment_file(first) == file_number
        &&& match first {
            DataSegment::ZlibBlock(block) => {
                &&& magic_at(bytes, start)
                &&& block.payload_offset == start + 12
                &&& block.uncompressed_size == le_u32(bytes, start + 4)
                &&& block.compressed_size == le_u32(bytes, start + 8)
            },
            DataSegment::UnresolvedGap(gap) => forall|i: int|
                start <= i < start + gap.len ==> !#[trigger] magic_at(bytes, i),
        }
        &&& tiles(file_number, bytes, segments.drop_first(), segment_end(first), end)
    }
}

pub proof fn lemma_next_magic(bytes: Seq<u8>, from: int)
    requires
        0 <= from,
    ensures
        match next_magic(bytes, from) {
            Some(m) => from <= m && magic_at(bytes, m) && forall|j: int|
                from <= j < m ==> !#[trigger] magic_at(bytes, j),
            None => forall|j: int| from <= j ==> !#[trigger] magic_at(bytes, j),
        },
    decreases bytes.len() - from,
{
    if from + 4 > bytes.len() {
    } else if magic_at(bytes, from) {
    } else {
        lemma_next_magic(bytes, from + 1);
    }
}

proof fn lemma_tiles_prepend(
    file_number: u32,
    bytes: Seq<u8>,
    prefix: Seq<DataSegment>,
    rest: Seq<DataSegment>,
    start: int,
    middle: int,
    end: int,
)
    requires
        tiles(file_number, bytes, prefix, start, middle),
        tiles(file_number, bytes, rest, middle, end),
    ensures
        tiles(file_number, bytes, prefix + rest, start, end),
    decreases prefix.len(),
{
    if prefix.len() > 0 {
        assert((prefix + rest).drop_first() =~= prefix.drop_first() + rest);
        lemma_tiles_prepend(
            file_number,
            bytes,
            prefix.drop_first(),
            rest,
            segment_end(prefix[0]),
            middle,
            end,
        );
    } else {
        assert(prefix + rest =~= rest);
    }
}

/// A successful scan tiles the whole file: the returned segments cover every byte from
/// `cursor` to the end exactly once and in order, no byte is discarded, every block begins
/// with the MWC magic and carries the sizes written in its header, and no gap hides a magic.
pub proof fn lemma_scan_tiles(file_number: u32, bytes: Seq<u8>, cursor: int)
    requires
        0 <= cursor <= bytes.len(),
        bytes.len() <= usize::MAX,
    ensures
        spec_scan(file_number, bytes, cursor) matches Ok(segments) ==> tiles(
            file_number,
            bytes,
            segments,
            cursor,
            bytes.len() as int,
        ),
    decreases bytes.len() - cursor,
{
    if cursor >= bytes.len() {
    } else {
        lemma_next_magic(bytes, cursor);
        match next_magic(bytes, cursor) {
            None => {
                let gap = gap_segment(file_number, cursor, bytes.len() - cursor);
                assert(tiles(file_number, bytes, seq![gap].drop_first(), bytes.len() as int, bytes.len() as int));
            },
            Some(magic) => {
                let remaining = bytes.len() - magic;
                if remaining >= 12 {
                    lemma_le_u32_bound(bytes, magic + 4);
                    lemma_le_u32_bound(bytes, magic + 8);
                    let compressed = le_u32(bytes, magic + 8);
                    let payload_end = magic + 12 + compressed;
                    if payload_end <= bytes.len() {
                        lemma_scan_tiles(file_number, bytes, payload_end);
                        let location = BlockLocation { file_number, offset: magic as usize };
                        let block = DataSegment::ZlibBlock(
                            MwcBlock {
                                location,
                                uncompressed_size: le_u32(bytes, magic + 4) as u32,
                                compressed_size: compressed as u32,
                                payload_offset: (magic + 12) as usize,
                            },
                        );
                        let empty = Seq::<DataSegment>::empty();
                        assert(seq![block].drop_first() =~= empty);
                        assert(tiles(file_number, bytes, empty, payload_end, payload_end));
                        assert(seq![block][0] == block);
                        assert(tiles(file_number, bytes, seq![block], magic, payload_end));
                        if magic > cursor {
                            let gap = gap_segment(file_number, cursor, magic - cursor);
                            assert(seq![gap].drop_first() =~= empty);
                            assert(tiles(file_number, bytes, empty, magic, magic));
                            assert(seq![gap][0] == gap);
                            assert(tiles(file_number, bytes, seq![gap], cursor, magic));
                            lemma_tiles_prepend(
                                file_number,
                                bytes,
                                seq![gap],
                                seq![block],
                                cursor,
                                magic,
                                payload_end,
                            );
                            assert(seq![gap] + seq![block] =~= seq![gap, block]);
                        } else {
                            assert(Seq::<DataSegment>::empty() + seq![block] =~= seq![block]);
                        }
                        if let Ok(rest) = spec_scan(file_number, bytes, payload_end) {
                            let before = if magic > cursor {
                                seq![gap_segment(file_number, cursor, magic - cursor)]
                            } else {
                                Seq::empty()
                            };
                            lemma_tiles_prepend(
                                file_number,
                                bytes,
                                before + seq![block],
                                rest,
                                cursor,
                                payload_end,
                                bytes.len() as int,
                            );
                        }
                    }
                }
            },
        }
    }
}

// ---------------------------------------------------------------------------
// Executable scan
// ---------------------------------------------------------------------------

fn find_magic(bytes: &[u8], from: usize) -> (found: Option<usize>)
    requires
        from <= bytes@.len(),
    ensures
        match found {
            Some(i) => next_magic(bytes@, from as int) == Some(i as int),
            None => next_magic(bytes@, from as int) is None,
        },
{
    let mut i = from;
    while i <= bytes.len() && bytes.len() - i >= 4
        invariant
            from <= i <= bytes@.len(),
            next_magic(bytes@, from as int) == next_magic(bytes@, i as int),
        decreases bytes@.len() - i,
    {
        if bytes[i] == 0x4D && bytes[i + 1] == 0x57 && bytes[i + 2] == 0x43 && bytes[i + 3] == 0x1A {
            return Some(i);
        }
        i += 1;
    }
    None
}

/// Walks a complete data file without discarding bytes between MWC blocks.
pub fn scan_data_file(file_number: u32, bytes: &[u8]) -> (scanned: Result<
    ScannedDataFile,
    BlockScanError,
>)
    ensures
        match spec_scan(file_number, bytes@, 0) {
            Ok(segments) => scanned matches Ok(file) && file.file_number == file_number
                && file.file_size == bytes@.len() && file.segments@ == segments,
            Err(error) => scanned matches Err(e) && e == error,
        },
{
    let mut segments: Vec<DataSegment> = Vec::new();
    let mut cursor: usize = 0;
    while cursor < bytes.len()
        invariant
            cursor <= bytes@.len(),
            spec_scan(file_number, bytes@, 0) == prepend_segments(
                segments@,
                spec_scan(file_number, bytes@, cursor as int),
            ),
        decreases bytes@.len() - cursor,
    {
        let ghost old_segments = segments@;
        match find_magic(bytes, cursor) {
            None => {
                let gap = DataSegment::UnresolvedGap(
                    UnresolvedGap {
                        location: BlockLocation { file_number, offset: cursor },
                        len: bytes.len() - cursor,
                    },
                );
                segments.push(gap);
                assert(segments@ =~= old_segments + seq![gap]);
                assert(old_segments + seq![gap] =~= segments@ + Seq::<DataSegment>::empty());
                cursor = bytes.len();
            },
            Some(magic) => {
                proof {
                    lemma_next_magic(bytes@, cursor as int);
                }
                let ghost before: Seq<DataSegment> = if magic > cursor {
                    seq![gap_segment(file_number, cursor as int, magic - cursor)]
                } else {
                    Seq::empty()
                };
                if magic > cursor {
                    segments.push(
                        DataSegment::UnresolvedGap(
                            UnresolvedGap {
                                location: BlockLocation { file_number, offset: cursor },
                                len: magic - cursor,
                            },
                        ),
                    );
                }
                assert(segments@ =~= old_segments + before);
                let remaining_bytes = bytes.len() - magic;
                let location = BlockLocation { file_number, offset: magic };
                if remaining_bytes < BLOCK_HEADER_SIZE {
                    return Err(BlockScanError::HeaderTruncated { location, remaining_bytes });
                }
                let uncompressed_size = read_u32_le(bytes, magic + 4);
                let compressed_size = read_u32_le(bytes, magic + 8);
                let payload_offset = magic + BLOCK_HEADER_SIZE;
                let compressed_len = compressed_size as usize;
                let payload_end = match payload_offset.checked_add(compressed_len) {
                    Some(end) => end,
                    None => {
                        return Err(
                            BlockScanError::PayloadEndOverflow { location, compressed_size },
                        );
                    },
                };
                if payload_end > bytes.len() {
                    return Err(
                        BlockScanError::PayloadTruncated {
                            location,
                            compressed_size,
                            available_bytes: bytes.len() - payload_offset,
                        },
                    );
                }
                let block = DataSegment::ZlibBlock(
                    MwcBlock { location, uncompressed_size, compressed_size, payload_offset },
                );
                segments.push(block);
                proof {
                    assert(segments@ =~= old_segments + (before + seq![block]));
                    match spec_scan(file_number, bytes@, payload_end as int) {
                        Ok(rest) => {
                            assert(old_segments + ((before + seq![block]) + rest) =~= segments@
                                + rest);
                        },
                        Err(_) => {},
                    }
                }
                cursor = payload_end;
            },
        }
    }
    assert(segments@ + Seq::<DataSegment>::empty() =~= segments@);
    Ok(ScannedDataFile { file_number, file_size: bytes.len(), segments })
}

/// The MWC blocks among `segments`, in order.
pub open spec fn spec_zlib_blocks(segments: Seq<DataSegment>) -> Seq<MwcBlock>
    decreases segments.len(),
{
    if segments.len() == 0 {
        Seq::empty()
    } else {
        let rest = spec_zlib_blocks(segments.drop_last());
        match segments.last() {
            DataSegment::ZlibBlock(block) => rest.push(block),
            DataSegment::UnresolvedGap(_) => rest,
        }
    }
}

/// The unresolved gaps among `segments`, in order.
pub open spec fn spec_unresolved_gaps(segments: Seq<DataSegment>) -> Seq<UnresolvedGap>
    decreases segments.len(),
{
    if segments.len() == 0 {
        Seq::empty()
    } else {
        let rest = spec_unresolved_gaps(segments.drop_last());
        match segments.last() {
            DataSegment::ZlibBlock(_) => rest,
            DataSegment::UnresolvedGap(gap) => rest.push(gap),
        }
    }
}

/// Every segment is either a block or a gap, so the two lists together account for all of them.
pub proof fn lemma_blocks_and_gaps_count(segments: Seq<DataSegment>)
    ensures
        spec_zlib_blocks(segments).len() + spec_unresolved_gaps(segments).len() == segments.len(),
    decreases segments.len(),
{
    if segments.len() > 0 {
        lemma_blocks_and_gaps_count(segments.drop_last());
    }
}

/// Collects the MWC blocks among `segments`, in order.
pub fn segment_zlib_blocks(segments: &[DataSegment]) -> (blocks: Vec<MwcBlock>)
    ensures
        blocks@ == spec_zlib_blocks(segments@),
{
    let mut blocks: Vec<MwcBlock> = Vec::new();
    let mut index: usize = 0;
    while index < segments.len()
        invariant
            index <= segments@.len(),
            blocks@ == spec_zlib_blocks(segments@.subrange(0, index as int)),
        decreases segments@.len() - index,
    {
        proof {
            assert(segments@.subrange(0, index + 1).drop_last() =~= segments@.subrange(
                0,
                index as int,
            ));
        }
        match segments[index] {
            DataSegment::ZlibBlock(block) => blocks.push(block),
            DataSegment::UnresolvedGap(_) => {},
        }
        index += 1;
    }
    assert(segments@.subrange(0, index as int) =~= segments@);
    blocks
}

/// Collects the unresolved gaps among `segments`, in order.
pub fn segment_unresolved_gaps(segments: &[DataSegment]) -> (gaps: Vec<UnresolvedGap>)
    ensures
        gaps@ == spec_unresolved_gaps(segments@),
{
    let mut gaps: Vec<UnresolvedGap> = Vec::new();
    let mut index: usize = 0;
    while index < segments.len()
        invariant
            index <= segments@.len(),
            gaps@ == spec_unresolved_gaps(segments@.subrange(0, index as int)),
        decreases segments@.len() - index,
    {
        proof {
            assert(segments@.subrange(0, index + 1).drop_last() =~= segments@.subrange(
                0,
                index as int,
            ));
        }
        match segments[index] {
            DataSegment::ZlibBlock(_) => {},
            DataSegment::UnresolvedGap(gap) => gaps.push(gap),
        }
        index += 1;
    }
    assert(segments@.subrange(0, index as int) =~= segments@);
    gaps
}

impl ScannedDataFile {
    /// The MWC blocks of this file, in file order.
    pub fn zlib_blocks(&self) -> (blocks: Vec<MwcBlock>)
        ensures
            blocks@ == spec_zlib_blocks(self.segments@),
    {
        segment_zlib_blocks(self.segments.as_slice())
    }

    /// The unresolved gaps of this file, in file order.
    pub fn unresolved_gaps(&self) -> (gaps: Vec<UnresolvedGap>)
        ensures
            gaps@ == spec_unresolved_gaps(self.segments@),
    {
        segment_unresolved_gaps(self.segments.as_slice())
    }
}

// ---------------------------------------------------------------------------
// Bounded zlib decoding
// ---------------------------------------------------------------------------

/// What flate2's zlib decoder produces from `payload` when reading through a limit of
/// `limit` bytes: the decoded bytes, or the text of the decoder's error.
pub uninterp spec fn zlib_inflate_limited(payload: Seq<u8>, limit: nat) -> Result<
    Seq<u8>,
    Seq<char>,
>;

/// Calls `flate2::read::ZlibDecoder::new(payload)`, limits it with `Read::take(limit)` and
/// reads it to the end. The result is the decoder's output, or the `to_string` of its error;
/// it is named by `zlib_inflate_limited`. `take` documents that at most `limit` bytes are read.
#[verifier::external_body]
fn inflate_zlib_limited(payload: &[u8], limit: u64) -> (result: Result<Vec<u8>, String>)
    ensures
        match result {
            Ok(output) => zlib_inflate_limited(payload@, limit as nat) == Ok::<
                Seq<u8>,
                Seq<char>,
            >(output@) && output@.len() <= limit,
            Err(message) => zlib_inflate_limited(payload@, limit as nat) == Err::<
                Seq<u8>,
                Seq<char>,
            >(message@),
        },
{
    let mut output = Vec::new();
    match ZlibDecoder::new(payload).take(limit).read_to_end(&mut output) {
        Ok(_) => Ok(output),
        Err(error) => Err(error.to_string()),
    }
}

/// The outcome of inflating an exactly sized payload: the decoded bytes when the decoder
/// succeeds with exactly the declared size, else the matching error.
pub open spec fn inflate_outcome(
    block: MwcBlock,
    payload: Seq<u8>,
    result: Result<Vec<u8>, BlockDecodeError>,
) -> bool {
    match zlib_inflate_limited(payload, block.uncompressed_size as nat + 1) {
        Err(message) => result matches Err(BlockDecodeError::InvalidZlib { location, message: m })
            && location == block.location && m@ == message,
        Ok(output) => if output.len() == block.uncompressed_size {
            result matches Ok(bytes) && bytes@ == output
        } else {
            result matches Err(e) && e == BlockDecodeError::OutputSizeMismatch {
                location: block.location,
                expected_size: block.uncompressed_size,
                actual_size: output.len() as usize,
            }
        },
    }
}

/// What decoding `block` from the bytes of its whole data file yields under an output limit of
/// `max_output_size` bytes.
pub open spec fn block_decode_outcome(
    block: MwcBlock,
    file_bytes: Seq<u8>,
    max_output_size: usize,
    result: Result<Vec<u8>, BlockDecodeError>,
) -> bool {
    let payload_end = block.payload_offset + block.compressed_size;
    &&& block.uncompressed_size > max_output_size ==> (result matches Err(e) && e
        == block.limit_error(max_output_size))
    &&& block.uncompressed_size <= max_output_size && payload_end > file_bytes.len() ==> (
    result matches Err(e) && e == block.bounds_error(file_bytes.len() as usize))
    &&& block.uncompressed_size <= max_output_size && payload_end <= file_bytes.len()
        ==> inflate_outcome(block, file_bytes.subrange(block.payload_offset as int, payload_end), result)
}

/// What decoding `payload`, the exact compressed bytes of `block`, yields under an output limit
/// of `max_output_size` bytes.
pub open spec fn payload_decode_outcome(
    block: MwcBlock,
    payload: Seq<u8>,
    max_output_size: usize,
    result: Result<Vec<u8>, BlockDecodeError>,
) -> bool {
    &&& block.uncompressed_size > max_output_size ==> (result matches Err(e) && e
        == block.limit_error(max_output_size))
    &&& block.uncompressed_size <= max_output_size && payload.len() != block.compressed_size
        ==> (result matches Err(e) && e == (BlockDecodeError::PayloadSizeMismatch {
        location: block.location,
        expected_size: block.compressed_size,
        actual_size: payload.len() as usize,
    }))
    &&& block.uncompressed_size <= max_output_size && payload.len() == block.compressed_size
        ==> inflate_outcome(block, payload, result)
}

impl MwcBlock {
    pub open spec fn limit_error(self, max_output_size: usize) -> BlockDecodeError {
        BlockDecodeError::OutputLimitExceeded {
            location: self.location,
            declared_size: self.uncompressed_size,
            max_output_size,
        }
    }

    pub open spec fn bounds_error(self, file_size: usize) -> BlockDecodeError {
        BlockDecodeError::PayloadOutOfBounds {
            location: self.location,
            payload_offset: self.payload_offset,
            compressed_size: self.compressed_size,
            file_size,
        }
    }

    /// Decompresses a block without allowing output beyond the caller's limit.
    pub fn decode(&self, file_bytes: &[u8], max_output_size: usize) -> (decoded: Result<
        Vec<u8>,
        BlockDecodeError,
    >)
        ensures
            block_decode_outcome(*self, file_bytes@, max_output_size, decoded),
    {
        let declared_size = self.uncompressed_size as usize;
        if declared_size > max_output_size {
            return Err(
                BlockDecodeError::OutputLimitExceeded {
                    location: self.location,
                    declared_size: self.uncompressed_size,
                    max_output_size,
                },
            );
        }
        let compressed_size = self.compressed_size as usize;
        let out_of_bounds = BlockDecodeError::PayloadOutOfBounds {
            location: self.location,
            payload_offset: self.payload_offset,
            compressed_size: self.compressed_size,
            file_size: file_bytes.len(),
        };
        let payload_end = match self.payload_offset.checked_add(compressed_size) {
            Some(end) => end,
            None => return Err(out_of_bounds),
        };
        if payload_end > file_bytes.len() {
            return Err(out_of_bounds);
        }
        let payload = &file_bytes[self.payload_offset..payload_end];
        self.decode_payload_with_size(payload, declared_size)
    }

    /// Decompresses an exact compressed payload read independently from its data file.
    pub fn decode_payload(&self, payload: &[u8], max_output_size: usize) -> (decoded: Result<
        Vec<u8>,
        BlockDecodeError,
    >)
        ensures
            payload_decode_outcome(*self, payload@, max_output_size, decoded),
    {
        let declared_size = self.uncompressed_size as usize;
        if declared_size > max_output_size {
            return Err(
                BlockDecodeError::OutputLimitExceeded {
                    location: self.location,
                    declared_size: self.uncompressed_size,
                    max_output_size,
                },
            );
        }
        let compressed_size = self.compressed_size as usize;
        if payload.len() != compressed_size {
            return Err(
                BlockDecodeError::PayloadSizeMismatch {
                    location: self.location,
                    expected_size: self.compressed_size,
                    actual_size: payload.len(),
                },
            );
        }
        self.decode_payload_with_size(payload, declared_size)
    }

    fn decode_payload_with_size(&self, payload: &[u8], declared_size: usize) -> (decoded: Result<
        Vec<u8>,
        BlockDecodeError,
    >)
        requires
            declared_size == self.uncompressed_size,
        ensures
            inflate_outcome(*self, payload@, decoded),
    {
        let output_cap = self.uncompressed_size as u64 + 1;
        match inflate_zlib_limited(payload, output_cap) {
            Err(message) => Err(BlockDecodeError::InvalidZlib { location: self.location, message }),
            Ok(output) => {
                if output.len() != declared_size {
                    Err(
                        BlockDecodeError::OutputSizeMismatch {
                            location: self.location,
                            expected_size: self.uncompressed_size,
                            actual_size: output.len(),
                        },
                    )
                } else {
                    Ok(output)
                }
            },
        }
    }
}

/// Decoding a block from its exact payload, read apart from its data file, gives what decoding
/// it from the whole data file gives.
pub proof fn lemma_payload_decode_matches_file_decode(
    block: MwcBlock,
    file_bytes: Seq<u8>,
    max_output_size: usize,
    result: Result<Vec<u8>, BlockDecodeError>,
)
    requires
        block.payload_offset + block.compressed_size <= file_bytes.len(),
    ensures
        payload_decode_outcome(
            block,
            file_bytes.subrange(block.payload_offset as int, block.payload_offset + block.compressed_size),
            max_output_size,
            result,
        ) <==> block_decode_outcome(block, file_bytes, max_output_size, result),
{
}

/// Copies the exact stored range `[offset, offset + len)` out of a file's bytes.
pub fn stored_range(file_bytes: &[u8], offset: usize, len: usize) -> (range: Vec<u8>)
    requires
        offset + len <= file_bytes@.len(),
    ensures
        range@ == file_bytes@.subrange(offset as int, offset + len),
{
    let size = file_bytes.len();
    copy_bytes(&file_bytes[offset..offset + len])
}

} // verus!
