//! Cross-validation of an index with the ordered segments of its numbered data files.

use crate::block::{
    segment_unresolved_gaps, segment_zlib_blocks, spec_unresolved_gaps, spec_zlib_blocks,
    BlockDecodeError, BlockLocation, DataSegment, MwcBlock, ScannedDataFile, UnresolvedGap,
    zlib_inflate_limited, lemma_blocks_and_gaps_count,
};
use crate::bytes::copy_bytes;
use crate::index::{ArchiveHeader, IndexRecord, IndexedArchive};
use std::collections::HashSet;
use vstd::prelude::*;
use vstd::std_specs::hash::group_hash_axioms;

verus! {

broadcast use group_hash_axioms;

/// A block whose position in the archive stream has been established.
#[derive(Debug, Clone, Copy, PartialEq, Eq, Structural)]
pub struct ArchiveBlock {
    /// The global index is absent when unresolved data prevents a reliable ordering.
    pub block_index: Option<u32>,
    pub kind: ArchiveBlockKind,
}

/// A headerless block whose resource meaning was established by cross-validation.
#[derive(Debug, Clone, Copy, PartialEq, Eq, Structural)]
pub struct RawBlock {
    pub location: BlockLocation,
    pub len: usize,
}

impl RawBlock {
    fn from_gap(gap: UnresolvedGap) -> (raw: Self)
        ensures
            raw == Self::spec_from_gap(gap),
    {
        RawBlock { location: gap.location, len: gap.len }
    }

    pub open spec fn spec_from_gap(gap: UnresolvedGap) -> Self {
        RawBlock { location: gap.location, len: gap.len }
    }

    pub fn location(self) -> (location: BlockLocation)
        ensures
            location == self.location,
    {
        self.location
    }

    pub fn len(self) -> (len: usize)
        ensures
            len == self.len,
    {
        self.len
    }

    pub fn is_empty(self) -> (empty: bool)
        ensures
            empty == (self.len == 0),
    {
        self.len == 0
    }
}

/// The storage form of one logical image block.
#[derive(Debug, Clone, Copy, PartialEq, Eq, Structural)]
pub enum ArchiveBlockKind {
    Zlib(MwcBlock),
    Raw(RawBlock),
}

/// Failures found while obtaining bytes from a resolved archive block.
#[derive(Debug, Clone, PartialEq, Eq)]
pub enum ArchiveBlockDecodeError {
    Zlib(BlockDecodeError),
    OutputLimitExceeded { location: BlockLocation, block_size: usize, max_output_size: usize },
    RawDataEndOverflow { location: BlockLocation, block_size: usize },
    RawDataOutOfBounds { location: BlockLocation, block_size: usize, file_size: usize },
    StoredSizeMismatch { location: BlockLocation, expected_size: usize, actual_size: usize },
}

/// The outcome of inflating an exactly sized zlib payload, with block errors carried by
/// `ArchiveBlockDecodeError::Zlib`.
pub open spec fn zlib_decode_outcome(
    block: MwcBlock,
    payload: Seq<u8>,
    result: Result<Vec<u8>, ArchiveBlockDecodeError>,
) -> bool {
    match zlib_inflate_limited(payload, block.uncompressed_size as nat + 1) {
        Err(message) => result matches Err(
            ArchiveBlockDecodeError::Zlib(BlockDecodeError::InvalidZlib { location, message: m }),
        ) && location == block.location && m@ == message,
        Ok(output) => if output.len() == block.uncompressed_size {
            result matches Ok(bytes) && bytes@ == output
        } else {
            result matches Err(ArchiveBlockDecodeError::Zlib(e)) && e
                == BlockDecodeError::OutputSizeMismatch {
                location: block.location,
                expected_size: block.uncompressed_size,
                actual_size: output.len() as usize,
            }
        },
    }
}

/// What decoding `stored`, the bytes previously read from this block's stored range, yields
/// under an output limit of `max_output_size` bytes.
pub open spec fn decode_stored_outcome(
    kind: ArchiveBlockKind,
    stored: Seq<u8>,
    max_output_size: usize,
    result: Result<Vec<u8>, ArchiveBlockDecodeError>,
) -> bool {
    match kind {
        ArchiveBlockKind::Zlib(block) => {
            &&& block.uncompressed_size > max_output_size ==> (result matches Err(
                ArchiveBlockDecodeError::Zlib(e),
            ) && e == block.limit_error(max_output_size))
            &&& block.uncompressed_size <= max_output_size && stored.len()
                != block.compressed_size ==> (result matches Err(
                ArchiveBlockDecodeError::Zlib(e),
            ) && e == (BlockDecodeError::PayloadSizeMismatch {
                location: block.location,
                expected_size: block.compressed_size,
                actual_size: stored.len() as usize,
            }))
            &&& block.uncompressed_size <= max_output_size && stored.len()
                == block.compressed_size ==> zlib_decode_outcome(block, stored, result)
        },
        ArchiveBlockKind::Raw(block) => {
            &&& block.len > max_output_size ==> result == Err::<
                Vec<u8>,
                ArchiveBlockDecodeError,
            >(
                ArchiveBlockDecodeError::OutputLimitExceeded {
                    location: block.location,
                    block_size: block.len,
                    max_output_size,
                },
            )
            &&& block.len <= max_output_size && stored.len() != block.len
                ==> result == Err::<Vec<u8>, ArchiveBlockDecodeError>(
                ArchiveBlockDecodeError::StoredSizeMismatch {
                    location: block.location,
                    expected_size: block.len,
                    actual_size: stored.len() as usize,
                },
            )
            &&& block.len <= max_output_size && stored.len() == block.len ==> (
            result matches Ok(bytes) && bytes@ == stored)
        },
    }
}

/// What decoding `kind` from the bytes of its whole data file yields under an output limit of
/// `max_output_size` bytes.
pub open spec fn file_decode_outcome(
    kind: ArchiveBlockKind,
    file_bytes: Seq<u8>,
    max_output_size: usize,
    result: Result<Vec<u8>, ArchiveBlockDecodeError>,
) -> bool {
    match kind {
        ArchiveBlockKind::Zlib(block) => {
            &&& block.uncompressed_size > max_output_size ==> (result matches Err(
                ArchiveBlockDecodeError::Zlib(e),
            ) && e == block.limit_error(max_output_size))
            &&& block.uncompressed_size <= max_output_size && block.payload_offset
                + block.compressed_size > file_bytes.len() ==> (result matches Err(
                ArchiveBlockDecodeError::Zlib(e),
            ) && e == block.bounds_error(file_bytes.len() as usize))
            &&& block.uncompressed_size <= max_output_size && block.payload_offset
                + block.compressed_size <= file_bytes.len() ==> zlib_decode_outcome(
                block,
                file_bytes.subrange(
                    block.payload_offset as int,
                    block.payload_offset + block.compressed_size,
                ),
                result,
            )
        },
        ArchiveBlockKind::Raw(block) => {
            &&& block.len > max_output_size ==> result == Err::<
                Vec<u8>,
                ArchiveBlockDecodeError,
            >(
                ArchiveBlockDecodeError::OutputLimitExceeded {
                    location: block.location,
                    block_size: block.len,
                    max_output_size,
                },
            )
            &&& block.len <= max_output_size && block.location.offset + block.len
                > usize::MAX ==> result == Err::<Vec<u8>, ArchiveBlockDecodeError>(
                ArchiveBlockDecodeError::RawDataEndOverflow {
                    location: block.location,
                    block_size: block.len,
                },
            )
            &&& block.len <= max_output_size && block.location.offset + block.len
                <= usize::MAX && block.location.offset + block.len > file_bytes.len()
                ==> result == Err::<Vec<u8>, ArchiveBlockDecodeError>(
                ArchiveBlockDecodeError::RawDataOutOfBounds {
                    location: block.location,
                    block_size: block.len,
                    file_size: file_bytes.len() as usize,
                },
            )
            &&& block.len <= max_output_size && block.location.offset + block.len
                <= file_bytes.len() ==> (result matches Ok(bytes) && bytes@
                == file_bytes.subrange(
                block.location.offset as int,
                block.location.offset + block.len,
            ))
        },
    }
}

impl ArchiveBlockKind {
    pub open spec fn spec_location(self) -> BlockLocation {
        match self {
            ArchiveBlockKind::Zlib(block) => block.location,
            ArchiveBlockKind::Raw(block) => block.location,
        }
    }

    pub open spec fn spec_uncompressed_size(self) -> u64 {
        match self {
            ArchiveBlockKind::Zlib(block) => block.uncompressed_size as u64,
            ArchiveBlockKind::Raw(block) => block.len as u64,
        }
    }

    pub open spec fn spec_stored_offset(self) -> usize {
        match self {
            ArchiveBlockKind::Zlib(block) => block.payload_offset,
            ArchiveBlockKind::Raw(block) => block.location.offset,
        }
    }

    pub open spec fn spec_stored_size(self) -> usize {
        match self {
            ArchiveBlockKind::Zlib(block) => block.compressed_size as usize,
            ArchiveBlockKind::Raw(block) => block.len,
        }
    }

    /// Byte position of this block in its numbered data file.
    pub fn location(self) -> (location: BlockLocation)
        ensures
            location == self.spec_location(),
    {
        match self {
            ArchiveBlockKind::Zlib(block) => block.location,
            ArchiveBlockKind::Raw(block) => block.location,
        }
    }

    /// Number of bytes made available after decoding the block.
    pub fn uncompressed_size(self) -> (size: u64)
        ensures
            size == self.spec_uncompressed_size(),
    {
        match self {
            ArchiveBlockKind::Zlib(block) => block.uncompressed_size as u64,
            ArchiveBlockKind::Raw(block) => block.len as u64,
        }
    }

    /// Byte offset where the stored payload for this block begins.
    pub fn stored_offset(self) -> (offset: usize)
        ensures
            offset == self.spec_stored_offset(),
    {
        match self {
            ArchiveBlockKind::Zlib(block) => block.payload_offset,
            ArchiveBlockKind::Raw(block) => block.location.offset,
        }
    }

    /// Number of stored bytes that must be read before decoding this block.
    pub fn stored_size(self) -> (size: usize)
        ensures
            size == self.spec_stored_size(),
    {
        match self {
            ArchiveBlockKind::Zlib(block) => block.compressed_size as usize,
            ArchiveBlockKind::Raw(block) => block.len,
        }
    }

    /// Decodes only the exact stored range previously read for this block.
    pub fn decode_stored(self, stored_bytes: &[u8], max_output_size: usize) -> (decoded: Result<
        Vec<u8>,
        ArchiveBlockDecodeError,
    >)
        ensures
            decode_stored_outcome(self, stored_bytes@, max_output_size, decoded),
    {
        match self {
            ArchiveBlockKind::Zlib(block) => {
                let inner = block.decode_payload(stored_bytes, max_output_size);
                match inner {
                    Ok(bytes) => Ok(bytes),
                    Err(error) => Err(ArchiveBlockDecodeError::Zlib(error)),
                }
            },
            ArchiveBlockKind::Raw(block) => {
                if block.len > max_output_size {
                    return Err(
                        ArchiveBlockDecodeError::OutputLimitExceeded {
                            location: block.location,
                            block_size: block.len,
                            max_output_size,
                        },
                    );
                }
                if stored_bytes.len() != block.len {
                    return Err(
                        ArchiveBlockDecodeError::StoredSizeMismatch {
                            location: block.location,
                            expected_size: block.len,
                            actual_size: stored_bytes.len(),
                        },
                    );
                }
                Ok(copy_bytes(stored_bytes))
            },
        }
    }

    /// Returns decoded bytes with one output limit for compressed and raw storage.
    pub fn decode(self, file_bytes: &[u8], max_output_size: usize) -> (decoded: Result<
        Vec<u8>,
        ArchiveBlockDecodeError,
    >)
        ensures
            file_decode_outcome(self, file_bytes@, max_output_size, decoded),
    {
        match self {
            ArchiveBlockKind::Zlib(block) => {
                let inner = block.decode(file_bytes, max_output_size);
                match inner {
                    Ok(bytes) => Ok(bytes),
                    Err(error) => Err(ArchiveBlockDecodeError::Zlib(error)),
                }
            },
            ArchiveBlockKind::Raw(block) => {
                if block.len > max_output_size {
                    return Err(
                        ArchiveBlockDecodeError::OutputLimitExceeded {
                            location: block.location,
                            block_size: block.len,
                            max_output_size,
                        },
                    );
                }
                let file_size = file_bytes.len();
                let end = match block.location.offset.checked_add(block.len) {
                    Some(end) => end,
                    None => {
                        return Err(
                            ArchiveBlockDecodeError::RawDataEndOverflow {
                                location: block.location,
                                block_size: block.len,
                            },
                        );
                    },
                };
                if end > file_bytes.len() {
                    return Err(
                        ArchiveBlockDecodeError::RawDataOutOfBounds {
                            location: block.location,
                            block_size: block.len,
                            file_size: file_bytes.len(),
                        },
                    );
                }
                Ok(copy_bytes(&file_bytes[block.location.offset..end]))
            },
        }
    }
}

/// Cross-validated archive structure without ownership of the game file bytes.
#[derive(Debug, Clone, PartialEq, Eq)]
pub struct ArchiveLayout {
    pub blocks: Vec<ArchiveBlock>,
    pub unresolved_gaps: Vec<UnresolvedGap>,
    pub diagnostics: Vec<ArchiveDiagnostic>,
    pub block_order_resolved: bool,
}

impl ArchiveLayout {
    pub open spec fn spec_block_order_resolved(&self) -> bool {
        self.block_order_resolved
    }

    /// Whether every returned block has a reliable global index.
    pub fn has_resolved_block_order(&self) -> (resolved: bool)
        ensures
            resolved == self.spec_block_order_resolved(),
    {
        self.block_order_resolved
    }
}

/// Facts that disagree while connecting an index to its data files.
#[derive(Debug, Clone, Copy, PartialEq, Eq, Structural)]
pub enum ArchiveDiagnostic {
    ArchiveFileCountMismatch { expected: u32, actual: usize },
    DataFileNumberMismatch { position: usize, expected: u32, actual: u32 },
    UnexpectedDataFile { file_number: u32 },
    GroupCountMismatch { expected: u32, actual: usize },
    LogicalBlockCountMismatch { expected: u32, zlib_blocks: usize, unresolved_gaps: usize },
    RawGapNotReferenced { gap: UnresolvedGap, candidate_block_index: u32 },
    RawGapCandidateInconsistent { gap: UnresolvedGap, candidate_block_index: u32 },
    RecordBlockIndexOutOfRange { record_position: usize, block_index: u32, block_count: u32 },
    ImageByteSizeOverflow { record_position: usize, width: u32, height: u32 },
    ImageSizeMismatch {
        record_position: usize,
        block_index: u32,
        expected_size: u64,
        actual_size: u64,
    },
}

// ---------------------------------------------------------------------------
// Specification of the layout
// ---------------------------------------------------------------------------

/// Decoded RGBA byte count of a `width` x `height` image, if it fits in `u64`.
pub open spec fn spec_image_byte_size(width: u32, height: u32) -> Option<u64> {
    let size = width as int * height as int * 4;
    if size > u64::MAX {
        None
    } else {
        Some(size as u64)
    }
}

/// The distinct group codes of `records`.
pub open spec fn group_code_set(records: Seq<IndexRecord>) -> Set<u32>
    decreases records.len(),
{
    if records.len() == 0 {
        Set::empty()
    } else {
        group_code_set(records.drop_last()).insert(records.last().group_code)
    }
}

pub open spec fn group_diagnostics(header: ArchiveHeader, records: Seq<IndexRecord>) -> Seq<
    ArchiveDiagnostic,
> {
    let actual = group_code_set(records).len();
    if actual != header.group_count {
        seq![ArchiveDiagnostic::GroupCountMismatch { expected: header.group_count, actual: actual as usize }]
    } else {
        Seq::empty()
    }
}

pub open spec fn is_main_file(header: ArchiveHeader, file: ScannedDataFile) -> bool {
    0 < file.file_number <= header.archive_count
}

/// The declared data files (numbered `1..=archive_count`), in input order.
pub open spec fn main_files(header: ArchiveHeader, files: Seq<ScannedDataFile>) -> Seq<
    ScannedDataFile,
>
    decreases files.len(),
{
    if files.len() == 0 {
        Seq::empty()
    } else {
        let rest = main_files(header, files.drop_last());
        if is_main_file(header, files.last()) {
            rest.push(files.last())
        } else {
            rest
        }
    }
}

/// One diagnostic for every data file outside `1..=archive_count`, in input order.
pub open spec fn unexpected_file_diagnostics(
    header: ArchiveHeader,
    files: Seq<ScannedDataFile>,
) -> Seq<ArchiveDiagnostic>
    decreases files.len(),
{
    if files.len() == 0 {
        Seq::empty()
    } else {
        let rest = unexpected_file_diagnostics(header, files.drop_last());
        if is_main_file(header, files.last()) {
            rest
        } else {
            rest.push(ArchiveDiagnostic::UnexpectedDataFile { file_number: files.last().file_number })
        }
    }
}

/// Inserts `file` after every file whose number is not greater than its own.
pub open spec fn insert_by_number(sorted: Seq<ScannedDataFile>, file: ScannedDataFile) -> Seq<
    ScannedDataFile,
>
    decreases sorted.len(),
{
    if sorted.len() == 0 {
        seq![file]
    } else if sorted.last().file_number > file.file_number {
        insert_by_number(sorted.drop_last(), file).push(sorted.last())
    } else {
        sorted.push(file)
    }
}

/// `files` ordered by file number; files with equal numbers keep their input order.
pub open spec fn sort_by_number(files: Seq<ScannedDataFile>) -> Seq<ScannedDataFile>
    decreases files.len(),
{
    if files.len() == 0 {
        Seq::empty()
    } else {
        insert_by_number(sort_by_number(files.drop_last()), files.last())
    }
}

pub open spec fn expected_file_number(position: int) -> u32 {
    if position + 1 > u32::MAX {
        u32::MAX
    } else {
        (position + 1) as u32
    }
}

/// Diagnostics for files whose position in number order does not match their number.
pub open spec fn number_diagnostics(sorted: Seq<ScannedDataFile>) -> Seq<ArchiveDiagnostic>
    decreases sorted.len(),
{
    if sorted.len() == 0 {
        Seq::empty()
    } else {
        let position = sorted.len() - 1;
        let rest = number_diagnostics(sorted.drop_last());
        if sorted.last().file_number != expected_file_number(position) {
            rest.push(
                ArchiveDiagnostic::DataFileNumberMismatch {
                    position: position as usize,
                    expected: expected_file_number(position),
                    actual: sorted.last().file_number,
                },
            )
        } else {
            rest
        }
    }
}

/// The declared files are exactly `1..=archive_count`, each present once.
pub open spec fn file_set_is_complete(header: ArchiveHeader, sorted: Seq<ScannedDataFile>) -> bool {
    &&& sorted.len() == header.archive_count
    &&& forall|p: int| 0 <= p < sorted.len() ==> #[trigger] sorted[p].file_number == expected_file_number(p)
}

pub open spec fn count_diagnostics(header: ArchiveHeader, sorted: Seq<ScannedDataFile>) -> Seq<
    ArchiveDiagnostic,
> {
    if sorted.len() != header.archive_count {
        seq![ArchiveDiagnostic::ArchiveFileCountMismatch { expected: header.archive_count, actual: sorted.len() as usize }]
    } else {
        Seq::empty()
    }
}

/// All segments of `files`, file after file.
pub open spec fn concat_segments(files: Seq<ScannedDataFile>) -> Seq<DataSegment>
    decreases files.len(),
{
    if files.len() == 0 {
        Seq::empty()
    } else {
        concat_segments(files.drop_last()) + files.last().segments@
    }
}

pub open spec fn segment_kind(segment: DataSegment) -> ArchiveBlockKind {
    match segment {
        DataSegment::ZlibBlock(block) => ArchiveBlockKind::Zlib(block),
        DataSegment::UnresolvedGap(gap) => ArchiveBlockKind::Raw(RawBlock::spec_from_gap(gap)),
    }
}

pub open spec fn is_raw(kind: ArchiveBlockKind) -> bool {
    kind matches ArchiveBlockKind::Raw(_)
}

/// Position of the first raw kind in `kinds`.
pub open spec fn first_raw_position(kinds: Seq<ArchiveBlockKind>) -> int
    decreases kinds.len(),
{
    if kinds.len() == 0 {
        0
    } else if is_raw(kinds[0]) {
        0
    } else {
        1 + first_raw_position(kinds.drop_first())
    }
}

/// Whether every record names an existing candidate block whose decoded size equals the
/// RGBA size of the record's dimensions.
pub open spec fn record_matches_kinds(record: IndexRecord, kinds: Seq<ArchiveBlockKind>) -> bool {
    &&& (record.block_index as int) < kinds.len()
    &&& spec_image_byte_size(record.width, record.height) matches Some(size)
    &&& size == kinds[record.block_index as int].spec_uncompressed_size()
}

pub open spec fn records_match_kinds(records: Seq<IndexRecord>, kinds: Seq<ArchiveBlockKind>) -> bool {
    forall|i: int| 0 <= i < records.len() ==> record_matches_kinds(#[trigger] records[i], kinds)
}

pub open spec fn block_index_referenced(records: Seq<IndexRecord>, block_index: u32) -> bool {
    exists|i: int| 0 <= i < records.len() && #[trigger] records[i].block_index == block_index
}

/// The decision on a single unresolved gap: the candidate kinds when the gap is referenced
/// and every record agrees with the candidate order, otherwise the diagnostic explaining why not.
pub open spec fn single_gap_resolution(
    records: Seq<IndexRecord>,
    segments: Seq<DataSegment>,
    gap: UnresolvedGap,
) -> (Option<Seq<ArchiveBlockKind>>, Seq<ArchiveDiagnostic>) {
    let kinds = segments.map_values(|s: DataSegment| segment_kind(s));
    let candidate = first_raw_position(kinds) as u32;
    if !block_index_referenced(records, candidate) {
        (
            None,
            seq![ArchiveDiagnostic::RawGapNotReferenced { gap, candidate_block_index: candidate }],
        )
    } else if !records_match_kinds(records, kinds) {
        (
            None,
            seq![ArchiveDiagnostic::RawGapCandidateInconsistent { gap, candidate_block_index: candidate }],
        )
    } else {
        (Some(kinds), Seq::empty())
    }
}

/// Per-record diagnostics against resolved blocks.
pub open spec fn record_diagnostics(
    header: ArchiveHeader,
    records: Seq<IndexRecord>,
    kinds: Seq<ArchiveBlockKind>,
) -> Seq<ArchiveDiagnostic>
    decreases records.len(),
{
    if records.len() == 0 {
        Seq::empty()
    } else {
        let rest = record_diagnostics(header, records.drop_last(), kinds);
        let position = (records.len() - 1) as usize;
        let record = records.last();
        if record.block_index >= kinds.len() {
            rest.push(
                ArchiveDiagnostic::RecordBlockIndexOutOfRange {
                    record_position: position,
                    block_index: record.block_index,
                    block_count: header.image_block_count,
                },
            )
        } else {
            match spec_image_byte_size(record.width, record.height) {
                None => rest.push(
                    ArchiveDiagnostic::ImageByteSizeOverflow {
                        record_position: position,
                        width: record.width,
                        height: record.height,
                    },
                ),
                Some(size) => {
                    let actual = kinds[record.block_index as int].spec_uncompressed_size();
                    if size != actual {
                        rest.push(
                            ArchiveDiagnostic::ImageSizeMismatch {
                                record_position: position,
                                block_index: record.block_index,
                                expected_size: size,
                                actual_size: actual,
                            },
                        )
                    } else {
                        rest
                    }
                },
            }
        }
    }
}

/// Per-record diagnostics when no reliable block order exists.
pub open spec fn record_range_diagnostics(header: ArchiveHeader, records: Seq<IndexRecord>) -> Seq<
    ArchiveDiagnostic,
>
    decreases records.len(),
{
    if records.len() == 0 {
        Seq::empty()
    } else {
        let rest = record_range_diagnostics(header, records.drop_last());
        let position = (records.len() - 1) as usize;
        let record = records.last();
        let with_range = if record.block_index >= header.image_block_count {
            rest.push(
                ArchiveDiagnostic::RecordBlockIndexOutOfRange {
                    record_position: position,
                    block_index: record.block_index,
                    block_count: header.image_block_count,
                },
            )
        } else {
            rest
        };
        if spec_image_byte_size(record.width, record.height) is None {
            with_range.push(
                ArchiveDiagnostic::ImageByteSizeOverflow {
                    record_position: position,
                    width: record.width,
                    height: record.height,
                },
            )
        } else {
            with_range
        }
    }
}

pub open spec fn indexed_blocks(kinds: Seq<ArchiveBlockKind>) -> Seq<ArchiveBlock> {
    Seq::new(kinds.len(), |i: int| ArchiveBlock { block_index: Some(i as u32), kind: kinds[i] })
}

pub open spec fn unindexed_blocks(blocks: Seq<MwcBlock>) -> Seq<ArchiveBlock> {
    Seq::new(
        blocks.len(),
        |i: int| ArchiveBlock { block_index: None, kind: ArchiveBlockKind::Zlib(blocks[i]) },
    )
}

/// The gaps other than `raw`, in order.
pub open spec fn gaps_without(gaps: Seq<UnresolvedGap>, raw: UnresolvedGap) -> Seq<UnresolvedGap>
    decreases gaps.len(),
{
    if gaps.len() == 0 {
        Seq::empty()
    } else {
        let rest = gaps_without(gaps.drop_last(), raw);
        if gaps.last() == raw {
            rest
        } else {
            rest.push(gaps.last())
        }
    }
}

/// The gap that the first raw kind of `kinds` was promoted from, if there is a raw kind.
pub open spec fn first_raw_gap(kinds: Seq<ArchiveBlockKind>) -> Option<UnresolvedGap>
    decreases kinds.len(),
{
    if kinds.len() == 0 {
        None
    } else {
        match kinds[0] {
            ArchiveBlockKind::Raw(raw) => Some(UnresolvedGap { location: raw.location, len: raw.len }),
            ArchiveBlockKind::Zlib(_) => first_raw_gap(kinds.drop_first()),
        }
    }
}

/// The resolved kinds, if the blocks of the declared files can be given a reliable global order.
pub open spec fn resolved_kinds(
    index: IndexedArchive,
    files: Seq<ScannedDataFile>,
) -> (Option<Seq<ArchiveBlockKind>>, Seq<ArchiveDiagnostic>) {
    let header = index.header;
    let sorted = sort_by_number(main_files(header, files));
    let segments = concat_segments(sorted);
    let zlib = spec_zlib_blocks(segments);
    let gaps = spec_unresolved_gaps(segments);
    let complete = file_set_is_complete(header, sorted);
    if complete && zlib.len() == header.image_block_count {
        (Some(zlib.map_values(|b: MwcBlock| ArchiveBlockKind::Zlib(b))), Seq::empty())
    } else if complete && gaps.len() == 1 && zlib.len() + 1 == header.image_block_count {
        single_gap_resolution(index.records@, segments, gaps[0])
    } else {
        (None, Seq::empty())
    }
}

/// The diagnostics found before the block order is decided.
pub open spec fn structure_diagnostics(index: IndexedArchive, files: Seq<ScannedDataFile>) -> Seq<
    ArchiveDiagnostic,
> {
    let header = index.header;
    let sorted = sort_by_number(main_files(header, files));
    group_diagnostics(header, index.records@) + unexpected_file_diagnostics(header, files)
        + count_diagnostics(header, sorted) + number_diagnostics(sorted)
}

/// The complete layout: blocks, gaps left unresolved, diagnostics in discovery order, and
/// whether the block order was resolved.
pub open spec fn spec_layout(index: IndexedArchive, files: Seq<ScannedDataFile>) -> (
    Seq<ArchiveBlock>,
    Seq<UnresolvedGap>,
    Seq<ArchiveDiagnostic>,
    bool,
) {
    let header = index.header;
    let sorted = sort_by_number(main_files(header, files));
    let segments = concat_segments(sorted);
    let zlib = spec_zlib_blocks(segments);
    let gaps = spec_unresolved_gaps(segments);
    let before = structure_diagnostics(index, files);
    let (resolved, resolution_diagnostics) = resolved_kinds(index, files);
    match resolved {
        Some(kinds) => {
            let remaining = match first_raw_gap(kinds) {
                Some(raw) => gaps_without(gaps, raw),
                None => gaps,
            };
            (
                indexed_blocks(kinds),
                remaining,
                before + resolution_diagnostics + record_diagnostics(header, index.records@, kinds),
                true,
            )
        },
        None => {
            let count = if zlib.len() != header.image_block_count {
                seq![ArchiveDiagnostic::LogicalBlockCountMismatch { expected: header.image_block_count, zlib_blocks: zlib.len() as usize, unresolved_gaps: gaps.len() as usize }]
            } else {
                Seq::empty()
            };
            (
                unindexed_blocks(zlib),
                gaps,
                before + resolution_diagnostics + count + record_range_diagnostics(
                    header,
                    index.records@,
                ),
                false,
            )
        },
    }
}


// ---------------------------------------------------------------------------
// Building the layout
// ---------------------------------------------------------------------------

/// The files named by `positions`, in that order.
pub open spec fn files_at(files: Seq<ScannedDataFile>, positions: Seq<usize>) -> Seq<ScannedDataFile> {
    positions.map_values(|p: usize| files[p as int])
}

/// Decoded RGBA byte count of a `width` x `height` image, if it fits in `u64`.
fn image_byte_size(width: u32, height: u32) -> (size: Option<u64>)
    ensures
        size == spec_image_byte_size(width, height),
{
    match (width as u64).checked_mul(height as u64) {
        None => None,
        Some(pixels) => pixels.checked_mul(4),
    }
}

/// Number of distinct group codes among `records`.
fn distinct_group_count(records: &[IndexRecord]) -> (count: usize)
    ensures
        count == group_code_set(records@).len(),
{
    let mut codes: HashSet<u32> = HashSet::new();
    let mut index: usize = 0;
    while index < records.len()
        invariant
            index <= records@.len(),
            codes@ == group_code_set(records@.subrange(0, index as int)),
        decreases records@.len() - index,
    {
        proof {
            assert(records@.subrange(0, index + 1).drop_last() =~= records@.subrange(0, index as int));
        }
        codes.insert(records[index].group_code);
        index += 1;
    }
    assert(records@.subrange(0, index as int) =~= records@);
    codes.len()
}

fn validate_group_count(index: &IndexedArchive, diagnostics: &mut Vec<ArchiveDiagnostic>)
    ensures
        final(diagnostics)@ == old(diagnostics)@ + group_diagnostics(index.header, index.records@),
{
    let actual = distinct_group_count(index.records.as_slice());
    if actual as u64 != index.header.group_count as u64 {
        diagnostics.push(
            ArchiveDiagnostic::GroupCountMismatch { expected: index.header.group_count, actual },
        );
    } else {
        assert(diagnostics@ + Seq::<ArchiveDiagnostic>::empty() =~= diagnostics@);
    }
}

/// `insert_by_number` places a file right after the last file whose number does not exceed
/// its own.
proof fn lemma_insert_by_number(sorted: Seq<ScannedDataFile>, file: ScannedDataFile, position: int)
    requires
        0 <= position <= sorted.len(),
        forall|k: int| position <= k < sorted.len() ==> #[trigger] sorted[k].file_number
            > file.file_number,
        position > 0 ==> sorted[position - 1].file_number <= file.file_number,
    ensures
        insert_by_number(sorted, file) == sorted.insert(position, file),
    decreases sorted.len(),
{
    if sorted.len() == 0 {
        assert(sorted.insert(position, file) =~= seq![file]);
    } else if sorted.last().file_number > file.file_number {
        lemma_insert_by_number(sorted.drop_last(), file, position);
        assert(sorted.drop_last().insert(position, file).push(sorted.last()) =~= sorted.insert(
            position,
            file,
        ));
    } else {
        assert(sorted.push(file) =~= sorted.insert(position, file));
    }
}

/// Positions of the declared data files, ordered by file number (equal numbers keep their input
/// order), with one diagnostic for each other file.
fn sorted_main_files(
    header: &ArchiveHeader,
    files: &[ScannedDataFile],
    diagnostics: &mut Vec<ArchiveDiagnostic>,
) -> (positions: Vec<usize>)
    ensures
        forall|i: int| 0 <= i < positions@.len() ==> #[trigger] positions@[i] < files@.len(),
        files_at(files@, positions@) == sort_by_number(main_files(*header, files@)),
        final(diagnostics)@ == old(diagnostics)@ + unexpected_file_diagnostics(*header, files@),
{
    let ghost initial = diagnostics@;
    let mut positions: Vec<usize> = Vec::new();
    let mut index: usize = 0;
    while index < files.len()
        invariant
            index <= files@.len(),
            forall|i: int| 0 <= i < positions@.len() ==> #[trigger] positions@[i] < files@.len(),
            files_at(files@, positions@) == sort_by_number(
                main_files(*header, files@.subrange(0, index as int)),
            ),
            diagnostics@ == initial + unexpected_file_diagnostics(
                *header,
                files@.subrange(0, index as int),
            ),
        decreases files@.len() - index,
    {
        let ghost prefix = files@.subrange(0, index as int);
        proof {
            assert(files@.subrange(0, index + 1).drop_last() =~= prefix);
        }
        let number = files[index].file_number;
        if number > 0 && number <= header.archive_count {
            let ghost before = files_at(files@, positions@);
            let mut at: usize = positions.len();
            while at > 0 && files[positions[at - 1]].file_number > number
                invariant
                    at <= positions@.len(),
                    forall|i: int| 0 <= i < positions@.len() ==> #[trigger] positions@[i]
                        < files@.len(),
                    before == files_at(files@, positions@),
                    forall|k: int| at <= k < positions@.len() ==> #[trigger] before[k].file_number
                        > number,
                decreases at,
            {
                at -= 1;
            }
            proof {
                lemma_insert_by_number(before, files@[index as int], at as int);
            }
            positions.insert(at, index);
            assert(files_at(files@, positions@) =~= before.insert(at as int, files@[index as int]));
            proof {
                let grown = main_files(*header, prefix).push(files@[index as int]);
                assert(main_files(*header, files@.subrange(0, index + 1)) == grown);
                assert(grown.drop_last() =~= main_files(*header, prefix));
            }
        } else {
            diagnostics.push(ArchiveDiagnostic::UnexpectedDataFile { file_number: number });
        }
        index += 1;
    }
    assert(files@.subrange(0, index as int) =~= files@);
    positions
}

fn expected_number(position: usize) -> (number: u32)
    ensures
        number == expected_file_number(position as int),
{
    if position < u32::MAX as usize {
        (position + 1) as u32
    } else {
        u32::MAX
    }
}

/// Checks the sorted declared files against `1..=archive_count` and returns whether the set is
/// complete.
#[verifier::spinoff_prover]
fn check_file_numbers(
    header: &ArchiveHeader,
    files: &[ScannedDataFile],
    positions: &Vec<usize>,
    diagnostics: &mut Vec<ArchiveDiagnostic>,
) -> (complete: bool)
    requires
        forall|i: int| 0 <= i < positions@.len() ==> #[trigger] positions@[i] < files@.len(),
    ensures
        complete == file_set_is_complete(*header, files_at(files@, positions@)),
        final(diagnostics)@ == old(diagnostics)@ + count_diagnostics(
            *header,
            files_at(files@, positions@),
        ) + number_diagnostics(files_at(files@, positions@)),
{
    let ghost sorted = files_at(files@, positions@);
    let mut complete = positions.len() as u64 == header.archive_count as u64;
    if !complete {
        diagnostics.push(
            ArchiveDiagnostic::ArchiveFileCountMismatch {
                expected: header.archive_count,
                actual: positions.len(),
            },
        );
    }
    let ghost counted = diagnostics@;
    assert(counted == old(diagnostics)@ + count_diagnostics(*header, sorted));
    let mut position: usize = 0;
    while position < positions.len()
        invariant
            position <= positions@.len(),
            sorted == files_at(files@, positions@),
            forall|i: int| 0 <= i < positions@.len() ==> #[trigger] positions@[i] < files@.len(),
            diagnostics@ == counted + number_diagnostics(sorted.subrange(0, position as int)),
            complete == (sorted.len() == header.archive_count && forall|p: int|
                0 <= p < position ==> #[trigger] sorted[p].file_number == expected_file_number(p)),
        decreases positions@.len() - position,
    {
        proof {
            assert(sorted.subrange(0, position + 1).drop_last() =~= sorted.subrange(
                0,
                position as int,
            ));
        }
        let expected = expected_number(position);
        let actual = files[positions[position]].file_number;
        if actual != expected {
            complete = false;
            diagnostics.push(
                ArchiveDiagnostic::DataFileNumberMismatch { position, expected, actual },
            );
        }
        position += 1;
    }
    assert(sorted.subrange(0, position as int) =~= sorted);
    complete
}

/// The segments of the files at `positions`, file after file.
fn collect_segments(files: &[ScannedDataFile], positions: &Vec<usize>) -> (segments: Vec<
    DataSegment,
>)
    requires
        forall|i: int| 0 <= i < positions@.len() ==> #[trigger] positions@[i] < files@.len(),
    ensures
        segments@ == concat_segments(files_at(files@, positions@)),
{
    let ghost sorted = files_at(files@, positions@);
    let mut segments: Vec<DataSegment> = Vec::new();
    let mut k: usize = 0;
    while k < positions.len()
        invariant
            k <= positions@.len(),
            sorted == files_at(files@, positions@),
            forall|i: int| 0 <= i < positions@.len() ==> #[trigger] positions@[i] < files@.len(),
            segments@ == concat_segments(sorted.subrange(0, k as int)),
        decreases positions@.len() - k,
    {
        let file = &files[positions[k]];
        let ghost start = segments@;
        let mut j: usize = 0;
        while j < file.segments.len()
            invariant
                j <= file.segments@.len(),
                segments@ == start + file.segments@.subrange(0, j as int),
            decreases file.segments@.len() - j,
        {
            segments.push(file.segments[j]);
            j += 1;
            assert(segments@ =~= start + file.segments@.subrange(0, j as int));
        }
        proof {
            assert(sorted.subrange(0, k + 1).drop_last() =~= sorted.subrange(0, k as int));
            assert(file.segments@.subrange(0, j as int) =~= file.segments@);
        }
        k += 1;
    }
    assert(sorted.subrange(0, k as int) =~= sorted);
    segments
}


fn segment_kinds(segments: &Vec<DataSegment>) -> (kinds: Vec<ArchiveBlockKind>)
    ensures
        kinds@ == segments@.map_values(|s: DataSegment| segment_kind(s)),
{
    let mut kinds: Vec<ArchiveBlockKind> = Vec::new();
    let mut index: usize = 0;
    while index < segments.len()
        invariant
            index <= segments@.len(),
            kinds@ == segments@.subrange(0, index as int).map_values(
                |s: DataSegment| segment_kind(s),
            ),
        decreases segments@.len() - index,
    {
        let kind = match segments[index] {
            DataSegment::ZlibBlock(block) => ArchiveBlockKind::Zlib(block),
            DataSegment::UnresolvedGap(gap) => ArchiveBlockKind::Raw(RawBlock::from_gap(gap)),
        };
        kinds.push(kind);
        index += 1;
        assert(kinds@ =~= segments@.subrange(0, index as int).map_values(
            |s: DataSegment| segment_kind(s),
        ));
    }
    assert(segments@.subrange(0, index as int) =~= segments@);
    kinds
}

fn zlib_kinds(blocks: &Vec<MwcBlock>) -> (kinds: Vec<ArchiveBlockKind>)
    ensures
        kinds@ == blocks@.map_values(|b: MwcBlock| ArchiveBlockKind::Zlib(b)),
{
    let mut kinds: Vec<ArchiveBlockKind> = Vec::new();
    let mut index: usize = 0;
    while index < blocks.len()
        invariant
            index <= blocks@.len(),
            kinds@ == blocks@.subrange(0, index as int).map_values(
                |b: MwcBlock| ArchiveBlockKind::Zlib(b),
            ),
        decreases blocks@.len() - index,
    {
        kinds.push(ArchiveBlockKind::Zlib(blocks[index]));
        index += 1;
        assert(kinds@ =~= blocks@.subrange(0, index as int).map_values(
            |b: MwcBlock| ArchiveBlockKind::Zlib(b),
        ));
    }
    assert(blocks@.subrange(0, index as int) =~= blocks@);
    kinds
}

/// Position of the first raw kind, or the length when there is none.
fn raw_position(kinds: &Vec<ArchiveBlockKind>) -> (position: usize)
    ensures
        position == first_raw_position(kinds@),
{
    assert(kinds@.subrange(0, kinds@.len() as int) =~= kinds@);
    let mut index: usize = 0;
    while index < kinds.len()
        invariant
            index <= kinds@.len(),
            first_raw_position(kinds@) == index + first_raw_position(
                kinds@.subrange(index as int, kinds@.len() as int),
            ),
        decreases kinds@.len() - index,
    {
        let ghost rest = kinds@.subrange(index as int, kinds@.len() as int);
        assert(rest[0] == kinds@[index as int]);
        if let ArchiveBlockKind::Raw(_) = kinds[index] {
            return index;
        }
        assert(rest.drop_first() =~= kinds@.subrange(index + 1, kinds@.len() as int));
        index += 1;
    }
    index
}

fn first_raw(kinds: &Vec<ArchiveBlockKind>) -> (raw: Option<UnresolvedGap>)
    ensures
        raw == first_raw_gap(kinds@),
{
    assert(kinds@.subrange(0, kinds@.len() as int) =~= kinds@);
    let mut index: usize = 0;
    while index < kinds.len()
        invariant
            index <= kinds@.len(),
            first_raw_gap(kinds@) == first_raw_gap(kinds@.subrange(index as int, kinds@.len() as int)),
        decreases kinds@.len() - index,
    {
        let ghost rest = kinds@.subrange(index as int, kinds@.len() as int);
        assert(rest[0] == kinds@[index as int]);
        if let ArchiveBlockKind::Raw(block) = kinds[index] {
            return Some(UnresolvedGap { location: block.location, len: block.len });
        }
        assert(rest.drop_first() =~= kinds@.subrange(index + 1, kinds@.len() as int));
        index += 1;
    }
    None
}

fn is_referenced(records: &[IndexRecord], block_index: u32) -> (referenced: bool)
    ensures
        referenced == block_index_referenced(records@, block_index),
{
    let mut index: usize = 0;
    while index < records.len()
        invariant
            index <= records@.len(),
            forall|i: int| 0 <= i < index ==> #[trigger] records@[i].block_index != block_index,
        decreases records@.len() - index,
    {
        if records[index].block_index == block_index {
            return true;
        }
        index += 1;
    }
    false
}

fn records_match_candidate(records: &[IndexRecord], kinds: &Vec<ArchiveBlockKind>) -> (matched:
    bool)
    ensures
        matched == records_match_kinds(records@, kinds@),
{
    let mut index: usize = 0;
    while index < records.len()
        invariant
            index <= records@.len(),
            forall|i: int| 0 <= i < index ==> record_matches_kinds(#[trigger] records@[i], kinds@),
        decreases records@.len() - index,
    {
        let record = records[index];
        let block_index = record.block_index as usize;
        if block_index >= kinds.len() {
            assert(!record_matches_kinds(records@[index as int], kinds@));
            return false;
        }
        match image_byte_size(record.width, record.height) {
            None => {
                assert(!record_matches_kinds(records@[index as int], kinds@));
                return false;
            },
            Some(expected) => {
                if expected != kinds[block_index].uncompressed_size() {
                    assert(!record_matches_kinds(records@[index as int], kinds@));
                    return false;
                }
            },
        }
        index += 1;
    }
    true
}

fn resolve_single_raw_gap(
    index: &IndexedArchive,
    segments: &Vec<DataSegment>,
    gap: UnresolvedGap,
    diagnostics: &mut Vec<ArchiveDiagnostic>,
) -> (kinds: Option<Vec<ArchiveBlockKind>>)
    requires
        segments@.len() <= u32::MAX,
    ensures
        ({
            let (resolved, found) = single_gap_resolution(index.records@, segments@, gap);
            &&& final(diagnostics)@ == old(diagnostics)@ + found
            &&& match kinds {
                Some(k) => resolved == Some(k@),
                None => resolved is None,
            }
        }),
{
    let kinds = segment_kinds(segments);
    let position = raw_position(&kinds);
    proof {
        lemma_first_raw_position_bound(kinds@);
    }
    let candidate_block_index = position as u32;
    if !is_referenced(index.records.as_slice(), candidate_block_index) {
        diagnostics.push(ArchiveDiagnostic::RawGapNotReferenced { gap, candidate_block_index });
        return None;
    }
    if !records_match_candidate(index.records.as_slice(), &kinds) {
        diagnostics.push(
            ArchiveDiagnostic::RawGapCandidateInconsistent { gap, candidate_block_index },
        );
        return None;
    }
    assert(diagnostics@ + Seq::<ArchiveDiagnostic>::empty() =~= diagnostics@);
    Some(kinds)
}

proof fn lemma_first_raw_position_bound(kinds: Seq<ArchiveBlockKind>)
    ensures
        0 <= first_raw_position(kinds) <= kinds.len(),
    decreases kinds.len(),
{
    if kinds.len() > 0 {
        lemma_first_raw_position_bound(kinds.drop_first());
    }
}

fn remove_gap(gaps: &Vec<UnresolvedGap>, raw: UnresolvedGap) -> (remaining: Vec<UnresolvedGap>)
    ensures
        remaining@ == gaps_without(gaps@, raw),
{
    let mut remaining: Vec<UnresolvedGap> = Vec::new();
    let mut index: usize = 0;
    while index < gaps.len()
        invariant
            index <= gaps@.len(),
            remaining@ == gaps_without(gaps@.subrange(0, index as int), raw),
        decreases gaps@.len() - index,
    {
        proof {
            assert(gaps@.subrange(0, index + 1).drop_last() =~= gaps@.subrange(0, index as int));
        }
        let gap = gaps[index];
        if gap != raw {
            remaining.push(gap);
        }
        index += 1;
    }
    assert(gaps@.subrange(0, index as int) =~= gaps@);
    remaining
}

fn validate_records(
    index: &IndexedArchive,
    kinds: &Vec<ArchiveBlockKind>,
    diagnostics: &mut Vec<ArchiveDiagnostic>,
)
    ensures
        final(diagnostics)@ == old(diagnostics)@ + record_diagnostics(
            index.header,
            index.records@,
            kinds@,
        ),
{
    let ghost initial = diagnostics@;
    let records = &index.records;
    let mut position: usize = 0;
    while position < records.len()
        invariant
            position <= records@.len(),
            records@ == index.records@,
            diagnostics@ == initial + record_diagnostics(
                index.header,
                records@.subrange(0, position as int),
                kinds@,
            ),
        decreases records@.len() - position,
    {
        proof {
            assert(records@.subrange(0, position + 1).drop_last() =~= records@.subrange(
                0,
                position as int,
            ));
        }
        let record = records[position];
        let block_index = record.block_index as usize;
        if block_index >= kinds.len() {
            diagnostics.push(
                ArchiveDiagnostic::RecordBlockIndexOutOfRange {
                    record_position: position,
                    block_index: record.block_index,
                    block_count: index.header.image_block_count,
                },
            );
        } else {
            match image_byte_size(record.width, record.height) {
                None => {
                    diagnostics.push(
                        ArchiveDiagnostic::ImageByteSizeOverflow {
                            record_position: position,
                            width: record.width,
                            height: record.height,
                        },
                    );
                },
                Some(expected_size) => {
                    let actual_size = kinds[block_index].uncompressed_size();
                    if expected_size != actual_size {
                        diagnostics.push(
                            ArchiveDiagnostic::ImageSizeMismatch {
                                record_position: position,
                                block_index: record.block_index,
                                expected_size,
                                actual_size,
                            },
                        );
                    }
                },
            }
        }
        position += 1;
    }
    assert(records@.subrange(0, position as int) =~= records@);
}

fn validate_record_ranges(index: &IndexedArchive, diagnostics: &mut Vec<ArchiveDiagnostic>)
    ensures
        final(diagnostics)@ == old(diagnostics)@ + record_range_diagnostics(
            index.header,
            index.records@,
        ),
{
    let ghost initial = diagnostics@;
    let records = &index.records;
    let mut position: usize = 0;
    while position < records.len()
        invariant
            position <= records@.len(),
            records@ == index.records@,
            diagnostics@ == initial + record_range_diagnostics(
                index.header,
                records@.subrange(0, position as int),
            ),
        decreases records@.len() - position,
    {
        proof {
            assert(records@.subrange(0, position + 1).drop_last() =~= records@.subrange(
                0,
                position as int,
            ));
        }
        let record = records[position];
        if record.block_index >= index.header.image_block_count {
            diagnostics.push(
                ArchiveDiagnostic::RecordBlockIndexOutOfRange {
                    record_position: position,
                    block_index: record.block_index,
                    block_count: index.header.image_block_count,
                },
            );
        }
        if image_byte_size(record.width, record.height).is_none() {
            diagnostics.push(
                ArchiveDiagnostic::ImageByteSizeOverflow {
                    record_position: position,
                    width: record.width,
                    height: record.height,
                },
            );
        }
        position += 1;
    }
    assert(records@.subrange(0, position as int) =~= records@);
}

fn index_blocks(kinds: &Vec<ArchiveBlockKind>) -> (blocks: Vec<ArchiveBlock>)
    requires
        kinds@.len() <= u32::MAX,
    ensures
        blocks@ == indexed_blocks(kinds@),
{
    let mut blocks: Vec<ArchiveBlock> = Vec::new();
    let mut index: usize = 0;
    while index < kinds.len()
        invariant
            index <= kinds@.len() <= u32::MAX,
            blocks@ == indexed_blocks(kinds@).subrange(0, index as int),
        decreases kinds@.len() - index,
    {
        blocks.push(ArchiveBlock { block_index: Some(index as u32), kind: kinds[index] });
        index += 1;
        assert(blocks@ =~= indexed_blocks(kinds@).subrange(0, index as int));
    }
    assert(indexed_blocks(kinds@).subrange(0, index as int) =~= indexed_blocks(kinds@));
    blocks
}

fn unindex_blocks(zlib: &Vec<MwcBlock>) -> (blocks: Vec<ArchiveBlock>)
    ensures
        blocks@ == unindexed_blocks(zlib@),
{
    let mut blocks: Vec<ArchiveBlock> = Vec::new();
    let mut index: usize = 0;
    while index < zlib.len()
        invariant
            index <= zlib@.len(),
            blocks@ == unindexed_blocks(zlib@).subrange(0, index as int),
        decreases zlib@.len() - index,
    {
        blocks.push(ArchiveBlock { block_index: None, kind: ArchiveBlockKind::Zlib(zlib[index]) });
        index += 1;
        assert(blocks@ =~= unindexed_blocks(zlib@).subrange(0, index as int));
    }
    assert(unindexed_blocks(zlib@).subrange(0, index as int) =~= unindexed_blocks(zlib@));
    blocks
}


/// Connects parsed records to ordered data segments without reading or changing game files.
pub fn build_archive_layout(index: &IndexedArchive, data_files: &[ScannedDataFile]) -> (layout:
    ArchiveLayout)
    ensures
        (layout.blocks@, layout.unresolved_gaps@, layout.diagnostics@,
        layout.spec_block_order_resolved()) == spec_layout(*index, data_files@),
{
    let header = &index.header;
    let mut diagnostics: Vec<ArchiveDiagnostic> = Vec::new();
    validate_group_count(index, &mut diagnostics);
    let positions = sorted_main_files(header, data_files, &mut diagnostics);
    let file_set_is_complete = check_file_numbers(header, data_files, &positions, &mut diagnostics);
    let ghost before = diagnostics@;
    assert(before =~= structure_diagnostics(*index, data_files@));

    let segments = collect_segments(data_files, &positions);
    let zlib_blocks = segment_zlib_blocks(segments.as_slice());
    let gaps = segment_unresolved_gaps(segments.as_slice());
    proof {
        lemma_blocks_and_gaps_count(segments@);
    }
    let expected_blocks = header.image_block_count as u64;
    let resolution: Option<Vec<ArchiveBlockKind>> = if file_set_is_complete
        && zlib_blocks.len() as u64 == expected_blocks {
        Some(zlib_kinds(&zlib_blocks))
    } else if file_set_is_complete && gaps.len() == 1 && (zlib_blocks.len() as u64)
        < expected_blocks && zlib_blocks.len() as u64 + 1 == expected_blocks {
        resolve_single_raw_gap(index, &segments, gaps[0], &mut diagnostics)
    } else {
        None
    };
    assert(diagnostics@ == before + resolved_kinds(*index, data_files@).1);

    match resolution {
        Some(kinds) => {
            let raw_gap = first_raw(&kinds);
            let blocks = index_blocks(&kinds);
            let unresolved_gaps = match raw_gap {
                Some(raw) => remove_gap(&gaps, raw),
                None => gaps,
            };
            validate_records(index, &kinds, &mut diagnostics);
            ArchiveLayout { blocks, unresolved_gaps, diagnostics, block_order_resolved: true }
        },
        None => {
            let ghost resolved_found = diagnostics@;
            if zlib_blocks.len() as u64 != expected_blocks {
                diagnostics.push(
                    ArchiveDiagnostic::LogicalBlockCountMismatch {
                        expected: header.image_block_count,
                        zlib_blocks: zlib_blocks.len(),
                        unresolved_gaps: gaps.len(),
                    },
                );
            } else {
                assert(diagnostics@ =~= resolved_found + Seq::<ArchiveDiagnostic>::empty());
            }
            validate_record_ranges(index, &mut diagnostics);
            let blocks = unindex_blocks(&zlib_blocks);
            ArchiveLayout {
                blocks,
                unresolved_gaps: gaps,
                diagnostics,
                block_order_resolved: false,
            }
        },
    }
}

// ---------------------------------------------------------------------------
// Properties of the layout
// ---------------------------------------------------------------------------

proof fn lemma_resolved_kinds_len(index: IndexedArchive, files: Seq<ScannedDataFile>)
    ensures
        resolved_kinds(index, files).0 matches Some(kinds) ==> kinds.len()
            == index.header.image_block_count,
{
    let sorted = sort_by_number(main_files(index.header, files));
    let segments = concat_segments(sorted);
    lemma_blocks_and_gaps_count(segments);
}

/// A resolved layout holds exactly the declared number of image blocks, each carrying its own
/// position as its global index; an unresolved layout gives no block a global index.
pub proof fn lemma_layout_block_indices(index: IndexedArchive, files: Seq<ScannedDataFile>)
    ensures
        ({
            let (blocks, gaps, diagnostics, resolved) = spec_layout(index, files);
            &&& resolved ==> blocks.len() == index.header.image_block_count
            &&& resolved ==> forall|i: int| 0 <= i < blocks.len() ==> (#[trigger] blocks[i]).block_index
                == Some(i as u32)
            &&& !resolved ==> forall|i: int| 0 <= i < blocks.len() ==> (#[trigger] blocks[i]).block_index
                is None
        }),
{
    lemma_resolved_kinds_len(index, files);
}

proof fn lemma_gaps_of_concat(a: Seq<DataSegment>, b: Seq<DataSegment>)
    ensures
        spec_unresolved_gaps(a + b) == spec_unresolved_gaps(a) + spec_unresolved_gaps(b),
    decreases b.len(),
{
    if b.len() == 0 {
        assert(a + b =~= a);
        assert(spec_unresolved_gaps(a) + spec_unresolved_gaps(b) =~= spec_unresolved_gaps(a));
    } else {
        lemma_gaps_of_concat(a, b.drop_last());
        assert((a + b).drop_last() =~= a + b.drop_last());
        assert(spec_unresolved_gaps(a) + spec_unresolved_gaps(b) =~= (spec_unresolved_gaps(a)
            + spec_unresolved_gaps(b.drop_last())) + (spec_unresolved_gaps(b).subrange(
            spec_unresolved_gaps(b.drop_last()).len() as int,
            spec_unresolved_gaps(b).len() as int,
        )));
    }
}

/// The raw kind promoted first is the first unresolved gap of the segments.
proof fn lemma_first_raw_gap_of_segments(segments: Seq<DataSegment>)
    ensures
        first_raw_gap(segments.map_values(|s: DataSegment| segment_kind(s))) == if spec_unresolved_gaps(
            segments,
        ).len() > 0 {
            Some(spec_unresolved_gaps(segments)[0])
        } else {
            None::<UnresolvedGap>
        },
    decreases segments.len(),
{
    if segments.len() > 0 {
        let kinds = segments.map_values(|s: DataSegment| segment_kind(s));
        let rest = segments.drop_first();
        lemma_first_raw_gap_of_segments(rest);
        assert(kinds.drop_first() =~= rest.map_values(|s: DataSegment| segment_kind(s)));
        assert(segments =~= seq![segments[0]] + rest);
        lemma_gaps_of_concat(seq![segments[0]], rest);
        let head = seq![segments[0]];
        assert(head.drop_last() =~= Seq::<DataSegment>::empty());
        assert(spec_unresolved_gaps(head.drop_last()) =~= Seq::<UnresolvedGap>::empty());
        match segments[0] {
            DataSegment::ZlibBlock(_) => {
                assert(spec_unresolved_gaps(head) =~= Seq::<UnresolvedGap>::empty());
                assert(spec_unresolved_gaps(segments) =~= spec_unresolved_gaps(rest));
            },
            DataSegment::UnresolvedGap(g) => {
                assert(spec_unresolved_gaps(head) =~= seq![g]);
                assert(spec_unresolved_gaps(segments)[0] == g);
            },
        }
    }
}

proof fn lemma_zlib_kinds_have_no_raw(blocks: Seq<MwcBlock>)
    ensures
        first_raw_gap(blocks.map_values(|b: MwcBlock| ArchiveBlockKind::Zlib(b))) is None,
    decreases blocks.len(),
{
    if blocks.len() > 0 {
        lemma_zlib_kinds_have_no_raw(blocks.drop_first());
        assert(blocks.map_values(|b: MwcBlock| ArchiveBlockKind::Zlib(b)).drop_first()
            =~= blocks.drop_first().map_values(|b: MwcBlock| ArchiveBlockKind::Zlib(b)));
    }
}

/// Every segment of the declared data files is accounted for exactly once: either as a block
/// of the layout or as a gap that is still unresolved.
pub proof fn lemma_layout_accounts_for_segments(index: IndexedArchive, files: Seq<ScannedDataFile>)
    ensures
        ({
            let (blocks, gaps, diagnostics, resolved) = spec_layout(index, files);
            blocks.len() + gaps.len() == concat_segments(
                sort_by_number(main_files(index.header, files)),
            ).len()
        }),
{
    let header = index.header;
    let sorted = sort_by_number(main_files(header, files));
    let segments = concat_segments(sorted);
    let zlib = spec_zlib_blocks(segments);
    let gaps = spec_unresolved_gaps(segments);
    lemma_blocks_and_gaps_count(segments);
    lemma_first_raw_gap_of_segments(segments);
    lemma_zlib_kinds_have_no_raw(zlib);
    if gaps.len() == 1 {
        assert(gaps.drop_last() =~= Seq::<UnresolvedGap>::empty());
        assert(gaps_without(gaps.drop_last(), gaps[0]) =~= Seq::<UnresolvedGap>::empty());
        assert(gaps.last() == gaps[0]);
        assert(gaps_without(gaps, gaps[0]) =~= Seq::<UnresolvedGap>::empty());
    }
}

proof fn lemma_no_record_diagnostics(
    header: ArchiveHeader,
    records: Seq<IndexRecord>,
    kinds: Seq<ArchiveBlockKind>,
)
    requires
        record_diagnostics(header, records, kinds).len() == 0,
    ensures
        records_match_kinds(records, kinds),
    decreases records.len(),
{
    if records.len() > 0 {
        let rest = record_diagnostics(header, records.drop_last(), kinds);
        lemma_no_record_diagnostics(header, records.drop_last(), kinds);
        assert forall|i: int| 0 <= i < records.len() implies record_matches_kinds(
            #[trigger] records[i],
            kinds,
        ) by {
            if i < records.len() - 1 {
                assert(records.drop_last()[i] == records[i]);
            }
        }
    }
}

/// When the block order is resolved and no diagnostic was raised, every index record names an
/// existing block whose decoded size is exactly the RGBA size of the record's dimensions.
pub proof fn lemma_consistent_layout_serves_every_record(
    index: IndexedArchive,
    files: Seq<ScannedDataFile>,
)
    ensures
        ({
            let (blocks, gaps, diagnostics, resolved) = spec_layout(index, files);
            resolved && diagnostics.len() == 0 ==> forall|r: int|
                0 <= r < index.records@.len() ==> {
                    let record = #[trigger] index.records@[r];
                    &&& (record.block_index as int) < blocks.len()
                    &&& spec_image_byte_size(record.width, record.height) == Some(
                        blocks[record.block_index as int].kind.spec_uncompressed_size(),
                    )
                }
        }),
{
    let (blocks, gaps, diagnostics, resolved) = spec_layout(index, files);
    let (kinds, found) = resolved_kinds(index, files);
    if resolved && diagnostics.len() == 0 {
        let k = kinds.unwrap();
        lemma_no_record_diagnostics(index.header, index.records@, k);
        assert forall|r: int| 0 <= r < index.records@.len() implies {
            let record = #[trigger] index.records@[r];
            &&& (record.block_index as int) < blocks.len()
            &&& spec_image_byte_size(record.width, record.height) == Some(
                blocks[record.block_index as int].kind.spec_uncompressed_size(),
            )
        } by {
            assert(record_matches_kinds(index.records@[r], k));
        }
    }
}


// ---------------------------------------------------------------------------
// Laws of the layout's shape
// ---------------------------------------------------------------------------

proof fn lemma_gap_counted(segments: Seq<DataSegment>, i: int)
    requires
        0 <= i < segments.len(),
        segments[i] is UnresolvedGap,
    ensures
        spec_unresolved_gaps(segments).len() >= 1,
    decreases segments.len(),
{
    if i < segments.len() - 1 {
        lemma_gap_counted(segments.drop_last(), i);
    }
}

proof fn lemma_two_gaps_counted(segments: Seq<DataSegment>, i: int, j: int)
    requires
        0 <= i < j < segments.len(),
        segments[i] is UnresolvedGap,
        segments[j] is UnresolvedGap,
    ensures
        spec_unresolved_gaps(segments).len() >= 2,
    decreases segments.len(),
{
    if j == segments.len() - 1 {
        lemma_gap_counted(segments.drop_last(), i);
    } else {
        lemma_two_gaps_counted(segments.drop_last(), i, j);
    }
}

/// A layout whose block order could not be resolved holds only compressed blocks, none with a
/// global index; a resolved layout holds at most one raw block.
pub proof fn lemma_layout_raw_blocks(index: IndexedArchive, files: Seq<ScannedDataFile>)
    ensures
        ({
            let (blocks, gaps, diagnostics, resolved) = spec_layout(index, files);
            &&& !resolved ==> forall|i: int|
                0 <= i < blocks.len() ==> (#[trigger] blocks[i]).kind is Zlib && blocks[i].block_index is None
            &&& resolved ==> forall|i: int, j: int|
                0 <= i < j < blocks.len() ==> !(is_raw(#[trigger] blocks[i].kind) && is_raw(#[trigger] blocks[j].kind))
        }),
{
    let header = index.header;
    let sorted = sort_by_number(main_files(header, files));
    let segments = concat_segments(sorted);
    let zlib = spec_zlib_blocks(segments);
    let gaps = spec_unresolved_gaps(segments);
    let complete = file_set_is_complete(header, sorted);
    let (blocks, g, d, resolved) = spec_layout(index, files);
    if resolved {
        let kinds = resolved_kinds(index, files).0->Some_0;
        assert(blocks == indexed_blocks(kinds));
        assert forall|i: int, j: int| 0 <= i < j < blocks.len() implies !(is_raw(#[trigger] blocks[i].kind) && is_raw(
            #[trigger] blocks[j].kind,
        )) by {
            if is_raw(blocks[i].kind) && is_raw(blocks[j].kind) {
                if complete && zlib.len() == header.image_block_count {
                    assert(kinds == zlib.map_values(|b: MwcBlock| ArchiveBlockKind::Zlib(b)));
                    assert(blocks[i].kind == kinds[i]);
                } else {
                    assert(kinds == segments.map_values(|x: DataSegment| segment_kind(x)));
                    assert(blocks[i].kind == segment_kind(segments[i]));
                    assert(blocks[j].kind == segment_kind(segments[j]));
                    lemma_two_gaps_counted(segments, i, j);
                }
            }
        }
    }
}

/// How many diagnostics of `diagnostics` report `file_number` as an unexpected data file.
pub open spec fn unexpected_count(diagnostics: Seq<ArchiveDiagnostic>, file_number: u32) -> nat
    decreases diagnostics.len(),
{
    if diagnostics.len() == 0 {
        0
    } else {
        unexpected_count(diagnostics.drop_last(), file_number) + if diagnostics.last()
            == (ArchiveDiagnostic::UnexpectedDataFile { file_number }) {
            1nat
        } else {
            0nat
        }
    }
}

/// How many of `files` carry `file_number`.
pub open spec fn numbered_count(files: Seq<ScannedDataFile>, file_number: u32) -> nat
    decreases files.len(),
{
    if files.len() == 0 {
        0
    } else {
        numbered_count(files.drop_last(), file_number) + if files.last().file_number == file_number {
            1nat
        } else {
            0nat
        }
    }
}

proof fn lemma_unexpected_count_add(a: Seq<ArchiveDiagnostic>, b: Seq<ArchiveDiagnostic>, n: u32)
    ensures
        unexpected_count(a + b, n) == unexpected_count(a, n) + unexpected_count(b, n),
    decreases b.len(),
{
    if b.len() == 0 {
        assert(a + b =~= a);
    } else {
        assert((a + b).drop_last() =~= a + b.drop_last());
        lemma_unexpected_count_add(a, b.drop_last(), n);
    }
}

proof fn lemma_unexpected_files_counted(header: ArchiveHeader, files: Seq<ScannedDataFile>, n: u32)
    ensures
        unexpected_count(unexpected_file_diagnostics(header, files), n) == if 0 < n <= header.archive_count {
            0
        } else {
            numbered_count(files, n)
        },
    decreases files.len(),
{
    if files.len() > 0 {
        lemma_unexpected_files_counted(header, files.drop_last(), n);
        let rest = unexpected_file_diagnostics(header, files.drop_last());
        if !is_main_file(header, files.last()) {
            let d = ArchiveDiagnostic::UnexpectedDataFile { file_number: files.last().file_number };
            assert(rest.push(d).drop_last() =~= rest);
        }
    }
}

proof fn lemma_number_diagnostics_uncounted(sorted: Seq<ScannedDataFile>, n: u32)
    ensures
        unexpected_count(number_diagnostics(sorted), n) == 0,
    decreases sorted.len(),
{
    if sorted.len() > 0 {
        lemma_number_diagnostics_uncounted(sorted.drop_last(), n);
        let rest = number_diagnostics(sorted.drop_last());
        let position = sorted.len() - 1;
        let d = ArchiveDiagnostic::DataFileNumberMismatch {
            position: position as usize,
            expected: expected_file_number(position),
            actual: sorted.last().file_number,
        };
        assert(rest.push(d).drop_last() =~= rest);
    }
}

proof fn lemma_record_diagnostics_uncounted(
    header: ArchiveHeader,
    records: Seq<IndexRecord>,
    kinds: Seq<ArchiveBlockKind>,
    n: u32,
)
    ensures
        unexpected_count(record_diagnostics(header, records, kinds), n) == 0,
    decreases records.len(),
{
    if records.len() > 0 {
        lemma_record_diagnostics_uncounted(header, records.drop_last(), kinds, n);
        let rest = record_diagnostics(header, records.drop_last(), kinds);
        let all = record_diagnostics(header, records, kinds);
        if all != rest {
            assert(all.drop_last() =~= rest);
        }
    }
}

proof fn lemma_record_range_diagnostics_uncounted(header: ArchiveHeader, records: Seq<IndexRecord>, n: u32)
    ensures
        unexpected_count(record_range_diagnostics(header, records), n) == 0,
    decreases records.len(),
{
    if records.len() > 0 {
        lemma_record_range_diagnostics_uncounted(header, records.drop_last(), n);
        let rest = record_range_diagnostics(header, records.drop_last());
        let record = records.last();
        let position = (records.len() - 1) as usize;
        let range_d = ArchiveDiagnostic::RecordBlockIndexOutOfRange {
            record_position: position,
            block_index: record.block_index,
            block_count: header.image_block_count,
        };
        let size_d = ArchiveDiagnostic::ImageByteSizeOverflow {
            record_position: position,
            width: record.width,
            height: record.height,
        };
        assert(rest.push(range_d).drop_last() =~= rest);
        assert(rest.push(size_d).drop_last() =~= rest);
        assert(rest.push(range_d).push(size_d).drop_last() =~= rest.push(range_d));
        assert(unexpected_count(rest.push(range_d), n) == 0);
        assert(unexpected_count(rest.push(size_d), n) == 0);
        assert(unexpected_count(rest.push(range_d).push(size_d), n) == 0);
    }
}

proof fn lemma_short_diagnostics_uncounted(d: Seq<ArchiveDiagnostic>, n: u32)
    requires
        d.len() <= 1,
        d.len() == 1 ==> !(d[0] is UnexpectedDataFile),
    ensures
        unexpected_count(d, n) == 0,
{
    if d.len() == 1 {
        assert(d.drop_last() =~= Seq::<ArchiveDiagnostic>::empty());
        assert(unexpected_count(d.drop_last(), n) == 0);
        assert(d.last() == d[0]);
    }
}

/// Every data file numbered 0 or above `archive_count` is reported exactly once as unexpected,
/// and no file of the declared numbers is.
pub proof fn lemma_layout_reports_each_unexpected_file(index: IndexedArchive, files: Seq<ScannedDataFile>, n: u32)
    ensures
        unexpected_count(spec_layout(index, files).2, n) == if 0 < n <= index.header.archive_count {
            0
        } else {
            numbered_count(files, n)
        },
{
    let header = index.header;
    let sorted = sort_by_number(main_files(header, files));
    let segments = concat_segments(sorted);
    let zlib = spec_zlib_blocks(segments);
    let gaps = spec_unresolved_gaps(segments);
    let group = group_diagnostics(header, index.records@);
    let unexpected = unexpected_file_diagnostics(header, files);
    let counts = count_diagnostics(header, sorted);
    let numbers = number_diagnostics(sorted);
    lemma_short_diagnostics_uncounted(group, n);
    lemma_unexpected_files_counted(header, files, n);
    lemma_short_diagnostics_uncounted(counts, n);
    lemma_number_diagnostics_uncounted(sorted, n);
    lemma_unexpected_count_add(group, unexpected, n);
    lemma_unexpected_count_add(group + unexpected, counts, n);
    lemma_unexpected_count_add(group + unexpected + counts, numbers, n);
    let before = structure_diagnostics(index, files);
    assert(before == group + unexpected + counts + numbers);
    let (resolved, resolution) = resolved_kinds(index, files);
    lemma_short_diagnostics_uncounted(resolution, n);
    lemma_unexpected_count_add(before, resolution, n);
    match resolved {
        Some(kinds) => {
            lemma_record_diagnostics_uncounted(header, index.records@, kinds, n);
            lemma_unexpected_count_add(before + resolution, record_diagnostics(header, index.records@, kinds), n);
        },
        None => {
            let count = if zlib.len() != header.image_block_count {
                seq![ArchiveDiagnostic::LogicalBlockCountMismatch { expected: header.image_block_count, zlib_blocks: zlib.len() as usize, unresolved_gaps: gaps.len() as usize }]
            } else {
                Seq::empty()
            };
            lemma_short_diagnostics_uncounted(count, n);
            lemma_unexpected_count_add(before + resolution, count, n);
            lemma_record_range_diagnostics_uncounted(header, index.records@, n);
            lemma_unexpected_count_add(before + resolution + count, record_range_diagnostics(header, index.records@), n);
        },
    }
}

/// Decoding a block from the exact bytes of its stored range gives what decoding it from its
/// whole data file gives.
pub proof fn lemma_decode_stored_matches_file_decode(
    kind: ArchiveBlockKind,
    file_bytes: Seq<u8>,
    max_output_size: usize,
    result: Result<Vec<u8>, ArchiveBlockDecodeError>,
)
    requires
        kind.spec_stored_offset() + kind.spec_stored_size() <= file_bytes.len(),
        file_bytes.len() <= usize::MAX,
    ensures
        decode_stored_outcome(
            kind,
            file_bytes.subrange(
                kind.spec_stored_offset() as int,
                kind.spec_stored_offset() + kind.spec_stored_size(),
            ),
            max_output_size,
            result,
        ) <==> file_decode_outcome(kind, file_bytes, max_output_size, result),
{
    let stored = file_bytes.subrange(
        kind.spec_stored_offset() as int,
        kind.spec_stored_offset() + kind.spec_stored_size(),
    );
    match kind {
        ArchiveBlockKind::Zlib(block) => {
            assert(stored.len() == block.compressed_size);
        },
        ArchiveBlockKind::Raw(block) => {
            assert(stored.len() == block.len);
            assert(block.location.offset + block.len <= usize::MAX);
        },
    }
}

} // verus!
