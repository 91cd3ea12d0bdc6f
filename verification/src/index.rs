//! The fixed-layout index file of an indexed image archive.

use crate::bytes::{le_u32, lemma_le_u32_bound, read_u32_le};
use vstd::prelude::*;

verus! {

/// Byte length of an indexed image archive header.
pub const HEADER_SIZE: usize = 28;

/// Byte length of one indexed image archive record.
pub const RECORD_SIZE: usize = 20;

/// Raw fields from the 28-byte little-endian archive header.
#[derive(Debug, Clone, Copy, PartialEq, Eq, Structural)]
pub struct ArchiveHeader {
    pub record_count: u32,
    pub group_count: u32,
    pub default_width: u32,
    pub default_height: u32,
    pub image_block_count: u32,
    pub archive_count: u32,
    pub reserved: u32,
}

/// Raw fields from one 20-byte little-endian index record.
#[derive(Debug, Clone, Copy, PartialEq, Eq, Structural)]
pub struct IndexRecord {
    pub icon_id: u32,
    pub block_index: u32,
    pub width: u32,
    pub height: u32,
    pub group_code: u32,
}

/// A parsed index file, including bytes whose meaning is not yet known.
#[derive(Debug, Clone, PartialEq, Eq)]
pub struct IndexedArchive {
    pub header: ArchiveHeader,
    pub records: Vec<IndexRecord>,
    pub trailing_index_bytes: usize,
}

/// Failures that can be identified without interpreting archive semantics.
#[derive(Debug, Clone, Copy, PartialEq, Eq, Structural)]
pub enum IndexParseError {
    HeaderTooShort { actual_len: usize },
    RecordRegionSizeOverflow { record_count: u32 },
    RecordRegionTruncated { record_count: u32, required_len: usize, actual_len: usize },
}

pub open spec fn spec_header(bytes: Seq<u8>) -> ArchiveHeader {
    ArchiveHeader {
        record_count: le_u32(bytes, 0) as u32,
        group_count: le_u32(bytes, 4) as u32,
        default_width: le_u32(bytes, 8) as u32,
        default_height: le_u32(bytes, 12) as u32,
        image_block_count: le_u32(bytes, 16) as u32,
        archive_count: le_u32(bytes, 20) as u32,
        reserved: le_u32(bytes, 24) as u32,
    }
}

/// The record stored at position `i` of the record region.
pub open spec fn spec_record(bytes: Seq<u8>, i: int) -> IndexRecord {
    let start = 28 + 20 * i;
    IndexRecord {
        icon_id: le_u32(bytes, start) as u32,
        block_index: le_u32(bytes, start + 4) as u32,
        width: le_u32(bytes, start + 8) as u32,
        height: le_u32(bytes, start + 12) as u32,
        group_code: le_u32(bytes, start + 16) as u32,
    }
}

/// End of the record region declared by the header.
pub open spec fn records_end(bytes: Seq<u8>) -> int {
    28 + 20 * (spec_header(bytes).record_count as int)
}

/// Parse outcome of a complete index file: the header, every declared record in order,
/// and the number of bytes after the record region.
pub open spec fn parse_succeeds_with(bytes: Seq<u8>, archive: IndexedArchive) -> bool {
    &&& archive.header == spec_header(bytes)
    &&& archive.records@.len() == spec_header(bytes).record_count
    &&& forall|i: int|
        0 <= i < archive.records@.len() ==> #[trigger] archive.records@[i] == spec_record(bytes, i)
    &&& archive.trailing_index_bytes == bytes.len() - records_end(bytes)
}

/// The error that parsing `bytes` as an index file reports, if any.
pub open spec fn index_parse_error(bytes: Seq<u8>) -> Option<IndexParseError> {
    if bytes.len() < 28 {
        Some(IndexParseError::HeaderTooShort { actual_len: bytes.len() as usize })
    } else if records_end(bytes) > usize::MAX {
        Some(
            IndexParseError::RecordRegionSizeOverflow {
                record_count: spec_header(bytes).record_count,
            },
        )
    } else if records_end(bytes) > bytes.len() {
        Some(
            IndexParseError::RecordRegionTruncated {
                record_count: spec_header(bytes).record_count,
                required_len: records_end(bytes) as usize,
                actual_len: bytes.len() as usize,
            },
        )
    } else {
        None
    }
}

impl IndexedArchive {
    /// Parses a complete index file while preserving all raw record fields.
    pub fn parse(bytes: &[u8]) -> (parsed: Result<Self, IndexParseError>)
        ensures
            match index_parse_error(bytes@) {
                Some(error) => parsed == Err::<Self, IndexParseError>(error),
                None => parsed matches Ok(archive) && parse_succeeds_with(bytes@, archive),
            },
            bytes@.len() < 28 ==> parsed == Err::<Self, IndexParseError>(
                IndexParseError::HeaderTooShort { actual_len: bytes@.len() as usize },
            ),
            bytes@.len() >= 28 && records_end(bytes@) > usize::MAX ==> parsed == Err::<
                Self,
                IndexParseError,
            >(
                IndexParseError::RecordRegionSizeOverflow {
                    record_count: spec_header(bytes@).record_count,
                },
            ),
            bytes@.len() >= 28 && records_end(bytes@) <= usize::MAX && records_end(bytes@)
                > bytes@.len() ==> parsed == Err::<Self, IndexParseError>(
                IndexParseError::RecordRegionTruncated {
                    record_count: spec_header(bytes@).record_count,
                    required_len: records_end(bytes@) as usize,
                    actual_len: bytes@.len() as usize,
                },
            ),
            bytes@.len() >= 28 && records_end(bytes@) <= bytes@.len() ==> (parsed matches Ok(
                archive,
            ) && parse_succeeds_with(bytes@, archive)),
    {
        if bytes.len() < HEADER_SIZE {
            return Err(IndexParseError::HeaderTooShort { actual_len: bytes.len() });
        }
        let header = ArchiveHeader {
            record_count: read_u32_le(bytes, 0),
            group_count: read_u32_le(bytes, 4),
            default_width: read_u32_le(bytes, 8),
            default_height: read_u32_le(bytes, 12),
            image_block_count: read_u32_le(bytes, 16),
            archive_count: read_u32_le(bytes, 20),
            reserved: read_u32_le(bytes, 24),
        };
        let record_count = header.record_count as usize;
        let record_bytes = match record_count.checked_mul(RECORD_SIZE) {
            Some(n) => n,
            None => {
                return Err(
                    IndexParseError::RecordRegionSizeOverflow { record_count: header.record_count },
                )
            },
        };
        let records_end_exec = match HEADER_SIZE.checked_add(record_bytes) {
            Some(n) => n,
            None => {
                return Err(
                    IndexParseError::RecordRegionSizeOverflow { record_count: header.record_count },
                )
            },
        };
        if bytes.len() < records_end_exec {
            return Err(
                IndexParseError::RecordRegionTruncated {
                    record_count: header.record_count,
                    required_len: records_end_exec,
                    actual_len: bytes.len(),
                },
            );
        }
        let mut records: Vec<IndexRecord> = Vec::with_capacity(record_count);
        let mut index: usize = 0;
        while index < record_count
            invariant
                record_count == header.record_count,
                records_end_exec == 28 + 20 * record_count,
                records_end_exec <= bytes@.len(),
                header == spec_header(bytes@),
                index <= record_count,
                records@.len() == index,
                forall|i: int| 0 <= i < index ==> #[trigger] records@[i] == spec_record(bytes@, i),
            decreases record_count - index,
        {
            let start = HEADER_SIZE + index * RECORD_SIZE;
            proof {
                lemma_le_u32_bound(bytes@, start as int);
                lemma_le_u32_bound(bytes@, start + 4);
                lemma_le_u32_bound(bytes@, start + 8);
                lemma_le_u32_bound(bytes@, start + 12);
                lemma_le_u32_bound(bytes@, start + 16);
            }
            records.push(
                IndexRecord {
                    icon_id: read_u32_le(bytes, start),
                    block_index: read_u32_le(bytes, start + 4),
                    width: read_u32_le(bytes, start + 8),
                    height: read_u32_le(bytes, start + 12),
                    group_code: read_u32_le(bytes, start + 16),
                },
            );
            index += 1;
        }
        Ok(IndexedArchive { header, records, trailing_index_bytes: bytes.len() - records_end_exec })
    }
}

} // verus!
