//! The block table stored at the start of an inline raw image archive file.

use crate::bytes::{le_u32, lemma_le_u32_bound, read_u32_le};
use vstd::prelude::*;

verus! {

/// One physical block range declared by an inline archive table.
#[derive(Debug, Clone, Copy, PartialEq, Eq, Structural)]
pub struct InlineBlockEntry {
    pub offset: u32,
    pub stored_size: u32,
}

/// A block table stored at the beginning of the same file as its MWC blocks.
#[derive(Debug, Clone, PartialEq, Eq)]
pub struct InlineBlockTable {
    pub entries: Vec<InlineBlockEntry>,
    pub byte_len: usize,
}

#[derive(Debug, Clone, Copy, PartialEq, Eq, Structural)]
pub enum InlineBlockTableError {
    HeaderTruncated { actual_len: usize },
    TableSizeOverflow { entry_count: u32 },
    EntriesTruncated { entry_count: u32, expected_len: usize, actual_len: usize },
    EntryOutOfBounds { index: u32, offset: u32, stored_size: u32, file_size: usize },
}

pub open spec fn entry_count(bytes: Seq<u8>) -> int {
    le_u32(bytes, 0)
}

/// Byte length of the table declared by its entry count.
pub open spec fn table_len(bytes: Seq<u8>) -> int {
    4 + 8 * entry_count(bytes)
}

pub open spec fn spec_entry(bytes: Seq<u8>, i: int) -> InlineBlockEntry {
    InlineBlockEntry {
        offset: le_u32(bytes, 4 + 8 * i) as u32,
        stored_size: le_u32(bytes, 8 + 8 * i) as u32,
    }
}

/// Whether the entry at position `i` describes a range inside the file.
pub open spec fn entry_in_bounds(bytes: Seq<u8>, i: int) -> bool {
    spec_entry(bytes, i).offset + spec_entry(bytes, i).stored_size <= bytes.len()
}

/// The first entry whose range leaves the file, if any.
pub open spec fn first_entry_out_of_bounds(bytes: Seq<u8>) -> Option<int> {
    if exists|i: int| 0 <= i < entry_count(bytes) && !entry_in_bounds(bytes, i) {
        Some(
            choose|i: int|
                0 <= i < entry_count(bytes) && !entry_in_bounds(bytes, i) && forall|j: int|
                    0 <= j < i ==> entry_in_bounds(bytes, j),
        )
    } else {
        None
    }
}

/// The error that parsing `bytes` as an inline block table reports, if any.
pub open spec fn inline_parse_error(bytes: Seq<u8>) -> Option<InlineBlockTableError> {
    if bytes.len() < 4 {
        Some(InlineBlockTableError::HeaderTruncated { actual_len: bytes.len() as usize })
    } else if table_len(bytes) > usize::MAX {
        Some(InlineBlockTableError::TableSizeOverflow { entry_count: entry_count(bytes) as u32 })
    } else if table_len(bytes) > bytes.len() {
        Some(
            InlineBlockTableError::EntriesTruncated {
                entry_count: entry_count(bytes) as u32,
                expected_len: table_len(bytes) as usize,
                actual_len: bytes.len() as usize,
            },
        )
    } else {
        match first_entry_out_of_bounds(bytes) {
            Some(i) => Some(
                InlineBlockTableError::EntryOutOfBounds {
                    index: i as u32,
                    offset: spec_entry(bytes, i).offset,
                    stored_size: spec_entry(bytes, i).stored_size,
                    file_size: bytes.len() as usize,
                },
            ),
            None => None,
        }
    }
}

impl InlineBlockTable {
    pub fn parse(bytes: &[u8]) -> (parsed: Result<Self, InlineBlockTableError>)
        ensures
            match inline_parse_error(bytes@) {
                Some(error) => parsed == Err::<Self, InlineBlockTableError>(error),
                None => parsed is Ok,
            },
            bytes@.len() < 4 ==> parsed == Err::<Self, InlineBlockTableError>(
                InlineBlockTableError::HeaderTruncated { actual_len: bytes@.len() as usize },
            ),
            bytes@.len() >= 4 && table_len(bytes@) > usize::MAX ==> parsed == Err::<
                Self,
                InlineBlockTableError,
            >(InlineBlockTableError::TableSizeOverflow { entry_count: entry_count(bytes@) as u32 }),
            bytes@.len() >= 4 && table_len(bytes@) <= usize::MAX && table_len(bytes@)
                > bytes@.len() ==> parsed == Err::<Self, InlineBlockTableError>(
                InlineBlockTableError::EntriesTruncated {
                    entry_count: entry_count(bytes@) as u32,
                    expected_len: table_len(bytes@) as usize,
                    actual_len: bytes@.len() as usize,
                },
            ),
            bytes@.len() >= 4 && table_len(bytes@) <= bytes@.len() ==> match first_entry_out_of_bounds(
                bytes@,
            ) {
                Some(i) => parsed == Err::<Self, InlineBlockTableError>(
                    InlineBlockTableError::EntryOutOfBounds {
                        index: i as u32,
                        offset: spec_entry(bytes@, i).offset,
                        stored_size: spec_entry(bytes@, i).stored_size,
                        file_size: bytes@.len() as usize,
                    },
                ),
                None => parsed matches Ok(table) && table.byte_len == table_len(bytes@)
                    && table.entries@.len() == entry_count(bytes@) && forall|i: int|
                    0 <= i < table.entries@.len() ==> #[trigger] table.entries@[i] == spec_entry(
                        bytes@,
                        i,
                    ),
            },
    {
        if bytes.len() < 4 {
            return Err(InlineBlockTableError::HeaderTruncated { actual_len: bytes.len() });
        }
        let count = read_u32_le(bytes, 0);
        let entry_count_exec = count as usize;
        let byte_len = match entry_count_exec.checked_mul(8) {
            Some(n) => match n.checked_add(4) {
                Some(m) => m,
                None => return Err(InlineBlockTableError::TableSizeOverflow { entry_count: count }),
            },
            None => return Err(InlineBlockTableError::TableSizeOverflow { entry_count: count }),
        };
        if bytes.len() < byte_len {
            return Err(
                InlineBlockTableError::EntriesTruncated {
                    entry_count: count,
                    expected_len: byte_len,
                    actual_len: bytes.len(),
                },
            );
        }
        let mut entries: Vec<InlineBlockEntry> = Vec::with_capacity(entry_count_exec);
        let mut index: usize = 0;
        while index < entry_count_exec
            invariant
                entry_count_exec == entry_count(bytes@),
                byte_len == table_len(bytes@),
                byte_len <= bytes@.len(),
                index <= entry_count_exec,
                entries@.len() == index,
                forall|i: int| 0 <= i < index ==> #[trigger] entries@[i] == spec_entry(bytes@, i),
                forall|i: int| 0 <= i < index ==> entry_in_bounds(bytes@, i),
            decreases entry_count_exec - index,
        {
            let start = 4 + index * 8;
            proof {
                lemma_le_u32_bound(bytes@, start as int);
                lemma_le_u32_bound(bytes@, start + 4);
            }
            let offset = read_u32_le(bytes, start);
            let stored_size = read_u32_le(bytes, start + 4);
            let end = offset as u64 + stored_size as u64;
            if end > bytes.len() as u64 {
                proof {
                    assert(!entry_in_bounds(bytes@, index as int));
                    let i = choose|i: int|
                        0 <= i < entry_count(bytes@) && !entry_in_bounds(bytes@, i) && forall|
                            j: int,
                        | 0 <= j < i ==> entry_in_bounds(bytes@, j);
                    if i < index {
                    } else if i > index {
                        assert(entry_in_bounds(bytes@, index as int));
                    }
                }
                return Err(
                    InlineBlockTableError::EntryOutOfBounds {
                        index: index as u32,
                        offset,
                        stored_size,
                        file_size: bytes.len(),
                    },
                );
            }
            entries.push(InlineBlockEntry { offset, stored_size });
            index += 1;
        }
        proof {
            assert(!exists|i: int| 0 <= i < entry_count(bytes@) && !entry_in_bounds(bytes@, i));
        }
        Ok(InlineBlockTable { entries, byte_len })
    }
}

} // verus!
