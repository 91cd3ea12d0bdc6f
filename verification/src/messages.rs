//! The messages shown to the user for each error, as text.

use crate::archive::{ArchiveBlockDecodeError, ArchiveDiagnostic};
use crate::block::{BlockDecodeError, BlockLocation, BlockScanError, UnresolvedGap, BLOCK_HEADER_SIZE};
use crate::catalog::join_segments;
use crate::extract::{ArchivePrefixError, ExtractError, RawPixelFormat};
use crate::client::path_texts;
use crate::curator::CuratorSessionError;
use crate::session::ViewerSessionError;
use crate::index::{IndexParseError, HEADER_SIZE};
use crate::inline::InlineBlockTableError;
use crate::rgba::{ImageAssemblyError, PixelDecodeError, PngEncodeError, ThumbnailError};
use crate::text::{decimal_string_u64, decimal_text};
use vstd::prelude::*;
use vstd::string::StringExecFns;

verus! {

// ---------------------------------------------------------------------------
// Pieces of text
// ---------------------------------------------------------------------------

/// `items` between square brackets, separated by commas, as a list is written for debugging.
pub open spec fn bracketed(items: Seq<Seq<char>>) -> Seq<char> {
    "["@ + join_segments(items, ", "@) + "]"@
}

/// A pair of numbers in round brackets, as a tuple is written for debugging.
pub open spec fn pair_text(first: nat, second: nat) -> Seq<char> {
    "("@ + decimal_text(first) + ", "@ + decimal_text(second) + ")"@
}

/// A list of numbers as it is written for debugging.
pub open spec fn number_list_text(values: Seq<u32>) -> Seq<char> {
    bracketed(values.map_values(|n: u32| decimal_text(n as nat)))
}

/// A list of ranges, each a start and a length, as it is written for debugging.
pub open spec fn pair_list_text(values: Seq<(usize, usize)>) -> Seq<char> {
    bracketed(values.map_values(|p: (usize, usize)| pair_text(p.0 as nat, p.1 as nat)))
}

/// A block location as it is written for debugging.
pub open spec fn location_debug(location: BlockLocation) -> Seq<char> {
    "BlockLocation { file_number: "@ + decimal_text(location.file_number as nat) + ", offset: "@
        + decimal_text(location.offset as nat) + " }"@
}

/// An unresolved gap as it is written for debugging.
pub open spec fn gap_debug(gap: UnresolvedGap) -> Seq<char> {
    "UnresolvedGap { location: "@ + location_debug(gap.location) + ", len: "@ + decimal_text(
        gap.len as nat,
    ) + " }"@
}

/// A layout diagnostic as it is written for debugging.
pub open spec fn diagnostic_debug(diagnostic: ArchiveDiagnostic) -> Seq<char> {
    match diagnostic {
        ArchiveDiagnostic::ArchiveFileCountMismatch { expected, actual } => "ArchiveFileCountMismatch { expected: "@
            + decimal_text(expected as nat) + ", actual: "@ + decimal_text(actual as nat) + " }"@,
        ArchiveDiagnostic::DataFileNumberMismatch { position, expected, actual } => "DataFileNumberMismatch { position: "@
            + decimal_text(position as nat) + ", expected: "@ + decimal_text(expected as nat) + ", actual: "@
            + decimal_text(actual as nat) + " }"@,
        ArchiveDiagnostic::UnexpectedDataFile { file_number } => "UnexpectedDataFile { file_number: "@
            + decimal_text(file_number as nat) + " }"@,
        ArchiveDiagnostic::GroupCountMismatch { expected, actual } => "GroupCountMismatch { expected: "@
            + decimal_text(expected as nat) + ", actual: "@ + decimal_text(actual as nat) + " }"@,
        ArchiveDiagnostic::LogicalBlockCountMismatch { expected, zlib_blocks, unresolved_gaps } =>
            "LogicalBlockCountMismatch { expected: "@ + decimal_text(expected as nat) + ", zlib_blocks: "@
            + decimal_text(zlib_blocks as nat) + ", unresolved_gaps: "@ + decimal_text(unresolved_gaps as nat)
            + " }"@,
        ArchiveDiagnostic::RawGapNotReferenced { gap, candidate_block_index } => "RawGapNotReferenced { gap: "@
            + gap_debug(gap) + ", candidate_block_index: "@ + decimal_text(candidate_block_index as nat) + " }"@,
        ArchiveDiagnostic::RawGapCandidateInconsistent { gap, candidate_block_index } =>
            "RawGapCandidateInconsistent { gap: "@ + gap_debug(gap) + ", candidate_block_index: "@ + decimal_text(
            candidate_block_index as nat,
        ) + " }"@,
        ArchiveDiagnostic::RecordBlockIndexOutOfRange { record_position, block_index, block_count } =>
            "RecordBlockIndexOutOfRange { record_position: "@ + decimal_text(record_position as nat)
            + ", block_index: "@ + decimal_text(block_index as nat) + ", block_count: "@ + decimal_text(
            block_count as nat,
        ) + " }"@,
        ArchiveDiagnostic::ImageByteSizeOverflow { record_position, width, height } =>
            "ImageByteSizeOverflow { record_position: "@ + decimal_text(record_position as nat) + ", width: "@
            + decimal_text(width as nat) + ", height: "@ + decimal_text(height as nat) + " }"@,
        ArchiveDiagnostic::ImageSizeMismatch { record_position, block_index, expected_size, actual_size } =>
            "ImageSizeMismatch { record_position: "@ + decimal_text(record_position as nat) + ", block_index: "@
            + decimal_text(block_index as nat) + ", expected_size: "@ + decimal_text(expected_size as nat)
            + ", actual_size: "@ + decimal_text(actual_size as nat) + " }"@,
    }
}

/// A list of layout diagnostics as it is written for debugging.
pub open spec fn diagnostic_list_text(diagnostics: Seq<ArchiveDiagnostic>) -> Seq<char> {
    bracketed(diagnostics.map_values(|d: ArchiveDiagnostic| diagnostic_debug(d)))
}

proof fn lemma_join_push(segments: Seq<Seq<char>>, separator: Seq<char>, next: Seq<char>)
    ensures
        join_segments(segments.push(next), separator) == if segments.len() == 0 {
            next
        } else {
            join_segments(segments, separator) + separator + next
        },
{
    assert(segments.push(next).drop_last() =~= segments);
}

/// The decimal form of `n`.
fn number(n: u64) -> (text: String)
    ensures
        text@ == decimal_text(n as nat),
{
    decimal_string_u64(n)
}

/// `joined` between square brackets.
fn close_list(joined: String, Ghost(items): Ghost<Seq<Seq<char>>>) -> (text: String)
    requires
        joined@ == join_segments(items, ", "@),
    ensures
        text@ == bracketed(items),
{
    let mut text = String::from_str("[");
    text.append(joined.as_str());
    text.append("]");
    text
}

/// A list of numbers as it is written for debugging.
pub fn number_list(values: &Vec<u32>) -> (text: String)
    ensures
        text@ == number_list_text(values@),
{
    let ghost items = values@.map_values(|n: u32| decimal_text(n as nat));
    let mut joined = String::new();
    let mut index: usize = 0;
    while index < values.len()
        invariant
            index <= values@.len(),
            items == values@.map_values(|n: u32| decimal_text(n as nat)),
            joined@ == join_segments(items.subrange(0, index as int), ", "@),
        decreases values@.len() - index,
    {
        proof {
            assert(items.subrange(0, index + 1) =~= items.subrange(0, index as int).push(items[index as int]));
            lemma_join_push(items.subrange(0, index as int), ", "@, items[index as int]);
        }
        if index > 0 {
            joined.append(", ");
        }
        joined.append(number(values[index] as u64).as_str());
        index += 1;
    }
    assert(items.subrange(0, index as int) =~= items);
    close_list(joined, Ghost(items))
}

/// A list of ranges as it is written for debugging.
pub fn pair_list(values: &Vec<(usize, usize)>) -> (text: String)
    ensures
        text@ == pair_list_text(values@),
{
    let ghost items = values@.map_values(|p: (usize, usize)| pair_text(p.0 as nat, p.1 as nat));
    let mut joined = String::new();
    let mut index: usize = 0;
    while index < values.len()
        invariant
            index <= values@.len(),
            items == values@.map_values(|p: (usize, usize)| pair_text(p.0 as nat, p.1 as nat)),
            joined@ == join_segments(items.subrange(0, index as int), ", "@),
        decreases values@.len() - index,
    {
        proof {
            assert(items.subrange(0, index + 1) =~= items.subrange(0, index as int).push(items[index as int]));
            lemma_join_push(items.subrange(0, index as int), ", "@, items[index as int]);
        }
        if index > 0 {
            joined.append(", ");
        }
        let (first, second) = values[index];
        let mut pair = String::from_str("(");
        pair.append(number(first as u64).as_str());
        pair.append(", ");
        pair.append(number(second as u64).as_str());
        pair.append(")");
        joined.append(pair.as_str());
        index += 1;
    }
    assert(items.subrange(0, index as int) =~= items);
    close_list(joined, Ghost(items))
}

/// A pair of numbers as a tuple is written for debugging.
fn pair_string(first: u64, second: u64) -> (text: String)
    ensures
        text@ == pair_text(first as nat, second as nat),
{
    let mut text = String::from_str("(");
    text.append(number(first).as_str());
    text.append(", ");
    text.append(number(second).as_str());
    text.append(")");
    text
}

/// A block location as it is written for debugging.
pub fn location_text(location: BlockLocation) -> (text: String)
    ensures
        text@ == location_debug(location),
{
    let mut text = String::from_str("BlockLocation { file_number: ");
    text.append(number(location.file_number as u64).as_str());
    text.append(", offset: ");
    text.append(number(location.offset as u64).as_str());
    text.append(" }");
    text
}

/// An unresolved gap as it is written for debugging.
pub fn gap_text(gap: UnresolvedGap) -> (text: String)
    ensures
        text@ == gap_debug(gap),
{
    let mut text = String::from_str("UnresolvedGap { location: ");
    text.append(location_text(gap.location).as_str());
    text.append(", len: ");
    text.append(number(gap.len as u64).as_str());
    text.append(" }");
    text
}

/// A layout diagnostic as it is written for debugging.
pub fn diagnostic_text(diagnostic: &ArchiveDiagnostic) -> (text: String)
    ensures
        text@ == diagnostic_debug(*diagnostic),
{
    match *diagnostic {
        ArchiveDiagnostic::ArchiveFileCountMismatch { expected, actual } => {
            let mut text = String::from_str("ArchiveFileCountMismatch { expected: ");
            text.append(number(expected as u64).as_str());
            text.append(", actual: ");
            text.append(number(actual as u64).as_str());
            text.append(" }");
            text
        },
        ArchiveDiagnostic::DataFileNumberMismatch { position, expected, actual } => {
            let mut text = String::from_str("DataFileNumberMismatch { position: ");
            text.append(number(position as u64).as_str());
            text.append(", expected: ");
            text.append(number(expected as u64).as_str());
            text.append(", actual: ");
            text.append(number(actual as u64).as_str());
            text.append(" }");
            text
        },
        ArchiveDiagnostic::UnexpectedDataFile { file_number } => {
            let mut text = String::from_str("UnexpectedDataFile { file_number: ");
            text.append(number(file_number as u64).as_str());
            text.append(" }");
            text
        },
        ArchiveDiagnostic::GroupCountMismatch { expected, actual } => {
            let mut text = String::from_str("GroupCountMismatch { expected: ");
            text.append(number(expected as u64).as_str());
            text.append(", actual: ");
            text.append(number(actual as u64).as_str());
            text.append(" }");
            text
        },
        ArchiveDiagnostic::LogicalBlockCountMismatch { expected, zlib_blocks, unresolved_gaps } => {
            let mut text = String::from_str("LogicalBlockCountMismatch { expected: ");
            text.append(number(expected as u64).as_str());
            text.append(", zlib_blocks: ");
            text.append(number(zlib_blocks as u64).as_str());
            text.append(", unresolved_gaps: ");
            text.append(number(unresolved_gaps as u64).as_str());
            text.append(" }");
            text
        },
        ArchiveDiagnostic::RawGapNotReferenced { gap, candidate_block_index } => {
            let mut text = String::from_str("RawGapNotReferenced { gap: ");
            text.append(gap_text(gap).as_str());
            text.append(", candidate_block_index: ");
            text.append(number(candidate_block_index as u64).as_str());
            text.append(" }");
            text
        },
        ArchiveDiagnostic::RawGapCandidateInconsistent { gap, candidate_block_index } => {
            let mut text = String::from_str("RawGapCandidateInconsistent { gap: ");
            text.append(gap_text(gap).as_str());
            text.append(", candidate_block_index: ");
            text.append(number(candidate_block_index as u64).as_str());
            text.append(" }");
            text
        },
        ArchiveDiagnostic::RecordBlockIndexOutOfRange { record_position, block_index, block_count } => {
            let mut text = String::from_str("RecordBlockIndexOutOfRange { record_position: ");
            text.append(number(record_position as u64).as_str());
            text.append(", block_index: ");
            text.append(number(block_index as u64).as_str());
            text.append(", block_count: ");
            text.append(number(block_count as u64).as_str());
            text.append(" }");
            text
        },
        ArchiveDiagnostic::ImageByteSizeOverflow { record_position, width, height } => {
            let mut text = String::from_str("ImageByteSizeOverflow { record_position: ");
            text.append(number(record_position as u64).as_str());
            text.append(", width: ");
            text.append(number(width as u64).as_str());
            text.append(", height: ");
            text.append(number(height as u64).as_str());
            text.append(" }");
            text
        },
        ArchiveDiagnostic::ImageSizeMismatch { record_position, block_index, expected_size, actual_size } => {
            let mut text = String::from_str("ImageSizeMismatch { record_position: ");
            text.append(number(record_position as u64).as_str());
            text.append(", block_index: ");
            text.append(number(block_index as u64).as_str());
            text.append(", expected_size: ");
            text.append(number(expected_size).as_str());
            text.append(", actual_size: ");
            text.append(number(actual_size).as_str());
            text.append(" }");
            text
        },
    }
}

/// A list of layout diagnostics as it is written for debugging.
pub fn diagnostic_list(diagnostics: &Vec<ArchiveDiagnostic>) -> (text: String)
    ensures
        text@ == diagnostic_list_text(diagnostics@),
{
    let ghost items = diagnostics@.map_values(|d: ArchiveDiagnostic| diagnostic_debug(d));
    let mut joined = String::new();
    let mut index: usize = 0;
    while index < diagnostics.len()
        invariant
            index <= diagnostics@.len(),
            items == diagnostics@.map_values(|d: ArchiveDiagnostic| diagnostic_debug(d)),
            joined@ == join_segments(items.subrange(0, index as int), ", "@),
        decreases diagnostics@.len() - index,
    {
        proof {
            assert(items.subrange(0, index + 1) =~= items.subrange(0, index as int).push(items[index as int]));
            lemma_join_push(items.subrange(0, index as int), ", "@, items[index as int]);
        }
        if index > 0 {
            joined.append(", ");
        }
        joined.append(diagnostic_text(&diagnostics[index]).as_str());
        index += 1;
    }
    assert(items.subrange(0, index as int) =~= items);
    close_list(joined, Ghost(items))
}


// ---------------------------------------------------------------------------
// Messages of the format errors
// ---------------------------------------------------------------------------

/// `" at file {file} offset {offset}"` for a block location.
pub open spec fn at_location(location: BlockLocation) -> Seq<char> {
    " at file "@ + decimal_text(location.file_number as nat) + " offset "@ + decimal_text(
        location.offset as nat,
    )
}

fn at_location_text(location: BlockLocation) -> (text: String)
    ensures
        text@ == at_location(location),
{
    let mut text = String::from_str(" at file ");
    text.append(number(location.file_number as u64).as_str());
    text.append(" offset ");
    text.append(number(location.offset as u64).as_str());
    text
}

impl BlockScanError {
    /// The text of the message shown to the user.
    pub open spec fn spec_message(self) -> Seq<char> {
        match self {
            BlockScanError::HeaderTruncated { location, remaining_bytes } => "MWC block header is truncated"@
                + at_location(location) + ": need "@ + decimal_text(BLOCK_HEADER_SIZE as nat) + " bytes, found "@
                + decimal_text(remaining_bytes as nat),
            BlockScanError::PayloadEndOverflow { location, compressed_size } =>
                "MWC payload end overflows this platform"@ + at_location(location) + ": compressed_size="@
                + decimal_text(compressed_size as nat),
            BlockScanError::PayloadTruncated { location, compressed_size, available_bytes } =>
                "MWC payload is truncated"@ + at_location(location) + ": declared "@ + decimal_text(
                compressed_size as nat,
            ) + " bytes, found "@ + decimal_text(available_bytes as nat),
        }
    }

    /// The message shown to the user.
    pub fn message(&self) -> (text: String)
        ensures
            text@ == self.spec_message(),
    {
        match *self {
            BlockScanError::HeaderTruncated { location, remaining_bytes } => {
                let mut text = String::from_str("MWC block header is truncated");
                text.append(at_location_text(location).as_str());
                text.append(": need ");
                text.append(number(BLOCK_HEADER_SIZE as u64).as_str());
                text.append(" bytes, found ");
                text.append(number(remaining_bytes as u64).as_str());
                text
            },
            BlockScanError::PayloadEndOverflow { location, compressed_size } => {
                let mut text = String::from_str("MWC payload end overflows this platform");
                text.append(at_location_text(location).as_str());
                text.append(": compressed_size=");
                text.append(number(compressed_size as u64).as_str());
                text
            },
            BlockScanError::PayloadTruncated { location, compressed_size, available_bytes } => {
                let mut text = String::from_str("MWC payload is truncated");
                text.append(at_location_text(location).as_str());
                text.append(": declared ");
                text.append(number(compressed_size as u64).as_str());
                text.append(" bytes, found ");
                text.append(number(available_bytes as u64).as_str());
                text
            },
        }
    }
}

impl BlockDecodeError {
    /// The text of the message shown to the user.
    pub open spec fn spec_message(self) -> Seq<char> {
        match self {
            BlockDecodeError::OutputLimitExceeded { location, declared_size, max_output_size } => "MWC block"@
                + at_location(location) + " declares "@ + decimal_text(declared_size as nat)
                + " output bytes, exceeding limit "@ + decimal_text(max_output_size as nat),
            BlockDecodeError::PayloadOutOfBounds { location, payload_offset, compressed_size, file_size } =>
                "MWC payload is outside file "@ + decimal_text(location.file_number as nat) + ": block offset "@
                + decimal_text(location.offset as nat) + ", payload offset "@ + decimal_text(payload_offset as nat)
                + ", compressed size "@ + decimal_text(compressed_size as nat) + ", file size "@ + decimal_text(
                file_size as nat,
            ),
            BlockDecodeError::PayloadSizeMismatch { location, expected_size, actual_size } =>
                "MWC payload size mismatch"@ + at_location(location) + ": expected "@ + decimal_text(
                expected_size as nat,
            ) + ", got "@ + decimal_text(actual_size as nat),
            BlockDecodeError::InvalidZlib { location, message } => "invalid zlib payload"@ + at_location(location)
                + ": "@ + message@,
            BlockDecodeError::OutputSizeMismatch { location, expected_size, actual_size } =>
                "MWC output size mismatch"@ + at_location(location) + ": expected "@ + decimal_text(
                expected_size as nat,
            ) + ", got "@ + decimal_text(actual_size as nat),
        }
    }

    /// The message shown to the user.
    pub fn message(&self) -> (text: String)
        ensures
            text@ == self.spec_message(),
    {
        match self {
            BlockDecodeError::OutputLimitExceeded { location, declared_size, max_output_size } => {
                let mut text = String::from_str("MWC block");
                text.append(at_location_text(*location).as_str());
                text.append(" declares ");
                text.append(number(*declared_size as u64).as_str());
                text.append(" output bytes, exceeding limit ");
                text.append(number(*max_output_size as u64).as_str());
                text
            },
            BlockDecodeError::PayloadOutOfBounds { location, payload_offset, compressed_size, file_size } => {
                let mut text = String::from_str("MWC payload is outside file ");
                text.append(number(location.file_number as u64).as_str());
                text.append(": block offset ");
                text.append(number(location.offset as u64).as_str());
                text.append(", payload offset ");
                text.append(number(*payload_offset as u64).as_str());
                text.append(", compressed size ");
                text.append(number(*compressed_size as u64).as_str());
                text.append(", file size ");
                text.append(number(*file_size as u64).as_str());
                text
            },
            BlockDecodeError::PayloadSizeMismatch { location, expected_size, actual_size } => {
                let mut text = String::from_str("MWC payload size mismatch");
                text.append(at_location_text(*location).as_str());
                text.append(": expected ");
                text.append(number(*expected_size as u64).as_str());
                text.append(", got ");
                text.append(number(*actual_size as u64).as_str());
                text
            },
            BlockDecodeError::InvalidZlib { location, message } => {
                let mut text = String::from_str("invalid zlib payload");
                text.append(at_location_text(*location).as_str());
                text.append(": ");
                text.append(message.as_str());
                text
            },
            BlockDecodeError::OutputSizeMismatch { location, expected_size, actual_size } => {
                let mut text = String::from_str("MWC output size mismatch");
                text.append(at_location_text(*location).as_str());
                text.append(": expected ");
                text.append(number(*expected_size as u64).as_str());
                text.append(", got ");
                text.append(number(*actual_size as u64).as_str());
                text
            },
        }
    }
}

impl IndexParseError {
    /// The text of the message shown to the user.
    pub open spec fn spec_message(self) -> Seq<char> {
        match self {
            IndexParseError::HeaderTooShort { actual_len } => "index header is truncated: need at least "@
                + decimal_text(HEADER_SIZE as nat) + " bytes, found "@ + decimal_text(actual_len as nat),
            IndexParseError::RecordRegionSizeOverflow { record_count } =>
                "index record region size overflows this platform: record_count="@ + decimal_text(
                record_count as nat,
            ),
            IndexParseError::RecordRegionTruncated { record_count, required_len, actual_len } =>
                "index record region is truncated: record_count="@ + decimal_text(record_count as nat) + ", need "@
                + decimal_text(required_len as nat) + " bytes, found "@ + decimal_text(actual_len as nat),
        }
    }

    /// The message shown to the user.
    pub fn message(&self) -> (text: String)
        ensures
            text@ == self.spec_message(),
    {
        match *self {
            IndexParseError::HeaderTooShort { actual_len } => {
                let mut text = String::from_str("index header is truncated: need at least ");
                text.append(number(HEADER_SIZE as u64).as_str());
                text.append(" bytes, found ");
                text.append(number(actual_len as u64).as_str());
                text
            },
            IndexParseError::RecordRegionSizeOverflow { record_count } => {
                let mut text = String::from_str("index record region size overflows this platform: record_count=");
                text.append(number(record_count as u64).as_str());
                text
            },
            IndexParseError::RecordRegionTruncated { record_count, required_len, actual_len } => {
                let mut text = String::from_str("index record region is truncated: record_count=");
                text.append(number(record_count as u64).as_str());
                text.append(", need ");
                text.append(number(required_len as u64).as_str());
                text.append(" bytes, found ");
                text.append(number(actual_len as u64).as_str());
                text
            },
        }
    }
}

impl InlineBlockTableError {
    /// The text of the message shown to the user.
    pub open spec fn spec_message(self) -> Seq<char> {
        match self {
            InlineBlockTableError::HeaderTruncated { actual_len } =>
                "inline block table header is truncated: expected 4 bytes, found "@ + decimal_text(actual_len as nat),
            InlineBlockTableError::TableSizeOverflow { entry_count } =>
                "inline block table size overflows this platform: entries="@ + decimal_text(entry_count as nat),
            InlineBlockTableError::EntriesTruncated { entry_count, expected_len, actual_len } =>
                "inline block table is truncated for "@ + decimal_text(entry_count as nat) + " entries: expected "@
                + decimal_text(expected_len as nat) + " bytes, found "@ + decimal_text(actual_len as nat),
            InlineBlockTableError::EntryOutOfBounds { index, offset, stored_size, file_size } =>
                "inline block entry "@ + decimal_text(index as nat) + " is outside the file: offset="@ + decimal_text(
                offset as nat,
            ) + ", stored_size="@ + decimal_text(stored_size as nat) + ", file_size="@ + decimal_text(
                file_size as nat,
            ),
        }
    }

    /// The message shown to the user.
    pub fn message(&self) -> (text: String)
        ensures
            text@ == self.spec_message(),
    {
        match *self {
            InlineBlockTableError::HeaderTruncated { actual_len } => {
                let mut text = String::from_str("inline block table header is truncated: expected 4 bytes, found ");
                text.append(number(actual_len as u64).as_str());
                text
            },
            InlineBlockTableError::TableSizeOverflow { entry_count } => {
                let mut text = String::from_str("inline block table size overflows this platform: entries=");
                text.append(number(entry_count as u64).as_str());
                text
            },
            InlineBlockTableError::EntriesTruncated { entry_count, expected_len, actual_len } => {
                let mut text = String::from_str("inline block table is truncated for ");
                text.append(number(entry_count as u64).as_str());
                text.append(" entries: expected ");
                text.append(number(expected_len as u64).as_str());
                text.append(" bytes, found ");
                text.append(number(actual_len as u64).as_str());
                text
            },
            InlineBlockTableError::EntryOutOfBounds { index, offset, stored_size, file_size } => {
                let mut text = String::from_str("inline block entry ");
                text.append(number(index as u64).as_str());
                text.append(" is outside the file: offset=");
                text.append(number(offset as u64).as_str());
                text.append(", stored_size=");
                text.append(number(stored_size as u64).as_str());
                text.append(", file_size=");
                text.append(number(file_size as u64).as_str());
                text
            },
        }
    }
}

impl ArchiveBlockDecodeError {
    /// The text of the message shown to the user.
    pub open spec fn spec_message(self) -> Seq<char> {
        match self {
            ArchiveBlockDecodeError::Zlib(error) => error.spec_message(),
            ArchiveBlockDecodeError::OutputLimitExceeded { location, block_size, max_output_size } => "raw block"@
                + at_location(location) + " contains "@ + decimal_text(block_size as nat)
                + " bytes, exceeding limit "@ + decimal_text(max_output_size as nat),
            ArchiveBlockDecodeError::RawDataEndOverflow { location, block_size } =>
                "raw block end overflows this platform"@ + at_location(location) + ": block size "@ + decimal_text(
                block_size as nat,
            ),
            ArchiveBlockDecodeError::RawDataOutOfBounds { location, block_size, file_size } =>
                "raw block is outside file "@ + decimal_text(location.file_number as nat) + ": offset "@
                + decimal_text(location.offset as nat) + ", block size "@ + decimal_text(block_size as nat)
                + ", file size "@ + decimal_text(file_size as nat),
            ArchiveBlockDecodeError::StoredSizeMismatch { location, expected_size, actual_size } =>
                "stored block size mismatch"@ + at_location(location) + ": expected "@ + decimal_text(
                expected_size as nat,
            ) + ", got "@ + decimal_text(actual_size as nat),
        }
    }

    /// The message shown to the user.
    pub fn message(&self) -> (text: String)
        ensures
            text@ == self.spec_message(),
    {
        match self {
            ArchiveBlockDecodeError::Zlib(error) => error.message(),
            ArchiveBlockDecodeError::OutputLimitExceeded { location, block_size, max_output_size } => {
                let mut text = String::from_str("raw block");
                text.append(at_location_text(*location).as_str());
                text.append(" contains ");
                text.append(number(*block_size as u64).as_str());
                text.append(" bytes, exceeding limit ");
                text.append(number(*max_output_size as u64).as_str());
                text
            },
            ArchiveBlockDecodeError::RawDataEndOverflow { location, block_size } => {
                let mut text = String::from_str("raw block end overflows this platform");
                text.append(at_location_text(*location).as_str());
                text.append(": block size ");
                text.append(number(*block_size as u64).as_str());
                text
            },
            ArchiveBlockDecodeError::RawDataOutOfBounds { location, block_size, file_size } => {
                let mut text = String::from_str("raw block is outside file ");
                text.append(number(location.file_number as u64).as_str());
                text.append(": offset ");
                text.append(number(location.offset as u64).as_str());
                text.append(", block size ");
                text.append(number(*block_size as u64).as_str());
                text.append(", file size ");
                text.append(number(*file_size as u64).as_str());
                text
            },
            ArchiveBlockDecodeError::StoredSizeMismatch { location, expected_size, actual_size } => {
                let mut text = String::from_str("stored block size mismatch");
                text.append(at_location_text(*location).as_str());
                text.append(": expected ");
                text.append(number(*expected_size as u64).as_str());
                text.append(", got ");
                text.append(number(*actual_size as u64).as_str());
                text
            },
        }
    }
}


// ---------------------------------------------------------------------------
// Messages of the image errors
// ---------------------------------------------------------------------------

/// `"{width}x{height}"`.
pub open spec fn size_text(width: nat, height: nat) -> Seq<char> {
    decimal_text(width) + "x"@ + decimal_text(height)
}

fn size_string(width: u64, height: u64) -> (text: String)
    ensures
        text@ == size_text(width as nat, height as nat),
{
    let mut text = number(width);
    text.append("x");
    text.append(number(height).as_str());
    text
}

impl ThumbnailError {
    /// The text of the message shown to the user.
    pub open spec fn spec_message(self) -> Seq<char> {
        match self {
            ThumbnailError::EmptyBounds { max_width, max_height } => "thumbnail bounds must be non-zero: "@
                + size_text(max_width as nat, max_height as nat),
            ThumbnailError::DimensionOverflow { width, height, max_width, max_height } =>
                "thumbnail dimensions overflow: source="@ + size_text(width as nat, height as nat) + ", bounds="@
                + size_text(max_width as nat, max_height as nat),
            ThumbnailError::OutputTooLarge { required, maximum } => "thumbnail requires "@ + decimal_text(
                required as nat,
            ) + " decoded bytes, exceeding the limit of "@ + decimal_text(maximum as nat),
        }
    }

    /// The message shown to the user.
    pub fn message(&self) -> (text: String)
        ensures
            text@ == self.spec_message(),
    {
        match *self {
            ThumbnailError::EmptyBounds { max_width, max_height } => {
                let mut text = String::from_str("thumbnail bounds must be non-zero: ");
                text.append(size_string(max_width as u64, max_height as u64).as_str());
                text
            },
            ThumbnailError::DimensionOverflow { width, height, max_width, max_height } => {
                let mut text = String::from_str("thumbnail dimensions overflow: source=");
                text.append(size_string(width as u64, height as u64).as_str());
                text.append(", bounds=");
                text.append(size_string(max_width as u64, max_height as u64).as_str());
                text
            },
            ThumbnailError::OutputTooLarge { required, maximum } => {
                let mut text = String::from_str("thumbnail requires ");
                text.append(number(required as u64).as_str());
                text.append(" decoded bytes, exceeding the limit of ");
                text.append(number(maximum as u64).as_str());
                text
            },
        }
    }
}

impl PixelDecodeError {
    /// The text of the message shown to the user.
    pub open spec fn spec_message(self) -> Seq<char> {
        match self {
            PixelDecodeError::DimensionOverflow { width, height } =>
                "decoded image byte length overflows this platform: width="@ + decimal_text(width as nat)
                + ", height="@ + decimal_text(height as nat),
            PixelDecodeError::ByteLengthMismatch { width, height, expected_len, actual_len } =>
                "decoded image byte length mismatch for "@ + size_text(width as nat, height as nat) + ": expected "@
                + decimal_text(expected_len as nat) + ", found "@ + decimal_text(actual_len as nat),
        }
    }

    /// The message shown to the user.
    pub fn message(&self) -> (text: String)
        ensures
            text@ == self.spec_message(),
    {
        match *self {
            PixelDecodeError::DimensionOverflow { width, height } => {
                let mut text = String::from_str("decoded image byte length overflows this platform: width=");
                text.append(number(width as u64).as_str());
                text.append(", height=");
                text.append(number(height as u64).as_str());
                text
            },
            PixelDecodeError::ByteLengthMismatch { width, height, expected_len, actual_len } => {
                let mut text = String::from_str("decoded image byte length mismatch for ");
                text.append(size_string(width as u64, height as u64).as_str());
                text.append(": expected ");
                text.append(number(expected_len as u64).as_str());
                text.append(", found ");
                text.append(number(actual_len as u64).as_str());
                text
            },
        }
    }
}

impl PngEncodeError {
    /// The text of the message shown to the user.
    pub open spec fn spec_message(self) -> Seq<char> {
        "failed to encode RGBA image as PNG: "@ + self.message@
    }

    /// The message shown to the user.
    pub fn message(&self) -> (text: String)
        ensures
            text@ == self.spec_message(),
    {
        let mut text = String::from_str("failed to encode RGBA image as PNG: ");
        text.append(self.message.as_str());
        text
    }
}

impl ImageAssemblyError {
    /// The text of the message shown to the user.
    pub open spec fn spec_message(self) -> Seq<char> {
        match self {
            ImageAssemblyError::LayerDimensionMismatch { base, layer } => "overlay dimensions are "@ + size_text(
                layer.0 as nat,
                layer.1 as nat,
            ) + ", expected "@ + size_text(base.0 as nat, base.1 as nat),
            ImageAssemblyError::EmptyGrid { columns, rows } => "image grid must not be empty: "@ + size_text(
                columns as nat,
                rows as nat,
            ),
            ImageAssemblyError::GridOverflow { columns, rows } => "image grid tile count overflows this platform: "@
                + size_text(columns as nat, rows as nat),
            ImageAssemblyError::TileCountMismatch { columns, rows, expected, actual } => "image grid "@ + size_text(
                columns as nat,
                rows as nat,
            ) + " requires "@ + decimal_text(expected as nat) + " tiles, found "@ + decimal_text(actual as nat),
            ImageAssemblyError::ColumnWidthMismatch { tile_index, column, expected, actual } => "tile "@
                + decimal_text(tile_index as nat) + " in column "@ + decimal_text(column as nat) + " has width "@
                + decimal_text(actual as nat) + ", expected "@ + decimal_text(expected as nat),
            ImageAssemblyError::RowHeightMismatch { tile_index, row, expected, actual } => "tile "@ + decimal_text(
                tile_index as nat,
            ) + " in row "@ + decimal_text(row as nat) + " has height "@ + decimal_text(actual as nat)
                + ", expected "@ + decimal_text(expected as nat),
            ImageAssemblyError::OutputDimensionMismatch { expected, actual } => "assembled image dimensions are "@
                + size_text(actual.0 as nat, actual.1 as nat) + ", expected "@ + size_text(
                expected.0 as nat,
                expected.1 as nat,
            ),
            ImageAssemblyError::DimensionOverflow { output_width, output_height } =>
                "assembled image dimensions overflow this platform: "@ + size_text(
                output_width as nat,
                output_height as nat,
            ),
            ImageAssemblyError::OutputTooLarge { required, maximum } => "assembled image requires "@
                + decimal_text(required as nat) + " bytes, exceeding the "@ + decimal_text(maximum as nat)
                + "-byte limit"@,
        }
    }

    /// The message shown to the user.
    pub fn message(&self) -> (text: String)
        ensures
            text@ == self.spec_message(),
    {
        match *self {
            ImageAssemblyError::LayerDimensionMismatch { base, layer } => {
                let mut text = String::from_str("overlay dimensions are ");
                text.append(size_string(layer.0 as u64, layer.1 as u64).as_str());
                text.append(", expected ");
                text.append(size_string(base.0 as u64, base.1 as u64).as_str());
                text
            },
            ImageAssemblyError::EmptyGrid { columns, rows } => {
                let mut text = String::from_str("image grid must not be empty: ");
                text.append(size_string(columns as u64, rows as u64).as_str());
                text
            },
            ImageAssemblyError::GridOverflow { columns, rows } => {
                let mut text = String::from_str("image grid tile count overflows this platform: ");
                text.append(size_string(columns as u64, rows as u64).as_str());
                text
            },
            ImageAssemblyError::TileCountMismatch { columns, rows, expected, actual } => {
                let mut text = String::from_str("image grid ");
                text.append(size_string(columns as u64, rows as u64).as_str());
                text.append(" requires ");
                text.append(number(expected as u64).as_str());
                text.append(" tiles, found ");
                text.append(number(actual as u64).as_str());
                text
            },
            ImageAssemblyError::ColumnWidthMismatch { tile_index, column, expected, actual } => {
                let mut text = String::from_str("tile ");
                text.append(number(tile_index as u64).as_str());
                text.append(" in column ");
                text.append(number(column as u64).as_str());
                text.append(" has width ");
                text.append(number(actual as u64).as_str());
                text.append(", expected ");
                text.append(number(expected as u64).as_str());
                text
            },
            ImageAssemblyError::RowHeightMismatch { tile_index, row, expected, actual } => {
                let mut text = String::from_str("tile ");
                text.append(number(tile_index as u64).as_str());
                text.append(" in row ");
                text.append(number(row as u64).as_str());
                text.append(" has height ");
                text.append(number(actual as u64).as_str());
                text.append(", expected ");
                text.append(number(expected as u64).as_str());
                text
            },
            ImageAssemblyError::OutputDimensionMismatch { expected, actual } => {
                let mut text = String::from_str("assembled image dimensions are ");
                text.append(size_string(actual.0 as u64, actual.1 as u64).as_str());
                text.append(", expected ");
                text.append(size_string(expected.0 as u64, expected.1 as u64).as_str());
                text
            },
            ImageAssemblyError::DimensionOverflow { output_width, output_height } => {
                let mut text = String::from_str("assembled image dimensions overflow this platform: ");
                text.append(size_string(output_width as u64, output_height as u64).as_str());
                text
            },
            ImageAssemblyError::OutputTooLarge { required, maximum } => {
                let mut text = String::from_str("assembled image requires ");
                text.append(number(required as u64).as_str());
                text.append(" bytes, exceeding the ");
                text.append(number(maximum as u64).as_str());
                text.append("-byte limit");
                text
            },
        }
    }
}


// ---------------------------------------------------------------------------
// Messages of the extraction errors
// ---------------------------------------------------------------------------

/// What std's `Debug` for `str` writes for `text`: the text between double quotes, with quotes,
/// backslashes and characters that are not printable written as escapes.
pub uninterp spec fn debug_quoted(text: Seq<char>) -> Seq<char>;

/// `text` as std's `Debug` for `str` writes it (`format!("{:?}", text)`): the contract says
/// only that the same text always gives the same result, named by `debug_quoted`.
#[verifier::external_body]
fn quoted(text: &str) -> (written: String)
    ensures
        written@ == debug_quoted(text@),
{
    format!("{:?}", text)
}

/// A pixel format as it is written for debugging.
pub open spec fn pixel_format_debug(format: RawPixelFormat) -> Seq<char> {
    match format {
        RawPixelFormat::Gray8 => "Gray8"@,
        RawPixelFormat::Bgra8 => "Bgra8"@,
    }
}

fn pixel_format_text(format: RawPixelFormat) -> (text: String)
    ensures
        text@ == pixel_format_debug(format),
{
    match format {
        RawPixelFormat::Gray8 => String::from_str("Gray8"),
        RawPixelFormat::Bgra8 => String::from_str("Bgra8"),
    }
}

impl ArchivePrefixError {
    /// The text of the message shown to the user.
    pub open spec fn spec_message(self) -> Seq<char> {
        "archive prefix must contain exactly two ASCII letters: "@ + debug_quoted(self.provided@)
    }

    /// The message shown to the user.
    pub fn message(&self) -> (text: String)
        ensures
            text@ == self.spec_message(),
    {
        let mut text = String::from_str("archive prefix must contain exactly two ASCII letters: ");
        text.append(quoted(self.provided.as_str()).as_str());
        text
    }
}

impl ExtractError {
    /// The text of the message shown to the user.
    pub open spec fn spec_message(self) -> Seq<char> {
        match self {
            ExtractError::InvalidPrefix(error) => error.spec_message(),
            ExtractError::IndexParse(error) => error.spec_message(),
            ExtractError::BlockScan { file_number, source } => "failed to scan data file "@ + decimal_text(
                file_number as nat,
            ) + ": "@ + source.spec_message(),
            ExtractError::RawImageDimensionOverflow { width, height } =>
                "raw image dimensions overflow this platform: "@ + size_text(width as nat, height as nat),
            ExtractError::RawImageSpecEmpty => "raw image specification has no sizes"@,
            ExtractError::RawImageSpecSizeMismatch { width, height, pixel_format, declared_size, expected_size } =>
                "raw image specification disagrees with its pixel format: "@ + size_text(width as nat, height as nat)
                + " "@ + pixel_format_debug(pixel_format) + " declares "@ + decimal_text(declared_size as nat)
                + " bytes, expected "@ + decimal_text(expected_size as nat),
            ExtractError::RawUnresolvedGap { file_number, offset, len } => "raw image archive file "@
                + decimal_text(file_number as nat) + " contains "@ + decimal_text(len as nat)
                + " unresolved bytes at offset "@ + decimal_text(offset as nat),
            ExtractError::RawImageSizeUnsupported { file_number, file_block_index, actual_size, supported_sizes } =>
                "raw image block "@ + decimal_text(file_block_index as nat) + " in file "@ + decimal_text(
                file_number as nat,
            ) + " declares unsupported size "@ + decimal_text(actual_size as nat) + "; supported sizes are "@
                + number_list_text(supported_sizes@),
            ExtractError::RawBlockIndexOverflow { file_number } => "raw image block index exceeds u32 in file "@
                + decimal_text(file_number as nat),
            ExtractError::RawArchiveBlockCountOverflow => "raw image archive block count exceeds u32"@,
            ExtractError::RawArchiveFileCountOverflow => "raw image archive file count exceeds u32"@,
            ExtractError::InlineBlockTableParse { file_number, source } =>
                "failed to parse inline block table in file "@ + decimal_text(file_number as nat) + ": "@
                + source.spec_message(),
            ExtractError::InlineBlockTableGapMismatch { file_number, table_size, gaps } => "inline block table in file "@
                + decimal_text(file_number as nat) + " occupies "@ + decimal_text(table_size as nat)
                + " bytes but unresolved ranges are "@ + pair_list_text(gaps@),
            ExtractError::InlineBlockCountMismatch { file_number, table_count, block_count } =>
                "inline block table in file "@ + decimal_text(file_number as nat) + " declares "@ + decimal_text(
                table_count as nat,
            ) + " blocks but the file contains "@ + decimal_text(block_count as nat),
            ExtractError::InlineBlockEntryMismatch {
                file_number,
                file_block_index,
                table_offset,
                table_stored_size,
                block_offset,
                block_stored_size,
            } => "inline block entry "@ + decimal_text(file_block_index as nat) + " in file "@ + decimal_text(
                file_number as nat,
            ) + " does not match its MWC block: table="@ + pair_text(table_offset as nat, table_stored_size as nat)
                + ", block="@ + pair_text(block_offset as nat, block_stored_size as nat),
            ExtractError::RawResourceNotFound { key } => "raw image block was not found: archive block "@
                + decimal_text(key.block_index as nat) + ", file "@ + decimal_text(key.file_number as nat)
                + ", file block "@ + decimal_text(key.file_block_index as nat),
            ExtractError::RawLayerBlockMissing { file_number, file_block_index } =>
                "raw assembly layer block was not found: file "@ + decimal_text(file_number as nat)
                + ", file block "@ + decimal_text(file_block_index as nat),
            ExtractError::RawCompressedSizeOverflow { key, compressed_size } => "raw image block "@ + decimal_text(
                key.block_index as nat,
            ) + " compressed size "@ + decimal_text(compressed_size as nat) + " exceeds this platform"@,
            ExtractError::RawBlockDecode(error) => error.spec_message(),
            ExtractError::InvalidLayout { diagnostics } => "archive layout could not be validated: "@
                + diagnostic_list_text(diagnostics@),
            ExtractError::ResourceNotFound { key } => "resource was not found: group="@ + decimal_text(
                key.group_code as nat,
            ) + ", icon="@ + decimal_text(key.icon_id as nat) + ", block="@ + decimal_text(key.block_index as nat),
            ExtractError::ConflictingRecordDimensions { key, first, conflicting } =>
                "resource records disagree on dimensions for group="@ + decimal_text(key.group_code as nat)
                + ", icon="@ + decimal_text(key.icon_id as nat) + ", block="@ + decimal_text(key.block_index as nat)
                + ": "@ + size_text(first.0 as nat, first.1 as nat) + " versus "@ + size_text(
                conflicting.0 as nat,
                conflicting.1 as nat,
            ),
            ExtractError::AssemblyTileRecordNotFound { block_index } => "assembly tile has no index record: block="@
                + decimal_text(block_index as nat),
            ExtractError::ConflictingBlockDimensions { block_index, first, conflicting } =>
                "assembly tile records disagree on dimensions for block="@ + decimal_text(block_index as nat) + ": "@
                + size_text(first.0 as nat, first.1 as nat) + " versus "@ + size_text(
                conflicting.0 as nat,
                conflicting.1 as nat,
            ),
            ExtractError::AssemblyArchiveMismatch { expected, actual } => "assembly rule belongs to archive "@
                + expected@ + ", not "@ + actual@,
            ExtractError::AssemblyRuleNotVerified { first_block, last_block } => "assembly rule for blocks "@
                + decimal_text(first_block as nat) + "..="@ + decimal_text(last_block as nat)
                + " is not human-verified"@,
            ExtractError::BlockUnavailable { block_index } => "resolved block "@ + decimal_text(block_index as nat)
                + " is unavailable"@,
            ExtractError::DataFileUnavailable { file_number } => "data file "@ + decimal_text(file_number as nat)
                + " is unavailable"@,
            ExtractError::StoredRangeUnavailable { file_number, offset, len, file_size } =>
                "stored range of data file "@ + decimal_text(file_number as nat) + " is unavailable: offset "@
                + decimal_text(offset as nat) + ", length "@ + decimal_text(len as nat) + ", file size "@
                + decimal_text(file_size as nat),
            ExtractError::BlockDecode(error) => error.spec_message(),
            ExtractError::PixelDecode(error) => error.spec_message(),
            ExtractError::ImageAssembly(error) => error.spec_message(),
            ExtractError::Thumbnail(error) => error.spec_message(),
            ExtractError::PngEncode(error) => error.spec_message(),
        }
    }

    /// The message shown to the user.
    pub fn message(&self) -> (text: String)
        ensures
            text@ == self.spec_message(),
    {
        match self {
            ExtractError::InvalidPrefix(error) => error.message(),
            ExtractError::IndexParse(error) => error.message(),
            ExtractError::BlockScan { file_number, source } => {
                let mut text = String::from_str("failed to scan data file ");
                text.append(number(*file_number as u64).as_str());
                text.append(": ");
                text.append(source.message().as_str());
                text
            },
            ExtractError::RawImageDimensionOverflow { width, height } => {
                let mut text = String::from_str("raw image dimensions overflow this platform: ");
                text.append(size_string(*width as u64, *height as u64).as_str());
                text
            },
            ExtractError::RawImageSpecEmpty => String::from_str("raw image specification has no sizes"),
            ExtractError::RawImageSpecSizeMismatch { width, height, pixel_format, declared_size, expected_size } => {
                let mut text = String::from_str("raw image specification disagrees with its pixel format: ");
                text.append(size_string(*width as u64, *height as u64).as_str());
                text.append(" ");
                text.append(pixel_format_text(*pixel_format).as_str());
                text.append(" declares ");
                text.append(number(*declared_size as u64).as_str());
                text.append(" bytes, expected ");
                text.append(number(*expected_size as u64).as_str());
                text
            },
            ExtractError::RawUnresolvedGap { file_number, offset, len } => {
                let mut text = String::from_str("raw image archive file ");
                text.append(number(*file_number as u64).as_str());
                text.append(" contains ");
                text.append(number(*len as u64).as_str());
                text.append(" unresolved bytes at offset ");
                text.append(number(*offset as u64).as_str());
                text
            },
            ExtractError::RawImageSizeUnsupported { file_number, file_block_index, actual_size, supported_sizes } => {
                let mut text = String::from_str("raw image block ");
                text.append(number(*file_block_index as u64).as_str());
                text.append(" in file ");
                text.append(number(*file_number as u64).as_str());
                text.append(" declares unsupported size ");
                text.append(number(*actual_size as u64).as_str());
                text.append("; supported sizes are ");
                text.append(number_list(supported_sizes).as_str());
                text
            },
            ExtractError::RawBlockIndexOverflow { file_number } => {
                let mut text = String::from_str("raw image block index exceeds u32 in file ");
                text.append(number(*file_number as u64).as_str());
                text
            },
            ExtractError::RawArchiveBlockCountOverflow => String::from_str("raw image archive block count exceeds u32"),
            ExtractError::RawArchiveFileCountOverflow => String::from_str("raw image archive file count exceeds u32"),
            ExtractError::InlineBlockTableParse { file_number, source } => {
                let mut text = String::from_str("failed to parse inline block table in file ");
                text.append(number(*file_number as u64).as_str());
                text.append(": ");
                text.append(source.message().as_str());
                text
            },
            ExtractError::InlineBlockTableGapMismatch { file_number, table_size, gaps } => {
                let mut text = String::from_str("inline block table in file ");
                text.append(number(*file_number as u64).as_str());
                text.append(" occupies ");
                text.append(number(*table_size as u64).as_str());
                text.append(" bytes but unresolved ranges are ");
                text.append(pair_list(gaps).as_str());
                text
            },
            ExtractError::InlineBlockCountMismatch { file_number, table_count, block_count } => {
                let mut text = String::from_str("inline block table in file ");
                text.append(number(*file_number as u64).as_str());
                text.append(" declares ");
                text.append(number(*table_count as u64).as_str());
                text.append(" blocks but the file contains ");
                text.append(number(*block_count as u64).as_str());
                text
            },
            ExtractError::InlineBlockEntryMismatch {
                file_number,
                file_block_index,
                table_offset,
                table_stored_size,
                block_offset,
                block_stored_size,
            } => {
                let mut text = String::from_str("inline block entry ");
                text.append(number(*file_block_index as u64).as_str());
                text.append(" in file ");
                text.append(number(*file_number as u64).as_str());
                text.append(" does not match its MWC block: table=");
                text.append(pair_string(*table_offset as u64, *table_stored_size as u64).as_str());
                text.append(", block=");
                text.append(pair_string(*block_offset as u64, *block_stored_size as u64).as_str());
                text
            },
            ExtractError::RawResourceNotFound { key } => {
                let mut text = String::from_str("raw image block was not found: archive block ");
                text.append(number(key.block_index as u64).as_str());
                text.append(", file ");
                text.append(number(key.file_number as u64).as_str());
                text.append(", file block ");
                text.append(number(key.file_block_index as u64).as_str());
                text
            },
            ExtractError::RawLayerBlockMissing { file_number, file_block_index } => {
                let mut text = String::from_str("raw assembly layer block was not found: file ");
                text.append(number(*file_number as u64).as_str());
                text.append(", file block ");
                text.append(number(*file_block_index as u64).as_str());
                text
            },
            ExtractError::RawCompressedSizeOverflow { key, compressed_size } => {
                let mut text = String::from_str("raw image block ");
                text.append(number(key.block_index as u64).as_str());
                text.append(" compressed size ");
                text.append(number(*compressed_size as u64).as_str());
                text.append(" exceeds this platform");
                text
            },
            ExtractError::RawBlockDecode(error) => error.message(),
            ExtractError::InvalidLayout { diagnostics } => {
                let mut text = String::from_str("archive layout could not be validated: ");
                text.append(diagnostic_list(diagnostics).as_str());
                text
            },
            ExtractError::ResourceNotFound { key } => {
                let mut text = String::from_str("resource was not found: group=");
                text.append(number(key.group_code as u64).as_str());
                text.append(", icon=");
                text.append(number(key.icon_id as u64).as_str());
                text.append(", block=");
                text.append(number(key.block_index as u64).as_str());
                text
            },
            ExtractError::ConflictingRecordDimensions { key, first, conflicting } => {
                let mut text = String::from_str("resource records disagree on dimensions for group=");
                text.append(number(key.group_code as u64).as_str());
                text.append(", icon=");
                text.append(number(key.icon_id as u64).as_str());
                text.append(", block=");
                text.append(number(key.block_index as u64).as_str());
                text.append(": ");
                text.append(size_string(first.0 as u64, first.1 as u64).as_str());
                text.append(" versus ");
                text.append(size_string(conflicting.0 as u64, conflicting.1 as u64).as_str());
                text
            },
            ExtractError::AssemblyTileRecordNotFound { block_index } => {
                let mut text = String::from_str("assembly tile has no index record: block=");
                text.append(number(*block_index as u64).as_str());
                text
            },
            ExtractError::ConflictingBlockDimensions { block_index, first, conflicting } => {
                let mut text = String::from_str("assembly tile records disagree on dimensions for block=");
                text.append(number(*block_index as u64).as_str());
                text.append(": ");
                text.append(size_string(first.0 as u64, first.1 as u64).as_str());
                text.append(" versus ");
                text.append(size_string(conflicting.0 as u64, conflicting.1 as u64).as_str());
                text
            },
            ExtractError::AssemblyArchiveMismatch { expected, actual } => {
                let mut text = String::from_str("assembly rule belongs to archive ");
                text.append(*expected);
                text.append(", not ");
                text.append(actual.as_str());
                text
            },
            ExtractError::AssemblyRuleNotVerified { first_block, last_block } => {
                let mut text = String::from_str("assembly rule for blocks ");
                text.append(number(*first_block as u64).as_str());
                text.append("..=");
                text.append(number(*last_block as u64).as_str());
                text.append(" is not human-verified");
                text
            },
            ExtractError::BlockUnavailable { block_index } => {
                let mut text = String::from_str("resolved block ");
                text.append(number(*block_index as u64).as_str());
                text.append(" is unavailable");
                text
            },
            ExtractError::DataFileUnavailable { file_number } => {
                let mut text = String::from_str("data file ");
                text.append(number(*file_number as u64).as_str());
                text.append(" is unavailable");
                text
            },
            ExtractError::StoredRangeUnavailable { file_number, offset, len, file_size } => {
                let mut text = String::from_str("stored range of data file ");
                text.append(number(*file_number as u64).as_str());
                text.append(" is unavailable: offset ");
                text.append(number(*offset as u64).as_str());
                text.append(", length ");
                text.append(number(*len as u64).as_str());
                text.append(", file size ");
                text.append(number(*file_size as u64).as_str());
                text
            },
            ExtractError::BlockDecode(error) => error.message(),
            ExtractError::PixelDecode(error) => error.message(),
            ExtractError::ImageAssembly(error) => error.message(),
            ExtractError::Thumbnail(error) => error.message(),
            ExtractError::PngEncode(error) => error.message(),
        }
    }
}


// ---------------------------------------------------------------------------
// Messages of the session errors
// ---------------------------------------------------------------------------

/// The segments of a category path joined by `" > "`.
fn path_display(path: &Vec<String>) -> (joined: String)
    ensures
        joined@ == join_segments(path_texts(path@), " > "@),
{
    let mut joined = String::new();
    let mut index: usize = 0;
    while index < path.len()
        invariant
            index <= path@.len(),
            joined@ == join_segments(path_texts(path@).subrange(0, index as int), " > "@),
        decreases path@.len() - index,
    {
        proof {
            let texts = path_texts(path@);
            assert(texts.subrange(0, index + 1) =~= texts.subrange(0, index as int).push(texts[index as int]));
            lemma_join_push(texts.subrange(0, index as int), " > "@, texts[index as int]);
        }
        if index > 0 {
            joined.append(" > ");
        }
        joined.append(path[index].as_str());
        index += 1;
    }
    assert(path_texts(path@).subrange(0, index as int) =~= path_texts(path@));
    joined
}

impl ViewerSessionError {
    /// The text of the message shown to the user.
    pub open spec fn spec_message(self) -> Seq<char> {
        match self {
            ViewerSessionError::ResourceDirectoryNotSelected => "먼저 게임 폴더를 선택해 주세요."@,
            ViewerSessionError::EmptyCategoryPath => "카테고리 경로가 비어 있습니다."@,
            ViewerSessionError::EmptySearchQuery => "검색어를 입력해 주세요."@,
            ViewerSessionError::InvalidPageSize { requested, maximum } => "한 번에 불러올 이미지 수는 1개부터 "@
                + decimal_text(maximum as nat) + "개까지입니다: "@ + decimal_text(requested as nat),
            ViewerSessionError::CategoryNotFound { path } => "확인된 카테고리를 찾지 못했습니다: "@ + join_segments(
                path_texts(path@),
                " > "@,
            ),
            ViewerSessionError::AssetNotFound { path, prefix, block_index } =>
                "카테고리에 속한 확인된 이미지를 찾지 못했습니다: "@ + join_segments(path_texts(path@), " > "@) + " / "@
                + prefix@ + " "@ + decimal_text(block_index as nat),
            ViewerSessionError::OffsetOutOfRange { offset, total_count } =>
                "이미지 시작 위치가 카테고리 범위를 벗어났습니다: "@ + decimal_text(offset as nat) + "/"@ + decimal_text(
                total_count as nat,
            ),
            ViewerSessionError::OpenArchive { prefix, source } => prefix@ + " 이미지 묶음을 열지 못했습니다: "@
                + source.spec_message(),
            ViewerSessionError::RawArchiveDefinitionMissing { prefix } => prefix@
                + " 원시 이미지 아카이브 명세를 찾지 못했습니다."@,
            ViewerSessionError::ArchiveNotLoaded { prefix } => prefix@ + " 이미지 묶음이 아직 열려 있지 않습니다."@,
            ViewerSessionError::Extract { prefix, block_index, source } => prefix@ + " 이미지 "@ + decimal_text(
                block_index as nat,
            ) + "를 만들지 못했습니다: "@ + source.spec_message(),
            ViewerSessionError::AssemblyRuleMissing { prefix, block_index } => prefix@ + " 이미지 "@ + decimal_text(
                block_index as nat,
            ) + "의 검증된 조립 규칙을 찾지 못했습니다."@,
        }
    }

    /// The message shown to the user.
    pub fn message(&self) -> (text: String)
        ensures
            text@ == self.spec_message(),
    {
        match self {
            ViewerSessionError::ResourceDirectoryNotSelected => String::from_str("먼저 게임 폴더를 선택해 주세요."),
            ViewerSessionError::EmptyCategoryPath => String::from_str("카테고리 경로가 비어 있습니다."),
            ViewerSessionError::EmptySearchQuery => String::from_str("검색어를 입력해 주세요."),
            ViewerSessionError::InvalidPageSize { requested, maximum } => {
                let mut text = String::from_str("한 번에 불러올 이미지 수는 1개부터 ");
                text.append(number(*maximum as u64).as_str());
                text.append("개까지입니다: ");
                text.append(number(*requested as u64).as_str());
                text
            },
            ViewerSessionError::CategoryNotFound { path } => {
                let mut text = String::from_str("확인된 카테고리를 찾지 못했습니다: ");
                text.append(path_display(path).as_str());
                text
            },
            ViewerSessionError::AssetNotFound { path, prefix, block_index } => {
                let mut text = String::from_str("카테고리에 속한 확인된 이미지를 찾지 못했습니다: ");
                text.append(path_display(path).as_str());
                text.append(" / ");
                text.append(prefix.as_str());
                text.append(" ");
                text.append(number(*block_index as u64).as_str());
                text
            },
            ViewerSessionError::OffsetOutOfRange { offset, total_count } => {
                let mut text = String::from_str("이미지 시작 위치가 카테고리 범위를 벗어났습니다: ");
                text.append(number(*offset as u64).as_str());
                text.append("/");
                text.append(number(*total_count as u64).as_str());
                text
            },
            ViewerSessionError::OpenArchive { prefix, source } => {
                let mut text = String::from_str(prefix.as_str());
                text.append(" 이미지 묶음을 열지 못했습니다: ");
                text.append(source.message().as_str());
                text
            },
            ViewerSessionError::RawArchiveDefinitionMissing { prefix } => {
                let mut text = String::from_str(prefix.as_str());
                text.append(" 원시 이미지 아카이브 명세를 찾지 못했습니다.");
                text
            },
            ViewerSessionError::ArchiveNotLoaded { prefix } => {
                let mut text = String::from_str(prefix.as_str());
                text.append(" 이미지 묶음이 아직 열려 있지 않습니다.");
                text
            },
            ViewerSessionError::Extract { prefix, block_index, source } => {
                let mut text = String::from_str(prefix.as_str());
                text.append(" 이미지 ");
                text.append(number(*block_index as u64).as_str());
                text.append("를 만들지 못했습니다: ");
                text.append(source.message().as_str());
                text
            },
            ViewerSessionError::AssemblyRuleMissing { prefix, block_index } => {
                let mut text = String::from_str(prefix.as_str());
                text.append(" 이미지 ");
                text.append(number(*block_index as u64).as_str());
                text.append("의 검증된 조립 규칙을 찾지 못했습니다.");
                text
            },
        }
    }
}

impl CuratorSessionError {
    /// The text of the message shown to the user.
    pub open spec fn spec_message(self) -> Seq<char> {
        match self {
            CuratorSessionError::ResourceDirectoryNotSelected => "먼저 게임 폴더를 선택해 주세요."@,
            CuratorSessionError::UnsupportedPrefix { prefix } => "지원하지 않는 MWC 계열입니다: "@ + prefix@,
            CuratorSessionError::OpenArchive { prefix, source } => prefix@ + " 리소스를 여는 데 실패했습니다: "@
                + source.spec_message(),
            CuratorSessionError::ArchiveNotLoaded { prefix } => prefix@ + " 리소스가 아직 열려 있지 않습니다."@,
            CuratorSessionError::GroupNotFound { prefix, group_code } => prefix@ + "에서 원시 그룹 "@ + decimal_text(
                group_code as nat,
            ) + "를 찾지 못했습니다."@,
            CuratorSessionError::InvalidIdRange { start_icon_id, end_icon_id } =>
                "ID 구간의 시작값이 끝값보다 큽니다: "@ + decimal_text(start_icon_id as nat) + "–"@ + decimal_text(
                end_icon_id as nat,
            ),
            CuratorSessionError::IdRangeNotFound { prefix, group_code, start_icon_id, end_icon_id } => prefix@
                + " 원시 그룹 "@ + decimal_text(group_code as nat) + "에서 ID "@ + decimal_text(start_icon_id as nat)
                + "–"@ + decimal_text(end_icon_id as nat) + " 구간을 찾지 못했습니다."@,
            CuratorSessionError::ArchiveRangeNotFound { prefix, start_icon_id, end_icon_id } => prefix@
                + "에서 ID "@ + decimal_text(start_icon_id as nat) + "–"@ + decimal_text(end_icon_id as nat)
                + " 대역의 레코드를 찾지 못했습니다."@,
            CuratorSessionError::VerifiedAssemblyNotFound { prefix, block_index } => prefix@ + " 블록 "@
                + decimal_text(block_index as nat) + "에는 사람이 검증한 조립 규칙이 없습니다."@,
            CuratorSessionError::AssemblyTileRecordNotFound { prefix, block_index } => prefix@
                + " 조립 타일 블록 "@ + decimal_text(block_index as nat) + "의 인덱스 레코드를 찾지 못했습니다."@,
            CuratorSessionError::Extract { prefix, source } => prefix@ + " 표본 이미지를 추출하지 못했습니다: "@
                + source.spec_message(),
        }
    }

    /// The message shown to the user.
    pub fn message(&self) -> (text: String)
        ensures
            text@ == self.spec_message(),
    {
        match self {
            CuratorSessionError::ResourceDirectoryNotSelected => String::from_str("먼저 게임 폴더를 선택해 주세요."),
            CuratorSessionError::UnsupportedPrefix { prefix } => {
                let mut text = String::from_str("지원하지 않는 MWC 계열입니다: ");
                text.append(prefix.as_str());
                text
            },
            CuratorSessionError::OpenArchive { prefix, source } => {
                let mut text = String::from_str(prefix.as_str());
                text.append(" 리소스를 여는 데 실패했습니다: ");
                text.append(source.message().as_str());
                text
            },
            CuratorSessionError::ArchiveNotLoaded { prefix } => {
                let mut text = String::from_str(prefix.as_str());
                text.append(" 리소스가 아직 열려 있지 않습니다.");
                text
            },
            CuratorSessionError::GroupNotFound { prefix, group_code } => {
                let mut text = String::from_str(prefix.as_str());
                text.append("에서 원시 그룹 ");
                text.append(number(*group_code as u64).as_str());
                text.append("를 찾지 못했습니다.");
                text
            },
            CuratorSessionError::InvalidIdRange { start_icon_id, end_icon_id } => {
                let mut text = String::from_str("ID 구간의 시작값이 끝값보다 큽니다: ");
                text.append(number(*start_icon_id as u64).as_str());
                text.append("–");
                text.append(number(*end_icon_id as u64).as_str());
                text
            },
            CuratorSessionError::IdRangeNotFound { prefix, group_code, start_icon_id, end_icon_id } => {
                let mut text = String::from_str(prefix.as_str());
                text.append(" 원시 그룹 ");
                text.append(number(*group_code as u64).as_str());
                text.append("에서 ID ");
                text.append(number(*start_icon_id as u64).as_str());
                text.append("–");
                text.append(number(*end_icon_id as u64).as_str());
                text.append(" 구간을 찾지 못했습니다.");
                text
            },
            CuratorSessionError::ArchiveRangeNotFound { prefix, start_icon_id, end_icon_id } => {
                let mut text = String::from_str(prefix.as_str());
                text.append("에서 ID ");
                text.append(number(*start_icon_id as u64).as_str());
                text.append("–");
                text.append(number(*end_icon_id as u64).as_str());
                text.append(" 대역의 레코드를 찾지 못했습니다.");
                text
            },
            CuratorSessionError::VerifiedAssemblyNotFound { prefix, block_index } => {
                let mut text = String::from_str(prefix.as_str());
                text.append(" 블록 ");
                text.append(number(*block_index as u64).as_str());
                text.append("에는 사람이 검증한 조립 규칙이 없습니다.");
                text
            },
            CuratorSessionError::AssemblyTileRecordNotFound { prefix, block_index } => {
                let mut text = String::from_str(prefix.as_str());
                text.append(" 조립 타일 블록 ");
                text.append(number(*block_index as u64).as_str());
                text.append("의 인덱스 레코드를 찾지 못했습니다.");
                text
            },
            CuratorSessionError::Extract { prefix, source } => {
                let mut text = String::from_str(prefix.as_str());
                text.append(" 표본 이미지를 추출하지 못했습니다: ");
                text.append(source.message().as_str());
                text
            },
        }
    }
}

} // verus!
