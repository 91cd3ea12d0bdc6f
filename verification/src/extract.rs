//! Loading of archive families from their file contents and on-demand extraction of images.

use crate::archive::{
    build_archive_layout, decode_stored_outcome, spec_layout, ArchiveBlockDecodeError,
    ArchiveBlockKind, ArchiveDiagnostic, ArchiveLayout,
};
use crate::block::{
    block_decode_outcome, scan_data_file, segment_unresolved_gaps, segment_zlib_blocks,
    spec_scan, spec_unresolved_gaps, spec_zlib_blocks, BlockDecodeError, BlockScanError, DataSegment,
    MwcBlock, ScannedDataFile, UnresolvedGap,
};
use crate::catalog::assembly::{
    find_candidate_plan, find_plan, first_plan, spec_assembly_rules, AssemblyPlan,
    LayeredAssemblyRule,
};
use crate::catalog::VerificationStatus;
use crate::index::{index_parse_error, parse_succeeds_with, IndexParseError, IndexRecord, IndexedArchive};
use crate::inline::{
    entry_count, inline_parse_error, spec_entry, table_len, InlineBlockEntry, InlineBlockTable,
    InlineBlockTableError,
};
use crate::rgba::{
    bgra_image, composite, gray_image, png_rgba8_encoding, spec_assemble_grid, thumbnail_outcome,
    ImageAssemblyError, ImageView, PixelDecodeError, PngEncodeError, RgbaImage, ThumbnailError,
};
use crate::text::{ascii_lower, eq_ignore_ascii_case, is_ascii_letter, same_ascii_name, to_ascii_lowercase};
use vstd::prelude::*;
use vstd::string::StringSliceAdditionalSpecFns;

verus! {

/// A validated two-letter filename prefix such as `sc` or `sd`, stored in lower case.
#[derive(Debug, Clone, PartialEq, Eq, Hash)]
pub struct ArchivePrefix(String);

impl View for ArchivePrefix {
    type V = Seq<char>;

    closed spec fn view(&self) -> Seq<char> {
        self.0@
    }
}

/// Invalid archive filename prefix.
#[derive(Debug, Clone, PartialEq, Eq)]
pub struct ArchivePrefixError {
    pub provided: String,
}

/// Whether `value` is exactly two bytes long and both are ASCII letters.
pub open spec fn is_valid_prefix(value: &str) -> bool {
    &&& value.spec_bytes().len() == 2
    &&& is_ascii_letter(value.spec_bytes()[0])
    &&& is_ascii_letter(value.spec_bytes()[1])
}

fn is_letter(b: u8) -> (letter: bool)
    ensures
        letter == is_ascii_letter(b),
{
    (0x41 <= b && b <= 0x5A) || (0x61 <= b && b <= 0x7A)
}

impl ArchivePrefix {
    /// Accepts exactly two ASCII letters and keeps them in lower case.
    pub fn parse(value: &str) -> (prefix: Result<Self, ArchivePrefixError>)
        ensures
            is_valid_prefix(value) ==> (prefix matches Ok(p) && p@ == ascii_lower(value@)),
            !is_valid_prefix(value) ==> (prefix matches Err(e) && e.provided@ == value@),
    {
        let bytes = value.as_bytes();
        if bytes.len() != 2 || !is_letter(bytes[0]) || !is_letter(bytes[1]) {
            return Err(ArchivePrefixError { provided: value.to_owned() });
        }
        Ok(ArchivePrefix(to_ascii_lowercase(value)))
    }

    pub fn as_str(&self) -> (text: &str)
        ensures
            text@ == self@,
    {
        self.0.as_str()
    }
}

/// A physical resource key that preserves distinct block variants.
#[derive(Debug, Clone, Copy, PartialEq, Eq, Hash, Structural)]
pub struct ResourceKey {
    pub group_code: u32,
    pub icon_id: u32,
    pub block_index: u32,
}

/// A physical image block from an archive that has no separate index file.
#[derive(Debug, Clone, Copy, PartialEq, Eq, Hash, Structural)]
pub struct RawResourceKey {
    pub block_index: u32,
    pub file_number: u32,
    pub file_block_index: u32,
}

/// Pixel interpretation declared for a reviewed raw image archive.
#[derive(Debug, Clone, Copy, PartialEq, Eq, Structural)]
pub enum RawPixelFormat {
    Gray8,
    Bgra8,
}

/// One human-reviewed decoded size and its corresponding image dimensions.
#[derive(Debug, Clone, Copy, PartialEq, Eq, Structural)]
pub struct RawImageVariant {
    pub decoded_size: u32,
    pub width: u32,
    pub height: u32,
}

/// Human-reviewed dimensions and pixel interpretation for raw image blocks.
#[derive(Debug, Clone, Copy, PartialEq, Eq)]
pub struct RawImageSpec {
    pub pixel_format: RawPixelFormat,
    pub variants: &'static [RawImageVariant],
}

/// How non-block bytes in one raw archive file are interpreted.
#[derive(Debug, Clone, Copy, PartialEq, Eq, Structural)]
pub enum RawArchiveLayout {
    BlocksOnly,
    InlineBlockTable,
}

/// Stable metadata for one physical block in a raw image archive.
#[derive(Debug, Clone, Copy, PartialEq, Eq, Structural)]
pub struct RawImageRecord {
    pub key: RawResourceKey,
    pub width: u32,
    pub height: u32,
}

/// One requested resource encoded for display or download.
#[derive(Debug, Clone, PartialEq, Eq)]
pub struct ExtractedResource {
    pub key: ResourceKey,
    pub width: u32,
    pub height: u32,
    pub png: Vec<u8>,
}

/// One physical resource resized for a bounded gallery preview.
#[derive(Debug, Clone, PartialEq, Eq)]
pub struct ExtractedThumbnail {
    pub key: ResourceKey,
    pub source_width: u32,
    pub source_height: u32,
    pub width: u32,
    pub height: u32,
    pub png: Vec<u8>,
}

/// One completed image joined from a human-verified physical block range.
#[derive(Debug, Clone, PartialEq, Eq)]
pub struct ExtractedAssembly {
    pub first_block: u32,
    pub last_block: u32,
    pub width: u32,
    pub height: u32,
    pub png: Vec<u8>,
}

/// One completed, human-verified image resized for a bounded gallery preview.
#[derive(Debug, Clone, PartialEq, Eq)]
pub struct ExtractedAssemblyThumbnail {
    pub first_block: u32,
    pub last_block: u32,
    pub source_width: u32,
    pub source_height: u32,
    pub width: u32,
    pub height: u32,
    pub png: Vec<u8>,
}

/// Failures while loading an archive or extracting one requested resource.
#[derive(Debug)]
pub enum ExtractError {
    InvalidPrefix(ArchivePrefixError),
    IndexParse(IndexParseError),
    BlockScan { file_number: u32, source: BlockScanError },
    RawImageDimensionOverflow { width: u32, height: u32 },
    RawImageSpecEmpty,
    RawImageSpecSizeMismatch {
        width: u32,
        height: u32,
        pixel_format: RawPixelFormat,
        declared_size: u32,
        expected_size: usize,
    },
    RawUnresolvedGap { file_number: u32, offset: usize, len: usize },
    RawImageSizeUnsupported {
        file_number: u32,
        file_block_index: u32,
        actual_size: u32,
        supported_sizes: Vec<u32>,
    },
    RawBlockIndexOverflow { file_number: u32 },
    RawArchiveBlockCountOverflow,
    RawArchiveFileCountOverflow,
    InlineBlockTableParse { file_number: u32, source: InlineBlockTableError },
    InlineBlockTableGapMismatch { file_number: u32, table_size: usize, gaps: Vec<(usize, usize)> },
    InlineBlockCountMismatch { file_number: u32, table_count: usize, block_count: usize },
    InlineBlockEntryMismatch {
        file_number: u32,
        file_block_index: u32,
        table_offset: u32,
        table_stored_size: u32,
        block_offset: usize,
        block_stored_size: usize,
    },
    RawResourceNotFound { key: RawResourceKey },
    RawLayerBlockMissing { file_number: u32, file_block_index: u32 },
    RawCompressedSizeOverflow { key: RawResourceKey, compressed_size: u32 },
    RawBlockDecode(BlockDecodeError),
    InvalidLayout { diagnostics: Vec<ArchiveDiagnostic> },
    ResourceNotFound { key: ResourceKey },
    ConflictingRecordDimensions { key: ResourceKey, first: (u32, u32), conflicting: (u32, u32) },
    AssemblyTileRecordNotFound { block_index: u32 },
    ConflictingBlockDimensions { block_index: u32, first: (u32, u32), conflicting: (u32, u32) },
    AssemblyArchiveMismatch { expected: &'static str, actual: String },
    AssemblyRuleNotVerified { first_block: u32, last_block: u32 },
    BlockUnavailable { block_index: u32 },
    DataFileUnavailable { file_number: u32 },
    StoredRangeUnavailable { file_number: u32, offset: usize, len: usize, file_size: usize },
    BlockDecode(ArchiveBlockDecodeError),
    PixelDecode(PixelDecodeError),
    ImageAssembly(ImageAssemblyError),
    Thumbnail(ThumbnailError),
    PngEncode(PngEncodeError),
}

// ---------------------------------------------------------------------------
// Reviewed raw image specifications
// ---------------------------------------------------------------------------

/// Decoded byte count of one `variant` image in `pixel_format`, if it fits in `usize`.
pub open spec fn spec_raw_image_byte_len(variant: RawImageVariant, pixel_format: RawPixelFormat) -> Option<
    usize,
> {
    let pixels = variant.width as int * variant.height as int;
    let bytes = match pixel_format {
        RawPixelFormat::Gray8 => pixels,
        RawPixelFormat::Bgra8 => pixels * 4,
    };
    if pixels > usize::MAX || bytes > usize::MAX {
        None
    } else {
        Some(bytes as usize)
    }
}

fn raw_image_byte_len(variant: RawImageVariant, pixel_format: RawPixelFormat) -> (len: Result<
    usize,
    ExtractError,
>)
    ensures
        match spec_raw_image_byte_len(variant, pixel_format) {
            Some(n) => len matches Ok(m) && m == n,
            None => len matches Err(ExtractError::RawImageDimensionOverflow { width, height })
                && width == variant.width && height == variant.height,
        },
{
    let overflow = ExtractError::RawImageDimensionOverflow {
        width: variant.width,
        height: variant.height,
    };
    let pixels = match (variant.width as usize).checked_mul(variant.height as usize) {
        Some(pixels) => pixels,
        None => return Err(overflow),
    };
    match pixel_format {
        RawPixelFormat::Gray8 => Ok(pixels),
        RawPixelFormat::Bgra8 => match pixels.checked_mul(4) {
            Some(bytes) => Ok(bytes),
            None => Err(overflow),
        },
    }
}

/// The first variant of `variants` whose declared size disagrees with its dimensions, or
/// whose dimensions overflow.
pub open spec fn first_bad_variant(variants: Seq<RawImageVariant>, pixel_format: RawPixelFormat, count: int) -> Option<
    int,
>
    decreases count,
{
    if count <= 0 {
        None
    } else {
        match first_bad_variant(variants, pixel_format, count - 1) {
            Some(i) => Some(i),
            None => if spec_raw_image_byte_len(variants[count - 1], pixel_format) != Some(
                variants[count - 1].decoded_size as usize,
            ) {
                Some(count - 1)
            } else {
                None
            },
        }
    }
}

/// Whether a reviewed specification is usable: it has a variant, and every variant's declared
/// size is exactly the byte count of its dimensions.
pub open spec fn raw_spec_is_valid(spec: RawImageSpec) -> bool {
    spec.variants@.len() > 0 && first_bad_variant(
        spec.variants@,
        spec.pixel_format,
        spec.variants@.len() as int,
    ) is None
}

/// Whether `error` is how a specification that is not usable is refused: for want of a
/// variant, or at its first variant whose dimensions overflow or disagree with its size.
pub open spec fn raw_spec_failed(spec: RawImageSpec, error: ExtractError) -> bool {
    if spec.variants@.len() == 0 {
        error == ExtractError::RawImageSpecEmpty
    } else {
        match first_bad_variant(spec.variants@, spec.pixel_format, spec.variants@.len() as int) {
            None => false,
            Some(i) => match spec_raw_image_byte_len(spec.variants@[i], spec.pixel_format) {
                None => error == ExtractError::RawImageDimensionOverflow {
                    width: spec.variants@[i].width,
                    height: spec.variants@[i].height,
                },
                Some(expected) => error == ExtractError::RawImageSpecSizeMismatch {
                    width: spec.variants@[i].width,
                    height: spec.variants@[i].height,
                    pixel_format: spec.pixel_format,
                    declared_size: spec.variants@[i].decoded_size,
                    expected_size: expected,
                },
            },
        }
    }
}

fn validate_raw_image_spec(spec: RawImageSpec) -> (checked: Result<(), ExtractError>)
    ensures
        checked is Ok <==> raw_spec_is_valid(spec),
        checked matches Err(e) ==> raw_spec_failed(spec, e),
        spec.variants@.len() == 0 ==> checked matches Err(ExtractError::RawImageSpecEmpty),
        first_bad_variant(spec.variants@, spec.pixel_format, spec.variants@.len() as int) matches Some(
            i,
        ) ==> match spec_raw_image_byte_len(spec.variants@[i], spec.pixel_format) {
            None => checked matches Err(ExtractError::RawImageDimensionOverflow { width, height })
                && width == spec.variants@[i].width && height == spec.variants@[i].height,
            Some(expected) => checked matches Err(
                ExtractError::RawImageSpecSizeMismatch {
                    width,
                    height,
                    pixel_format,
                    declared_size,
                    expected_size,
                },
            ) && width == spec.variants@[i].width && height == spec.variants@[i].height
                && pixel_format == spec.pixel_format && declared_size
                == spec.variants@[i].decoded_size && expected_size == expected,
        },
{
    let variants = spec.variants;
    if variants.len() == 0 {
        return Err(ExtractError::RawImageSpecEmpty);
    }
    let mut index: usize = 0;
    while index < variants.len()
        invariant
            index <= variants@.len(),
            variants@ == spec.variants@,
            variants@.len() > 0,
            first_bad_variant(variants@, spec.pixel_format, index as int) is None,
        decreases variants@.len() - index,
    {
        let variant = variants[index];
        let expected_size = match raw_image_byte_len(variant, spec.pixel_format) {
            Ok(size) => size,
            Err(error) => {
                proof {
                    lemma_first_bad_variant_stays(
                        variants@,
                        spec.pixel_format,
                        index + 1,
                        variants@.len() as int,
                    );
                }
                return Err(error);
            },
        };
        if variant.decoded_size as usize != expected_size {
            proof {
                lemma_first_bad_variant_stays(
                    variants@,
                    spec.pixel_format,
                    index + 1,
                    variants@.len() as int,
                );
            }
            return Err(
                ExtractError::RawImageSpecSizeMismatch {
                    width: variant.width,
                    height: variant.height,
                    pixel_format: spec.pixel_format,
                    declared_size: variant.decoded_size,
                    expected_size,
                },
            );
        }
        index += 1;
    }
    Ok(())
}

proof fn lemma_first_bad_variant_stays(
    variants: Seq<RawImageVariant>,
    pixel_format: RawPixelFormat,
    count: int,
    later: int,
)
    requires
        0 <= count <= later,
        first_bad_variant(variants, pixel_format, count) is Some,
    ensures
        first_bad_variant(variants, pixel_format, later) == first_bad_variant(
            variants,
            pixel_format,
            count,
        ),
    decreases later - count,
{
    if later > count {
        lemma_first_bad_variant_stays(variants, pixel_format, count, later - 1);
    }
}


// ---------------------------------------------------------------------------
// Raw archive file layouts
// ---------------------------------------------------------------------------

/// The `(offset, len)` of each gap.
pub open spec fn gap_extents(gaps: Seq<UnresolvedGap>) -> Seq<(usize, usize)> {
    gaps.map_values(|gap: UnresolvedGap| (gap.location.offset, gap.len))
}

/// Bytes a block occupies in its file: the 12-byte header and the payload, if that fits.
pub open spec fn stored_block_size(block: MwcBlock) -> Option<usize> {
    if block.compressed_size + 12 > usize::MAX {
        None
    } else {
        Some((block.compressed_size + 12) as usize)
    }
}

/// Whether table entry `entry` names exactly the stored range of `block`.
pub open spec fn entry_matches_block(entry: InlineBlockEntry, block: MwcBlock) -> bool {
    &&& stored_block_size(block) matches Some(size)
    &&& entry.offset as int == block.location.offset
    &&& entry.stored_size as int == size
}

/// The first of the first `count` table entries that disagrees with its block.
pub open spec fn first_entry_mismatch(bytes: Seq<u8>, blocks: Seq<MwcBlock>, count: int) -> Option<int>
    decreases count,
{
    if count <= 0 {
        None
    } else {
        match first_entry_mismatch(bytes, blocks, count - 1) {
            Some(i) => Some(i),
            None => if !entry_matches_block(spec_entry(bytes, count - 1), blocks[count - 1]) {
                Some(count - 1)
            } else {
                None
            },
        }
    }
}

proof fn lemma_first_entry_mismatch_stays(bytes: Seq<u8>, blocks: Seq<MwcBlock>, count: int, later: int)
    requires
        0 <= count <= later,
        first_entry_mismatch(bytes, blocks, count) is Some,
    ensures
        first_entry_mismatch(bytes, blocks, later) == first_entry_mismatch(bytes, blocks, count),
    decreases later - count,
{
    if later > count {
        lemma_first_entry_mismatch_stays(bytes, blocks, count, later - 1);
    }
}

/// Whether an inline table file is laid out as reviewed: the table parses, it is the file's
/// only unresolved region and starts the file, it has one entry per block, and each entry
/// names its block's stored range.
pub open spec fn inline_layout_ok(bytes: Seq<u8>, segments: Seq<DataSegment>) -> bool {
    let gaps = spec_unresolved_gaps(segments);
    let blocks = spec_zlib_blocks(segments);
    &&& inline_parse_error(bytes) is None
    &&& gaps.len() == 1
    &&& gaps[0].location.offset == 0
    &&& gaps[0].len == table_len(bytes)
    &&& entry_count(bytes) == blocks.len()
    &&& first_entry_mismatch(bytes, blocks, blocks.len() as int) is None
}

/// Whether a scanned raw archive file has the reviewed physical layout.
pub open spec fn raw_layout_ok(layout: RawArchiveLayout, bytes: Seq<u8>, segments: Seq<DataSegment>) -> bool {
    match layout {
        RawArchiveLayout::BlocksOnly => spec_unresolved_gaps(segments).len() == 0,
        RawArchiveLayout::InlineBlockTable => inline_layout_ok(bytes, segments),
    }
}

/// Whether `error` is how a file without the reviewed layout is refused: at its first gap, or
/// at the first thing about its inline table that is wrong.
pub open spec fn raw_layout_failed(
    layout: RawArchiveLayout,
    file_number: u32,
    bytes: Seq<u8>,
    segments: Seq<DataSegment>,
    error: ExtractError,
) -> bool {
    let gaps = spec_unresolved_gaps(segments);
    let blocks = spec_zlib_blocks(segments);
    match layout {
        RawArchiveLayout::BlocksOnly => gaps.len() > 0 && error == ExtractError::RawUnresolvedGap {
            file_number,
            offset: gaps[0].location.offset,
            len: gaps[0].len,
        },
        RawArchiveLayout::InlineBlockTable => match inline_parse_error(bytes) {
            Some(source) => error == ExtractError::InlineBlockTableParse { file_number, source },
            None => if !(gaps.len() == 1 && gaps[0].location.offset == 0 && gaps[0].len == table_len(bytes)) {
                error matches ExtractError::InlineBlockTableGapMismatch { file_number: f, table_size, gaps: g }
                    && f == file_number && table_size == table_len(bytes) && g@ == gap_extents(gaps)
            } else if entry_count(bytes) != blocks.len() {
                error == ExtractError::InlineBlockCountMismatch {
                    file_number,
                    table_count: entry_count(bytes) as usize,
                    block_count: blocks.len() as usize,
                }
            } else {
                match first_entry_mismatch(bytes, blocks, blocks.len() as int) {
                    None => false,
                    Some(i) => match stored_block_size(blocks[i]) {
                        None => error == ExtractError::RawCompressedSizeOverflow {
                            key: RawResourceKey { block_index: i as u32, file_number, file_block_index: i as u32 },
                            compressed_size: blocks[i].compressed_size,
                        },
                        Some(size) => error == ExtractError::InlineBlockEntryMismatch {
                            file_number,
                            file_block_index: i as u32,
                            table_offset: spec_entry(bytes, i).offset,
                            table_stored_size: spec_entry(bytes, i).stored_size,
                            block_offset: blocks[i].location.offset,
                            block_stored_size: size,
                        },
                    },
                }
            },
        },
    }
}

#[verifier::loop_isolation(false)]
fn validate_raw_archive_layout(layout: RawArchiveLayout, bytes: &[u8], scanned: &ScannedDataFile) -> (checked:
    Result<(), ExtractError>)
    ensures
        checked matches Err(e) ==> raw_layout_failed(layout, scanned.file_number, bytes@, scanned.segments@, e),
        ({
            let segments = scanned.segments@;
            let gaps = spec_unresolved_gaps(segments);
            let blocks = spec_zlib_blocks(segments);
            let file_number = scanned.file_number;
            &&& checked is Ok <==> raw_layout_ok(layout, bytes@, segments)
            &&& layout == RawArchiveLayout::BlocksOnly && gaps.len() > 0 ==> (checked matches Err(
                ExtractError::RawUnresolvedGap { file_number: f, offset, len },
            ) && f == file_number && offset == gaps[0].location.offset && len == gaps[0].len)
            &&& layout == RawArchiveLayout::InlineBlockTable ==> match inline_parse_error(bytes@) {
                Some(error) => checked matches Err(
                    ExtractError::InlineBlockTableParse { file_number: f, source },
                ) && f == file_number && source == error,
                None => if !(gaps.len() == 1 && gaps[0].location.offset == 0 && gaps[0].len
                    == table_len(bytes@)) {
                    checked matches Err(
                        ExtractError::InlineBlockTableGapMismatch { file_number: f, table_size, gaps: g },
                    ) && f == file_number && table_size == table_len(bytes@) && g@ == gap_extents(
                        gaps,
                    )
                } else if entry_count(bytes@) != blocks.len() {
                    checked matches Err(
                        ExtractError::InlineBlockCountMismatch {
                            file_number: f,
                            table_count,
                            block_count,
                        },
                    ) && f == file_number && table_count == entry_count(bytes@) && block_count
                        == blocks.len()
                } else {
                    match first_entry_mismatch(bytes@, blocks, blocks.len() as int) {
                        None => checked is Ok,
                        Some(i) => match stored_block_size(blocks[i]) {
                            None => checked matches Err(
                                ExtractError::RawCompressedSizeOverflow { key, compressed_size },
                            ) && key == (RawResourceKey {
                                block_index: i as u32,
                                file_number,
                                file_block_index: i as u32,
                            }) && compressed_size == blocks[i].compressed_size,
                            Some(size) => checked matches Err(
                                ExtractError::InlineBlockEntryMismatch {
                                    file_number: f,
                                    file_block_index,
                                    table_offset,
                                    table_stored_size,
                                    block_offset,
                                    block_stored_size,
                                },
                            ) && f == file_number && file_block_index == i as u32 && table_offset
                                == spec_entry(bytes@, i).offset && table_stored_size == spec_entry(
                                bytes@,
                                i,
                            ).stored_size && block_offset == blocks[i].location.offset
                                && block_stored_size == size,
                        },
                    }
                },
            }
        }),
{
    let gaps = scanned.unresolved_gaps();
    match layout {
        RawArchiveLayout::BlocksOnly => {
            if gaps.len() > 0 {
                return Err(
                    ExtractError::RawUnresolvedGap {
                        file_number: scanned.file_number,
                        offset: gaps[0].location.offset,
                        len: gaps[0].len,
                    },
                );
            }
            Ok(())
        },
        RawArchiveLayout::InlineBlockTable => {
            let table = match InlineBlockTable::parse(bytes) {
                Ok(table) => table,
                Err(source) => {
                    return Err(
                        ExtractError::InlineBlockTableParse { file_number: scanned.file_number, source },
                    );
                },
            };
            if gaps.len() != 1 || gaps[0].location.offset != 0 || gaps[0].len != table.byte_len {
                let mut extents: Vec<(usize, usize)> = Vec::new();
                let mut index: usize = 0;
                while index < gaps.len()
                    invariant
                        index <= gaps@.len(),
                        extents@ == gap_extents(gaps@).subrange(0, index as int),
                    decreases gaps@.len() - index,
                {
                    extents.push((gaps[index].location.offset, gaps[index].len));
                    index += 1;
                    assert(extents@ =~= gap_extents(gaps@).subrange(0, index as int));
                }
                assert(gap_extents(gaps@).subrange(0, index as int) =~= gap_extents(gaps@));
                return Err(
                    ExtractError::InlineBlockTableGapMismatch {
                        file_number: scanned.file_number,
                        table_size: table.byte_len,
                        gaps: extents,
                    },
                );
            }
            let blocks = scanned.zlib_blocks();
            if table.entries.len() != blocks.len() {
                return Err(
                    ExtractError::InlineBlockCountMismatch {
                        file_number: scanned.file_number,
                        table_count: table.entries.len(),
                        block_count: blocks.len(),
                    },
                );
            }
            let mut index: usize = 0;
            while index < blocks.len()
                invariant
                    index <= blocks@.len() == table.entries@.len(),
                    blocks@.len() <= u32::MAX,
                    forall|i: int|
                        0 <= i < table.entries@.len() ==> #[trigger] table.entries@[i] == spec_entry(
                            bytes@,
                            i,
                        ),
                    first_entry_mismatch(bytes@, blocks@, index as int) is None,
                decreases blocks@.len() - index,
            {
                let entry = table.entries[index];
                let block = blocks[index];
                let actual_stored_size = match (block.compressed_size as usize).checked_add(12) {
                    Some(size) => size,
                    None => {
                        proof {
                            lemma_first_entry_mismatch_stays(
                                bytes@,
                                blocks@,
                                index + 1,
                                blocks@.len() as int,
                            );
                        }
                        return Err(
                            ExtractError::RawCompressedSizeOverflow {
                                key: RawResourceKey {
                                    block_index: index as u32,
                                    file_number: scanned.file_number,
                                    file_block_index: index as u32,
                                },
                                compressed_size: block.compressed_size,
                            },
                        );
                    },
                };
                if entry.offset as usize != block.location.offset || entry.stored_size as usize
                    != actual_stored_size {
                    proof {
                        lemma_first_entry_mismatch_stays(
                            bytes@,
                            blocks@,
                            index + 1,
                            blocks@.len() as int,
                        );
                    }
                    return Err(
                        ExtractError::InlineBlockEntryMismatch {
                            file_number: scanned.file_number,
                            file_block_index: index as u32,
                            table_offset: entry.offset,
                            table_stored_size: entry.stored_size,
                            block_offset: block.location.offset,
                            block_stored_size: actual_stored_size,
                        },
                    );
                }
                index += 1;
            }
            Ok(())
        },
    }
}

// ---------------------------------------------------------------------------
// Raw image archives
// ---------------------------------------------------------------------------

/// One physical block of a raw image archive and the file that holds it.
#[derive(Debug, Clone, Copy, PartialEq, Eq)]
pub struct RawImageBlock {
    pub record: RawImageRecord,
    pub block: MwcBlock,
    /// Position of the block's file among the files the archive was opened with.
    pub file_position: usize,
}

/// An archive without a separate index, validated against a reviewed image specification.
#[derive(Debug)]
pub struct LoadedRawImageArchive {
    prefix: ArchivePrefix,
    spec: RawImageSpec,
    file_count: u32,
    blocks: Vec<RawImageBlock>,
    files: Vec<Vec<u8>>,
}

/// The first variant of `variants` with decoded size `size`.
pub open spec fn first_variant(variants: Seq<RawImageVariant>, size: u32) -> Option<RawImageVariant>
    decreases variants.len(),
{
    if variants.len() == 0 {
        None
    } else if variants[0].decoded_size == size {
        Some(variants[0])
    } else {
        first_variant(variants.drop_first(), size)
    }
}

/// The records of the first `count` blocks of one file, numbered globally from `start`, or
/// `None` when a block has no reviewed size or the numbering overflows.
pub open spec fn file_raw_blocks(
    spec: RawImageSpec,
    file_number: u32,
    file_position: int,
    blocks: Seq<MwcBlock>,
    start: int,
    count: int,
) -> Option<Seq<RawImageBlock>>
    decreases count,
{
    if count <= 0 {
        Some(Seq::empty())
    } else {
        match file_raw_blocks(spec, file_number, file_position, blocks, start, count - 1) {
            None => None,
            Some(previous) => {
                let j = count - 1;
                let block_index = start + j;
                match first_variant(spec.variants@, blocks[j].uncompressed_size) {
                    None => None,
                    Some(variant) => if j > u32::MAX || block_index >= u32::MAX {
                        None
                    } else {
                        Some(
                            previous.push(
                                RawImageBlock {
                                    record: RawImageRecord {
                                        key: RawResourceKey {
                                            block_index: block_index as u32,
                                            file_number,
                                            file_block_index: j as u32,
                                        },
                                        width: variant.width,
                                        height: variant.height,
                                    },
                                    block: blocks[j],
                                    file_position: file_position as usize,
                                },
                            ),
                        )
                    },
                }
            },
        }
    }
}

/// The blocks of the first `count` files, in file order, or `None` when a file does not scan,
/// does not have the reviewed layout, or holds a block that cannot be recorded.
pub open spec fn raw_archive_blocks(
    spec: RawImageSpec,
    layout: RawArchiveLayout,
    file_numbers: Seq<u32>,
    files: Seq<Seq<u8>>,
    count: int,
) -> Option<Seq<RawImageBlock>>
    decreases count,
{
    if count <= 0 {
        Some(Seq::empty())
    } else {
        match raw_archive_blocks(spec, layout, file_numbers, files, count - 1) {
            None => None,
            Some(previous) => {
                let k = count - 1;
                match spec_scan(file_numbers[k], files[k], 0) {
                    Err(_) => None,
                    Ok(segments) => if !raw_layout_ok(layout, files[k], segments) {
                        None
                    } else {
                        let zlib = spec_zlib_blocks(segments);
                        match file_raw_blocks(
                            spec,
                            file_numbers[k],
                            k,
                            zlib,
                            previous.len() as int,
                            zlib.len() as int,
                        ) {
                            None => None,
                            Some(added) => Some(previous + added),
                        }
                    },
                }
            },
        }
    }
}

/// The contents of each file.
pub open spec fn file_contents(files: Seq<Vec<u8>>) -> Seq<Seq<u8>> {
    files.map_values(|file: Vec<u8>| file@)
}

proof fn lemma_raw_blocks_fail_stays(
    spec: RawImageSpec,
    layout: RawArchiveLayout,
    file_numbers: Seq<u32>,
    files: Seq<Seq<u8>>,
    count: int,
    later: int,
)
    requires
        0 <= count <= later,
        raw_archive_blocks(spec, layout, file_numbers, files, count) is None,
    ensures
        raw_archive_blocks(spec, layout, file_numbers, files, later) is None,
    decreases later - count,
{
    if later > count {
        lemma_raw_blocks_fail_stays(spec, layout, file_numbers, files, count, later - 1);
    }
}

proof fn lemma_file_blocks_fail_stays(
    spec: RawImageSpec,
    file_number: u32,
    file_position: int,
    blocks: Seq<MwcBlock>,
    start: int,
    count: int,
    later: int,
)
    requires
        0 <= count <= later,
        file_raw_blocks(spec, file_number, file_position, blocks, start, count) is None,
    ensures
        file_raw_blocks(spec, file_number, file_position, blocks, start, later) is None,
    decreases later - count,
{
    if later > count {
        lemma_file_blocks_fail_stays(spec, file_number, file_position, blocks, start, count, later - 1);
    }
}

fn find_variant(variants: &'static [RawImageVariant], size: u32) -> (found: Option<RawImageVariant>)
    ensures
        found == first_variant(variants@, size),
{
    let mut index: usize = 0;
    assert(variants@.subrange(0, variants@.len() as int) =~= variants@);
    while index < variants.len()
        invariant
            index <= variants@.len(),
            first_variant(variants@, size) == first_variant(
                variants@.subrange(index as int, variants@.len() as int),
                size,
            ),
        decreases variants@.len() - index,
    {
        let ghost rest = variants@.subrange(index as int, variants@.len() as int);
        assert(rest[0] == variants@[index as int]);
        assert(rest.drop_first() =~= variants@.subrange(index + 1, variants@.len() as int));
        if variants[index].decoded_size == size {
            return Some(variants[index]);
        }
        index += 1;
    }
    None
}

fn variant_sizes(variants: &'static [RawImageVariant]) -> (sizes: Vec<u32>)
    ensures
        sizes@ == variants@.map_values(|variant: RawImageVariant| variant.decoded_size),
{
    let mut sizes: Vec<u32> = Vec::new();
    let mut index: usize = 0;
    while index < variants.len()
        invariant
            index <= variants@.len(),
            sizes@ == variants@.subrange(0, index as int).map_values(
                |variant: RawImageVariant| variant.decoded_size,
            ),
        decreases variants@.len() - index,
    {
        sizes.push(variants[index].decoded_size);
        index += 1;
        assert(sizes@ =~= variants@.subrange(0, index as int).map_values(
            |variant: RawImageVariant| variant.decoded_size,
        ));
    }
    assert(variants@.subrange(0, index as int) =~= variants@);
    sizes
}

/// Whether block `j` of a file cannot be recorded when the file's blocks are numbered from
/// `start`: it has no reviewed size, or its position or number does not fit.
pub open spec fn unrecordable(spec: RawImageSpec, blocks: Seq<MwcBlock>, start: int, j: int) -> bool {
    ||| first_variant(spec.variants@, blocks[j].uncompressed_size) is None
    ||| j > u32::MAX
    ||| start + j >= u32::MAX
}

/// The first of the first `count` blocks of a file that cannot be recorded.
pub open spec fn first_unrecordable(spec: RawImageSpec, blocks: Seq<MwcBlock>, start: int, count: int) -> Option<int>
    decreases count,
{
    if count <= 0 {
        None
    } else {
        match first_unrecordable(spec, blocks, start, count - 1) {
            Some(i) => Some(i),
            None => if unrecordable(spec, blocks, start, count - 1) {
                Some(count - 1)
            } else {
                None
            },
        }
    }
}

proof fn lemma_first_unrecordable_stays(spec: RawImageSpec, blocks: Seq<MwcBlock>, start: int, count: int, later: int)
    requires
        0 <= count <= later,
        first_unrecordable(spec, blocks, start, count) is Some,
    ensures
        first_unrecordable(spec, blocks, start, later) == first_unrecordable(spec, blocks, start, count),
    decreases later - count,
{
    if later > count {
        lemma_first_unrecordable_stays(spec, blocks, start, count, later - 1);
    }
}

/// Whether `error` is how recording a file's blocks, numbered from `start`, stops at the first
/// block that cannot be recorded.
pub open spec fn file_blocks_failed(
    spec: RawImageSpec,
    file_number: u32,
    blocks: Seq<MwcBlock>,
    start: int,
    error: ExtractError,
) -> bool {
    match first_unrecordable(spec, blocks, start, blocks.len() as int) {
        None => false,
        Some(j) => match first_variant(spec.variants@, blocks[j].uncompressed_size) {
            None => error matches ExtractError::RawImageSizeUnsupported {
                file_number: f,
                file_block_index,
                actual_size,
                supported_sizes,
            } && f == file_number && file_block_index == (if j <= u32::MAX {
                j as u32
            } else {
                u32::MAX
            }) && actual_size == blocks[j].uncompressed_size && supported_sizes@ == spec.variants@.map_values(
                |variant: RawImageVariant| variant.decoded_size,
            ),
            Some(_) => if j > u32::MAX {
                error == ExtractError::RawBlockIndexOverflow { file_number }
            } else {
                error == ExtractError::RawArchiveBlockCountOverflow
            },
        },
    }
}

/// Appends the records of one scanned file's blocks.
#[verifier::loop_isolation(false)]
fn add_file_blocks(
    spec: RawImageSpec,
    file_number: u32,
    file_position: usize,
    zlib: &Vec<MwcBlock>,
    blocks: &mut Vec<RawImageBlock>,
) -> (added: Result<(), ExtractError>)
    requires
        old(blocks)@.len() <= u32::MAX,
    ensures
        match file_raw_blocks(
            spec,
            file_number,
            file_position as int,
            zlib@,
            old(blocks)@.len() as int,
            zlib@.len() as int,
        ) {
            Some(records) => added is Ok && final(blocks)@ == old(blocks)@ + records,
            None => added is Err,
        },
        added is Ok ==> final(blocks)@.len() <= u32::MAX,
        added matches Err(e) ==> file_blocks_failed(spec, file_number, zlib@, old(blocks)@.len() as int, e),
{
    let ghost start = blocks@.len() as int;
    let ghost initial = blocks@;
    let mut j: usize = 0;
    while j < zlib.len()
        invariant
            j <= zlib@.len(),
            start == initial.len(),
            start <= u32::MAX,
            file_raw_blocks(spec, file_number, file_position as int, zlib@, start, j as int) matches Some(
                records,
            ) && blocks@ == initial + records && records.len() == j,
            first_unrecordable(spec, zlib@, start, j as int) is None,
        decreases zlib@.len() - j,
    {
        let block = zlib[j];
        let variant = match find_variant(spec.variants, block.uncompressed_size) {
            Some(variant) => variant,
            None => {
                proof {
                    lemma_file_blocks_fail_stays(
                        spec,
                        file_number,
                        file_position as int,
                        zlib@,
                        start,
                        j + 1,
                        zlib@.len() as int,
                    );
                    assert(first_unrecordable(spec, zlib@, start, j + 1) == Some(j as int));
                    lemma_first_unrecordable_stays(spec, zlib@, start, j + 1, zlib@.len() as int);
                }
                let clipped_index = if j <= u32::MAX as usize {
                    j as u32
                } else {
                    u32::MAX
                };
                return Err(
                    ExtractError::RawImageSizeUnsupported {
                        file_number,
                        file_block_index: clipped_index,
                        actual_size: block.uncompressed_size,
                        supported_sizes: variant_sizes(spec.variants),
                    },
                );
            },
        };
        if j > u32::MAX as usize {
            proof {
                lemma_file_blocks_fail_stays(
                    spec,
                    file_number,
                    file_position as int,
                    zlib@,
                    start,
                    j + 1,
                    zlib@.len() as int,
                );
                assert(first_unrecordable(spec, zlib@, start, j + 1) == Some(j as int));
                lemma_first_unrecordable_stays(spec, zlib@, start, j + 1, zlib@.len() as int);
            }
            return Err(ExtractError::RawBlockIndexOverflow { file_number });
        }
        let block_index = blocks.len() as u32;
        blocks.push(
            RawImageBlock {
                record: RawImageRecord {
                    key: RawResourceKey { block_index, file_number, file_block_index: j as u32 },
                    width: variant.width,
                    height: variant.height,
                },
                block,
                file_position,
            },
        );
        if block_index == u32::MAX {
            proof {
                lemma_file_blocks_fail_stays(
                    spec,
                    file_number,
                    file_position as int,
                    zlib@,
                    start,
                    j + 1,
                    zlib@.len() as int,
                );
                assert(first_unrecordable(spec, zlib@, start, j + 1) == Some(j as int));
                lemma_first_unrecordable_stays(spec, zlib@, start, j + 1, zlib@.len() as int);
            }
            return Err(ExtractError::RawArchiveBlockCountOverflow);
        }
        j += 1;
        proof {
            let records = file_raw_blocks(spec, file_number, file_position as int, zlib@, start, j as int).unwrap();
            assert(blocks@ =~= initial + records);
        }
    }
    Ok(())
}

proof fn lemma_file_raw_blocks_positions(
    spec: RawImageSpec,
    file_number: u32,
    file_position: int,
    blocks: Seq<MwcBlock>,
    start: int,
    count: int,
)
    requires
        0 <= file_position <= usize::MAX,
    ensures
        file_raw_blocks(spec, file_number, file_position, blocks, start, count) matches Some(records)
            ==> forall|i: int| 0 <= i < records.len() ==> (#[trigger] records[i]).file_position
            == file_position,
    decreases count,
{
    if count > 0 {
        lemma_file_raw_blocks_positions(spec, file_number, file_position, blocks, start, count - 1);
    }
}

proof fn lemma_raw_archive_blocks_positions(
    spec: RawImageSpec,
    layout: RawArchiveLayout,
    file_numbers: Seq<u32>,
    files: Seq<Seq<u8>>,
    count: int,
)
    requires
        count <= usize::MAX,
    ensures
        raw_archive_blocks(spec, layout, file_numbers, files, count) matches Some(blocks)
            ==> forall|i: int| 0 <= i < blocks.len() ==> (#[trigger] blocks[i]).file_position < count,
    decreases count,
{
    if count > 0 {
        lemma_raw_archive_blocks_positions(spec, layout, file_numbers, files, count - 1);
        let k = count - 1;
        match raw_archive_blocks(spec, layout, file_numbers, files, count - 1) {
            None => {},
            Some(previous) => {
                match spec_scan(file_numbers[k], files[k], 0) {
                    Err(_) => {},
                    Ok(segments) => {
                        let zlib = spec_zlib_blocks(segments);
                        lemma_file_raw_blocks_positions(
                            spec,
                            file_numbers[k],
                            k,
                            zlib,
                            previous.len() as int,
                            zlib.len() as int,
                        );
                        if let Some(blocks) = raw_archive_blocks(spec, layout, file_numbers, files, count) {
                            assert forall|i: int| 0 <= i < blocks.len() implies (
                            #[trigger] blocks[i]).file_position < count by {
                                if i >= previous.len() {
                                    let added = file_raw_blocks(
                                        spec,
                                        file_numbers[k],
                                        k,
                                        zlib,
                                        previous.len() as int,
                                        zlib.len() as int,
                                    ).unwrap();
                                    assert(blocks[i] == added[i - previous.len()]);
                                } else {
                                    assert(blocks[i] == previous[i]);
                                }
                            }
                        }
                    },
                }
            },
        }
    }
}


proof fn lemma_file_raw_blocks_numbered(
    spec: RawImageSpec,
    file_number: u32,
    file_position: int,
    blocks: Seq<MwcBlock>,
    start: int,
    count: int,
)
    requires
        0 <= count,
        0 <= start,
        0 <= file_position <= usize::MAX,
    ensures
        file_raw_blocks(spec, file_number, file_position, blocks, start, count) matches Some(records) ==> {
            &&& records.len() == count
            &&& forall|j: int|
                0 <= j < records.len() ==> {
                    &&& (#[trigger] records[j]).record.key.block_index == start + j
                    &&& records[j].record.key.file_block_index == j
                    &&& records[j].record.key.file_number == file_number
                    &&& records[j].file_position == file_position
                }
        },
    decreases count,
{
    if count > 0 {
        lemma_file_raw_blocks_numbered(spec, file_number, file_position, blocks, start, count - 1);
        if let Some(records) = file_raw_blocks(spec, file_number, file_position, blocks, start, count) {
            let previous = file_raw_blocks(spec, file_number, file_position, blocks, start, count - 1).unwrap();
            assert(records == previous.push(records[count - 1]));
            assert forall|j: int| 0 <= j < records.len() implies {
                &&& (#[trigger] records[j]).record.key.block_index == start + j
                &&& records[j].record.key.file_block_index == j
                &&& records[j].record.key.file_number == file_number
                &&& records[j].file_position == file_position
            } by {
                if j < count - 1 {
                    assert(records[j] == previous[j]);
                }
            }
        }
    }
}

/// How the blocks of a raw archive are numbered, at position `i`: its number is `i`, it
/// names its file's number, and it is the first block of its file (numbered 0 there) or follows
/// the block before it in the same file.
pub open spec fn raw_block_numbered(blocks: Seq<RawImageBlock>, file_numbers: Seq<u32>, i: int) -> bool {
    &&& blocks[i].record.key.block_index == i
    &&& blocks[i].record.key.file_number == file_numbers[blocks[i].file_position as int]
    &&& if i == 0 {
        blocks[i].record.key.file_block_index == 0
    } else if blocks[i - 1].file_position == blocks[i].file_position {
        blocks[i].record.key.file_block_index == blocks[i - 1].record.key.file_block_index + 1
    } else {
        blocks[i - 1].file_position < blocks[i].file_position && blocks[i].record.key.file_block_index == 0
    }
}

/// The blocks of a raw archive are numbered `0, 1, 2, ..` in file order, and within each file
/// from 0 on.
pub proof fn lemma_raw_archive_blocks_numbered(
    spec: RawImageSpec,
    layout: RawArchiveLayout,
    file_numbers: Seq<u32>,
    files: Seq<Seq<u8>>,
    count: int,
)
    requires
        0 <= count <= usize::MAX,
    ensures
        raw_archive_blocks(spec, layout, file_numbers, files, count) matches Some(blocks) ==> forall|i: int|
            0 <= i < blocks.len() ==> #[trigger] raw_block_numbered(blocks, file_numbers, i),
    decreases count,
{
    if count > 0 {
        let k = count - 1;
        lemma_raw_archive_blocks_numbered(spec, layout, file_numbers, files, k);
        lemma_raw_archive_blocks_positions(spec, layout, file_numbers, files, k);
        match raw_archive_blocks(spec, layout, file_numbers, files, k) {
            None => {},
            Some(previous) => {
                match spec_scan(file_numbers[k], files[k], 0) {
                    Err(_) => {},
                    Ok(segments) => {
                        let zlib = spec_zlib_blocks(segments);
                        lemma_file_raw_blocks_numbered(
                            spec,
                            file_numbers[k],
                            k,
                            zlib,
                            previous.len() as int,
                            zlib.len() as int,
                        );
                        if let Some(blocks) = raw_archive_blocks(spec, layout, file_numbers, files, count) {
                            let added = file_raw_blocks(
                                spec,
                                file_numbers[k],
                                k,
                                zlib,
                                previous.len() as int,
                                zlib.len() as int,
                            ).unwrap();
                            assert(blocks == previous + added);
                            assert forall|i: int| 0 <= i < blocks.len() implies #[trigger] raw_block_numbered(
                                blocks,
                                file_numbers,
                                i,
                            ) by {
                                let p = previous.len() as int;
                                if i < p {
                                    assert(raw_block_numbered(previous, file_numbers, i));
                                    assert(blocks[i] == previous[i]);
                                    if i > 0 {
                                        assert(blocks[i - 1] == previous[i - 1]);
                                    }
                                } else {
                                    assert(blocks[i] == added[i - p]);
                                    if i > p {
                                        assert(blocks[i - 1] == added[i - 1 - p]);
                                    } else if i > 0 {
                                        assert(blocks[i - 1] == previous[i - 1]);
                                        assert(previous[i - 1].file_position < k);
                                    }
                                }
                            }
                        }
                    },
                }
            },
        }
    }
}

impl LoadedRawImageArchive {
    #[verifier::type_invariant]
    spec fn blocks_name_their_files(self) -> bool {
        forall|i: int| 0 <= i < self.blocks@.len() ==> (#[trigger] self.blocks@[i]).file_position
            < self.files@.len()
    }

    pub closed spec fn spec_prefix(&self) -> Seq<char> {
        self.prefix@
    }

    pub closed spec fn spec_pixel_format(&self) -> RawPixelFormat {
        self.spec.pixel_format
    }

    pub closed spec fn spec_file_count(&self) -> u32 {
        self.file_count
    }

    pub closed spec fn spec_blocks(&self) -> Seq<RawImageBlock> {
        self.blocks@
    }

    pub closed spec fn spec_files(&self) -> Seq<Seq<u8>> {
        file_contents(self.files@)
    }

    /// Opens files numbered `1..=archive_count`, each holding only blocks; `files[k]` holds
    /// the contents of file number `k + 1`.
    pub fn open(prefix: &str, archive_count: u32, spec: RawImageSpec, files: Vec<Vec<u8>>) -> (archive:
        Result<Self, ExtractError>)
        requires
            files@.len() == archive_count,
        ensures
            archive is Ok <==> raw_archive_opens(
                prefix,
                Seq::new(archive_count as nat, |k: int| (k + 1) as u32),
                RawArchiveLayout::BlocksOnly,
                spec,
                file_contents(files@),
            ),
            archive matches Ok(a) ==> raw_archive_opened_as(
                a,
                prefix,
                Seq::new(archive_count as nat, |k: int| (k + 1) as u32),
                RawArchiveLayout::BlocksOnly,
                spec,
                file_contents(files@),
            ),
            archive matches Err(e) ==> raw_open_failed(
                prefix,
                Seq::new(archive_count as nat, |k: int| (k + 1) as u32),
                RawArchiveLayout::BlocksOnly,
                spec,
                file_contents(files@),
                e,
            ),
    {
        let mut file_numbers: Vec<u32> = Vec::new();
        let mut number: u32 = 0;
        while number < archive_count
            invariant
                number <= archive_count,
                file_numbers@ == Seq::new(number as nat, |k: int| (k + 1) as u32),
            decreases archive_count - number,
        {
            number += 1;
            file_numbers.push(number);
            assert(file_numbers@ =~= Seq::new(number as nat, |k: int| (k + 1) as u32));
        }
        Self::open_files(prefix, file_numbers.as_slice(), RawArchiveLayout::BlocksOnly, spec, files)
    }

    /// Opens explicitly numbered files with one reviewed physical layout and image
    /// specification; `files[k]` holds the contents of file number `file_numbers[k]`.
    #[verifier::loop_isolation(false)]
    #[verifier::spinoff_prover]
    #[verifier::rlimit(40)]
    pub fn open_files(
        prefix: &str,
        file_numbers: &[u32],
        layout: RawArchiveLayout,
        spec: RawImageSpec,
        files: Vec<Vec<u8>>,
    ) -> (archive: Result<Self, ExtractError>)
        requires
            files@.len() == file_numbers@.len(),
        ensures
            archive is Ok <==> raw_archive_opens(
                prefix,
                file_numbers@,
                layout,
                spec,
                file_contents(files@),
            ),
            archive matches Ok(a) ==> raw_archive_opened_as(
                a,
                prefix,
                file_numbers@,
                layout,
                spec,
                file_contents(files@),
            ),
            archive matches Err(e) ==> raw_open_failed(
                prefix,
                file_numbers@,
                layout,
                spec,
                file_contents(files@),
                e,
            ),
    {
        let parsed_prefix = match ArchivePrefix::parse(prefix) {
            Ok(parsed) => parsed,
            Err(error) => return Err(ExtractError::InvalidPrefix(error)),
        };
        match validate_raw_image_spec(spec) {
            Ok(()) => {},
            Err(error) => {
                return Err(error);
            },
        }
        let ghost contents = file_contents(files@);
        let mut blocks: Vec<RawImageBlock> = Vec::new();
        let mut k: usize = 0;
        while k < files.len()
            invariant
                files@.len() == file_numbers@.len(),
                contents == file_contents(files@),
                k <= files@.len(),
                raw_archive_blocks(spec, layout, file_numbers@, contents, k as int) == Some(blocks@),
                blocks@.len() <= u32::MAX,
            decreases files@.len() - k,
        {
            let file_number = file_numbers[k];
            let bytes = files[k].as_slice();
            let scanned = match scan_data_file(file_number, bytes) {
                Ok(scanned) => scanned,
                Err(source) => {
                    proof {
                        lemma_raw_blocks_fail_stays(
                            spec,
                            layout,
                            file_numbers@,
                            contents,
                            k + 1,
                            files@.len() as int,
                        );
                        assert(contents[k as int] == bytes@);
                        assert(raw_file_failed(
                            spec,
                            layout,
                            file_number,
                            contents[k as int],
                            blocks@.len() as int,
                            ExtractError::BlockScan { file_number, source },
                        ));
                        assert(raw_archive_blocks(spec, layout, file_numbers@, contents, k as int) matches Some(
                            previous,
                        ) && previous == blocks@);
                    }
                    return Err(ExtractError::BlockScan { file_number, source });
                },
            };
            match validate_raw_archive_layout(layout, bytes, &scanned) {
                Ok(()) => {},
                Err(error) => {
                    proof {
                        lemma_raw_blocks_fail_stays(
                            spec,
                            layout,
                            file_numbers@,
                            contents,
                            k + 1,
                            files@.len() as int,
                        );
                        assert(contents[k as int] == bytes@);
                        assert(raw_file_failed(
                            spec,
                            layout,
                            file_number,
                            contents[k as int],
                            blocks@.len() as int,
                            error,
                        ));
                        assert(raw_archive_blocks(spec, layout, file_numbers@, contents, k as int) matches Some(
                            previous,
                        ) && previous == blocks@);
                    }
                    return Err(error);
                },
            }
            let zlib = scanned.zlib_blocks();
            let ghost before = blocks@;
            match add_file_blocks(spec, file_number, k, &zlib, &mut blocks) {
                Ok(()) => {},
                Err(error) => {
                    proof {
                        lemma_raw_blocks_fail_stays(
                            spec,
                            layout,
                            file_numbers@,
                            contents,
                            k + 1,
                            files@.len() as int,
                        );
                        assert(contents[k as int] == bytes@);
                        assert(raw_file_failed(
                            spec,
                            layout,
                            file_number,
                            contents[k as int],
                            before.len() as int,
                            error,
                        ));
                        assert(raw_archive_blocks(spec, layout, file_numbers@, contents, k as int) matches Some(
                            previous,
                        ) && previous == before);
                    }
                    return Err(error);
                },
            }
            k += 1;
        }
        if files.len() > u32::MAX as usize {
            return Err(ExtractError::RawArchiveFileCountOverflow);
        }
        proof {
            lemma_raw_archive_blocks_positions(spec, layout, file_numbers@, contents, k as int);
        }
        Ok(
            LoadedRawImageArchive {
                prefix: parsed_prefix,
                spec,
                file_count: files.len() as u32,
                blocks,
                files,
            },
        )
    }

    pub fn prefix(&self) -> (prefix: &ArchivePrefix)
        ensures
            prefix@ == self.spec_prefix(),
    {
        &self.prefix
    }

    pub fn archive_count(&self) -> (count: u32)
        ensures
            count == self.spec_file_count(),
    {
        self.file_count
    }

    /// The record of every block, in archive order.
    pub fn records(&self) -> (records: Vec<RawImageRecord>)
        ensures
            records@ == self.spec_blocks().map_values(|block: RawImageBlock| block.record),
    {
        let mut records: Vec<RawImageRecord> = Vec::new();
        let mut index: usize = 0;
        while index < self.blocks.len()
            invariant
                index <= self.blocks@.len(),
                records@ == self.blocks@.subrange(0, index as int).map_values(
                    |block: RawImageBlock| block.record,
                ),
            decreases self.blocks@.len() - index,
        {
            records.push(self.blocks[index].record);
            index += 1;
            assert(records@ =~= self.blocks@.subrange(0, index as int).map_values(
                |block: RawImageBlock| block.record,
            ));
        }
        assert(self.blocks@.subrange(0, index as int) =~= self.blocks@);
        records
    }
}

/// Whether a raw archive opens: a valid prefix and specification, and every file scans, has
/// the reviewed layout and holds only reviewed block sizes.
pub open spec fn raw_archive_opens(
    prefix: &str,
    file_numbers: Seq<u32>,
    layout: RawArchiveLayout,
    spec: RawImageSpec,
    files: Seq<Seq<u8>>,
) -> bool {
    &&& is_valid_prefix(prefix)
    &&& raw_spec_is_valid(spec)
    &&& raw_archive_blocks(spec, layout, file_numbers, files, files.len() as int) is Some
    &&& files.len() <= u32::MAX
}

/// Whether `error` is how opening stops at one file, whose blocks are numbered from `start`:
/// the file does not scan, does not have the reviewed layout, or holds a block that cannot be
/// recorded.
pub open spec fn raw_file_failed(
    spec: RawImageSpec,
    layout: RawArchiveLayout,
    file_number: u32,
    bytes: Seq<u8>,
    start: int,
    error: ExtractError,
) -> bool {
    match spec_scan(file_number, bytes, 0) {
        Err(source) => error == ExtractError::BlockScan { file_number, source },
        Ok(segments) => if !raw_layout_ok(layout, bytes, segments) {
            raw_layout_failed(layout, file_number, bytes, segments, error)
        } else {
            file_blocks_failed(spec, file_number, spec_zlib_blocks(segments), start, error)
        },
    }
}

/// Whether `error` is how opening a raw archive is refused: for its prefix, then for its
/// specification, then at the first file that cannot be read as reviewed, and last for a file
/// count that does not fit.
pub open spec fn raw_open_failed(
    prefix: &str,
    file_numbers: Seq<u32>,
    layout: RawArchiveLayout,
    spec: RawImageSpec,
    files: Seq<Seq<u8>>,
    error: ExtractError,
) -> bool {
    if !is_valid_prefix(prefix) {
        error matches ExtractError::InvalidPrefix(e) && e.provided@ == prefix@
    } else if !raw_spec_is_valid(spec) {
        raw_spec_failed(spec, error)
    } else if raw_archive_blocks(spec, layout, file_numbers, files, files.len() as int) is None {
        exists|k: int|
            #![trigger raw_archive_blocks(spec, layout, file_numbers, files, k)]
            0 <= k < files.len() && (raw_archive_blocks(spec, layout, file_numbers, files, k) matches Some(
                previous,
            ) && raw_archive_blocks(spec, layout, file_numbers, files, k + 1) is None && raw_file_failed(
                spec,
                layout,
                file_numbers[k],
                files[k],
                previous.len() as int,
                error,
            ))
    } else {
        error == ExtractError::RawArchiveFileCountOverflow
    }
}

/// What an opened raw archive holds.
pub open spec fn raw_archive_opened_as(
    archive: LoadedRawImageArchive,
    prefix: &str,
    file_numbers: Seq<u32>,
    layout: RawArchiveLayout,
    spec: RawImageSpec,
    files: Seq<Seq<u8>>,
) -> bool {
    &&& archive.spec_prefix() == ascii_lower(prefix@)
    &&& archive.spec_pixel_format() == spec.pixel_format
    &&& archive.spec_file_count() == files.len()
    &&& archive.spec_files() == files
    &&& Some(archive.spec_blocks()) == raw_archive_blocks(spec, layout, file_numbers, files, files.len() as int)
}

// ---------------------------------------------------------------------------
// Raw image extraction
// ---------------------------------------------------------------------------

/// The image that decoded pixel bytes describe in `pixel_format`.
pub open spec fn pixel_image(pixel_format: RawPixelFormat, width: u32, height: u32, bytes: Seq<u8>) -> Result<
    ImageView,
    PixelDecodeError,
> {
    match pixel_format {
        RawPixelFormat::Gray8 => gray_image(width, height, bytes),
        RawPixelFormat::Bgra8 => bgra_image(width, height, bytes),
    }
}

/// An image result seen through the images' views.
pub open spec fn image_view_result(result: Result<RgbaImage, ExtractError>) -> Result<ImageView, ExtractError> {
    match result {
        Ok(image) => Ok(image@),
        Err(error) => Err(error),
    }
}

/// What decoding a raw block from the bytes of its file yields: the block's bytes inflated
/// under `max_output_size`, read as pixels of the record's size.
pub open spec fn raw_decode_outcome(
    pixel_format: RawPixelFormat,
    block: RawImageBlock,
    file_bytes: Seq<u8>,
    max_output_size: usize,
    result: Result<ImageView, ExtractError>,
) -> bool {
    exists|decoded: Result<Vec<u8>, BlockDecodeError>|
        {
            &&& block_decode_outcome(block.block, file_bytes, max_output_size, decoded)
            &&& match decoded {
                Err(error) => result == Err::<ImageView, ExtractError>(ExtractError::RawBlockDecode(error)),
                Ok(bytes) => match pixel_image(
                    pixel_format,
                    block.record.width,
                    block.record.height,
                    bytes@,
                ) {
                    Ok(view) => result == Ok::<ImageView, ExtractError>(view),
                    Err(error) => result == Err::<ImageView, ExtractError>(
                        ExtractError::PixelDecode(error),
                    ),
                },
            }
        }
}

/// The block that `key` names: the block at `key.block_index`, if it has exactly that key.
pub open spec fn spec_raw_block(blocks: Seq<RawImageBlock>, key: RawResourceKey) -> Option<RawImageBlock> {
    if (key.block_index as int) < blocks.len() && blocks[key.block_index as int].record.key == key {
        Some(blocks[key.block_index as int])
    } else {
        None
    }
}

/// The first block of file `file_number` at position `file_block_index` within that file.
pub open spec fn spec_block_in_file(blocks: Seq<RawImageBlock>, file_number: u32, file_block_index: u32) -> Option<
    RawImageBlock,
>
    decreases blocks.len(),
{
    if blocks.len() == 0 {
        None
    } else if blocks[0].record.key.file_number == file_number && blocks[0].record.key.file_block_index
        == file_block_index {
        Some(blocks[0])
    } else {
        spec_block_in_file(blocks.drop_first(), file_number, file_block_index)
    }
}

/// The PNG file of an image.
pub open spec fn png_of(view: ImageView) -> Result<Seq<u8>, Seq<char>> {
    png_rgba8_encoding(view.pixels, view.width, view.height)
}

fn encode(image: &RgbaImage) -> (png: Result<Vec<u8>, ExtractError>)
    ensures
        match png_of(image@) {
            Ok(bytes) => png matches Ok(out) && out@ == bytes,
            Err(message) => png matches Err(ExtractError::PngEncode(error)) && error.message@ == message,
        },
{
    match image.encode_png() {
        Ok(bytes) => Ok(bytes),
        Err(error) => Err(ExtractError::PngEncode(error)),
    }
}

fn make_thumbnail(image: &RgbaImage, max_width: u32, max_height: u32, max_output_size: usize) -> (thumbnail:
    Result<RgbaImage, ExtractError>)
    ensures
        match thumbnail_outcome(image@, max_width, max_height, max_output_size) {
            Ok(view) => thumbnail matches Ok(t) && t@ == view,
            Err(error) => thumbnail matches Err(ExtractError::Thumbnail(e)) && e == error,
        },
{
    match image.thumbnail(max_width, max_height, max_output_size) {
        Ok(thumbnail) => Ok(thumbnail),
        Err(error) => Err(ExtractError::Thumbnail(error)),
    }
}

fn pixels_to_image(pixel_format: RawPixelFormat, width: u32, height: u32, bytes: &[u8]) -> (image: Result<
    RgbaImage,
    ExtractError,
>)
    ensures
        match pixel_image(pixel_format, width, height, bytes@) {
            Ok(view) => image matches Ok(i) && i@ == view,
            Err(error) => image matches Err(ExtractError::PixelDecode(e)) && e == error,
        },
{
    let converted = match pixel_format {
        RawPixelFormat::Gray8 => RgbaImage::from_gray8(width, height, bytes),
        RawPixelFormat::Bgra8 => RgbaImage::from_bgra(width, height, bytes),
    };
    match converted {
        Ok(image) => Ok(image),
        Err(error) => Err(ExtractError::PixelDecode(error)),
    }
}

impl LoadedRawImageArchive {
    fn raw_block(&self, key: RawResourceKey) -> (block: Result<RawImageBlock, ExtractError>)
        ensures
            match spec_raw_block(self.spec_blocks(), key) {
                Some(found) => block matches Ok(b) && b == found,
                None => block matches Err(ExtractError::RawResourceNotFound { key: k }) && k == key,
            },
    {
        let index = key.block_index as usize;
        if index < self.blocks.len() && self.blocks[index].record.key == key {
            Ok(self.blocks[index])
        } else {
            Err(ExtractError::RawResourceNotFound { key })
        }
    }

    fn raw_block_in_file(&self, file_number: u32, file_block_index: u32) -> (block: Result<
        RawImageBlock,
        ExtractError,
    >)
        ensures
            match spec_block_in_file(self.spec_blocks(), file_number, file_block_index) {
                Some(found) => block matches Ok(b) && b == found,
                None => block matches Err(
                    ExtractError::RawLayerBlockMissing { file_number: f, file_block_index: i },
                ) && f == file_number && i == file_block_index,
            },
    {
        let blocks = &self.blocks;
        let mut index: usize = 0;
        assert(blocks@.subrange(0, blocks@.len() as int) =~= blocks@);
        while index < blocks.len()
            invariant
                index <= blocks@.len(),
                blocks@ == self.spec_blocks(),
                spec_block_in_file(blocks@, file_number, file_block_index) == spec_block_in_file(
                    blocks@.subrange(index as int, blocks@.len() as int),
                    file_number,
                    file_block_index,
                ),
            decreases blocks@.len() - index,
        {
            let ghost rest = blocks@.subrange(index as int, blocks@.len() as int);
            assert(rest[0] == blocks@[index as int]);
            assert(rest.drop_first() =~= blocks@.subrange(index + 1, blocks@.len() as int));
            let candidate = blocks[index];
            if candidate.record.key.file_number == file_number && candidate.record.key.file_block_index
                == file_block_index {
                return Ok(candidate);
            }
            index += 1;
        }
        Err(ExtractError::RawLayerBlockMissing { file_number, file_block_index })
    }

    /// Decodes a block of this archive from `bytes`, the contents of its file.
    fn decode_raw_block_bytes(&self, block: RawImageBlock, bytes: &[u8], max_output_size: usize) -> (image:
        Result<RgbaImage, ExtractError>)
        ensures
            raw_decode_outcome(
                self.spec_pixel_format(),
                block,
                bytes@,
                max_output_size,
                image_view_result(image),
            ),
    {
        let decoded = block.block.decode(bytes, max_output_size);
        let ghost outcome = decoded;
        let image = match decoded {
            Ok(pixels) => pixels_to_image(
                self.spec.pixel_format,
                block.record.width,
                block.record.height,
                pixels.as_slice(),
            ),
            Err(error) => Err(ExtractError::RawBlockDecode(error)),
        };
        assert(block_decode_outcome(block.block, bytes@, max_output_size, outcome));
        image
    }
}


/// One layered tile: the overlay file's block drawn over the base file's block at position
/// `first_file_block_index + offset` of both files.
pub open spec fn layered_tile_outcome(
    pixel_format: RawPixelFormat,
    blocks: Seq<RawImageBlock>,
    rule: LayeredAssemblyRule,
    base_bytes: Seq<u8>,
    overlay_bytes: Seq<u8>,
    max_tile_output_size: usize,
    offset: int,
    result: Result<ImageView, ExtractError>,
) -> bool {
    let index = rule.first_file_block_index + offset;
    if index > u32::MAX {
        result == Err::<ImageView, ExtractError>(ExtractError::RawArchiveBlockCountOverflow)
    } else {
        match spec_block_in_file(blocks, rule.base_file_number, index as u32) {
            None => result == Err::<ImageView, ExtractError>(
                ExtractError::RawLayerBlockMissing {
                    file_number: rule.base_file_number,
                    file_block_index: index as u32,
                },
            ),
            Some(base) => match spec_block_in_file(blocks, rule.overlay_file_number, index as u32) {
                None => result == Err::<ImageView, ExtractError>(
                    ExtractError::RawLayerBlockMissing {
                        file_number: rule.overlay_file_number,
                        file_block_index: index as u32,
                    },
                ),
                Some(layer) => exists|base_image: Result<ImageView, ExtractError>|
                    {
                        &&& #[trigger] raw_decode_outcome(
                            pixel_format,
                            base,
                            base_bytes,
                            max_tile_output_size,
                            base_image,
                        )
                        &&& match base_image {
                            Err(error) => result == Err::<ImageView, ExtractError>(error),
                            Ok(base_view) => exists|layer_image: Result<ImageView, ExtractError>|
                                {
                                    &&& #[trigger] raw_decode_outcome(
                                        pixel_format,
                                        layer,
                                        overlay_bytes,
                                        max_tile_output_size,
                                        layer_image,
                                    )
                                    &&& match layer_image {
                                        Err(error) => result == Err::<ImageView, ExtractError>(
                                            error,
                                        ),
                                        Ok(layer_view) => if base_view.width != layer_view.width
                                            || base_view.height != layer_view.height {
                                            result == Err::<ImageView, ExtractError>(
                                                ExtractError::ImageAssembly(
                                                    ImageAssemblyError::LayerDimensionMismatch {
                                                        base: (base_view.width, base_view.height),
                                                        layer: (layer_view.width, layer_view.height),
                                                    },
                                                ),
                                            )
                                        } else {
                                            result == Ok::<ImageView, ExtractError>(
                                                ImageView {
                                                    width: base_view.width,
                                                    height: base_view.height,
                                                    pixels: composite(
                                                        base_view.pixels,
                                                        layer_view.pixels,
                                                    ),
                                                },
                                            )
                                        },
                                    }
                                },
                        }
                    },
            },
        }
    }
}

/// The assembled image seen through its view, with assembly errors carried by
/// `ExtractError::ImageAssembly`.
pub open spec fn assembly_view_result(outcome: Result<ImageView, ImageAssemblyError>) -> Result<
    ImageView,
    ExtractError,
> {
    match outcome {
        Ok(view) => Ok(view),
        Err(error) => Err(ExtractError::ImageAssembly(error)),
    }
}

/// The outcome of decoding `count` tiles with `tile_outcome`, then joining them with
/// `assemble`: the first failing tile's error, or the join of all tiles.
pub open spec fn tiles_then_assemble(
    count: int,
    tile_outcome: spec_fn(int, Result<ImageView, ExtractError>) -> bool,
    assemble: spec_fn(Seq<RgbaImage>) -> Result<ImageView, ExtractError>,
    result: Result<ImageView, ExtractError>,
) -> bool {
    ||| exists|tiles: Seq<RgbaImage>|
        {
            &&& tiles.len() == count
            &&& forall|j: int| 0 <= j < count ==> #[trigger] tile_outcome(j, Ok(tiles[j]@))
            &&& result == assemble(tiles)
        }
    ||| exists|i: int, tiles: Seq<RgbaImage>, error: ExtractError|
        #![trigger tile_outcome(i, Err::<ImageView, ExtractError>(error)), tiles.len()]
        {
            &&& 0 <= i < count
            &&& tiles.len() == i
            &&& forall|j: int| 0 <= j < i ==> #[trigger] tile_outcome(j, Ok(tiles[j]@))
            &&& tile_outcome(i, Err(error))
            &&& result == Err::<ImageView, ExtractError>(error)
        }
}

impl LoadedRawImageArchive {
    fn layered_tile(
        &self,
        rule: LayeredAssemblyRule,
        base_bytes: &[u8],
        overlay_bytes: &[u8],
        max_tile_output_size: usize,
        offset: u32,
    ) -> (tile: Result<RgbaImage, ExtractError>)
        ensures
            layered_tile_outcome(
                self.spec_pixel_format(),
                self.spec_blocks(),
                rule,
                base_bytes@,
                overlay_bytes@,
                max_tile_output_size,
                offset as int,
                image_view_result(tile),
            ),
    {
        let file_block_index = match rule.first_file_block_index.checked_add(offset) {
            Some(index) => index,
            None => return Err(ExtractError::RawArchiveBlockCountOverflow),
        };
        let base = self.raw_block_in_file(rule.base_file_number, file_block_index)?;
        let layer = self.raw_block_in_file(rule.overlay_file_number, file_block_index)?;
        let base_image = self.decode_raw_block_bytes(base, base_bytes, max_tile_output_size);
        let ghost base_outcome = image_view_result(base_image);
        let mut combined = match base_image {
            Ok(image) => image,
            Err(error) => return Err(error),
        };
        let layer_image = self.decode_raw_block_bytes(layer, overlay_bytes, max_tile_output_size);
        let ghost layer_outcome = image_view_result(layer_image);
        let layer_image = match layer_image {
            Ok(image) => image,
            Err(error) => {
                assert(raw_decode_outcome(
                    self.spec_pixel_format(),
                    base,
                    base_bytes@,
                    max_tile_output_size,
                    base_outcome,
                ));
                return Err(error);
            },
        };
        match combined.overlay(&layer_image) {
            Ok(()) => {},
            Err(error) => return Err(ExtractError::ImageAssembly(error)),
        }
        assert(raw_decode_outcome(
            self.spec_pixel_format(),
            layer,
            overlay_bytes@,
            max_tile_output_size,
            layer_outcome,
        ));
        Ok(combined)
    }
}

/// The outcome of assembling the layered image of `rule` from an archive's blocks and files.
pub open spec fn layered_assembly_outcome(
    prefix: Seq<char>,
    pixel_format: RawPixelFormat,
    blocks: Seq<RawImageBlock>,
    files: Seq<Seq<u8>>,
    rule: LayeredAssemblyRule,
    max_tile_output_size: usize,
    max_assembled_output_size: usize,
    result: Result<ImageView, ExtractError>,
) -> bool {
    if !same_ascii_name(rule.archive@, prefix) {
        result matches Err(ExtractError::AssemblyArchiveMismatch { expected, actual })
            && expected == rule.archive && actual@ == prefix
    } else if rule.status != VerificationStatus::HumanVerified {
        result == Err::<ImageView, ExtractError>(
            ExtractError::AssemblyRuleNotVerified {
                first_block: rule.canonical_block,
                last_block: rule.last_block,
            },
        )
    } else {
        match spec_block_in_file(blocks, rule.base_file_number, rule.first_file_block_index) {
            None => result == Err::<ImageView, ExtractError>(
                ExtractError::RawLayerBlockMissing {
                    file_number: rule.base_file_number,
                    file_block_index: rule.first_file_block_index,
                },
            ),
            Some(base) => match spec_block_in_file(
                blocks,
                rule.overlay_file_number,
                rule.first_file_block_index,
            ) {
                None => result == Err::<ImageView, ExtractError>(
                    ExtractError::RawLayerBlockMissing {
                        file_number: rule.overlay_file_number,
                        file_block_index: rule.first_file_block_index,
                    },
                ),
                Some(overlay) => tiles_then_assemble(
                    rule.tile_count as int,
                    |j: int, tile: Result<ImageView, ExtractError>|
                        layered_tile_outcome(
                            pixel_format,
                            blocks,
                            rule,
                            files[base.file_position as int],
                            files[overlay.file_position as int],
                            max_tile_output_size,
                            j,
                            tile,
                        ),
                    |tiles: Seq<RgbaImage>|
                        assembly_view_result(
                            spec_assemble_grid(
                                tiles,
                                rule.columns,
                                rule.rows,
                                rule.output_width,
                                rule.output_height,
                                max_assembled_output_size,
                            ),
                        ),
                    result,
                ),
            },
        }
    }
}

impl LoadedRawImageArchive {
    proof fn lemma_block_file_in_range(&self, block: RawImageBlock)
        requires
            self.blocks_name_their_files(),
            exists|i: int| 0 <= i < self.spec_blocks().len() && self.spec_blocks()[i] == block,
        ensures
            block.file_position < self.spec_files().len(),
    {
        let i = choose|i: int| 0 <= i < self.spec_blocks().len() && self.spec_blocks()[i] == block;
        assert(self.blocks@[i].file_position < self.files@.len());
    }

    #[verifier::loop_isolation(false)]
    fn decode_layered_assembly(
        &self,
        rule: LayeredAssemblyRule,
        max_tile_output_size: usize,
        max_assembled_output_size: usize,
    ) -> (image: Result<RgbaImage, ExtractError>)
        ensures
            layered_assembly_outcome(
                self.spec_prefix(),
                self.spec_pixel_format(),
                self.spec_blocks(),
                self.spec_files(),
                rule,
                max_tile_output_size,
                max_assembled_output_size,
                image_view_result(image),
            ),
    {
        proof {
            use_type_invariant(self);
        }
        if !eq_ignore_ascii_case(rule.archive, self.prefix.as_str()) {
            return Err(
                ExtractError::AssemblyArchiveMismatch {
                    expected: rule.archive,
                    actual: self.prefix.as_str().to_owned(),
                },
            );
        }
        if rule.status != VerificationStatus::HumanVerified {
            return Err(
                ExtractError::AssemblyRuleNotVerified {
                    first_block: rule.canonical_block,
                    last_block: rule.last_block,
                },
            );
        }
        let first_index = rule.first_file_block_index;
        let base = self.raw_block_in_file(rule.base_file_number, first_index)?;
        let overlay = self.raw_block_in_file(rule.overlay_file_number, first_index)?;
        proof {
            lemma_block_in_file_is_member(self.spec_blocks(), rule.base_file_number, first_index);
            lemma_block_in_file_is_member(self.spec_blocks(), rule.overlay_file_number, first_index);
            self.lemma_block_file_in_range(base);
            self.lemma_block_file_in_range(overlay);
        }
        let base_bytes = self.files[base.file_position].as_slice();
        let overlay_bytes = self.files[overlay.file_position].as_slice();
        let ghost tile_outcome = |j: int, tile: Result<ImageView, ExtractError>|
            layered_tile_outcome(
                self.spec_pixel_format(),
                self.spec_blocks(),
                rule,
                base_bytes@,
                overlay_bytes@,
                max_tile_output_size,
                j,
                tile,
            );
        let mut tiles: Vec<RgbaImage> = Vec::new();
        let mut offset: u32 = 0;
        while offset < rule.tile_count
            invariant
                offset <= rule.tile_count,
                tiles@.len() == offset,
                forall|j: int| 0 <= j < offset ==> #[trigger] tile_outcome(j, Ok(tiles@[j]@)),
            decreases rule.tile_count - offset,
        {
            let tile = self.layered_tile(
                rule,
                base_bytes,
                overlay_bytes,
                max_tile_output_size,
                offset,
            );
            match tile {
                Ok(image) => {
                    tiles.push(image);
                },
                Err(error) => {
                    proof {
                        assert(tile_outcome(offset as int, Err(error)));
                        assert(tiles_then_assemble(
                            rule.tile_count as int,
                            tile_outcome,
                            |tiles: Seq<RgbaImage>|
                                assembly_view_result(
                                    spec_assemble_grid(
                                        tiles,
                                        rule.columns,
                                        rule.rows,
                                        rule.output_width,
                                        rule.output_height,
                                        max_assembled_output_size,
                                    ),
                                ),
                            Err(error),
                        ));
                    }
                    return Err(error);
                },
            }
            offset += 1;
        }
        let assembled = RgbaImage::assemble_grid(
            tiles.as_slice(),
            rule.columns,
            rule.rows,
            rule.output_width,
            rule.output_height,
            max_assembled_output_size,
        );
        match assembled {
            Ok(image) => Ok(image),
            Err(error) => Err(ExtractError::ImageAssembly(error)),
        }
    }
}

proof fn lemma_block_in_file_is_member(blocks: Seq<RawImageBlock>, file_number: u32, file_block_index: u32)
    ensures
        spec_block_in_file(blocks, file_number, file_block_index) matches Some(block) ==> exists|i: int|
            0 <= i < blocks.len() && blocks[i] == block,
    decreases blocks.len(),
{
    if blocks.len() > 0 {
        lemma_block_in_file_is_member(blocks.drop_first(), file_number, file_block_index);
        if let Some(block) = spec_block_in_file(blocks.drop_first(), file_number, file_block_index) {
            let i = choose|i: int| 0 <= i < blocks.drop_first().len() && blocks.drop_first()[i] == block;
            assert(blocks[i + 1] == block);
        }
        assert(blocks[0] == blocks[0]);
    }
}

/// How a PNG extraction of a decoded image ends: the decoding error, the encoder's error, or
/// a value whose fields `made` checks against the image and its PNG bytes.
pub open spec fn png_extraction<T>(
    image: Result<ImageView, ExtractError>,
    result: Result<T, ExtractError>,
    made: spec_fn(T, ImageView, Seq<u8>) -> bool,
) -> bool {
    match image {
        Err(error) => result matches Err(e) && e == error,
        Ok(view) => match png_of(view) {
            Ok(png) => result matches Ok(value) && made(value, view, png),
            Err(message) => result matches Err(ExtractError::PngEncode(e)) && e.message@ == message,
        },
    }
}

/// How a thumbnail extraction of a decoded image ends: the decoding or thumbnail error, the
/// encoder's error, or a value whose fields `made` checks against the source, the thumbnail
/// and its PNG bytes.
pub open spec fn thumbnail_extraction<T>(
    image: Result<ImageView, ExtractError>,
    max_width: u32,
    max_height: u32,
    max_thumbnail_output_size: usize,
    result: Result<T, ExtractError>,
    made: spec_fn(T, ImageView, ImageView, Seq<u8>) -> bool,
) -> bool {
    match image {
        Err(error) => result matches Err(e) && e == error,
        Ok(source) => match thumbnail_outcome(source, max_width, max_height, max_thumbnail_output_size) {
            Err(error) => result matches Err(ExtractError::Thumbnail(e)) && e == error,
            Ok(thumbnail) => match png_of(thumbnail) {
                Ok(png) => result matches Ok(value) && made(value, source, thumbnail, png),
                Err(message) => result matches Err(ExtractError::PngEncode(e)) && e.message@
                    == message,
            },
        },
    }
}

/// The resource key under which a raw block is reported: group 0, with the block index as
/// its ID.
pub open spec fn raw_resource_key(key: RawResourceKey) -> ResourceKey {
    ResourceKey { group_code: 0, icon_id: key.block_index, block_index: key.block_index }
}

impl LoadedRawImageArchive {
    /// What `extract_png` returns: the postcondition it is proved against.
    pub open spec fn extract_png_result(
        &self,
        key: RawResourceKey,
        max_output_size: usize,
        extracted: Result<ExtractedResource, ExtractError>,
    ) -> bool {
        match spec_raw_block(self.spec_blocks(), key) {
            None => extracted matches Err(ExtractError::RawResourceNotFound { key: k }) && k == key,
            Some(block) => exists|image: Result<ImageView, ExtractError>|
                #[trigger] raw_decode_outcome(
                    self.spec_pixel_format(),
                    block,
                    self.spec_files()[block.file_position as int],
                    max_output_size,
                    image,
                ) && png_extraction(
                    image,
                    extracted,
                    |r: ExtractedResource, view: ImageView, png: Seq<u8>|
                        r.key == raw_resource_key(key) && r.width == block.record.width
                            && r.height == block.record.height && r.png@ == png,
                ),
        }
    }

    /// Decodes one raw block and encodes it as PNG.
    pub fn extract_png(&self, key: RawResourceKey, max_output_size: usize) -> (extracted: Result<
        ExtractedResource,
        ExtractError,
    >)
        ensures
            self.extract_png_result(key, max_output_size, extracted),
    {
        proof {
            use_type_invariant(self);
        }
        let block = self.raw_block(key)?;
        proof {
            self.lemma_block_file_in_range(block);
        }
        let image = self.decode_raw_block_bytes(block, self.files[block.file_position].as_slice(), max_output_size);
        let ghost outcome = image_view_result(image);
        proof {
            assert(self.spec_files()[block.file_position as int] == self.files@[block.file_position as int]@);
            assert(raw_decode_outcome(
                self.spec_pixel_format(),
                block,
                self.spec_files()[block.file_position as int],
                max_output_size,
                outcome,
            ));
        }
        let image = image?;
        let png = encode(&image)?;
        Ok(
            ExtractedResource {
                key: ResourceKey {
                    group_code: 0,
                    icon_id: key.block_index,
                    block_index: key.block_index,
                },
                width: block.record.width,
                height: block.record.height,
                png,
            },
        )
    }

    /// What `extract_thumbnail_png` returns: the postcondition it is proved against.
    pub open spec fn extract_thumbnail_png_result(
        &self,
        key: RawResourceKey,
        max_decode_size: usize,
        max_width: u32,
        max_height: u32,
        max_thumbnail_output_size: usize,
        extracted: Result<ExtractedThumbnail, ExtractError>,
    ) -> bool {
        match spec_raw_block(self.spec_blocks(), key) {
            None => extracted matches Err(ExtractError::RawResourceNotFound { key: k }) && k == key,
            Some(block) => exists|image: Result<ImageView, ExtractError>|
                #[trigger] raw_decode_outcome(
                    self.spec_pixel_format(),
                    block,
                    self.spec_files()[block.file_position as int],
                    max_decode_size,
                    image,
                ) && thumbnail_extraction(
                    image,
                    max_width,
                    max_height,
                    max_thumbnail_output_size,
                    extracted,
                    |r: ExtractedThumbnail, source: ImageView, thumbnail: ImageView, png: Seq<u8>|
                        r.key == raw_resource_key(key) && r.source_width == block.record.width
                            && r.source_height == block.record.height && r.width
                            == thumbnail.width && r.height == thumbnail.height && r.png@ == png,
                ),
        }
    }

    /// Decodes one raw block and encodes a bounded thumbnail of it as PNG.
    pub fn extract_thumbnail_png(
        &self,
        key: RawResourceKey,
        max_decode_size: usize,
        max_width: u32,
        max_height: u32,
        max_thumbnail_output_size: usize,
    ) -> (extracted: Result<ExtractedThumbnail, ExtractError>)
        ensures
            self.extract_thumbnail_png_result(key, max_decode_size, max_width, max_height, max_thumbnail_output_size, extracted),
    {
        proof {
            use_type_invariant(self);
        }
        let block = self.raw_block(key)?;
        proof {
            self.lemma_block_file_in_range(block);
        }
        let image = self.decode_raw_block_bytes(block, self.files[block.file_position].as_slice(), max_decode_size);
        let ghost outcome = image_view_result(image);
        proof {
            assert(self.spec_files()[block.file_position as int] == self.files@[block.file_position as int]@);
            assert(raw_decode_outcome(
                self.spec_pixel_format(),
                block,
                self.spec_files()[block.file_position as int],
                max_decode_size,
                outcome,
            ));
        }
        let image = image?;
        let thumbnail = make_thumbnail(&image, max_width, max_height, max_thumbnail_output_size)?;
        let png = encode(&thumbnail)?;
        Ok(
            ExtractedThumbnail {
                key: ResourceKey {
                    group_code: 0,
                    icon_id: key.block_index,
                    block_index: key.block_index,
                },
                source_width: block.record.width,
                source_height: block.record.height,
                width: thumbnail.width(),
                height: thumbnail.height(),
                png,
            },
        )
    }

    /// Extracts one human-verified logical image from matching base and overlay raw tiles.
    pub fn extract_verified_layered_assembly(
        &self,
        rule: LayeredAssemblyRule,
        max_tile_output_size: usize,
        max_assembled_output_size: usize,
    ) -> (extracted: Result<ExtractedAssembly, ExtractError>)
        ensures
            exists|image: Result<ImageView, ExtractError>|
                #[trigger] layered_assembly_outcome(
                    self.spec_prefix(),
                    self.spec_pixel_format(),
                    self.spec_blocks(),
                    self.spec_files(),
                    rule,
                    max_tile_output_size,
                    max_assembled_output_size,
                    image,
                ) && png_extraction(
                    image,
                    extracted,
                    |r: ExtractedAssembly, view: ImageView, png: Seq<u8>|
                        r.first_block == rule.canonical_block && r.last_block == rule.last_block
                            && r.width == view.width && r.height == view.height && r.png@ == png,
                ),
    {
        let image = self.decode_layered_assembly(rule, max_tile_output_size, max_assembled_output_size);
        let ghost outcome = image_view_result(image);
        let image = image?;
        let png = encode(&image)?;
        Ok(
            ExtractedAssembly {
                first_block: rule.canonical_block,
                last_block: rule.last_block,
                width: image.width(),
                height: image.height(),
                png,
            },
        )
    }

    /// Extracts a bounded preview of one human-verified layered raw-image assembly.
    pub fn extract_verified_layered_assembly_thumbnail(
        &self,
        rule: LayeredAssemblyRule,
        max_tile_output_size: usize,
        max_assembled_output_size: usize,
        max_width: u32,
        max_height: u32,
        max_thumbnail_output_size: usize,
    ) -> (extracted: Result<ExtractedAssemblyThumbnail, ExtractError>)
        ensures
            exists|image: Result<ImageView, ExtractError>|
                #[trigger] layered_assembly_outcome(
                    self.spec_prefix(),
                    self.spec_pixel_format(),
                    self.spec_blocks(),
                    self.spec_files(),
                    rule,
                    max_tile_output_size,
                    max_assembled_output_size,
                    image,
                ) && thumbnail_extraction(
                    image,
                    max_width,
                    max_height,
                    max_thumbnail_output_size,
                    extracted,
                    |r: ExtractedAssemblyThumbnail, source: ImageView, thumbnail: ImageView, png: Seq<u8>|
                        r.first_block == rule.canonical_block && r.last_block == rule.last_block
                            && r.source_width == source.width && r.source_height == source.height
                            && r.width == thumbnail.width && r.height == thumbnail.height && r.png@
                            == png,
                ),
    {
        let image = self.decode_layered_assembly(rule, max_tile_output_size, max_assembled_output_size);
        let ghost outcome = image_view_result(image);
        let image = image?;
        let source_width = image.width();
        let source_height = image.height();
        let thumbnail = make_thumbnail(&image, max_width, max_height, max_thumbnail_output_size)?;
        let png = encode(&thumbnail)?;
        Ok(
            ExtractedAssemblyThumbnail {
                first_block: rule.canonical_block,
                last_block: rule.last_block,
                source_width,
                source_height,
                width: thumbnail.width(),
                height: thumbnail.height(),
                png,
            },
        )
    }
}

// ---------------------------------------------------------------------------
// Indexed archives
// ---------------------------------------------------------------------------

/// A single archive family loaded once, with images decoded only when requested.
#[derive(Debug)]
pub struct LoadedArchive {
    prefix: ArchivePrefix,
    index: IndexedArchive,
    layout: ArchiveLayout,
    files: Vec<Vec<u8>>,
}

/// Whether `record` has the identity `key`.
pub open spec fn record_has_key(record: IndexRecord, key: ResourceKey) -> bool {
    record.group_code == key.group_code && record.icon_id == key.icon_id && record.block_index
        == key.block_index
}

/// The first of the first `count` records that `matches` accepts.
pub open spec fn first_matching(records: Seq<IndexRecord>, matches: spec_fn(IndexRecord) -> bool, count: int) -> Option<
    int,
>
    decreases count,
{
    if count <= 0 {
        None
    } else {
        match first_matching(records, matches, count - 1) {
            Some(i) => Some(i),
            None => if matches(records[count - 1]) {
                Some(count - 1)
            } else {
                None
            },
        }
    }
}

/// The first record among the first `count` that `matches` accepts, comes after `first`, and
/// has other dimensions than record `first`.
pub open spec fn first_conflict(
    records: Seq<IndexRecord>,
    matches: spec_fn(IndexRecord) -> bool,
    first: int,
    count: int,
) -> Option<int>
    decreases count,
{
    if count <= 0 {
        None
    } else {
        match first_conflict(records, matches, first, count - 1) {
            Some(i) => Some(i),
            None => {
                let candidate = records[count - 1];
                if count - 1 > first && matches(candidate) && (candidate.width != records[first].width
                    || candidate.height != records[first].height) {
                    Some(count - 1)
                } else {
                    None
                }
            },
        }
    }
}

/// The record that `matches` selects: the first accepted one, provided no later accepted
/// record has other dimensions. `Err(None)` when none is accepted, `Err(Some(i))` when record
/// `i` conflicts with the first.
pub open spec fn select_record(records: Seq<IndexRecord>, matches: spec_fn(IndexRecord) -> bool) -> Result<
    IndexRecord,
    Option<int>,
> {
    match first_matching(records, matches, records.len() as int) {
        None => Err(None),
        Some(first) => match first_conflict(records, matches, first, records.len() as int) {
            Some(conflict) => Err(Some(conflict)),
            None => Ok(records[first]),
        },
    }
}

proof fn lemma_first_matching_bounds(records: Seq<IndexRecord>, matches: spec_fn(IndexRecord) -> bool, count: int)
    ensures
        first_matching(records, matches, count) matches Some(i) ==> 0 <= i < count && matches(records[i]),
    decreases count,
{
    if count > 0 {
        lemma_first_matching_bounds(records, matches, count - 1);
    }
}

proof fn lemma_first_conflict_bounds(
    records: Seq<IndexRecord>,
    matches: spec_fn(IndexRecord) -> bool,
    first: int,
    count: int,
)
    ensures
        first_conflict(records, matches, first, count) matches Some(i) ==> first < i < count,
    decreases count,
{
    if count > 0 {
        lemma_first_conflict_bounds(records, matches, first, count - 1);
    }
}

proof fn lemma_first_matching_stays(records: Seq<IndexRecord>, matches: spec_fn(IndexRecord) -> bool, count: int, later: int)
    requires
        0 <= count <= later,
        first_matching(records, matches, count) is Some,
    ensures
        first_matching(records, matches, later) == first_matching(records, matches, count),
    decreases later - count,
{
    if later > count {
        lemma_first_matching_stays(records, matches, count, later - 1);
    }
}

proof fn lemma_first_conflict_stays(
    records: Seq<IndexRecord>,
    matches: spec_fn(IndexRecord) -> bool,
    first: int,
    count: int,
    later: int,
)
    requires
        0 <= count <= later,
        first_conflict(records, matches, first, count) is Some,
    ensures
        first_conflict(records, matches, first, later) == first_conflict(records, matches, first, count),
    decreases later - count,
{
    if later > count {
        lemma_first_conflict_stays(records, matches, first, count, later - 1);
    }
}

proof fn lemma_no_conflict_before_first(
    records: Seq<IndexRecord>,
    matches: spec_fn(IndexRecord) -> bool,
    first: int,
    count: int,
)
    requires
        0 <= count <= first + 1,
    ensures
        first_conflict(records, matches, first, count) is None,
    decreases count,
{
    if count > 0 {
        lemma_no_conflict_before_first(records, matches, first, count - 1);
    }
}

/// Finds the record `matches` selects, as `select_record` describes. Returns the index of the
/// record, or of the conflicting record.
fn select_record_index(
    records: &[IndexRecord],
    matches: Ghost<spec_fn(IndexRecord) -> bool>,
    key: ResourceKey,
    by_key: bool,
) -> (selected: Result<usize, Option<(usize, usize)>>)
    requires
        by_key ==> matches@ == (|r: IndexRecord| record_has_key(r, key)),
        !by_key ==> matches@ == (|r: IndexRecord| r.block_index == key.block_index),
    ensures
        match select_record(records@, matches@) {
            Ok(record) => selected matches Ok(i) && i < records@.len() && records@[i as int] == record,
            Err(None) => selected == Err::<usize, Option<(usize, usize)>>(None),
            Err(Some(conflict)) => selected == Err::<usize, Option<(usize, usize)>>(
                Some(
                    (
                        first_matching(records@, matches@, records@.len() as int).unwrap() as usize,
                        conflict as usize,
                    ),
                ),
            ),
        },
{
    let ghost m = matches@;
    let mut first: Option<usize> = None;
    let mut index: usize = 0;
    while index < records.len()
        invariant
            index <= records@.len(),
            m == matches@,
            by_key ==> m == (|r: IndexRecord| record_has_key(r, key)),
            !by_key ==> m == (|r: IndexRecord| r.block_index == key.block_index),
            match first_matching(records@, m, index as int) {
                None => first is None,
                Some(i) => first == Some(i as usize) && i < index && first_conflict(
                    records@,
                    m,
                    i,
                    index as int,
                ) is None,
            },
        decreases records@.len() - index,
    {
        proof {
            lemma_first_matching_bounds(records@, m, index as int);
        }
        let record = records[index];
        let accepted = if by_key {
            record.group_code == key.group_code && record.icon_id == key.icon_id && record.block_index
                == key.block_index
        } else {
            record.block_index == key.block_index
        };
        assert(accepted == m(records@[index as int]));
        match first {
            None => {
                if accepted {
                    first = Some(index);
                    proof {
                        lemma_no_conflict_before_first(records@, m, index as int, index + 1);
                    }
                }
            },
            Some(i) => {
                if accepted && (record.width != records[i].width || record.height != records[i].height) {
                    proof {
                        lemma_first_matching_stays(records@, m, index as int, records@.len() as int);
                        assert(first_conflict(records@, m, i as int, index + 1) == Some(index as int));
                        lemma_first_conflict_stays(records@, m, i as int, index + 1, records@.len() as int);
                    }
                    return Err(Some((i, index)));
                }
            },
        }
        index += 1;
    }
    proof {
        lemma_first_matching_bounds(records@, m, index as int);
    }
    match first {
        None => Err(None),
        Some(i) => Ok(i),
    }
}

/// The records of an index, with their keys.
pub open spec fn record_keys(records: Seq<IndexRecord>) -> Seq<ResourceKey> {
    records.map_values(
        |r: IndexRecord|
            ResourceKey { group_code: r.group_code, icon_id: r.icon_id, block_index: r.block_index },
    )
}

/// The stored bytes of `kind` within `file`, if the range lies in the file.
pub open spec fn stored_bytes(kind: ArchiveBlockKind, file: Seq<u8>) -> Option<Seq<u8>> {
    let start = kind.spec_stored_offset() as int;
    let end = start + kind.spec_stored_size();
    if end <= file.len() {
        Some(file.subrange(start, end))
    } else {
        None
    }
}

/// What decoding `record` from a resolved layout and the data files yields.
pub open spec fn record_decode_outcome(
    blocks: Seq<crate::archive::ArchiveBlock>,
    files: Seq<Seq<u8>>,
    record: IndexRecord,
    max_output_size: usize,
    result: Result<ImageView, ExtractError>,
) -> bool {
    let block_index = record.block_index;
    if !((block_index as int) < blocks.len() && blocks[block_index as int].block_index == Some(
        block_index,
    )) {
        result == Err::<ImageView, ExtractError>(ExtractError::BlockUnavailable { block_index })
    } else {
        let kind = blocks[block_index as int].kind;
        let location = kind.spec_location();
        if !(1 <= location.file_number <= files.len()) {
            result == Err::<ImageView, ExtractError>(
                ExtractError::DataFileUnavailable { file_number: location.file_number },
            )
        } else {
            let file = files[location.file_number - 1];
            match stored_bytes(kind, file) {
                None => result == Err::<ImageView, ExtractError>(
                    ExtractError::StoredRangeUnavailable {
                        file_number: location.file_number,
                        offset: kind.spec_stored_offset(),
                        len: kind.spec_stored_size(),
                        file_size: file.len() as usize,
                    },
                ),
                Some(stored) => exists|decoded: Result<Vec<u8>, ArchiveBlockDecodeError>|
                    {
                        &&& #[trigger] decode_stored_outcome(kind, stored, max_output_size, decoded)
                        &&& match decoded {
                            Err(error) => result == Err::<ImageView, ExtractError>(
                                ExtractError::BlockDecode(error),
                            ),
                            Ok(bytes) => match bgra_image(record.width, record.height, bytes@) {
                                Ok(view) => result == Ok::<ImageView, ExtractError>(view),
                                Err(error) => result == Err::<ImageView, ExtractError>(
                                    ExtractError::PixelDecode(error),
                                ),
                            },
                        }
                    },
            }
        }
    }
}

impl LoadedArchive {
    pub closed spec fn spec_prefix(&self) -> Seq<char> {
        self.prefix@
    }

    pub closed spec fn spec_index(&self) -> IndexedArchive {
        self.index
    }

    pub closed spec fn spec_records(&self) -> Seq<IndexRecord> {
        self.index.records@
    }

    pub closed spec fn spec_blocks(&self) -> Seq<crate::archive::ArchiveBlock> {
        self.layout.blocks@
    }

    pub closed spec fn spec_files(&self) -> Seq<Seq<u8>> {
        file_contents(self.files@)
    }

    pub fn prefix(&self) -> (prefix: &ArchivePrefix)
        ensures
            prefix@ == self.spec_prefix(),
    {
        &self.prefix
    }

    pub fn records(&self) -> (records: &[IndexRecord])
        ensures
            records@ == self.spec_records(),
    {
        self.index.records.as_slice()
    }

    /// The key of every record, in index order.
    pub fn resource_keys(&self) -> (keys: Vec<ResourceKey>)
        ensures
            keys@ == record_keys(self.spec_records()),
    {
        let records = &self.index.records;
        let mut keys: Vec<ResourceKey> = Vec::new();
        let mut index: usize = 0;
        while index < records.len()
            invariant
                index <= records@.len(),
                records@ == self.spec_records(),
                keys@ == record_keys(records@.subrange(0, index as int)),
            decreases records@.len() - index,
        {
            let record = records[index];
            keys.push(
                ResourceKey {
                    group_code: record.group_code,
                    icon_id: record.icon_id,
                    block_index: record.block_index,
                },
            );
            index += 1;
            assert(keys@ =~= record_keys(records@.subrange(0, index as int)));
        }
        assert(records@.subrange(0, index as int) =~= records@);
        keys
    }

    fn record_for_key(&self, key: ResourceKey) -> (record: Result<IndexRecord, ExtractError>)
        ensures
            match key_record_outcome(self.spec_records(), key) {
                Ok(found) => record matches Ok(r) && r == found,
                Err(error) => record matches Err(e) && e == error,
            },
    {
        let records = self.index.records.as_slice();
        proof {
            let m = |r: IndexRecord| record_has_key(r, key);
            lemma_first_matching_bounds(records@, m, records@.len() as int);
            if let Some(first) = first_matching(records@, m, records@.len() as int) {
                lemma_first_conflict_bounds(records@, m, first, records@.len() as int);
            }
        }
        match select_record_index(records, Ghost(|r: IndexRecord| record_has_key(r, key)), key, true) {
            Ok(i) => Ok(records[i]),
            Err(None) => Err(ExtractError::ResourceNotFound { key }),
            Err(Some((first, conflict))) => {
                Err(
                    ExtractError::ConflictingRecordDimensions {
                        key,
                        first: (records[first].width, records[first].height),
                        conflicting: (records[conflict].width, records[conflict].height),
                    },
                )
            },
        }
    }
}


/// The outcome of finding the record with identity `key`.
pub open spec fn key_record_outcome(records: Seq<IndexRecord>, key: ResourceKey) -> Result<IndexRecord, ExtractError> {
    let matches = |r: IndexRecord| record_has_key(r, key);
    match select_record(records, matches) {
        Ok(found) => Ok(found),
        Err(None) => Err(ExtractError::ResourceNotFound { key }),
        Err(Some(i)) => {
            let first = first_matching(records, matches, records.len() as int).unwrap();
            Err(
                ExtractError::ConflictingRecordDimensions {
                    key,
                    first: (records[first].width, records[first].height),
                    conflicting: (records[i].width, records[i].height),
                },
            )
        },
    }
}

/// The outcome of finding the record of a physical block, with the errors of an assembly tile.
pub open spec fn block_record_outcome(records: Seq<IndexRecord>, block_index: u32) -> Result<IndexRecord, ExtractError> {
    let matches = |r: IndexRecord| r.block_index == block_index;
    match select_record(records, matches) {
        Ok(found) => Ok(found),
        Err(None) => Err(ExtractError::AssemblyTileRecordNotFound { block_index }),
        Err(Some(i)) => {
            let first = first_matching(records, matches, records.len() as int).unwrap();
            Err(
                ExtractError::ConflictingBlockDimensions {
                    block_index,
                    first: (records[first].width, records[first].height),
                    conflicting: (records[i].width, records[i].height),
                },
            )
        },
    }
}

/// One assembly tile: the record of block `block_index`, decoded.
pub open spec fn assembly_tile_outcome(
    records: Seq<IndexRecord>,
    blocks: Seq<crate::archive::ArchiveBlock>,
    files: Seq<Seq<u8>>,
    block_index: u32,
    max_tile_output_size: usize,
    result: Result<ImageView, ExtractError>,
) -> bool {
    match block_record_outcome(records, block_index) {
        Err(error) => result == Err::<ImageView, ExtractError>(error),
        Ok(record) => record_decode_outcome(blocks, files, record, max_tile_output_size, result),
    }
}

/// The outcome of joining the image that `plan` describes, accepting only rules in review state
/// `expected_status`.
pub open spec fn plan_assembly_outcome(
    prefix: Seq<char>,
    records: Seq<IndexRecord>,
    blocks: Seq<crate::archive::ArchiveBlock>,
    files: Seq<Seq<u8>>,
    plan: AssemblyPlan,
    expected_status: VerificationStatus,
    max_tile_output_size: usize,
    max_assembled_output_size: usize,
    result: Result<ImageView, ExtractError>,
) -> bool {
    if !same_ascii_name(plan.rule.archive@, prefix) {
        result matches Err(ExtractError::AssemblyArchiveMismatch { expected, actual })
            && expected == plan.rule.archive && actual@ == prefix
    } else if plan.rule.status != expected_status {
        result == Err::<ImageView, ExtractError>(
            ExtractError::AssemblyRuleNotVerified {
                first_block: plan.first_block,
                last_block: plan.last_block,
            },
        )
    } else {
        tiles_then_assemble(
            if plan.first_block <= plan.last_block {
                plan.last_block - plan.first_block + 1
            } else {
                0
            },
            |j: int, tile: Result<ImageView, ExtractError>|
                assembly_tile_outcome(
                    records,
                    blocks,
                    files,
                    (plan.first_block + j) as u32,
                    max_tile_output_size,
                    tile,
                ),
            |tiles: Seq<RgbaImage>|
                assembly_view_result(
                    spec_assemble_grid(
                        tiles,
                        plan.rule.columns,
                        plan.rule.rows,
                        plan.rule.output_width,
                        plan.rule.output_height,
                        max_assembled_output_size,
                    ),
                ),
            result,
        )
    }
}

impl LoadedArchive {
    fn record_for_block(&self, block_index: u32) -> (record: Result<IndexRecord, ExtractError>)
        ensures
            match block_record_outcome(self.spec_records(), block_index) {
                Ok(found) => record matches Ok(r) && r == found,
                Err(error) => record matches Err(e) && e == error,
            },
    {
        let records = self.index.records.as_slice();
        let key = ResourceKey { group_code: 0, icon_id: 0, block_index };
        proof {
            let m = |r: IndexRecord| r.block_index == block_index;
            lemma_first_matching_bounds(records@, m, records@.len() as int);
            if let Some(first) = first_matching(records@, m, records@.len() as int) {
                lemma_first_conflict_bounds(records@, m, first, records@.len() as int);
            }
        }
        match select_record_index(
            records,
            Ghost(|r: IndexRecord| r.block_index == block_index),
            key,
            false,
        ) {
            Ok(i) => Ok(records[i]),
            Err(None) => Err(ExtractError::AssemblyTileRecordNotFound { block_index }),
            Err(Some((first, conflict))) => Err(
                ExtractError::ConflictingBlockDimensions {
                    block_index,
                    first: (records[first].width, records[first].height),
                    conflicting: (records[conflict].width, records[conflict].height),
                },
            ),
        }
    }

    fn decode_record(&self, record: IndexRecord, max_output_size: usize) -> (image: Result<
        RgbaImage,
        ExtractError,
    >)
        ensures
            record_decode_outcome(
                self.spec_blocks(),
                self.spec_files(),
                record,
                max_output_size,
                image_view_result(image),
            ),
    {
        let block_index = record.block_index;
        let blocks = &self.layout.blocks;
        let position = block_index as usize;
        if !(position < blocks.len() && blocks[position].block_index == Some(block_index)) {
            return Err(ExtractError::BlockUnavailable { block_index });
        }
        let kind = blocks[position].kind;
        let location = kind.location();
        let file_number = location.file_number;
        if !(1 <= file_number && file_number as usize <= self.files.len()) {
            return Err(ExtractError::DataFileUnavailable { file_number });
        }
        let file = self.files[(file_number - 1) as usize].as_slice();
        proof {
            assert(self.spec_files()[file_number - 1] == file@);
        }
        let offset = kind.stored_offset();
        let len = kind.stored_size();
        if len > file.len() || offset > file.len() - len {
            return Err(
                ExtractError::StoredRangeUnavailable {
                    file_number,
                    offset,
                    len,
                    file_size: file.len(),
                },
            );
        }
        let stored = crate::block::stored_range(file, offset, len);
        let decoded = kind.decode_stored(stored.as_slice(), max_output_size);
        let ghost outcome = decoded;
        let image = match decoded {
            Err(error) => Err(ExtractError::BlockDecode(error)),
            Ok(bytes) => match RgbaImage::from_bgra(record.width, record.height, bytes.as_slice()) {
                Ok(image) => Ok(image),
                Err(error) => Err(ExtractError::PixelDecode(error)),
            },
        };
        proof {
            assert(decode_stored_outcome(kind, stored@, max_output_size, outcome));
            assert(stored_bytes(kind, self.spec_files()[file_number - 1]) == Some(stored@));
            let spec_stored = stored_bytes(kind, self.spec_files()[file_number - 1]).unwrap();
            assert(spec_stored == stored@);
            assert(decode_stored_outcome(kind, spec_stored, max_output_size, outcome));
            match outcome {
                Err(error) => {
                    assert(image_view_result(image) == Err::<ImageView, ExtractError>(
                        ExtractError::BlockDecode(error),
                    ));
                },
                Ok(bytes) => {},
            }
            assert(record_decode_outcome(
                self.spec_blocks(),
                self.spec_files(),
                record,
                max_output_size,
                image_view_result(image),
            ));
        }
        image
    }

    #[verifier::loop_isolation(false)]
    fn decode_assembly(
        &self,
        plan: AssemblyPlan,
        expected_status: VerificationStatus,
        max_tile_output_size: usize,
        max_assembled_output_size: usize,
    ) -> (image: Result<RgbaImage, ExtractError>)
        ensures
            plan_assembly_outcome(
                self.spec_prefix(),
                self.spec_records(),
                self.spec_blocks(),
                self.spec_files(),
                plan,
                expected_status,
                max_tile_output_size,
                max_assembled_output_size,
                image_view_result(image),
            ),
    {
        if !eq_ignore_ascii_case(plan.rule.archive, self.prefix.as_str()) {
            return Err(
                ExtractError::AssemblyArchiveMismatch {
                    expected: plan.rule.archive,
                    actual: self.prefix.as_str().to_owned(),
                },
            );
        }
        if plan.rule.status != expected_status {
            return Err(
                ExtractError::AssemblyRuleNotVerified {
                    first_block: plan.first_block,
                    last_block: plan.last_block,
                },
            );
        }
        let count: u64 = if plan.first_block <= plan.last_block {
            (plan.last_block - plan.first_block) as u64 + 1
        } else {
            0
        };
        let ghost tile_outcome = |j: int, tile: Result<ImageView, ExtractError>|
            assembly_tile_outcome(
                self.spec_records(),
                self.spec_blocks(),
                self.spec_files(),
                (plan.first_block + j) as u32,
                max_tile_output_size,
                tile,
            );
        let ghost assemble = |tiles: Seq<RgbaImage>|
            assembly_view_result(
                spec_assemble_grid(
                    tiles,
                    plan.rule.columns,
                    plan.rule.rows,
                    plan.rule.output_width,
                    plan.rule.output_height,
                    max_assembled_output_size,
                ),
            );
        let mut tiles: Vec<RgbaImage> = Vec::new();
        let mut offset: u64 = 0;
        while offset < count
            invariant
                offset <= count,
                tiles@.len() == offset,
                forall|j: int| 0 <= j < offset ==> #[trigger] tile_outcome(j, Ok(tiles@[j]@)),
            decreases count - offset,
        {
            let block_index = plan.first_block + offset as u32;
            let tile = match self.record_for_block(block_index) {
                Ok(record) => self.decode_record(record, max_tile_output_size),
                Err(error) => Err(error),
            };
            match tile {
                Ok(image) => {
                    tiles.push(image);
                },
                Err(error) => {
                    proof {
                        assert(tile_outcome(offset as int, Err(error)));
                        assert(tiles_then_assemble(count as int, tile_outcome, assemble, Err(error)));
                    }
                    return Err(error);
                },
            }
            offset += 1;
        }
        let assembled = RgbaImage::assemble_grid(
            tiles.as_slice(),
            plan.rule.columns,
            plan.rule.rows,
            plan.rule.output_width,
            plan.rule.output_height,
            max_assembled_output_size,
        );
        match assembled {
            Ok(image) => Ok(image),
            Err(error) => Err(ExtractError::ImageAssembly(error)),
        }
    }
}

/// Whether `scanned` is the scan of each file: file `k` is numbered `k + 1`.
pub open spec fn scans_of(scanned: Seq<ScannedDataFile>, files: Seq<Seq<u8>>) -> bool {
    &&& scanned.len() == files.len()
    &&& forall|k: int|
        0 <= k < files.len() ==> (#[trigger] scanned[k]).file_number == k + 1 && spec_scan(
            (k + 1) as u32,
            files[k],
            0,
        ) == Ok::<Seq<DataSegment>, BlockScanError>(scanned[k].segments@)
}

/// The first of the first `count` files, numbered from 1, that does not scan.
pub open spec fn first_scan_failure(files: Seq<Seq<u8>>, count: int) -> Option<int>
    decreases count,
{
    if count <= 0 {
        None
    } else {
        match first_scan_failure(files, count - 1) {
            Some(k) => Some(k),
            None => if spec_scan(count as u32, files[count - 1], 0) is Err {
                Some(count - 1)
            } else {
                None
            },
        }
    }
}

proof fn lemma_first_scan_failure_stays(files: Seq<Seq<u8>>, count: int, later: int)
    requires
        0 <= count <= later,
        first_scan_failure(files, count) is Some,
    ensures
        first_scan_failure(files, later) == first_scan_failure(files, count),
    decreases later - count,
{
    if later > count {
        lemma_first_scan_failure_stays(files, count, later - 1);
    }
}

impl LoadedArchive {
    /// Opens an archive from its index file and its numbered data files: `data_files[k]` holds
    /// the contents of data file `k + 1`. The layout must resolve every block without any
    /// diagnostic.
    #[verifier::loop_isolation(false)]
    pub fn open(prefix: &str, index_bytes: &[u8], data_files: Vec<Vec<u8>>) -> (archive: Result<
        Self,
        ExtractError,
    >)
        requires
            data_files@.len() < u32::MAX,
        ensures
            !is_valid_prefix(prefix) ==> (archive matches Err(ExtractError::InvalidPrefix(e))
                && e.provided@ == prefix@),
            is_valid_prefix(prefix) && index_parse_error(index_bytes@) is Some ==> (archive matches Err(
                ExtractError::IndexParse(e),
            ) && Some(e) == index_parse_error(index_bytes@)),
            is_valid_prefix(prefix) && index_parse_error(index_bytes@) is None ==> match first_scan_failure(
                file_contents(data_files@),
                data_files@.len() as int,
            ) {
                Some(k) => archive matches Err(ExtractError::BlockScan { file_number, source })
                    && file_number == k + 1 && spec_scan(
                    (k + 1) as u32,
                    file_contents(data_files@)[k],
                    0,
                ) == Err::<Seq<DataSegment>, BlockScanError>(source),
                None => exists|index: IndexedArchive, scanned: Seq<ScannedDataFile>|
                    {
                        &&& #[trigger] parse_succeeds_with(index_bytes@, index)
                        &&& #[trigger] scans_of(scanned, file_contents(data_files@))
                        &&& {
                            let (blocks, gaps, diagnostics, resolved) = spec_layout(index, scanned);
                            if !resolved || diagnostics.len() > 0 {
                                archive matches Err(ExtractError::InvalidLayout { diagnostics: d })
                                    && d@ == diagnostics
                            } else {
                                archive matches Ok(a) && a.spec_prefix() == ascii_lower(prefix@)
                                    && a.spec_index() == index && a.spec_blocks() == blocks
                                    && a.spec_files() == file_contents(data_files@)
                            }
                        }
                    },
            },
    {
        let parsed_prefix = match ArchivePrefix::parse(prefix) {
            Ok(parsed) => parsed,
            Err(error) => return Err(ExtractError::InvalidPrefix(error)),
        };
        let index = match IndexedArchive::parse(index_bytes) {
            Ok(index) => index,
            Err(error) => return Err(ExtractError::IndexParse(error)),
        };
        let ghost contents = file_contents(data_files@);
        let mut scanned_files: Vec<ScannedDataFile> = Vec::new();
        let mut k: usize = 0;
        while k < data_files.len()
            invariant
                k <= data_files@.len() < u32::MAX,
                contents == file_contents(data_files@),
                first_scan_failure(contents, k as int) is None,
                scans_of(scanned_files@, contents.subrange(0, k as int)),
            decreases data_files@.len() - k,
        {
            let file_number = (k + 1) as u32;
            match scan_data_file(file_number, data_files[k].as_slice()) {
                Ok(scanned) => {
                    proof {
                        assert(contents[k as int] == data_files@[k as int]@);
                    }
                    scanned_files.push(scanned);
                    proof {
                        assert forall|j: int| 0 <= j < k + 1 implies (#[trigger] scanned_files@[j]).file_number
                            == j + 1 && spec_scan((j + 1) as u32, contents.subrange(0, k + 1)[j], 0)
                            == Ok::<Seq<DataSegment>, BlockScanError>(scanned_files@[j].segments@) by {
                            if j < k {
                                assert(contents.subrange(0, k as int)[j] == contents.subrange(0, k + 1)[j]);
                            }
                        }
                    }
                },
                Err(source) => {
                    proof {
                        assert(contents[k as int] == data_files@[k as int]@);
                        lemma_first_scan_failure_stays(contents, k + 1, data_files@.len() as int);
                    }
                    return Err(ExtractError::BlockScan { file_number, source });
                },
            }
            k += 1;
        }
        assert(contents.subrange(0, k as int) =~= contents);
        let layout = build_archive_layout(&index, scanned_files.as_slice());
        if !layout.has_resolved_block_order() || layout.diagnostics.len() > 0 {
            return Err(ExtractError::InvalidLayout { diagnostics: layout.diagnostics });
        }
        Ok(LoadedArchive { prefix: parsed_prefix, index, layout, files: data_files })
    }

    /// What `extract_png` returns: the postcondition it is proved against.
    pub open spec fn extract_png_result(
        &self,
        key: ResourceKey,
        max_output_size: usize,
        extracted: Result<ExtractedResource, ExtractError>,
    ) -> bool {
        match key_record_outcome(self.spec_records(), key) {
            Err(error) => extracted matches Err(e) && e == error,
            Ok(record) => exists|image: Result<ImageView, ExtractError>|
                #[trigger] record_decode_outcome(
                    self.spec_blocks(),
                    self.spec_files(),
                    record,
                    max_output_size,
                    image,
                ) && png_extraction(
                    image,
                    extracted,
                    |r: ExtractedResource, view: ImageView, png: Seq<u8>|
                        r.key == key && r.width == record.width && r.height == record.height
                            && r.png@ == png,
                ),
        }
    }

    /// Decodes and PNG-encodes exactly one physical record variant.
    pub fn extract_png(&self, key: ResourceKey, max_output_size: usize) -> (extracted: Result<
        ExtractedResource,
        ExtractError,
    >)
        ensures
            self.extract_png_result(key, max_output_size, extracted),
    {
        let record = self.record_for_key(key)?;
        let image = self.decode_record(record, max_output_size);
        let ghost outcome = image_view_result(image);
        let image = image?;
        let png = encode(&image)?;
        Ok(ExtractedResource { key, width: record.width, height: record.height, png })
    }

    /// What `extract_thumbnail_png` returns: the postcondition it is proved against.
    pub open spec fn extract_thumbnail_png_result(
        &self,
        key: ResourceKey,
        max_decode_size: usize,
        max_width: u32,
        max_height: u32,
        max_thumbnail_output_size: usize,
        extracted: Result<ExtractedThumbnail, ExtractError>,
    ) -> bool {
        match key_record_outcome(self.spec_records(), key) {
            Err(error) => extracted matches Err(e) && e == error,
            Ok(record) => exists|image: Result<ImageView, ExtractError>|
                #[trigger] record_decode_outcome(
                    self.spec_blocks(),
                    self.spec_files(),
                    record,
                    max_decode_size,
                    image,
                ) && thumbnail_extraction(
                    image,
                    max_width,
                    max_height,
                    max_thumbnail_output_size,
                    extracted,
                    |r: ExtractedThumbnail, source: ImageView, thumbnail: ImageView, png: Seq<u8>|
                        r.key == key && r.source_width == record.width && r.source_height
                            == record.height && r.width == thumbnail.width && r.height
                            == thumbnail.height && r.png@ == png,
                ),
        }
    }

    /// Decodes one physical record and returns a bounded PNG thumbnail.
    pub fn extract_thumbnail_png(
        &self,
        key: ResourceKey,
        max_decode_size: usize,
        max_width: u32,
        max_height: u32,
        max_thumbnail_output_size: usize,
    ) -> (extracted: Result<ExtractedThumbnail, ExtractError>)
        ensures
            self.extract_thumbnail_png_result(key, max_decode_size, max_width, max_height, max_thumbnail_output_size, extracted),
    {
        let record = self.record_for_key(key)?;
        let image = self.decode_record(record, max_decode_size);
        let ghost outcome = image_view_result(image);
        let image = image?;
        let thumbnail = make_thumbnail(&image, max_width, max_height, max_thumbnail_output_size)?;
        let png = encode(&thumbnail)?;
        Ok(
            ExtractedThumbnail {
                key,
                source_width: record.width,
                source_height: record.height,
                width: thumbnail.width(),
                height: thumbnail.height(),
                png,
            },
        )
    }
}

impl LoadedArchive {
    /// Joins the blocks that `plan` names into one PNG, holding the plan's rule to
    /// human-verified status.
    pub fn extract_assembly(
        &self,
        plan: AssemblyPlan,
        max_tile_output_size: usize,
        max_assembled_output_size: usize,
    ) -> (extracted: Result<ExtractedAssembly, ExtractError>)
        ensures
            exists|image: Result<ImageView, ExtractError>|
                #[trigger] plan_assembly_outcome(
                    self.spec_prefix(),
                    self.spec_records(),
                    self.spec_blocks(),
                    self.spec_files(),
                    plan,
                    VerificationStatus::HumanVerified,
                    max_tile_output_size,
                    max_assembled_output_size,
                    image,
                ) && png_extraction(
                    image,
                    extracted,
                    |r: ExtractedAssembly, view: ImageView, png: Seq<u8>|
                        r.first_block == plan.first_block && r.last_block == plan.last_block
                            && r.width == view.width && r.height == view.height && r.png@ == png,
                ),
    {
        self.extract_assembly_with_status(
            plan,
            VerificationStatus::HumanVerified,
            max_tile_output_size,
            max_assembled_output_size,
        )
    }

    fn extract_assembly_with_status(
        &self,
        plan: AssemblyPlan,
        expected_status: VerificationStatus,
        max_tile_output_size: usize,
        max_assembled_output_size: usize,
    ) -> (extracted: Result<ExtractedAssembly, ExtractError>)
        ensures
            exists|image: Result<ImageView, ExtractError>|
                #[trigger] plan_assembly_outcome(
                    self.spec_prefix(),
                    self.spec_records(),
                    self.spec_blocks(),
                    self.spec_files(),
                    plan,
                    expected_status,
                    max_tile_output_size,
                    max_assembled_output_size,
                    image,
                ) && png_extraction(
                    image,
                    extracted,
                    |r: ExtractedAssembly, view: ImageView, png: Seq<u8>|
                        r.first_block == plan.first_block && r.last_block == plan.last_block
                            && r.width == view.width && r.height == view.height && r.png@ == png,
                ),
    {
        let image = self.decode_assembly(
            plan,
            expected_status,
            max_tile_output_size,
            max_assembled_output_size,
        );
        let ghost outcome = image_view_result(image);
        let image = image?;
        let png = encode(&image)?;
        Ok(
            ExtractedAssembly {
                first_block: plan.first_block,
                last_block: plan.last_block,
                width: image.width(),
                height: image.height(),
                png,
            },
        )
    }

    /// Joins the blocks that `plan` names under a human-verified rule and returns a bounded
    /// PNG thumbnail of the result.
    pub fn extract_assembly_thumbnail(
        &self,
        plan: AssemblyPlan,
        max_tile_output_size: usize,
        max_assembled_output_size: usize,
        max_width: u32,
        max_height: u32,
        max_thumbnail_output_size: usize,
    ) -> (extracted: Result<ExtractedAssemblyThumbnail, ExtractError>)
        ensures
            exists|image: Result<ImageView, ExtractError>|
                #[trigger] plan_assembly_outcome(
                    self.spec_prefix(),
                    self.spec_records(),
                    self.spec_blocks(),
                    self.spec_files(),
                    plan,
                    VerificationStatus::HumanVerified,
                    max_tile_output_size,
                    max_assembled_output_size,
                    image,
                ) && thumbnail_extraction(
                    image,
                    max_width,
                    max_height,
                    max_thumbnail_output_size,
                    extracted,
                    |r: ExtractedAssemblyThumbnail, source: ImageView, thumbnail: ImageView, png: Seq<u8>|
                        r.first_block == plan.first_block && r.last_block == plan.last_block
                            && r.source_width == source.width && r.source_height == source.height
                            && r.width == thumbnail.width && r.height == thumbnail.height && r.png@
                            == png,
                ),
    {
        let image = self.decode_assembly(
            plan,
            VerificationStatus::HumanVerified,
            max_tile_output_size,
            max_assembled_output_size,
        );
        let ghost outcome = image_view_result(image);
        let image = image?;
        let thumbnail = make_thumbnail(&image, max_width, max_height, max_thumbnail_output_size)?;
        let png = encode(&thumbnail)?;
        Ok(
            ExtractedAssemblyThumbnail {
                first_block: plan.first_block,
                last_block: plan.last_block,
                source_width: image.width(),
                source_height: image.height(),
                width: thumbnail.width(),
                height: thumbnail.height(),
                png,
            },
        )
    }

    /// What `extract_verified_assembly` returns: the postcondition it is proved against.
    pub open spec fn extract_verified_assembly_result(
        &self,
        block_index: u32,
        max_tile_output_size: usize,
        max_assembled_output_size: usize,
        extracted: Result<Option<ExtractedAssembly>, ExtractError>,
    ) -> bool {
        match first_plan(
            spec_assembly_rules(),
            self.spec_prefix(),
            block_index,
            VerificationStatus::HumanVerified,
        ) {
            None => extracted matches Ok(None),
            Some(plan) => exists|image: Result<ImageView, ExtractError>|
                #[trigger] plan_assembly_outcome(
                    self.spec_prefix(),
                    self.spec_records(),
                    self.spec_blocks(),
                    self.spec_files(),
                    plan,
                    VerificationStatus::HumanVerified,
                    max_tile_output_size,
                    max_assembled_output_size,
                    image,
                ) && png_extraction(
                    image,
                    extracted,
                    |r: Option<ExtractedAssembly>, view: ImageView, png: Seq<u8>|
                        r matches Some(a) && a.first_block == plan.first_block && a.last_block
                            == plan.last_block && a.width == view.width && a.height
                            == view.height && a.png@ == png,
                ),
        }
    }

    /// Joins the completed image containing a block only when its rule was human-verified;
    /// `None` when no verified rule covers the block.
    pub fn extract_verified_assembly(
        &self,
        block_index: u32,
        max_tile_output_size: usize,
        max_assembled_output_size: usize,
    ) -> (extracted: Result<Option<ExtractedAssembly>, ExtractError>)
        ensures
            self.extract_verified_assembly_result(block_index, max_tile_output_size, max_assembled_output_size, extracted),
    {
        let plan = match find_plan(self.prefix.as_str(), block_index) {
            Some(plan) => plan,
            None => return Ok(None),
        };
        match self.extract_assembly_with_status(
            plan,
            VerificationStatus::HumanVerified,
            max_tile_output_size,
            max_assembled_output_size,
        ) {
            Ok(extracted) => Ok(Some(extracted)),
            Err(error) => Err(error),
        }
    }

    /// Joins an unverified candidate for Curator review without exposing it to Viewer flows;
    /// `None` when no candidate rule covers the block.
    pub fn extract_candidate_assembly(
        &self,
        block_index: u32,
        max_tile_output_size: usize,
        max_assembled_output_size: usize,
    ) -> (extracted: Result<Option<ExtractedAssembly>, ExtractError>)
        ensures
            match first_plan(
                spec_assembly_rules(),
                self.spec_prefix(),
                block_index,
                VerificationStatus::Candidate,
            ) {
                None => extracted matches Ok(None),
                Some(plan) => exists|image: Result<ImageView, ExtractError>|
                    #[trigger] plan_assembly_outcome(
                        self.spec_prefix(),
                        self.spec_records(),
                        self.spec_blocks(),
                        self.spec_files(),
                        plan,
                        VerificationStatus::Candidate,
                        max_tile_output_size,
                        max_assembled_output_size,
                        image,
                    ) && png_extraction(
                        image,
                        extracted,
                        |r: Option<ExtractedAssembly>, view: ImageView, png: Seq<u8>|
                            r matches Some(a) && a.first_block == plan.first_block && a.last_block
                                == plan.last_block && a.width == view.width && a.height
                                == view.height && a.png@ == png,
                    ),
            },
    {
        let plan = match find_candidate_plan(self.prefix.as_str(), block_index) {
            Some(plan) => plan,
            None => return Ok(None),
        };
        match self.extract_assembly_with_status(
            plan,
            VerificationStatus::Candidate,
            max_tile_output_size,
            max_assembled_output_size,
        ) {
            Ok(extracted) => Ok(Some(extracted)),
            Err(error) => Err(error),
        }
    }

    /// What `extract_verified_assembly_thumbnail` returns: the postcondition it is proved against.
    pub open spec fn extract_verified_assembly_thumbnail_result(
        &self,
        block_index: u32,
        max_tile_output_size: usize,
        max_assembled_output_size: usize,
        max_width: u32,
        max_height: u32,
        max_thumbnail_output_size: usize,
        extracted: Result<Option<ExtractedAssemblyThumbnail>, ExtractError>,
    ) -> bool {
        match first_plan(
            spec_assembly_rules(),
            self.spec_prefix(),
            block_index,
            VerificationStatus::HumanVerified,
        ) {
            None => extracted matches Ok(None),
            Some(plan) => exists|image: Result<ImageView, ExtractError>|
                #[trigger] plan_assembly_outcome(
                    self.spec_prefix(),
                    self.spec_records(),
                    self.spec_blocks(),
                    self.spec_files(),
                    plan,
                    VerificationStatus::HumanVerified,
                    max_tile_output_size,
                    max_assembled_output_size,
                    image,
                ) && thumbnail_extraction(
                    image,
                    max_width,
                    max_height,
                    max_thumbnail_output_size,
                    extracted,
                    |r: Option<ExtractedAssemblyThumbnail>, source: ImageView, thumbnail: ImageView, png: Seq<u8>|
                        r matches Some(a) && a.first_block == plan.first_block && a.last_block
                            == plan.last_block && a.source_width == source.width
                            && a.source_height == source.height && a.width == thumbnail.width
                            && a.height == thumbnail.height && a.png@ == png,
                ),
        }
    }

    /// Joins a verified image and returns only a bounded PNG thumbnail; `None` when no
    /// verified rule covers the block.
    pub fn extract_verified_assembly_thumbnail(
        &self,
        block_index: u32,
        max_tile_output_size: usize,
        max_assembled_output_size: usize,
        max_width: u32,
        max_height: u32,
        max_thumbnail_output_size: usize,
    ) -> (extracted: Result<Option<ExtractedAssemblyThumbnail>, ExtractError>)
        ensures
            self.extract_verified_assembly_thumbnail_result(block_index, max_tile_output_size, max_assembled_output_size, max_width, max_height, max_thumbnail_output_size, extracted),
    {
        let plan = match find_plan(self.prefix.as_str(), block_index) {
            Some(plan) => plan,
            None => return Ok(None),
        };
        match self.extract_assembly_thumbnail(
            plan,
            max_tile_output_size,
            max_assembled_output_size,
            max_width,
            max_height,
            max_thumbnail_output_size,
        ) {
            Ok(extracted) => Ok(Some(extracted)),
            Err(error) => Err(error),
        }
    }
}
} // verus!
