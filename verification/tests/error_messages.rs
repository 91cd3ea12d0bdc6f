use dho_vault::archive::{ArchiveBlockDecodeError, ArchiveDiagnostic};
use dho_vault::block::{BlockDecodeError, BlockLocation, BlockScanError, UnresolvedGap};
use dho_vault::curator::CuratorSessionError;
use dho_vault::extract::{ArchivePrefixError, ExtractError, RawPixelFormat, RawResourceKey, ResourceKey};
use dho_vault::index::IndexParseError;
use dho_vault::inline::InlineBlockTableError;
use dho_vault::messages::{diagnostic_list, diagnostic_text, gap_text, number_list, pair_list};
use dho_vault::rgba::{ImageAssemblyError, PixelDecodeError, PngEncodeError, ThumbnailError};
use dho_vault::session::ViewerSessionError;

fn location(file_number: u32, offset: usize) -> BlockLocation {
    BlockLocation { file_number, offset }
}

#[test]
fn block_scan_messages_name_the_location() {
    let error = BlockScanError::HeaderTruncated { location: location(3, 40), remaining_bytes: 5 };
    assert_eq!(
        error.message(),
        "MWC block header is truncated at file 3 offset 40: need 12 bytes, found 5"
    );
    let error = BlockScanError::PayloadTruncated {
        location: location(1, 0),
        compressed_size: 90,
        available_bytes: 7,
    };
    assert_eq!(
        error.message(),
        "MWC payload is truncated at file 1 offset 0: declared 90 bytes, found 7"
    );
}

#[test]
fn block_decode_messages_carry_their_numbers() {
    let error = BlockDecodeError::PayloadOutOfBounds {
        location: location(2, 16),
        payload_offset: 28,
        compressed_size: 1000,
        file_size: 64,
    };
    assert_eq!(
        error.message(),
        "MWC payload is outside file 2: block offset 16, payload offset 28, compressed size 1000, file size 64"
    );
    let error = BlockDecodeError::InvalidZlib { location: location(1, 0), message: "corrupt deflate stream".to_owned() };
    assert_eq!(error.message(), "invalid zlib payload at file 1 offset 0: corrupt deflate stream");
    let wrapped = ArchiveBlockDecodeError::Zlib(error.clone());
    assert_eq!(wrapped.message(), error.message());
}

#[test]
fn format_error_messages_match_their_wording() {
    assert_eq!(
        IndexParseError::HeaderTooShort { actual_len: 3 }.message(),
        "index header is truncated: need at least 28 bytes, found 3"
    );
    assert_eq!(
        InlineBlockTableError::EntryOutOfBounds { index: 2, offset: 100, stored_size: 30, file_size: 120 }.message(),
        "inline block entry 2 is outside the file: offset=100, stored_size=30, file_size=120"
    );
    assert_eq!(
        ArchiveBlockDecodeError::StoredSizeMismatch { location: location(4, 8), expected_size: 10, actual_size: 11 }
            .message(),
        "stored block size mismatch at file 4 offset 8: expected 10, got 11"
    );
}

#[test]
fn image_error_messages_write_sizes_as_width_by_height() {
    assert_eq!(
        ThumbnailError::DimensionOverflow { width: 4000, height: 3, max_width: 96, max_height: 0 }.message(),
        "thumbnail dimensions overflow: source=4000x3, bounds=96x0"
    );
    assert_eq!(
        PixelDecodeError::ByteLengthMismatch { width: 2, height: 2, expected_len: 16, actual_len: 15 }.message(),
        "decoded image byte length mismatch for 2x2: expected 16, found 15"
    );
    assert_eq!(
        PngEncodeError { message: "no space".to_owned() }.message(),
        "failed to encode RGBA image as PNG: no space"
    );
    assert_eq!(
        ImageAssemblyError::LayerDimensionMismatch { base: (10, 20), layer: (11, 21) }.message(),
        "overlay dimensions are 11x21, expected 10x20"
    );
    assert_eq!(
        ImageAssemblyError::OutputTooLarge { required: 5000, maximum: 4096 }.message(),
        "assembled image requires 5000 bytes, exceeding the 4096-byte limit"
    );
}

#[test]
fn prefix_error_quotes_the_provided_text() {
    let error = ArchivePrefixError { provided: "a\"b".to_owned() };
    assert_eq!(
        error.message(),
        "archive prefix must contain exactly two ASCII letters: \"a\\\"b\""
    );
    assert_eq!(
        ExtractError::InvalidPrefix(ArchivePrefixError { provided: "abc".to_owned() }).message(),
        "archive prefix must contain exactly two ASCII letters: \"abc\""
    );
}

#[test]
fn extract_error_messages_include_nested_messages() {
    let error = ExtractError::BlockScan {
        file_number: 7,
        source: BlockScanError::PayloadEndOverflow { location: location(7, 12), compressed_size: 9 },
    };
    assert_eq!(
        error.message(),
        "failed to scan data file 7: MWC payload end overflows this platform at file 7 offset 12: compressed_size=9"
    );
    let error = ExtractError::RawImageSpecSizeMismatch {
        width: 48,
        height: 48,
        pixel_format: RawPixelFormat::Bgra8,
        declared_size: 100,
        expected_size: 9216,
    };
    assert_eq!(
        error.message(),
        "raw image specification disagrees with its pixel format: 48x48 Bgra8 declares 100 bytes, expected 9216"
    );
    let error = ExtractError::RawImageSizeUnsupported {
        file_number: 0,
        file_block_index: 3,
        actual_size: 17,
        supported_sizes: vec![9216, 262144],
    };
    assert_eq!(
        error.message(),
        "raw image block 3 in file 0 declares unsupported size 17; supported sizes are [9216, 262144]"
    );
    let error = ExtractError::InlineBlockEntryMismatch {
        file_number: 1,
        file_block_index: 2,
        table_offset: 10,
        table_stored_size: 20,
        block_offset: 11,
        block_stored_size: 21,
    };
    assert_eq!(
        error.message(),
        "inline block entry 2 in file 1 does not match its MWC block: table=(10, 20), block=(11, 21)"
    );
    let error = ExtractError::ConflictingRecordDimensions {
        key: ResourceKey { group_code: 1, icon_id: 2, block_index: 3 },
        first: (4, 5),
        conflicting: (6, 7),
    };
    assert_eq!(
        error.message(),
        "resource records disagree on dimensions for group=1, icon=2, block=3: 4x5 versus 6x7"
    );
    let error = ExtractError::RawResourceNotFound {
        key: RawResourceKey { block_index: 9, file_number: 10, file_block_index: 11 },
    };
    assert_eq!(
        error.message(),
        "raw image block was not found: archive block 9, file 10, file block 11"
    );
    assert_eq!(
        ExtractError::AssemblyRuleNotVerified { first_block: 12, last_block: 23 }.message(),
        "assembly rule for blocks 12..=23 is not human-verified"
    );
    assert_eq!(ExtractError::RawImageSpecEmpty.message(), "raw image specification has no sizes");
}

#[test]
fn layout_diagnostics_are_written_as_their_debug_form() {
    let gap = UnresolvedGap { location: location(2, 64), len: 300 };
    let diagnostics = vec![
        ArchiveDiagnostic::GroupCountMismatch { expected: 3, actual: 2 },
        ArchiveDiagnostic::RawGapNotReferenced { gap, candidate_block_index: 5 },
        ArchiveDiagnostic::ImageSizeMismatch {
            record_position: 1,
            block_index: 4,
            expected_size: 400,
            actual_size: 399,
        },
    ];
    for diagnostic in &diagnostics {
        assert_eq!(diagnostic_text(diagnostic), format!("{diagnostic:?}"));
    }
    assert_eq!(gap_text(gap), format!("{gap:?}"));
    assert_eq!(diagnostic_list(&diagnostics), format!("{diagnostics:?}"));
    assert_eq!(
        ExtractError::InvalidLayout { diagnostics: diagnostics.clone() }.message(),
        format!("archive layout could not be validated: {diagnostics:?}")
    );
    assert_eq!(diagnostic_list(&Vec::new()), "[]");
}

#[test]
fn number_lists_are_written_as_their_debug_form() {
    let sizes: Vec<u32> = vec![1, 22, 333];
    assert_eq!(number_list(&sizes), format!("{sizes:?}"));
    let ranges: Vec<(usize, usize)> = vec![(0, 12), (40, 3)];
    assert_eq!(pair_list(&ranges), format!("{ranges:?}"));
    assert_eq!(number_list(&Vec::new()), "[]");
}

#[test]
fn viewer_session_messages_join_paths_with_arrows() {
    let error = ViewerSessionError::AssetNotFound {
        path: vec!["장비".to_owned(), "무기".to_owned()],
        prefix: "SD".to_owned(),
        block_index: 42,
    };
    assert_eq!(
        error.message(),
        "카테고리에 속한 확인된 이미지를 찾지 못했습니다: 장비 > 무기 / SD 42"
    );
    assert_eq!(
        ViewerSessionError::InvalidPageSize { requested: 0, maximum: 96 }.message(),
        "한 번에 불러올 이미지 수는 1개부터 96개까지입니다: 0"
    );
    let error = ViewerSessionError::Extract {
        prefix: "IS".to_owned(),
        block_index: 3,
        source: ExtractError::BlockUnavailable { block_index: 3 },
    };
    assert_eq!(error.message(), "IS 이미지 3를 만들지 못했습니다: resolved block 3 is unavailable");
    assert_eq!(
        ViewerSessionError::ResourceDirectoryNotSelected.message(),
        "먼저 게임 폴더를 선택해 주세요."
    );
}

#[test]
fn curator_session_messages_name_the_range() {
    assert_eq!(
        CuratorSessionError::IdRangeNotFound {
            prefix: "SB".to_owned(),
            group_code: 4,
            start_icon_id: 10,
            end_icon_id: 20,
        }
        .message(),
        "SB 원시 그룹 4에서 ID 10–20 구간을 찾지 못했습니다."
    );
    assert_eq!(
        CuratorSessionError::InvalidIdRange { start_icon_id: 9, end_icon_id: 1 }.message(),
        "ID 구간의 시작값이 끝값보다 큽니다: 9–1"
    );
}
