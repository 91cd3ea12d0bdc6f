use dho_vault::catalog::{AssemblyPlan, AssemblyRule, LayeredAssemblyRule, TileOrder, VerificationStatus};
use dho_vault::extract::{
    ExtractError, LoadedArchive, LoadedRawImageArchive, RawArchiveLayout, RawImageSpec,
    RawImageVariant, RawPixelFormat, RawResourceKey, ResourceKey,
};
use flate2::write::ZlibEncoder;
use flate2::Compression;
use std::io::Write;

const PNG_SIGNATURE: &[u8; 8] = b"\x89PNG\r\n\x1a\n";

fn push_u32(bytes: &mut Vec<u8>, value: u32) {
    bytes.extend_from_slice(&value.to_le_bytes());
}

fn index_bytes(records: &[[u32; 5]]) -> Vec<u8> {
    let mut index = Vec::new();
    let group_count = records
        .iter()
        .map(|record| record[4])
        .collect::<std::collections::HashSet<_>>()
        .len() as u32;
    let block_count = records
        .iter()
        .map(|record| record[1])
        .max()
        .map_or(0, |block_index| block_index + 1);
    for value in [records.len() as u32, group_count, 1, 1, block_count, 1, 0] {
        push_u32(&mut index, value);
    }
    for record in records {
        for value in record {
            push_u32(&mut index, *value);
        }
    }
    index
}

fn open_archive(prefix: &str, records: &[[u32; 5]], data: &[u8]) -> LoadedArchive {
    LoadedArchive::open(prefix, &index_bytes(records), vec![data.to_vec()])
        .expect("open test archive")
}

fn zlib_block(raw: &[u8]) -> Vec<u8> {
    let mut encoder = ZlibEncoder::new(Vec::new(), Compression::default());
    encoder.write_all(raw).expect("write zlib input");
    let compressed = encoder.finish().expect("finish zlib stream");
    let mut block = b"MWC\x1a".to_vec();
    push_u32(&mut block, raw.len() as u32);
    push_u32(&mut block, compressed.len() as u32);
    block.extend_from_slice(&compressed);
    block
}

fn inline_archive(raw_blocks: &[Vec<u8>]) -> Vec<u8> {
    let blocks = raw_blocks
        .iter()
        .map(|raw| zlib_block(raw))
        .collect::<Vec<_>>();
    let mut offset = 4 + blocks.len() * 8;
    let mut bytes = Vec::new();
    push_u32(&mut bytes, blocks.len() as u32);
    for block in &blocks {
        push_u32(&mut bytes, offset as u32);
        push_u32(&mut bytes, block.len() as u32);
        offset += block.len();
    }
    for block in blocks {
        bytes.extend_from_slice(&block);
    }
    bytes
}

fn key() -> ResourceKey {
    ResourceKey {
        group_code: 9,
        icon_id: 7,
        block_index: 0,
    }
}

const GRAY8_2X1_VARIANTS: &[RawImageVariant] = &[RawImageVariant {
    decoded_size: 2,
    width: 2,
    height: 1,
}];
const GRAY8_2X2_VARIANTS: &[RawImageVariant] = &[RawImageVariant {
    decoded_size: 4,
    width: 2,
    height: 2,
}];
const BGRA8_VARIANTS: &[RawImageVariant] = &[
    RawImageVariant {
        decoded_size: 8,
        width: 2,
        height: 1,
    },
    RawImageVariant {
        decoded_size: 16,
        width: 2,
        height: 2,
    },
];
const BGRA8_1X1_VARIANTS: &[RawImageVariant] = &[RawImageVariant {
    decoded_size: 4,
    width: 1,
    height: 1,
}];

fn gray8_spec(variants: &'static [RawImageVariant]) -> RawImageSpec {
    RawImageSpec {
        pixel_format: RawPixelFormat::Gray8,
        variants,
    }
}

#[test]
fn decodes_and_joins_physical_blocks_from_an_assembly_plan() {
    let records = [
        [100, 0, 2, 1, 9],
        [101, 1, 1, 1, 9],
        [102, 2, 2, 2, 9],
        [103, 3, 1, 2, 9],
    ];
    let raw_tiles = [
        vec![0, 0, 255, 255, 0, 0, 255, 255],
        vec![0, 255, 0, 255],
        [255, 0, 0, 255].repeat(4),
        [0, 255, 255, 255].repeat(2),
    ];
    let data = raw_tiles
        .iter()
        .flat_map(|raw| zlib_block(raw))
        .collect::<Vec<_>>();
    let archive = open_archive("sc", &records, &data);
    let rule = AssemblyRule {
        archive: "sc",
        start_block: 0,
        end_block: 3,
        tiles_per_image: 4,
        columns: 2,
        rows: 2,
        output_width: 3,
        output_height: 3,
        tile_order: TileOrder::RowMajor,
        status: VerificationStatus::HumanVerified,
    };
    let plan = AssemblyPlan {
        rule,
        image_index: 0,
        first_block: 0,
        last_block: 3,
        tile_index: 0,
        row: 0,
        column: 0,
    };

    let assembled = archive
        .extract_assembly(plan, 16, 36)
        .expect("extract assembled PNG");
    let decoded = image::load_from_memory_with_format(&assembled.png, image::ImageFormat::Png)
        .expect("decode assembled PNG")
        .into_rgba8();

    assert_eq!((assembled.first_block, assembled.last_block), (0, 3));
    assert_eq!((assembled.width, assembled.height), (3, 3));
    assert_eq!(
        decoded.as_raw(),
        &[
            255, 0, 0, 255, 255, 0, 0, 255, 0, 255, 0, 255, 0, 0, 255, 255, 0, 0, 255, 255,
            255, 255, 0, 255, 0, 0, 255, 255, 0, 0, 255, 255, 255, 255, 0, 255,
        ]
    );

    let thumbnail = archive
        .extract_assembly_thumbnail(plan, 16, 36, 2, 2, 16)
        .expect("extract assembled thumbnail");
    assert_eq!((thumbnail.source_width, thumbnail.source_height), (3, 3));
    assert_eq!((thumbnail.width, thumbnail.height), (2, 2));
    assert_eq!(&thumbnail.png[..8], PNG_SIGNATURE);
}

#[test]
fn an_unverified_plan_is_not_assembled() {
    let data = zlib_block(&[0, 0, 0, 255]);
    let archive = open_archive("sc", &[[100, 0, 1, 1, 9]], &data);
    let plan = AssemblyPlan {
        rule: AssemblyRule {
            archive: "sc",
            start_block: 0,
            end_block: 0,
            tiles_per_image: 1,
            columns: 1,
            rows: 1,
            output_width: 1,
            output_height: 1,
            tile_order: TileOrder::RowMajor,
            status: VerificationStatus::Candidate,
        },
        image_index: 0,
        first_block: 0,
        last_block: 0,
        tile_index: 0,
        row: 0,
        column: 0,
    };

    let error = archive.extract_assembly(plan, 4, 4).unwrap_err();

    assert!(matches!(
        error,
        ExtractError::AssemblyRuleNotVerified {
            first_block: 0,
            last_block: 0
        }
    ));
}

#[test]
fn opens_and_extracts_indexless_grayscale_blocks() {
    let mut data = zlib_block(&[0x11, 0x22]);
    data.extend_from_slice(&zlib_block(&[0x33, 0x44]));

    let archive = LoadedRawImageArchive::open("SH", 1, gray8_spec(GRAY8_2X1_VARIANTS), vec![data])
        .expect("open raw archive");
    let records = archive.records();

    assert_eq!(archive.prefix().as_str(), "sh");
    assert_eq!(archive.archive_count(), 1);
    assert_eq!(records.len(), 2);
    assert_eq!(
        records[1].key,
        RawResourceKey {
            block_index: 1,
            file_number: 1,
            file_block_index: 1,
        }
    );
    let extracted = archive
        .extract_png(records[0].key, 2)
        .expect("extract raw PNG");
    assert_eq!((extracted.width, extracted.height), (2, 1));
    assert_eq!(&extracted.png[..8], PNG_SIGNATURE);
    let decoded = image::load_from_memory_with_format(&extracted.png, image::ImageFormat::Png)
        .expect("decode raw PNG")
        .into_rgba8();
    assert_eq!(decoded.as_raw(), &[0x11, 0x11, 0x11, 0xff, 0x22, 0x22, 0x22, 0xff]);
}

#[test]
fn rejects_raw_blocks_that_do_not_match_the_reviewed_dimensions() {
    let error = LoadedRawImageArchive::open(
        "sh",
        1,
        gray8_spec(GRAY8_2X2_VARIANTS),
        vec![zlib_block(&[0; 3])],
    )
    .unwrap_err();

    assert!(matches!(
        error,
        ExtractError::RawImageSizeUnsupported {
            file_number: 1,
            file_block_index: 0,
            actual_size: 3,
            ref supported_sizes,
        } if supported_sizes == &[4]
    ));
}

#[test]
fn rejects_unresolved_bytes_in_a_raw_archive() {
    let mut data = vec![0xff];
    data.extend_from_slice(&zlib_block(&[0; 4]));

    let error = LoadedRawImageArchive::open("sh", 1, gray8_spec(GRAY8_2X2_VARIANTS), vec![data])
        .unwrap_err();

    assert!(matches!(
        error,
        ExtractError::RawUnresolvedGap {
            file_number: 1,
            offset: 0,
            len: 1,
        }
    ));
}

#[test]
fn opens_inline_table_bgra_blocks_with_size_based_dimensions() {
    let spec = RawImageSpec {
        pixel_format: RawPixelFormat::Bgra8,
        variants: BGRA8_VARIANTS,
    };

    let archive = LoadedRawImageArchive::open_files(
        "tm",
        &[0],
        RawArchiveLayout::InlineBlockTable,
        spec,
        vec![inline_archive(&[vec![1, 2, 3, 255, 4, 5, 6, 255], vec![7; 16]])],
    )
    .expect("open inline BGRA archive");
    let records = archive.records();

    assert_eq!(records.len(), 2);
    assert_eq!(records[0].key.file_number, 0);
    assert_eq!((records[0].width, records[0].height), (2, 1));
    assert_eq!((records[1].width, records[1].height), (2, 2));
    let extracted = archive
        .extract_png(records[0].key, 8)
        .expect("extract inline BGRA PNG");
    assert_eq!((extracted.width, extracted.height), (2, 1));
    assert_eq!(&extracted.png[..8], PNG_SIGNATURE);
}

#[test]
fn rejects_an_inline_entry_that_disagrees_with_its_mwc_block() {
    let mut data = inline_archive(&[vec![1, 2, 3, 255, 4, 5, 6, 255]]);
    let stored_size = u32::from_le_bytes(data[8..12].try_into().expect("stored size bytes"));
    data[8..12].copy_from_slice(&(stored_size - 1).to_le_bytes());
    let spec = RawImageSpec {
        pixel_format: RawPixelFormat::Bgra8,
        variants: BGRA8_VARIANTS,
    };

    let error = LoadedRawImageArchive::open_files(
        "tm",
        &[0],
        RawArchiveLayout::InlineBlockTable,
        spec,
        vec![data],
    )
    .unwrap_err();

    assert!(matches!(
        error,
        ExtractError::InlineBlockEntryMismatch {
            file_number: 0,
            file_block_index: 0,
            ..
        }
    ));
}

#[test]
fn alpha_composites_and_assembles_matching_raw_file_layers() {
    let archive = LoadedRawImageArchive::open_files(
        "kp",
        &[0, 10],
        RawArchiveLayout::InlineBlockTable,
        RawImageSpec {
            pixel_format: RawPixelFormat::Bgra8,
            variants: BGRA8_1X1_VARIANTS,
        },
        vec![
            inline_archive(&[vec![30, 20, 10, 255], vec![60, 50, 40, 255]]),
            inline_archive(&[vec![0, 0, 0, 0], vec![90, 80, 70, 255]]),
        ],
    )
    .expect("open layered archive");
    let rule = LayeredAssemblyRule {
        archive: "kp",
        base_file_number: 0,
        overlay_file_number: 10,
        first_file_block_index: 0,
        tile_count: 2,
        columns: 2,
        rows: 1,
        output_width: 2,
        output_height: 1,
        canonical_block: 0,
        last_block: 3,
        status: VerificationStatus::HumanVerified,
    };

    let extracted = archive
        .extract_verified_layered_assembly(rule, 4, 8)
        .expect("extract layered assembly");
    let decoded = image::load_from_memory_with_format(&extracted.png, image::ImageFormat::Png)
        .expect("decode layered PNG")
        .to_rgba8();

    assert_eq!((extracted.width, extracted.height), (2, 1));
    assert_eq!(decoded.get_pixel(0, 0).0, [10, 20, 30, 255]);
    assert_eq!(decoded.get_pixel(1, 0).0, [70, 80, 90, 255]);
}

#[test]
fn extracts_one_zlib_resource_as_png() {
    let archive = open_archive("SC", &[[7, 0, 1, 1, 9]], &zlib_block(&[1, 2, 3, 4]));

    let extracted = archive.extract_png(key(), 4).expect("extract PNG");

    assert_eq!(archive.prefix().as_str(), "sc");
    assert_eq!(archive.resource_keys(), [key()]);
    assert_eq!((extracted.width, extracted.height), (1, 1));
    assert_eq!(&extracted.png[..8], PNG_SIGNATURE);
    let decoded = image::load_from_memory_with_format(&extracted.png, image::ImageFormat::Png)
        .expect("decode PNG")
        .into_rgba8();
    assert_eq!(decoded.as_raw(), &[3, 2, 1, 4]);
}

#[test]
fn extracts_one_resource_as_a_bounded_thumbnail() {
    let archive = open_archive(
        "sc",
        &[[7, 0, 2, 1, 9]],
        &zlib_block(&[1, 2, 3, 255, 4, 5, 6, 255]),
    );

    let thumbnail = archive
        .extract_thumbnail_png(key(), 8, 1, 1, 4)
        .expect("extract thumbnail");

    assert_eq!((thumbnail.source_width, thumbnail.source_height), (2, 1));
    assert_eq!((thumbnail.width, thumbnail.height), (1, 1));
    assert_eq!(&thumbnail.png[..8], PNG_SIGNATURE);
}

#[test]
fn extracts_one_raw_resource_through_the_same_api() {
    let archive = open_archive("sc", &[[7, 0, 1, 1, 9]], &[1, 2, 3, 4]);

    let extracted = archive.extract_png(key(), 4).expect("extract raw PNG");

    assert_eq!(&extracted.png[..8], PNG_SIGNATURE);
}

#[test]
fn rejects_a_path_like_prefix() {
    let error = LoadedArchive::open("../", &index_bytes(&[]), Vec::new()).unwrap_err();

    assert!(matches!(error, ExtractError::InvalidPrefix(_)));
}

#[test]
fn reports_a_missing_physical_resource_key() {
    let archive = open_archive("sc", &[[7, 0, 1, 1, 9]], &[1, 2, 3, 4]);
    let missing = ResourceKey {
        icon_id: 8,
        ..key()
    };

    let error = archive.extract_png(missing, 4).unwrap_err();

    assert!(matches!(error, ExtractError::ResourceNotFound { key } if key == missing));
}

#[test]
fn rejects_conflicting_dimensions_for_the_same_physical_key() {
    let archive = open_archive(
        "sc",
        &[[7, 0, 1, 2, 9], [7, 0, 2, 1, 9]],
        &[1, 2, 3, 4, 5, 6, 7, 8],
    );

    let error = archive.extract_png(key(), 8).unwrap_err();

    assert!(matches!(
        error,
        ExtractError::ConflictingRecordDimensions { .. }
    ));
}

#[test]
fn returns_none_when_a_block_has_no_verified_assembly_rule() {
    let archive = open_archive("sc", &[[7, 0, 1, 1, 9]], &[1, 2, 3, 4]);

    let assembled = archive
        .extract_verified_assembly(0, 4, 4)
        .expect("look up verified assembly");

    assert_eq!(assembled, None);
}
