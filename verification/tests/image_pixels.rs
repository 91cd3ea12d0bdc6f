use dho_vault::rgba::{ImageAssemblyError, PixelDecodeError, RgbaImage, ThumbnailError};

fn solid_tile(width: u32, height: u32, rgba: [u8; 4]) -> RgbaImage {
    let mut bgra = Vec::new();
    for _ in 0..width * height {
        bgra.extend_from_slice(&[rgba[2], rgba[1], rgba[0], rgba[3]]);
    }
    RgbaImage::from_bgra(width, height, &bgra).expect("solid tile")
}

#[test]
fn converts_bgra_to_rgba_and_preserves_alpha() {
    let image = RgbaImage::from_bgra(2, 1, &[0x11, 0x22, 0x33, 0x44, 0x55, 0x66, 0x77, 0x88])
        .expect("valid BGRA pixels");

    assert_eq!(
        image.pixels(),
        &[0x33, 0x22, 0x11, 0x44, 0x77, 0x66, 0x55, 0x88]
    );
}

#[test]
fn expands_grayscale_pixels_to_opaque_rgba() {
    let image = RgbaImage::from_gray8(2, 1, &[0x11, 0xcc]).expect("valid grayscale pixels");

    assert_eq!(
        image.pixels(),
        &[0x11, 0x11, 0x11, 0xff, 0xcc, 0xcc, 0xcc, 0xff]
    );
}

#[test]
fn alpha_composites_an_equally_sized_layer() {
    let mut base =
        RgbaImage::from_bgra(2, 1, &[30, 20, 10, 255, 0, 0, 0, 0]).expect("base pixels");
    let layer =
        RgbaImage::from_bgra(2, 1, &[110, 100, 90, 128, 7, 6, 5, 255]).expect("layer pixels");

    base.overlay(&layer).expect("overlay images");

    assert_eq!(base.pixels(), &[50, 60, 70, 255, 5, 6, 7, 255]);
}

#[test]
fn rejects_an_overlay_with_different_dimensions() {
    let mut base = RgbaImage::from_bgra(1, 1, &[0; 4]).expect("base pixels");
    let layer = RgbaImage::from_bgra(2, 1, &[0; 8]).expect("layer pixels");

    assert_eq!(
        base.overlay(&layer),
        Err(ImageAssemblyError::LayerDimensionMismatch {
            base: (1, 1),
            layer: (2, 1),
        })
    );
}

#[test]
fn rejects_an_incorrect_grayscale_byte_length() {
    let error = RgbaImage::from_gray8(2, 2, &[0; 3]).unwrap_err();

    assert_eq!(
        error,
        PixelDecodeError::ByteLengthMismatch {
            width: 2,
            height: 2,
            expected_len: 4,
            actual_len: 3,
        }
    );
}

#[test]
fn rejects_an_incorrect_byte_length() {
    let error = RgbaImage::from_bgra(2, 2, &[0; 15]).unwrap_err();

    assert_eq!(
        error,
        PixelDecodeError::ByteLengthMismatch {
            width: 2,
            height: 2,
            expected_len: 16,
            actual_len: 15,
        }
    );
}

#[test]
fn rejects_dimensions_whose_byte_count_overflows() {
    let error = RgbaImage::from_bgra(u32::MAX, u32::MAX, &[]).unwrap_err();

    assert_eq!(
        error,
        PixelDecodeError::DimensionOverflow {
            width: u32::MAX,
            height: u32::MAX,
        }
    );
}

#[test]
fn encodes_a_png_with_the_same_rgba_pixels() {
    let image =
        RgbaImage::from_bgra(1, 1, &[0x10, 0x20, 0x30, 0x40]).expect("valid BGRA pixel");

    let png = image.encode_png().expect("encode PNG");
    let decoded = image::load_from_memory_with_format(&png, image::ImageFormat::Png)
        .expect("decode generated PNG")
        .into_rgba8();

    assert_eq!(decoded.dimensions(), (1, 1));
    assert_eq!(decoded.as_raw(), &[0x30, 0x20, 0x10, 0x40]);
}

#[test]
fn shrinks_a_thumbnail_without_changing_its_aspect_ratio() {
    let image = solid_tile(8, 4, [10, 20, 30, 255]);

    let thumbnail = image.thumbnail(3, 3, 24).expect("create thumbnail");

    assert_eq!((thumbnail.width(), thumbnail.height()), (3, 2));
    assert_eq!(thumbnail.pixels().len(), 24);
}

#[test]
fn a_solid_thumbnail_keeps_its_colour() {
    let image = solid_tile(8, 4, [10, 20, 30, 255]);

    let thumbnail = image.thumbnail(4, 4, 64).expect("create thumbnail");

    assert_eq!((thumbnail.width(), thumbnail.height()), (4, 2));
    assert!(thumbnail.pixels().chunks(4).all(|pixel| pixel == [10, 20, 30, 255]));
}

#[test]
fn does_not_enlarge_an_image_that_already_fits() {
    let image = solid_tile(2, 3, [10, 20, 30, 255]);

    let thumbnail = image.thumbnail(160, 160, 24).expect("keep image size");

    assert_eq!(thumbnail, image);
}

#[test]
fn rejects_empty_thumbnail_bounds() {
    let image = solid_tile(2, 3, [10, 20, 30, 255]);

    let error = image.thumbnail(0, 160, 24).unwrap_err();

    assert_eq!(
        error,
        ThumbnailError::EmptyBounds {
            max_width: 0,
            max_height: 160,
        }
    );
}

#[test]
fn enforces_the_thumbnail_output_limit() {
    let image = solid_tile(4, 4, [10, 20, 30, 255]);

    let error = image.thumbnail(4, 4, 63).unwrap_err();

    assert_eq!(
        error,
        ThumbnailError::OutputTooLarge {
            required: 64,
            maximum: 63,
        }
    );
}

#[test]
fn assembles_row_major_tiles_with_smaller_right_and_bottom_edges() {
    let tiles = [
        solid_tile(2, 1, [255, 0, 0, 255]),
        solid_tile(1, 1, [0, 255, 0, 255]),
        solid_tile(2, 2, [0, 0, 255, 255]),
        solid_tile(1, 2, [255, 255, 0, 255]),
    ];

    let image = RgbaImage::assemble_grid(&tiles, 2, 2, 3, 3, 36).expect("assemble grid");

    assert_eq!((image.width(), image.height()), (3, 3));
    assert_eq!(
        image.pixels(),
        &[
            255, 0, 0, 255, 255, 0, 0, 255, 0, 255, 0, 255, 0, 0, 255, 255, 0, 0, 255, 255,
            255, 255, 0, 255, 0, 0, 255, 255, 0, 0, 255, 255, 255, 255, 0, 255,
        ]
    );
}

#[test]
fn rejects_a_tile_whose_width_disagrees_with_its_column() {
    let tiles = [
        solid_tile(2, 1, [0; 4]),
        solid_tile(1, 1, [0; 4]),
        solid_tile(3, 1, [0; 4]),
        solid_tile(1, 1, [0; 4]),
    ];

    let error = RgbaImage::assemble_grid(&tiles, 2, 2, 3, 2, 24).unwrap_err();

    assert_eq!(
        error,
        ImageAssemblyError::ColumnWidthMismatch {
            tile_index: 2,
            column: 0,
            expected: 2,
            actual: 3,
        }
    );
}

#[test]
fn rejects_a_tile_whose_height_disagrees_with_its_row() {
    let tiles = [solid_tile(1, 1, [0; 4]), solid_tile(1, 2, [0; 4])];

    let error = RgbaImage::assemble_grid(&tiles, 2, 1, 2, 1, 8).unwrap_err();

    assert_eq!(
        error,
        ImageAssemblyError::RowHeightMismatch {
            tile_index: 1,
            row: 0,
            expected: 1,
            actual: 2,
        }
    );
}

#[test]
fn rejects_dimensions_that_disagree_with_the_tile_grid() {
    let tiles = [solid_tile(2, 2, [0; 4])];

    let error = RgbaImage::assemble_grid(&tiles, 1, 1, 3, 2, 24).unwrap_err();

    assert_eq!(
        error,
        ImageAssemblyError::OutputDimensionMismatch {
            expected: (3, 2),
            actual: (2, 2),
        }
    );
}

#[test]
fn rejects_a_grid_with_missing_tiles() {
    let tiles = [solid_tile(1, 1, [0; 4])];

    let error = RgbaImage::assemble_grid(&tiles, 2, 1, 2, 1, 8).unwrap_err();

    assert_eq!(
        error,
        ImageAssemblyError::TileCountMismatch {
            columns: 2,
            rows: 1,
            expected: 2,
            actual: 1,
        }
    );
}

#[test]
fn rejects_an_output_above_the_memory_limit() {
    let tiles = [solid_tile(2, 2, [0; 4])];

    let error = RgbaImage::assemble_grid(&tiles, 1, 1, 2, 2, 15).unwrap_err();

    assert_eq!(
        error,
        ImageAssemblyError::OutputTooLarge {
            required: 16,
            maximum: 15,
        }
    );
}

#[test]
fn an_empty_grid_is_rejected() {
    let tiles: [RgbaImage; 0] = [];

    let error = RgbaImage::assemble_grid(&tiles, 0, 1, 0, 1, 8).unwrap_err();

    assert_eq!(error, ImageAssemblyError::EmptyGrid { columns: 0, rows: 1 });
}
