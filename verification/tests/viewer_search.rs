use dho_vault::extract::LoadedArchive;
use dho_vault::session::{png_data_url, ViewerSession, ViewerSessionError};
use flate2::write::ZlibEncoder;
use flate2::Compression;
use std::io::Write;

fn push_u32(bytes: &mut Vec<u8>, value: u32) {
    bytes.extend_from_slice(&value.to_le_bytes());
}

fn zlib_block(raw: &[u8]) -> Vec<u8> {
    let mut encoder = ZlibEncoder::new(Vec::new(), Compression::default());
    encoder.write_all(raw).expect("write zlib input");
    let compressed = encoder.finish().expect("finish zlib stream");
    let mut block = b"MWC\x1a".to_vec();
    push_u32(&mut block, raw.len() as u32);
    push_u32(&mut block, compressed.len() as u32);
    block.extend_from_slice(&compressed);
    block
}

/// An `sb` archive with one 1x1 block per record, in record order.
fn sb_archive(records: &[[u32; 5]]) -> LoadedArchive {
    let mut index = Vec::new();
    for value in [records.len() as u32, 1, 1, 1, records.len() as u32, 1, 0] {
        push_u32(&mut index, value);
    }
    let mut data = Vec::new();
    for record in records {
        for value in record {
            push_u32(&mut index, *value);
        }
        data.extend(zlib_block(&[10, 20, 30, 255]));
    }
    LoadedArchive::open("sb", &index, vec![data]).expect("open test archive")
}

fn session() -> ViewerSession {
    let mut session = ViewerSession::new();
    session.set_resource_directory("resources");
    session.add_archive(sb_archive(&[
        [200, 0, 1, 1, 9],
        [100_100, 1, 1, 1, 9],
        [1_200_001, 2, 1, 1, 9],
    ]));
    session
}

fn path(segments: &[&str]) -> Vec<String> {
    segments.iter().map(|segment| (*segment).to_owned()).collect()
}

#[test]
fn wraps_png_bytes_in_a_base64_data_url() {
    assert_eq!(png_data_url(&[1, 2, 3]), "data:image/png;base64,AQID");
    assert_eq!(png_data_url(&[]), "data:image/png;base64,");
    assert_eq!(png_data_url(&[0xff, 0xfe]), "data:image/png;base64,//4=");
    assert_eq!(png_data_url(b"Man"), "data:image/png;base64,TWFu");
    assert_eq!(png_data_url(b"M"), "data:image/png;base64,TQ==");
}

#[test]
fn pages_the_verified_assets_of_one_category() {
    let mut session = session();

    let page = session
        .category_page(&path(&["장비", "방어구", "몸"]), 0, 32)
        .expect("category page");

    assert_eq!(page.total_count, 1);
    assert_eq!(page.items.len(), 1);
    assert_eq!(page.items[0].icon_id, Some(200));
    assert_eq!(page.items[0].block_index, 0);
    assert!(page.items[0]
        .thumbnail_data_url
        .starts_with("data:image/png;base64,"));
}

#[test]
fn an_unknown_category_is_reported() {
    let mut session = session();

    let error = session
        .category_page(&path(&["없는", "분류"]), 0, 32)
        .unwrap_err();

    assert!(matches!(error, ViewerSessionError::CategoryNotFound { .. }));
}

#[test]
fn searches_paths_in_any_case_and_ignores_surrounding_spaces() {
    let session = session();

    let found = session.search_assets("  SB 방어구  ").expect("search");

    assert_eq!(found.len(), 2);
    assert_eq!(found[0].path(), path(&["장비", "방어구", "머리"]).as_slice());
    assert_eq!(found[0].icon_id(), Some(100_100));
    assert_eq!(found[1].path(), path(&["장비", "방어구", "몸"]).as_slice());
    assert_eq!(found[1].icon_id(), Some(200));
}

#[test]
fn a_numeric_term_matches_an_exact_id() {
    let session = session();

    let found = session.search_assets("100100").expect("search by ID");
    assert_eq!(found.len(), 1);
    assert_eq!(found[0].block_index(), 1);

    let none = session.search_assets("10010").expect("search by a partial ID");
    assert!(none.is_empty());
}

#[test]
fn an_empty_query_is_refused() {
    let mut session = session();

    assert!(matches!(
        session.search_assets(" \t "),
        Err(ViewerSessionError::EmptySearchQuery)
    ));
    assert!(matches!(
        session.search_page("머리", 0, 0),
        Err(ViewerSessionError::InvalidPageSize {
            requested: 0,
            maximum: 32
        })
    ));
}

#[test]
fn pages_search_results_with_thumbnails() {
    let mut session = session();

    let page = session.search_page("방어구", 1, 1).expect("search page");

    assert_eq!(page.total_count, 2);
    assert_eq!(page.offset, 1);
    assert_eq!(page.items.len(), 1);
    assert_eq!(page.items[0].path, path(&["장비", "방어구", "몸"]));
    assert_eq!(page.items[0].thumbnail.icon_id, Some(200));
}
