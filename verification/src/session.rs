//! The viewer's session: the archives of the chosen installation, the verified images they
//! offer, and the pages, thumbnails and PNG files the viewer asks for.

use crate::cache::{
    cache_after_get, cache_after_insert, cache_lookup, lemma_get_keeps_entries, lemma_insert_keeps_entries,
    lemma_lookup_is_entry, KeyView, ThumbnailCache, ThumbnailCacheKey,
    ThumbnailView, VerifiedAssetThumbnail, THUMBNAIL_CACHE_MAX_BYTES, THUMBNAIL_CACHE_MAX_ITEMS,
};
use crate::client::{
    VerifiedSearchAsset,
    archive_assets, asset_cache_key, asset_views, clone_path, indexed_archive_assets, path_texts,
    raw_archive_assets, raw_assets, shown_icon_id, str_equal, asset_is_consistent, AssetRefView, VerifiedAssetRef,
    VerifiedCategoryAsset, VIEWER_CATEGORY_PAGE_SIZE,
};
use crate::extract::{
    ExtractError, ExtractedAssembly, ExtractedAssemblyThumbnail, ExtractedResource, ExtractedThumbnail,
    LoadedArchive, LoadedRawImageArchive, RawImageBlock,
};
use crate::index::IndexRecord;
use crate::text::{ascii_lower, to_ascii_lowercase, trim_space, trim_text};
use crate::search::{
    archive_search_assets, first_per_slot, has_slot, indexed_search_assets, matching_results,
    matching_results_exec, push_first_per_slot, query_terms, query_words, raw_archive_search_assets,
    raw_search_assets, session_search_assets, sort_search, sort_search_exec, verified_record_path,
};
use crate::snapshot::{entry_raw_key, AssetSnapshotEntry, AssetSourceKind, EntryView, entry_views};
use crate::extract::ResourceKey;
use crate::client::{canonical_block, is_assembled, record_path, search_views, SearchAssetView, VerifiedSearchAssetRef};
use crate::extract::RawImageRecord;
use base64::Engine;
use vstd::prelude::*;
use vstd::string::StringExecFns;

verus! {

/// Largest decoded size of one image.
pub const MAX_IMAGE_DECODE_SIZE: usize = 67108864;

/// Largest decoded size of a joined image.
pub const MAX_ASSEMBLED_DECODE_SIZE: usize = 134217728;

/// Bounds of a list thumbnail.
pub const THUMBNAIL_MAX_WIDTH: u32 = 160;

pub const THUMBNAIL_MAX_HEIGHT: u32 = 160;

/// Largest decoded size of a list thumbnail: 160 × 160 RGBA pixels.
pub const MAX_THUMBNAIL_DECODE_SIZE: usize = 102400;

/// Bounds of a detail preview.
pub const DETAIL_MAX_WIDTH: u32 = 1024;

pub const DETAIL_MAX_HEIGHT: u32 = 1024;

/// Largest decoded size of a detail preview: 1024 × 1024 RGBA pixels.
pub const MAX_DETAIL_DECODE_SIZE: usize = 4194304;

/// The character of the standard base64 alphabet for a six-bit value.
pub open spec fn base64_digit(v: int) -> char {
    if v < 26 {
        ('A' as int + v) as char
    } else if v < 52 {
        ('a' as int + (v - 26)) as char
    } else if v < 62 {
        ('0' as int + (v - 52)) as char
    } else if v == 62 {
        '+'
    } else {
        '/'
    }
}

/// The standard base64 encoding of `bytes` (RFC 4648, section 4): each group of three bytes
/// becomes four characters, and a last group of one or two bytes is padded with `=`.
pub open spec fn base64_standard(bytes: Seq<u8>) -> Seq<char>
    decreases bytes.len(),
{
    if bytes.len() == 0 {
        Seq::empty()
    } else if bytes.len() == 1 {
        seq![base64_digit((bytes[0] as int) / 4), base64_digit(((bytes[0] as int) % 4) * 16), '=', '=']
    } else if bytes.len() == 2 {
        seq![
            base64_digit((bytes[0] as int) / 4),
            base64_digit(((bytes[0] as int) % 4) * 16 + (bytes[1] as int) / 16),
            base64_digit(((bytes[1] as int) % 16) * 4),
            '=',
        ]
    } else {
        seq![
            base64_digit((bytes[0] as int) / 4),
            base64_digit(((bytes[0] as int) % 4) * 16 + (bytes[1] as int) / 16),
            base64_digit(((bytes[1] as int) % 16) * 4 + (bytes[2] as int) / 64),
            base64_digit((bytes[2] as int) % 64),
        ] + base64_standard(bytes.subrange(3, bytes.len() as int))
    }
}

/// Calls `base64::engine::general_purpose::STANDARD.encode`, which encodes bytes with the
/// standard alphabet and padding, as `base64_standard` states.
#[verifier::external_body]
fn encode_base64(bytes: &[u8]) -> (text: String)
    ensures
        text@ == base64_standard(bytes@),
{
    base64::engine::general_purpose::STANDARD.encode(bytes)
}

/// A `data:` URL that carries PNG bytes.
pub fn png_data_url(png: &[u8]) -> (url: String)
    ensures
        url@ == "data:image/png;base64,"@ + base64_standard(png@),
{
    let mut url = String::from_str("data:image/png;base64,");
    let encoded = encode_base64(png);
    url.append(encoded.as_str());
    url
}

/// A page of one category's thumbnails.
#[derive(Debug, Clone, PartialEq, Eq)]
pub struct VerifiedCategoryPage {
    pub path: Vec<String>,
    pub offset: usize,
    pub page_size: usize,
    pub total_count: usize,
    pub items: Vec<VerifiedAssetThumbnail>,
}

/// A large preview of one verified image.
#[derive(Debug, Clone, PartialEq, Eq)]
pub struct VerifiedAssetDetail {
    pub path: Vec<String>,
    pub archive: String,
    pub icon_id: Option<u32>,
    pub block_index: u32,
    pub source_width: u32,
    pub source_height: u32,
    pub preview_width: u32,
    pub preview_height: u32,
    pub assembled: bool,
    pub preview_data_url: String,
}

/// One verified image as a full-size PNG file.
#[derive(Debug, Clone, PartialEq, Eq)]
pub struct VerifiedAssetPng {
    pub archive: String,
    pub icon_id: Option<u32>,
    pub block_index: u32,
    pub width: u32,
    pub height: u32,
    pub assembled: bool,
    pub png: Vec<u8>,
}

/// Why the session could not answer a request.
#[derive(Debug)]
pub enum ViewerSessionError {
    ResourceDirectoryNotSelected,
    EmptyCategoryPath,
    EmptySearchQuery,
    InvalidPageSize { requested: usize, maximum: usize },
    CategoryNotFound { path: Vec<String> },
    AssetNotFound { path: Vec<String>, prefix: String, block_index: u32 },
    OffsetOutOfRange { offset: usize, total_count: usize },
    OpenArchive { prefix: String, source: ExtractError },
    RawArchiveDefinitionMissing { prefix: String },
    ArchiveNotLoaded { prefix: String },
    Extract { prefix: String, block_index: u32, source: ExtractError },
    AssemblyRuleMissing { prefix: String, block_index: u32 },
}

/// Whether a thumbnail fits the key it is filed under: same archive and assembly state, the
/// key's block when it is not joined, and the key's ID unless it has none.
pub open spec fn thumbnail_fits_key(thumbnail: ThumbnailView, key: KeyView) -> bool {
    &&& thumbnail.archive == key.prefix
    &&& thumbnail.assembled == key.assembled
    &&& (!key.assembled ==> thumbnail.block_index == key.canonical_block)
    &&& (thumbnail.icon_id is None || thumbnail.icon_id == Some(key.icon_id))
}

/// Whether every cached thumbnail fits its key.
pub open spec fn cache_fits_keys(entries: Seq<(KeyView, ThumbnailView)>) -> bool {
    forall|i: int| 0 <= i < entries.len() ==> #[trigger] thumbnail_fits_key(entries[i].1, entries[i].0)
}

/// The assets of the indexed archives under `path`, archive by archive.
pub open spec fn indexed_session_assets(archives: Seq<(Seq<char>, Seq<IndexRecord>)>, path: Seq<Seq<char>>) -> Seq<
    AssetRefView,
>
    decreases archives.len(),
{
    if archives.len() == 0 {
        Seq::empty()
    } else {
        indexed_session_assets(archives.drop_last(), path) + archive_assets(
            archives.last().0,
            archives.last().1,
            path,
        )
    }
}

/// The assets of the raw archives under `path`, archive by archive.
pub open spec fn raw_session_assets(archives: Seq<(Seq<char>, Seq<RawImageRecord>)>, path: Seq<Seq<char>>) -> Seq<
    AssetRefView,
>
    decreases archives.len(),
{
    if archives.len() == 0 {
        Seq::empty()
    } else {
        raw_session_assets(archives.drop_last(), path) + raw_assets(archives.last().0, archives.last().1, path)
    }
}

/// Every verified asset a session shows under `path`: the indexed archives' first, then the
/// raw archives'.
pub open spec fn session_assets(
    archives: Seq<(Seq<char>, Seq<IndexRecord>)>,
    raw_archives: Seq<(Seq<char>, Seq<RawImageRecord>)>,
    path: Seq<Seq<char>>,
) -> Seq<AssetRefView> {
    indexed_session_assets(archives, path) + raw_session_assets(raw_archives, path)
}

proof fn lemma_raw_assets_unassembled(archive: Seq<char>, records: Seq<RawImageRecord>, path: Seq<Seq<char>>)
    ensures
        forall|i: int| 0 <= i < raw_assets(archive, records, path).len() ==> !(#[trigger] raw_assets(archive, records, path)[i]).assembled,
    decreases records.len(),
{
    if records.len() > 0 {
        lemma_raw_assets_unassembled(archive, records.drop_last(), path);
    }
}

proof fn lemma_indexed_session_assets_consistent(archives: Seq<(Seq<char>, Seq<IndexRecord>)>, path: Seq<Seq<char>>)
    ensures
        forall|i: int| 0 <= i < indexed_session_assets(archives, path).len() ==> (#[trigger] indexed_session_assets(archives, path)[i]).raw_key is None,
    decreases archives.len(),
{
    if archives.len() > 0 {
        lemma_indexed_session_assets_consistent(archives.drop_last(), path);
        let front = indexed_session_assets(archives.drop_last(), path);
        let back = archive_assets(archives.last().0, archives.last().1, path);
        assert forall|i: int| 0 <= i < (front + back).len() implies (#[trigger] (front + back)[i]).raw_key is None by {
            if i >= front.len() {
                assert((front + back)[i] == back[i - front.len()]);
            } else {
                assert((front + back)[i] == front[i]);
            }
        }
    }
}

proof fn lemma_raw_session_assets_unassembled(archives: Seq<(Seq<char>, Seq<RawImageRecord>)>, path: Seq<Seq<char>>)
    ensures
        forall|i: int| 0 <= i < raw_session_assets(archives, path).len() ==> !(#[trigger] raw_session_assets(archives, path)[i]).assembled,
    decreases archives.len(),
{
    if archives.len() > 0 {
        lemma_raw_session_assets_unassembled(archives.drop_last(), path);
        lemma_raw_assets_unassembled(archives.last().0, archives.last().1, path);
        let front = raw_session_assets(archives.drop_last(), path);
        let back = raw_assets(archives.last().0, archives.last().1, path);
        assert forall|i: int| 0 <= i < (front + back).len() implies !(#[trigger] (front + back)[i]).assembled by {
            if i >= front.len() {
                assert((front + back)[i] == back[i - front.len()]);
            } else {
                assert((front + back)[i] == front[i]);
            }
        }
    }
}

/// No listed asset is both a raw block and a joined image.
proof fn lemma_session_assets_consistent(
    archives: Seq<(Seq<char>, Seq<IndexRecord>)>,
    raw_archives: Seq<(Seq<char>, Seq<RawImageRecord>)>,
    path: Seq<Seq<char>>,
)
    ensures
        forall|i: int| 0 <= i < session_assets(archives, raw_archives, path).len() ==> #[trigger] asset_is_consistent(
            session_assets(archives, raw_archives, path)[i],
        ),
{
    lemma_indexed_session_assets_consistent(archives, path);
    lemma_raw_session_assets_unassembled(raw_archives, path);
    let front = indexed_session_assets(archives, path);
    let back = raw_session_assets(raw_archives, path);
    assert forall|i: int| 0 <= i < (front + back).len() implies #[trigger] asset_is_consistent((front + back)[i]) by {
        if i >= front.len() {
            assert((front + back)[i] == back[i - front.len()]);
        } else {
            assert((front + back)[i] == front[i]);
        }
    }
}

/// The records of a raw archive's blocks.
pub open spec fn raw_records(blocks: Seq<RawImageBlock>) -> Seq<RawImageRecord> {
    blocks.map_values(|block: RawImageBlock| block.record)
}

/// The last index of a page that starts at `offset`.
pub open spec fn page_end(total: nat, offset: nat, page_size: nat) -> nat {
    if offset + page_size < total {
        offset + page_size
    } else {
        total
    }
}

/// The viewer's state: the chosen resource directory, its archives, and the thumbnails already
/// made.
#[derive(Debug)]
pub struct ViewerSession {
    resource_directory: Option<String>,
    archives: Vec<LoadedArchive>,
    raw_archives: Vec<LoadedRawImageArchive>,
    thumbnail_cache: ThumbnailCache,
}

impl ViewerSession {
    pub closed spec fn spec_directory(&self) -> Option<Seq<char>> {
        match self.resource_directory {
            Some(d) => Some(d@),
            None => None,
        }
    }

    /// The indexed archives, in the order they were added.
    pub closed spec fn spec_loaded(&self) -> Seq<LoadedArchive> {
        self.archives@
    }

    /// The raw archives, in the order they were added.
    pub closed spec fn spec_loaded_raw(&self) -> Seq<LoadedRawImageArchive> {
        self.raw_archives@
    }

    /// The prefix and records of each indexed archive, in the order they were added.
    pub closed spec fn spec_archives(&self) -> Seq<(Seq<char>, Seq<IndexRecord>)> {
        self.archives@.map_values(|a: LoadedArchive| (a.spec_prefix(), a.spec_records()))
    }

    /// The prefix and block records of each raw archive, in the order they were added.
    pub closed spec fn spec_raw_archives(&self) -> Seq<(Seq<char>, Seq<RawImageRecord>)> {
        self.raw_archives@.map_values(
            |a: LoadedRawImageArchive| (a.spec_prefix(), raw_records(a.spec_blocks())),
        )
    }

    pub closed spec fn spec_cache(&self) -> Seq<(KeyView, ThumbnailView)> {
        self.thumbnail_cache.spec_entries()
    }

    pub closed spec fn spec_cache_limits(&self) -> (nat, nat) {
        (self.thumbnail_cache.spec_max_items(), self.thumbnail_cache.spec_max_bytes())
    }

    /// The session's cache is consistent and holds only thumbnails that fit their keys.
    pub closed spec fn wf(&self) -> bool {
        &&& self.thumbnail_cache.wf()
        &&& cache_fits_keys(self.thumbnail_cache.spec_entries())
    }

    /// A session with no directory chosen and the default thumbnail cache.
    pub fn new() -> (session: Self)
        ensures
            session.wf(),
            session.spec_directory() is None,
            session.spec_archives().len() == 0,
            session.spec_raw_archives().len() == 0,
            session.spec_cache().len() == 0,
            session.spec_cache_limits() == (THUMBNAIL_CACHE_MAX_ITEMS as nat, THUMBNAIL_CACHE_MAX_BYTES as nat),
    {
        ViewerSession {
            resource_directory: None,
            archives: Vec::new(),
            raw_archives: Vec::new(),
            thumbnail_cache: ThumbnailCache::with_limits(THUMBNAIL_CACHE_MAX_ITEMS, THUMBNAIL_CACHE_MAX_BYTES),
        }
    }

    /// The chosen resource directory.
    pub fn resource_directory(&self) -> (directory: Option<&str>)
        ensures
            match self.spec_directory() {
                Some(d) => directory matches Some(text) && text@ == d,
                None => directory is None,
            },
    {
        match &self.resource_directory {
            Some(directory) => Some(directory.as_str()),
            None => None,
        }
    }

    /// Chooses a resource directory. Choosing the current one again keeps everything; another
    /// one drops the loaded archives and the cached thumbnails.
    pub fn set_resource_directory(&mut self, path: &str)
        requires
            old(self).wf(),
        ensures
            final(self).wf(),
            final(self).spec_directory() == Some(path@),
            final(self).spec_cache_limits() == old(self).spec_cache_limits(),
            old(self).spec_directory() == Some(path@) ==> {
                &&& final(self).spec_archives() == old(self).spec_archives()
                &&& final(self).spec_raw_archives() == old(self).spec_raw_archives()
                &&& final(self).spec_loaded() == old(self).spec_loaded()
                &&& final(self).spec_loaded_raw() == old(self).spec_loaded_raw()
                &&& final(self).spec_cache() == old(self).spec_cache()
            },
            old(self).spec_directory() != Some(path@) ==> {
                &&& final(self).spec_archives().len() == 0
                &&& final(self).spec_raw_archives().len() == 0
                &&& final(self).spec_cache().len() == 0
            },
    {
        let same = match &self.resource_directory {
            Some(current) => crate::client::str_equal(current.as_str(), path),
            None => false,
        };
        if !same {
            self.archives = Vec::new();
            self.raw_archives = Vec::new();
            self.thumbnail_cache.clear();
            self.resource_directory = Some(String::from_str(path));
        }
    }

    /// Adds an opened indexed archive of the chosen directory.
    pub fn add_archive(&mut self, archive: LoadedArchive)
        requires
            old(self).wf(),
        ensures
            final(self).wf(),
            final(self).spec_directory() == old(self).spec_directory(),
            final(self).spec_archives() == old(self).spec_archives().push(
                (archive.spec_prefix(), archive.spec_records()),
            ),
            final(self).spec_raw_archives() == old(self).spec_raw_archives(),
            final(self).spec_loaded() == old(self).spec_loaded().push(archive),
            final(self).spec_loaded_raw() == old(self).spec_loaded_raw(),
            final(self).spec_cache() == old(self).spec_cache(),
            final(self).spec_cache_limits() == old(self).spec_cache_limits(),
    {
        self.archives.push(archive);
        assert(self.spec_archives() =~= old(self).spec_archives().push(
            (archive.spec_prefix(), archive.spec_records()),
        ));
    }

    /// Adds an opened raw archive of the chosen directory.
    pub fn add_raw_archive(&mut self, archive: LoadedRawImageArchive)
        requires
            old(self).wf(),
        ensures
            final(self).wf(),
            final(self).spec_directory() == old(self).spec_directory(),
            final(self).spec_archives() == old(self).spec_archives(),
            final(self).spec_raw_archives() == old(self).spec_raw_archives().push(
                (archive.spec_prefix(), raw_records(archive.spec_blocks())),
            ),
            final(self).spec_loaded() == old(self).spec_loaded(),
            final(self).spec_loaded_raw() == old(self).spec_loaded_raw().push(archive),
            final(self).spec_cache() == old(self).spec_cache(),
            final(self).spec_cache_limits() == old(self).spec_cache_limits(),
    {
        self.raw_archives.push(archive);
        assert(self.spec_raw_archives() =~= old(self).spec_raw_archives().push(
            (archive.spec_prefix(), raw_records(archive.spec_blocks())),
        ));
    }

    /// Files a thumbnail in the session's cache.
    pub fn cache_thumbnail(&mut self, key: ThumbnailCacheKey, thumbnail: VerifiedAssetThumbnail)
        requires
            old(self).wf(),
            thumbnail_fits_key(thumbnail@, key@),
        ensures
            final(self).wf(),
            final(self).spec_cache() == cache_after_insert(
                old(self).spec_cache(),
                old(self).spec_cache_limits().0,
                old(self).spec_cache_limits().1,
                key@,
                thumbnail@,
            ),
            final(self).spec_cache_limits() == old(self).spec_cache_limits(),
            final(self).spec_directory() == old(self).spec_directory(),
            final(self).spec_archives() == old(self).spec_archives(),
            final(self).spec_raw_archives() == old(self).spec_raw_archives(),
            final(self).spec_loaded() == old(self).spec_loaded(),
            final(self).spec_loaded_raw() == old(self).spec_loaded_raw(),
    {
        let ghost key_view = key@;
        let ghost thumbnail_view = thumbnail@;
        self.thumbnail_cache.insert(key, thumbnail);
        proof {
            lemma_insert_keeps_fit(old(self).spec_cache(), old(self).spec_cache_limits().0,
                old(self).spec_cache_limits().1, key_view, thumbnail_view);
        }
    }

    /// The cached thumbnail filed under `key`, which becomes the most recently used.
    pub fn cached_thumbnail(&mut self, key: &ThumbnailCacheKey) -> (thumbnail: Option<VerifiedAssetThumbnail>)
        requires
            old(self).wf(),
        ensures
            final(self).wf(),
            match cache_lookup(old(self).spec_cache(), key@) {
                Some(t) => thumbnail matches Some(found) && found@ == t,
                None => thumbnail is None,
            },
            final(self).spec_cache() == cache_after_get(old(self).spec_cache(), key@),
            final(self).spec_cache_limits() == old(self).spec_cache_limits(),
            final(self).spec_directory() == old(self).spec_directory(),
            final(self).spec_archives() == old(self).spec_archives(),
            final(self).spec_raw_archives() == old(self).spec_raw_archives(),
            final(self).spec_loaded() == old(self).spec_loaded(),
            final(self).spec_loaded_raw() == old(self).spec_loaded_raw(),
    {
        let ghost key_view = key@;
        let found = self.thumbnail_cache.get(key);
        proof {
            lemma_get_keeps_fit(old(self).spec_cache(), key_view);
        }
        found
    }

    /// The bytes charged for the cached thumbnails.
    pub fn cached_thumbnail_bytes(&self) -> (total: usize)
        requires
            self.wf(),
        ensures
            total == crate::cache::cached_bytes(self.spec_cache()),
    {
        self.thumbnail_cache.total_bytes()
    }
}

proof fn lemma_remove_key_keeps_fit(entries: Seq<(KeyView, ThumbnailView)>, key: KeyView)
    requires
        cache_fits_keys(entries),
    ensures
        cache_fits_keys(crate::cache::remove_key(entries, key)),
    decreases entries.len(),
{
    if entries.len() > 0 && entries[0].0 != key {
        assert(cache_fits_keys(entries.drop_first())) by {
            assert forall|i: int| 0 <= i < entries.drop_first().len() implies #[trigger] thumbnail_fits_key(
                entries.drop_first()[i].1,
                entries.drop_first()[i].0,
            ) by {
                assert(entries.drop_first()[i] == entries[i + 1]);
            }
        }
        lemma_remove_key_keeps_fit(entries.drop_first(), key);
        let rest = crate::cache::remove_key(entries.drop_first(), key);
        assert forall|i: int| 0 <= i < (seq![entries[0]] + rest).len() implies #[trigger] thumbnail_fits_key(
            (seq![entries[0]] + rest)[i].1,
            (seq![entries[0]] + rest)[i].0,
        ) by {
            if i > 0 {
                assert((seq![entries[0]] + rest)[i] == rest[i - 1]);
            }
        }
    } else if entries.len() > 0 {
        assert forall|i: int| 0 <= i < entries.drop_first().len() implies #[trigger] thumbnail_fits_key(
            entries.drop_first()[i].1,
            entries.drop_first()[i].0,
        ) by {
            assert(entries.drop_first()[i] == entries[i + 1]);
        }
    }
}

proof fn lemma_evict_keeps_fit(entries: Seq<(KeyView, ThumbnailView)>, size: nat, max_items: nat, max_bytes: nat)
    requires
        cache_fits_keys(entries),
    ensures
        cache_fits_keys(crate::cache::evict_for(entries, size, max_items, max_bytes)),
    decreases entries.len(),
{
    if entries.len() > 0 && (entries.len() >= max_items || crate::cache::cached_bytes(entries) + size
        > max_bytes) {
        assert forall|i: int| 0 <= i < entries.drop_first().len() implies #[trigger] thumbnail_fits_key(
            entries.drop_first()[i].1,
            entries.drop_first()[i].0,
        ) by {
            assert(entries.drop_first()[i] == entries[i + 1]);
        }
        lemma_evict_keeps_fit(entries.drop_first(), size, max_items, max_bytes);
    }
}

proof fn lemma_insert_keeps_fit(
    entries: Seq<(KeyView, ThumbnailView)>,
    max_items: nat,
    max_bytes: nat,
    key: KeyView,
    thumbnail: ThumbnailView,
)
    requires
        cache_fits_keys(entries),
        thumbnail_fits_key(thumbnail, key),
    ensures
        cache_fits_keys(cache_after_insert(entries, max_items, max_bytes, key, thumbnail)),
{
    let size = crate::cache::thumbnail_cache_bytes(thumbnail);
    if !(max_items == 0 || size > max_bytes) {
        lemma_remove_key_keeps_fit(entries, key);
        lemma_evict_keeps_fit(crate::cache::remove_key(entries, key), size, max_items, max_bytes);
        let kept = crate::cache::evict_for(crate::cache::remove_key(entries, key), size, max_items, max_bytes);
        assert forall|i: int| 0 <= i < kept.push((key, thumbnail)).len() implies #[trigger] thumbnail_fits_key(
            kept.push((key, thumbnail))[i].1,
            kept.push((key, thumbnail))[i].0,
        ) by {
            if i < kept.len() {
                assert(kept.push((key, thumbnail))[i] == kept[i]);
            }
        }
    }
}

proof fn lemma_lookup_fits(entries: Seq<(KeyView, ThumbnailView)>, key: KeyView)
    requires
        cache_fits_keys(entries),
    ensures
        cache_lookup(entries, key) matches Some(t) ==> thumbnail_fits_key(t, key),
    decreases entries.len(),
{
    if entries.len() > 0 {
        assert(thumbnail_fits_key(entries[0].1, entries[0].0));
        if entries[0].0 != key {
            assert forall|i: int| 0 <= i < entries.drop_first().len() implies #[trigger] thumbnail_fits_key(
                entries.drop_first()[i].1,
                entries.drop_first()[i].0,
            ) by {
                assert(entries.drop_first()[i] == entries[i + 1]);
            }
            lemma_lookup_fits(entries.drop_first(), key);
        }
    }
}

proof fn lemma_get_keeps_fit(entries: Seq<(KeyView, ThumbnailView)>, key: KeyView)
    requires
        cache_fits_keys(entries),
    ensures
        cache_fits_keys(cache_after_get(entries, key)),
{
    lemma_lookup_fits(entries, key);
    lemma_remove_key_keeps_fit(entries, key);
    if let Some(t) = cache_lookup(entries, key) {
        let rest = crate::cache::remove_key(entries, key);
        assert forall|i: int| 0 <= i < rest.push((key, t)).len() implies #[trigger] thumbnail_fits_key(
            rest.push((key, t))[i].1,
            rest.push((key, t))[i].0,
        ) by {
            if i < rest.len() {
                assert(rest.push((key, t))[i] == rest[i]);
            }
        }
    }
}


impl ViewerSession {
    /// Every verified asset under `path`, or the error that no directory was chosen.
    #[verifier::loop_isolation(false)]
    fn verified_assets(&self, path: &[String]) -> (assets: Result<Vec<VerifiedAssetRef>, ViewerSessionError>)
        ensures
            match self.spec_directory() {
                None => assets matches Err(ViewerSessionError::ResourceDirectoryNotSelected),
                Some(_) => assets matches Ok(found) && asset_views(found@) == session_assets(
                    self.spec_archives(),
                    self.spec_raw_archives(),
                    path_texts(path@),
                ),
            },
    {
        if self.resource_directory.is_none() {
            return Err(ViewerSessionError::ResourceDirectoryNotSelected);
        }
        let ghost wanted = path_texts(path@);
        let mut assets: Vec<VerifiedAssetRef> = Vec::new();
        let mut index: usize = 0;
        while index < self.archives.len()
            invariant
                index <= self.archives@.len(),
                asset_views(assets@) == indexed_session_assets(self.spec_archives().take(index as int), wanted),
            decreases self.archives@.len() - index,
        {
            let archive = &self.archives[index];
            let mut part = indexed_archive_assets(archive.prefix().as_str(), archive.records(), path);
            let ghost before = assets@;
            let ghost added = part@;
            assets.append(&mut part);
            proof {
                assert(asset_views(assets@) =~= asset_views(before) + asset_views(added));
                let taken = self.spec_archives().take(index + 1);
                assert(taken.drop_last() =~= self.spec_archives().take(index as int));
                assert(taken.last() == (archive.spec_prefix(), archive.spec_records()));
            }
            index += 1;
        }
        assert(self.spec_archives().take(index as int) =~= self.spec_archives());
        let ghost indexed = asset_views(assets@);
        let mut raw: Vec<VerifiedAssetRef> = Vec::new();
        let mut index: usize = 0;
        while index < self.raw_archives.len()
            invariant
                index <= self.raw_archives@.len(),
                asset_views(raw@) == raw_session_assets(self.spec_raw_archives().take(index as int), wanted),
            decreases self.raw_archives@.len() - index,
        {
            let archive = &self.raw_archives[index];
            let records = archive.records();
            let mut part = raw_archive_assets(archive.prefix().as_str(), records.as_slice(), path);
            let ghost before = raw@;
            let ghost added = part@;
            raw.append(&mut part);
            proof {
                assert(asset_views(raw@) =~= asset_views(before) + asset_views(added));
                let taken = self.spec_raw_archives().take(index + 1);
                assert(taken.drop_last() =~= self.spec_raw_archives().take(index as int));
                assert(taken.last() == (archive.spec_prefix(), raw_records(archive.spec_blocks())));
                assert(records@ =~= raw_records(archive.spec_blocks()));
            }
            index += 1;
        }
        assert(self.spec_raw_archives().take(index as int) =~= self.spec_raw_archives());
        let ghost raw_views = asset_views(raw@);
        assets.append(&mut raw);
        assert(asset_views(assets@) =~= indexed + raw_views);
        Ok(assets)
    }

    /// The verified assets of one category, in listing order.
    pub fn category_assets(&self, path: &[String]) -> (assets: Result<Vec<VerifiedCategoryAsset>, ViewerSessionError>)
        ensures
            path@.len() == 0 ==> assets matches Err(ViewerSessionError::EmptyCategoryPath),
            path@.len() > 0 && self.spec_directory() is None ==> assets matches Err(
                ViewerSessionError::ResourceDirectoryNotSelected,
            ),
            path@.len() > 0 && self.spec_directory() is Some ==> {
                let expected = session_assets(self.spec_archives(), self.spec_raw_archives(), path_texts(path@));
                if expected.len() == 0 {
                    assets matches Err(ViewerSessionError::CategoryNotFound { path: p }) && path_texts(p@)
                        == path_texts(path@)
                } else {
                    assets matches Ok(found) && found@.len() == expected.len() && forall|i: int|
                        0 <= i < expected.len() ==> #[trigger] found@[i]@ == expected[i]
                }
            },
    {
        if path.len() == 0 {
            return Err(ViewerSessionError::EmptyCategoryPath);
        }
        let found = self.verified_assets(path)?;
        if found.len() == 0 {
            return Err(ViewerSessionError::CategoryNotFound { path: clone_path(path) });
        }
        let mut wrapped: Vec<VerifiedCategoryAsset> = Vec::new();
        let mut index: usize = 0;
        proof {
            lemma_session_assets_consistent(self.spec_archives(), self.spec_raw_archives(), path_texts(path@));
        }
        while index < found.len()
            invariant
                index <= found@.len(),
                wrapped@.len() == index,
                asset_views(found@) == session_assets(self.spec_archives(), self.spec_raw_archives(), path_texts(path@)),
                forall|i: int| 0 <= i < found@.len() ==> #[trigger] asset_is_consistent(asset_views(found@)[i]),
                forall|i: int| 0 <= i < index ==> #[trigger] wrapped@[i]@ == found@[i]@,
            decreases found@.len() - index,
        {
            assert(asset_is_consistent(asset_views(found@)[index as int]));
            wrapped.push(VerifiedCategoryAsset::new(found[index].clone()));
            index += 1;
        }
        Ok(wrapped)
    }

    fn find_archive(&self, prefix: &str) -> (archive: Result<&LoadedArchive, ViewerSessionError>)
        ensures
            match archive {
                Ok(a) => first_loaded(self.spec_loaded(), prefix@) == Some(*a),
                Err(e) => first_loaded(self.spec_loaded(), prefix@) is None && (e matches ViewerSessionError::ArchiveNotLoaded {
                    prefix: p,
                } && p@ == prefix@),
            },
    {
        let mut index: usize = 0;
        while index < self.archives.len()
            invariant
                index <= self.archives@.len(),
                forall|k: int| 0 <= k < index ==> (#[trigger] self.archives@[k]).spec_prefix() != prefix@,
            decreases self.archives@.len() - index,
        {
            if str_equal(self.archives[index].prefix().as_str(), prefix) {
                proof {
                    lemma_first_loaded_at(self.archives@, prefix@, index as int);
                }
                return Ok(&self.archives[index]);
            }
            index += 1;
        }
        proof {
            lemma_first_loaded_none(self.archives@, prefix@);
        }
        Err(ViewerSessionError::ArchiveNotLoaded { prefix: String::from_str(prefix) })
    }

    fn find_raw_archive(&self, prefix: &str) -> (archive: Result<&LoadedRawImageArchive, ViewerSessionError>)
        ensures
            match archive {
                Ok(a) => first_loaded_raw(self.spec_loaded_raw(), prefix@) == Some(*a),
                Err(e) => first_loaded_raw(self.spec_loaded_raw(), prefix@) is None
                    && (e matches ViewerSessionError::ArchiveNotLoaded { prefix: p } && p@ == prefix@),
            },
    {
        let mut index: usize = 0;
        while index < self.raw_archives.len()
            invariant
                index <= self.raw_archives@.len(),
                forall|k: int| 0 <= k < index ==> (#[trigger] self.raw_archives@[k]).spec_prefix() != prefix@,
            decreases self.raw_archives@.len() - index,
        {
            if str_equal(self.raw_archives[index].prefix().as_str(), prefix) {
                proof {
                    lemma_first_loaded_raw_at(self.raw_archives@, prefix@, index as int);
                }
                return Ok(&self.raw_archives[index]);
            }
            index += 1;
        }
        proof {
            lemma_first_loaded_raw_none(self.raw_archives@, prefix@);
        }
        Err(ViewerSessionError::ArchiveNotLoaded { prefix: String::from_str(prefix) })
    }

    /// Decodes a bounded preview of one asset from its archive.
    fn asset_preview(
        &self,
        asset: &VerifiedAssetRef,
        max_width: u32,
        max_height: u32,
        max_output_size: usize,
    ) -> (made: Result<MadePreview, ViewerSessionError>)
        requires
            asset_is_consistent(asset@),
        ensures
            exists|outcome: ImageOutcome<PreviewView>|
                #[trigger] preview_outcome(
                    self.spec_loaded(),
                    self.spec_loaded_raw(),
                    asset@,
                    max_width,
                    max_height,
                    max_output_size,
                    outcome,
                ) && preview_answer(asset@, outcome, made),
    {
        match asset.raw_key {
            Some(raw_key) => {
                let archive = match self.find_raw_archive(asset.prefix.as_str()) {
                    Ok(archive) => archive,
                    Err(error) => {
                        let answer = Err(error);
                        assert(preview_outcome(
                            self.spec_loaded(),
                            self.spec_loaded_raw(),
                            asset@,
                            max_width,
                            max_height,
                            max_output_size,
                            ImageOutcome::NotLoaded,
                        ));
                        assert(preview_answer(asset@, ImageOutcome::NotLoaded, answer));
                        return answer;
                    },
                };
                let extracted = archive.extract_thumbnail_png(
                    raw_key,
                    MAX_IMAGE_DECODE_SIZE,
                    max_width,
                    max_height,
                    max_output_size,
                );
                let ghost result = extracted;
                let answer = match extracted {
                    Ok(extracted) => Ok(
                        MadePreview {
                            block_index: asset.canonical_block,
                            source_width: extracted.source_width,
                            source_height: extracted.source_height,
                            width: extracted.width,
                            height: extracted.height,
                            png: extracted.png,
                        },
                    ),
                    Err(source) => Err(
                        ViewerSessionError::Extract {
                            prefix: asset.prefix.clone(),
                            block_index: asset.canonical_block,
                            source,
                        },
                    ),
                };
                proof {
                    let outcome = match result {
                        Ok(e) => ImageOutcome::Made(
                            PreviewView {
                                block_index: asset.canonical_block,
                                source_width: e.source_width,
                                source_height: e.source_height,
                                width: e.width,
                                height: e.height,
                                png: e.png@,
                            },
                        ),
                        Err(error) => ImageOutcome::Failed(error),
                    };
                    assert(archive.extract_thumbnail_png_result(
                        asset@.raw_key->0,
                        MAX_IMAGE_DECODE_SIZE,
                        max_width,
                        max_height,
                        max_output_size,
                        result,
                    ));
                    assert(raw_preview_outcome(*archive, asset@, max_width, max_height, max_output_size, outcome));
                    assert(preview_outcome(
                        self.spec_loaded(),
                        self.spec_loaded_raw(),
                        asset@,
                        max_width,
                        max_height,
                        max_output_size,
                        outcome,
                    ));
                    assert(preview_answer(asset@, outcome, answer));
                }
                answer
            },
            None => {
                let archive = match self.find_archive(asset.prefix.as_str()) {
                    Ok(archive) => archive,
                    Err(error) => {
                        let answer = Err(error);
                        assert(preview_outcome(
                            self.spec_loaded(),
                            self.spec_loaded_raw(),
                            asset@,
                            max_width,
                            max_height,
                            max_output_size,
                            ImageOutcome::NotLoaded,
                        ));
                        assert(preview_answer(asset@, ImageOutcome::NotLoaded, answer));
                        return answer;
                    },
                };
                if asset.assembled {
                    let extracted = archive.extract_verified_assembly_thumbnail(
                        asset.canonical_block,
                        MAX_IMAGE_DECODE_SIZE,
                        MAX_ASSEMBLED_DECODE_SIZE,
                        max_width,
                        max_height,
                        max_output_size,
                    );
                    let ghost result = extracted;
                    let answer = match extracted {
                        Ok(Some(extracted)) => Ok(
                            MadePreview {
                                block_index: extracted.first_block,
                                source_width: extracted.source_width,
                                source_height: extracted.source_height,
                                width: extracted.width,
                                height: extracted.height,
                                png: extracted.png,
                            },
                        ),
                        Ok(None) => Err(
                            ViewerSessionError::AssemblyRuleMissing {
                                prefix: asset.prefix.clone(),
                                block_index: asset.canonical_block,
                            },
                        ),
                        Err(source) => Err(
                            ViewerSessionError::Extract {
                                prefix: asset.prefix.clone(),
                                block_index: asset.canonical_block,
                                source,
                            },
                        ),
                    };
                    proof {
                        let outcome = match result {
                            Ok(Some(e)) => ImageOutcome::Made(
                                PreviewView {
                                    block_index: e.first_block,
                                    source_width: e.source_width,
                                    source_height: e.source_height,
                                    width: e.width,
                                    height: e.height,
                                    png: e.png@,
                                },
                            ),
                            Ok(None) => ImageOutcome::RuleMissing,
                            Err(error) => ImageOutcome::Failed(error),
                        };
                        assert(archive.extract_verified_assembly_thumbnail_result(
                            asset@.canonical_block,
                            MAX_IMAGE_DECODE_SIZE,
                            MAX_ASSEMBLED_DECODE_SIZE,
                            max_width,
                            max_height,
                            max_output_size,
                            result,
                        ));
                        assert(indexed_preview_outcome(
                            *archive,
                            asset@,
                            max_width,
                            max_height,
                            max_output_size,
                            outcome,
                        ));
                        assert(preview_outcome(
                            self.spec_loaded(),
                            self.spec_loaded_raw(),
                            asset@,
                            max_width,
                            max_height,
                            max_output_size,
                            outcome,
                        ));
                        assert(preview_answer(asset@, outcome, answer));
                    }
                    answer
                } else {
                    let extracted = archive.extract_thumbnail_png(
                        asset.key,
                        MAX_IMAGE_DECODE_SIZE,
                        max_width,
                        max_height,
                        max_output_size,
                    );
                    let ghost result = extracted;
                    let answer = match extracted {
                        Ok(extracted) => Ok(
                            MadePreview {
                                block_index: asset.canonical_block,
                                source_width: extracted.source_width,
                                source_height: extracted.source_height,
                                width: extracted.width,
                                height: extracted.height,
                                png: extracted.png,
                            },
                        ),
                        Err(source) => Err(
                            ViewerSessionError::Extract {
                                prefix: asset.prefix.clone(),
                                block_index: asset.canonical_block,
                                source,
                            },
                        ),
                    };
                    proof {
                        let outcome = match result {
                            Ok(e) => ImageOutcome::Made(
                                PreviewView {
                                    block_index: asset.canonical_block,
                                    source_width: e.source_width,
                                    source_height: e.source_height,
                                    width: e.width,
                                    height: e.height,
                                    png: e.png@,
                                },
                            ),
                            Err(error) => ImageOutcome::Failed(error),
                        };
                        assert(archive.extract_thumbnail_png_result(
                            asset@.key,
                            MAX_IMAGE_DECODE_SIZE,
                            max_width,
                            max_height,
                            max_output_size,
                            result,
                        ));
                        assert(indexed_preview_outcome(
                            *archive,
                            asset@,
                            max_width,
                            max_height,
                            max_output_size,
                            outcome,
                        ));
                        assert(preview_outcome(
                            self.spec_loaded(),
                            self.spec_loaded_raw(),
                            asset@,
                            max_width,
                            max_height,
                            max_output_size,
                            outcome,
                        ));
                        assert(preview_answer(asset@, outcome, answer));
                    }
                    answer
                }
            },
        }
    }

    /// Makes the thumbnail of one asset from its archive.
    fn make_thumbnail(&self, asset: &VerifiedAssetRef) -> (thumbnail: Result<VerifiedAssetThumbnail, ViewerSessionError>)
        requires
            asset_is_consistent(asset@),
        ensures
            thumbnail matches Ok(t) ==> thumbnail_fits_key(t@, asset_cache_key(asset@)),
            exists|outcome: ImageOutcome<PreviewView>|
                #[trigger] preview_outcome(
                    self.spec_loaded(),
                    self.spec_loaded_raw(),
                    asset@,
                    THUMBNAIL_MAX_WIDTH,
                    THUMBNAIL_MAX_HEIGHT,
                    MAX_THUMBNAIL_DECODE_SIZE,
                    outcome,
                ) && thumbnail_answer(asset@, outcome, thumbnail),
    {
        let made = self.asset_preview(asset, THUMBNAIL_MAX_WIDTH, THUMBNAIL_MAX_HEIGHT, MAX_THUMBNAIL_DECODE_SIZE);
        let ghost made_result = made;
        match made {
            Ok(preview) => {
                let icon_id = if asset.raw_key.is_some() {
                    None
                } else {
                    Some(asset.key.icon_id)
                };
                let thumbnail = VerifiedAssetThumbnail {
                    archive: asset.prefix.clone(),
                    icon_id,
                    block_index: preview.block_index,
                    source_width: preview.source_width,
                    source_height: preview.source_height,
                    thumbnail_width: preview.width,
                    thumbnail_height: preview.height,
                    assembled: asset.assembled,
                    thumbnail_data_url: png_data_url(preview.png.as_slice()),
                };
                Ok(thumbnail)
            },
            Err(error) => Err(error),
        }
    }

    /// The thumbnail of one asset: the cached one when there is one, otherwise a new one that
    /// is then cached.
    fn asset_thumbnail(&mut self, asset: &VerifiedAssetRef) -> (thumbnail: Result<VerifiedAssetThumbnail, ViewerSessionError>)
        requires
            old(self).wf(),
            asset_is_consistent(asset@),
        ensures
            final(self).wf(),
            final(self).spec_directory() == old(self).spec_directory(),
            final(self).spec_archives() == old(self).spec_archives(),
            final(self).spec_raw_archives() == old(self).spec_raw_archives(),
            final(self).spec_loaded() == old(self).spec_loaded(),
            final(self).spec_loaded_raw() == old(self).spec_loaded_raw(),
            final(self).spec_cache_limits() == old(self).spec_cache_limits(),
            thumbnail matches Ok(t) ==> thumbnail_fits_key(t@, asset_cache_key(asset@)),
            match cache_lookup(old(self).spec_cache(), asset_cache_key(asset@)) {
                Some(t) => thumbnail matches Ok(found) && found@ == t && final(self).spec_cache()
                    == cache_after_get(old(self).spec_cache(), asset_cache_key(asset@)),
                None => match thumbnail {
                    Ok(made) => final(self).spec_cache() == cache_after_insert(
                        old(self).spec_cache(),
                        old(self).spec_cache_limits().0,
                        old(self).spec_cache_limits().1,
                        asset_cache_key(asset@),
                        made@,
                    ),
                    Err(_) => final(self).spec_cache() == old(self).spec_cache(),
                },
            },
            forall|e: (KeyView, ThumbnailView)|
                #[trigger] final(self).spec_cache().contains(e) ==> old(self).spec_cache().contains(e) || (e.0
                    == asset_cache_key(asset@) && thumbnail_made_for(
                    old(self).spec_loaded(),
                    old(self).spec_loaded_raw(),
                    asset@,
                    e.1,
                )),
            match thumbnail {
                Ok(t) => old(self).spec_cache().contains((asset_cache_key(asset@), t@)) || thumbnail_made_for(
                    old(self).spec_loaded(),
                    old(self).spec_loaded_raw(),
                    asset@,
                    t@,
                ),
                Err(e) => thumbnail_failed(old(self).spec_loaded(), old(self).spec_loaded_raw(), asset@, e),
            },
    {
        let cache_key = asset.cache_key();
        proof {
            lemma_lookup_fits(self.spec_cache(), cache_key@);
            lemma_lookup_is_entry(self.spec_cache(), cache_key@);
            lemma_get_keeps_entries(self.spec_cache(), cache_key@);
        }
        match self.cached_thumbnail(&cache_key) {
            Some(found) => {
                return Ok(found);
            },
            None => {},
        }
        assert(self.spec_cache() == old(self).spec_cache());
        let made = self.make_thumbnail(asset);
        let ghost made_result = made;
        proof {
            let outcome = choose|outcome: ImageOutcome<PreviewView>|
                #[trigger] preview_outcome(
                    self.spec_loaded(),
                    self.spec_loaded_raw(),
                    asset@,
                    THUMBNAIL_MAX_WIDTH,
                    THUMBNAIL_MAX_HEIGHT,
                    MAX_THUMBNAIL_DECODE_SIZE,
                    outcome,
                ) && thumbnail_answer(asset@, outcome, made_result);
            match outcome {
                ImageOutcome::Made(v) => {
                    assert(thumbnail_made_for(self.spec_loaded(), self.spec_loaded_raw(), asset@, made_result->Ok_0@));
                },
                _ => {
                    assert(thumbnail_failed(self.spec_loaded(), self.spec_loaded_raw(), asset@, made_result->Err_0));
                },
            }
        }
        let made = match made {
            Ok(made) => made,
            Err(error) => {
                return Err(error);
            },
        };
        let ghost cache_before = self.spec_cache();
        let ghost limits = self.spec_cache_limits();
        self.cache_thumbnail(cache_key, made.clone());
        proof {
            lemma_insert_keeps_entries(cache_before, limits.0, limits.1, cache_key@, made@);
        }
        Ok(made)
    }

    /// One page of a category's thumbnails, `page_size` of them from `offset` on.
    #[verifier::loop_isolation(false)]
    #[verifier::spinoff_prover]
    #[verifier::rlimit(40)]
    pub fn category_page(&mut self, path: &[String], offset: usize, page_size: usize) -> (page: Result<
        VerifiedCategoryPage,
        ViewerSessionError,
    >)
        requires
            old(self).wf(),
        ensures
            final(self).wf(),
            final(self).spec_directory() == old(self).spec_directory(),
            final(self).spec_archives() == old(self).spec_archives(),
            final(self).spec_raw_archives() == old(self).spec_raw_archives(),
            final(self).spec_loaded() == old(self).spec_loaded(),
            final(self).spec_loaded_raw() == old(self).spec_loaded_raw(),
            final(self).spec_cache_limits() == old(self).spec_cache_limits(),
            path@.len() == 0 ==> page matches Err(ViewerSessionError::EmptyCategoryPath),
            path@.len() > 0 && !(1 <= page_size <= VIEWER_CATEGORY_PAGE_SIZE) ==> (page matches Err(
                ViewerSessionError::InvalidPageSize { requested, maximum },
            ) && requested == page_size && maximum == VIEWER_CATEGORY_PAGE_SIZE),
            path@.len() > 0 && 1 <= page_size <= VIEWER_CATEGORY_PAGE_SIZE && old(self).spec_directory()
                is None ==> page matches Err(ViewerSessionError::ResourceDirectoryNotSelected),
            path@.len() > 0 && 1 <= page_size <= VIEWER_CATEGORY_PAGE_SIZE && old(self).spec_directory()
                is Some ==> {
                let assets = session_assets(
                    old(self).spec_archives(),
                    old(self).spec_raw_archives(),
                    path_texts(path@),
                );
                if assets.len() == 0 {
                    page matches Err(ViewerSessionError::CategoryNotFound { path: p }) && path_texts(p@)
                        == path_texts(path@)
                } else if offset >= assets.len() {
                    page matches Err(ViewerSessionError::OffsetOutOfRange { offset: o, total_count: t })
                        && o == offset && t == assets.len()
                } else {
                    let shown = assets.subrange(offset as int, page_end(assets.len(), offset as nat, page_size as nat) as int);
                    match page {
                        Ok(p) => {
                            &&& path_texts(p.path@) == path_texts(path@)
                            &&& p.offset == offset
                            &&& p.page_size == page_size
                            &&& p.total_count == assets.len()
                            &&& p.items@.len() == shown.len()
                            &&& forall|i: int|
                                0 <= i < p.items@.len() ==> #[trigger] thumbnail_fits_key(
                                    p.items@[i]@,
                                    asset_cache_key(assets[offset + i]),
                                ) && thumbnail_served(
                                    old(self).spec_loaded(),
                                    old(self).spec_loaded_raw(),
                                    old(self).spec_cache(),
                                    shown,
                                    i,
                                    p.items@[i]@,
                                )
                        },
                        Err(e) => exists|j: int|
                            0 <= j < shown.len() && #[trigger] thumbnail_failed(
                                old(self).spec_loaded(),
                                old(self).spec_loaded_raw(),
                                shown[j],
                                e,
                            ),
                    }
                }
            },
    {
        if path.len() == 0 {
            return Err(ViewerSessionError::EmptyCategoryPath);
        }
        if page_size < 1 || page_size > VIEWER_CATEGORY_PAGE_SIZE {
            return Err(
                ViewerSessionError::InvalidPageSize { requested: page_size, maximum: VIEWER_CATEGORY_PAGE_SIZE },
            );
        }
        let assets = self.verified_assets(path)?;
        let total_count = assets.len();
        if total_count == 0 {
            return Err(ViewerSessionError::CategoryNotFound { path: clone_path(path) });
        }
        if offset >= total_count {
            return Err(ViewerSessionError::OffsetOutOfRange { offset, total_count });
        }
        let end = if total_count - offset > page_size {
            offset + page_size
        } else {
            total_count
        };
        let ghost expected = asset_views(assets@);
        let mut items: Vec<VerifiedAssetThumbnail> = Vec::new();
        let mut index: usize = offset;
        while index < end
            invariant
                offset <= index <= end,
                end <= assets@.len(),
                expected == asset_views(assets@),
                items@.len() == index - offset,
                forall|i: int|
                    0 <= i < items@.len() ==> #[trigger] thumbnail_fits_key(
                        items@[i]@,
                        asset_cache_key(expected[offset + i]),
                    ) && thumbnail_served(
                        old(self).spec_loaded(),
                        old(self).spec_loaded_raw(),
                        old(self).spec_cache(),
                        expected.subrange(offset as int, index as int),
                        i,
                        items@[i]@,
                    ),
                cache_from(
                    old(self).spec_loaded(),
                    old(self).spec_loaded_raw(),
                    old(self).spec_cache(),
                    expected.subrange(offset as int, index as int),
                    self.spec_cache(),
                ),
                self.wf(),
                self.spec_directory() == old(self).spec_directory(),
                self.spec_archives() == old(self).spec_archives(),
                self.spec_raw_archives() == old(self).spec_raw_archives(),
                self.spec_loaded() == old(self).spec_loaded(),
                self.spec_loaded_raw() == old(self).spec_loaded_raw(),
                self.spec_cache_limits() == old(self).spec_cache_limits(),
            decreases end - index,
        {
            proof {
                lemma_session_assets_consistent(old(self).spec_archives(), old(self).spec_raw_archives(), path_texts(path@));
                assert(expected[index as int] == assets@[index as int]@);
                assert(asset_is_consistent(expected[index as int]));
            }
            let ghost cache_before = self.spec_cache();
            let ghost made = expected.subrange(offset as int, index as int);
            let ghost items_before = items@;
            let thumbnail = self.asset_thumbnail(&assets[index]);
            let thumbnail = match thumbnail {
                Ok(thumbnail) => thumbnail,
                Err(error) => {
                    proof {
                        let shown = expected.subrange(offset as int, end as int);
                        assert(end == page_end(expected.len(), offset as nat, page_size as nat));
                        assert(shown[index - offset] == expected[index as int]);
                        assert(thumbnail_failed(
                            old(self).spec_loaded(),
                            old(self).spec_loaded_raw(),
                            shown[index - offset],
                            error,
                        ));
                    }
                    return Err(error);
                },
            };
            proof {
                let next = expected[index as int];
                assert(expected.subrange(offset as int, index + 1) =~= made.push(next));
                lemma_serve_step(
                    old(self).spec_loaded(),
                    old(self).spec_loaded_raw(),
                    old(self).spec_cache(),
                    made,
                    cache_before,
                    self.spec_cache(),
                    next,
                );
                lemma_served_item(
                    old(self).spec_loaded(),
                    old(self).spec_loaded_raw(),
                    old(self).spec_cache(),
                    made,
                    cache_before,
                    next,
                    thumbnail@,
                );
                assert forall|i: int| 0 <= i < items_before.len() implies thumbnail_served(
                    old(self).spec_loaded(),
                    old(self).spec_loaded_raw(),
                    old(self).spec_cache(),
                    made.push(next),
                    i,
                    items_before[i]@,
                ) by {
                    assert(thumbnail_fits_key(items_before[i]@, asset_cache_key(expected[offset + i])));
                    lemma_served_extend(
                        old(self).spec_loaded(),
                        old(self).spec_loaded_raw(),
                        old(self).spec_cache(),
                        made,
                        i,
                        items_before[i]@,
                        next,
                    );
                }
            }
            items.push(thumbnail);
            index += 1;
        }
        proof {
            assert(expected.subrange(offset as int, index as int) =~= expected.subrange(offset as int, end as int));
            assert(end == page_end(expected.len(), offset as nat, page_size as nat));
            assert(expected == session_assets(
                old(self).spec_archives(),
                old(self).spec_raw_archives(),
                path_texts(path@),
            ));
            assert forall|i: int| 0 <= i < items@.len() implies #[trigger] thumbnail_fits_key(
                items@[i]@,
                asset_cache_key(expected[offset + i]),
            ) && thumbnail_served(
                old(self).spec_loaded(),
                old(self).spec_loaded_raw(),
                old(self).spec_cache(),
                expected.subrange(offset as int, end as int),
                i,
                items@[i]@,
            ) by {
                assert(thumbnail_fits_key(items@[i]@, asset_cache_key(expected[offset + i])));
            }
        }
        Ok(
            VerifiedCategoryPage {
                path: clone_path(path),
                offset,
                page_size,
                total_count,
                items,
            },
        )
    }
}


/// The first listed asset of archive `prefix` shown under block `block_index`.
pub open spec fn first_asset_at(assets: Seq<AssetRefView>, prefix: Seq<char>, block_index: u32) -> Option<AssetRefView>
    decreases assets.len(),
{
    if assets.len() == 0 {
        None
    } else if assets[0].prefix == prefix && assets[0].canonical_block == block_index {
        Some(assets[0])
    } else {
        first_asset_at(assets.drop_first(), prefix, block_index)
    }
}

/// The first loaded indexed archive named `prefix`.
pub open spec fn first_loaded(archives: Seq<LoadedArchive>, prefix: Seq<char>) -> Option<LoadedArchive>
    decreases archives.len(),
{
    if archives.len() == 0 {
        None
    } else if archives[0].spec_prefix() == prefix {
        Some(archives[0])
    } else {
        first_loaded(archives.drop_first(), prefix)
    }
}

/// The first loaded raw archive named `prefix`.
pub open spec fn first_loaded_raw(archives: Seq<LoadedRawImageArchive>, prefix: Seq<char>) -> Option<
    LoadedRawImageArchive,
>
    decreases archives.len(),
{
    if archives.len() == 0 {
        None
    } else if archives[0].spec_prefix() == prefix {
        Some(archives[0])
    } else {
        first_loaded_raw(archives.drop_first(), prefix)
    }
}

pub(crate) proof fn lemma_first_loaded_at(archives: Seq<LoadedArchive>, prefix: Seq<char>, i: int)
    requires
        0 <= i < archives.len(),
        archives[i].spec_prefix() == prefix,
        forall|k: int| 0 <= k < i ==> (#[trigger] archives[k]).spec_prefix() != prefix,
    ensures
        first_loaded(archives, prefix) == Some(archives[i]),
    decreases i,
{
    if i > 0 {
        let rest = archives.drop_first();
        assert forall|k: int| 0 <= k < i - 1 implies (#[trigger] rest[k]).spec_prefix() != prefix by {
            assert(rest[k] == archives[k + 1]);
        }
        lemma_first_loaded_at(rest, prefix, i - 1);
    }
}

pub(crate) proof fn lemma_first_loaded_none(archives: Seq<LoadedArchive>, prefix: Seq<char>)
    requires
        forall|k: int| 0 <= k < archives.len() ==> (#[trigger] archives[k]).spec_prefix() != prefix,
    ensures
        first_loaded(archives, prefix) is None,
    decreases archives.len(),
{
    if archives.len() > 0 {
        let rest = archives.drop_first();
        assert forall|k: int| 0 <= k < rest.len() implies (#[trigger] rest[k]).spec_prefix() != prefix by {
            assert(rest[k] == archives[k + 1]);
        }
        lemma_first_loaded_none(rest, prefix);
    }
}

proof fn lemma_first_loaded_raw_at(archives: Seq<LoadedRawImageArchive>, prefix: Seq<char>, i: int)
    requires
        0 <= i < archives.len(),
        archives[i].spec_prefix() == prefix,
        forall|k: int| 0 <= k < i ==> (#[trigger] archives[k]).spec_prefix() != prefix,
    ensures
        first_loaded_raw(archives, prefix) == Some(archives[i]),
    decreases i,
{
    if i > 0 {
        let rest = archives.drop_first();
        assert forall|k: int| 0 <= k < i - 1 implies (#[trigger] rest[k]).spec_prefix() != prefix by {
            assert(rest[k] == archives[k + 1]);
        }
        lemma_first_loaded_raw_at(rest, prefix, i - 1);
    }
}

proof fn lemma_first_loaded_raw_none(archives: Seq<LoadedRawImageArchive>, prefix: Seq<char>)
    requires
        forall|k: int| 0 <= k < archives.len() ==> (#[trigger] archives[k]).spec_prefix() != prefix,
    ensures
        first_loaded_raw(archives, prefix) is None,
    decreases archives.len(),
{
    if archives.len() > 0 {
        let rest = archives.drop_first();
        assert forall|k: int| 0 <= k < rest.len() implies (#[trigger] rest[k]).spec_prefix() != prefix by {
            assert(rest[k] == archives[k + 1]);
        }
        lemma_first_loaded_raw_none(rest, prefix);
    }
}

/// How asking the archives for an image of an asset ends: with the image, because its archive
/// is not loaded, because no verified rule joins it, or with the archive's error.
pub enum ImageOutcome<T> {
    Made(T),
    NotLoaded,
    RuleMissing,
    Failed(ExtractError),
}

/// A decoded image as PNG bytes, with the block it starts at and its size.
pub struct PngView {
    pub block_index: u32,
    pub width: u32,
    pub height: u32,
    pub png: Seq<u8>,
}

/// A bounded preview as PNG bytes, with the block it starts at, the source size and its own.
pub struct PreviewView {
    pub block_index: u32,
    pub source_width: u32,
    pub source_height: u32,
    pub width: u32,
    pub height: u32,
    pub png: Seq<u8>,
}

/// The full-size image that raw archive `a` gives for the raw block of `asset`.
pub open spec fn raw_png_outcome(a: LoadedRawImageArchive, asset: AssetRefView, outcome: ImageOutcome<PngView>) -> bool {
    exists|r: Result<ExtractedResource, ExtractError>|
        #[trigger] a.extract_png_result(asset.raw_key->0, MAX_IMAGE_DECODE_SIZE, r) && outcome == match r {
            Ok(e) => ImageOutcome::Made(
                PngView { block_index: asset.canonical_block, width: e.width, height: e.height, png: e.png@ },
            ),
            Err(error) => ImageOutcome::Failed(error),
        }
}

/// The full-size image that indexed archive `a` gives for `asset`: its verified joined image,
/// or its one record.
pub open spec fn indexed_png_outcome(a: LoadedArchive, asset: AssetRefView, outcome: ImageOutcome<PngView>) -> bool {
    if asset.assembled {
        exists|r: Result<Option<ExtractedAssembly>, ExtractError>|
            #[trigger] a.extract_verified_assembly_result(
                asset.canonical_block,
                MAX_IMAGE_DECODE_SIZE,
                MAX_ASSEMBLED_DECODE_SIZE,
                r,
            ) && outcome == match r {
                Ok(Some(e)) => ImageOutcome::Made(
                    PngView { block_index: e.first_block, width: e.width, height: e.height, png: e.png@ },
                ),
                Ok(None) => ImageOutcome::RuleMissing,
                Err(error) => ImageOutcome::Failed(error),
            }
    } else {
        exists|r: Result<ExtractedResource, ExtractError>|
            #[trigger] a.extract_png_result(asset.key, MAX_IMAGE_DECODE_SIZE, r) && outcome == match r {
                Ok(e) => ImageOutcome::Made(
                    PngView { block_index: asset.canonical_block, width: e.width, height: e.height, png: e.png@ },
                ),
                Err(error) => ImageOutcome::Failed(error),
            }
    }
}

/// The full-size image that the loaded archives give for `asset`, decoded under the image
/// limits: from the first archive named like it.
pub open spec fn png_outcome(
    loaded: Seq<LoadedArchive>,
    loaded_raw: Seq<LoadedRawImageArchive>,
    asset: AssetRefView,
    outcome: ImageOutcome<PngView>,
) -> bool {
    if asset.raw_key is Some {
        match first_loaded_raw(loaded_raw, asset.prefix) {
            None => outcome == ImageOutcome::<PngView>::NotLoaded,
            Some(a) => raw_png_outcome(a, asset, outcome),
        }
    } else {
        match first_loaded(loaded, asset.prefix) {
            None => outcome == ImageOutcome::<PngView>::NotLoaded,
            Some(a) => indexed_png_outcome(a, asset, outcome),
        }
    }
}

/// The preview within `max_width` x `max_height`, encoded from at most `max_output_size`
/// bytes, that raw archive `a` gives for the raw block of `asset`.
pub open spec fn raw_preview_outcome(
    a: LoadedRawImageArchive,
    asset: AssetRefView,
    max_width: u32,
    max_height: u32,
    max_output_size: usize,
    outcome: ImageOutcome<PreviewView>,
) -> bool {
    exists|r: Result<ExtractedThumbnail, ExtractError>|
        #[trigger] a.extract_thumbnail_png_result(
            asset.raw_key->0,
            MAX_IMAGE_DECODE_SIZE,
            max_width,
            max_height,
            max_output_size,
            r,
        ) && outcome == match r {
            Ok(e) => ImageOutcome::Made(
                PreviewView {
                    block_index: asset.canonical_block,
                    source_width: e.source_width,
                    source_height: e.source_height,
                    width: e.width,
                    height: e.height,
                    png: e.png@,
                },
            ),
            Err(error) => ImageOutcome::Failed(error),
        }
}

/// The preview within `max_width` x `max_height`, encoded from at most `max_output_size`
/// bytes, that indexed archive `a` gives for `asset`.
pub open spec fn indexed_preview_outcome(
    a: LoadedArchive,
    asset: AssetRefView,
    max_width: u32,
    max_height: u32,
    max_output_size: usize,
    outcome: ImageOutcome<PreviewView>,
) -> bool {
    if asset.assembled {
        exists|r: Result<Option<ExtractedAssemblyThumbnail>, ExtractError>|
            #[trigger] a.extract_verified_assembly_thumbnail_result(
                asset.canonical_block,
                MAX_IMAGE_DECODE_SIZE,
                MAX_ASSEMBLED_DECODE_SIZE,
                max_width,
                max_height,
                max_output_size,
                r,
            ) && outcome == match r {
                Ok(Some(e)) => ImageOutcome::Made(
                    PreviewView {
                        block_index: e.first_block,
                        source_width: e.source_width,
                        source_height: e.source_height,
                        width: e.width,
                        height: e.height,
                        png: e.png@,
                    },
                ),
                Ok(None) => ImageOutcome::RuleMissing,
                Err(error) => ImageOutcome::Failed(error),
            }
    } else {
        exists|r: Result<ExtractedThumbnail, ExtractError>|
            #[trigger] a.extract_thumbnail_png_result(
                asset.key,
                MAX_IMAGE_DECODE_SIZE,
                max_width,
                max_height,
                max_output_size,
                r,
            ) && outcome == match r {
                Ok(e) => ImageOutcome::Made(
                    PreviewView {
                        block_index: asset.canonical_block,
                        source_width: e.source_width,
                        source_height: e.source_height,
                        width: e.width,
                        height: e.height,
                        png: e.png@,
                    },
                ),
                Err(error) => ImageOutcome::Failed(error),
            }
    }
}

/// The preview that the loaded archives give for `asset`, from the first archive named like
/// it.
pub open spec fn preview_outcome(
    loaded: Seq<LoadedArchive>,
    loaded_raw: Seq<LoadedRawImageArchive>,
    asset: AssetRefView,
    max_width: u32,
    max_height: u32,
    max_output_size: usize,
    outcome: ImageOutcome<PreviewView>,
) -> bool {
    if asset.raw_key is Some {
        match first_loaded_raw(loaded_raw, asset.prefix) {
            None => outcome == ImageOutcome::<PreviewView>::NotLoaded,
            Some(a) => raw_preview_outcome(a, asset, max_width, max_height, max_output_size, outcome),
        }
    } else {
        match first_loaded(loaded, asset.prefix) {
            None => outcome == ImageOutcome::<PreviewView>::NotLoaded,
            Some(a) => indexed_preview_outcome(a, asset, max_width, max_height, max_output_size, outcome),
        }
    }
}

/// The session error that reports an outcome without an image for `asset`.
pub open spec fn reports_failure<T>(asset: AssetRefView, outcome: ImageOutcome<T>, error: ViewerSessionError) -> bool {
    match outcome {
        ImageOutcome::Made(_) => false,
        ImageOutcome::NotLoaded => error matches ViewerSessionError::ArchiveNotLoaded { prefix } && prefix@
            == asset.prefix,
        ImageOutcome::RuleMissing => error matches ViewerSessionError::AssemblyRuleMissing { prefix, block_index }
            && prefix@ == asset.prefix && block_index == asset.canonical_block,
        ImageOutcome::Failed(source) => error matches ViewerSessionError::Extract {
            prefix: p,
            block_index: b,
            source: s,
        } && p@ == asset.prefix && b == asset.canonical_block && s == source,
    }
}

/// The answer a full-size request gives for `asset` when the archives end with `outcome`.
pub open spec fn png_answer(
    asset: AssetRefView,
    outcome: ImageOutcome<PngView>,
    png: Result<VerifiedAssetPng, ViewerSessionError>,
) -> bool {
    match outcome {
        ImageOutcome::Made(v) => png matches Ok(p) && p.archive@ == asset.prefix && p.icon_id == shown_icon_id(
            asset,
        ) && p.block_index == v.block_index && p.width == v.width && p.height == v.height && p.assembled
            == asset.assembled && p.png@ == v.png,
        _ => png matches Err(e) && reports_failure(asset, outcome, e),
    }
}

/// A bounded preview decoded from an archive.
struct MadePreview {
    block_index: u32,
    source_width: u32,
    source_height: u32,
    width: u32,
    height: u32,
    png: Vec<u8>,
}

/// Whether `made` reports `outcome` for `asset`.
spec fn preview_answer(
    asset: AssetRefView,
    outcome: ImageOutcome<PreviewView>,
    made: Result<MadePreview, ViewerSessionError>,
) -> bool {
    match outcome {
        ImageOutcome::Made(v) => made matches Ok(m) && m.block_index == v.block_index && m.source_width
            == v.source_width && m.source_height == v.source_height && m.width == v.width && m.height
            == v.height && m.png@ == v.png,
        _ => made matches Err(e) && reports_failure(asset, outcome, e),
    }
}

/// The answer a thumbnail request gives for `asset` when the archives end with `outcome`: the
/// preview as a `data:` URL.
pub open spec fn thumbnail_answer(
    asset: AssetRefView,
    outcome: ImageOutcome<PreviewView>,
    thumbnail: Result<VerifiedAssetThumbnail, ViewerSessionError>,
) -> bool {
    match outcome {
        ImageOutcome::Made(v) => thumbnail matches Ok(t) && thumbnail_made_as(asset, v, t@),
        _ => thumbnail matches Err(e) && reports_failure(asset, outcome, e),
    }
}

/// Whether thumbnail `t` shows preview `v` of `asset`, as a `data:` URL.
pub open spec fn thumbnail_made_as(asset: AssetRefView, v: PreviewView, t: ThumbnailView) -> bool {
    &&& t.archive == asset.prefix
    &&& t.icon_id == shown_icon_id(asset)
    &&& t.block_index == v.block_index
    &&& t.source_width == v.source_width
    &&& t.source_height == v.source_height
    &&& t.thumbnail_width == v.width
    &&& t.thumbnail_height == v.height
    &&& t.assembled == asset.assembled
    &&& t.thumbnail_data_url == "data:image/png;base64,"@ + base64_standard(v.png)
}

/// Whether `t` is the list thumbnail that the loaded archives give for `asset`.
pub open spec fn thumbnail_made_for(
    loaded: Seq<LoadedArchive>,
    loaded_raw: Seq<LoadedRawImageArchive>,
    asset: AssetRefView,
    t: ThumbnailView,
) -> bool {
    exists|v: PreviewView|
        #[trigger] preview_outcome(
            loaded,
            loaded_raw,
            asset,
            THUMBNAIL_MAX_WIDTH,
            THUMBNAIL_MAX_HEIGHT,
            MAX_THUMBNAIL_DECODE_SIZE,
            ImageOutcome::Made(v),
        ) && thumbnail_made_as(asset, v, t)
}

/// Whether `error` is how making the list thumbnail of `asset` from the loaded archives fails.
pub open spec fn thumbnail_failed(
    loaded: Seq<LoadedArchive>,
    loaded_raw: Seq<LoadedRawImageArchive>,
    asset: AssetRefView,
    error: ViewerSessionError,
) -> bool {
    exists|outcome: ImageOutcome<PreviewView>|
        #[trigger] preview_outcome(
            loaded,
            loaded_raw,
            asset,
            THUMBNAIL_MAX_WIDTH,
            THUMBNAIL_MAX_HEIGHT,
            MAX_THUMBNAIL_DECODE_SIZE,
            outcome,
        ) && reports_failure(asset, outcome, error)
}

/// Whether thumbnail `t`, served for `assets[i]`, was in the cache `base` under its key, or was
/// made from the loaded archives for one of `assets[..=i]` filed under the same key.
pub open spec fn thumbnail_served(
    loaded: Seq<LoadedArchive>,
    loaded_raw: Seq<LoadedRawImageArchive>,
    base: Seq<(KeyView, ThumbnailView)>,
    assets: Seq<AssetRefView>,
    i: int,
    t: ThumbnailView,
) -> bool {
    ||| base.contains((asset_cache_key(assets[i]), t))
    ||| exists|j: int|
        0 <= j <= i && asset_cache_key(assets[j]) == asset_cache_key(assets[i]) && #[trigger] thumbnail_made_for(
            loaded,
            loaded_raw,
            assets[j],
            t,
        )
}

/// Whether every thumbnail of `cache` was in `base`, or was made from the loaded archives for
/// one of `made` filed under its key.
pub open spec fn cache_from(
    loaded: Seq<LoadedArchive>,
    loaded_raw: Seq<LoadedRawImageArchive>,
    base: Seq<(KeyView, ThumbnailView)>,
    made: Seq<AssetRefView>,
    cache: Seq<(KeyView, ThumbnailView)>,
) -> bool {
    forall|e: (KeyView, ThumbnailView)|
        #[trigger] cache.contains(e) ==> base.contains(e) || exists|j: int|
            0 <= j < made.len() && asset_cache_key(made[j]) == e.0 && #[trigger] thumbnail_made_for(
                loaded,
                loaded_raw,
                made[j],
                e.1,
            )
}

proof fn lemma_serve_step(
    loaded: Seq<LoadedArchive>,
    loaded_raw: Seq<LoadedRawImageArchive>,
    base: Seq<(KeyView, ThumbnailView)>,
    made: Seq<AssetRefView>,
    before: Seq<(KeyView, ThumbnailView)>,
    after: Seq<(KeyView, ThumbnailView)>,
    asset: AssetRefView,
)
    requires
        cache_from(loaded, loaded_raw, base, made, before),
        forall|e: (KeyView, ThumbnailView)|
            #[trigger] after.contains(e) ==> before.contains(e) || (e.0 == asset_cache_key(asset)
                && thumbnail_made_for(loaded, loaded_raw, asset, e.1)),
    ensures
        cache_from(loaded, loaded_raw, base, made.push(asset), after),
{
    let longer = made.push(asset);
    assert forall|e: (KeyView, ThumbnailView)| #[trigger] after.contains(e) implies base.contains(e) || exists|j: int|
        0 <= j < longer.len() && asset_cache_key(longer[j]) == e.0 && #[trigger] thumbnail_made_for(
            loaded,
            loaded_raw,
            longer[j],
            e.1,
        ) by {
        if before.contains(e) {
            if !base.contains(e) {
                let j = choose|j: int|
                    0 <= j < made.len() && asset_cache_key(made[j]) == e.0 && #[trigger] thumbnail_made_for(
                        loaded,
                        loaded_raw,
                        made[j],
                        e.1,
                    );
                assert(longer[j] == made[j]);
            }
        } else {
            assert(longer[made.len() as int] == asset);
        }
    }
}

proof fn lemma_served_item(
    loaded: Seq<LoadedArchive>,
    loaded_raw: Seq<LoadedRawImageArchive>,
    base: Seq<(KeyView, ThumbnailView)>,
    made: Seq<AssetRefView>,
    before: Seq<(KeyView, ThumbnailView)>,
    asset: AssetRefView,
    t: ThumbnailView,
)
    requires
        cache_from(loaded, loaded_raw, base, made, before),
        before.contains((asset_cache_key(asset), t)) || thumbnail_made_for(loaded, loaded_raw, asset, t),
    ensures
        thumbnail_served(loaded, loaded_raw, base, made.push(asset), made.len() as int, t),
{
    let longer = made.push(asset);
    let i = made.len() as int;
    assert(longer[i] == asset);
    if before.contains((asset_cache_key(asset), t)) {
        let e = (asset_cache_key(asset), t);
        if !base.contains(e) {
            let j = choose|j: int|
                0 <= j < made.len() && asset_cache_key(made[j]) == e.0 && #[trigger] thumbnail_made_for(
                    loaded,
                    loaded_raw,
                    made[j],
                    e.1,
                );
            assert(longer[j] == made[j]);
        }
    }
}

proof fn lemma_served_extend(
    loaded: Seq<LoadedArchive>,
    loaded_raw: Seq<LoadedRawImageArchive>,
    base: Seq<(KeyView, ThumbnailView)>,
    assets: Seq<AssetRefView>,
    i: int,
    t: ThumbnailView,
    next: AssetRefView,
)
    requires
        0 <= i < assets.len(),
        thumbnail_served(loaded, loaded_raw, base, assets, i, t),
    ensures
        thumbnail_served(loaded, loaded_raw, base, assets.push(next), i, t),
{
    let longer = assets.push(next);
    assert(longer[i] == assets[i]);
    if !base.contains((asset_cache_key(assets[i]), t)) {
        let j = choose|j: int|
            0 <= j <= i && asset_cache_key(assets[j]) == asset_cache_key(assets[i]) && #[trigger] thumbnail_made_for(
                loaded,
                loaded_raw,
                assets[j],
                t,
            );
        assert(longer[j] == assets[j]);
    }
}

/// The answer a detail request under `path` gives for `asset` when the archives end with
/// `outcome`: the preview as a `data:` URL.
pub open spec fn detail_answer(
    asset: AssetRefView,
    path: Seq<Seq<char>>,
    outcome: ImageOutcome<PreviewView>,
    detail: Result<VerifiedAssetDetail, ViewerSessionError>,
) -> bool {
    match outcome {
        ImageOutcome::Made(v) => detail matches Ok(d) && path_texts(d.path@) == path && d.archive@ == asset.prefix
            && d.icon_id == shown_icon_id(asset) && d.block_index == v.block_index && d.source_width
            == v.source_width && d.source_height == v.source_height && d.preview_width == v.width
            && d.preview_height == v.height && d.assembled == asset.assembled && d.preview_data_url@
            == "data:image/png;base64,"@ + base64_standard(v.png),
        _ => detail matches Err(e) && reports_failure(asset, outcome, e),
    }
}

proof fn lemma_first_asset_at_is_listed(assets: Seq<AssetRefView>, prefix: Seq<char>, block_index: u32)
    ensures
        first_asset_at(assets, prefix, block_index) matches Some(a) ==> exists|i: int|
            0 <= i < assets.len() && #[trigger] assets[i] == a,
    decreases assets.len(),
{
    if assets.len() > 0 && !(assets[0].prefix == prefix && assets[0].canonical_block == block_index) {
        lemma_first_asset_at_is_listed(assets.drop_first(), prefix, block_index);
        if let Some(a) = first_asset_at(assets.drop_first(), prefix, block_index) {
            let i = choose|i: int| 0 <= i < assets.drop_first().len() && #[trigger] assets.drop_first()[i] == a;
            assert(assets[i + 1] == a);
        }
    } else if assets.len() > 0 {
        assert(assets[0] == assets[0]);
    }
}

impl ViewerSession {
    /// The listed asset of archive `prefix` (in any ASCII case) at block `block_index` under
    /// `path`.
    #[verifier::loop_isolation(false)]
    fn verified_asset(&self, path: &[String], prefix: &str, block_index: u32) -> (asset: Result<VerifiedAssetRef, ViewerSessionError>)
        ensures
            path@.len() == 0 ==> asset matches Err(ViewerSessionError::EmptyCategoryPath),
            path@.len() > 0 && self.spec_directory() is None ==> asset matches Err(
                ViewerSessionError::ResourceDirectoryNotSelected,
            ),
            path@.len() > 0 && self.spec_directory() is Some ==> match first_asset_at(
                session_assets(self.spec_archives(), self.spec_raw_archives(), path_texts(path@)),
                ascii_lower(prefix@),
                block_index,
            ) {
                Some(a) => asset matches Ok(found) && found@ == a,
                None => asset matches Err(ViewerSessionError::AssetNotFound { path: p, prefix: q, block_index: b })
                    && path_texts(p@) == path_texts(path@) && q@ == ascii_lower(prefix@) && b == block_index,
            },
            asset matches Ok(found) ==> asset_is_consistent(found@),
    {
        if path.len() == 0 {
            return Err(ViewerSessionError::EmptyCategoryPath);
        }
        let normalized = to_ascii_lowercase(prefix);
        let assets = self.verified_assets(path)?;
        let ghost listed = asset_views(assets@);
        proof {
            lemma_session_assets_consistent(self.spec_archives(), self.spec_raw_archives(), path_texts(path@));
            lemma_first_asset_at_is_listed(listed, normalized@, block_index);
        }
        let mut index: usize = 0;
        assert(listed.skip(0) =~= listed);
        while index < assets.len()
            invariant
                index <= assets@.len(),
                listed == asset_views(assets@),
                first_asset_at(listed, normalized@, block_index) == first_asset_at(
                    listed.skip(index as int),
                    normalized@,
                    block_index,
                ),
            decreases assets@.len() - index,
        {
            proof {
                assert(listed.skip(index as int)[0] == assets@[index as int]@);
                assert(listed.skip(index as int).drop_first() =~= listed.skip(index + 1));
            }
            if str_equal(assets[index].prefix.as_str(), normalized.as_str()) && assets[index].canonical_block
                == block_index {
                let found = assets[index].clone();
                return Ok(found);
            }
            index += 1;
        }
        Err(ViewerSessionError::AssetNotFound { path: clone_path(path), prefix: normalized, block_index })
    }

    /// Decodes one asset into a full-size PNG file.
    fn extract_asset_png(&self, asset: &VerifiedAssetRef) -> (png: Result<VerifiedAssetPng, ViewerSessionError>)
        requires
            asset_is_consistent(asset@),
        ensures
            exists|outcome: ImageOutcome<PngView>|
                #[trigger] png_outcome(self.spec_loaded(), self.spec_loaded_raw(), asset@, outcome) && png_answer(
                    asset@,
                    outcome,
                    png,
                ),
    {
        match asset.raw_key {
            Some(raw_key) => {
                let archive = match self.find_raw_archive(asset.prefix.as_str()) {
                    Ok(archive) => archive,
                    Err(error) => {
                        let answer = Err(error);
                        assert(png_outcome(self.spec_loaded(), self.spec_loaded_raw(), asset@, ImageOutcome::NotLoaded));
                        assert(png_answer(asset@, ImageOutcome::NotLoaded, answer));
                        return answer;
                    },
                };
                let extracted = archive.extract_png(raw_key, MAX_IMAGE_DECODE_SIZE);
                let ghost result = extracted;
                let answer = match extracted {
                    Ok(extracted) => Ok(
                        VerifiedAssetPng {
                            archive: asset.prefix.clone(),
                            icon_id: None,
                            block_index: asset.canonical_block,
                            width: extracted.width,
                            height: extracted.height,
                            assembled: false,
                            png: extracted.png,
                        },
                    ),
                    Err(source) => Err(
                        ViewerSessionError::Extract {
                            prefix: asset.prefix.clone(),
                            block_index: asset.canonical_block,
                            source,
                        },
                    ),
                };
                proof {
                    let outcome = match result {
                        Ok(e) => ImageOutcome::Made(
                            PngView { block_index: asset.canonical_block, width: e.width, height: e.height, png: e.png@ },
                        ),
                        Err(error) => ImageOutcome::Failed(error),
                    };
                    assert(archive.extract_png_result(raw_key, MAX_IMAGE_DECODE_SIZE, result));
                    assert(raw_png_outcome(*archive, asset@, outcome));
                    assert(png_outcome(self.spec_loaded(), self.spec_loaded_raw(), asset@, outcome));
                    assert(png_answer(asset@, outcome, answer));
                }
                answer
            },
            None => {
                let archive = match self.find_archive(asset.prefix.as_str()) {
                    Ok(archive) => archive,
                    Err(error) => {
                        let answer = Err(error);
                        assert(png_outcome(self.spec_loaded(), self.spec_loaded_raw(), asset@, ImageOutcome::NotLoaded));
                        assert(png_answer(asset@, ImageOutcome::NotLoaded, answer));
                        return answer;
                    },
                };
                if asset.assembled {
                    let extracted = archive.extract_verified_assembly(
                        asset.canonical_block,
                        MAX_IMAGE_DECODE_SIZE,
                        MAX_ASSEMBLED_DECODE_SIZE,
                    );
                    let ghost result = extracted;
                    let answer = match extracted {
                        Ok(Some(extracted)) => Ok(
                            VerifiedAssetPng {
                                archive: asset.prefix.clone(),
                                icon_id: Some(asset.key.icon_id),
                                block_index: extracted.first_block,
                                width: extracted.width,
                                height: extracted.height,
                                assembled: true,
                                png: extracted.png,
                            },
                        ),
                        Ok(None) => Err(
                            ViewerSessionError::AssemblyRuleMissing {
                                prefix: asset.prefix.clone(),
                                block_index: asset.canonical_block,
                            },
                        ),
                        Err(source) => Err(
                            ViewerSessionError::Extract {
                                prefix: asset.prefix.clone(),
                                block_index: asset.canonical_block,
                                source,
                            },
                        ),
                    };
                    proof {
                        let outcome = match result {
                            Ok(Some(e)) => ImageOutcome::Made(
                                PngView { block_index: e.first_block, width: e.width, height: e.height, png: e.png@ },
                            ),
                            Ok(None) => ImageOutcome::RuleMissing,
                            Err(error) => ImageOutcome::Failed(error),
                        };
                        assert(archive.extract_verified_assembly_result(
                            asset@.canonical_block,
                            MAX_IMAGE_DECODE_SIZE,
                            MAX_ASSEMBLED_DECODE_SIZE,
                            result,
                        ));
                        assert(indexed_png_outcome(*archive, asset@, outcome));
                        assert(png_outcome(self.spec_loaded(), self.spec_loaded_raw(), asset@, outcome));
                        assert(png_answer(asset@, outcome, answer));
                    }
                    answer
                } else {
                    let extracted = archive.extract_png(asset.key, MAX_IMAGE_DECODE_SIZE);
                    let ghost result = extracted;
                    let answer = match extracted {
                        Ok(extracted) => Ok(
                            VerifiedAssetPng {
                                archive: asset.prefix.clone(),
                                icon_id: Some(asset.key.icon_id),
                                block_index: asset.canonical_block,
                                width: extracted.width,
                                height: extracted.height,
                                assembled: false,
                                png: extracted.png,
                            },
                        ),
                        Err(source) => Err(
                            ViewerSessionError::Extract {
                                prefix: asset.prefix.clone(),
                                block_index: asset.canonical_block,
                                source,
                            },
                        ),
                    };
                    proof {
                        let outcome = match result {
                            Ok(e) => ImageOutcome::Made(
                                PngView {
                                    block_index: asset.canonical_block,
                                    width: e.width,
                                    height: e.height,
                                    png: e.png@,
                                },
                            ),
                            Err(error) => ImageOutcome::Failed(error),
                        };
                        assert(archive.extract_png_result(asset@.key, MAX_IMAGE_DECODE_SIZE, result));
                        assert(indexed_png_outcome(*archive, asset@, outcome));
                        assert(png_outcome(self.spec_loaded(), self.spec_loaded_raw(), asset@, outcome));
                        assert(png_answer(asset@, outcome, answer));
                    }
                    answer
                }
            },
        }
    }

    /// The full-size PNG of the listed asset of archive `prefix` at block `block_index`.
    pub fn asset_png(&self, path: &[String], prefix: &str, block_index: u32) -> (png: Result<VerifiedAssetPng, ViewerSessionError>)
        ensures
            path@.len() == 0 ==> png matches Err(ViewerSessionError::EmptyCategoryPath),
            path@.len() > 0 && self.spec_directory() is None ==> png matches Err(
                ViewerSessionError::ResourceDirectoryNotSelected,
            ),
            path@.len() > 0 && self.spec_directory() is Some ==> match first_asset_at(
                session_assets(self.spec_archives(), self.spec_raw_archives(), path_texts(path@)),
                ascii_lower(prefix@),
                block_index,
            ) {
                Some(a) => exists|outcome: ImageOutcome<PngView>|
                    #[trigger] png_outcome(self.spec_loaded(), self.spec_loaded_raw(), a, outcome) && png_answer(
                        a,
                        outcome,
                        png,
                    ),
                None => png matches Err(ViewerSessionError::AssetNotFound { path: p, prefix: q, block_index: b })
                    && path_texts(p@) == path_texts(path@) && q@ == ascii_lower(prefix@) && b == block_index,
            },
    {
        let asset = self.verified_asset(path, prefix, block_index)?;
        self.extract_asset_png(&asset)
    }

    /// The full-size PNG of an asset from a category listing.
    pub fn category_asset_png(&self, asset: &VerifiedCategoryAsset) -> (png: Result<VerifiedAssetPng, ViewerSessionError>)
        ensures
            exists|outcome: ImageOutcome<PngView>|
                #[trigger] png_outcome(self.spec_loaded(), self.spec_loaded_raw(), asset@, outcome) && png_answer(
                    asset@,
                    outcome,
                    png,
                ),
    {
        self.extract_asset_png(asset.asset())
    }

    /// The full-size PNG of an asset from a search.
    pub fn search_asset_png(&self, asset: &VerifiedSearchAsset) -> (png: Result<VerifiedAssetPng, ViewerSessionError>)
        ensures
            exists|outcome: ImageOutcome<PngView>|
                #[trigger] png_outcome(self.spec_loaded(), self.spec_loaded_raw(), asset@.asset, outcome)
                    && png_answer(asset@.asset, outcome, png),
    {
        self.extract_asset_png(asset.asset())
    }

    /// A large preview of the listed asset of archive `prefix` at block `block_index`.
    pub fn asset_detail(&self, path: &[String], prefix: &str, block_index: u32) -> (detail: Result<
        VerifiedAssetDetail,
        ViewerSessionError,
    >)
        ensures
            path@.len() == 0 ==> detail matches Err(ViewerSessionError::EmptyCategoryPath),
            path@.len() > 0 && self.spec_directory() is None ==> detail matches Err(
                ViewerSessionError::ResourceDirectoryNotSelected,
            ),
            path@.len() > 0 && self.spec_directory() is Some ==> match first_asset_at(
                session_assets(self.spec_archives(), self.spec_raw_archives(), path_texts(path@)),
                ascii_lower(prefix@),
                block_index,
            ) {
                Some(a) => exists|outcome: ImageOutcome<PreviewView>|
                    #[trigger] preview_outcome(
                        self.spec_loaded(),
                        self.spec_loaded_raw(),
                        a,
                        DETAIL_MAX_WIDTH,
                        DETAIL_MAX_HEIGHT,
                        MAX_DETAIL_DECODE_SIZE,
                        outcome,
                    ) && detail_answer(a, path_texts(path@), outcome, detail),
                None => detail matches Err(ViewerSessionError::AssetNotFound { path: p, prefix: q, block_index: b })
                    && path_texts(p@) == path_texts(path@) && q@ == ascii_lower(prefix@) && b == block_index,
            },
    {
        let asset = self.verified_asset(path, prefix, block_index)?;
        let made = self.asset_preview(&asset, DETAIL_MAX_WIDTH, DETAIL_MAX_HEIGHT, MAX_DETAIL_DECODE_SIZE);
        match made {
            Ok(preview) => {
                let icon_id = if asset.raw_key.is_some() {
                    None
                } else {
                    Some(asset.key.icon_id)
                };
                Ok(
                    VerifiedAssetDetail {
                        path: clone_path(path),
                        archive: asset.prefix.clone(),
                        icon_id,
                        block_index: preview.block_index,
                        source_width: preview.source_width,
                        source_height: preview.source_height,
                        preview_width: preview.width,
                        preview_height: preview.height,
                        assembled: asset.assembled,
                        preview_data_url: png_data_url(preview.png.as_slice()),
                    },
                )
            },
            Err(error) => Err(error),
        }
    }
}


/// One search or update result with its category and thumbnail.
#[derive(Debug, Clone, PartialEq, Eq)]
pub struct VerifiedAssetSearchItem {
    pub path: Vec<String>,
    pub thumbnail: VerifiedAssetThumbnail,
}

/// A page of search results.
#[derive(Debug, Clone, PartialEq, Eq)]
pub struct VerifiedAssetSearchPage {
    pub query: String,
    pub offset: usize,
    pub page_size: usize,
    pub total_count: usize,
    pub items: Vec<VerifiedAssetSearchItem>,
}

/// A page of the verified images that an update added.
#[derive(Debug, Clone, PartialEq, Eq)]
pub struct VerifiedUpdatePage {
    pub offset: usize,
    pub page_size: usize,
    pub total_count: usize,
    pub detected_record_count: usize,
    pub review_required_count: usize,
    pub items: Vec<VerifiedAssetSearchItem>,
}


/// Whether each item carries the path of the result it stands for, from `offset` on, and a
/// thumbnail that fits that result's cache key.
pub open spec fn items_fit_results(items: Seq<VerifiedAssetSearchItem>, results: Seq<SearchAssetView>, offset: nat) -> bool {
    forall|i: int|
        0 <= i < items.len() ==> {
            &&& path_texts(#[trigger] items[i].path@) == results[offset + i].path
            &&& thumbnail_fits_key(items[i].thumbnail@, asset_cache_key(results[offset + i].asset))
        }
}

/// The assets of search results.
pub open spec fn result_assets(results: Seq<SearchAssetView>) -> Seq<AssetRefView> {
    results.map_values(|r: SearchAssetView| r.asset)
}

/// Whether each item's thumbnail was served for the asset of `shown` at its position.
pub open spec fn items_served(
    loaded: Seq<LoadedArchive>,
    loaded_raw: Seq<LoadedRawImageArchive>,
    base: Seq<(KeyView, ThumbnailView)>,
    items: Seq<VerifiedAssetSearchItem>,
    shown: Seq<AssetRefView>,
) -> bool {
    forall|i: int|
        0 <= i < items.len() ==> #[trigger] thumbnail_served(loaded, loaded_raw, base, shown, i, items[i].thumbnail@)
}

/// Whether `error` is how making the thumbnail of one of `shown` fails.
pub open spec fn page_failed(
    loaded: Seq<LoadedArchive>,
    loaded_raw: Seq<LoadedRawImageArchive>,
    shown: Seq<AssetRefView>,
    error: ViewerSessionError,
) -> bool {
    exists|j: int| 0 <= j < shown.len() && #[trigger] thumbnail_failed(loaded, loaded_raw, shown[j], error)
}

/// Whether `items` is the page of `results` that starts at `offset`: as many items as the page
/// holds, each fitting its result.
pub open spec fn result_page_fits(items: Seq<VerifiedAssetSearchItem>, results: Seq<SearchAssetView>, offset: nat, page_size: nat) -> bool {
    &&& items.len() == page_end(results.len(), offset, page_size) - offset
    &&& items_fit_results(items, results, offset)
}

proof fn lemma_result_page_fits(
    items: Seq<VerifiedAssetSearchItem>,
    results: Seq<VerifiedSearchAssetRef>,
    offset: nat,
    page_size: nat,
)
    requires
        offset <= results.len(),
        offset == 0 || offset < results.len(),
        items.len() == page_end(results.len(), offset, page_size) - offset,
        items_fit_results(items, search_views(results), offset),
    ensures
        result_page_fits(items, search_views(results), offset, page_size),
{
}

/// The result an added snapshot entry gives, or none when it still needs review: a raw entry
/// without its file position, or a record whose boundary or meaning is not human-verified or
/// that has no category.
pub open spec fn update_item(e: EntryView) -> Option<SearchAssetView> {
    let raw_key = entry_raw_key(e);
    if e.source_kind == AssetSourceKind::RawBlock && raw_key is None {
        None
    } else {
        match record_path(e.archive, e.group_code, e.icon_id, e.block_index) {
            None => None,
            Some(path) => {
                let block = canonical_block(e.archive, e.block_index);
                let prefix = ascii_lower(e.archive);
                Some(
                    SearchAssetView {
                        path,
                        asset: AssetRefView {
                            prefix,
                            key: ResourceKey { group_code: e.group_code, icon_id: e.icon_id, block_index: e.block_index },
                            raw_key,
                            canonical_block: block,
                            assembled: raw_key is None && is_assembled(prefix, block),
                        },
                    },
                )
            },
        }
    }
}

/// The results that added entries give, in entry order.
pub open spec fn update_items(entries: Seq<EntryView>) -> Seq<SearchAssetView>
    decreases entries.len(),
{
    if entries.len() == 0 {
        Seq::empty()
    } else {
        let rest = update_items(entries.drop_last());
        match update_item(entries.last()) {
            Some(item) => rest.push(item),
            None => rest,
        }
    }
}

/// How many added entries still need review.
pub open spec fn review_required(entries: Seq<EntryView>) -> nat
    decreases entries.len(),
{
    if entries.len() == 0 {
        0
    } else {
        review_required(entries.drop_last()) + if update_item(entries.last()) is None {
            1nat
        } else {
            0nat
        }
    }
}

/// The verified images an update added: one per slot, in search order.
pub open spec fn update_assets(entries: Seq<EntryView>) -> Seq<SearchAssetView> {
    sort_search(first_per_slot(update_items(entries)))
}

proof fn lemma_review_required_bound(entries: Seq<EntryView>)
    ensures
        review_required(entries) <= entries.len(),
    decreases entries.len(),
{
    if entries.len() > 0 {
        lemma_review_required_bound(entries.drop_last());
    }
}


/// The verified images among added snapshot entries, in search order, and how many entries
/// still need review.
#[verifier::loop_isolation(false)]
#[verifier::rlimit(40)]
fn collect_update_results(added_assets: &[AssetSnapshotEntry]) -> (collected: (Vec<VerifiedSearchAssetRef>, usize))
    ensures
        search_views(collected.0@) == update_assets(entry_views(added_assets@)),
        collected.1 == review_required(entry_views(added_assets@)),
        forall|i: int| 0 <= i < collected.0@.len() ==> #[trigger] asset_is_consistent(collected.0@[i]@.asset),
{
        let ghost entries = entry_views(added_assets@);
        let mut review_required_count: usize = 0;
        let mut unique: Vec<VerifiedSearchAssetRef> = Vec::new();
        let mut index: usize = 0;
        assert(entries.take(0) =~= Seq::<EntryView>::empty());
        assert(search_views(unique@) =~= Seq::<SearchAssetView>::empty());
        while index < added_assets.len()
            invariant
                index <= added_assets@.len(),
                entries == entry_views(added_assets@),
                search_views(unique@) == first_per_slot(update_items(entries.take(index as int))),
                review_required_count == review_required(entries.take(index as int)),
                forall|i: int| 0 <= i < unique@.len() ==> #[trigger] asset_is_consistent(unique@[i]@.asset),
            decreases added_assets@.len() - index,
        {
            let entry = &added_assets[index];
            proof {
                let taken = entries.take(index + 1);
                assert(taken.drop_last() =~= entries.take(index as int));
                assert(taken.last() == entry@);
                lemma_review_required_bound(entries.take(index as int));
            }
            let raw_key = entry.raw_resource_key();
            if entry.source_kind == AssetSourceKind::RawBlock && raw_key.is_none() {
                review_required_count += 1;
            } else {
                match verified_record_path(entry.archive.as_str(), entry.group_code, entry.icon_id, entry.block_index) {
                    None => {
                        review_required_count += 1;
                    },
                    Some(path) => {
                        let block = match crate::catalog::assembly_plan(entry.archive.as_str(), entry.block_index) {
                            Some(plan) => plan.first_block,
                            None => entry.block_index,
                        };
                        let prefix = to_ascii_lowercase(entry.archive.as_str());
                        let assembled = raw_key.is_none() && crate::catalog::assembly_plan(prefix.as_str(), block).is_some();
                        let item = VerifiedSearchAssetRef {
                            path,
                            asset: VerifiedAssetRef {
                                prefix,
                                key: ResourceKey {
                                    group_code: entry.group_code,
                                    icon_id: entry.icon_id,
                                    block_index: entry.block_index,
                                },
                                raw_key,
                                canonical_block: block,
                                assembled,
                            },
                        };
                        let ghost previous = update_items(entries.take(index as int));
                        let ghost item_view = item@;
                        assert(update_item(entry@) == Some(item_view));
                        assert(previous.push(item_view).drop_last() =~= previous);
                        let ghost before = search_views(unique@);
                        let ghost unique_before = unique@;
                        push_first_per_slot(&mut unique, item);
                        assert forall|i: int| 0 <= i < unique@.len() implies #[trigger] asset_is_consistent(unique@[i]@.asset) by {
                            assert(search_views(unique@)[i] == unique@[i]@);
                            if has_slot(before, item_view) {
                                assert(search_views(unique@)[i] == before[i]);
                                assert(before[i] == unique_before[i]@);
                            } else if i < before.len() {
                                assert(before.push(item_view)[i] == before[i]);
                                assert(before[i] == unique_before[i]@);
                            } else {
                                assert(search_views(unique@).len() == before.len() + 1);
                                assert(i == before.len());
                                assert(before.push(item_view)[before.len() as int] == item_view);
                            }
                        }
                    },
                }
            }
            index += 1;
        }
        assert(entries.take(index as int) =~= entries);
        (sort_search_exec(unique), review_required_count)
}

impl ViewerSession {
    /// Every verified asset a search may find, in search order.
    #[verifier::loop_isolation(false)]
    fn verified_search_assets(&self) -> (assets: Result<Vec<VerifiedSearchAssetRef>, ViewerSessionError>)
        ensures
            match self.spec_directory() {
                None => assets matches Err(ViewerSessionError::ResourceDirectoryNotSelected),
                Some(_) => assets matches Ok(found) && search_views(found@) == session_search_assets(
                    self.spec_archives(),
                    self.spec_raw_archives(),
                ) && forall|i: int| 0 <= i < found@.len() ==> #[trigger] asset_is_consistent(found@[i]@.asset),
            },
    {
        if self.resource_directory.is_none() {
            return Err(ViewerSessionError::ResourceDirectoryNotSelected);
        }
        let mut all: Vec<VerifiedSearchAssetRef> = Vec::new();
        let mut index: usize = 0;
        assert(search_views(all@) =~= Seq::<SearchAssetView>::empty());
        while index < self.archives.len()
            invariant
                index <= self.archives@.len(),
                search_views(all@) == indexed_search_assets(self.spec_archives().take(index as int)),
                forall|i: int| 0 <= i < all@.len() ==> #[trigger] asset_is_consistent(all@[i]@.asset),
            decreases self.archives@.len() - index,
        {
            let archive = &self.archives[index];
            let mut part = archive_search_assets(archive.prefix().as_str(), archive.records());
            let ghost before = all@;
            let ghost added = part@;
            all.append(&mut part);
            proof {
                assert(search_views(all@) =~= search_views(before) + search_views(added));
                let taken = self.spec_archives().take(index + 1);
                assert(taken.drop_last() =~= self.spec_archives().take(index as int));
                assert(taken.last() == (archive.spec_prefix(), archive.spec_records()));
                assert forall|i: int| 0 <= i < all@.len() implies #[trigger] asset_is_consistent(all@[i]@.asset) by {
                    if i < before.len() {
                        assert(all@[i] == before[i]);
                    } else {
                        assert(all@[i] == added[i - before.len()]);
                        assert(search_views(added)[i - before.len()] == added[i - before.len()]@);
                    }
                }
            }
            index += 1;
        }
        assert(self.spec_archives().take(index as int) =~= self.spec_archives());
        let ghost indexed = search_views(all@);
        let mut raw: Vec<VerifiedSearchAssetRef> = Vec::new();
        let mut index: usize = 0;
        assert(search_views(raw@) =~= Seq::<SearchAssetView>::empty());
        while index < self.raw_archives.len()
            invariant
                index <= self.raw_archives@.len(),
                search_views(raw@) == raw_search_assets(self.spec_raw_archives().take(index as int)),
                forall|i: int| 0 <= i < raw@.len() ==> #[trigger] asset_is_consistent(raw@[i]@.asset),
            decreases self.raw_archives@.len() - index,
        {
            let archive = &self.raw_archives[index];
            let records = archive.records();
            let mut part = raw_archive_search_assets(archive.prefix().as_str(), records.as_slice());
            let ghost before = raw@;
            let ghost added = part@;
            raw.append(&mut part);
            proof {
                assert(search_views(raw@) =~= search_views(before) + search_views(added));
                let taken = self.spec_raw_archives().take(index + 1);
                assert(taken.drop_last() =~= self.spec_raw_archives().take(index as int));
                assert(taken.last() == (archive.spec_prefix(), raw_records(archive.spec_blocks())));
                assert(records@ =~= raw_records(archive.spec_blocks()));
                assert forall|i: int| 0 <= i < raw@.len() implies #[trigger] asset_is_consistent(raw@[i]@.asset) by {
                    if i < before.len() {
                        assert(raw@[i] == before[i]);
                    } else {
                        assert(raw@[i] == added[i - before.len()]);
                        assert(search_views(added)[i - before.len()] == added[i - before.len()]@);
                    }
                }
            }
            index += 1;
        }
        assert(self.spec_raw_archives().take(index as int) =~= self.spec_raw_archives());
        let ghost raw_views = search_views(raw@);
        let ghost all_before = all@;
        let ghost raw_before = raw@;
        all.append(&mut raw);
        assert(search_views(all@) =~= indexed + raw_views);
        assert forall|i: int| 0 <= i < all@.len() implies #[trigger] asset_is_consistent(all@[i]@.asset) by {
            if i < all_before.len() {
                assert(all@[i] == all_before[i]);
            } else {
                assert(all@[i] == raw_before[i - all_before.len()]);
            }
        }
        Ok(sort_search_exec(all))
    }

    /// The trimmed query and the results all of its words find, in search order.
    fn matching_search_assets(&self, query: &str) -> (found: Result<(String, Vec<VerifiedSearchAssetRef>), ViewerSessionError>)
        ensures
            trim_space(query@).len() == 0 ==> found matches Err(ViewerSessionError::EmptySearchQuery),
            trim_space(query@).len() > 0 && self.spec_directory() is None ==> found matches Err(
                ViewerSessionError::ResourceDirectoryNotSelected,
            ),
            trim_space(query@).len() > 0 && self.spec_directory() is Some ==> (found matches Ok((q, results))
                && q@ == trim_space(query@) && search_views(results@) == matching_results(
                session_search_assets(self.spec_archives(), self.spec_raw_archives()),
                query_terms(query@),
            ) && forall|i: int| 0 <= i < results@.len() ==> #[trigger] asset_is_consistent(results@[i]@.asset)),
    {
        let trimmed = trim_text(query);
        if trimmed.as_str().is_empty() {
            return Err(ViewerSessionError::EmptySearchQuery);
        }
        let all = self.verified_search_assets()?;
        let terms = query_words(trimmed.as_str());
        let results = matching_results_exec(&all, &terms);
        Ok((trimmed, results))
    }

    /// The verified assets that every word of `query` finds, in search order.
    pub fn search_assets(&self, query: &str) -> (found: Result<Vec<VerifiedSearchAsset>, ViewerSessionError>)
        ensures
            trim_space(query@).len() == 0 ==> found matches Err(ViewerSessionError::EmptySearchQuery),
            trim_space(query@).len() > 0 && self.spec_directory() is None ==> found matches Err(
                ViewerSessionError::ResourceDirectoryNotSelected,
            ),
            trim_space(query@).len() > 0 && self.spec_directory() is Some ==> {
                let expected = matching_results(
                    session_search_assets(self.spec_archives(), self.spec_raw_archives()),
                    query_terms(query@),
                );
                found matches Ok(results) && results@.len() == expected.len() && forall|i: int|
                    0 <= i < expected.len() ==> #[trigger] results@[i]@ == expected[i]
            },
    {
        let (_, results) = self.matching_search_assets(query)?;
        let mut wrapped: Vec<VerifiedSearchAsset> = Vec::new();
        let mut index: usize = 0;
        while index < results.len()
            invariant
                index <= results@.len(),
                wrapped@.len() == index,
                forall|i: int| 0 <= i < results@.len() ==> #[trigger] asset_is_consistent(results@[i]@.asset),
                forall|i: int| 0 <= i < index ==> #[trigger] wrapped@[i]@ == results@[i]@,
            decreases results@.len() - index,
        {
            assert(asset_is_consistent(results@[index as int]@.asset));
            wrapped.push(VerifiedSearchAsset::new(results[index].clone()));
            index += 1;
        }
        proof {
            assert forall|i: int| 0 <= i < results@.len() implies #[trigger] wrapped@[i]@ == search_views(results@)[i] by {
                assert(search_views(results@)[i] == results@[i]@);
            }
        }
        Ok(wrapped)
    }

    /// Thumbnails for a run of search results.
    #[verifier::loop_isolation(false)]
    fn result_items(&mut self, results: &Vec<VerifiedSearchAssetRef>, offset: usize, end: usize) -> (items: Result<
        Vec<VerifiedAssetSearchItem>,
        ViewerSessionError,
    >)
        requires
            old(self).wf(),
            offset <= end <= results@.len(),
            forall|i: int| 0 <= i < results@.len() ==> #[trigger] asset_is_consistent(results@[i]@.asset),
        ensures
            final(self).wf(),
            final(self).spec_directory() == old(self).spec_directory(),
            final(self).spec_archives() == old(self).spec_archives(),
            final(self).spec_raw_archives() == old(self).spec_raw_archives(),
            final(self).spec_loaded() == old(self).spec_loaded(),
            final(self).spec_loaded_raw() == old(self).spec_loaded_raw(),
            final(self).spec_cache_limits() == old(self).spec_cache_limits(),
            match items {
                Ok(found) => found@.len() == end - offset && items_fit_results(found@, search_views(results@), offset as nat)
                    && items_served(
                    old(self).spec_loaded(),
                    old(self).spec_loaded_raw(),
                    old(self).spec_cache(),
                    found@,
                    result_assets(search_views(results@)).subrange(offset as int, end as int),
                ),
                Err(e) => page_failed(
                    old(self).spec_loaded(),
                    old(self).spec_loaded_raw(),
                    result_assets(search_views(results@)).subrange(offset as int, end as int),
                    e,
                ),
            },
    {
        let mut items: Vec<VerifiedAssetSearchItem> = Vec::new();
        let mut index: usize = offset;
        while index < end
            invariant
                offset <= index <= end,
                items@.len() == index - offset,
                items_fit_results(items@, search_views(results@), offset as nat),
                items_served(
                    old(self).spec_loaded(),
                    old(self).spec_loaded_raw(),
                    old(self).spec_cache(),
                    items@,
                    result_assets(search_views(results@)).subrange(offset as int, index as int),
                ),
                cache_from(
                    old(self).spec_loaded(),
                    old(self).spec_loaded_raw(),
                    old(self).spec_cache(),
                    result_assets(search_views(results@)).subrange(offset as int, index as int),
                    self.spec_cache(),
                ),
                self.wf(),
                self.spec_directory() == old(self).spec_directory(),
                self.spec_archives() == old(self).spec_archives(),
                self.spec_raw_archives() == old(self).spec_raw_archives(),
                self.spec_loaded() == old(self).spec_loaded(),
                self.spec_loaded_raw() == old(self).spec_loaded_raw(),
                self.spec_cache_limits() == old(self).spec_cache_limits(),
            decreases end - index,
        {
            let result = &results[index];
            assert(asset_is_consistent(results@[index as int]@.asset));
            let ghost all = result_assets(search_views(results@));
            let ghost made = all.subrange(offset as int, index as int);
            let ghost cache_before = self.spec_cache();
            let ghost items_before = items@;
            proof {
                assert(search_views(results@)[index as int] == results@[index as int]@);
                assert(all[index as int] == result.asset@);
            }
            let thumbnail = self.asset_thumbnail(&result.asset);
            let thumbnail = match thumbnail {
                Ok(thumbnail) => thumbnail,
                Err(error) => {
                    proof {
                        let shown = all.subrange(offset as int, end as int);
                        assert(shown[index - offset] == all[index as int]);
                        assert(thumbnail_failed(
                            old(self).spec_loaded(),
                            old(self).spec_loaded_raw(),
                            shown[index - offset],
                            error,
                        ));
                    }
                    return Err(error);
                },
            };
            proof {
                let next = all[index as int];
                assert(all.subrange(offset as int, index + 1) =~= made.push(next));
                lemma_serve_step(
                    old(self).spec_loaded(),
                    old(self).spec_loaded_raw(),
                    old(self).spec_cache(),
                    made,
                    cache_before,
                    self.spec_cache(),
                    next,
                );
                lemma_served_item(
                    old(self).spec_loaded(),
                    old(self).spec_loaded_raw(),
                    old(self).spec_cache(),
                    made,
                    cache_before,
                    next,
                    thumbnail@,
                );
                assert forall|i: int| 0 <= i < items_before.len() implies thumbnail_served(
                    old(self).spec_loaded(),
                    old(self).spec_loaded_raw(),
                    old(self).spec_cache(),
                    made.push(next),
                    i,
                    items_before[i].thumbnail@,
                ) by {
                    assert(thumbnail_served(
                        old(self).spec_loaded(),
                        old(self).spec_loaded_raw(),
                        old(self).spec_cache(),
                        made,
                        i,
                        items_before[i].thumbnail@,
                    ));
                    lemma_served_extend(
                        old(self).spec_loaded(),
                        old(self).spec_loaded_raw(),
                        old(self).spec_cache(),
                        made,
                        i,
                        items_before[i].thumbnail@,
                        next,
                    );
                }
            }
            let path = clone_path(result.path.as_slice());
            let ghost before = items@;
            let ghost fits = thumbnail_fits_key(thumbnail@, asset_cache_key(results@[index as int]@.asset));
            assert(fits);
            items.push(VerifiedAssetSearchItem { path, thumbnail });
            assert(search_views(results@)[index as int] == results@[index as int]@);
            assert forall|i: int| 0 <= i < items@.len() implies {
                &&& path_texts(#[trigger] items@[i].path@) == search_views(results@)[offset + i].path
                &&& thumbnail_fits_key(items@[i].thumbnail@, asset_cache_key(search_views(results@)[offset + i].asset))
            } by {
                if i < before.len() {
                    assert(items@[i] == before[i]);
                } else {
                    assert(i == index - offset);
                }
            }
            proof {
                let longer = made.push(all[index as int]);
                assert forall|i: int| 0 <= i < items@.len() implies #[trigger] thumbnail_served(
                    old(self).spec_loaded(),
                    old(self).spec_loaded_raw(),
                    old(self).spec_cache(),
                    longer,
                    i,
                    items@[i].thumbnail@,
                ) by {
                    if i < items_before.len() {
                        assert(items@[i] == items_before[i]);
                    }
                }
            }
            index += 1;
        }
        assert(result_assets(search_views(results@)).subrange(offset as int, index as int) =~= result_assets(
            search_views(results@),
        ).subrange(offset as int, end as int));
        Ok(items)
    }

    /// One page of the results that every word of `query` finds.
    #[verifier::loop_isolation(false)]
    #[verifier::spinoff_prover]
    #[verifier::rlimit(40)]
    pub fn search_page(&mut self, query: &str, offset: usize, page_size: usize) -> (page: Result<
        VerifiedAssetSearchPage,
        ViewerSessionError,
    >)
        requires
            old(self).wf(),
        ensures
            final(self).wf(),
            final(self).spec_directory() == old(self).spec_directory(),
            final(self).spec_archives() == old(self).spec_archives(),
            final(self).spec_raw_archives() == old(self).spec_raw_archives(),
            final(self).spec_loaded() == old(self).spec_loaded(),
            final(self).spec_loaded_raw() == old(self).spec_loaded_raw(),
            final(self).spec_cache_limits() == old(self).spec_cache_limits(),
            !(1 <= page_size <= VIEWER_CATEGORY_PAGE_SIZE) ==> (page matches Err(
                ViewerSessionError::InvalidPageSize { requested, maximum },
            ) && requested == page_size && maximum == VIEWER_CATEGORY_PAGE_SIZE),
            1 <= page_size <= VIEWER_CATEGORY_PAGE_SIZE && trim_space(query@).len() == 0 ==> page matches Err(
                ViewerSessionError::EmptySearchQuery,
            ),
            1 <= page_size <= VIEWER_CATEGORY_PAGE_SIZE && trim_space(query@).len() > 0 && old(self).spec_directory()
                is None ==> page matches Err(ViewerSessionError::ResourceDirectoryNotSelected),
            1 <= page_size <= VIEWER_CATEGORY_PAGE_SIZE && trim_space(query@).len() > 0 && old(self).spec_directory()
                is Some ==> {
                let results = matching_results(
                    session_search_assets(old(self).spec_archives(), old(self).spec_raw_archives()),
                    query_terms(query@),
                );
                if offset > 0 && offset >= results.len() {
                    page matches Err(ViewerSessionError::OffsetOutOfRange { offset: o, total_count: t })
                        && o == offset && t == results.len()
                } else {
                    let shown = result_assets(results).subrange(
                        offset as int,
                        page_end(results.len(), offset as nat, page_size as nat) as int,
                    );
                    match page {
                        Ok(p) => p.query@ == trim_space(query@) && result_page_fits(
                            p.items@,
                            results,
                            offset as nat,
                            page_size as nat,
                        ) && p.offset == offset && p.page_size == page_size && p.total_count == results.len()
                            && items_served(
                            old(self).spec_loaded(),
                            old(self).spec_loaded_raw(),
                            old(self).spec_cache(),
                            p.items@,
                            shown,
                        ),
                        Err(e) => page_failed(old(self).spec_loaded(), old(self).spec_loaded_raw(), shown, e),
                    }
                }
            },
    {
        if page_size < 1 || page_size > VIEWER_CATEGORY_PAGE_SIZE {
            return Err(
                ViewerSessionError::InvalidPageSize { requested: page_size, maximum: VIEWER_CATEGORY_PAGE_SIZE },
            );
        }
        let (trimmed, results) = self.matching_search_assets(query)?;
        let total_count = results.len();
        if offset > 0 && offset >= total_count {
            return Err(ViewerSessionError::OffsetOutOfRange { offset, total_count });
        }
        let end = if total_count - offset > page_size {
            offset + page_size
        } else {
            total_count
        };
        proof {
            assert(end == page_end(results@.len(), offset as nat, page_size as nat));
        }
        let items = match self.result_items(&results, offset, end) {
            Ok(items) => items,
            Err(error) => {
                return Err(error);
            },
        };
        proof {
            lemma_result_page_fits(items@, results@, offset as nat, page_size as nat);
        }
        Ok(VerifiedAssetSearchPage { query: trimmed, offset, page_size, total_count, items })
    }

    /// One page of the verified images among the records an update added.
    #[verifier::loop_isolation(false)]
    #[verifier::spinoff_prover]
    #[verifier::rlimit(40)]
    pub fn update_page(&mut self, added_assets: &[AssetSnapshotEntry], offset: usize, page_size: usize) -> (page: Result<
        VerifiedUpdatePage,
        ViewerSessionError,
    >)
        requires
            old(self).wf(),
        ensures
            final(self).wf(),
            final(self).spec_directory() == old(self).spec_directory(),
            final(self).spec_archives() == old(self).spec_archives(),
            final(self).spec_raw_archives() == old(self).spec_raw_archives(),
            final(self).spec_loaded() == old(self).spec_loaded(),
            final(self).spec_loaded_raw() == old(self).spec_loaded_raw(),
            final(self).spec_cache_limits() == old(self).spec_cache_limits(),
            !(1 <= page_size <= VIEWER_CATEGORY_PAGE_SIZE) ==> (page matches Err(
                ViewerSessionError::InvalidPageSize { requested, maximum },
            ) && requested == page_size && maximum == VIEWER_CATEGORY_PAGE_SIZE),
            1 <= page_size <= VIEWER_CATEGORY_PAGE_SIZE ==> {
                let results = update_assets(entry_views(added_assets@));
                if offset > 0 && offset >= results.len() {
                    page matches Err(ViewerSessionError::OffsetOutOfRange { offset: o, total_count: t })
                        && o == offset && t == results.len()
                } else {
                    let shown = result_assets(results).subrange(
                        offset as int,
                        page_end(results.len(), offset as nat, page_size as nat) as int,
                    );
                    match page {
                        Ok(p) => result_page_fits(p.items@, results, offset as nat, page_size as nat)
                            && p.offset == offset && p.page_size == page_size && p.total_count == results.len()
                            && p.detected_record_count == added_assets@.len() && p.review_required_count
                            == review_required(entry_views(added_assets@)) && items_served(
                            old(self).spec_loaded(),
                            old(self).spec_loaded_raw(),
                            old(self).spec_cache(),
                            p.items@,
                            shown,
                        ),
                        Err(e) => page_failed(old(self).spec_loaded(), old(self).spec_loaded_raw(), shown, e),
                    }
                }
            },
    {
        if page_size < 1 || page_size > VIEWER_CATEGORY_PAGE_SIZE {
            return Err(
                ViewerSessionError::InvalidPageSize { requested: page_size, maximum: VIEWER_CATEGORY_PAGE_SIZE },
            );
        }
        let (results, review_required_count) = collect_update_results(added_assets);
        let total_count = results.len();
        if offset > 0 && offset >= total_count {
            return Err(ViewerSessionError::OffsetOutOfRange { offset, total_count });
        }
        let end = if total_count - offset > page_size {
            offset + page_size
        } else {
            total_count
        };
        proof {
            assert(end == page_end(results@.len(), offset as nat, page_size as nat));
        }
        let items = match self.result_items(&results, offset, end) {
            Ok(items) => items,
            Err(error) => {
                return Err(error);
            },
        };
        proof {
            lemma_result_page_fits(items@, results@, offset as nat, page_size as nat);
        }
        Ok(
            VerifiedUpdatePage {
                offset,
                page_size,
                total_count,
                detected_record_count: added_assets.len(),
                review_required_count,
                items,
            },
        )
    }
}

impl Default for ViewerSession {
    fn default() -> (session: Self)
        ensures
            session.wf(),
            session.spec_directory() is None,
            session.spec_archives().len() == 0,
            session.spec_raw_archives().len() == 0,
            session.spec_cache().len() == 0,
            session.spec_cache_limits() == (THUMBNAIL_CACHE_MAX_ITEMS as nat, THUMBNAIL_CACHE_MAX_BYTES as nat),
    {
        Self::new()
    }
}

} // verus!
