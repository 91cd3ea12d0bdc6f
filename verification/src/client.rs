//! Which human-verified images an installation offers the viewer, and how they are listed.

use crate::cache::{ThumbnailCacheKey, KeyView, VerifiedAssetThumbnail};
use crate::catalog::{
    archive_record_rules, assembly_plan, best_rule, classify_record, spec_classify_record,
    CatalogRecordKey, RecordClassification, VerificationStatus,
};
use crate::catalog::assembly::{first_plan, spec_assembly_rules};
use crate::extract::{ExtractError, RawImageRecord, RawResourceKey, ResourceKey};
use crate::index::IndexRecord;
use crate::text::same_ascii_name;
use vstd::prelude::*;
use vstd::string::{StrSliceExecFns, StringExecFns};

verus! {

/// The archives that come with an index file.
pub const INDEXED_ARCHIVE_PREFIXES: [&'static str; 13] = [
    "im",
    "sa",
    "sb",
    "sc",
    "sd",
    "se",
    "sf",
    "sg",
    "sw",
    "sx",
    "sy",
    "sz",
    "is",
];

/// Every archive the viewer reads, in display order.
pub const SUPPORTED_ARCHIVE_PREFIXES: [&'static str; 14] = [
    "im",
    "sa",
    "sb",
    "sc",
    "sd",
    "se",
    "sf",
    "sg",
    "sh",
    "sw",
    "sx",
    "sy",
    "sz",
    "is",
];

/// The most thumbnails one page may hold.
pub const VIEWER_CATEGORY_PAGE_SIZE: usize = 32;

/// Whether an archive lives in the second resource directory.
pub open spec fn in_secondary_directory(prefix: Seq<char>) -> bool {
    same_ascii_name(prefix, "sw"@) || same_ascii_name(prefix, "sx"@) || same_ascii_name(prefix, "sy"@)
        || same_ascii_name(prefix, "sz"@)
}

/// The resource subdirectory that holds an archive when the chosen directory does not hold it
/// itself: `0002` for `sw`, `sx`, `sy` and `sz` (in any ASCII case), `0001` for the others.
pub fn archive_subdirectory(prefix: &str) -> (subdirectory: &'static str)
    ensures
        subdirectory@ == (if in_secondary_directory(prefix@) {
            "0002"@
        } else {
            "0001"@
        }),
{
    proof {
        reveal_strlit("0001");
        reveal_strlit("0002");
    }
    if crate::text::eq_ignore_ascii_case(prefix, "sw") || crate::text::eq_ignore_ascii_case(prefix, "sx")
        || crate::text::eq_ignore_ascii_case(prefix, "sy") || crate::text::eq_ignore_ascii_case(
        prefix,
        "sz",
    ) {
        "0002"
    } else {
        "0001"
    }
}

// ---------------------------------------------------------------------------
// Assets
// ---------------------------------------------------------------------------

/// A verified image the viewer can show: where it lives and how it is drawn.
#[derive(Debug)]
pub struct VerifiedAssetRef {
    pub prefix: String,
    pub key: ResourceKey,
    pub raw_key: Option<RawResourceKey>,
    pub canonical_block: u32,
    pub assembled: bool,
}

/// The content of an asset reference.
pub struct AssetRefView {
    pub prefix: Seq<char>,
    pub key: ResourceKey,
    pub raw_key: Option<RawResourceKey>,
    pub canonical_block: u32,
    pub assembled: bool,
}

impl View for VerifiedAssetRef {
    type V = AssetRefView;

    open spec fn view(&self) -> AssetRefView {
        AssetRefView {
            prefix: self.prefix@,
            key: self.key,
            raw_key: self.raw_key,
            canonical_block: self.canonical_block,
            assembled: self.assembled,
        }
    }
}

impl Clone for VerifiedAssetRef {
    fn clone(&self) -> (copy: Self)
        ensures
            copy@ == self@,
    {
        VerifiedAssetRef {
            prefix: self.prefix.clone(),
            key: self.key,
            raw_key: self.raw_key,
            canonical_block: self.canonical_block,
            assembled: self.assembled,
        }
    }
}

/// The views of a sequence of asset references.
pub open spec fn asset_views(assets: Seq<VerifiedAssetRef>) -> Seq<AssetRefView> {
    assets.map_values(|a: VerifiedAssetRef| a@)
}

/// The ID an asset is shown with: its record's ID, or none for a raw block.
pub open spec fn shown_icon_id(asset: AssetRefView) -> Option<u32> {
    if asset.raw_key is None {
        Some(asset.key.icon_id)
    } else {
        None
    }
}

impl VerifiedAssetRef {
    /// The ID this asset is shown with.
    pub fn icon_id(&self) -> (id: Option<u32>)
        ensures
            id == shown_icon_id(self@),
    {
        if self.raw_key.is_none() {
            Some(self.key.icon_id)
        } else {
            None
        }
    }

    /// The key its thumbnail is cached under.
    pub fn cache_key(&self) -> (key: ThumbnailCacheKey)
        ensures
            key@ == asset_cache_key(self@),
    {
        ThumbnailCacheKey {
            prefix: self.prefix.clone(),
            icon_id: self.key.icon_id,
            canonical_block: self.canonical_block,
            assembled: self.assembled,
        }
    }
}

/// The key an asset's thumbnail is cached under.
pub open spec fn asset_cache_key(asset: AssetRefView) -> KeyView {
    KeyView {
        prefix: asset.prefix,
        icon_id: asset.key.icon_id,
        canonical_block: asset.canonical_block,
        assembled: asset.assembled,
    }
}

/// Whether an asset is drawn one way only: a raw block is never a joined image.
pub open spec fn asset_is_consistent(asset: AssetRefView) -> bool {
    asset.raw_key is Some ==> !asset.assembled
}

/// A verified asset of one category, as handed to callers.
#[derive(Debug)]
pub struct VerifiedCategoryAsset(VerifiedAssetRef);

impl View for VerifiedCategoryAsset {
    type V = AssetRefView;

    closed spec fn view(&self) -> AssetRefView {
        self.0@
    }
}

impl VerifiedCategoryAsset {
    #[verifier::type_invariant]
    spec fn consistent(self) -> bool {
        asset_is_consistent(self.0@)
    }

    pub(crate) fn new(asset: VerifiedAssetRef) -> (wrapped: Self)
        requires
            asset_is_consistent(asset@),
        ensures
            wrapped@ == asset@,
    {
        VerifiedCategoryAsset(asset)
    }

    /// The asset this handle stands for.
    pub(crate) fn asset(&self) -> (asset: &VerifiedAssetRef)
        ensures
            asset@ == self@,
            asset_is_consistent(asset@),
    {
        proof {
            use_type_invariant(self);
        }
        &self.0
    }

    pub fn archive(&self) -> (archive: &str)
        ensures
            archive@ == self@.prefix,
    {
        self.0.prefix.as_str()
    }

    pub fn icon_id(&self) -> (id: Option<u32>)
        ensures
            id == shown_icon_id(self@),
    {
        self.0.icon_id()
    }

    pub fn block_index(&self) -> (block: u32)
        ensures
            block == self@.canonical_block,
    {
        self.0.canonical_block
    }

    pub fn assembled(&self) -> (assembled: bool)
        ensures
            assembled == self@.assembled,
    {
        self.0.assembled
    }
}

impl Clone for VerifiedCategoryAsset {
    fn clone(&self) -> (copy: Self)
        ensures
            copy@ == self@,
    {
        proof {
            use_type_invariant(self);
        }
        VerifiedCategoryAsset(self.0.clone())
    }
}

/// A verified asset found by a search, with its category.
#[derive(Debug)]
pub struct VerifiedSearchAssetRef {
    pub path: Vec<String>,
    pub asset: VerifiedAssetRef,
}

/// The content of a search result.
pub struct SearchAssetView {
    pub path: Seq<Seq<char>>,
    pub asset: AssetRefView,
}

impl View for VerifiedSearchAssetRef {
    type V = SearchAssetView;

    open spec fn view(&self) -> SearchAssetView {
        SearchAssetView { path: path_texts(self.path@), asset: self.asset@ }
    }
}

/// The text of each segment of a category path.
pub open spec fn path_texts(path: Seq<String>) -> Seq<Seq<char>> {
    path.map_values(|segment: String| segment@)
}

/// The views of a sequence of search results.
pub open spec fn search_views(assets: Seq<VerifiedSearchAssetRef>) -> Seq<SearchAssetView> {
    assets.map_values(|a: VerifiedSearchAssetRef| a@)
}

pub fn clone_path(path: &[String]) -> (copy: Vec<String>)
    ensures
        path_texts(copy@) == path_texts(path@),
{
    let mut copy: Vec<String> = Vec::new();
    let mut index: usize = 0;
    while index < path.len()
        invariant
            index <= path@.len(),
            path_texts(copy@) == path_texts(path@.take(index as int)),
        decreases path@.len() - index,
    {
        let ghost before = copy@;
        copy.push(path[index].clone());
        assert(path_texts(copy@) =~= path_texts(before).push(path@[index as int]@));
        assert(path@.take(index + 1) =~= path@.take(index as int).push(path@[index as int]));
        assert(path_texts(path@.take(index + 1)) =~= path_texts(path@.take(index as int)).push(
            path@[index as int]@,
        ));
        index += 1;
    }
    assert(path@.take(index as int) =~= path@);
    copy
}

impl Clone for VerifiedSearchAssetRef {
    fn clone(&self) -> (copy: Self)
        ensures
            copy@ == self@,
    {
        VerifiedSearchAssetRef { path: clone_path(self.path.as_slice()), asset: self.asset.clone() }
    }
}

/// A verified asset found by a search, as handed to callers.
#[derive(Debug)]
pub struct VerifiedSearchAsset(VerifiedSearchAssetRef);

impl View for VerifiedSearchAsset {
    type V = SearchAssetView;

    closed spec fn view(&self) -> SearchAssetView {
        self.0@
    }
}

impl VerifiedSearchAsset {
    #[verifier::type_invariant]
    spec fn consistent(self) -> bool {
        asset_is_consistent(self.0.asset@)
    }

    pub(crate) fn new(found: VerifiedSearchAssetRef) -> (wrapped: Self)
        requires
            asset_is_consistent(found@.asset),
        ensures
            wrapped@ == found@,
    {
        VerifiedSearchAsset(found)
    }

    /// The asset this handle stands for.
    pub(crate) fn asset(&self) -> (asset: &VerifiedAssetRef)
        ensures
            asset@ == self@.asset,
            asset_is_consistent(asset@),
    {
        proof {
            use_type_invariant(self);
        }
        &self.0.asset
    }

    pub fn path(&self) -> (path: &[String])
        ensures
            path_texts(path@) == self@.path,
    {
        self.0.path.as_slice()
    }

    pub fn archive(&self) -> (archive: &str)
        ensures
            archive@ == self@.asset.prefix,
    {
        self.0.asset.prefix.as_str()
    }

    pub fn icon_id(&self) -> (id: Option<u32>)
        ensures
            id == shown_icon_id(self@.asset),
    {
        self.0.asset.icon_id()
    }

    pub fn block_index(&self) -> (block: u32)
        ensures
            block == self@.asset.canonical_block,
    {
        self.0.asset.canonical_block
    }

    pub fn assembled(&self) -> (assembled: bool)
        ensures
            assembled == self@.asset.assembled,
    {
        self.0.asset.assembled
    }
}

impl Clone for VerifiedSearchAsset {
    fn clone(&self) -> (copy: Self)
        ensures
            copy@ == self@,
    {
        proof {
            use_type_invariant(self);
        }
        VerifiedSearchAsset(self.0.clone())
    }
}

// ---------------------------------------------------------------------------
// Which records are shown
// ---------------------------------------------------------------------------

/// The catalog's classification of a record of `archive`, by the archive's name.
pub open spec fn classify_view(archive: Seq<char>, group_code: u32, icon_id: u32, block_index: u32) -> RecordClassification {
    match archive_record_rules(archive) {
        Some(rules) => match best_rule(rules, group_code, icon_id, block_index) {
            Some((rule, _)) => rule.spec_classification(),
            None => RecordClassification::spec_unknown(),
        },
        None => RecordClassification::spec_unknown(),
    }
}

/// The category of a classification whose boundary and meaning are both human-verified.
pub open spec fn verified_path(classification: RecordClassification) -> Option<Seq<Seq<char>>> {
    if classification.boundary_status == VerificationStatus::HumanVerified
        && classification.meaning_status == VerificationStatus::HumanVerified
        && classification.category is Some {
        Some(classification.category.unwrap().segment_texts())
    } else {
        None
    }
}

/// The verified category of a record, if it has one.
pub open spec fn record_path(archive: Seq<char>, group_code: u32, icon_id: u32, block_index: u32) -> Option<
    Seq<Seq<char>>,
> {
    verified_path(classify_view(archive, group_code, icon_id, block_index))
}

/// A record is listed under a category only when the catalog classifies it with its boundary
/// and its meaning both human-verified; it is then listed under exactly that category. Records
/// in temporary review buckets, or of unknown meaning, are never listed.
pub proof fn lemma_listed_records_are_human_verified(archive: Seq<char>, group_code: u32, icon_id: u32, block_index: u32)
    ensures
        record_path(archive, group_code, icon_id, block_index) is Some <==> {
            let c = classify_view(archive, group_code, icon_id, block_index);
            &&& c.boundary_status == VerificationStatus::HumanVerified
            &&& c.meaning_status == VerificationStatus::HumanVerified
            &&& c.category is Some
        },
        record_path(archive, group_code, icon_id, block_index) matches Some(path) ==> path == classify_view(
            archive,
            group_code,
            icon_id,
            block_index,
        ).category.unwrap().segment_texts(),
{
}

/// The block an asset is listed under: the first block of the verified assembly that holds
/// `block_index`, or the block itself.
pub open spec fn canonical_block(archive: Seq<char>, block_index: u32) -> u32 {
    match first_plan(spec_assembly_rules(), archive, block_index, VerificationStatus::HumanVerified) {
        Some(plan) => plan.first_block,
        None => block_index,
    }
}

/// Whether a verified assembly starts at or holds `block_index`.
pub open spec fn is_assembled(archive: Seq<char>, block_index: u32) -> bool {
    first_plan(spec_assembly_rules(), archive, block_index, VerificationStatus::HumanVerified) is Some
}

fn classification_of(archive: &str, group_code: u32, icon_id: u32, block_index: u32) -> (classification:
    RecordClassification)
    ensures
        classification == classify_view(archive@, group_code, icon_id, block_index),
{
    classify_record(CatalogRecordKey { archive, group_code, icon_id, block_index })
}

fn path_of(classification: RecordClassification) -> (path: Option<&'static [&'static str]>)
    ensures
        match verified_path(classification) {
            Some(p) => path matches Some(segments) && segments@.map_values(|s: &str| s@) == p,
            None => path is None,
        },
{
    if classification.boundary_status == VerificationStatus::HumanVerified
        && classification.meaning_status == VerificationStatus::HumanVerified {
        match classification.category {
            Some(category) => Some(category.segments()),
            None => None,
        }
    } else {
        None
    }
}

fn canonical_block_of(archive: &str, block_index: u32) -> (block: u32)
    ensures
        block == canonical_block(archive@, block_index),
{
    match assembly_plan(archive, block_index) {
        Some(plan) => plan.first_block,
        None => block_index,
    }
}

/// Whether the segments of a category equal the requested path, one by one.
pub fn category_matches(segments: &[&str], path: &[String]) -> (matches: bool)
    ensures
        matches == (segments@.map_values(|s: &str| s@) == path_texts(path@)),
{
    if segments.len() != path.len() {
        proof {
            assert(segments@.map_values(|s: &str| s@).len() != path_texts(path@).len());
        }
        return false;
    }
    let mut index: usize = 0;
    while index < segments.len()
        invariant
            segments@.len() == path@.len(),
            index <= segments@.len(),
            forall|k: int| 0 <= k < index ==> #[trigger] segments@[k]@ == path@[k]@,
        decreases segments@.len() - index,
    {
        if !str_equal(segments[index], path[index].as_str()) {
            proof {
                assert(segments@.map_values(|s: &str| s@)[index as int] != path_texts(path@)[index as int]);
            }
            return false;
        }
        index += 1;
    }
    assert(segments@.map_values(|s: &str| s@) =~= path_texts(path@));
    true
}

/// Whether two texts are equal, character by character.
pub fn str_equal(a: &str, b: &str) -> (equal: bool)
    ensures
        equal == (a@ == b@),
{
    let length = a.unicode_len();
    if length != b.unicode_len() {
        return false;
    }
    let mut index: usize = 0;
    while index < length
        invariant
            length == a@.len(),
            length == b@.len(),
            index <= length,
            forall|k: int| 0 <= k < index ==> a@[k] == b@[k],
        decreases length - index,
    {
        if a.get_char(index) != b.get_char(index) {
            return false;
        }
        index += 1;
    }
    assert(a@ =~= b@);
    true
}


/// What the records of an indexed archive filed under `path` contribute, in record order:
/// each one's listing block and key.
pub open spec fn indexed_matches(archive: Seq<char>, records: Seq<IndexRecord>, path: Seq<Seq<char>>) -> Seq<
    (u32, ResourceKey),
>
    decreases records.len(),
{
    if records.len() == 0 {
        Seq::empty()
    } else {
        let rest = indexed_matches(archive, records.drop_last(), path);
        let r = records.last();
        if record_path(archive, r.group_code, r.icon_id, r.block_index) == Some(path) {
            rest.push(
                (
                    canonical_block(archive, r.block_index),
                    ResourceKey { group_code: r.group_code, icon_id: r.icon_id, block_index: r.block_index },
                ),
            )
        } else {
            rest
        }
    }
}

/// `sorted` (ascending by block, one entry per block) with `item` added unless its block is
/// already there.
pub open spec fn insert_new_block(sorted: Seq<(u32, ResourceKey)>, item: (u32, ResourceKey)) -> Seq<
    (u32, ResourceKey),
>
    decreases sorted.len(),
{
    if sorted.len() == 0 {
        seq![item]
    } else if sorted[0].0 == item.0 {
        sorted
    } else if sorted[0].0 > item.0 {
        seq![item] + sorted
    } else {
        seq![sorted[0]] + insert_new_block(sorted.drop_first(), item)
    }
}

/// One entry per block, ascending by block, each with the first key seen for it.
pub open spec fn first_key_per_block(items: Seq<(u32, ResourceKey)>) -> Seq<(u32, ResourceKey)>
    decreases items.len(),
{
    if items.len() == 0 {
        Seq::empty()
    } else {
        insert_new_block(first_key_per_block(items.drop_last()), items.last())
    }
}

/// The assets an indexed archive shows under `path`: one per listing block, in block order,
/// with the first record that maps to that block.
pub open spec fn archive_assets(archive: Seq<char>, records: Seq<IndexRecord>, path: Seq<Seq<char>>) -> Seq<
    AssetRefView,
> {
    first_key_per_block(indexed_matches(archive, records, path)).map_values(
        |item: (u32, ResourceKey)|
            AssetRefView {
                prefix: archive,
                key: item.1,
                raw_key: None,
                canonical_block: item.0,
                assembled: is_assembled(archive, item.0),
            },
    )
}

/// The asset a raw block is shown as.
pub open spec fn raw_asset(archive: Seq<char>, record: RawImageRecord) -> AssetRefView {
    AssetRefView {
        prefix: archive,
        key: ResourceKey {
            group_code: 0,
            icon_id: record.key.block_index,
            block_index: record.key.block_index,
        },
        raw_key: Some(record.key),
        canonical_block: record.key.block_index,
        assembled: false,
    }
}

/// The assets a raw archive shows under `path`, in block order.
pub open spec fn raw_assets(archive: Seq<char>, records: Seq<RawImageRecord>, path: Seq<Seq<char>>) -> Seq<
    AssetRefView,
>
    decreases records.len(),
{
    if records.len() == 0 {
        Seq::empty()
    } else {
        let rest = raw_assets(archive, records.drop_last(), path);
        let r = records.last();
        if record_path(archive, 0, r.key.block_index, r.key.block_index) == Some(path) {
            rest.push(raw_asset(archive, r))
        } else {
            rest
        }
    }
}

proof fn lemma_insert_new_block_at(sorted: Seq<(u32, ResourceKey)>, item: (u32, ResourceKey), k: int)
    requires
        0 <= k <= sorted.len(),
        forall|j: int| 0 <= j < k ==> sorted[j].0 < item.0,
        k < sorted.len() ==> sorted[k].0 >= item.0,
    ensures
        insert_new_block(sorted, item) == (if k < sorted.len() && sorted[k].0 == item.0 {
            sorted
        } else {
            sorted.insert(k, item)
        }),
    decreases k,
{
    if sorted.len() == 0 {
        assert(sorted.insert(0, item) =~= seq![item]);
    } else if k == 0 {
        if sorted[0].0 != item.0 {
            assert(sorted.insert(0, item) =~= seq![item] + sorted);
        }
    } else {
        lemma_insert_new_block_at(sorted.drop_first(), item, k - 1);
        if k < sorted.len() && sorted[k].0 == item.0 {
            assert(seq![sorted[0]] + sorted.drop_first() =~= sorted);
        } else {
            assert(seq![sorted[0]] + sorted.drop_first().insert(k - 1, item) =~= sorted.insert(k, item));
        }
    }
}

#[verifier::loop_isolation(false)]
fn insert_new_block_exec(sorted: &mut Vec<(u32, ResourceKey)>, item: (u32, ResourceKey))
    ensures
        final(sorted)@ == insert_new_block(old(sorted)@, item),
{
    let mut k: usize = 0;
    while k < sorted.len()
        invariant
            k <= sorted@.len(),
            sorted@ == old(sorted)@,
            forall|j: int| 0 <= j < k ==> sorted@[j].0 < item.0,
        decreases sorted@.len() - k,
    {
        if sorted[k].0 >= item.0 {
            break;
        }
        k += 1;
    }
    proof {
        lemma_insert_new_block_at(sorted@, item, k as int);
    }
    if k < sorted.len() && sorted[k].0 == item.0 {
        return;
    }
    sorted.insert(k, item);
}

/// The assets of one indexed archive under `path`.
#[verifier::loop_isolation(false)]
pub(crate) fn indexed_archive_assets(archive: &str, records: &[IndexRecord], path: &[String]) -> (assets: Vec<
    VerifiedAssetRef,
>)
    ensures
        asset_views(assets@) == archive_assets(archive@, records@, path_texts(path@)),
{
    let ghost wanted = path_texts(path@);
    let mut blocks: Vec<(u32, ResourceKey)> = Vec::new();
    let mut index: usize = 0;
    while index < records.len()
        invariant
            index <= records@.len(),
            blocks@ == first_key_per_block(indexed_matches(archive@, records@.take(index as int), wanted)),
        decreases records@.len() - index,
    {
        let record = records[index];
        proof {
            assert(records@.take(index + 1).drop_last() =~= records@.take(index as int));
            assert(records@.take(index + 1).last() == record);
        }
        let classification = classification_of(
            archive,
            record.group_code,
            record.icon_id,
            record.block_index,
        );
        match path_of(classification) {
            Some(segments) => {
                if category_matches(segments, path) {
                    let block = canonical_block_of(archive, record.block_index);
                    let item = (
                        block,
                        ResourceKey {
                            group_code: record.group_code,
                            icon_id: record.icon_id,
                            block_index: record.block_index,
                        },
                    );
                    let ghost previous = indexed_matches(archive@, records@.take(index as int), wanted);
                    assert(previous.push(item).drop_last() =~= previous);
                    insert_new_block_exec(&mut blocks, item);
                }
            },
            None => {},
        }
        index += 1;
    }
    assert(records@.take(index as int) =~= records@);
    let mut assets: Vec<VerifiedAssetRef> = Vec::new();
    let mut position: usize = 0;
    while position < blocks.len()
        invariant
            position <= blocks@.len(),
            asset_views(assets@) == archive_assets(archive@, records@, wanted).take(position as int),
        decreases blocks@.len() - position,
    {
        let (block, key) = blocks[position];
        let assembled = assembly_plan(archive, block).is_some();
        let ghost before = asset_views(assets@);
        assets.push(
            VerifiedAssetRef {
                prefix: String::from_str(archive),
                key,
                raw_key: None,
                canonical_block: block,
                assembled,
            },
        );
        proof {
            assert(asset_views(assets@) =~= before.push(assets@.last()@));
            assert(archive_assets(archive@, records@, wanted).take(position + 1) =~= archive_assets(
                archive@,
                records@,
                wanted,
            ).take(position as int).push(archive_assets(archive@, records@, wanted)[position as int]));
        }
        position += 1;
    }
    assert(archive_assets(archive@, records@, wanted).take(position as int) =~= archive_assets(
        archive@,
        records@,
        wanted,
    ));
    assets
}

/// The assets of one raw archive under `path`.
#[verifier::loop_isolation(false)]
pub(crate) fn raw_archive_assets(archive: &str, records: &[RawImageRecord], path: &[String]) -> (assets: Vec<
    VerifiedAssetRef,
>)
    ensures
        asset_views(assets@) == raw_assets(archive@, records@, path_texts(path@)),
{
    let ghost wanted = path_texts(path@);
    let mut assets: Vec<VerifiedAssetRef> = Vec::new();
    let mut index: usize = 0;
    while index < records.len()
        invariant
            index <= records@.len(),
            asset_views(assets@) == raw_assets(archive@, records@.take(index as int), wanted),
        decreases records@.len() - index,
    {
        let record = records[index];
        proof {
            assert(records@.take(index + 1).drop_last() =~= records@.take(index as int));
            assert(records@.take(index + 1).last() == record);
        }
        let block = record.key.block_index;
        let classification = classification_of(archive, 0, block, block);
        match path_of(classification) {
            Some(segments) => {
                if category_matches(segments, path) {
                    let ghost before = asset_views(assets@);
                    assets.push(
                        VerifiedAssetRef {
                            prefix: String::from_str(archive),
                            key: ResourceKey { group_code: 0, icon_id: block, block_index: block },
                            raw_key: Some(record.key),
                            canonical_block: block,
                            assembled: false,
                        },
                    );
                    assert(asset_views(assets@) =~= before.push(raw_asset(archive@, record)));
                }
            },
            None => {},
        }
        index += 1;
    }
    assert(records@.take(index as int) =~= records@);
    assets
}

} // verus!
