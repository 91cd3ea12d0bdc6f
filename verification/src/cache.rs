//! A bounded cache of viewer thumbnails that forgets the least recently used one first.

use vstd::prelude::*;
use vstd::string::StringSliceAdditionalSpecFns;

verus! {

/// A thumbnail ready for display, with the record it was made from.
#[derive(Debug, PartialEq, Eq)]
pub struct VerifiedAssetThumbnail {
    pub archive: String,
    pub icon_id: Option<u32>,
    pub block_index: u32,
    pub source_width: u32,
    pub source_height: u32,
    pub thumbnail_width: u32,
    pub thumbnail_height: u32,
    pub assembled: bool,
    pub thumbnail_data_url: String,
}

/// The content of a thumbnail.
pub struct ThumbnailView {
    pub archive: Seq<char>,
    pub icon_id: Option<u32>,
    pub block_index: u32,
    pub source_width: u32,
    pub source_height: u32,
    pub thumbnail_width: u32,
    pub thumbnail_height: u32,
    pub assembled: bool,
    pub thumbnail_data_url: Seq<char>,
}

impl View for VerifiedAssetThumbnail {
    type V = ThumbnailView;

    open spec fn view(&self) -> ThumbnailView {
        ThumbnailView {
            archive: self.archive@,
            icon_id: self.icon_id,
            block_index: self.block_index,
            source_width: self.source_width,
            source_height: self.source_height,
            thumbnail_width: self.thumbnail_width,
            thumbnail_height: self.thumbnail_height,
            assembled: self.assembled,
            thumbnail_data_url: self.thumbnail_data_url@,
        }
    }
}

impl Clone for VerifiedAssetThumbnail {
    fn clone(&self) -> (copy: Self)
        ensures
            copy@ == self@,
    {
        VerifiedAssetThumbnail {
            archive: self.archive.clone(),
            icon_id: self.icon_id,
            block_index: self.block_index,
            source_width: self.source_width,
            source_height: self.source_height,
            thumbnail_width: self.thumbnail_width,
            thumbnail_height: self.thumbnail_height,
            assembled: self.assembled,
            thumbnail_data_url: self.thumbnail_data_url.clone(),
        }
    }
}

/// What a cached thumbnail is filed under.
#[derive(Debug, PartialEq, Eq, Hash)]
pub struct ThumbnailCacheKey {
    pub prefix: String,
    pub icon_id: u32,
    pub canonical_block: u32,
    pub assembled: bool,
}

/// The content of a cache key.
pub struct KeyView {
    pub prefix: Seq<char>,
    pub icon_id: u32,
    pub canonical_block: u32,
    pub assembled: bool,
}

impl View for ThumbnailCacheKey {
    type V = KeyView;

    open spec fn view(&self) -> KeyView {
        KeyView {
            prefix: self.prefix@,
            icon_id: self.icon_id,
            canonical_block: self.canonical_block,
            assembled: self.assembled,
        }
    }
}

impl Clone for ThumbnailCacheKey {
    fn clone(&self) -> (copy: Self)
        ensures
            copy@ == self@,
    {
        ThumbnailCacheKey {
            prefix: self.prefix.clone(),
            icon_id: self.icon_id,
            canonical_block: self.canonical_block,
            assembled: self.assembled,
        }
    }
}

fn keys_equal(a: &ThumbnailCacheKey, b: &ThumbnailCacheKey) -> (equal: bool)
    ensures
        equal == (a@ == b@),
{
    a.prefix == b.prefix && a.icon_id == b.icon_id && a.canonical_block == b.canonical_block
        && a.assembled == b.assembled
}

/// The length of a text's UTF-8 form, as `str::len` reports it.
pub open spec fn text_byte_len(text: Seq<char>) -> nat {
    (vstd::utf8::encode_utf8(text).len() as usize) as nat
}

/// The number of bytes a thumbnail is charged in the cache: the size of the value itself plus
/// the UTF-8 length of its two texts, saturating at `usize::MAX`.
pub open spec fn thumbnail_cache_bytes(t: ThumbnailView) -> nat {
    let total = vstd::layout::size_of::<VerifiedAssetThumbnail>() + text_byte_len(t.archive)
        + text_byte_len(t.thumbnail_data_url);
    if total > usize::MAX {
        usize::MAX as nat
    } else {
        total as nat
    }
}

/// The bytes a thumbnail is charged in the cache.
pub fn thumbnail_cache_size(thumbnail: &VerifiedAssetThumbnail) -> (size: usize)
    ensures
        size == thumbnail_cache_bytes(thumbnail@),
{
    let base = core::mem::size_of::<VerifiedAssetThumbnail>();
    let archive = thumbnail.archive.as_str();
    let url = thumbnail.thumbnail_data_url.as_str();
    let archive_bytes = archive.len();
    let url_bytes = url.len();
    base.saturating_add(archive_bytes).saturating_add(url_bytes)
}

/// The cached thumbnails, least recently used first.
pub open spec fn cached_bytes(entries: Seq<(KeyView, ThumbnailView)>) -> nat
    decreases entries.len(),
{
    if entries.len() == 0 {
        0
    } else {
        cached_bytes(entries.drop_last()) + thumbnail_cache_bytes(entries.last().1)
    }
}

/// The thumbnail cached under `key`, if any.
pub open spec fn cache_lookup(entries: Seq<(KeyView, ThumbnailView)>, key: KeyView) -> Option<ThumbnailView>
    decreases entries.len(),
{
    if entries.len() == 0 {
        None
    } else if entries[0].0 == key {
        Some(entries[0].1)
    } else {
        cache_lookup(entries.drop_first(), key)
    }
}

/// `entries` without the first one filed under `key`.
pub open spec fn remove_key(entries: Seq<(KeyView, ThumbnailView)>, key: KeyView) -> Seq<(KeyView, ThumbnailView)>
    decreases entries.len(),
{
    if entries.len() == 0 {
        entries
    } else if entries[0].0 == key {
        entries.drop_first()
    } else {
        seq![entries[0]] + remove_key(entries.drop_first(), key)
    }
}

/// `entries` after forgetting the least recently used thumbnails until one more of `size`
/// bytes fits both limits.
pub open spec fn evict_for(entries: Seq<(KeyView, ThumbnailView)>, size: nat, max_items: nat, max_bytes: nat) -> Seq<
    (KeyView, ThumbnailView),
>
    decreases entries.len(),
{
    if entries.len() > 0 && (entries.len() >= max_items || cached_bytes(entries) + size > max_bytes) {
        evict_for(entries.drop_first(), size, max_items, max_bytes)
    } else {
        entries
    }
}

/// The cache's entries after `insert(key, thumbnail)`: nothing changes when the cache holds
/// no items or the thumbnail alone exceeds the byte limit; otherwise an older thumbnail under
/// the same key is dropped, the least recently used ones are evicted until the new one fits,
/// and it becomes the most recently used.
pub open spec fn cache_after_insert(
    entries: Seq<(KeyView, ThumbnailView)>,
    max_items: nat,
    max_bytes: nat,
    key: KeyView,
    thumbnail: ThumbnailView,
) -> Seq<(KeyView, ThumbnailView)> {
    let size = thumbnail_cache_bytes(thumbnail);
    if max_items == 0 || size > max_bytes {
        entries
    } else {
        evict_for(remove_key(entries, key), size, max_items, max_bytes).push((key, thumbnail))
    }
}

/// The cache's entries after `get(key)`: a thumbnail found under `key` becomes the most
/// recently used.
pub open spec fn cache_after_get(entries: Seq<(KeyView, ThumbnailView)>, key: KeyView) -> Seq<
    (KeyView, ThumbnailView),
> {
    match cache_lookup(entries, key) {
        Some(thumbnail) => remove_key(entries, key).push((key, thumbnail)),
        None => entries,
    }
}

/// Whether no two entries share a key.
pub open spec fn keys_distinct(entries: Seq<(KeyView, ThumbnailView)>) -> bool {
    forall|i: int, j: int| 0 <= i < j < entries.len() ==> #[trigger] entries[i].0 != #[trigger] entries[j].0
}

#[derive(Debug)]
struct CacheEntry {
    key: ThumbnailCacheKey,
    thumbnail: VerifiedAssetThumbnail,
    size_bytes: usize,
}

/// The views of cache entries.
spec fn entry_pairs(entries: Seq<CacheEntry>) -> Seq<(KeyView, ThumbnailView)> {
    entries.map_values(|e: CacheEntry| (e.key@, e.thumbnail@))
}

/// Thumbnails held for reuse, at most `max_items` of them and at most `max_bytes` bytes in all.
#[derive(Debug)]
pub struct ThumbnailCache {
    entries: Vec<CacheEntry>,
    total_bytes: usize,
    max_items: usize,
    max_bytes: usize,
}


proof fn lemma_cached_bytes_remove(s: Seq<(KeyView, ThumbnailView)>, i: int)
    requires
        0 <= i < s.len(),
    ensures
        cached_bytes(s.remove(i)) + thumbnail_cache_bytes(s[i].1) == cached_bytes(s),
    decreases s.len(),
{
    if i == s.len() - 1 {
        assert(s.remove(i) =~= s.drop_last());
    } else {
        lemma_cached_bytes_remove(s.drop_last(), i);
        assert(s.remove(i).drop_last() =~= s.drop_last().remove(i));
        assert(s.remove(i).last() == s.last());
    }
}

proof fn lemma_remove_key_at(s: Seq<(KeyView, ThumbnailView)>, key: KeyView, i: int)
    requires
        0 <= i <= s.len(),
        forall|j: int| 0 <= j < i ==> s[j].0 != key,
        i < s.len() ==> s[i].0 == key,
    ensures
        i < s.len() ==> remove_key(s, key) == s.remove(i) && cache_lookup(s, key) == Some(s[i].1),
        i == s.len() ==> remove_key(s, key) == s && cache_lookup(s, key) is None,
    decreases i,
{
    if s.len() == 0 {
    } else if i == 0 {
        assert(s.remove(0) =~= s.drop_first());
    } else {
        lemma_remove_key_at(s.drop_first(), key, i - 1);
        if i < s.len() {
            assert(seq![s[0]] + s.drop_first().remove(i - 1) =~= s.remove(i));
        } else {
            assert(seq![s[0]] + s.drop_first() =~= s);
        }
    }
}

proof fn lemma_distinct_remove(s: Seq<(KeyView, ThumbnailView)>, i: int)
    requires
        keys_distinct(s),
        0 <= i < s.len(),
    ensures
        keys_distinct(s.remove(i)),
        forall|j: int| 0 <= j < s.remove(i).len() ==> s.remove(i)[j].0 != s[i].0,
{
    let r = s.remove(i);
    assert forall|a: int, b: int| 0 <= a < b < r.len() implies #[trigger] r[a].0 != #[trigger] r[b].0 by {
        let a2 = if a < i { a } else { a + 1 };
        let b2 = if b < i { b } else { b + 1 };
        assert(r[a] == s[a2] && r[b] == s[b2]);
    }
    assert forall|j: int| 0 <= j < r.len() implies r[j].0 != s[i].0 by {
        let j2 = if j < i { j } else { j + 1 };
        assert(r[j] == s[j2]);
    }
}

proof fn lemma_evict_is_suffix(s: Seq<(KeyView, ThumbnailView)>, size: nat, max_items: nat, max_bytes: nat)
    ensures
        exists|k: int| 0 <= k <= s.len() && #[trigger] s.skip(k) == evict_for(s, size, max_items, max_bytes),
    decreases s.len(),
{
    if s.len() > 0 && (s.len() >= max_items || cached_bytes(s) + size > max_bytes) {
        lemma_evict_is_suffix(s.drop_first(), size, max_items, max_bytes);
        let k = choose|k: int| 0 <= k <= s.drop_first().len() && #[trigger] s.drop_first().skip(k)
            == evict_for(s.drop_first(), size, max_items, max_bytes);
        assert(s.skip(k + 1) =~= s.drop_first().skip(k));
    } else {
        assert(s.skip(0) =~= s);
    }
}

/// A thumbnail just inserted into a cache with distinct keys is found under its key, unless
/// the cache holds no items or the thumbnail alone exceeds the byte limit.
pub proof fn lemma_inserted_thumbnail_is_found(
    entries: Seq<(KeyView, ThumbnailView)>,
    max_items: nat,
    max_bytes: nat,
    key: KeyView,
    thumbnail: ThumbnailView,
)
    requires
        keys_distinct(entries),
        max_items > 0,
        thumbnail_cache_bytes(thumbnail) <= max_bytes,
    ensures
        cache_lookup(cache_after_insert(entries, max_items, max_bytes, key, thumbnail), key) == Some(
            thumbnail,
        ),
{
    let size = thumbnail_cache_bytes(thumbnail);
    let without = remove_key(entries, key);
    lemma_remove_key_absent(entries, key);
    let kept = evict_for(without, size, max_items, max_bytes);
    lemma_evict_is_suffix(without, size, max_items, max_bytes);
    let k = choose|k: int| 0 <= k <= without.len() && #[trigger] without.skip(k) == kept;
    assert forall|j: int| 0 <= j < kept.len() implies kept[j].0 != key by {
        assert(kept[j] == without[j + k]);
    }
    let full = kept.push((key, thumbnail));
    lemma_remove_key_at(full, key, kept.len() as int);
}

proof fn lemma_remove_key_absent(s: Seq<(KeyView, ThumbnailView)>, key: KeyView)
    requires
        keys_distinct(s),
    ensures
        forall|j: int| 0 <= j < remove_key(s, key).len() ==> remove_key(s, key)[j].0 != key,
{
    let i = if exists|i: int| 0 <= i < s.len() && s[i].0 == key {
        choose|i: int| 0 <= i < s.len() && s[i].0 == key
    } else {
        s.len() as int
    };
    if i < s.len() {
        assert forall|j: int| 0 <= j < i implies s[j].0 != key by {
            assert(s[j].0 != s[i].0);
        }
        lemma_remove_key_at(s, key, i);
        lemma_distinct_remove(s, i);
    } else {
        lemma_remove_key_at(s, key, i);
    }
}

pub(crate) proof fn lemma_lookup_is_entry(s: Seq<(KeyView, ThumbnailView)>, key: KeyView)
    ensures
        cache_lookup(s, key) matches Some(t) ==> s.contains((key, t)),
    decreases s.len(),
{
    if s.len() > 0 && s[0].0 != key {
        lemma_lookup_is_entry(s.drop_first(), key);
        if cache_lookup(s, key) is Some {
            let t = cache_lookup(s, key)->0;
            let j = choose|j: int| 0 <= j < s.drop_first().len() && s.drop_first()[j] == (key, t);
            assert(s[j + 1] == (key, t));
        }
    } else if s.len() > 0 {
        assert(s[0] == (key, s[0].1));
    }
}

proof fn lemma_remove_key_within(s: Seq<(KeyView, ThumbnailView)>, key: KeyView)
    ensures
        forall|e: (KeyView, ThumbnailView)| #[trigger] remove_key(s, key).contains(e) ==> s.contains(e),
    decreases s.len(),
{
    if s.len() > 0 {
        lemma_remove_key_within(s.drop_first(), key);
        assert forall|e: (KeyView, ThumbnailView)| #[trigger] remove_key(s, key).contains(e) implies s.contains(e) by {
            let r = remove_key(s, key);
            let j = choose|j: int| 0 <= j < r.len() && r[j] == e;
            if s[0].0 == key {
                assert(s[j + 1] == e);
            } else if j == 0 {
                assert(s[0] == e);
            } else {
                assert(remove_key(s.drop_first(), key)[j - 1] == e);
                assert(remove_key(s.drop_first(), key).contains(e));
                let m = choose|m: int| 0 <= m < s.drop_first().len() && s.drop_first()[m] == e;
                assert(s[m + 1] == e);
            }
        }
    }
}

/// Every thumbnail the cache holds after `get(key)` it held before.
pub proof fn lemma_get_keeps_entries(entries: Seq<(KeyView, ThumbnailView)>, key: KeyView)
    ensures
        forall|e: (KeyView, ThumbnailView)| #[trigger] cache_after_get(entries, key).contains(e) ==> entries.contains(e),
{
    lemma_lookup_is_entry(entries, key);
    lemma_remove_key_within(entries, key);
    if cache_lookup(entries, key) is Some {
        let t = cache_lookup(entries, key)->0;
        let r = remove_key(entries, key);
        assert forall|e: (KeyView, ThumbnailView)| #[trigger] cache_after_get(entries, key).contains(e) implies entries.contains(
            e,
        ) by {
            let after = r.push((key, t));
            let j = choose|j: int| 0 <= j < after.len() && after[j] == e;
            if j < r.len() {
                assert(r[j] == e);
                assert(r.contains(e));
            }
        }
    }
}

/// Every thumbnail the cache holds after `insert(key, thumbnail)` it held before, but the one
/// just inserted.
pub proof fn lemma_insert_keeps_entries(
    entries: Seq<(KeyView, ThumbnailView)>,
    max_items: nat,
    max_bytes: nat,
    key: KeyView,
    thumbnail: ThumbnailView,
)
    ensures
        forall|e: (KeyView, ThumbnailView)|
            #[trigger] cache_after_insert(entries, max_items, max_bytes, key, thumbnail).contains(e) ==> entries.contains(e)
                || e == (key, thumbnail),
{
    let size = thumbnail_cache_bytes(thumbnail);
    if !(max_items == 0 || size > max_bytes) {
        let without = remove_key(entries, key);
        lemma_remove_key_within(entries, key);
        let kept = evict_for(without, size, max_items, max_bytes);
        lemma_evict_is_suffix(without, size, max_items, max_bytes);
        let k = choose|k: int| 0 <= k <= without.len() && #[trigger] without.skip(k) == kept;
        assert forall|e: (KeyView, ThumbnailView)| #[trigger] cache_after_insert(
            entries,
            max_items,
            max_bytes,
            key,
            thumbnail,
        ).contains(e) implies entries.contains(e) || e == (key, thumbnail) by {
            let after = kept.push((key, thumbnail));
            let j = choose|j: int| 0 <= j < after.len() && after[j] == e;
            if j < kept.len() {
                assert(without[j + k] == e);
                assert(without.contains(e));
            }
        }
    }
}


/// Whether one more thumbnail of `size` bytes fits beside `entries` under both limits.
pub open spec fn fits_one_more(entries: Seq<(KeyView, ThumbnailView)>, size: nat, max_items: nat, max_bytes: nat) -> bool {
    entries.len() < max_items && cached_bytes(entries) + size <= max_bytes
}

proof fn lemma_evict_keeps_newest_that_fit(s: Seq<(KeyView, ThumbnailView)>, size: nat, max_items: nat, max_bytes: nat)
    requires
        max_items > 0,
        size <= max_bytes,
    ensures
        exists|k: int|
            0 <= k <= s.len() && #[trigger] s.skip(k) == evict_for(s, size, max_items, max_bytes) && fits_one_more(
                s.skip(k),
                size,
                max_items,
                max_bytes,
            ) && (k > 0 ==> !fits_one_more(s.skip(k - 1), size, max_items, max_bytes)),
    decreases s.len(),
{
    if s.len() > 0 && (s.len() >= max_items || cached_bytes(s) + size > max_bytes) {
        lemma_evict_keeps_newest_that_fit(s.drop_first(), size, max_items, max_bytes);
        let k = choose|k: int|
            0 <= k <= s.drop_first().len() && #[trigger] s.drop_first().skip(k) == evict_for(
                s.drop_first(),
                size,
                max_items,
                max_bytes,
            ) && fits_one_more(s.drop_first().skip(k), size, max_items, max_bytes) && (k > 0 ==> !fits_one_more(
                s.drop_first().skip(k - 1),
                size,
                max_items,
                max_bytes,
            ));
        assert(s.skip(k + 1) =~= s.drop_first().skip(k));
        if k > 0 {
            assert(s.skip(k) =~= s.drop_first().skip(k - 1));
        } else {
            assert(s.skip(0) =~= s);
        }
        assert(s.skip(k + 1) == evict_for(s, size, max_items, max_bytes));
    } else {
        assert(s.skip(0) =~= s);
        if s.len() == 0 {
            assert(cached_bytes(s) == 0);
        }
    }
}

/// An insertion evicts only the least recently used thumbnails, and only as many as it must:
/// the thumbnails kept beside the new one are the most recently used of the others, in their
/// order, and keeping one more of them would break a limit.
pub proof fn lemma_insert_evicts_least_recently_used(
    entries: Seq<(KeyView, ThumbnailView)>,
    max_items: nat,
    max_bytes: nat,
    key: KeyView,
    thumbnail: ThumbnailView,
)
    requires
        max_items > 0,
        thumbnail_cache_bytes(thumbnail) <= max_bytes,
    ensures
        exists|k: int|
            #![trigger remove_key(entries, key).skip(k)]
            0 <= k <= remove_key(entries, key).len() && cache_after_insert(entries, max_items, max_bytes, key, thumbnail)
                == remove_key(entries, key).skip(k).push((key, thumbnail)) && fits_one_more(
                remove_key(entries, key).skip(k),
                thumbnail_cache_bytes(thumbnail),
                max_items,
                max_bytes,
            ) && (k > 0 ==> !fits_one_more(
                remove_key(entries, key).skip(k - 1),
                thumbnail_cache_bytes(thumbnail),
                max_items,
                max_bytes,
            )),
{
    let others = remove_key(entries, key);
    lemma_evict_keeps_newest_that_fit(others, thumbnail_cache_bytes(thumbnail), max_items, max_bytes);
}

impl ThumbnailCache {
    /// The cached thumbnails with their keys, least recently used first.
    pub closed spec fn spec_entries(&self) -> Seq<(KeyView, ThumbnailView)> {
        entry_pairs(self.entries@)
    }

    pub closed spec fn spec_max_items(&self) -> nat {
        self.max_items as nat
    }

    pub closed spec fn spec_max_bytes(&self) -> nat {
        self.max_bytes as nat
    }

    /// The cache's bookkeeping is consistent: keys are distinct, each entry is charged its
    /// size, the byte total is their sum, and both limits hold.
    pub closed spec fn wf(&self) -> bool {
        &&& keys_distinct(entry_pairs(self.entries@))
        &&& forall|i: int|
            0 <= i < self.entries@.len() ==> #[trigger] self.entries@[i].size_bytes
                == thumbnail_cache_bytes(self.entries@[i].thumbnail@)
        &&& self.total_bytes == cached_bytes(entry_pairs(self.entries@))
        &&& self.entries@.len() <= self.max_items
        &&& self.total_bytes <= self.max_bytes
    }

    /// A well-formed cache has distinct keys and stays within both of its limits.
    pub proof fn lemma_within_limits(&self)
        requires
            self.wf(),
        ensures
            keys_distinct(self.spec_entries()),
            self.spec_entries().len() <= self.spec_max_items(),
            cached_bytes(self.spec_entries()) <= self.spec_max_bytes(),
    {
    }

    /// An empty cache with the given limits.
    pub fn with_limits(max_items: usize, max_bytes: usize) -> (cache: Self)
        ensures
            cache.wf(),
            cache.spec_entries() == Seq::<(KeyView, ThumbnailView)>::empty(),
            cache.spec_max_items() == max_items,
            cache.spec_max_bytes() == max_bytes,
    {
        let cache = ThumbnailCache { entries: Vec::new(), total_bytes: 0, max_items, max_bytes };
        assert(entry_pairs(cache.entries@) =~= Seq::<(KeyView, ThumbnailView)>::empty());
        cache
    }

    /// The number of cached thumbnails.
    pub fn len(&self) -> (count: usize)
        ensures
            count == self.spec_entries().len(),
    {
        self.entries.len()
    }

    /// The bytes charged for all cached thumbnails.
    pub fn total_bytes(&self) -> (total: usize)
        requires
            self.wf(),
        ensures
            total == cached_bytes(self.spec_entries()),
    {
        self.total_bytes
    }

    /// Forgets every thumbnail.
    pub fn clear(&mut self)
        ensures
            final(self).wf(),
            final(self).spec_entries() == Seq::<(KeyView, ThumbnailView)>::empty(),
            final(self).spec_max_items() == old(self).spec_max_items(),
            final(self).spec_max_bytes() == old(self).spec_max_bytes(),
    {
        self.entries = Vec::new();
        self.total_bytes = 0;
        assert(entry_pairs(self.entries@) =~= Seq::<(KeyView, ThumbnailView)>::empty());
    }

    /// Index of the entry filed under `key`, or the number of entries.
    fn position(&self, key: &ThumbnailCacheKey) -> (index: usize)
        ensures
            index <= self.entries@.len(),
            forall|j: int| 0 <= j < index ==> entry_pairs(self.entries@)[j].0 != key@,
            index < self.entries@.len() ==> entry_pairs(self.entries@)[index as int].0 == key@,
    {
        let mut index: usize = 0;
        while index < self.entries.len()
            invariant
                index <= self.entries@.len(),
                forall|j: int| 0 <= j < index ==> entry_pairs(self.entries@)[j].0 != key@,
            decreases self.entries@.len() - index,
        {
            if keys_equal(&self.entries[index].key, key) {
                return index;
            }
            index += 1;
        }
        index
    }

    /// The thumbnail filed under `key`, which becomes the most recently used.
    pub fn get(&mut self, key: &ThumbnailCacheKey) -> (thumbnail: Option<VerifiedAssetThumbnail>)
        requires
            old(self).wf(),
        ensures
            final(self).wf(),
            match cache_lookup(old(self).spec_entries(), key@) {
                Some(t) => thumbnail matches Some(found) && found@ == t,
                None => thumbnail is None,
            },
            final(self).spec_entries() == cache_after_get(old(self).spec_entries(), key@),
            final(self).spec_max_items() == old(self).spec_max_items(),
            final(self).spec_max_bytes() == old(self).spec_max_bytes(),
    {
        let ghost pairs = entry_pairs(self.entries@);
        let index = self.position(key);
        proof {
            lemma_remove_key_at(pairs, key@, index as int);
        }
        if index == self.entries.len() {
            return None;
        }
        let entry = self.entries.remove(index);
        let thumbnail = entry.thumbnail.clone();
        proof {
            assert(entry_pairs(self.entries@) =~= pairs.remove(index as int));
            lemma_cached_bytes_remove(pairs, index as int);
            lemma_distinct_remove(pairs, index as int);
        }
        let ghost removed = entry_pairs(self.entries@);
        self.entries.push(entry);
        proof {
            assert(entry_pairs(self.entries@) =~= removed.push(pairs[index as int]));
            assert(entry_pairs(self.entries@).drop_last() =~= removed);
            assert forall|a: int, b: int| 0 <= a < b < entry_pairs(self.entries@).len() implies #[trigger] entry_pairs(
                self.entries@,
            )[a].0 != #[trigger] entry_pairs(self.entries@)[b].0 by {
                if b == removed.len() {
                    assert(removed[a].0 != pairs[index as int].0);
                } else {
                    assert(removed[a].0 != removed[b].0);
                }
            }
            assert forall|i: int| 0 <= i < self.entries@.len() implies #[trigger] self.entries@[i].size_bytes
                == thumbnail_cache_bytes(self.entries@[i].thumbnail@) by {
                if i < index {
                    assert(self.entries@[i] == old(self).entries@[i]);
                } else if i < self.entries@.len() - 1 {
                    assert(self.entries@[i] == old(self).entries@[i + 1]);
                } else {
                    assert(self.entries@[i] == old(self).entries@[index as int]);
                }
            }
        }
        Some(thumbnail)
    }

    /// Files `thumbnail` under `key` as the most recently used, first evicting the least
    /// recently used thumbnails until it fits; does nothing when the cache holds no items or
    /// the thumbnail alone exceeds the byte limit.
    pub fn insert(&mut self, key: ThumbnailCacheKey, thumbnail: VerifiedAssetThumbnail)
        requires
            old(self).wf(),
        ensures
            final(self).wf(),
            final(self).spec_entries() == cache_after_insert(
                old(self).spec_entries(),
                old(self).spec_max_items(),
                old(self).spec_max_bytes(),
                key@,
                thumbnail@,
            ),
            final(self).spec_max_items() == old(self).spec_max_items(),
            final(self).spec_max_bytes() == old(self).spec_max_bytes(),
    {
        let size = thumbnail_cache_size(&thumbnail);
        if self.max_items == 0 || size > self.max_bytes {
            return;
        }
        let ghost pairs = entry_pairs(self.entries@);
        let ghost key_view = key@;
        let index = self.position(&key);
        proof {
            lemma_remove_key_at(pairs, key@, index as int);
            lemma_remove_key_absent(pairs, key@);
        }
        if index < self.entries.len() {
            let removed = self.entries.remove(index);
            proof {
                assert(entry_pairs(self.entries@) =~= pairs.remove(index as int));
                lemma_cached_bytes_remove(pairs, index as int);
                lemma_distinct_remove(pairs, index as int);
                assert forall|i: int| 0 <= i < self.entries@.len() implies #[trigger] self.entries@[i].size_bytes
                    == thumbnail_cache_bytes(self.entries@[i].thumbnail@) by {
                    if i < index {
                        assert(self.entries@[i] == old(self).entries@[i]);
                    } else {
                        assert(self.entries@[i] == old(self).entries@[i + 1]);
                    }
                }
            }
            self.total_bytes = self.total_bytes - removed.size_bytes;
        }
        let ghost without = entry_pairs(self.entries@);
        let ghost target = evict_for(without, size as nat, self.max_items as nat, self.max_bytes as nat);
        while self.entries.len() > 0 && (self.entries.len() >= self.max_items || self.total_bytes
            > self.max_bytes - size)
            invariant
                size <= self.max_bytes,
                self.max_items > 0,
                self.max_items == old(self).max_items,
                self.max_bytes == old(self).max_bytes,
                keys_distinct(entry_pairs(self.entries@)),
                forall|j: int| 0 <= j < entry_pairs(self.entries@).len() ==> entry_pairs(self.entries@)[j].0 != key_view,
                forall|i: int|
                    0 <= i < self.entries@.len() ==> #[trigger] self.entries@[i].size_bytes
                        == thumbnail_cache_bytes(self.entries@[i].thumbnail@),
                self.total_bytes == cached_bytes(entry_pairs(self.entries@)),
                evict_for(entry_pairs(self.entries@), size as nat, self.max_items as nat, self.max_bytes as nat)
                    == target,
            decreases self.entries@.len(),
        {
            let ghost current = entry_pairs(self.entries@);
            let oldest = self.entries.remove(0);
            proof {
                assert(entry_pairs(self.entries@) =~= current.remove(0));
                assert(current.remove(0) =~= current.drop_first());
                lemma_cached_bytes_remove(current, 0);
                lemma_distinct_remove(current, 0);
                assert forall|i: int| 0 <= i < self.entries@.len() implies #[trigger] self.entries@[i].size_bytes
                    == thumbnail_cache_bytes(self.entries@[i].thumbnail@) by {
                    assert(entry_pairs(self.entries@)[i] == current[i + 1]);
                }
                assert forall|j: int| 0 <= j < entry_pairs(self.entries@).len() implies entry_pairs(self.entries@)[j].0
                    != key_view by {
                    assert(entry_pairs(self.entries@)[j] == current[j + 1]);
                }
            }
            self.total_bytes = self.total_bytes - oldest.size_bytes;
        }
        let ghost kept = entry_pairs(self.entries@);
        assert(kept == target);
        self.total_bytes = self.total_bytes + size;
        self.entries.push(CacheEntry { key, thumbnail, size_bytes: size });
        proof {
            assert(entry_pairs(self.entries@) =~= kept.push((key_view, thumbnail@)));
            assert(entry_pairs(self.entries@).drop_last() =~= kept);
            assert forall|a: int, b: int| 0 <= a < b < entry_pairs(self.entries@).len() implies #[trigger] entry_pairs(
                self.entries@,
            )[a].0 != #[trigger] entry_pairs(self.entries@)[b].0 by {
                if b < kept.len() {
                    assert(kept[a].0 != kept[b].0);
                } else {
                    assert(kept[a].0 != key_view);
                }
            }
            assert forall|i: int| 0 <= i < self.entries@.len() implies #[trigger] self.entries@[i].size_bytes
                == thumbnail_cache_bytes(self.entries@[i].thumbnail@) by {
                if i < kept.len() {
                    assert(self.entries@[i] == self.entries@.drop_last()[i]);
                }
            }
        }
    }
}

/// The number of thumbnails a viewer keeps.
pub const THUMBNAIL_CACHE_MAX_ITEMS: usize = 256;

/// The bytes a viewer spends on thumbnails.
pub const THUMBNAIL_CACHE_MAX_BYTES: usize = 33554432;

impl Default for ThumbnailCache {
    fn default() -> (cache: Self)
        ensures
            cache.wf(),
            cache.spec_entries() == Seq::<(KeyView, ThumbnailView)>::empty(),
            cache.spec_max_items() == THUMBNAIL_CACHE_MAX_ITEMS,
            cache.spec_max_bytes() == THUMBNAIL_CACHE_MAX_BYTES,
    {
        Self::with_limits(THUMBNAIL_CACHE_MAX_ITEMS, THUMBNAIL_CACHE_MAX_BYTES)
    }
}

} // verus!
