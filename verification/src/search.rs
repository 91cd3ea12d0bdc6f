//! Searching the verified images: which ones a query finds, and in what order they are listed.

use crate::catalog::{join_segments, VerificationStatus};
use crate::client::{
    asset_is_consistent, canonical_block, classify_view, is_assembled, path_texts, raw_asset,
    record_path, search_views, str_equal, verified_path, AssetRefView, SearchAssetView,
    VerifiedAssetRef, VerifiedSearchAssetRef,
};
use crate::extract::{RawImageRecord, ResourceKey};
use crate::index::IndexRecord;
use crate::snapshot::{lemma_text_less_irreflexive, lemma_text_less_transitive, text_less, text_less_exec};
use crate::text::{
    all_ascii_digits, contains_text, decimal_text, is_all_ascii_digits, is_decimal_of,
    split_words, text_contains, text_words, to_lowercase, trim_space, unicode_lowercase,
};
use vstd::prelude::*;
use vstd::string::StringExecFns;

verus! {

// ---------------------------------------------------------------------------
// Listing order
// ---------------------------------------------------------------------------

/// Lexicographic order of category paths, segment by segment.
pub open spec fn path_less(a: Seq<Seq<char>>, b: Seq<Seq<char>>) -> bool
    decreases a.len(),
{
    if a.len() == 0 {
        b.len() > 0
    } else if b.len() == 0 {
        false
    } else if a[0] != b[0] {
        text_less(a[0], b[0])
    } else {
        path_less(a.drop_first(), b.drop_first())
    }
}

/// The order of search results: by category path, then archive, then listing block.
pub open spec fn search_less(a: SearchAssetView, b: SearchAssetView) -> bool {
    if a.path != b.path {
        path_less(a.path, b.path)
    } else if a.asset.prefix != b.asset.prefix {
        text_less(a.asset.prefix, b.asset.prefix)
    } else {
        a.asset.canonical_block < b.asset.canonical_block
    }
}

/// `sorted` with `x` placed after every entry that does not come after it.
pub open spec fn insert_search(sorted: Seq<SearchAssetView>, x: SearchAssetView) -> Seq<SearchAssetView>
    decreases sorted.len(),
{
    if sorted.len() == 0 {
        seq![x]
    } else if search_less(x, sorted[0]) {
        seq![x] + sorted
    } else {
        seq![sorted[0]] + insert_search(sorted.drop_first(), x)
    }
}

/// `items` in search order; entries that compare equal keep their relative order.
pub open spec fn sort_search(items: Seq<SearchAssetView>) -> Seq<SearchAssetView>
    decreases items.len(),
{
    if items.len() == 0 {
        items
    } else {
        insert_search(sort_search(items.drop_last()), items.last())
    }
}

/// Whether two results occupy the same slot: same path, archive and listing block.
pub open spec fn same_slot(a: SearchAssetView, b: SearchAssetView) -> bool {
    a.path == b.path && a.asset.prefix == b.asset.prefix && a.asset.canonical_block == b.asset.canonical_block
}

pub open spec fn has_slot(items: Seq<SearchAssetView>, x: SearchAssetView) -> bool {
    exists|j: int| 0 <= j < items.len() && same_slot(#[trigger] items[j], x)
}

/// One result per slot: the first one seen for it, in the order first seen.
pub open spec fn first_per_slot(items: Seq<SearchAssetView>) -> Seq<SearchAssetView>
    decreases items.len(),
{
    if items.len() == 0 {
        items
    } else {
        let kept = first_per_slot(items.drop_last());
        if has_slot(kept, items.last()) {
            kept
        } else {
            kept.push(items.last())
        }
    }
}

// ---------------------------------------------------------------------------
// What the archives offer
// ---------------------------------------------------------------------------

/// The search results an indexed archive's records give, in record order, before duplicates
/// are dropped.
pub open spec fn search_matches(archive: Seq<char>, records: Seq<IndexRecord>) -> Seq<SearchAssetView>
    decreases records.len(),
{
    if records.len() == 0 {
        Seq::empty()
    } else {
        let rest = search_matches(archive, records.drop_last());
        let r = records.last();
        match record_path(archive, r.group_code, r.icon_id, r.block_index) {
            Some(path) => {
                let block = canonical_block(archive, r.block_index);
                rest.push(
                    SearchAssetView {
                        path,
                        asset: AssetRefView {
                            prefix: archive,
                            key: ResourceKey { group_code: r.group_code, icon_id: r.icon_id, block_index: r.block_index },
                            raw_key: None,
                            canonical_block: block,
                            assembled: is_assembled(archive, block),
                        },
                    },
                )
            },
            None => rest,
        }
    }
}

/// The search results of a raw archive, in block order.
pub open spec fn raw_search_matches(archive: Seq<char>, records: Seq<RawImageRecord>) -> Seq<SearchAssetView>
    decreases records.len(),
{
    if records.len() == 0 {
        Seq::empty()
    } else {
        let rest = raw_search_matches(archive, records.drop_last());
        let r = records.last();
        match record_path(archive, 0, r.key.block_index, r.key.block_index) {
            Some(path) => rest.push(SearchAssetView { path, asset: raw_asset(archive, r) }),
            None => rest,
        }
    }
}

/// The search results of the indexed archives, archive by archive, one per slot each.
pub open spec fn indexed_search_assets(archives: Seq<(Seq<char>, Seq<IndexRecord>)>) -> Seq<SearchAssetView>
    decreases archives.len(),
{
    if archives.len() == 0 {
        Seq::empty()
    } else {
        indexed_search_assets(archives.drop_last()) + first_per_slot(
            search_matches(archives.last().0, archives.last().1),
        )
    }
}

/// The search results of the raw archives, archive by archive.
pub open spec fn raw_search_assets(archives: Seq<(Seq<char>, Seq<RawImageRecord>)>) -> Seq<SearchAssetView>
    decreases archives.len(),
{
    if archives.len() == 0 {
        Seq::empty()
    } else {
        raw_search_assets(archives.drop_last()) + raw_search_matches(archives.last().0, archives.last().1)
    }
}

/// Every verified asset a search may find, in search order.
pub open spec fn session_search_assets(
    archives: Seq<(Seq<char>, Seq<IndexRecord>)>,
    raw_archives: Seq<(Seq<char>, Seq<RawImageRecord>)>,
) -> Seq<SearchAssetView> {
    sort_search(indexed_search_assets(archives) + raw_search_assets(raw_archives))
}

// ---------------------------------------------------------------------------
// Queries
// ---------------------------------------------------------------------------

/// The lower-case words of a query.
pub open spec fn query_terms(query: Seq<char>) -> Seq<Seq<char>> {
    split_words(trim_space(query)).map_values(|word: Seq<char>| unicode_lowercase(word))
}

/// The text a result is searched in: its path segments and archive, separated by spaces, in
/// lower case.
pub open spec fn search_text(item: SearchAssetView) -> Seq<char> {
    unicode_lowercase(join_segments(item.path, " "@) + " "@ + item.asset.prefix)
}

/// Whether one term finds a result: a term of digits names its ID or listing block exactly;
/// any other term occurs in its search text.
pub open spec fn term_matches(item: SearchAssetView, term: Seq<char>) -> bool {
    if all_ascii_digits(term) {
        term == decimal_text(item.asset.key.icon_id as nat) || term == decimal_text(
            item.asset.canonical_block as nat,
        )
    } else {
        contains_text(search_text(item), term)
    }
}

/// Whether every term finds a result.
pub open spec fn terms_match(item: SearchAssetView, terms: Seq<Seq<char>>) -> bool {
    forall|i: int| 0 <= i < terms.len() ==> #[trigger] term_matches(item, terms[i])
}

/// The results that every term finds, in order.
pub open spec fn matching_results(items: Seq<SearchAssetView>, terms: Seq<Seq<char>>) -> Seq<SearchAssetView>
    decreases items.len(),
{
    if items.len() == 0 {
        items
    } else {
        let kept = matching_results(items.drop_last(), terms);
        if terms_match(items.last(), terms) {
            kept.push(items.last())
        } else {
            kept
        }
    }
}


// ---------------------------------------------------------------------------
// Laws of the listing order
// ---------------------------------------------------------------------------

proof fn lemma_path_less_irreflexive(a: Seq<Seq<char>>)
    ensures
        !path_less(a, a),
    decreases a.len(),
{
    if a.len() > 0 {
        lemma_path_less_irreflexive(a.drop_first());
    }
}

proof fn lemma_path_less_transitive(a: Seq<Seq<char>>, b: Seq<Seq<char>>, c: Seq<Seq<char>>)
    requires
        path_less(a, b),
        path_less(b, c),
    ensures
        path_less(a, c),
    decreases a.len(),
{
    if a.len() > 0 {
        if a[0] != b[0] {
            if b[0] != c[0] {
                lemma_text_less_transitive(a[0], b[0], c[0]);
                lemma_text_less_irreflexive(a[0]);
            }
        } else if b[0] == c[0] {
            lemma_path_less_transitive(a.drop_first(), b.drop_first(), c.drop_first());
        }
    }
}

/// The order of search results is a strict order: no result comes before itself, and it is
/// transitive.
pub proof fn lemma_search_less_order(a: SearchAssetView, b: SearchAssetView, c: SearchAssetView)
    ensures
        !search_less(a, a),
        search_less(a, b) && search_less(b, c) ==> search_less(a, c),
{
    lemma_path_less_irreflexive(a.path);
    lemma_text_less_irreflexive(a.asset.prefix);
    if search_less(a, b) && search_less(b, c) {
        if a.path != b.path && b.path != c.path {
            lemma_path_less_transitive(a.path, b.path, c.path);
            lemma_path_less_irreflexive(a.path);
        } else if a.path == b.path && b.path == c.path {
            if a.asset.prefix != b.asset.prefix && b.asset.prefix != c.asset.prefix {
                lemma_text_less_transitive(a.asset.prefix, b.asset.prefix, c.asset.prefix);
            }
        }
    }
}

/// Whether no result of `items` comes, in search order, before one listed earlier.
pub open spec fn search_sorted(items: Seq<SearchAssetView>) -> bool {
    forall|i: int, j: int| 0 <= i < j < items.len() ==> !search_less(#[trigger] items[j], #[trigger] items[i])
}

/// Whether no result of `items` comes before `y`.
pub open spec fn none_before(items: Seq<SearchAssetView>, y: SearchAssetView) -> bool {
    forall|k: int| 0 <= k < items.len() ==> !search_less(#[trigger] items[k], y)
}

/// Whether `y` comes before no result of `items`.
pub open spec fn none_after(items: Seq<SearchAssetView>, y: SearchAssetView) -> bool {
    forall|k: int| 0 <= k < items.len() ==> !search_less(y, #[trigger] items[k])
}

proof fn lemma_insert_search_sorted(sorted: Seq<SearchAssetView>, x: SearchAssetView)
    requires
        search_sorted(sorted),
    ensures
        search_sorted(insert_search(sorted, x)),
        insert_search(sorted, x).len() == sorted.len() + 1,
        forall|y: SearchAssetView|
            none_before(sorted, y) && !search_less(x, y) ==> #[trigger] none_before(insert_search(sorted, x), y),
    decreases sorted.len(),
{
    if sorted.len() == 0 {
    } else if search_less(x, sorted[0]) {
        let r = seq![x] + sorted;
        assert forall|i: int, j: int| 0 <= i < j < r.len() implies !search_less(#[trigger] r[j], #[trigger] r[i]) by {
            if i == 0 {
                lemma_search_less_order(r[j], x, sorted[0]);
                lemma_search_less_order(sorted[0], sorted[0], sorted[0]);
                if j - 1 > 0 {
                    assert(!search_less(sorted[j - 1], sorted[0]));
                }
            } else {
                assert(r[i] == sorted[i - 1] && r[j] == sorted[j - 1]);
            }
        }
        assert forall|y: SearchAssetView| none_before(sorted, y) && !search_less(x, y) implies #[trigger] none_before(
            r,
            y,
        ) by {
            assert forall|k: int| 0 <= k < r.len() implies !search_less(#[trigger] r[k], y) by {
                if k > 0 {
                    assert(r[k] == sorted[k - 1]);
                }
            }
        }
    } else {
        let rest = sorted.drop_first();
        assert forall|i: int, j: int| 0 <= i < j < rest.len() implies !search_less(#[trigger] rest[j], #[trigger] rest[i]) by {
            assert(rest[j] == sorted[j + 1] && rest[i] == sorted[i + 1]);
        }
        lemma_insert_search_sorted(rest, x);
        let inner = insert_search(rest, x);
        assert(none_before(rest, sorted[0])) by {
            assert forall|k: int| 0 <= k < rest.len() implies !search_less(#[trigger] rest[k], sorted[0]) by {
                assert(rest[k] == sorted[k + 1]);
            }
        }
        assert(none_before(inner, sorted[0]));
        let r = seq![sorted[0]] + inner;
        assert forall|i: int, j: int| 0 <= i < j < r.len() implies !search_less(#[trigger] r[j], #[trigger] r[i]) by {
            if i == 0 {
                assert(r[j] == inner[j - 1]);
            } else {
                assert(r[i] == inner[i - 1] && r[j] == inner[j - 1]);
            }
        }
        assert forall|y: SearchAssetView| none_before(sorted, y) && !search_less(x, y) implies #[trigger] none_before(
            r,
            y,
        ) by {
            assert(none_before(rest, y)) by {
                assert forall|k: int| 0 <= k < rest.len() implies !search_less(#[trigger] rest[k], y) by {
                    assert(rest[k] == sorted[k + 1]);
                }
            }
            assert(none_before(inner, y));
            assert forall|k: int| 0 <= k < r.len() implies !search_less(#[trigger] r[k], y) by {
                if k > 0 {
                    assert(r[k] == inner[k - 1]);
                }
            }
        }
    }
}

proof fn lemma_sort_search_sorted(items: Seq<SearchAssetView>)
    ensures
        search_sorted(sort_search(items)),
    decreases items.len(),
{
    if items.len() > 0 {
        lemma_sort_search_sorted(items.drop_last());
        lemma_insert_search_sorted(sort_search(items.drop_last()), items.last());
    }
}

proof fn lemma_matching_results_sorted(items: Seq<SearchAssetView>, terms: Seq<Seq<char>>)
    requires
        search_sorted(items),
    ensures
        search_sorted(matching_results(items, terms)),
        forall|i: int|
            0 <= i < matching_results(items, terms).len() ==> terms_match(
                #[trigger] matching_results(items, terms)[i],
                terms,
            ),
        forall|y: SearchAssetView| none_after(items, y) ==> #[trigger] none_after(matching_results(items, terms), y),
    decreases items.len(),
{
    if items.len() > 0 {
        let front = items.drop_last();
        assert forall|i: int, j: int| 0 <= i < j < front.len() implies !search_less(#[trigger] front[j], #[trigger] front[i]) by {
            assert(front[j] == items[j] && front[i] == items[i]);
        }
        lemma_matching_results_sorted(front, terms);
        let kept = matching_results(front, terms);
        let last = items.last();
        assert(none_after(front, last)) by {
            assert forall|k: int| 0 <= k < front.len() implies !search_less(last, #[trigger] front[k]) by {
                assert(front[k] == items[k]);
            }
        }
        assert(none_after(kept, last));
        assert forall|y: SearchAssetView| none_after(items, y) implies #[trigger] none_after(matching_results(items, terms), y) by {
            assert(none_after(front, y)) by {
                assert forall|k: int| 0 <= k < front.len() implies !search_less(y, #[trigger] front[k]) by {
                    assert(front[k] == items[k]);
                }
            }
            assert(none_after(kept, y));
            assert(!search_less(y, items[items.len() - 1]));
        }
        if terms_match(last, terms) {
            let r = kept.push(last);
            assert forall|i: int, j: int| 0 <= i < j < r.len() implies !search_less(#[trigger] r[j], #[trigger] r[i]) by {
                if j == kept.len() {
                    assert(r[i] == kept[i]);
                } else {
                    assert(r[i] == kept[i] && r[j] == kept[j]);
                }
            }
            assert forall|i: int| 0 <= i < r.len() implies terms_match(#[trigger] r[i], terms) by {
                if i < kept.len() {
                    assert(r[i] == kept[i]);
                }
            }
        }
    }
}

/// What a search finds is listed in search order (no result before one listed earlier), and
/// every term of the query finds each result.
pub proof fn lemma_search_results_sorted_and_matching(
    archives: Seq<(Seq<char>, Seq<IndexRecord>)>,
    raw_archives: Seq<(Seq<char>, Seq<RawImageRecord>)>,
    terms: Seq<Seq<char>>,
)
    ensures
        search_sorted(matching_results(session_search_assets(archives, raw_archives), terms)),
        forall|i: int|
            0 <= i < matching_results(session_search_assets(archives, raw_archives), terms).len()
                ==> terms_match(
                #[trigger] matching_results(session_search_assets(archives, raw_archives), terms)[i],
                terms,
            ),
{
    let items = indexed_search_assets(archives) + raw_search_assets(raw_archives);
    lemma_sort_search_sorted(items);
    lemma_matching_results_sorted(sort_search(items), terms);
}


proof fn lemma_decimal_text_is_digits(n: nat)
    ensures
        all_ascii_digits(decimal_text(n)),
    decreases n,
{
    if n >= 10 {
        lemma_decimal_text_is_digits(n / 10);
        let rest = decimal_text(n / 10);
        let text = decimal_text(n);
        assert forall|i: int| 0 <= i < text.len() implies '0' <= #[trigger] text[i] && text[i] <= '9' by {
            if i < rest.len() {
                assert(text[i] == rest[i]);
            }
        }
    }
}

/// A term of digits finds a result exactly when it is the decimal ID of the result's record or
/// the decimal number of the block the result is listed under; any other term finds it exactly
/// when it occurs in the result's lower-case path and archive.
pub proof fn lemma_term_finds_id_or_listing_block(item: SearchAssetView, term: Seq<char>)
    ensures
        all_ascii_digits(term) ==> (term_matches(item, term) <==> (term == decimal_text(
            item.asset.key.icon_id as nat,
        ) || term == decimal_text(item.asset.canonical_block as nat))),
        !all_ascii_digits(term) ==> (term_matches(item, term) <==> contains_text(
            unicode_lowercase(join_segments(item.path, " "@) + " "@ + item.asset.prefix),
            term,
        )),
{
}

proof fn lemma_matching_results_keeps(items: Seq<SearchAssetView>, terms: Seq<Seq<char>>, k: int)
    requires
        0 <= k < items.len(),
        terms_match(items[k], terms),
    ensures
        matching_results(items, terms).contains(items[k]),
    decreases items.len(),
{
    if k < items.len() - 1 {
        lemma_matching_results_keeps(items.drop_last(), terms, k);
        let kept = matching_results(items.drop_last(), terms);
        let j = choose|j: int| 0 <= j < kept.len() && kept[j] == items[k];
        if terms_match(items.last(), terms) {
            assert(kept.push(items.last())[j] == items[k]);
        }
    } else {
        let kept = matching_results(items.drop_last(), terms);
        assert(kept.push(items.last())[kept.len() as int] == items[k]);
    }
}

/// Searching for the number of the block a result is listed under, or for its record's ID,
/// finds that result.
pub proof fn lemma_search_by_number_finds_the_result(items: Seq<SearchAssetView>, k: int)
    requires
        0 <= k < items.len(),
    ensures
        matching_results(items, seq![decimal_text(items[k].asset.canonical_block as nat)]).contains(items[k]),
        matching_results(items, seq![decimal_text(items[k].asset.key.icon_id as nat)]).contains(items[k]),
{
    let block_term = decimal_text(items[k].asset.canonical_block as nat);
    let id_term = decimal_text(items[k].asset.key.icon_id as nat);
    lemma_decimal_text_is_digits(items[k].asset.canonical_block as nat);
    lemma_decimal_text_is_digits(items[k].asset.key.icon_id as nat);
    assert(term_matches(items[k], seq![block_term][0]));
    assert(term_matches(items[k], seq![id_term][0]));
    lemma_matching_results_keeps(items, seq![block_term], k);
    lemma_matching_results_keeps(items, seq![id_term], k);
}

// ---------------------------------------------------------------------------
// Executable parts
// ---------------------------------------------------------------------------

/// The segments of a path joined by single spaces.
pub fn join_path(path: &[String]) -> (joined: String)
    ensures
        joined@ == join_segments(path_texts(path@), " "@),
{
    let mut joined = String::new();
    let mut index: usize = 0;
    while index < path.len()
        invariant
            index <= path@.len(),
            joined@ == join_segments(path_texts(path@).subrange(0, index as int), " "@),
        decreases path@.len() - index,
    {
        proof {
            let prefix = path_texts(path@).subrange(0, index + 1);
            assert(prefix.drop_last() =~= path_texts(path@).subrange(0, index as int));
            if index == 0 {
                assert(path_texts(path@).subrange(0, 0) =~= Seq::<Seq<char>>::empty());
            }
        }
        if index > 0 {
            joined.append(" ");
        }
        joined.append(path[index].as_str());
        index += 1;
    }
    assert(path_texts(path@).subrange(0, index as int) =~= path_texts(path@));
    joined
}

/// Whether two paths are equal segment by segment.
pub fn paths_equal(a: &[String], b: &[String]) -> (equal: bool)
    ensures
        equal == (path_texts(a@) == path_texts(b@)),
{
    if a.len() != b.len() {
        assert(path_texts(a@).len() != path_texts(b@).len());
        return false;
    }
    let mut index: usize = 0;
    while index < a.len()
        invariant
            a@.len() == b@.len(),
            index <= a@.len(),
            forall|k: int| 0 <= k < index ==> #[trigger] a@[k]@ == b@[k]@,
        decreases a@.len() - index,
    {
        if !str_equal(a[index].as_str(), b[index].as_str()) {
            assert(path_texts(a@)[index as int] != path_texts(b@)[index as int]);
            return false;
        }
        index += 1;
    }
    assert(path_texts(a@) =~= path_texts(b@));
    true
}

/// Whether path `a` comes before path `b`.
#[verifier::loop_isolation(false)]
pub fn path_less_exec(a: &[String], b: &[String]) -> (less: bool)
    ensures
        less == path_less(path_texts(a@), path_texts(b@)),
{
    let ghost pa = path_texts(a@);
    let ghost pb = path_texts(b@);
    let mut index: usize = 0;
    assert(pa.skip(0) =~= pa);
    assert(pb.skip(0) =~= pb);
    while index < a.len() && index < b.len()
        invariant
            index <= a@.len(),
            index <= b@.len(),
            path_less(pa, pb) == path_less(pa.skip(index as int), pb.skip(index as int)),
        decreases a@.len() - index,
    {
        let ghost ra = pa.skip(index as int);
        let ghost rb = pb.skip(index as int);
        assert(ra[0] == a@[index as int]@ && rb[0] == b@[index as int]@);
        if !str_equal(a[index].as_str(), b[index].as_str()) {
            return text_less_exec(a[index].as_str(), b[index].as_str());
        }
        assert(ra.drop_first() =~= pa.skip(index + 1));
        assert(rb.drop_first() =~= pb.skip(index + 1));
        index += 1;
    }
    index == a.len() && index < b.len()
}

/// Whether result `a` comes before result `b`.
pub fn search_less_exec(a: &VerifiedSearchAssetRef, b: &VerifiedSearchAssetRef) -> (less: bool)
    ensures
        less == search_less(a@, b@),
{
    if !paths_equal(a.path.as_slice(), b.path.as_slice()) {
        return path_less_exec(a.path.as_slice(), b.path.as_slice());
    }
    if !str_equal(a.asset.prefix.as_str(), b.asset.prefix.as_str()) {
        return text_less_exec(a.asset.prefix.as_str(), b.asset.prefix.as_str());
    }
    a.asset.canonical_block < b.asset.canonical_block
}

proof fn lemma_insert_search_at(sorted: Seq<SearchAssetView>, x: SearchAssetView, k: int)
    requires
        0 <= k <= sorted.len(),
        forall|j: int| 0 <= j < k ==> !search_less(x, #[trigger] sorted[j]),
        k < sorted.len() ==> search_less(x, sorted[k]),
    ensures
        insert_search(sorted, x) == sorted.insert(k, x),
    decreases k,
{
    if sorted.len() == 0 {
        assert(sorted.insert(0, x) =~= seq![x]);
    } else if k == 0 {
        assert(sorted.insert(0, x) =~= seq![x] + sorted);
    } else {
        assert forall|j: int| 0 <= j < k - 1 implies !search_less(x, #[trigger] sorted.drop_first()[j]) by {
            assert(sorted.drop_first()[j] == sorted[j + 1]);
        }
        lemma_insert_search_at(sorted.drop_first(), x, k - 1);
        assert(seq![sorted[0]] + sorted.drop_first().insert(k - 1, x) =~= sorted.insert(k, x));
    }
}

/// `items` in search order.
#[verifier::loop_isolation(false)]
pub fn sort_search_exec(items: Vec<VerifiedSearchAssetRef>) -> (sorted: Vec<VerifiedSearchAssetRef>)
    ensures
        search_views(sorted@) == sort_search(search_views(items@)),
        (forall|i: int| 0 <= i < items@.len() ==> #[trigger] asset_is_consistent(items@[i]@.asset)) ==> (
        forall|i: int| 0 <= i < sorted@.len() ==> #[trigger] asset_is_consistent(sorted@[i]@.asset)),
{
    let ghost all_consistent = forall|i: int| 0 <= i < items@.len() ==> #[trigger] asset_is_consistent(items@[i]@.asset);
    let mut sorted: Vec<VerifiedSearchAssetRef> = Vec::new();
    let mut index: usize = 0;
    assert(search_views(items@).take(0) =~= Seq::<SearchAssetView>::empty());
    assert(search_views(sorted@) =~= Seq::<SearchAssetView>::empty());
    while index < items.len()
        invariant
            index <= items@.len(),
            search_views(sorted@) == sort_search(search_views(items@).take(index as int)),
            all_consistent ==> forall|i: int| 0 <= i < sorted@.len() ==> #[trigger] asset_is_consistent(sorted@[i]@.asset),
        decreases items@.len() - index,
    {
        let mut k: usize = 0;
        while k < sorted.len()
            invariant
                k <= sorted@.len(),
                forall|j: int| 0 <= j < k ==> !search_less(items@[index as int]@, #[trigger] search_views(sorted@)[j]),
            decreases sorted@.len() - k,
        {
            if search_less_exec(&items[index], &sorted[k]) {
                break;
            }
            k += 1;
        }
        let ghost before = search_views(sorted@);
        proof {
            lemma_insert_search_at(before, items@[index as int]@, k as int);
            let taken = search_views(items@).take(index + 1);
            assert(taken.drop_last() =~= search_views(items@).take(index as int));
            assert(taken.last() == items@[index as int]@);
        }
        let ghost sorted_before = sorted@;
        sorted.insert(k, items[index].clone());
        assert(search_views(sorted@) =~= before.insert(k as int, items@[index as int]@));
        assert(all_consistent ==> forall|i: int| 0 <= i < sorted@.len() ==> #[trigger] asset_is_consistent(sorted@[i]@.asset)) by {
            if all_consistent {
                assert forall|i: int| 0 <= i < sorted@.len() implies #[trigger] asset_is_consistent(sorted@[i]@.asset) by {
                    if i < k {
                        assert(sorted@[i] == sorted_before[i]);
                    } else if i == k {
                        assert(sorted@[i]@ == items@[index as int]@);
                    } else {
                        assert(sorted@[i] == sorted_before[i - 1]);
                    }
                }
            }
        }
        index += 1;
    }
    assert(search_views(items@).take(index as int) =~= search_views(items@));
    sorted
}

/// Whether one of `items` occupies the slot of `x`.
pub fn has_slot_exec(items: &Vec<VerifiedSearchAssetRef>, x: &VerifiedSearchAssetRef) -> (found: bool)
    ensures
        found == has_slot(search_views(items@), x@),
{
    let mut index: usize = 0;
    while index < items.len()
        invariant
            index <= items@.len(),
            forall|j: int| 0 <= j < index ==> !same_slot(#[trigger] search_views(items@)[j], x@),
        decreases items@.len() - index,
    {
        if paths_equal(items[index].path.as_slice(), x.path.as_slice()) && str_equal(
            items[index].asset.prefix.as_str(),
            x.asset.prefix.as_str(),
        ) && items[index].asset.canonical_block == x.asset.canonical_block {
            assert(same_slot(search_views(items@)[index as int], x@));
            return true;
        }
        index += 1;
    }
    false
}

/// Adds `x` unless its slot is taken.
pub fn push_first_per_slot(items: &mut Vec<VerifiedSearchAssetRef>, x: VerifiedSearchAssetRef)
    ensures
        search_views(final(items)@) == (if has_slot(search_views(old(items)@), x@) {
            search_views(old(items)@)
        } else {
            search_views(old(items)@).push(x@)
        }),
{
    if !has_slot_exec(items, &x) {
        let ghost before = search_views(items@);
        let ghost xv = x@;
        items.push(x);
        assert(search_views(items@) =~= before.push(xv));
    }
}

fn segment_strings(segments: &[&str]) -> (path: Vec<String>)
    ensures
        path_texts(path@) == segments@.map_values(|s: &str| s@),
{
    let mut path: Vec<String> = Vec::new();
    let mut index: usize = 0;
    while index < segments.len()
        invariant
            index <= segments@.len(),
            path_texts(path@) == segments@.take(index as int).map_values(|s: &str| s@),
        decreases segments@.len() - index,
    {
        let ghost before = path_texts(path@);
        path.push(String::from_str(segments[index]));
        assert(path_texts(path@) =~= before.push(segments@[index as int]@));
        assert(segments@.take(index + 1).map_values(|s: &str| s@) =~= segments@.take(index as int).map_values(
            |s: &str| s@,
        ).push(segments@[index as int]@));
        index += 1;
    }
    assert(segments@.take(index as int) =~= segments@);
    path
}

/// The verified category of a record as owned segments.
pub fn verified_record_path(archive: &str, group_code: u32, icon_id: u32, block_index: u32) -> (path: Option<
    Vec<String>,
>)
    ensures
        match record_path(archive@, group_code, icon_id, block_index) {
            Some(p) => path matches Some(found) && path_texts(found@) == p,
            None => path is None,
        },
{
    let classification = crate::catalog::classify_record(
        crate::catalog::CatalogRecordKey { archive, group_code, icon_id, block_index },
    );
    if classification.boundary_status == VerificationStatus::HumanVerified
        && classification.meaning_status == VerificationStatus::HumanVerified {
        match classification.category {
            Some(category) => Some(segment_strings(category.segments())),
            None => None,
        }
    } else {
        None
    }
}

/// The search results of one indexed archive, one per slot, in the order first seen.
#[verifier::loop_isolation(false)]
pub fn archive_search_assets(archive: &str, records: &[IndexRecord]) -> (found: Vec<VerifiedSearchAssetRef>)
    ensures
        search_views(found@) == first_per_slot(search_matches(archive@, records@)),
        forall|i: int| 0 <= i < found@.len() ==> #[trigger] asset_is_consistent(search_views(found@)[i].asset),
{
    let mut found: Vec<VerifiedSearchAssetRef> = Vec::new();
    let mut index: usize = 0;
    assert(records@.take(0) =~= Seq::<IndexRecord>::empty());
    assert(search_views(found@) =~= Seq::<SearchAssetView>::empty());
    while index < records.len()
        invariant
            index <= records@.len(),
            search_views(found@) == first_per_slot(search_matches(archive@, records@.take(index as int))),
            forall|i: int| 0 <= i < found@.len() ==> #[trigger] asset_is_consistent(search_views(found@)[i].asset),
        decreases records@.len() - index,
    {
        let record = records[index];
        let ghost previous = search_matches(archive@, records@.take(index as int));
        proof {
            let taken = records@.take(index + 1);
            assert(taken.drop_last() =~= records@.take(index as int));
            assert(taken.last() == record);
        }
        match verified_record_path(archive, record.group_code, record.icon_id, record.block_index) {
            Some(path) => {
                let block = match crate::catalog::assembly_plan(archive, record.block_index) {
                    Some(plan) => plan.first_block,
                    None => record.block_index,
                };
                let assembled = crate::catalog::assembly_plan(archive, block).is_some();
                let item = VerifiedSearchAssetRef {
                    path,
                    asset: VerifiedAssetRef {
                        prefix: String::from_str(archive),
                        key: ResourceKey {
                            group_code: record.group_code,
                            icon_id: record.icon_id,
                            block_index: record.block_index,
                        },
                        raw_key: None,
                        canonical_block: block,
                        assembled,
                    },
                };
                assert(previous.push(item@).drop_last() =~= previous);
                let ghost before = search_views(found@);
                let ghost item_view = item@;
                assert(asset_is_consistent(item_view.asset));
                push_first_per_slot(&mut found, item);
                assert forall|i: int| 0 <= i < found@.len() implies #[trigger] asset_is_consistent(
                    search_views(found@)[i].asset,
                ) by {
                    if has_slot(before, item_view) {
                        assert(search_views(found@)[i] == before[i]);
                    } else if i < before.len() {
                        assert(before.push(item_view)[i] == before[i]);
                    } else {
                        assert(search_views(found@).len() == before.len() + 1);
                        assert(i == before.len());
                        assert(before.push(item_view)[before.len() as int] == item_view);
                    }
                }
            },
            None => {},
        }
        index += 1;
    }
    assert(records@.take(index as int) =~= records@);
    found
}

/// The search results of one raw archive, in block order.
#[verifier::loop_isolation(false)]
pub fn raw_archive_search_assets(archive: &str, records: &[RawImageRecord]) -> (found: Vec<VerifiedSearchAssetRef>)
    ensures
        search_views(found@) == raw_search_matches(archive@, records@),
        forall|i: int| 0 <= i < found@.len() ==> #[trigger] asset_is_consistent(search_views(found@)[i].asset),
{
    let mut found: Vec<VerifiedSearchAssetRef> = Vec::new();
    let mut index: usize = 0;
    assert(records@.take(0) =~= Seq::<RawImageRecord>::empty());
    assert(search_views(found@) =~= Seq::<SearchAssetView>::empty());
    while index < records.len()
        invariant
            index <= records@.len(),
            search_views(found@) == raw_search_matches(archive@, records@.take(index as int)),
            forall|i: int| 0 <= i < found@.len() ==> #[trigger] asset_is_consistent(search_views(found@)[i].asset),
        decreases records@.len() - index,
    {
        let record = records[index];
        proof {
            let taken = records@.take(index + 1);
            assert(taken.drop_last() =~= records@.take(index as int));
            assert(taken.last() == record);
        }
        let block = record.key.block_index;
        match verified_record_path(archive, 0, block, block) {
            Some(path) => {
                let item = VerifiedSearchAssetRef {
                    path,
                    asset: VerifiedAssetRef {
                        prefix: String::from_str(archive),
                        key: ResourceKey { group_code: 0, icon_id: block, block_index: block },
                        raw_key: Some(record.key),
                        canonical_block: block,
                        assembled: false,
                    },
                };
                let ghost before = search_views(found@);
                let ghost item_view = item@;
                found.push(item);
                assert(search_views(found@) =~= before.push(item_view));
            },
            None => {},
        }
        index += 1;
    }
    assert(records@.take(index as int) =~= records@);
    found
}

/// The lower-case words of a query that is already trimmed.
pub fn query_words(trimmed: &str) -> (terms: Vec<String>)
    ensures
        terms@.map_values(|t: String| t@) == split_words(trimmed@).map_values(
            |word: Seq<char>| unicode_lowercase(word),
        ),
{
    let words = text_words(trimmed);
    let mut terms: Vec<String> = Vec::new();
    let mut index: usize = 0;
    while index < words.len()
        invariant
            index <= words@.len(),
            words@.map_values(|w: String| w@) == split_words(trimmed@),
            terms@.map_values(|t: String| t@) == split_words(trimmed@).take(index as int).map_values(
                |word: Seq<char>| unicode_lowercase(word),
            ),
        decreases words@.len() - index,
    {
        let ghost before = terms@.map_values(|t: String| t@);
        terms.push(to_lowercase(words[index].as_str()));
        proof {
            assert(words@.map_values(|w: String| w@)[index as int] == words@[index as int]@);
            assert(terms@.map_values(|t: String| t@) =~= before.push(unicode_lowercase(words@[index as int]@)));
            assert(split_words(trimmed@).take(index + 1).map_values(|word: Seq<char>| unicode_lowercase(word))
                =~= split_words(trimmed@).take(index as int).map_values(
                |word: Seq<char>| unicode_lowercase(word),
            ).push(unicode_lowercase(split_words(trimmed@)[index as int])));
        }
        index += 1;
    }
    assert(split_words(trimmed@).take(index as int) =~= split_words(trimmed@));
    terms
}

/// Whether every term finds `item`.
pub fn terms_match_exec(item: &VerifiedSearchAssetRef, terms: &Vec<String>) -> (matched: bool)
    ensures
        matched == terms_match(item@, terms@.map_values(|t: String| t@)),
{
    let mut text = join_path(item.path.as_slice());
    text.append(" ");
    text.append(item.asset.prefix.as_str());
    let lowered = to_lowercase(text.as_str());
    assert(lowered@ == search_text(item@));
    let ghost views = terms@.map_values(|t: String| t@);
    let mut index: usize = 0;
    while index < terms.len()
        invariant
            index <= terms@.len(),
            views == terms@.map_values(|t: String| t@),
            lowered@ == search_text(item@),
            forall|i: int| 0 <= i < index ==> #[trigger] term_matches(item@, views[i]),
        decreases terms@.len() - index,
    {
        let term = terms[index].as_str();
        assert(views[index as int] == term@);
        let matched = if is_all_ascii_digits(term) {
            is_decimal_of(term, item.asset.key.icon_id) || is_decimal_of(term, item.asset.canonical_block)
        } else {
            text_contains(lowered.as_str(), term)
        };
        assert(matched == term_matches(item@, views[index as int]));
        if !matched {
            return false;
        }
        index += 1;
    }
    true
}

/// The results that every term finds, in order.
#[verifier::loop_isolation(false)]
pub fn matching_results_exec(items: &Vec<VerifiedSearchAssetRef>, terms: &Vec<String>) -> (kept: Vec<
    VerifiedSearchAssetRef,
>)
    ensures
        search_views(kept@) == matching_results(search_views(items@), terms@.map_values(|t: String| t@)),
        (forall|i: int| 0 <= i < items@.len() ==> #[trigger] asset_is_consistent(items@[i]@.asset)) ==> (
        forall|i: int| 0 <= i < kept@.len() ==> #[trigger] asset_is_consistent(kept@[i]@.asset)),
{
    let ghost all_consistent = forall|i: int| 0 <= i < items@.len() ==> #[trigger] asset_is_consistent(items@[i]@.asset);
    let ghost views = terms@.map_values(|t: String| t@);
    let mut kept: Vec<VerifiedSearchAssetRef> = Vec::new();
    let mut index: usize = 0;
    assert(search_views(items@).take(0) =~= Seq::<SearchAssetView>::empty());
    assert(search_views(kept@) =~= Seq::<SearchAssetView>::empty());
    while index < items.len()
        invariant
            index <= items@.len(),
            views == terms@.map_values(|t: String| t@),
            search_views(kept@) == matching_results(search_views(items@).take(index as int), views),
            all_consistent ==> forall|i: int| 0 <= i < kept@.len() ==> #[trigger] asset_is_consistent(kept@[i]@.asset),
        decreases items@.len() - index,
    {
        proof {
            let taken = search_views(items@).take(index + 1);
            assert(taken.drop_last() =~= search_views(items@).take(index as int));
            assert(taken.last() == items@[index as int]@);
        }
        if terms_match_exec(&items[index], terms) {
            let ghost before = search_views(kept@);
            let ghost kept_before = kept@;
            kept.push(items[index].clone());
            assert(search_views(kept@) =~= before.push(items@[index as int]@));
            assert(all_consistent ==> forall|i: int| 0 <= i < kept@.len() ==> #[trigger] asset_is_consistent(kept@[i]@.asset)) by {
                if all_consistent {
                    assert forall|i: int| 0 <= i < kept@.len() implies #[trigger] asset_is_consistent(kept@[i]@.asset) by {
                        if i < kept_before.len() {
                            assert(kept@[i] == kept_before[i]);
                        } else {
                            assert(kept@[i]@ == items@[index as int]@);
                        }
                    }
                }
            }
        }
        index += 1;
    }
    assert(search_views(items@).take(index as int) =~= search_views(items@));
    kept
}

} // verus!
