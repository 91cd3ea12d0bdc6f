//! The summary of an installation: its archives and how many verified images each category
//! holds.

use crate::client::{path_texts, search_views, str_equal, SearchAssetView, VerifiedSearchAssetRef};
use crate::extract::{LoadedRawImageArchive, RawImageBlock};
use crate::index::IndexedArchive;
use crate::search::{
    archive_search_assets, first_per_slot, has_slot, path_less, path_less_exec, paths_equal,
    push_first_per_slot, raw_archive_search_assets, raw_search_matches, search_matches,
};
use crate::session::raw_records;
use vstd::prelude::*;
use vstd::string::StringExecFns;

verus! {

/// One archive of an installation.
#[derive(Debug, Clone, PartialEq, Eq)]
pub struct ArchiveSummary {
    pub prefix: String,
    pub has_index: bool,
    pub record_count: u32,
    pub group_count: u32,
    pub image_block_count: u32,
    pub archive_count: u32,
}

/// How many verified images one category holds.
#[derive(Debug, Clone, PartialEq, Eq)]
pub struct VerifiedCategorySummary {
    pub path: Vec<String>,
    pub asset_count: usize,
}

/// An installation's archives, in display order, and its verified categories, in path order.
#[derive(Debug, Clone, PartialEq, Eq)]
pub struct GameDirectorySummary {
    pub game_directory: String,
    pub resource_directory: String,
    pub archives: Vec<ArchiveSummary>,
    pub verified_categories: Vec<VerifiedCategorySummary>,
}

/// The content of an archive summary.
pub struct ArchiveSummaryView {
    pub prefix: Seq<char>,
    pub has_index: bool,
    pub record_count: u32,
    pub group_count: u32,
    pub image_block_count: u32,
    pub archive_count: u32,
}

pub open spec fn summary_view(s: ArchiveSummary) -> ArchiveSummaryView {
    ArchiveSummaryView {
        prefix: s.prefix@,
        has_index: s.has_index,
        record_count: s.record_count,
        group_count: s.group_count,
        image_block_count: s.image_block_count,
        archive_count: s.archive_count,
    }
}

pub open spec fn summary_views(s: Seq<ArchiveSummary>) -> Seq<ArchiveSummaryView> {
    s.map_values(|a: ArchiveSummary| summary_view(a))
}

/// The position of an archive in display order; unknown archives come last.
pub open spec fn display_rank(prefix: Seq<char>) -> nat {
    if prefix == "im"@ {
        0
    } else if prefix == "sa"@ {
        1
    } else if prefix == "sb"@ {
        2
    } else if prefix == "sc"@ {
        3
    } else if prefix == "sd"@ {
        4
    } else if prefix == "se"@ {
        5
    } else if prefix == "sf"@ {
        6
    } else if prefix == "sg"@ {
        7
    } else if prefix == "sh"@ {
        8
    } else if prefix == "sw"@ {
        9
    } else if prefix == "sx"@ {
        10
    } else if prefix == "sy"@ {
        11
    } else if prefix == "sz"@ {
        12
    } else if prefix == "is"@ {
        13
    } else {
        14
    }
}

fn display_rank_exec(prefix: &str) -> (rank: usize)
    ensures
        rank == display_rank(prefix@),
{
    if str_equal(prefix, "im") {
        0
    } else if str_equal(prefix, "sa") {
        1
    } else if str_equal(prefix, "sb") {
        2
    } else if str_equal(prefix, "sc") {
        3
    } else if str_equal(prefix, "sd") {
        4
    } else if str_equal(prefix, "se") {
        5
    } else if str_equal(prefix, "sf") {
        6
    } else if str_equal(prefix, "sg") {
        7
    } else if str_equal(prefix, "sh") {
        8
    } else if str_equal(prefix, "sw") {
        9
    } else if str_equal(prefix, "sx") {
        10
    } else if str_equal(prefix, "sy") {
        11
    } else if str_equal(prefix, "sz") {
        12
    } else if str_equal(prefix, "is") {
        13
    } else {
        14
    }
}

/// `sorted` with `x` placed after every summary whose rank is not larger.
pub open spec fn insert_by_rank(sorted: Seq<ArchiveSummaryView>, x: ArchiveSummaryView) -> Seq<ArchiveSummaryView>
    decreases sorted.len(),
{
    if sorted.len() == 0 {
        seq![x]
    } else if display_rank(x.prefix) < display_rank(sorted[0].prefix) {
        seq![x] + sorted
    } else {
        seq![sorted[0]] + insert_by_rank(sorted.drop_first(), x)
    }
}

/// Summaries in display order; summaries of equal rank keep their order.
pub open spec fn sort_by_rank(items: Seq<ArchiveSummaryView>) -> Seq<ArchiveSummaryView>
    decreases items.len(),
{
    if items.len() == 0 {
        items
    } else {
        insert_by_rank(sort_by_rank(items.drop_last()), items.last())
    }
}

/// The summary of an indexed archive: the counts its header declares.
pub open spec fn indexed_summary(prefix: Seq<char>, index: IndexedArchive) -> ArchiveSummaryView {
    ArchiveSummaryView {
        prefix,
        has_index: true,
        record_count: index.header.record_count,
        group_count: index.header.group_count,
        image_block_count: index.header.image_block_count,
        archive_count: index.header.archive_count,
    }
}

/// The summary of a raw archive: its block count, saturated to `u32`, as records and blocks.
pub open spec fn raw_summary(prefix: Seq<char>, block_count: nat, archive_count: u32) -> ArchiveSummaryView {
    let count = if block_count > u32::MAX {
        u32::MAX
    } else {
        block_count as u32
    };
    ArchiveSummaryView {
        prefix,
        has_index: false,
        record_count: count,
        group_count: 0,
        image_block_count: count,
        archive_count,
    }
}

/// `counts` (ascending by path, one entry per path) with one more image under `path`.
pub open spec fn count_path(counts: Seq<(Seq<Seq<char>>, nat)>, path: Seq<Seq<char>>) -> Seq<(Seq<Seq<char>>, nat)>
    decreases counts.len(),
{
    if counts.len() == 0 {
        seq![(path, 1nat)]
    } else if counts[0].0 == path {
        counts.update(0, (path, counts[0].1 + 1))
    } else if path_less(path, counts[0].0) {
        seq![(path, 1nat)] + counts
    } else {
        seq![counts[0]] + count_path(counts.drop_first(), path)
    }
}

/// The number of verified images per category path, ascending by path.
pub open spec fn category_counts(slots: Seq<SearchAssetView>) -> Seq<(Seq<Seq<char>>, nat)>
    decreases slots.len(),
{
    if slots.len() == 0 {
        Seq::empty()
    } else {
        count_path(category_counts(slots.drop_last()), slots.last().path)
    }
}

/// The distinct verified images of the indexed archives, then of the raw ones.
pub open spec fn installation_slots(
    indexes: Seq<(Seq<char>, IndexedArchive)>,
    raws: Seq<(Seq<char>, Seq<crate::extract::RawImageRecord>)>,
) -> Seq<SearchAssetView> {
    first_per_slot(indexed_items(indexes) + raw_items(raws))
}

pub open spec fn indexed_items(indexes: Seq<(Seq<char>, IndexedArchive)>) -> Seq<SearchAssetView>
    decreases indexes.len(),
{
    if indexes.len() == 0 {
        Seq::empty()
    } else {
        indexed_items(indexes.drop_last()) + first_per_slot(
            search_matches(indexes.last().0, indexes.last().1.records@),
        )
    }
}

pub open spec fn raw_items(raws: Seq<(Seq<char>, Seq<crate::extract::RawImageRecord>)>) -> Seq<SearchAssetView>
    decreases raws.len(),
{
    if raws.len() == 0 {
        Seq::empty()
    } else {
        raw_items(raws.drop_last()) + raw_search_matches(raws.last().0, raws.last().1)
    }
}

/// Whether the category summaries list `counts`, path by path.
pub open spec fn categories_fit(categories: Seq<VerifiedCategorySummary>, counts: Seq<(Seq<Seq<char>>, nat)>) -> bool {
    &&& categories.len() == counts.len()
    &&& forall|i: int|
        0 <= i < categories.len() ==> path_texts(#[trigger] categories[i].path@) == counts[i].0
            && categories[i].asset_count == counts[i].1
}

proof fn lemma_count_path_len(counts: Seq<(Seq<Seq<char>>, nat)>, path: Seq<Seq<char>>)
    ensures
        count_path(counts, path).len() <= counts.len() + 1,
    decreases counts.len(),
{
    if counts.len() > 0 && counts[0].0 != path && !path_less(path, counts[0].0) {
        lemma_count_path_len(counts.drop_first(), path);
    }
}

proof fn lemma_category_counts_bound(slots: Seq<SearchAssetView>)
    ensures
        category_counts(slots).len() <= slots.len(),
        forall|i: int| 0 <= i < category_counts(slots).len() ==> #[trigger] category_counts(slots)[i].1 <= slots.len(),
    decreases slots.len(),
{
    if slots.len() > 0 {
        lemma_category_counts_bound(slots.drop_last());
        lemma_count_path_len(category_counts(slots.drop_last()), slots.last().path);
        lemma_count_path_counts(category_counts(slots.drop_last()), slots.last().path, (slots.len() - 1) as nat);
    }
}

proof fn lemma_count_path_counts(counts: Seq<(Seq<Seq<char>>, nat)>, path: Seq<Seq<char>>, bound: nat)
    requires
        forall|i: int| 0 <= i < counts.len() ==> #[trigger] counts[i].1 <= bound,
    ensures
        forall|i: int| 0 <= i < count_path(counts, path).len() ==> #[trigger] count_path(counts, path)[i].1 <= bound + 1,
    decreases counts.len(),
{
    if counts.len() > 0 && counts[0].0 != path && !path_less(path, counts[0].0) {
        assert forall|i: int| 0 <= i < counts.drop_first().len() implies #[trigger] counts.drop_first()[i].1 <= bound by {
            assert(counts.drop_first()[i] == counts[i + 1]);
        }
        lemma_count_path_counts(counts.drop_first(), path, bound);
        let rest = count_path(counts.drop_first(), path);
        assert forall|i: int| 0 <= i < (seq![counts[0]] + rest).len() implies #[trigger] (seq![counts[0]] + rest)[i].1
            <= bound + 1 by {
            if i > 0 {
                assert((seq![counts[0]] + rest)[i] == rest[i - 1]);
            }
        }
    } else if counts.len() > 0 && path_less(path, counts[0].0) && counts[0].0 != path {
        assert forall|i: int| 0 <= i < (seq![(path, 1nat)] + counts).len() implies #[trigger] (seq![(path, 1nat)]
            + counts)[i].1 <= bound + 1 by {
            if i > 0 {
                assert((seq![(path, 1nat)] + counts)[i] == counts[i - 1]);
            }
        }
    }
}


/// The views of path counts.
pub open spec fn count_views(counts: Seq<(Vec<String>, usize)>) -> Seq<(Seq<Seq<char>>, nat)> {
    counts.map_values(|c: (Vec<String>, usize)| (path_texts(c.0@), c.1 as nat))
}

proof fn lemma_count_path_at(counts: Seq<(Seq<Seq<char>>, nat)>, path: Seq<Seq<char>>, k: int)
    requires
        0 <= k <= counts.len(),
        forall|j: int| 0 <= j < k ==> (#[trigger] counts[j]).0 != path && !path_less(path, counts[j].0),
        k < counts.len() ==> counts[k].0 == path || path_less(path, counts[k].0),
    ensures
        count_path(counts, path) == (if k == counts.len() {
            counts.push((path, 1nat))
        } else if counts[k].0 == path {
            counts.update(k, (path, counts[k].1 + 1))
        } else {
            counts.insert(k, (path, 1nat))
        }),
    decreases k,
{
    if counts.len() == 0 {
        assert(counts.push((path, 1nat)) =~= seq![(path, 1nat)]);
    } else if k == 0 {
        if counts[0].0 != path {
            assert(counts.insert(0, (path, 1nat)) =~= seq![(path, 1nat)] + counts);
        }
    } else {
        assert forall|j: int| 0 <= j < k - 1 implies (#[trigger] counts.drop_first()[j]).0 != path && !path_less(
            path,
            counts.drop_first()[j].0,
        ) by {
            assert(counts.drop_first()[j] == counts[j + 1]);
        }
        lemma_count_path_at(counts.drop_first(), path, k - 1);
        let rest = counts.drop_first();
        if k == counts.len() {
            assert(seq![counts[0]] + rest.push((path, 1nat)) =~= counts.push((path, 1nat)));
        } else if counts[k].0 == path {
            assert(seq![counts[0]] + rest.update(k - 1, (path, counts[k].1 + 1)) =~= counts.update(
                k,
                (path, counts[k].1 + 1),
            ));
        } else {
            assert(seq![counts[0]] + rest.insert(k - 1, (path, 1nat)) =~= counts.insert(k, (path, 1nat)));
        }
    }
}

#[verifier::loop_isolation(false)]
fn count_path_exec(counts: &mut Vec<(Vec<String>, usize)>, path: &Vec<String>, bound: usize)
    requires
        forall|i: int| 0 <= i < old(counts)@.len() ==> (#[trigger] old(counts)@[i]).1 < bound,
    ensures
        count_views(final(counts)@) == count_path(count_views(old(counts)@), path_texts(path@)),
{
    let ghost before = count_views(counts@);
    let ghost wanted = path_texts(path@);
    let mut k: usize = 0;
    while k < counts.len()
        invariant
            k <= counts@.len(),
            counts@ == old(counts)@,
            forall|j: int| 0 <= j < k ==> (#[trigger] before[j]).0 != wanted && !path_less(wanted, before[j].0),
        decreases counts@.len() - k,
    {
        assert(before[k as int] == (path_texts(counts@[k as int].0@), counts@[k as int].1 as nat));
        if paths_equal(counts[k].0.as_slice(), path.as_slice()) || path_less_exec(path.as_slice(), counts[k].0.as_slice()) {
            break;
        }
        k += 1;
    }
    proof {
        lemma_count_path_at(before, wanted, k as int);
    }
    if k == counts.len() {
        counts.push((crate::client::clone_path(path.as_slice()), 1));
        assert(count_views(counts@) =~= before.push((wanted, 1nat)));
    } else if paths_equal(counts[k].0.as_slice(), path.as_slice()) {
        let count = counts[k].1;
        let existing = crate::client::clone_path(counts[k].0.as_slice());
        counts.set(k, (existing, count + 1));
        assert(count_views(counts@) =~= before.update(k as int, (wanted, before[k as int].1 + 1)));
    } else {
        counts.insert(k, (crate::client::clone_path(path.as_slice()), 1));
        assert(count_views(counts@) =~= before.insert(k as int, (wanted, 1nat)));
    }
}

proof fn lemma_insert_by_rank_at(sorted: Seq<ArchiveSummaryView>, x: ArchiveSummaryView, k: int)
    requires
        0 <= k <= sorted.len(),
        forall|j: int| 0 <= j < k ==> !(display_rank(x.prefix) < display_rank((#[trigger] sorted[j]).prefix)),
        k < sorted.len() ==> display_rank(x.prefix) < display_rank(sorted[k].prefix),
    ensures
        insert_by_rank(sorted, x) == sorted.insert(k, x),
    decreases k,
{
    if sorted.len() == 0 {
        assert(sorted.insert(0, x) =~= seq![x]);
    } else if k == 0 {
        assert(sorted.insert(0, x) =~= seq![x] + sorted);
    } else {
        assert forall|j: int| 0 <= j < k - 1 implies !(display_rank(x.prefix) < display_rank(
            (#[trigger] sorted.drop_first()[j]).prefix,
        )) by {
            assert(sorted.drop_first()[j] == sorted[j + 1]);
        }
        lemma_insert_by_rank_at(sorted.drop_first(), x, k - 1);
        assert(seq![sorted[0]] + sorted.drop_first().insert(k - 1, x) =~= sorted.insert(k, x));
    }
}


proof fn lemma_insert_by_rank_members(sorted: Seq<ArchiveSummaryView>, x: ArchiveSummaryView)
    ensures
        forall|e: ArchiveSummaryView| #[trigger] insert_by_rank(sorted, x).contains(e) ==> sorted.contains(e) || e == x,
    decreases sorted.len(),
{
    if sorted.len() > 0 && !(display_rank(x.prefix) < display_rank(sorted[0].prefix)) {
        lemma_insert_by_rank_members(sorted.drop_first(), x);
        let inner = insert_by_rank(sorted.drop_first(), x);
        assert forall|e: ArchiveSummaryView| #[trigger] insert_by_rank(sorted, x).contains(e) implies sorted.contains(e)
            || e == x by {
            let all = seq![sorted[0]] + inner;
            assert(insert_by_rank(sorted, x) == all);
            let j = choose|j: int| 0 <= j < all.len() && all[j] == e;
            if j > 0 {
                assert(inner[j - 1] == e);
                assert(inner.contains(e));
                if e != x {
                    let m = choose|m: int| 0 <= m < sorted.drop_first().len() && sorted.drop_first()[m] == e;
                    assert(sorted[m + 1] == e);
                }
            } else {
                assert(sorted[0] == e);
            }
        }
    } else if sorted.len() > 0 {
        assert forall|e: ArchiveSummaryView| #[trigger] insert_by_rank(sorted, x).contains(e) implies sorted.contains(e)
            || e == x by {
            let all = seq![x] + sorted;
            let j = choose|j: int| 0 <= j < all.len() && all[j] == e;
            if j > 0 {
                assert(sorted[j - 1] == e);
            }
        }
    }
}

proof fn lemma_sort_by_rank_members(items: Seq<ArchiveSummaryView>)
    ensures
        forall|e: ArchiveSummaryView| #[trigger] sort_by_rank(items).contains(e) ==> items.contains(e),
    decreases items.len(),
{
    if items.len() > 0 {
        lemma_sort_by_rank_members(items.drop_last());
        lemma_insert_by_rank_members(sort_by_rank(items.drop_last()), items.last());
        assert forall|e: ArchiveSummaryView| #[trigger] sort_by_rank(items).contains(e) implies items.contains(e) by {
            if e == items.last() {
                assert(items[items.len() - 1] == e);
            } else {
                assert(sort_by_rank(items.drop_last()).contains(e));
                assert(items.drop_last().contains(e));
                let m = choose|m: int| 0 <= m < items.drop_last().len() && items.drop_last()[m] == e;
                assert(items[m] == e);
            }
        }
    }
}

/// Each archive summary of an installation that has an index reports the counts the index
/// header declares: its record count is the header's record count, whatever the image block
/// count is, and likewise for groups, image blocks and data files.
pub proof fn lemma_index_summaries_report_header_counts(
    indexes: Seq<(String, IndexedArchive)>,
    raw_archives: Seq<LoadedRawImageArchive>,
)
    ensures
        ({
            let sorted = sort_by_rank(
                indexes.map_values(|p: (String, IndexedArchive)| indexed_summary(p.0@, p.1)) + raw_archives.map_values(
                    |a: LoadedRawImageArchive| raw_summary(a.spec_prefix(), a.spec_blocks().len(), a.spec_file_count()),
                ),
            );
            forall|k: int|
                0 <= k < sorted.len() && (#[trigger] sorted[k]).has_index ==> exists|i: int|
                    0 <= i < indexes.len() && {
                        let header = (#[trigger] indexes[i]).1.header;
                        &&& sorted[k].prefix == indexes[i].0@
                        &&& sorted[k].record_count == header.record_count
                        &&& sorted[k].group_count == header.group_count
                        &&& sorted[k].image_block_count == header.image_block_count
                        &&& sorted[k].archive_count == header.archive_count
                    }
        }),
{
    let front = indexes.map_values(|p: (String, IndexedArchive)| indexed_summary(p.0@, p.1));
    let back = raw_archives.map_values(
        |a: LoadedRawImageArchive| raw_summary(a.spec_prefix(), a.spec_blocks().len(), a.spec_file_count()),
    );
    let items = front + back;
    let sorted = sort_by_rank(items);
    lemma_sort_by_rank_members(items);
    assert forall|k: int| 0 <= k < sorted.len() && (#[trigger] sorted[k]).has_index implies exists|i: int|
        0 <= i < indexes.len() && {
            let header = (#[trigger] indexes[i]).1.header;
            &&& sorted[k].prefix == indexes[i].0@
            &&& sorted[k].record_count == header.record_count
            &&& sorted[k].group_count == header.group_count
            &&& sorted[k].image_block_count == header.image_block_count
            &&& sorted[k].archive_count == header.archive_count
        } by {
        assert(sorted.contains(sorted[k]));
        assert(items.contains(sorted[k]));
        let m = choose|m: int| 0 <= m < items.len() && items[m] == sorted[k];
        if m >= front.len() {
            assert(items[m] == back[m - front.len()]);
        } else {
            assert(items[m] == front[m]);
            assert(front[m] == indexed_summary(indexes[m].0@, indexes[m].1));
        }
    }
}

#[verifier::loop_isolation(false)]
fn sort_by_rank_exec(items: Vec<ArchiveSummary>) -> (sorted: Vec<ArchiveSummary>)
    ensures
        summary_views(sorted@) == sort_by_rank(summary_views(items@)),
{
    let mut sorted: Vec<ArchiveSummary> = Vec::new();
    let mut remaining = items;
    let ghost all = summary_views(remaining@);
    let mut index: usize = 0;
    let mut taken: Vec<ArchiveSummary> = Vec::new();
    assert(all.take(0) =~= Seq::<ArchiveSummaryView>::empty());
    assert(summary_views(sorted@) =~= Seq::<ArchiveSummaryView>::empty());
    while index < remaining.len()
        invariant
            index <= remaining@.len(),
            summary_views(remaining@) == all,
            summary_views(sorted@) == sort_by_rank(all.take(index as int)),
        decreases remaining@.len() - index,
    {
        let x = ArchiveSummary {
            prefix: remaining[index].prefix.clone(),
            has_index: remaining[index].has_index,
            record_count: remaining[index].record_count,
            group_count: remaining[index].group_count,
            image_block_count: remaining[index].image_block_count,
            archive_count: remaining[index].archive_count,
        };
        assert(summary_view(x) == all[index as int]);
        let rank = display_rank_exec(x.prefix.as_str());
        let mut k: usize = 0;
        while k < sorted.len()
            invariant
                k <= sorted@.len(),
                forall|j: int| 0 <= j < k ==> !(display_rank(summary_view(x).prefix) < display_rank(
                    (#[trigger] summary_views(sorted@)[j]).prefix,
                )),
            decreases sorted@.len() - k,
        {
            if rank < display_rank_exec(sorted[k].prefix.as_str()) {
                break;
            }
            k += 1;
        }
        let ghost before = summary_views(sorted@);
        proof {
            lemma_insert_by_rank_at(before, summary_view(x), k as int);
            let t = all.take(index + 1);
            assert(t.drop_last() =~= all.take(index as int));
            assert(t.last() == all[index as int]);
        }
        let ghost xv = summary_view(x);
        sorted.insert(k, x);
        assert(summary_views(sorted@) =~= before.insert(k as int, xv));
        index += 1;
    }
    assert(all.take(index as int) =~= all);
    sorted
}

/// The summaries and search results of the indexed archives, archive by archive.
#[verifier::loop_isolation(false)]
fn indexed_parts(indexes: &[(String, IndexedArchive)]) -> (parts: (Vec<ArchiveSummary>, Vec<VerifiedSearchAssetRef>))
    ensures
        summary_views(parts.0@) == indexes@.map_values(|p: (String, IndexedArchive)| indexed_summary(p.0@, p.1)),
        search_views(parts.1@) == indexed_items(indexes@.map_values(|p: (String, IndexedArchive)| (p.0@, p.1))),
{
    let ghost index_views = indexes@.map_values(|p: (String, IndexedArchive)| (p.0@, p.1));
    let ghost index_summaries = indexes@.map_values(|p: (String, IndexedArchive)| indexed_summary(p.0@, p.1));
    let mut archives: Vec<ArchiveSummary> = Vec::new();
    let mut items: Vec<VerifiedSearchAssetRef> = Vec::new();
    let mut index: usize = 0;
    assert(summary_views(archives@) =~= index_summaries.take(0));
    assert(search_views(items@) =~= indexed_items(index_views.take(0)));
    while index < indexes.len()
        invariant
            index <= indexes@.len(),
            summary_views(archives@) == index_summaries.take(index as int),
            search_views(items@) == indexed_items(index_views.take(index as int)),
        decreases indexes@.len() - index,
    {
        let (prefix, parsed) = (&indexes[index].0, &indexes[index].1);
        let header = parsed.header;
        archives.push(
            ArchiveSummary {
                prefix: prefix.clone(),
                has_index: true,
                record_count: header.record_count,
                group_count: header.group_count,
                image_block_count: header.image_block_count,
                archive_count: header.archive_count,
            },
        );
        assert(summary_views(archives@) =~= index_summaries.take(index + 1));
        let mut part = archive_search_assets(prefix.as_str(), parsed.records.as_slice());
        let ghost items_before = search_views(items@);
        let ghost part_views = search_views(part@);
        items.append(&mut part);
        proof {
            assert(search_views(items@) =~= items_before + part_views);
            let t = index_views.take(index + 1);
            assert(t.drop_last() =~= index_views.take(index as int));
            assert(t.last() == (prefix@, *parsed));
        }
        index += 1;
    }
    assert(index_summaries.take(index as int) =~= index_summaries);
    assert(index_views.take(index as int) =~= index_views);
    (archives, items)
}

/// The summaries and search results of the raw archives, archive by archive.
#[verifier::loop_isolation(false)]
fn raw_parts(raw_archives: &[LoadedRawImageArchive]) -> (parts: (Vec<ArchiveSummary>, Vec<VerifiedSearchAssetRef>))
    ensures
        summary_views(parts.0@) == raw_archives@.map_values(
            |a: LoadedRawImageArchive| raw_summary(a.spec_prefix(), a.spec_blocks().len(), a.spec_file_count()),
        ),
        search_views(parts.1@) == raw_items(
            raw_archives@.map_values(|a: LoadedRawImageArchive| (a.spec_prefix(), raw_records(a.spec_blocks()))),
        ),
{
    let ghost raw_views = raw_archives@.map_values(
        |a: LoadedRawImageArchive| (a.spec_prefix(), raw_records(a.spec_blocks())),
    );
    let ghost raw_summaries = raw_archives@.map_values(
        |a: LoadedRawImageArchive| raw_summary(a.spec_prefix(), a.spec_blocks().len(), a.spec_file_count()),
    );
    let mut archives: Vec<ArchiveSummary> = Vec::new();
    let mut items: Vec<VerifiedSearchAssetRef> = Vec::new();
    let mut index: usize = 0;
    assert(summary_views(archives@) =~= raw_summaries.take(0));
    assert(search_views(items@) =~= raw_items(raw_views.take(0)));
    while index < raw_archives.len()
        invariant
            index <= raw_archives@.len(),
            summary_views(archives@) == raw_summaries.take(index as int),
            search_views(items@) == raw_items(raw_views.take(index as int)),
        decreases raw_archives@.len() - index,
    {
        let archive = &raw_archives[index];
        let records = archive.records();
        let count = if records.len() > 0xffff_ffff {
            0xffff_ffffu32
        } else {
            records.len() as u32
        };
        let ghost before = summary_views(archives@);
        archives.push(
            ArchiveSummary {
                prefix: String::from_str(archive.prefix().as_str()),
                has_index: false,
                record_count: count,
                group_count: 0,
                image_block_count: count,
                archive_count: archive.archive_count(),
            },
        );
        proof {
            assert(records@.len() == archive.spec_blocks().len());
            assert(summary_view(archives@.last()) == raw_summaries[index as int]);
            assert(summary_views(archives@) =~= before.push(raw_summaries[index as int]));
            assert(raw_summaries.take(index + 1) =~= raw_summaries.take(index as int).push(raw_summaries[index as int]));
        }
        let mut part = raw_archive_search_assets(archive.prefix().as_str(), records.as_slice());
        let ghost items_before = search_views(items@);
        let ghost part_views = search_views(part@);
        items.append(&mut part);
        proof {
            assert(search_views(items@) =~= items_before + part_views);
            let t = raw_views.take(index + 1);
            assert(t.drop_last() =~= raw_views.take(index as int));
            assert(records@ =~= raw_records(archive.spec_blocks()));
            assert(t.last() == (archive.spec_prefix(), raw_records(archive.spec_blocks())));
        }
        index += 1;
    }
    assert(raw_summaries.take(index as int) =~= raw_summaries);
    assert(raw_views.take(index as int) =~= raw_views);
    (archives, items)
}

/// The first result of each slot, in order.
#[verifier::loop_isolation(false)]
fn first_results_per_slot(items: &Vec<VerifiedSearchAssetRef>) -> (slots: Vec<VerifiedSearchAssetRef>)
    ensures
        search_views(slots@) == first_per_slot(search_views(items@)),
{
    let ghost all_items = search_views(items@);
    let mut slots: Vec<VerifiedSearchAssetRef> = Vec::new();
    let mut k: usize = 0;
    assert(search_views(slots@) =~= first_per_slot(all_items.take(0)));
    while k < items.len()
        invariant
            k <= items@.len(),
            search_views(slots@) == first_per_slot(all_items.take(k as int)),
        decreases items@.len() - k,
    {
        proof {
            let t = all_items.take(k + 1);
            assert(t.drop_last() =~= all_items.take(k as int));
            assert(t.last() == items@[k as int]@);
        }
        push_first_per_slot(&mut slots, items[k].clone());
        k += 1;
    }
    assert(all_items.take(k as int) =~= all_items);
    slots
}

/// How many of `slots` each category path holds, in path order.
#[verifier::loop_isolation(false)]
fn category_summaries(slots: &Vec<VerifiedSearchAssetRef>) -> (categories: Vec<VerifiedCategorySummary>)
    ensures
        categories_fit(categories@, category_counts(search_views(slots@))),
{
    let mut counts: Vec<(Vec<String>, usize)> = Vec::new();
    let ghost slot_views = search_views(slots@);
    let mut s: usize = 0;
    assert(slot_views.take(0) =~= Seq::<SearchAssetView>::empty());
    assert(count_views(counts@) =~= Seq::<(Seq<Seq<char>>, nat)>::empty());
    while s < slots.len()
        invariant
            s <= slots@.len(),
            slot_views == search_views(slots@),
            count_views(counts@) == category_counts(slot_views.take(s as int)),
            forall|i: int| 0 <= i < counts@.len() ==> (#[trigger] counts@[i]).1 <= s,
        decreases slots@.len() - s,
    {
        proof {
            let t = slot_views.take(s + 1);
            assert(t.drop_last() =~= slot_views.take(s as int));
            assert(t.last() == slots@[s as int]@);
            lemma_category_counts_bound(slot_views.take(s + 1));
        }
        count_path_exec(&mut counts, &slots[s].path, s + 1);
        proof {
            assert forall|i: int| 0 <= i < counts@.len() implies (#[trigger] counts@[i]).1 <= s + 1 by {
                assert(count_views(counts@)[i].1 == counts@[i].1);
            }
        }
        s += 1;
    }
    assert(slot_views.take(s as int) =~= slot_views);
    let mut categories: Vec<VerifiedCategorySummary> = Vec::new();
    let mut c: usize = 0;
    while c < counts.len()
        invariant
            c <= counts@.len(),
            categories@.len() == c,
            forall|i: int|
                0 <= i < c ==> path_texts(#[trigger] categories@[i].path@) == count_views(counts@)[i].0
                    && categories@[i].asset_count == count_views(counts@)[i].1,
        decreases counts@.len() - c,
    {
        categories.push(
            VerifiedCategorySummary { path: crate::client::clone_path(counts[c].0.as_slice()), asset_count: counts[c].1 },
        );
        c += 1;
    }
    categories
}

/// The summary of an installation's archives, or none when it has no supported archive.
pub fn summarize_installation(
    game_directory: String,
    resource_directory: String,
    indexes: &[(String, IndexedArchive)],
    raw_archives: &[LoadedRawImageArchive],
) -> (summary: Option<GameDirectorySummary>)
    ensures
        indexes@.len() + raw_archives@.len() == 0 ==> summary is None,
        indexes@.len() + raw_archives@.len() > 0 ==> (summary matches Some(s) && {
            let index_views = indexes@.map_values(|p: (String, IndexedArchive)| (p.0@, p.1));
            let raw_views = raw_archives@.map_values(
                |a: LoadedRawImageArchive| (a.spec_prefix(), raw_records(a.spec_blocks())),
            );
            &&& s.game_directory@ == game_directory@
            &&& s.resource_directory@ == resource_directory@
            &&& summary_views(s.archives@) == sort_by_rank(
                indexes@.map_values(|p: (String, IndexedArchive)| indexed_summary(p.0@, p.1)) + raw_archives@.map_values(
                    |a: LoadedRawImageArchive| raw_summary(a.spec_prefix(), a.spec_blocks().len(), a.spec_file_count()),
                ),
            )
            &&& categories_fit(s.verified_categories@, category_counts(installation_slots(index_views, raw_views)))
        }),
{
    if indexes.len() == 0 && raw_archives.len() == 0 {
        return None;
    }
    let (mut archives, mut items) = indexed_parts(indexes);
    let (mut raw_summaries, mut raw_found) = raw_parts(raw_archives);
    let ghost archives_before = summary_views(archives@);
    let ghost raw_summary_views = summary_views(raw_summaries@);
    let ghost items_before = search_views(items@);
    let ghost raw_found_views = search_views(raw_found@);
    archives.append(&mut raw_summaries);
    items.append(&mut raw_found);
    assert(summary_views(archives@) =~= archives_before + raw_summary_views);
    assert(search_views(items@) =~= items_before + raw_found_views);
    let slots = first_results_per_slot(&items);
    let categories = category_summaries(&slots);
    let sorted = sort_by_rank_exec(archives);
    Some(
        GameDirectorySummary {
            game_directory,
            resource_directory,
            archives: sorted,
            verified_categories: categories,
        },
    )
}

} // verus!
