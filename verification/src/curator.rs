//! The curator's view of an indexed archive: groups, ID bands and ID ranges of its records,
//! with sample images for review.

use crate::catalog::{assembly_plan, classify_record, CatalogRecordKey, RecordClassification};
use crate::catalog::assembly::{first_plan, spec_assembly_rules};
use crate::client::{classify_view, is_assembled, str_equal};
use crate::extract::{ExtractError, ExtractedAssembly, ExtractedResource, LoadedArchive, ResourceKey};
use crate::session::{first_loaded, lemma_first_loaded_at};
use crate::index::IndexRecord;
use crate::text::{ascii_lower, to_ascii_lowercase};
use vstd::prelude::*;
use vstd::relations::{sorted_by, total_ordering};
use vstd::string::StringExecFns;

verus! {

/// The most sample images one request returns.
pub const MAX_SAMPLE_COUNT: usize = 24;

/// Largest decoded size of one sample image.
pub const MAX_SAMPLE_OUTPUT_SIZE: usize = 16777216;

/// Largest decoded size of a joined preview.
pub const MAX_ASSEMBLED_OUTPUT_SIZE: usize = 67108864;

/// IDs further apart than this start a new range.
pub const ICON_ID_GAP_THRESHOLD: u32 = 1000;

/// The width of an ID band.
pub const ICON_ID_BAND_SIZE: u32 = 100000;

// ---------------------------------------------------------------------------
// Record keys
// ---------------------------------------------------------------------------

/// A record's key in review order: its ID, group and block.
pub open spec fn record_key(r: IndexRecord) -> (u32, u32, u32) {
    (r.icon_id, r.group_code, r.block_index)
}

/// Lexicographic order of keys.
pub open spec fn key_leq() -> spec_fn((u32, u32, u32), (u32, u32, u32)) -> bool {
    |a: (u32, u32, u32), b: (u32, u32, u32)|
        a.0 < b.0 || (a.0 == b.0 && (a.1 < b.1 || (a.1 == b.1 && a.2 <= b.2)))
}

pub proof fn lemma_key_leq_total()
    ensures
        total_ordering(key_leq()),
{
    let leq = key_leq();
    assert forall|a: (u32, u32, u32), b: (u32, u32, u32)| #[trigger] leq(a, b) && #[trigger] leq(b, a) implies a
        == b by {
        assert(a.0 == b.0 && a.1 == b.1 && a.2 == b.2);
    }
    assert forall|a: (u32, u32, u32), b: (u32, u32, u32), c: (u32, u32, u32)| #[trigger] leq(a, b) && #[trigger] leq(
        b,
        c,
    ) implies leq(a, c) by {}
    assert forall|a: (u32, u32, u32), b: (u32, u32, u32)| #[trigger] leq(a, b) || #[trigger] leq(b, a) by {}
    assert forall|a: (u32, u32, u32)| #[trigger] leq(a, a) by {}
}

/// Which records a request looks at.
#[derive(Debug, Clone, Copy, PartialEq, Eq, Structural)]
pub enum RecordFilter {
    Group(u32),
    IconRange(u32, u32),
    GroupIconRange(u32, u32, u32),
    All,
}

pub open spec fn filter_keeps(filter: RecordFilter, r: IndexRecord) -> bool {
    match filter {
        RecordFilter::Group(g) => r.group_code == g,
        RecordFilter::IconRange(start, end) => start <= r.icon_id && r.icon_id <= end,
        RecordFilter::GroupIconRange(g, start, end) => r.group_code == g && start <= r.icon_id && r.icon_id
            <= end,
        RecordFilter::All => true,
    }
}

/// The keys of the records a filter keeps, in record order.
pub open spec fn kept_keys(records: Seq<IndexRecord>, filter: RecordFilter) -> Seq<(u32, u32, u32)>
    decreases records.len(),
{
    if records.len() == 0 {
        Seq::empty()
    } else if filter_keeps(filter, records.last()) {
        kept_keys(records.drop_last(), filter).push(record_key(records.last()))
    } else {
        kept_keys(records.drop_last(), filter)
    }
}

fn filter_keeps_exec(filter: RecordFilter, r: IndexRecord) -> (kept: bool)
    ensures
        kept == filter_keeps(filter, r),
{
    match filter {
        RecordFilter::Group(g) => r.group_code == g,
        RecordFilter::IconRange(start, end) => start <= r.icon_id && r.icon_id <= end,
        RecordFilter::GroupIconRange(g, start, end) => r.group_code == g && start <= r.icon_id && r.icon_id
            <= end,
        RecordFilter::All => true,
    }
}

/// The keys of the records a filter keeps.
pub fn keys_where(records: &[IndexRecord], filter: RecordFilter) -> (keys: Vec<(u32, u32, u32)>)
    ensures
        keys@ == kept_keys(records@, filter),
{
    let mut keys: Vec<(u32, u32, u32)> = Vec::new();
    let mut index: usize = 0;
    assert(records@.take(0) =~= Seq::<IndexRecord>::empty());
    while index < records.len()
        invariant
            index <= records@.len(),
            keys@ == kept_keys(records@.take(index as int), filter),
        decreases records@.len() - index,
    {
        let r = records[index];
        proof {
            let taken = records@.take(index + 1);
            assert(taken.drop_last() =~= records@.take(index as int));
            assert(taken.last() == r);
        }
        if filter_keeps_exec(filter, r) {
            keys.push((r.icon_id, r.group_code, r.block_index));
        }
        index += 1;
    }
    assert(records@.take(index as int) =~= records@);
    keys
}

/// Sorts keys in review order.
#[verifier::loop_isolation(false)]
pub fn sort_keys(keys: Vec<(u32, u32, u32)>) -> (sorted: Vec<(u32, u32, u32)>)
    ensures
        sorted@ == keys@.sort_by(key_leq()),
{
    let ghost leq = key_leq();
    proof {
        lemma_key_leq_total();
    }
    let mut sorted: Vec<(u32, u32, u32)> = Vec::new();
    let mut index: usize = 0;
    proof {
        broadcast use vstd::seq_lib::group_to_multiset_ensures;
        assert(keys@.take(0) =~= Seq::<(u32, u32, u32)>::empty());
    }
    while index < keys.len()
        invariant
            index <= keys@.len(),
            sorted_by(sorted@, leq),
            sorted@.to_multiset() == keys@.take(index as int).to_multiset(),
        decreases keys@.len() - index,
    {
        let x = keys[index];
        let mut k: usize = 0;
        while k < sorted.len()
            invariant
                k <= sorted@.len(),
                forall|j: int| 0 <= j < k ==> leq(#[trigger] sorted@[j], x),
            decreases sorted@.len() - k,
        {
            let y = sorted[k];
            if !(y.0 < x.0 || (y.0 == x.0 && (y.1 < x.1 || (y.1 == x.1 && y.2 <= x.2)))) {
                break;
            }
            k += 1;
        }
        let ghost before = sorted@;
        proof {
            if k < before.len() {
                assert(!leq(before[k as int], x));
                assert(leq(x, before[k as int]));
            }
        }
        sorted.insert(k, x);
        proof {
            assert(sorted@ =~= before.insert(k as int, x));
            assert forall|i: int, j: int| 0 <= i < j < sorted@.len() implies #[trigger] leq(sorted@[i], sorted@[j]) by {
                if j < k {
                    assert(leq(before[i], before[j]));
                } else if j == k {
                    assert(leq(before[i], x));
                } else if i == k {
                    assert(leq(x, before[k as int]));
                    if j - 1 > k {
                        assert(leq(before[k as int], before[j - 1]));
                    }
                } else if i < k {
                    assert(leq(before[i], before[j - 1]));
                } else {
                    assert(leq(before[i - 1], before[j - 1]));
                }
            }
            vstd::seq_lib::to_multiset_insert(before, k as int, x);
            let taken = keys@.take(index + 1);
            assert(taken =~= keys@.take(index as int).push(x));
            vstd::seq_lib::to_multiset_build(keys@.take(index as int), x);
        }
        index += 1;
    }
    proof {
        assert(keys@.take(index as int) =~= keys@);
        keys@.lemma_sort_by_ensures(leq);
        vstd::seq_lib::lemma_sorted_unique(sorted@, keys@.sort_by(leq), leq);
    }
    sorted
}

// ---------------------------------------------------------------------------
// Summaries of a set of keys
// ---------------------------------------------------------------------------

/// The keys with the first of each block only, in order.
pub open spec fn first_per_block(keys: Seq<(u32, u32, u32)>) -> Seq<(u32, u32, u32)>
    decreases keys.len(),
{
    if keys.len() == 0 {
        keys
    } else {
        let kept = first_per_block(keys.drop_last());
        if exists|j: int| 0 <= j < kept.len() && (#[trigger] kept[j]).2 == keys.last().2 {
            kept
        } else {
            kept.push(keys.last())
        }
    }
}

/// The smallest ID among the keys.
pub open spec fn min_icon(keys: Seq<(u32, u32, u32)>) -> u32
    decreases keys.len(),
{
    if keys.len() <= 1 {
        if keys.len() == 0 {
            0
        } else {
            keys[0].0
        }
    } else {
        let rest = min_icon(keys.drop_last());
        if keys.last().0 < rest {
            keys.last().0
        } else {
            rest
        }
    }
}

/// The largest ID among the keys.
pub open spec fn max_icon(keys: Seq<(u32, u32, u32)>) -> u32
    decreases keys.len(),
{
    if keys.len() <= 1 {
        if keys.len() == 0 {
            0
        } else {
            keys[0].0
        }
    } else {
        let rest = max_icon(keys.drop_last());
        if keys.last().0 > rest {
            keys.last().0
        } else {
            rest
        }
    }
}

/// `sorted` (ascending, without repeats) with `value` added unless it is there.
pub open spec fn insert_value(sorted: Seq<u32>, value: u32) -> Seq<u32>
    decreases sorted.len(),
{
    if sorted.len() == 0 {
        seq![value]
    } else if sorted[0] == value {
        sorted
    } else if sorted[0] > value {
        seq![value] + sorted
    } else {
        seq![sorted[0]] + insert_value(sorted.drop_first(), value)
    }
}

/// The distinct values, ascending.
pub open spec fn distinct_sorted(values: Seq<u32>) -> Seq<u32>
    decreases values.len(),
{
    if values.len() == 0 {
        values
    } else {
        insert_value(distinct_sorted(values.drop_last()), values.last())
    }
}

/// The groups of the keys, distinct and ascending.
pub open spec fn key_groups(keys: Seq<(u32, u32, u32)>) -> Seq<u32> {
    distinct_sorted(keys.map_values(|k: (u32, u32, u32)| k.1))
}

proof fn lemma_insert_value_at(sorted: Seq<u32>, value: u32, k: int)
    requires
        0 <= k <= sorted.len(),
        forall|j: int| 0 <= j < k ==> sorted[j] < value,
        k < sorted.len() ==> sorted[k] >= value,
    ensures
        insert_value(sorted, value) == (if k < sorted.len() && sorted[k] == value {
            sorted
        } else {
            sorted.insert(k, value)
        }),
    decreases k,
{
    if sorted.len() == 0 {
        assert(sorted.insert(0, value) =~= seq![value]);
    } else if k == 0 {
        if sorted[0] != value {
            assert(sorted.insert(0, value) =~= seq![value] + sorted);
        }
    } else {
        lemma_insert_value_at(sorted.drop_first(), value, k - 1);
        if k < sorted.len() && sorted[k] == value {
            assert(seq![sorted[0]] + sorted.drop_first() =~= sorted);
        } else {
            assert(seq![sorted[0]] + sorted.drop_first().insert(k - 1, value) =~= sorted.insert(k, value));
        }
    }
}

#[verifier::loop_isolation(false)]
fn insert_value_exec(sorted: &mut Vec<u32>, value: u32)
    ensures
        final(sorted)@ == insert_value(old(sorted)@, value),
{
    let mut k: usize = 0;
    while k < sorted.len()
        invariant
            k <= sorted@.len(),
            sorted@ == old(sorted)@,
            forall|j: int| 0 <= j < k ==> sorted@[j] < value,
        decreases sorted@.len() - k,
    {
        if sorted[k] >= value {
            break;
        }
        k += 1;
    }
    proof {
        lemma_insert_value_at(sorted@, value, k as int);
    }
    if k < sorted.len() && sorted[k] == value {
        return;
    }
    sorted.insert(k, value);
}

/// What a request reports of a set of keys.
pub struct KeySummary {
    pub count: usize,
    pub unique_block_count: usize,
    pub min_icon_id: u32,
    pub max_icon_id: u32,
    pub group_codes: Vec<u32>,
}

/// The keys with the first of each block only.
#[verifier::loop_isolation(false)]
pub fn unique_blocks(keys: &Vec<(u32, u32, u32)>) -> (unique: Vec<(u32, u32, u32)>)
    ensures
        unique@ == first_per_block(keys@),
{
    let mut unique: Vec<(u32, u32, u32)> = Vec::new();
    let mut index: usize = 0;
    assert(keys@.take(0) =~= Seq::<(u32, u32, u32)>::empty());
    while index < keys.len()
        invariant
            index <= keys@.len(),
            unique@ == first_per_block(keys@.take(index as int)),
        decreases keys@.len() - index,
    {
        let key = keys[index];
        proof {
            let taken = keys@.take(index + 1);
            assert(taken.drop_last() =~= keys@.take(index as int));
            assert(taken.last() == key);
        }
        let mut j: usize = 0;
        let mut seen = false;
        while j < unique.len()
            invariant
                j <= unique@.len(),
                !seen,
                forall|i: int| 0 <= i < j ==> (#[trigger] unique@[i]).2 != key.2,
            decreases unique@.len() - j,
        {
            if unique[j].2 == key.2 {
                seen = true;
                break;
            }
            j += 1;
        }
        if !seen {
            unique.push(key);
        } else {
            assert(unique@[j as int].2 == key.2);
        }
        index += 1;
    }
    assert(keys@.take(index as int) =~= keys@);
    unique
}

/// Counts, extreme IDs and groups of a non-empty set of keys.
#[verifier::loop_isolation(false)]
pub fn summarize_keys(keys: &Vec<(u32, u32, u32)>) -> (summary: KeySummary)
    requires
        keys@.len() > 0,
    ensures
        summary.count == keys@.len(),
        summary.unique_block_count == first_per_block(keys@).len(),
        summary.min_icon_id == min_icon(keys@),
        summary.max_icon_id == max_icon(keys@),
        summary.group_codes@ == key_groups(keys@),
{
    let unique = unique_blocks(keys);
    let mut min_id = keys[0].0;
    let mut max_id = keys[0].0;
    let mut groups: Vec<u32> = Vec::new();
    let ghost group_values = keys@.map_values(|k: (u32, u32, u32)| k.1);
    let mut index: usize = 0;
    assert(keys@.take(1).drop_last() =~= Seq::<(u32, u32, u32)>::empty());
    assert(group_values.take(0) =~= Seq::<u32>::empty());
    while index < keys.len()
        invariant
            1 <= keys@.len(),
            index <= keys@.len(),
            index >= 1 ==> min_id == min_icon(keys@.take(index as int)) && max_id == max_icon(keys@.take(index as int)),
            index == 0 ==> min_id == keys@[0].0 && max_id == keys@[0].0,
            groups@ == distinct_sorted(group_values.take(index as int)),
        decreases keys@.len() - index,
    {
        let key = keys[index];
        proof {
            let taken = keys@.take(index + 1);
            assert(taken.drop_last() =~= keys@.take(index as int));
            assert(taken.last() == key);
            let gt = group_values.take(index + 1);
            assert(gt.drop_last() =~= group_values.take(index as int));
            assert(gt.last() == key.1);
        }
        if index > 0 {
            if key.0 < min_id {
                min_id = key.0;
            }
            if key.0 > max_id {
                max_id = key.0;
            }
        }
        insert_value_exec(&mut groups, key.1);
        index += 1;
    }
    assert(keys@.take(index as int) =~= keys@);
    assert(group_values.take(index as int) =~= group_values);
    KeySummary {
        count: keys.len(),
        unique_block_count: unique.len(),
        min_icon_id: min_id,
        max_icon_id: max_id,
        group_codes: groups,
    }
}

/// The distinct values, ascending.
pub fn distinct_sorted_exec(values: &Vec<u32>) -> (sorted: Vec<u32>)
    ensures
        sorted@ == distinct_sorted(values@),
{
    let mut sorted: Vec<u32> = Vec::new();
    let mut index: usize = 0;
    assert(values@.take(0) =~= Seq::<u32>::empty());
    while index < values.len()
        invariant
            index <= values@.len(),
            sorted@ == distinct_sorted(values@.take(index as int)),
        decreases values@.len() - index,
    {
        proof {
            let taken = values@.take(index + 1);
            assert(taken.drop_last() =~= values@.take(index as int));
            assert(taken.last() == values@[index as int]);
        }
        insert_value_exec(&mut sorted, values[index]);
        index += 1;
    }
    assert(values@.take(index as int) =~= values@);
    sorted
}

// ---------------------------------------------------------------------------
// Sample positions and prefixes
// ---------------------------------------------------------------------------

/// Up to `limit` positions spread evenly over `0..total`, both ends included.
pub open spec fn evenly_spaced(total: nat, limit: nat) -> Seq<int> {
    if total == 0 || limit == 0 {
        Seq::empty()
    } else if total <= limit {
        Seq::new(total, |i: int| i)
    } else if limit == 1 {
        seq![0]
    } else {
        Seq::new(limit, |p: int| p * (total - 1) / (limit - 1))
    }
}

/// Up to `limit` positions spread evenly over `0..total`, both ends included.
pub fn evenly_spaced_indices(total: usize, limit: usize) -> (indices: Vec<usize>)
    ensures
        indices@.len() == evenly_spaced(total as nat, limit as nat).len(),
        forall|i: int|
            0 <= i < indices@.len() ==> #[trigger] indices@[i] as int == evenly_spaced(total as nat, limit as nat)[i],
        forall|i: int| 0 <= i < indices@.len() ==> #[trigger] indices@[i] < total,
{
    let mut indices: Vec<usize> = Vec::new();
    if total == 0 || limit == 0 {
        return indices;
    }
    if total <= limit {
        let mut i: usize = 0;
        while i < total
            invariant
                i <= total,
                indices@.len() == i,
                forall|k: int| 0 <= k < i ==> #[trigger] indices@[k] == k,
            decreases total - i,
        {
            indices.push(i);
            i += 1;
        }
        return indices;
    }
    if limit == 1 {
        indices.push(0);
        return indices;
    }
    let mut p: usize = 0;
    while p < limit
        invariant
            1 < limit < total,
            p <= limit,
            indices@.len() == p,
            forall|k: int| 0 <= k < p ==> #[trigger] indices@[k] as int == k * (total - 1) / (limit - 1),
            forall|k: int| 0 <= k < p ==> #[trigger] indices@[k] < total,
        decreases limit - p,
    {
        assert((p as int) * ((total - 1) as int) <= 0xffff_ffff_ffff_ffff * 0xffff_ffff_ffff_ffff) by (nonlinear_arith)
            requires
                0 <= p <= 0xffff_ffff_ffff_ffff,
                0 <= total - 1 <= 0xffff_ffff_ffff_ffff,
        ;
        let product: u128 = (p as u128) * ((total - 1) as u128);
        let value: u128 = product / ((limit - 1) as u128);
        proof {
            assert(p * (total - 1) <= (limit - 1) * (total - 1)) by (nonlinear_arith)
                requires
                    p <= limit - 1,
                    total >= 1,
            ;
            assert(p * (total - 1) / (limit - 1) <= total - 1) by (nonlinear_arith)
                requires
                    p * (total - 1) <= (limit - 1) * (total - 1),
                    limit - 1 >= 1,
            ;
        }
        indices.push(value as usize);
        p += 1;
    }
    indices
}

/// The evenly spaced positions start at the first record and, unless only one sample is
/// wanted from more records, end at the last, and never exceed the limit.
pub proof fn lemma_evenly_spaced_includes_both_ends(total: nat, limit: nat)
    requires
        total > 0,
        limit > 0,
    ensures
        evenly_spaced(total, limit).len() == if total <= limit {
            total
        } else {
            limit
        },
        evenly_spaced(total, limit)[0] == 0,
        (total <= limit || limit >= 2) ==> evenly_spaced(total, limit).last() == total - 1,
        forall|i: int|
            0 <= i < evenly_spaced(total, limit).len() ==> 0 <= #[trigger] evenly_spaced(total, limit)[i] < total,
{
    if total > limit && limit >= 2 {
        let s = evenly_spaced(total, limit);
        assert(s[0] == 0 * (total - 1) / (limit - 1));
        assert(s.last() == (limit - 1) * (total - 1) / (limit - 1));
        assert((limit - 1) * (total - 1) / (limit - 1) == total - 1) by (nonlinear_arith)
            requires
                limit >= 2,
        ;
        assert forall|i: int| 0 <= i < s.len() implies 0 <= #[trigger] s[i] < total by {
            assert(s[i] == i * (total - 1) / (limit - 1));
            assert(0 <= i * (total - 1) / (limit - 1) <= total - 1) by (nonlinear_arith)
                requires
                    0 <= i < limit,
                    limit >= 2,
                    total >= 1,
            {
                assert(i * (total - 1) <= (limit - 1) * (total - 1));
            }
        }
    }
}

/// Whether the viewer supports an archive name given in lower case.
pub open spec fn is_supported_prefix(prefix: Seq<char>) -> bool {
    prefix == "im"@ || prefix == "sa"@ || prefix == "sb"@ || prefix == "sc"@ || prefix == "sd"@ || prefix
        == "se"@ || prefix == "sf"@ || prefix == "sg"@ || prefix == "sh"@ || prefix == "sw"@ || prefix
        == "sx"@ || prefix == "sy"@ || prefix == "sz"@ || prefix == "is"@
}

fn is_supported_prefix_exec(prefix: &str) -> (supported: bool)
    ensures
        supported == is_supported_prefix(prefix@),
{
    str_equal(prefix, "im") || str_equal(prefix, "sa") || str_equal(prefix, "sb") || str_equal(prefix, "sc")
        || str_equal(prefix, "sd") || str_equal(prefix, "se") || str_equal(prefix, "sf") || str_equal(
        prefix,
        "sg",
    ) || str_equal(prefix, "sh") || str_equal(prefix, "sw") || str_equal(prefix, "sx") || str_equal(
        prefix,
        "sy",
    ) || str_equal(prefix, "sz") || str_equal(prefix, "is")
}

/// Why the curator could not answer a request.
#[derive(Debug)]
pub enum CuratorSessionError {
    ResourceDirectoryNotSelected,
    UnsupportedPrefix { prefix: String },
    OpenArchive { prefix: String, source: ExtractError },
    ArchiveNotLoaded { prefix: String },
    GroupNotFound { prefix: String, group_code: u32 },
    InvalidIdRange { start_icon_id: u32, end_icon_id: u32 },
    IdRangeNotFound { prefix: String, group_code: u32, start_icon_id: u32, end_icon_id: u32 },
    ArchiveRangeNotFound { prefix: String, start_icon_id: u32, end_icon_id: u32 },
    VerifiedAssemblyNotFound { prefix: String, block_index: u32 },
    AssemblyTileRecordNotFound { prefix: String, block_index: u32 },
    Extract { prefix: String, source: ExtractError },
}

/// The archive name in lower case when the viewer supports it.
pub fn normalize_prefix(prefix: &str) -> (normalized: Result<String, CuratorSessionError>)
    ensures
        is_supported_prefix(ascii_lower(prefix@)) ==> (normalized matches Ok(p) && p@ == ascii_lower(prefix@)),
        !is_supported_prefix(ascii_lower(prefix@)) ==> (normalized matches Err(
            CuratorSessionError::UnsupportedPrefix { prefix: p },
        ) && p@ == ascii_lower(prefix@)),
{
    let lowered = to_ascii_lowercase(prefix);
    if is_supported_prefix_exec(lowered.as_str()) {
        Ok(lowered)
    } else {
        Err(CuratorSessionError::UnsupportedPrefix { prefix: lowered })
    }
}


// ---------------------------------------------------------------------------
// Reports
// ---------------------------------------------------------------------------

/// The records of one group.
#[derive(Debug, Clone, Copy, PartialEq, Eq, Structural)]
pub struct ArchiveGroupSummary {
    pub group_code: u32,
    pub record_count: usize,
    pub unique_block_count: usize,
    pub min_icon_id: u32,
    pub max_icon_id: u32,
}

/// A run of a group's IDs without a large gap.
#[derive(Debug, Clone, Copy, PartialEq, Eq, Structural)]
pub struct ArchiveIdRangeSummary {
    pub start_icon_id: u32,
    pub end_icon_id: u32,
    pub record_count: usize,
    pub unique_block_count: usize,
}

/// The ID runs of one group.
#[derive(Debug, Clone, PartialEq, Eq)]
pub struct GroupIdRanges {
    pub prefix: String,
    pub group_code: u32,
    pub gap_threshold: u32,
    pub ranges: Vec<ArchiveIdRangeSummary>,
}

/// The records whose IDs fall in one band.
#[derive(Debug, Clone, PartialEq, Eq)]
pub struct ArchiveIdBandSummary {
    pub start_icon_id: u32,
    pub end_icon_id: u32,
    pub first_actual_icon_id: u32,
    pub last_actual_icon_id: u32,
    pub record_count: usize,
    pub unique_block_count: usize,
    pub group_codes: Vec<u32>,
}

/// The ID bands of an archive.
#[derive(Debug, Clone, PartialEq, Eq)]
pub struct ArchiveIdBands {
    pub prefix: String,
    pub band_size: u32,
    pub bands: Vec<ArchiveIdBandSummary>,
}

/// One record decoded for review, with its classification.
#[derive(Debug, Clone, PartialEq, Eq)]
pub struct ResourceSample {
    pub prefix: String,
    pub group_code: u32,
    pub icon_id: u32,
    pub block_index: u32,
    pub width: u32,
    pub height: u32,
    pub classification: RecordClassification,
    pub has_verified_assembly: bool,
    pub png: Vec<u8>,
}

/// Samples of one group's ID range.
#[derive(Debug, Clone, PartialEq, Eq)]
pub struct RangeSamples {
    pub prefix: String,
    pub group_code: u32,
    pub start_icon_id: u32,
    pub end_icon_id: u32,
    pub record_count: usize,
    pub unique_block_count: usize,
    pub first_record: ResourceSample,
    pub last_record: ResourceSample,
    pub samples: Vec<ResourceSample>,
}

/// Samples of one ID band across groups.
#[derive(Debug, Clone, PartialEq, Eq)]
pub struct ArchiveBandSamples {
    pub prefix: String,
    pub start_icon_id: u32,
    pub end_icon_id: u32,
    pub record_count: usize,
    pub unique_block_count: usize,
    pub group_codes: Vec<u32>,
    pub first_record: ResourceSample,
    pub last_record: ResourceSample,
    pub samples: Vec<ResourceSample>,
}

/// A verified joined image with each of its tiles.
#[derive(Debug, Clone, PartialEq, Eq)]
pub struct AssemblyPreview {
    pub prefix: String,
    pub requested_block_index: u32,
    pub first_block: u32,
    pub last_block: u32,
    pub columns: u32,
    pub rows: u32,
    pub width: u32,
    pub height: u32,
    pub tiles: Vec<ResourceSample>,
    pub png: Vec<u8>,
}

/// Whether a sample stands for `key` of archive `prefix`: same key, the catalog's
/// classification of it, and whether a verified assembly holds its block.
pub open spec fn sample_fits(sample: ResourceSample, prefix: Seq<char>, key: (u32, u32, u32)) -> bool {
    &&& sample.prefix@ == prefix
    &&& sample.icon_id == key.0
    &&& sample.group_code == key.1
    &&& sample.block_index == key.2
    &&& sample.classification == classify_view(prefix, key.1, key.0, key.2)
    &&& sample.has_verified_assembly == is_assembled(prefix, key.2)
}

/// Whether `samples` are the evenly spaced samples of `keys`.
pub open spec fn samples_fit(samples: Seq<ResourceSample>, prefix: Seq<char>, keys: Seq<(u32, u32, u32)>) -> bool {
    let positions = evenly_spaced(keys.len(), MAX_SAMPLE_COUNT as nat);
    &&& samples.len() == positions.len()
    &&& forall|i: int| 0 <= i < samples.len() ==> #[trigger] sample_fits(samples[i], prefix, keys[positions[i]])
}

/// The group summary of `records` for group `g`.
pub open spec fn group_summary(records: Seq<IndexRecord>, g: u32) -> ArchiveGroupSummary {
    let keys = kept_keys(records, RecordFilter::Group(g));
    ArchiveGroupSummary {
        group_code: g,
        record_count: keys.len() as usize,
        unique_block_count: first_per_block(keys).len() as usize,
        min_icon_id: min_icon(keys),
        max_icon_id: max_icon(keys),
    }
}

/// The groups of `records`, distinct and ascending.
pub open spec fn record_groups(records: Seq<IndexRecord>) -> Seq<u32> {
    distinct_sorted(records.map_values(|r: IndexRecord| r.group_code))
}

/// The first ID of the band that holds `icon_id`.
pub open spec fn band_start(icon_id: u32) -> u32 {
    (icon_id / ICON_ID_BAND_SIZE * ICON_ID_BAND_SIZE) as u32
}

/// The last ID of the band that starts at `start`.
pub open spec fn band_end(start: u32) -> u32 {
    if start + (ICON_ID_BAND_SIZE - 1) > u32::MAX {
        u32::MAX
    } else {
        (start + (ICON_ID_BAND_SIZE - 1)) as u32
    }
}

/// The bands that hold records, ascending.
pub open spec fn record_bands(records: Seq<IndexRecord>) -> Seq<u32> {
    distinct_sorted(records.map_values(|r: IndexRecord| band_start(r.icon_id)))
}

/// Where the run that contains position `b - 1` of `keys` ends.
pub open spec fn next_break(keys: Seq<(u32, u32, u32)>, b: int) -> int
    decreases keys.len() - b,
{
    if b >= keys.len() || b <= 0 || keys[b].0 - keys[b - 1].0 > ICON_ID_GAP_THRESHOLD {
        b
    } else {
        next_break(keys, b + 1)
    }
}

/// The summary of one run of keys.
pub open spec fn range_summary(run: Seq<(u32, u32, u32)>) -> ArchiveIdRangeSummary {
    ArchiveIdRangeSummary {
        start_icon_id: run[0].0,
        end_icon_id: run.last().0,
        record_count: run.len() as usize,
        unique_block_count: first_per_block(run).len() as usize,
    }
}

/// The runs of ID-ordered keys from position `start` on.
pub open spec fn ranges_from(keys: Seq<(u32, u32, u32)>, start: int) -> Seq<ArchiveIdRangeSummary>
    decreases keys.len() - start,
{
    if start < 0 || start >= keys.len() {
        Seq::empty()
    } else {
        let end = next_break(keys, start + 1);
        proof {
            lemma_next_break_bounds(keys, start + 1);
        }
        seq![range_summary(keys.subrange(start, end))] + ranges_from(keys, end)
    }
}

pub proof fn lemma_next_break_bounds(keys: Seq<(u32, u32, u32)>, b: int)
    ensures
        b >= keys.len() || b <= 0 ==> next_break(keys, b) == b,
        0 < b <= keys.len() ==> b <= next_break(keys, b) <= keys.len(),
    decreases keys.len() - b,
{
    if !(b >= keys.len() || b <= 0 || keys[b].0 - keys[b - 1].0 > ICON_ID_GAP_THRESHOLD) {
        lemma_next_break_bounds(keys, b + 1);
    }
}

/// The curator's state: the chosen resource directory and its archives.
#[derive(Debug)]
pub struct CuratorSession {
    resource_directory: Option<String>,
    archives: Vec<LoadedArchive>,
}

impl CuratorSession {
    pub closed spec fn spec_directory(&self) -> Option<Seq<char>> {
        match self.resource_directory {
            Some(d) => Some(d@),
            None => None,
        }
    }

    pub closed spec fn spec_archives(&self) -> Seq<(Seq<char>, Seq<IndexRecord>)> {
        self.archives@.map_values(|a: LoadedArchive| (a.spec_prefix(), a.spec_records()))
    }

    /// The loaded archives, in the order they were added.
    pub closed spec fn spec_loaded(&self) -> Seq<LoadedArchive> {
        self.archives@
    }

    /// The first loaded archive named `prefix`.
    pub open spec fn spec_archive_of(&self, prefix: Seq<char>) -> LoadedArchive {
        first_loaded(self.spec_loaded(), prefix).unwrap()
    }

    /// The records of the first loaded archive named `prefix`.
    pub open spec fn spec_records_of(&self, prefix: Seq<char>) -> Option<Seq<IndexRecord>> {
        first_archive_named(self.spec_archives(), prefix)
    }

    pub fn new() -> (session: Self)
        ensures
            session.spec_directory() is None,
            session.spec_archives().len() == 0,
    {
        CuratorSession { resource_directory: None, archives: Vec::new() }
    }

    /// Chooses a resource directory; another one than the current drops the loaded archives.
    pub fn set_resource_directory(&mut self, path: &str)
        ensures
            final(self).spec_directory() == Some(path@),
            old(self).spec_directory() == Some(path@) ==> final(self).spec_archives() == old(self).spec_archives(),
            old(self).spec_directory() != Some(path@) ==> final(self).spec_archives().len() == 0,
    {
        let same = match &self.resource_directory {
            Some(current) => str_equal(current.as_str(), path),
            None => false,
        };
        if !same {
            self.archives = Vec::new();
            self.resource_directory = Some(String::from_str(path));
        }
    }

    /// Adds an opened archive of the chosen directory.
    pub fn add_archive(&mut self, archive: LoadedArchive)
        ensures
            final(self).spec_directory() == old(self).spec_directory(),
            final(self).spec_archives() == old(self).spec_archives().push(
                (archive.spec_prefix(), archive.spec_records()),
            ),
    {
        self.archives.push(archive);
        assert(self.spec_archives() =~= old(self).spec_archives().push(
            (archive.spec_prefix(), archive.spec_records()),
        ));
    }

    /// The archive named `prefix` (which must be supported), once a directory is chosen.
    #[verifier::loop_isolation(false)]
    fn archive(&self, prefix: &str) -> (archive: Result<(String, &LoadedArchive), CuratorSessionError>)
        ensures
            !is_supported_prefix(ascii_lower(prefix@)) ==> (archive matches Err(
                CuratorSessionError::UnsupportedPrefix { prefix: p },
            ) && p@ == ascii_lower(prefix@)),
            is_supported_prefix(ascii_lower(prefix@)) && self.spec_directory() is None ==> archive matches Err(
                CuratorSessionError::ResourceDirectoryNotSelected,
            ),
            is_supported_prefix(ascii_lower(prefix@)) && self.spec_directory() is Some ==> match self.spec_records_of(
                ascii_lower(prefix@),
            ) {
                Some(records) => archive matches Ok((p, a)) && p@ == ascii_lower(prefix@) && a.spec_records()
                    == records && a.spec_prefix() == ascii_lower(prefix@) && *a == self.spec_archive_of(
                    ascii_lower(prefix@),
                ),
                None => archive matches Err(CuratorSessionError::ArchiveNotLoaded { prefix: p }) && p@
                    == ascii_lower(prefix@),
            },
    {
        let normalized = normalize_prefix(prefix)?;
        if self.resource_directory.is_none() {
            return Err(CuratorSessionError::ResourceDirectoryNotSelected);
        }
        let mut index: usize = 0;
        assert(self.spec_archives().skip(0) =~= self.spec_archives());
        while index < self.archives.len()
            invariant
                index <= self.archives@.len(),
                first_archive_named(self.spec_archives(), normalized@) == first_archive_named(
                    self.spec_archives().skip(index as int),
                    normalized@,
                ),
                forall|k: int| 0 <= k < index ==> (#[trigger] self.archives@[k]).spec_prefix() != normalized@,
            decreases self.archives@.len() - index,
        {
            proof {
                let rest = self.spec_archives().skip(index as int);
                assert(rest[0] == (self.archives@[index as int].spec_prefix(), self.archives@[index as int].spec_records()));
                assert(rest.drop_first() =~= self.spec_archives().skip(index + 1));
            }
            if str_equal(self.archives[index].prefix().as_str(), normalized.as_str()) {
                proof {
                    lemma_first_loaded_at(self.archives@, normalized@, index as int);
                }
                return Ok((normalized, &self.archives[index]));
            }
            index += 1;
        }
        Err(CuratorSessionError::ArchiveNotLoaded { prefix: normalized })
    }
}

/// The records of the first archive named `prefix`.
pub open spec fn first_archive_named(archives: Seq<(Seq<char>, Seq<IndexRecord>)>, prefix: Seq<char>) -> Option<
    Seq<IndexRecord>,
>
    decreases archives.len(),
{
    if archives.len() == 0 {
        None
    } else if archives[0].0 == prefix {
        Some(archives[0].1)
    } else {
        first_archive_named(archives.drop_first(), prefix)
    }
}

/// What decoding record `key` (ID, group, block) of `archive` for review gives: the record's
/// image with its classification, or the archive's error.
pub open spec fn sample_made(
    archive: LoadedArchive,
    prefix: Seq<char>,
    key: (u32, u32, u32),
    sample: Result<ResourceSample, CuratorSessionError>,
) -> bool {
    exists|r: Result<ExtractedResource, ExtractError>|
        #[trigger] archive.extract_png_result(
            ResourceKey { group_code: key.1, icon_id: key.0, block_index: key.2 },
            MAX_SAMPLE_OUTPUT_SIZE,
            r,
        ) && match r {
            Ok(e) => sample matches Ok(s) && sample_fits(s, prefix, key) && s.width == e.width && s.height
                == e.height && s.png@ == e.png@,
            Err(error) => sample matches Err(CuratorSessionError::Extract { prefix: p, source }) && p@
                == prefix && source == error,
        }
}

/// The first record of block `block_index`.
pub open spec fn first_record_of_block(records: Seq<IndexRecord>, block_index: u32) -> Option<IndexRecord>
    decreases records.len(),
{
    if records.len() == 0 {
        None
    } else if records[0].block_index == block_index {
        Some(records[0])
    } else {
        first_record_of_block(records.drop_first(), block_index)
    }
}

proof fn lemma_first_record_of_block_at(records: Seq<IndexRecord>, block_index: u32, i: int)
    requires
        0 <= i < records.len(),
        records[i].block_index == block_index,
        forall|k: int| 0 <= k < i ==> (#[trigger] records[k]).block_index != block_index,
    ensures
        first_record_of_block(records, block_index) == Some(records[i]),
    decreases i,
{
    if i > 0 {
        let rest = records.drop_first();
        assert forall|k: int| 0 <= k < i - 1 implies (#[trigger] rest[k]).block_index != block_index by {
            assert(rest[k] == records[k + 1]);
        }
        lemma_first_record_of_block_at(rest, block_index, i - 1);
    }
}

proof fn lemma_first_record_of_block_none(records: Seq<IndexRecord>, block_index: u32)
    requires
        forall|k: int| 0 <= k < records.len() ==> (#[trigger] records[k]).block_index != block_index,
    ensures
        first_record_of_block(records, block_index) is None,
    decreases records.len(),
{
    if records.len() > 0 {
        let rest = records.drop_first();
        assert forall|k: int| 0 <= k < rest.len() implies (#[trigger] rest[k]).block_index != block_index by {
            assert(rest[k] == records[k + 1]);
        }
        lemma_first_record_of_block_none(rest, block_index);
    }
}

/// The review key (ID, group, block) of a record.
pub open spec fn review_key(record: IndexRecord) -> (u32, u32, u32) {
    (record.icon_id, record.group_code, record.block_index)
}

/// Whether `tiles` are the tiles from `first` on, each decoded from the first record of its
/// block.
pub open spec fn tiles_made(
    archive: LoadedArchive,
    prefix: Seq<char>,
    records: Seq<IndexRecord>,
    first: u32,
    tiles: Seq<ResourceSample>,
) -> bool {
    forall|i: int|
        #![trigger tiles[i]]
        0 <= i < tiles.len() ==> (first_record_of_block(records, (first + i) as u32) matches Some(record)
            && sample_made(archive, prefix, review_key(record), Ok(tiles[i])))
}

/// Whether `error` stops decoding the tiles `first..=last`: the first tile whose block has no
/// record, or whose record fails to decode.
pub open spec fn tiles_failed(
    archive: LoadedArchive,
    prefix: Seq<char>,
    records: Seq<IndexRecord>,
    first: u32,
    last: u32,
    error: CuratorSessionError,
) -> bool {
    exists|b: u32|
        first <= b <= last && (forall|c: u32| first <= c < b ==> #[trigger] first_record_of_block(records, c) is Some)
            && match #[trigger] first_record_of_block(records, b) {
            None => error matches CuratorSessionError::AssemblyTileRecordNotFound { prefix: p, block_index }
                && p@ == prefix && block_index == b,
            Some(record) => sample_made(archive, prefix, review_key(record), Err(error)),
        }
}

proof fn lemma_sample_made_fits(
    archive: LoadedArchive,
    prefix: Seq<char>,
    key: (u32, u32, u32),
    sample: ResourceSample,
)
    requires
        sample_made(archive, prefix, key, Ok(sample)),
    ensures
        sample_fits(sample, prefix, key),
{
    let r = choose|r: Result<ExtractedResource, ExtractError>|
        #[trigger] archive.extract_png_result(
            ResourceKey { group_code: key.1, icon_id: key.0, block_index: key.2 },
            MAX_SAMPLE_OUTPUT_SIZE,
            r,
        ) && match r {
            Ok(e) => Ok::<ResourceSample, CuratorSessionError>(sample) matches Ok(s) && sample_fits(s, prefix, key)
                && s.width == e.width && s.height == e.height && s.png@ == e.png@,
            Err(error) => Ok::<ResourceSample, CuratorSessionError>(sample) matches Err(
                CuratorSessionError::Extract { prefix: p, source },
            ) && p@ == prefix && source == error,
        };
}

/// Whether each sample was decoded from `archive`: the first and last of `keys` (ID-ordered,
/// non-empty) and the evenly spaced keys with one per block.
pub open spec fn samples_made(
    archive: LoadedArchive,
    prefix: Seq<char>,
    keys: Seq<(u32, u32, u32)>,
    first: ResourceSample,
    last: ResourceSample,
    samples: Seq<ResourceSample>,
) -> bool {
    let unique = first_per_block(keys);
    &&& sample_made(archive, prefix, keys[0], Ok(first))
    &&& sample_made(archive, prefix, keys.last(), Ok(last))
    &&& forall|i: int|
        0 <= i < samples.len() ==> #[trigger] sample_made(
            archive,
            prefix,
            unique[evenly_spaced(unique.len(), MAX_SAMPLE_COUNT as nat)[i]],
            Ok(samples[i]),
        )
}

/// Whether `error` is the failure of decoding one of `keys` from `archive`.
pub open spec fn sampling_failed(
    archive: LoadedArchive,
    prefix: Seq<char>,
    keys: Seq<(u32, u32, u32)>,
    error: CuratorSessionError,
) -> bool {
    exists|k: (u32, u32, u32)| keys.contains(k) && #[trigger] sample_made(archive, prefix, k, Err(error))
}

/// Decodes one record of `archive` for review.
fn extract_sample(archive: &LoadedArchive, prefix: &str, key: (u32, u32, u32)) -> (sample: Result<
    ResourceSample,
    CuratorSessionError,
>)
    ensures
        sample_made(*archive, prefix@, key, sample),
{
    let resource_key = ResourceKey { group_code: key.1, icon_id: key.0, block_index: key.2 };
    let extracted = archive.extract_png(resource_key, MAX_SAMPLE_OUTPUT_SIZE);
    let ghost result = extracted;
    match extracted {
        Ok(extracted) => {
            let classification = classify_record(
                CatalogRecordKey { archive: prefix, group_code: key.1, icon_id: key.0, block_index: key.2 },
            );
            let has_verified_assembly = assembly_plan(prefix, key.2).is_some();
            Ok(
                ResourceSample {
                    prefix: String::from_str(prefix),
                    group_code: key.1,
                    icon_id: key.0,
                    block_index: key.2,
                    width: extracted.width,
                    height: extracted.height,
                    classification,
                    has_verified_assembly,
                    png: extracted.png,
                },
            )
        },
        Err(source) => Err(CuratorSessionError::Extract { prefix: String::from_str(prefix), source }),
    }
}

/// The evenly spaced samples of `keys`.
#[verifier::loop_isolation(false)]
fn extract_samples(archive: &LoadedArchive, prefix: &str, keys: &Vec<(u32, u32, u32)>) -> (samples: Result<
    Vec<ResourceSample>,
    CuratorSessionError,
>)
    ensures
        match samples {
            Ok(s) => samples_fit(s@, prefix@, keys@) && forall|i: int|
                0 <= i < s@.len() ==> #[trigger] sample_made(
                    *archive,
                    prefix@,
                    keys@[evenly_spaced(keys@.len(), MAX_SAMPLE_COUNT as nat)[i]],
                    Ok(s@[i]),
                ),
            Err(e) => sampling_failed(*archive, prefix@, keys@, e),
        },
{
    let positions = evenly_spaced_indices(keys.len(), MAX_SAMPLE_COUNT);
    let mut samples: Vec<ResourceSample> = Vec::new();
    let mut index: usize = 0;
    while index < positions.len()
        invariant
            index <= positions@.len(),
            samples@.len() == index,
            forall|i: int|
                0 <= i < index ==> #[trigger] sample_fits(
                    samples@[i],
                    prefix@,
                    keys@[evenly_spaced(keys@.len(), MAX_SAMPLE_COUNT as nat)[i]],
                ),
            forall|i: int|
                0 <= i < index ==> #[trigger] sample_made(
                    *archive,
                    prefix@,
                    keys@[evenly_spaced(keys@.len(), MAX_SAMPLE_COUNT as nat)[i]],
                    Ok(samples@[i]),
                ),
        decreases positions@.len() - index,
    {
        let position = positions[index];
        let sample = extract_sample(archive, prefix, keys[position]);
        match sample {
            Ok(sample) => {
                samples.push(sample);
            },
            Err(error) => {
                proof {
                    let k = keys@[position as int];
                    assert(keys@.contains(k));
                    assert(sample_made(*archive, prefix@, k, Err(error)));
                }
                return Err(error);
            },
        }
        index += 1;
    }
    Ok(samples)
}

proof fn lemma_first_per_block_within(keys: Seq<(u32, u32, u32)>)
    ensures
        forall|i: int| 0 <= i < first_per_block(keys).len() ==> keys.contains(#[trigger] first_per_block(keys)[i]),
    decreases keys.len(),
{
    if keys.len() > 0 {
        let rest = keys.drop_last();
        lemma_first_per_block_within(rest);
        let kept = first_per_block(rest);
        assert forall|i: int| 0 <= i < first_per_block(keys).len() implies keys.contains(
            #[trigger] first_per_block(keys)[i],
        ) by {
            if i < kept.len() {
                let k = kept[i];
                assert(rest.contains(k));
                let j = choose|j: int| 0 <= j < rest.len() && rest[j] == k;
                assert(keys[j] == k);
            } else {
                assert(keys[keys.len() - 1] == keys.last());
            }
        }
    }
}

fn record_values(records: &[IndexRecord], bands: bool) -> (values: Vec<u32>)
    ensures
        values@ == (if bands {
            records@.map_values(|r: IndexRecord| band_start(r.icon_id))
        } else {
            records@.map_values(|r: IndexRecord| r.group_code)
        }),
{
    let mut values: Vec<u32> = Vec::new();
    let mut index: usize = 0;
    while index < records.len()
        invariant
            index <= records@.len(),
            values@ == (if bands {
                records@.take(index as int).map_values(|r: IndexRecord| band_start(r.icon_id))
            } else {
                records@.take(index as int).map_values(|r: IndexRecord| r.group_code)
            }),
        decreases records@.len() - index,
    {
        let r = records[index];
        let value = if bands {
            r.icon_id / ICON_ID_BAND_SIZE * ICON_ID_BAND_SIZE
        } else {
            r.group_code
        };
        values.push(value);
        proof {
            assert(records@.take(index + 1) =~= records@.take(index as int).push(r));
            if bands {
                assert(records@.take(index + 1).map_values(|r: IndexRecord| band_start(r.icon_id)) =~= records@.take(
                    index as int,
                ).map_values(|r: IndexRecord| band_start(r.icon_id)).push(band_start(r.icon_id)));
            } else {
                assert(records@.take(index + 1).map_values(|r: IndexRecord| r.group_code) =~= records@.take(
                    index as int,
                ).map_values(|r: IndexRecord| r.group_code).push(r.group_code));
            }
        }
        index += 1;
    }
    assert(records@.take(index as int) =~= records@);
    values
}

/// The runs of ID-ordered keys split at gaps larger than the threshold.
#[verifier::loop_isolation(false)]
fn split_ranges(keys: &Vec<(u32, u32, u32)>) -> (ranges: Vec<ArchiveIdRangeSummary>)
    requires
        keys@.len() > 0,
        sorted_by(keys@, key_leq()),
    ensures
        ranges@ == ranges_from(keys@, 0),
{
    let mut ranges: Vec<ArchiveIdRangeSummary> = Vec::new();
    let mut range_start: usize = 0;
    let mut position: usize = 1;
    assert(ranges@ + ranges_from(keys@, 0) =~= ranges_from(keys@, 0));
    assert forall|a: int, b: int| 0 <= a <= b < keys@.len() implies keys@[a].0 <= keys@[b].0 by {
        if a < b {
            assert(key_leq()(keys@[a], keys@[b]));
        }
    }
    while position <= keys.len()
        invariant
            0 <= range_start < position <= keys@.len(),
            range_start < keys@.len(),
            ranges@ + ranges_from(keys@, range_start as int) == ranges_from(keys@, 0),
            next_break(keys@, range_start + 1) == next_break(keys@, position as int),
            forall|a: int, b: int| 0 <= a <= b < keys@.len() ==> keys@[a].0 <= keys@[b].0,
        decreases keys@.len() + 1 - position,
    {
        let reached_end = position == keys.len();
        let found_gap = !reached_end && keys[position].0 - keys[position - 1].0 > ICON_ID_GAP_THRESHOLD;
        if reached_end || found_gap {
            let mut run: Vec<(u32, u32, u32)> = Vec::new();
            let mut k: usize = range_start;
            while k < position
                invariant
                    range_start <= k <= position,
                    run@ == keys@.subrange(range_start as int, k as int),
                decreases position - k,
            {
                run.push(keys[k]);
                assert(run@ =~= keys@.subrange(range_start as int, k + 1));
                k += 1;
            }
            let unique = unique_blocks(&run);
            let summary = ArchiveIdRangeSummary {
                start_icon_id: keys[range_start].0,
                end_icon_id: keys[position - 1].0,
                record_count: position - range_start,
                unique_block_count: unique.len(),
            };
            proof {
                assert(next_break(keys@, position as int) == position);
                lemma_next_break_bounds(keys@, range_start + 1);
                assert(ranges_from(keys@, range_start as int) == seq![range_summary(run@)] + ranges_from(
                    keys@,
                    position as int,
                ));
                assert(summary == range_summary(run@));
            }
            let ghost before = ranges@;
            ranges.push(summary);
            assert(ranges@ + ranges_from(keys@, position as int) =~= before + (seq![summary] + ranges_from(
                keys@,
                position as int,
            )));
            if position < keys.len() {
                proof {
                    lemma_next_break_bounds(keys@, position + 1);
                }
            }
            range_start = position;
            if position == keys.len() {
                assert(ranges_from(keys@, position as int) =~= Seq::<ArchiveIdRangeSummary>::empty());
                assert(ranges@ =~= ranges@ + ranges_from(keys@, position as int));
                return ranges;
            }
        } else {
            assert(keys@[position as int].0 >= keys@[position - 1].0);
        }
        position += 1;
    }
    ranges
}

impl CuratorSession {
    /// The groups of archive `prefix`: each group's record count, distinct blocks and smallest
    /// and largest ID, by group.
    pub fn group_summaries(&self, prefix: &str) -> (summaries: Result<Vec<ArchiveGroupSummary>, CuratorSessionError>)
        ensures
            !is_supported_prefix(ascii_lower(prefix@)) ==> (summaries matches Err(
                CuratorSessionError::UnsupportedPrefix { prefix: p },
            ) && p@ == ascii_lower(prefix@)),
            is_supported_prefix(ascii_lower(prefix@)) && self.spec_directory() is None ==> summaries matches Err(
                CuratorSessionError::ResourceDirectoryNotSelected,
            ),
            is_supported_prefix(ascii_lower(prefix@)) && self.spec_directory() is Some ==> match self.spec_records_of(
                ascii_lower(prefix@),
            ) {
                Some(records) => summaries matches Ok(found) && found@ == record_groups(records).map_values(
                    |g: u32| group_summary(records, g),
                ),
                None => summaries matches Err(CuratorSessionError::ArchiveNotLoaded { .. }),
            },
    {
        let (_, archive) = self.archive(prefix)?;
        let records = archive.records();
        let groups = distinct_sorted_exec(&record_values(records, false));
        let mut summaries: Vec<ArchiveGroupSummary> = Vec::new();
        let mut index: usize = 0;
        while index < groups.len()
            invariant
                index <= groups@.len(),
                groups@ == record_groups(records@),
                summaries@ == groups@.take(index as int).map_values(|g: u32| group_summary(records@, g)),
            decreases groups@.len() - index,
        {
            let g = groups[index];
            let keys = keys_where(records, RecordFilter::Group(g));
            let summary = if keys.len() == 0 {
                ArchiveGroupSummary { group_code: g, record_count: 0, unique_block_count: 0, min_icon_id: 0, max_icon_id: 0 }
            } else {
                let totals = summarize_keys(&keys);
                ArchiveGroupSummary {
                    group_code: g,
                    record_count: totals.count,
                    unique_block_count: totals.unique_block_count,
                    min_icon_id: totals.min_icon_id,
                    max_icon_id: totals.max_icon_id,
                }
            };
            proof {
                if keys@.len() == 0 {
                    assert(first_per_block(keys@) =~= Seq::<(u32, u32, u32)>::empty());
                }
                assert(summary == group_summary(records@, g));
                assert(groups@.take(index + 1).map_values(|g: u32| group_summary(records@, g)) =~= groups@.take(
                    index as int,
                ).map_values(|g: u32| group_summary(records@, g)).push(summary));
            }
            summaries.push(summary);
            index += 1;
        }
        assert(groups@.take(index as int) =~= groups@);
        Ok(summaries)
    }
}


/// The summary of the band that starts at `start`.
pub open spec fn band_summary_fits(band: ArchiveIdBandSummary, records: Seq<IndexRecord>, start: u32) -> bool {
    let keys = kept_keys(records, RecordFilter::IconRange(start, band_end(start)));
    &&& band.start_icon_id == start
    &&& band.end_icon_id == band_end(start)
    &&& band.first_actual_icon_id == min_icon(keys)
    &&& band.last_actual_icon_id == max_icon(keys)
    &&& band.record_count == keys.len()
    &&& band.unique_block_count == first_per_block(keys).len()
    &&& band.group_codes@ == key_groups(keys)
}

/// Whether a report of samples describes `keys` (ID-ordered, non-empty): the first and last
/// key sampled, and the evenly spaced samples taken from the keys with one per block.
pub open spec fn sampled_keys_fit(
    first: ResourceSample,
    last: ResourceSample,
    samples: Seq<ResourceSample>,
    unique_block_count: usize,
    prefix: Seq<char>,
    keys: Seq<(u32, u32, u32)>,
) -> bool {
    &&& sample_fits(first, prefix, keys[0])
    &&& sample_fits(last, prefix, keys.last())
    &&& unique_block_count == first_per_block(keys).len()
    &&& samples_fit(samples, prefix, first_per_block(keys))
}

impl CuratorSession {
    /// The ID bands of archive `prefix` that hold records, ascending.
    pub fn archive_id_bands(&self, prefix: &str) -> (bands: Result<ArchiveIdBands, CuratorSessionError>)
        ensures
            !is_supported_prefix(ascii_lower(prefix@)) ==> (bands matches Err(
                CuratorSessionError::UnsupportedPrefix { prefix: p },
            ) && p@ == ascii_lower(prefix@)),
            is_supported_prefix(ascii_lower(prefix@)) && self.spec_directory() is None ==> bands matches Err(
                CuratorSessionError::ResourceDirectoryNotSelected,
            ),
            is_supported_prefix(ascii_lower(prefix@)) && self.spec_directory() is Some ==> match self.spec_records_of(
                ascii_lower(prefix@),
            ) {
                Some(records) => bands matches Ok(found) && found.prefix@ == ascii_lower(prefix@) && found.band_size
                    == ICON_ID_BAND_SIZE && found.bands@.len() == record_bands(records).len() && forall|i: int|
                    0 <= i < found.bands@.len() ==> #[trigger] band_summary_fits(
                        found.bands@[i],
                        records,
                        record_bands(records)[i],
                    ),
                None => bands matches Err(CuratorSessionError::ArchiveNotLoaded { .. }),
            },
    {
        let (normalized, archive) = self.archive(prefix)?;
        let records = archive.records();
        let starts = distinct_sorted_exec(&record_values(records, true));
        let mut bands: Vec<ArchiveIdBandSummary> = Vec::new();
        let mut index: usize = 0;
        while index < starts.len()
            invariant
                index <= starts@.len(),
                starts@ == record_bands(records@),
                bands@.len() == index,
                forall|i: int| 0 <= i < index ==> #[trigger] band_summary_fits(bands@[i], records@, starts@[i]),
            decreases starts@.len() - index,
        {
            let start = starts[index];
            let end = start.saturating_add(ICON_ID_BAND_SIZE - 1);
            let keys = keys_where(records, RecordFilter::IconRange(start, end));
            let band = if keys.len() == 0 {
                ArchiveIdBandSummary {
                    start_icon_id: start,
                    end_icon_id: end,
                    first_actual_icon_id: 0,
                    last_actual_icon_id: 0,
                    record_count: 0,
                    unique_block_count: 0,
                    group_codes: Vec::new(),
                }
            } else {
                let totals = summarize_keys(&keys);
                ArchiveIdBandSummary {
                    start_icon_id: start,
                    end_icon_id: end,
                    first_actual_icon_id: totals.min_icon_id,
                    last_actual_icon_id: totals.max_icon_id,
                    record_count: totals.count,
                    unique_block_count: totals.unique_block_count,
                    group_codes: totals.group_codes,
                }
            };
            proof {
                if keys@.len() == 0 {
                    assert(first_per_block(keys@) =~= Seq::<(u32, u32, u32)>::empty());
                    assert(keys@.map_values(|k: (u32, u32, u32)| k.1) =~= Seq::<u32>::empty());
                    assert(band.group_codes@ =~= key_groups(keys@));
                }
            }
            bands.push(band);
            index += 1;
        }
        Ok(ArchiveIdBands { prefix: normalized, band_size: ICON_ID_BAND_SIZE, bands })
    }

    /// The runs of group `group_code`'s IDs, split where consecutive IDs are more than the
    /// threshold apart.
    pub fn group_id_ranges(&self, prefix: &str, group_code: u32) -> (ranges: Result<GroupIdRanges, CuratorSessionError>)
        ensures
            !is_supported_prefix(ascii_lower(prefix@)) ==> (ranges matches Err(
                CuratorSessionError::UnsupportedPrefix { prefix: p },
            ) && p@ == ascii_lower(prefix@)),
            is_supported_prefix(ascii_lower(prefix@)) && self.spec_directory() is None ==> ranges matches Err(
                CuratorSessionError::ResourceDirectoryNotSelected,
            ),
            is_supported_prefix(ascii_lower(prefix@)) && self.spec_directory() is Some ==> match self.spec_records_of(
                ascii_lower(prefix@),
            ) {
                Some(records) => {
                    let keys = kept_keys(records, RecordFilter::Group(group_code));
                    if keys.len() == 0 {
                        ranges matches Err(CuratorSessionError::GroupNotFound { prefix: p, group_code: g }) && p@
                            == ascii_lower(prefix@) && g == group_code
                    } else {
                        ranges matches Ok(found) && found.prefix@ == ascii_lower(prefix@) && found.group_code
                            == group_code && found.gap_threshold == ICON_ID_GAP_THRESHOLD && found.ranges@
                            == ranges_from(keys.sort_by(key_leq()), 0)
                    }
                },
                None => ranges matches Err(CuratorSessionError::ArchiveNotLoaded { .. }),
            },
    {
        let (normalized, archive) = self.archive(prefix)?;
        let keys = keys_where(archive.records(), RecordFilter::Group(group_code));
        if keys.len() == 0 {
            return Err(CuratorSessionError::GroupNotFound { prefix: normalized, group_code });
        }
        let ghost unsorted = keys@;
        let sorted = sort_keys(keys);
        proof {
            lemma_key_leq_total();
            unsorted.lemma_sort_by_ensures(key_leq());
            broadcast use vstd::seq_lib::group_to_multiset_ensures;
            assert(sorted@.len() == unsorted.len()) by {
                assert(sorted@.to_multiset().len() == unsorted.to_multiset().len());
            }
        }
        let ranges = split_ranges(&sorted);
        Ok(GroupIdRanges { prefix: normalized, group_code, gap_threshold: ICON_ID_GAP_THRESHOLD, ranges })
    }

    /// The first, last and evenly spaced samples of the records a filter keeps, ID-ordered.
    fn sample_keys(&self, archive: &LoadedArchive, prefix: &str, keys: Vec<(u32, u32, u32)>) -> (sampled: Result<
        (ResourceSample, ResourceSample, usize, Vec<ResourceSample>),
        CuratorSessionError,
    >)
        requires
            keys@.len() > 0,
        ensures
            match sampled {
                Ok((first, last, unique, samples)) => sampled_keys_fit(
                    first,
                    last,
                    samples@,
                    unique,
                    prefix@,
                    keys@.sort_by(key_leq()),
                ) && samples_made(*archive, prefix@, keys@.sort_by(key_leq()), first, last, samples@),
                Err(e) => sampling_failed(*archive, prefix@, keys@.sort_by(key_leq()), e),
            },
    {
        let ghost unsorted = keys@;
        let sorted = sort_keys(keys);
        proof {
            lemma_key_leq_total();
            unsorted.lemma_sort_by_ensures(key_leq());
            broadcast use vstd::seq_lib::group_to_multiset_ensures;
            assert(sorted@.len() == unsorted.len()) by {
                assert(sorted@.to_multiset().len() == unsorted.to_multiset().len());
            }
        }
        let first = match extract_sample(archive, prefix, sorted[0]) {
            Ok(first) => first,
            Err(error) => {
                proof {
                    assert(sorted@.contains(sorted@[0]));
                }
                return Err(error);
            },
        };
        let last_position = sorted.len() - 1;
        let last = match extract_sample(archive, prefix, sorted[last_position]) {
            Ok(last) => last,
            Err(error) => {
                proof {
                    assert(sorted@.contains(sorted@[last_position as int]));
                }
                return Err(error);
            },
        };
        let unique = unique_blocks(&sorted);
        let samples = match extract_samples(archive, prefix, &unique) {
            Ok(samples) => samples,
            Err(error) => {
                proof {
                    lemma_first_per_block_within(sorted@);
                    let k = choose|k: (u32, u32, u32)|
                        unique@.contains(k) && #[trigger] sample_made(*archive, prefix@, k, Err(error));
                    let j = choose|j: int| 0 <= j < unique@.len() && unique@[j] == k;
                    assert(sorted@.contains(unique@[j]));
                }
                return Err(error);
            },
        };
        assert(sorted@.last() == sorted@[last_position as int]);
        Ok((first, last, unique.len(), samples))
    }

    /// Samples of group `group_code` between two IDs, inclusive.
    pub fn range_samples(&self, prefix: &str, group_code: u32, start_icon_id: u32, end_icon_id: u32) -> (samples:
        Result<RangeSamples, CuratorSessionError>)
        ensures
            !is_supported_prefix(ascii_lower(prefix@)) ==> (samples matches Err(
                CuratorSessionError::UnsupportedPrefix { prefix: p },
            ) && p@ == ascii_lower(prefix@)),
            is_supported_prefix(ascii_lower(prefix@)) && start_icon_id > end_icon_id ==> (samples matches Err(
                CuratorSessionError::InvalidIdRange { start_icon_id: s, end_icon_id: e },
            ) && s == start_icon_id && e == end_icon_id),
            is_supported_prefix(ascii_lower(prefix@)) && start_icon_id <= end_icon_id && self.spec_directory() is None
                ==> samples matches Err(CuratorSessionError::ResourceDirectoryNotSelected),
            is_supported_prefix(ascii_lower(prefix@)) && start_icon_id <= end_icon_id && self.spec_directory() is Some
                ==> match self.spec_records_of(ascii_lower(prefix@)) {
                Some(records) => {
                    let keys = kept_keys(records, RecordFilter::GroupIconRange(group_code, start_icon_id, end_icon_id));
                    if keys.len() == 0 {
                        samples matches Err(CuratorSessionError::IdRangeNotFound { prefix: p, .. }) && p@ == ascii_lower(prefix@)
                    } else {
                        let archive = self.spec_archive_of(ascii_lower(prefix@));
                        match samples {
                            Ok(found) => found.prefix@ == ascii_lower(prefix@) && found.group_code == group_code
                                && found.start_icon_id == start_icon_id && found.end_icon_id == end_icon_id
                                && found.record_count == keys.len() && sampled_keys_fit(
                                found.first_record,
                                found.last_record,
                                found.samples@,
                                found.unique_block_count,
                                ascii_lower(prefix@),
                                keys.sort_by(key_leq()),
                            ) && samples_made(
                                archive,
                                ascii_lower(prefix@),
                                keys.sort_by(key_leq()),
                                found.first_record,
                                found.last_record,
                                found.samples@,
                            ),
                            Err(e) => sampling_failed(archive, ascii_lower(prefix@), keys.sort_by(key_leq()), e),
                        }
                    }
                },
                None => samples matches Err(CuratorSessionError::ArchiveNotLoaded { .. }),
            },
    {
        let normalized = normalize_prefix(prefix)?;
        if start_icon_id > end_icon_id {
            return Err(CuratorSessionError::InvalidIdRange { start_icon_id, end_icon_id });
        }
        let (normalized, archive) = self.archive(prefix)?;
        let keys = keys_where(archive.records(), RecordFilter::GroupIconRange(group_code, start_icon_id, end_icon_id));
        let record_count = keys.len();
        if record_count == 0 {
            return Err(
                CuratorSessionError::IdRangeNotFound { prefix: normalized, group_code, start_icon_id, end_icon_id },
            );
        }
        let (first_record, last_record, unique_block_count, samples) = self.sample_keys(
            archive,
            normalized.as_str(),
            keys,
        )?;
        Ok(
            RangeSamples {
                prefix: normalized,
                group_code,
                start_icon_id,
                end_icon_id,
                record_count,
                unique_block_count,
                first_record,
                last_record,
                samples,
            },
        )
    }

    /// Samples of every group between two IDs, inclusive.
    pub fn archive_band_samples(&self, prefix: &str, start_icon_id: u32, end_icon_id: u32) -> (samples: Result<
        ArchiveBandSamples,
        CuratorSessionError,
    >)
        ensures
            !is_supported_prefix(ascii_lower(prefix@)) ==> (samples matches Err(
                CuratorSessionError::UnsupportedPrefix { prefix: p },
            ) && p@ == ascii_lower(prefix@)),
            is_supported_prefix(ascii_lower(prefix@)) && start_icon_id > end_icon_id ==> (samples matches Err(
                CuratorSessionError::InvalidIdRange { start_icon_id: s, end_icon_id: e },
            ) && s == start_icon_id && e == end_icon_id),
            is_supported_prefix(ascii_lower(prefix@)) && start_icon_id <= end_icon_id && self.spec_directory() is None
                ==> samples matches Err(CuratorSessionError::ResourceDirectoryNotSelected),
            is_supported_prefix(ascii_lower(prefix@)) && start_icon_id <= end_icon_id && self.spec_directory() is Some
                ==> match self.spec_records_of(ascii_lower(prefix@)) {
                Some(records) => {
                    let keys = kept_keys(records, RecordFilter::IconRange(start_icon_id, end_icon_id));
                    if keys.len() == 0 {
                        samples matches Err(CuratorSessionError::ArchiveRangeNotFound { prefix: p, .. }) && p@
                            == ascii_lower(prefix@)
                    } else {
                        let archive = self.spec_archive_of(ascii_lower(prefix@));
                        match samples {
                            Ok(found) => found.prefix@ == ascii_lower(prefix@) && found.start_icon_id
                                == start_icon_id && found.end_icon_id == end_icon_id && found.record_count
                                == keys.len() && found.group_codes@ == key_groups(keys) && sampled_keys_fit(
                                found.first_record,
                                found.last_record,
                                found.samples@,
                                found.unique_block_count,
                                ascii_lower(prefix@),
                                keys.sort_by(key_leq()),
                            ) && samples_made(
                                archive,
                                ascii_lower(prefix@),
                                keys.sort_by(key_leq()),
                                found.first_record,
                                found.last_record,
                                found.samples@,
                            ),
                            Err(e) => sampling_failed(archive, ascii_lower(prefix@), keys.sort_by(key_leq()), e),
                        }
                    }
                },
                None => samples matches Err(CuratorSessionError::ArchiveNotLoaded { .. }),
            },
    {
        let normalized = normalize_prefix(prefix)?;
        if start_icon_id > end_icon_id {
            return Err(CuratorSessionError::InvalidIdRange { start_icon_id, end_icon_id });
        }
        let (normalized, archive) = self.archive(prefix)?;
        let keys = keys_where(archive.records(), RecordFilter::IconRange(start_icon_id, end_icon_id));
        let record_count = keys.len();
        if record_count == 0 {
            return Err(CuratorSessionError::ArchiveRangeNotFound { prefix: normalized, start_icon_id, end_icon_id });
        }
        let totals = summarize_keys(&keys);
        let (first_record, last_record, unique_block_count, samples) = self.sample_keys(
            archive,
            normalized.as_str(),
            keys,
        )?;
        Ok(
            ArchiveBandSamples {
                prefix: normalized,
                start_icon_id,
                end_icon_id,
                record_count,
                unique_block_count,
                group_codes: totals.group_codes,
                first_record,
                last_record,
                samples,
            },
        )
    }

    /// The verified joined image that holds block `block_index` of archive `prefix`, with each
    /// of its tiles decoded for review.
    #[verifier::loop_isolation(false)]
    pub fn assembly_preview(&self, prefix: &str, block_index: u32) -> (preview: Result<AssemblyPreview, CuratorSessionError>)
        ensures
            !is_supported_prefix(ascii_lower(prefix@)) ==> (preview matches Err(
                CuratorSessionError::UnsupportedPrefix { prefix: p },
            ) && p@ == ascii_lower(prefix@)),
            is_supported_prefix(ascii_lower(prefix@)) && first_plan(
                spec_assembly_rules(),
                ascii_lower(prefix@),
                block_index,
                crate::catalog::VerificationStatus::HumanVerified,
            ) is None ==> (preview matches Err(CuratorSessionError::VerifiedAssemblyNotFound { prefix: p, block_index: b })
                && p@ == ascii_lower(prefix@) && b == block_index),
            is_supported_prefix(ascii_lower(prefix@)) && first_plan(
                spec_assembly_rules(),
                ascii_lower(prefix@),
                block_index,
                crate::catalog::VerificationStatus::HumanVerified,
            ) is Some && self.spec_directory() is None ==> preview matches Err(
                CuratorSessionError::ResourceDirectoryNotSelected,
            ),
            is_supported_prefix(ascii_lower(prefix@)) && first_plan(
                spec_assembly_rules(),
                ascii_lower(prefix@),
                block_index,
                crate::catalog::VerificationStatus::HumanVerified,
            ) is Some && self.spec_directory() is Some ==> match self.spec_records_of(ascii_lower(prefix@)) {
                None => preview matches Err(CuratorSessionError::ArchiveNotLoaded { prefix: p }) && p@ == ascii_lower(
                    prefix@,
                ),
                Some(records) => {
                    let name = ascii_lower(prefix@);
                    let plan = first_plan(
                        spec_assembly_rules(),
                        name,
                        block_index,
                        crate::catalog::VerificationStatus::HumanVerified,
                    ).unwrap();
                    let archive = self.spec_archive_of(name);
                    exists|r: Result<Option<ExtractedAssembly>, ExtractError>|
                        #[trigger] archive.extract_verified_assembly_result(
                            block_index,
                            MAX_SAMPLE_OUTPUT_SIZE,
                            MAX_ASSEMBLED_OUTPUT_SIZE,
                            r,
                        ) && match r {
                            Err(error) => preview matches Err(CuratorSessionError::Extract { prefix: p, source })
                                && p@ == name && source == error,
                            Ok(None) => preview matches Err(
                                CuratorSessionError::VerifiedAssemblyNotFound { prefix: p, block_index: b },
                            ) && p@ == name && b == block_index,
                            Ok(Some(joined)) => match preview {
                                Ok(found) => {
                                    &&& found.prefix@ == name
                                    &&& found.requested_block_index == block_index
                                    &&& found.first_block == joined.first_block
                                    &&& found.last_block == joined.last_block
                                    &&& found.columns == plan.rule.columns
                                    &&& found.rows == plan.rule.rows
                                    &&& found.width == joined.width
                                    &&& found.height == joined.height
                                    &&& found.png@ == joined.png@
                                    &&& found.tiles@.len() == (if plan.first_block <= plan.last_block {
                                        plan.last_block - plan.first_block + 1
                                    } else {
                                        0
                                    })
                                    &&& forall|i: int|
                                        0 <= i < found.tiles@.len() ==> #[trigger] found.tiles@[i].block_index
                                            == plan.first_block + i && found.tiles@[i].prefix@ == name
                                    &&& tiles_made(archive, name, records, plan.first_block, found.tiles@)
                                },
                                Err(error) => tiles_failed(
                                    archive,
                                    name,
                                    records,
                                    plan.first_block,
                                    plan.last_block,
                                    error,
                                ),
                            },
                        }
                },
            },
    {
        let normalized = normalize_prefix(prefix)?;
        let plan = match assembly_plan(normalized.as_str(), block_index) {
            Some(plan) => plan,
            None => {
                return Err(CuratorSessionError::VerifiedAssemblyNotFound { prefix: normalized, block_index });
            },
        };
        let (normalized, archive) = self.archive(prefix)?;
        let extracted = archive.extract_verified_assembly(
            block_index,
            MAX_SAMPLE_OUTPUT_SIZE,
            MAX_ASSEMBLED_OUTPUT_SIZE,
        );
        let ghost result = extracted;
        assert(archive.extract_verified_assembly_result(
            block_index,
            MAX_SAMPLE_OUTPUT_SIZE,
            MAX_ASSEMBLED_OUTPUT_SIZE,
            result,
        ));
        let assembled = match extracted {
            Ok(Some(assembled)) => assembled,
            Ok(None) => {
                return Err(CuratorSessionError::VerifiedAssemblyNotFound { prefix: normalized, block_index });
            },
            Err(source) => {
                return Err(CuratorSessionError::Extract { prefix: normalized, source });
            },
        };
        let records = archive.records();
        let mut tiles: Vec<ResourceSample> = Vec::new();
        if plan.first_block <= plan.last_block {
            let mut tile = plan.first_block;
            loop
                invariant
                    plan.first_block <= tile <= plan.last_block,
                    tiles@.len() == tile - plan.first_block,
                    forall|i: int|
                        0 <= i < tiles@.len() ==> #[trigger] tiles@[i].block_index == plan.first_block + i
                            && tiles@[i].prefix@ == normalized@,
                    tiles_made(*archive, normalized@, records@, plan.first_block, tiles@),
                    forall|c: u32| plan.first_block <= c < tile ==> #[trigger] first_record_of_block(records@, c) is Some,
                decreases plan.last_block - tile,
            {
                let mut found: Option<IndexRecord> = None;
                let mut index: usize = 0;
                while index < records.len()
                    invariant
                        index <= records@.len(),
                        found is None,
                        forall|k: int| 0 <= k < index ==> (#[trigger] records@[k]).block_index != tile,
                    decreases records@.len() - index,
                {
                    if records[index].block_index == tile {
                        proof {
                            lemma_first_record_of_block_at(records@, tile, index as int);
                        }
                        found = Some(records[index]);
                        break;
                    }
                    index += 1;
                }
                let record = match found {
                    Some(record) => record,
                    None => {
                        proof {
                            lemma_first_record_of_block_none(records@, tile);
                        }
                        let error = CuratorSessionError::AssemblyTileRecordNotFound {
                            prefix: normalized.clone(),
                            block_index: tile,
                        };
                        assert(tiles_failed(*archive, normalized@, records@, plan.first_block, plan.last_block, error));
                        return Err(error);
                    },
                };
                let sample = extract_sample(
                    archive,
                    normalized.as_str(),
                    (record.icon_id, record.group_code, record.block_index),
                );
                let sample = match sample {
                    Ok(sample) => {
                        proof {
                            lemma_sample_made_fits(
                                *archive,
                                normalized@,
                                (record.icon_id, record.group_code, record.block_index),
                                sample,
                            );
                        }
                        sample
                    },
                    Err(error) => {
                        assert(first_record_of_block(records@, tile) == Some(record));
                        assert(tiles_failed(*archive, normalized@, records@, plan.first_block, plan.last_block, error));
                        return Err(error);
                    },
                };
                let ghost before = tiles@;
                tiles.push(sample);
                proof {
                    assert forall|i: int| 0 <= i < tiles@.len() implies (first_record_of_block(
                        records@,
                        (plan.first_block + i) as u32,
                    ) matches Some(r) && sample_made(*archive, normalized@, review_key(r), Ok(#[trigger] tiles@[i]))) by {
                        if i < before.len() {
                            assert(tiles@[i] == before[i]);
                        } else {
                            assert((plan.first_block + i) as u32 == tile);
                        }
                    }
                }
                if tile == plan.last_block {
                    break;
                }
                tile += 1;
            }
        }
        Ok(
            AssemblyPreview {
                prefix: normalized,
                requested_block_index: block_index,
                first_block: assembled.first_block,
                last_block: assembled.last_block,
                columns: plan.rule.columns,
                rows: plan.rule.rows,
                width: assembled.width,
                height: assembled.height,
                tiles,
                png: assembled.png,
            },
        )
    }
}

impl Default for CuratorSession {
    fn default() -> (session: Self)
        ensures
            session.spec_directory() is None,
            session.spec_archives().len() == 0,
    {
        Self::new()
    }
}

} // verus!
