//! Versioned snapshots of the image assets an installation holds, and their comparison.

use crate::extract::{RawImageRecord, RawResourceKey};
use crate::index::IndexRecord;
use crate::text::{ascii_lower, decimal_string, decimal_text, to_ascii_lowercase};
use vstd::string::StringExecFns;
use vstd::prelude::*;
use vstd::multiset::Multiset;
use vstd::relations::{sorted_by, total_ordering};
use vstd::string::StrSliceExecFns;

verus! {

/// The snapshot format this library reads and writes.
pub const ASSET_SNAPSHOT_FORMAT_VERSION: u32 = 1;

/// Where an asset entry comes from.
#[derive(Debug, Clone, Copy, PartialEq, Eq, Structural)]
pub enum AssetSourceKind {
    Indexed,
    RawBlock,
}

impl Default for AssetSourceKind {
    fn default() -> (kind: Self)
        ensures
            kind == AssetSourceKind::Indexed,
    {
        AssetSourceKind::Indexed
    }
}

/// One image record of an installation.
#[derive(Debug, PartialEq, Eq)]
pub struct AssetSnapshotEntry {
    pub archive: String,
    pub source_kind: AssetSourceKind,
    pub group_code: u32,
    pub icon_id: u32,
    pub block_index: u32,
    pub width: u32,
    pub height: u32,
    pub data_file_number: Option<u32>,
    pub file_block_index: Option<u32>,
}

/// The content of an asset entry.
pub struct EntryView {
    pub archive: Seq<char>,
    pub source_kind: AssetSourceKind,
    pub group_code: u32,
    pub icon_id: u32,
    pub block_index: u32,
    pub width: u32,
    pub height: u32,
    pub data_file_number: Option<u32>,
    pub file_block_index: Option<u32>,
}

impl View for AssetSnapshotEntry {
    type V = EntryView;

    open spec fn view(&self) -> EntryView {
        EntryView {
            archive: self.archive@,
            source_kind: self.source_kind,
            group_code: self.group_code,
            icon_id: self.icon_id,
            block_index: self.block_index,
            width: self.width,
            height: self.height,
            data_file_number: self.data_file_number,
            file_block_index: self.file_block_index,
        }
    }
}

impl Clone for AssetSnapshotEntry {
    fn clone(&self) -> (copy: Self)
        ensures
            copy@ == self@,
    {
        AssetSnapshotEntry {
            archive: self.archive.clone(),
            source_kind: self.source_kind,
            group_code: self.group_code,
            icon_id: self.icon_id,
            block_index: self.block_index,
            width: self.width,
            height: self.height,
            data_file_number: self.data_file_number,
            file_block_index: self.file_block_index,
        }
    }
}

/// The views of a sequence of entries.
pub open spec fn entry_views(entries: Seq<AssetSnapshotEntry>) -> Seq<EntryView> {
    entries.map_values(|e: AssetSnapshotEntry| e@)
}

/// The physical key of a raw block entry that records its file and position.
pub open spec fn entry_raw_key(e: EntryView) -> Option<RawResourceKey> {
    if e.source_kind == AssetSourceKind::RawBlock && e.data_file_number is Some && e.file_block_index is Some {
        Some(
            RawResourceKey {
                block_index: e.block_index,
                file_number: e.data_file_number.unwrap(),
                file_block_index: e.file_block_index.unwrap(),
            },
        )
    } else {
        None
    }
}

impl AssetSnapshotEntry {
    /// An entry read from an index file; the archive name is kept in lower case.
    pub fn new(archive: &str, group_code: u32, icon_id: u32, block_index: u32, width: u32, height: u32) -> (entry:
        Self)
        ensures
            entry@ == (EntryView {
                archive: ascii_lower(archive@),
                source_kind: AssetSourceKind::Indexed,
                group_code,
                icon_id,
                block_index,
                width,
                height,
                data_file_number: None,
                file_block_index: None,
            }),
    {
        AssetSnapshotEntry {
            archive: to_ascii_lowercase(archive),
            source_kind: AssetSourceKind::Indexed,
            group_code,
            icon_id,
            block_index,
            width,
            height,
            data_file_number: None,
            file_block_index: None,
        }
    }

    /// An entry for a physical block of an archive without an index; the archive name is kept
    /// in lower case.
    pub fn new_raw(archive: &str, key: RawResourceKey, width: u32, height: u32) -> (entry: Self)
        ensures
            entry@ == (EntryView {
                archive: ascii_lower(archive@),
                source_kind: AssetSourceKind::RawBlock,
                group_code: 0,
                icon_id: key.block_index,
                block_index: key.block_index,
                width,
                height,
                data_file_number: Some(key.file_number),
                file_block_index: Some(key.file_block_index),
            }),
    {
        AssetSnapshotEntry {
            archive: to_ascii_lowercase(archive),
            source_kind: AssetSourceKind::RawBlock,
            group_code: 0,
            icon_id: key.block_index,
            block_index: key.block_index,
            width,
            height,
            data_file_number: Some(key.file_number),
            file_block_index: Some(key.file_block_index),
        }
    }

    /// The physical key of a raw block entry that records its file and position.
    pub fn raw_resource_key(&self) -> (key: Option<RawResourceKey>)
        ensures
            key == entry_raw_key(self@),
    {
        if self.source_kind != AssetSourceKind::RawBlock {
            return None;
        }
        match (self.data_file_number, self.file_block_index) {
            (Some(file_number), Some(file_block_index)) => Some(
                RawResourceKey { block_index: self.block_index, file_number, file_block_index },
            ),
            _ => None,
        }
    }
}

// ---------------------------------------------------------------------------
// Orders
// ---------------------------------------------------------------------------

/// Lexicographic order of texts by code point, which is the byte order of their UTF-8 form.
pub open spec fn text_less(a: Seq<char>, b: Seq<char>) -> bool
    decreases a.len(),
{
    if a.len() == 0 {
        b.len() > 0
    } else if b.len() == 0 {
        false
    } else if a[0] != b[0] {
        (a[0] as int) < (b[0] as int)
    } else {
        text_less(a.drop_first(), b.drop_first())
    }
}

pub(crate) proof fn lemma_text_less_irreflexive(a: Seq<char>)
    ensures
        !text_less(a, a),
    decreases a.len(),
{
    if a.len() > 0 {
        lemma_text_less_irreflexive(a.drop_first());
    }
}

pub(crate) proof fn lemma_text_less_transitive(a: Seq<char>, b: Seq<char>, c: Seq<char>)
    requires
        text_less(a, b),
        text_less(b, c),
    ensures
        text_less(a, c),
    decreases a.len(),
{
    if a.len() > 0 && b.len() > 0 && c.len() > 0 {
        if a[0] == b[0] && b[0] == c[0] {
            lemma_text_less_transitive(a.drop_first(), b.drop_first(), c.drop_first());
        }
    }
}

pub(crate) proof fn lemma_text_less_total(a: Seq<char>, b: Seq<char>)
    ensures
        a == b || text_less(a, b) || text_less(b, a),
    decreases a.len(),
{
    if a.len() > 0 && b.len() > 0 {
        if a[0] == b[0] {
            lemma_text_less_total(a.drop_first(), b.drop_first());
            if a.drop_first() == b.drop_first() {
                assert(a =~= seq![a[0]] + a.drop_first());
                assert(b =~= seq![b[0]] + b.drop_first());
            }
        }
    } else if a.len() == 0 && b.len() == 0 {
        assert(a =~= b);
    }
}

/// Rank of a source kind in the entry order.
pub open spec fn kind_rank(kind: AssetSourceKind) -> int {
    match kind {
        AssetSourceKind::Indexed => 0,
        AssetSourceKind::RawBlock => 1,
    }
}

/// Rank of an optional number: absent before any present value.
pub open spec fn option_rank(value: Option<u32>) -> int {
    match value {
        None => -1,
        Some(v) => v as int,
    }
}

/// The integer fields of an entry in the order `AssetSnapshot` sorts by, after the archive.
pub open spec fn entry_numbers(e: EntryView) -> Seq<int> {
    seq![
        kind_rank(e.source_kind),
        e.group_code as int,
        e.icon_id as int,
        e.block_index as int,
        e.width as int,
        e.height as int,
        option_rank(e.data_file_number),
        option_rank(e.file_block_index),
    ]
}

/// The integer fields of an entry with its identity first: the source, group, ID, block and
/// file position, then its size.
pub open spec fn identity_numbers(e: EntryView) -> Seq<int> {
    seq![
        kind_rank(e.source_kind),
        e.group_code as int,
        e.icon_id as int,
        e.block_index as int,
        option_rank(e.data_file_number),
        option_rank(e.file_block_index),
        e.width as int,
        e.height as int,
    ]
}

/// Lexicographic order of integer sequences of equal length.
pub open spec fn numbers_less(a: Seq<int>, b: Seq<int>) -> bool
    decreases a.len(),
{
    if a.len() == 0 || b.len() == 0 {
        false
    } else if a[0] != b[0] {
        a[0] < b[0]
    } else {
        numbers_less(a.drop_first(), b.drop_first())
    }
}

proof fn lemma_numbers_less_order(a: Seq<int>, b: Seq<int>, c: Seq<int>)
    requires
        a.len() == b.len() == c.len(),
    ensures
        !numbers_less(a, a),
        numbers_less(a, b) && numbers_less(b, c) ==> numbers_less(a, c),
        a == b || numbers_less(a, b) || numbers_less(b, a),
    decreases a.len(),
{
    if a.len() > 0 {
        lemma_numbers_less_order(a.drop_first(), b.drop_first(), c.drop_first());
        if a[0] == b[0] && a.drop_first() == b.drop_first() {
            assert(a =~= seq![a[0]] + a.drop_first());
            assert(b =~= seq![b[0]] + b.drop_first());
        }
    } else {
        assert(a =~= b);
    }
}

/// The order of entries in a snapshot: by archive name, then by the numbers of
/// `entry_numbers` (`by_identity == false`) or `identity_numbers` (`by_identity == true`).
pub open spec fn entry_less(a: EntryView, b: EntryView, by_identity: bool) -> bool {
    if a.archive != b.archive {
        text_less(a.archive, b.archive)
    } else if by_identity {
        numbers_less(identity_numbers(a), identity_numbers(b))
    } else {
        numbers_less(entry_numbers(a), entry_numbers(b))
    }
}

proof fn lemma_entry_numbers_injective(a: EntryView, b: EntryView)
    requires
        a.archive == b.archive,
        entry_numbers(a) == entry_numbers(b) || identity_numbers(a) == identity_numbers(b),
    ensures
        a == b,
{
    if entry_numbers(a) == entry_numbers(b) {
        assert(entry_numbers(a)[0] == entry_numbers(b)[0]);
        assert(entry_numbers(a)[6] == entry_numbers(b)[6]);
        assert(entry_numbers(a)[7] == entry_numbers(b)[7]);
    } else {
        assert(identity_numbers(a)[0] == identity_numbers(b)[0]);
        assert(identity_numbers(a)[4] == identity_numbers(b)[4]);
        assert(identity_numbers(a)[5] == identity_numbers(b)[5]);
    }
    assert(a.group_code == b.group_code);
}

/// The entry orders are strict total orders.
proof fn lemma_entry_less_order(a: EntryView, b: EntryView, c: EntryView, by_identity: bool)
    ensures
        !entry_less(a, a, by_identity),
        entry_less(a, b, by_identity) && entry_less(b, c, by_identity) ==> entry_less(a, c, by_identity),
        a == b || entry_less(a, b, by_identity) || entry_less(b, a, by_identity),
{
    lemma_text_less_irreflexive(a.archive);
    lemma_text_less_total(a.archive, b.archive);
    if text_less(a.archive, b.archive) && text_less(b.archive, c.archive) {
        lemma_text_less_transitive(a.archive, b.archive, c.archive);
    }
    if text_less(a.archive, b.archive) && text_less(b.archive, a.archive) {
        lemma_text_less_transitive(a.archive, b.archive, a.archive);
    }
    if text_less(b.archive, c.archive) && text_less(c.archive, b.archive) {
        lemma_text_less_transitive(b.archive, c.archive, b.archive);
    }
    lemma_numbers_less_order(entry_numbers(a), entry_numbers(b), entry_numbers(c));
    lemma_numbers_less_order(identity_numbers(a), identity_numbers(b), identity_numbers(c));
    if a.archive == b.archive && (entry_numbers(a) == entry_numbers(b) || identity_numbers(a)
        == identity_numbers(b)) {
        if by_identity {
            if identity_numbers(a) == identity_numbers(b) {
                lemma_entry_numbers_injective(a, b);
            }
        } else {
            if entry_numbers(a) == entry_numbers(b) {
                lemma_entry_numbers_injective(a, b);
            }
        }
    }
}

pub(crate) fn text_less_exec(a: &str, b: &str) -> (less: bool)
    ensures
        less == text_less(a@, b@),
{
    let a_len = a.unicode_len();
    let b_len = b.unicode_len();
    let mut index: usize = 0;
    assert(a@.subrange(0, a_len as int) =~= a@);
    assert(b@.subrange(0, b_len as int) =~= b@);
    while index < a_len && index < b_len
        invariant
            a_len == a@.len(),
            b_len == b@.len(),
            index <= a_len,
            index <= b_len,
            text_less(a@, b@) == text_less(
                a@.subrange(index as int, a_len as int),
                b@.subrange(index as int, b_len as int),
            ),
        decreases a_len - index,
    {
        let x = a.get_char(index);
        let y = b.get_char(index);
        let ghost rest_a = a@.subrange(index as int, a_len as int);
        let ghost rest_b = b@.subrange(index as int, b_len as int);
        assert(rest_a[0] == x && rest_b[0] == y);
        if x != y {
            return (x as u32) < (y as u32);
        }
        assert(rest_a.drop_first() =~= a@.subrange(index + 1, a_len as int));
        assert(rest_b.drop_first() =~= b@.subrange(index + 1, b_len as int));
        index += 1;
    }
    index == a_len && index < b_len
}

fn option_rank_exec(value: Option<u32>) -> (rank: i64)
    ensures
        rank == option_rank(value),
{
    match value {
        None => -1,
        Some(v) => v as i64,
    }
}

fn kind_rank_exec(kind: AssetSourceKind) -> (rank: i64)
    ensures
        rank == kind_rank(kind),
{
    match kind {
        AssetSourceKind::Indexed => 0,
        AssetSourceKind::RawBlock => 1,
    }
}

fn numbers_of(e: &AssetSnapshotEntry, by_identity: bool) -> (numbers: Vec<i64>)
    ensures
        numbers@.len() == 8,
        forall|i: int|
            0 <= i < 8 ==> numbers@[i] as int == (if by_identity {
                identity_numbers(e@)
            } else {
                entry_numbers(e@)
            })[i],
{
    let dfn = option_rank_exec(e.data_file_number);
    let fbi = option_rank_exec(e.file_block_index);
    if by_identity {
        vec![
            kind_rank_exec(e.source_kind),
            e.group_code as i64,
            e.icon_id as i64,
            e.block_index as i64,
            dfn,
            fbi,
            e.width as i64,
            e.height as i64,
        ]
    } else {
        vec![
            kind_rank_exec(e.source_kind),
            e.group_code as i64,
            e.icon_id as i64,
            e.block_index as i64,
            e.width as i64,
            e.height as i64,
            dfn,
            fbi,
        ]
    }
}

/// Whether `a` comes before `b` in the entry order chosen by `by_identity`.
#[verifier::loop_isolation(false)]
fn entry_less_exec(a: &AssetSnapshotEntry, b: &AssetSnapshotEntry, by_identity: bool) -> (less: bool)
    ensures
        less == entry_less(a@, b@, by_identity),
{
    if a.archive != b.archive {
        return text_less_exec(a.archive.as_str(), b.archive.as_str());
    }
    let x = numbers_of(a, by_identity);
    let y = numbers_of(b, by_identity);
    let ghost xs = if by_identity { identity_numbers(a@) } else { entry_numbers(a@) };
    let ghost ys = if by_identity { identity_numbers(b@) } else { entry_numbers(b@) };
    let mut index: usize = 0;
    assert(xs.subrange(0, 8) =~= xs);
    assert(ys.subrange(0, 8) =~= ys);
    while index < 8
        invariant
            index <= 8,
            x@.len() == 8,
            y@.len() == 8,
            xs.len() == 8,
            ys.len() == 8,
            forall|i: int| 0 <= i < 8 ==> x@[i] as int == xs[i],
            forall|i: int| 0 <= i < 8 ==> y@[i] as int == ys[i],
            numbers_less(xs, ys) == numbers_less(xs.subrange(index as int, 8), ys.subrange(index as int, 8)),
        decreases 8 - index,
    {
        let ghost rest_x = xs.subrange(index as int, 8);
        let ghost rest_y = ys.subrange(index as int, 8);
        assert(rest_x[0] == xs[index as int] && rest_y[0] == ys[index as int]);
        if x[index] != y[index] {
            return x[index] < y[index];
        }
        assert(rest_x.drop_first() =~= xs.subrange(index + 1, 8));
        assert(rest_y.drop_first() =~= ys.subrange(index + 1, 8));
        index += 1;
    }
    false
}


/// The non-strict form of `entry_less`, as a relation that `Seq::sort_by` accepts.
pub open spec fn entry_leq(by_identity: bool) -> spec_fn(EntryView, EntryView) -> bool {
    |a: EntryView, b: EntryView| !entry_less(b, a, by_identity)
}

/// Both entry orders are total orders in the sense of vstd's `total_ordering`.
pub proof fn lemma_entry_leq_total(by_identity: bool)
    ensures
        total_ordering(entry_leq(by_identity)),
{
    let leq = entry_leq(by_identity);
    assert forall|a: EntryView| #[trigger] leq(a, a) by {
        lemma_entry_less_order(a, a, a, by_identity);
    }
    assert forall|a: EntryView, b: EntryView| #[trigger] leq(a, b) && #[trigger] leq(b, a) implies a
        == b by {
        lemma_entry_less_order(a, b, a, by_identity);
    }
    assert forall|a: EntryView, b: EntryView, c: EntryView| #[trigger] leq(a, b) && #[trigger] leq(
        b,
        c,
    ) implies leq(a, c) by {
        lemma_entry_less_order(a, b, c, by_identity);
        lemma_entry_less_order(c, a, b, by_identity);
        lemma_entry_less_order(b, c, a, by_identity);
    }
    assert forall|a: EntryView, b: EntryView| #[trigger] leq(a, b) || #[trigger] leq(b, a) by {
        lemma_entry_less_order(a, b, a, by_identity);
    }
}

/// Sorts entries into the order chosen by `by_identity`.
#[verifier::loop_isolation(false)]
fn sort_entries(entries: Vec<AssetSnapshotEntry>, by_identity: bool) -> (sorted: Vec<
    AssetSnapshotEntry,
>)
    ensures
        entry_views(sorted@) == entry_views(entries@).sort_by(entry_leq(by_identity)),
{
    let ghost leq = entry_leq(by_identity);
    proof {
        lemma_entry_leq_total(by_identity);
    }
    let mut remaining = entries;
    let mut sorted: Vec<AssetSnapshotEntry> = Vec::new();
    proof {
        broadcast use vstd::multiset::group_multiset_axioms;
        broadcast use vstd::seq_lib::group_to_multiset_ensures;
        assert(entry_views(sorted@) =~= Seq::<EntryView>::empty());
        vstd::multiset::lemma_multiset_empty_len(entry_views(sorted@).to_multiset());
        assert(entry_views(sorted@).to_multiset().add(entry_views(remaining@).to_multiset())
            =~= entry_views(remaining@).to_multiset());
    }
    while remaining.len() > 0
        invariant
            total_ordering(leq),
            leq == entry_leq(by_identity),
            sorted_by(entry_views(sorted@), leq),
            entry_views(sorted@).to_multiset().add(entry_views(remaining@).to_multiset())
                == entry_views(entries@).to_multiset(),
        decreases remaining.len(),
    {
        let ghost before = remaining@;
        let x = remaining.pop().unwrap();
        proof {
            assert(entry_views(before) =~= entry_views(remaining@).push(x@));
            broadcast use vstd::seq_lib::group_to_multiset_ensures;
        }
        let mut k: usize = 0;
        while k < sorted.len()
            invariant
                k <= sorted.len(),
                forall|i: int| 0 <= i < k ==> entry_less(#[trigger] sorted@[i]@, x@, by_identity),
            decreases sorted.len() - k,
        {
            if !entry_less_exec(&sorted[k], &x, by_identity) {
                break;
            }
            k += 1;
        }
        assert(k == sorted.len() || !entry_less(sorted@[k as int]@, x@, by_identity));
        let ghost old_views = entry_views(sorted@);
        assert(k < old_views.len() ==> leq(x@, old_views[k as int]));
        sorted.insert(k, x);
        proof {
            let nv = entry_views(sorted@);
            assert(nv =~= old_views.insert(k as int, x@));
            assert forall|i: int| 0 <= i < k implies #[trigger] leq(old_views[i], x@) by {
                lemma_entry_less_order(x@, old_views[i], x@, by_identity);
            }
            assert forall|j: int| k <= j < old_views.len() implies #[trigger] leq(x@, old_views[j]) by {
                assert(leq(x@, old_views[k as int]));
                if j > k {
                    assert(leq(old_views[k as int], old_views[j]));
                }
            }
            assert forall|i: int, j: int| 0 <= i < j < nv.len() implies #[trigger] leq(
                nv[i],
                nv[j],
            ) by {
                if j < k {
                    assert(leq(old_views[i], old_views[j]));
                } else if j == k {
                    assert(leq(old_views[i], x@));
                } else if i == k {
                    assert(leq(x@, old_views[j - 1]));
                } else if i < k {
                    assert(leq(old_views[i], old_views[j - 1]));
                } else {
                    assert(leq(old_views[i - 1], old_views[j - 1]));
                }
            }
            vstd::seq_lib::to_multiset_insert(old_views, k as int, x@);
            assert(nv.to_multiset() =~= old_views.to_multiset().insert(x@));
            vstd::seq_lib::to_multiset_build(entry_views(remaining@), x@);
            assert(entry_views(before).to_multiset() =~= entry_views(remaining@).to_multiset().insert(
                x@,
            ));
            assert(nv.to_multiset().add(entry_views(remaining@).to_multiset()) =~= old_views.to_multiset().add(
                entry_views(before).to_multiset(),
            ));
        }
    }
    proof {
        broadcast use vstd::multiset::group_multiset_axioms;
        broadcast use vstd::seq_lib::group_to_multiset_ensures;
        vstd::multiset::lemma_multiset_empty_len(entry_views(remaining@).to_multiset());
        assert(entry_views(remaining@).to_multiset() =~= Multiset::<EntryView>::empty());
        assert(entry_views(sorted@).to_multiset() =~= entry_views(entries@).to_multiset());
        entry_views(entries@).lemma_sort_by_ensures(leq);
        vstd::seq_lib::lemma_sorted_unique(
            entry_views(sorted@),
            entry_views(entries@).sort_by(leq),
            leq,
        );
    }
    sorted
}


// ---------------------------------------------------------------------------
// Snapshots
// ---------------------------------------------------------------------------

/// The image records of an installation, in entry order, with the format they were written in.
#[derive(Debug, Clone, PartialEq, Eq)]
pub struct AssetSnapshot {
    pub format_version: u32,
    pub assets: Vec<AssetSnapshotEntry>,
}

/// An entry whose identity stayed while its size changed.
#[derive(Debug, Clone, PartialEq, Eq)]
pub struct AssetSnapshotChange {
    pub previous: AssetSnapshotEntry,
    pub current: AssetSnapshotEntry,
}

/// What changed between two snapshots.
#[derive(Debug, Clone, PartialEq, Eq)]
pub struct AssetSnapshotDiff {
    pub added: Vec<AssetSnapshotEntry>,
    pub removed: Vec<AssetSnapshotEntry>,
    pub changed: Vec<AssetSnapshotChange>,
    pub unchanged_count: usize,
}

/// Two snapshots could not be compared because one of them has a format this library does not
/// read.
#[derive(Debug, Clone, Copy, PartialEq, Eq, Structural)]
pub struct AssetSnapshotCompareError {
    pub supported: u32,
    pub previous: u32,
    pub current: u32,
}

impl AssetSnapshotCompareError {
    /// The text of the message shown to the user.
    pub open spec fn spec_message(self) -> Seq<char> {
        "지원하지 않는 자산 스냅샷 형식입니다: 지원="@ + decimal_text(self.supported as nat) + ", 이전="@
            + decimal_text(self.previous as nat) + ", 현재="@ + decimal_text(self.current as nat)
    }

    /// The message shown to the user.
    pub fn message(&self) -> (text: String)
        ensures
            text@ == self.spec_message(),
    {
        let mut text = String::from_str("지원하지 않는 자산 스냅샷 형식입니다: 지원=");
        text.append(decimal_string(self.supported).as_str());
        text.append(", 이전=");
        text.append(decimal_string(self.previous).as_str());
        text.append(", 현재=");
        text.append(decimal_string(self.current).as_str());
        text
    }
}

/// The content of a snapshot difference.
pub struct DiffView {
    pub added: Seq<EntryView>,
    pub removed: Seq<EntryView>,
    pub changed: Seq<(EntryView, EntryView)>,
    pub unchanged_count: nat,
}

/// The views of a sequence of changes.
pub open spec fn change_views(changes: Seq<AssetSnapshotChange>) -> Seq<(EntryView, EntryView)> {
    changes.map_values(|c: AssetSnapshotChange| (c.previous@, c.current@))
}

impl View for AssetSnapshotDiff {
    type V = DiffView;

    open spec fn view(&self) -> DiffView {
        DiffView {
            added: entry_views(self.added@),
            removed: entry_views(self.removed@),
            changed: change_views(self.changed@),
            unchanged_count: self.unchanged_count as nat,
        }
    }
}

/// Whether two entries name the same record: everything but the size agrees.
pub open spec fn same_identity(a: EntryView, b: EntryView) -> bool {
    &&& a.archive == b.archive
    &&& a.source_kind == b.source_kind
    &&& a.group_code == b.group_code
    &&& a.icon_id == b.icon_id
    &&& a.block_index == b.block_index
    &&& a.data_file_number == b.data_file_number
    &&& a.file_block_index == b.file_block_index
}

/// The multiset difference of two sequences sorted in identity order: how many entries the two
/// have in common, what only the first holds and what only the second holds, each in order.
pub open spec fn sorted_difference(p: Seq<EntryView>, c: Seq<EntryView>) -> (nat, Seq<EntryView>, Seq<
    EntryView,
>)
    decreases p.len() + c.len(),
{
    if p.len() == 0 {
        (0, Seq::empty(), c)
    } else if c.len() == 0 {
        (0, p, Seq::empty())
    } else if p[0] == c[0] {
        let r = sorted_difference(p.drop_first(), c.drop_first());
        ((r.0 + 1) as nat, r.1, r.2)
    } else if entry_less(p[0], c[0], true) {
        let r = sorted_difference(p.drop_first(), c);
        (r.0, seq![p[0]] + r.1, r.2)
    } else {
        let r = sorted_difference(p, c.drop_first());
        (r.0, r.1, seq![c[0]] + r.2)
    }
}

/// Pairs what only the first snapshot holds with what only the second holds, identity by
/// identity: within one identity the first entries of each side become changes, in order,
/// and the rest stay removed or added.
pub open spec fn pair_leftovers(r: Seq<EntryView>, a: Seq<EntryView>) -> (Seq<EntryView>, Seq<
    EntryView,
>, Seq<(EntryView, EntryView)>)
    decreases r.len() + a.len(),
{
    if r.len() == 0 {
        (Seq::empty(), a, Seq::empty())
    } else if a.len() == 0 {
        (r, Seq::empty(), Seq::empty())
    } else if same_identity(r[0], a[0]) {
        let t = pair_leftovers(r.drop_first(), a.drop_first());
        (t.0, t.1, seq![(r[0], a[0])] + t.2)
    } else if entry_less(r[0], a[0], true) {
        let t = pair_leftovers(r.drop_first(), a);
        (seq![r[0]] + t.0, t.1, t.2)
    } else {
        let t = pair_leftovers(r, a.drop_first());
        (t.0, seq![a[0]] + t.1, t.2)
    }
}

/// The difference between two snapshots' entries: both are put in identity order, the entries
/// they share are counted, and the rest is paired by identity.
pub open spec fn snapshot_diff(previous: Seq<EntryView>, current: Seq<EntryView>) -> DiffView {
    let d = sorted_difference(
        previous.sort_by(entry_leq(true)),
        current.sort_by(entry_leq(true)),
    );
    let t = pair_leftovers(d.1, d.2);
    DiffView { added: t.1, removed: t.0, changed: t.2, unchanged_count: d.0 }
}

impl AssetSnapshot {
    /// A snapshot of the current format holding `assets` in entry order.
    pub fn new(assets: Vec<AssetSnapshotEntry>) -> (snapshot: Self)
        ensures
            snapshot.format_version == ASSET_SNAPSHOT_FORMAT_VERSION,
            entry_views(snapshot.assets@) == entry_views(assets@).sort_by(entry_leq(false)),
    {
        AssetSnapshot { format_version: ASSET_SNAPSHOT_FORMAT_VERSION, assets: sort_entries(assets, false) }
    }

    /// Compares this snapshot, taken earlier, with `current`; both must have the current format.
    pub fn compare_to(&self, current: &Self) -> (diff: Result<AssetSnapshotDiff, AssetSnapshotCompareError>)
        ensures
            match diff {
                Ok(d) => {
                    &&& self.format_version == ASSET_SNAPSHOT_FORMAT_VERSION
                    &&& current.format_version == ASSET_SNAPSHOT_FORMAT_VERSION
                    &&& d@ == snapshot_diff(entry_views(self.assets@), entry_views(current.assets@))
                },
                Err(e) => {
                    &&& (self.format_version != ASSET_SNAPSHOT_FORMAT_VERSION
                        || current.format_version != ASSET_SNAPSHOT_FORMAT_VERSION)
                    &&& e == (AssetSnapshotCompareError {
                        supported: ASSET_SNAPSHOT_FORMAT_VERSION,
                        previous: self.format_version,
                        current: current.format_version,
                    })
                },
            },
    {
        if self.format_version != ASSET_SNAPSHOT_FORMAT_VERSION || current.format_version
            != ASSET_SNAPSHOT_FORMAT_VERSION {
            return Err(
                AssetSnapshotCompareError {
                    supported: ASSET_SNAPSHOT_FORMAT_VERSION,
                    previous: self.format_version,
                    current: current.format_version,
                },
            );
        }
        Ok(compare_asset_snapshots(&self.assets, &current.assets))
    }
}

fn clone_entries(entries: &Vec<AssetSnapshotEntry>) -> (copy: Vec<AssetSnapshotEntry>)
    ensures
        entry_views(copy@) == entry_views(entries@),
{
    let mut copy: Vec<AssetSnapshotEntry> = Vec::new();
    let mut i: usize = 0;
    while i < entries.len()
        invariant
            i <= entries.len(),
            entry_views(copy@) == entry_views(entries@).take(i as int),
        decreases entries.len() - i,
    {
        let ghost before = copy@;
        let item = entries[i].clone();
        copy.push(item);
        assert(copy@ =~= before.push(item));
        assert(entry_views(copy@) =~= entry_views(before).push(entries@[i as int]@));
        assert(entry_views(entries@).take(i + 1) =~= entry_views(entries@).take(i as int).push(
            entries@[i as int]@,
        ));
        i += 1;
    }
    assert(entry_views(entries@).take(i as int) =~= entry_views(entries@));
    copy
}

fn entries_equal(a: &AssetSnapshotEntry, b: &AssetSnapshotEntry) -> (equal: bool)
    ensures
        equal == (a@ == b@),
{
    a.archive == b.archive && a.source_kind == b.source_kind && a.group_code == b.group_code
        && a.icon_id == b.icon_id && a.block_index == b.block_index && a.width == b.width
        && a.height == b.height && a.data_file_number == b.data_file_number && a.file_block_index
        == b.file_block_index
}

fn same_identity_exec(a: &AssetSnapshotEntry, b: &AssetSnapshotEntry) -> (same: bool)
    ensures
        same == same_identity(a@, b@),
{
    a.archive == b.archive && a.source_kind == b.source_kind && a.group_code == b.group_code
        && a.icon_id == b.icon_id && a.block_index == b.block_index && a.data_file_number
        == b.data_file_number && a.file_block_index == b.file_block_index
}


/// Counts what two identity-ordered sequences share and collects what each holds alone.
#[verifier::loop_isolation(false)]
fn difference_of_sorted(p: &Vec<AssetSnapshotEntry>, c: &Vec<AssetSnapshotEntry>) -> (result: (
    usize,
    Vec<AssetSnapshotEntry>,
    Vec<AssetSnapshotEntry>,
))
    ensures
        ({
            let d = sorted_difference(entry_views(p@), entry_views(c@));
            &&& result.0 == d.0
            &&& entry_views(result.1@) == d.1
            &&& entry_views(result.2@) == d.2
        }),
{
    let ghost pv = entry_views(p@);
    let ghost cv = entry_views(c@);
    let mut unchanged: usize = 0;
    let mut removed: Vec<AssetSnapshotEntry> = Vec::new();
    let mut added: Vec<AssetSnapshotEntry> = Vec::new();
    let mut i: usize = 0;
    let mut j: usize = 0;
    assert(pv.skip(0) =~= pv);
    assert(cv.skip(0) =~= cv);
    assert(entry_views(removed@) + pv =~= pv);
    while i < p.len() || j < c.len()
        invariant
            i <= p.len(),
            j <= c.len(),
            unchanged <= i,
            ({
                let rest = sorted_difference(pv.skip(i as int), cv.skip(j as int));
                let whole = sorted_difference(pv, cv);
                &&& whole.0 == unchanged + rest.0
                &&& whole.1 == entry_views(removed@) + rest.1
                &&& whole.2 == entry_views(added@) + rest.2
            }),
        decreases p.len() - i + c.len() - j,
    {
        let ghost ps = pv.skip(i as int);
        let ghost cs = cv.skip(j as int);
        let ghost old_removed = entry_views(removed@);
        let ghost old_added = entry_views(added@);
        if i < p.len() {
            assert(ps[0] == p@[i as int]@ && ps.drop_first() =~= pv.skip(i + 1));
        }
        if j < c.len() {
            assert(cs[0] == c@[j as int]@ && cs.drop_first() =~= cv.skip(j + 1));
        }
        if i == p.len() {
            added.push(c[j].clone());
            j += 1;
            assert(entry_views(added@) =~= old_added.push(cs[0]));
            assert(old_added + cs =~= entry_views(added@) + cs.drop_first());
        } else if j == c.len() {
            removed.push(p[i].clone());
            i += 1;
            assert(entry_views(removed@) =~= old_removed.push(ps[0]));
            assert(old_removed + ps =~= entry_views(removed@) + ps.drop_first());
        } else if entries_equal(&p[i], &c[j]) {
            unchanged += 1;
            i += 1;
            j += 1;
        } else if entry_less_exec(&p[i], &c[j], true) {
            let ghost rest = sorted_difference(ps.drop_first(), cs);
            removed.push(p[i].clone());
            i += 1;
            assert(entry_views(removed@) =~= old_removed.push(ps[0]));
            assert(old_removed + (seq![ps[0]] + rest.1) =~= entry_views(removed@) + rest.1);
        } else {
            let ghost rest = sorted_difference(ps, cs.drop_first());
            added.push(c[j].clone());
            j += 1;
            assert(entry_views(added@) =~= old_added.push(cs[0]));
            assert(old_added + (seq![cs[0]] + rest.2) =~= entry_views(added@) + rest.2);
        }
    }
    assert(entry_views(removed@) + Seq::<EntryView>::empty() =~= entry_views(removed@));
    assert(entry_views(added@) + pv.skip(i as int) =~= entry_views(added@));
    (unchanged, removed, added)
}

/// Pairs identity-ordered leftovers into removed entries, added entries and changes.
#[verifier::loop_isolation(false)]
fn pair_sorted_leftovers(r: &Vec<AssetSnapshotEntry>, a: &Vec<AssetSnapshotEntry>) -> (result: (
    Vec<AssetSnapshotEntry>,
    Vec<AssetSnapshotEntry>,
    Vec<AssetSnapshotChange>,
))
    ensures
        ({
            let t = pair_leftovers(entry_views(r@), entry_views(a@));
            &&& entry_views(result.0@) == t.0
            &&& entry_views(result.1@) == t.1
            &&& change_views(result.2@) == t.2
        }),
{
    let ghost rv = entry_views(r@);
    let ghost av = entry_views(a@);
    let mut removed: Vec<AssetSnapshotEntry> = Vec::new();
    let mut added: Vec<AssetSnapshotEntry> = Vec::new();
    let mut changed: Vec<AssetSnapshotChange> = Vec::new();
    let mut i: usize = 0;
    let mut j: usize = 0;
    assert(rv.skip(0) =~= rv);
    assert(av.skip(0) =~= av);
    assert(entry_views(removed@) + rv =~= rv);
    assert(change_views(changed@) =~= Seq::<(EntryView, EntryView)>::empty());
    while i < r.len() || j < a.len()
        invariant
            i <= r.len(),
            j <= a.len(),
            ({
                let rest = pair_leftovers(rv.skip(i as int), av.skip(j as int));
                let whole = pair_leftovers(rv, av);
                &&& whole.0 == entry_views(removed@) + rest.0
                &&& whole.1 == entry_views(added@) + rest.1
                &&& whole.2 == change_views(changed@) + rest.2
            }),
        decreases r.len() - i + a.len() - j,
    {
        let ghost rs = rv.skip(i as int);
        let ghost as_ = av.skip(j as int);
        let ghost old_removed = entry_views(removed@);
        let ghost old_added = entry_views(added@);
        let ghost old_changed = change_views(changed@);
        if i < r.len() {
            assert(rs[0] == r@[i as int]@ && rs.drop_first() =~= rv.skip(i + 1));
        }
        if j < a.len() {
            assert(as_[0] == a@[j as int]@ && as_.drop_first() =~= av.skip(j + 1));
        }
        if i == r.len() {
            added.push(a[j].clone());
            j += 1;
            assert(entry_views(added@) =~= old_added.push(as_[0]));
            assert(old_added + as_ =~= entry_views(added@) + as_.drop_first());
        } else if j == a.len() {
            removed.push(r[i].clone());
            i += 1;
            assert(entry_views(removed@) =~= old_removed.push(rs[0]));
            assert(old_removed + rs =~= entry_views(removed@) + rs.drop_first());
        } else if same_identity_exec(&r[i], &a[j]) {
            let ghost rest = pair_leftovers(rs.drop_first(), as_.drop_first());
            changed.push(AssetSnapshotChange { previous: r[i].clone(), current: a[j].clone() });
            i += 1;
            j += 1;
            assert(change_views(changed@) =~= old_changed.push((rs[0], as_[0])));
            assert(old_changed + (seq![(rs[0], as_[0])] + rest.2) =~= change_views(changed@)
                + rest.2);
        } else if entry_less_exec(&r[i], &a[j], true) {
            let ghost rest = pair_leftovers(rs.drop_first(), as_);
            removed.push(r[i].clone());
            i += 1;
            assert(entry_views(removed@) =~= old_removed.push(rs[0]));
            assert(old_removed + (seq![rs[0]] + rest.0) =~= entry_views(removed@) + rest.0);
        } else {
            let ghost rest = pair_leftovers(rs, as_.drop_first());
            added.push(a[j].clone());
            j += 1;
            assert(entry_views(added@) =~= old_added.push(as_[0]));
            assert(old_added + (seq![as_[0]] + rest.1) =~= entry_views(added@) + rest.1);
        }
    }
    assert(entry_views(removed@) + Seq::<EntryView>::empty() =~= entry_views(removed@));
    assert(entry_views(added@) + Seq::<EntryView>::empty() =~= entry_views(added@));
    assert(change_views(changed@) + Seq::<(EntryView, EntryView)>::empty() =~= change_views(changed@));
    (removed, added, changed)
}

fn compare_asset_snapshots(previous: &Vec<AssetSnapshotEntry>, current: &Vec<AssetSnapshotEntry>) -> (diff:
    AssetSnapshotDiff)
    ensures
        diff@ == snapshot_diff(entry_views(previous@), entry_views(current@)),
{
    let p = sort_entries(clone_entries(previous), true);
    let c = sort_entries(clone_entries(current), true);
    let (unchanged_count, leftover_removed, leftover_added) = difference_of_sorted(&p, &c);
    let (removed, added, changed) = pair_sorted_leftovers(&leftover_removed, &leftover_added);
    AssetSnapshotDiff { added, removed, changed, unchanged_count }
}


/// The entries that an index file's records give, in record order.
pub fn indexed_asset_entries(archive: &str, records: &[IndexRecord]) -> (entries: Vec<AssetSnapshotEntry>)
    ensures
        entries.len() == records.len(),
        forall|i: int|
            0 <= i < records.len() ==> #[trigger] entries@[i]@ == (EntryView {
                archive: ascii_lower(archive@),
                source_kind: AssetSourceKind::Indexed,
                group_code: records@[i].group_code,
                icon_id: records@[i].icon_id,
                block_index: records@[i].block_index,
                width: records@[i].width,
                height: records@[i].height,
                data_file_number: None,
                file_block_index: None,
            }),
{
    let mut entries: Vec<AssetSnapshotEntry> = Vec::new();
    let mut i: usize = 0;
    while i < records.len()
        invariant
            i <= records.len(),
            entries.len() == i,
            forall|k: int|
                0 <= k < i ==> #[trigger] entries@[k]@ == (EntryView {
                    archive: ascii_lower(archive@),
                    source_kind: AssetSourceKind::Indexed,
                    group_code: records@[k].group_code,
                    icon_id: records@[k].icon_id,
                    block_index: records@[k].block_index,
                    width: records@[k].width,
                    height: records@[k].height,
                    data_file_number: None,
                    file_block_index: None,
                }),
        decreases records.len() - i,
    {
        let record = records[i];
        entries.push(
            AssetSnapshotEntry::new(
                archive,
                record.group_code,
                record.icon_id,
                record.block_index,
                record.width,
                record.height,
            ),
        );
        i += 1;
    }
    entries
}

/// The entries that the blocks of an archive without an index give, in record order.
pub fn raw_asset_entries(archive: &str, records: &[RawImageRecord]) -> (entries: Vec<AssetSnapshotEntry>)
    ensures
        entries.len() == records.len(),
        forall|i: int|
            0 <= i < records.len() ==> #[trigger] entries@[i]@ == (EntryView {
                archive: ascii_lower(archive@),
                source_kind: AssetSourceKind::RawBlock,
                group_code: 0,
                icon_id: records@[i].key.block_index,
                block_index: records@[i].key.block_index,
                width: records@[i].width,
                height: records@[i].height,
                data_file_number: Some(records@[i].key.file_number),
                file_block_index: Some(records@[i].key.file_block_index),
            }),
{
    let mut entries: Vec<AssetSnapshotEntry> = Vec::new();
    let mut i: usize = 0;
    while i < records.len()
        invariant
            i <= records.len(),
            entries.len() == i,
            forall|k: int|
                0 <= k < i ==> #[trigger] entries@[k]@ == (EntryView {
                    archive: ascii_lower(archive@),
                    source_kind: AssetSourceKind::RawBlock,
                    group_code: 0,
                    icon_id: records@[k].key.block_index,
                    block_index: records@[k].key.block_index,
                    width: records@[k].width,
                    height: records@[k].height,
                    data_file_number: Some(records@[k].key.file_number),
                    file_block_index: Some(records@[k].key.file_block_index),
                }),
        decreases records.len() - i,
    {
        let record = records[i];
        entries.push(AssetSnapshotEntry::new_raw(archive, record.key, record.width, record.height));
        i += 1;
    }
    entries
}

// ---------------------------------------------------------------------------
// Laws
// ---------------------------------------------------------------------------

/// A new snapshot holds exactly the entries it was given, in entry order.
pub proof fn lemma_snapshot_entries_sorted(entries: Seq<EntryView>)
    ensures
        sorted_by(entries.sort_by(entry_leq(false)), entry_leq(false)),
        entries.sort_by(entry_leq(false)).to_multiset() == entries.to_multiset(),
{
    lemma_entry_leq_total(false);
    entries.lemma_sort_by_ensures(entry_leq(false));
}

/// The order in which entries are handed to `AssetSnapshot::new` does not matter: the same
/// entries, duplicates included, give the same snapshot.
pub proof fn lemma_snapshot_ignores_input_order(a: Seq<EntryView>, b: Seq<EntryView>)
    requires
        a.to_multiset() == b.to_multiset(),
    ensures
        a.sort_by(entry_leq(false)) == b.sort_by(entry_leq(false)),
{
    let leq = entry_leq(false);
    lemma_entry_leq_total(false);
    a.lemma_sort_by_ensures(leq);
    b.lemma_sort_by_ensures(leq);
    vstd::seq_lib::lemma_sorted_unique(a.sort_by(leq), b.sort_by(leq), leq);
}

proof fn lemma_sorted_difference_counts(p: Seq<EntryView>, c: Seq<EntryView>)
    ensures
        sorted_difference(p, c).0 + sorted_difference(p, c).1.len() == p.len(),
        sorted_difference(p, c).0 + sorted_difference(p, c).2.len() == c.len(),
    decreases p.len() + c.len(),
{
    if p.len() > 0 && c.len() > 0 {
        if p[0] == c[0] {
            lemma_sorted_difference_counts(p.drop_first(), c.drop_first());
        } else if entry_less(p[0], c[0], true) {
            lemma_sorted_difference_counts(p.drop_first(), c);
        } else {
            lemma_sorted_difference_counts(p, c.drop_first());
        }
    }
}

proof fn lemma_pair_leftovers_counts(r: Seq<EntryView>, a: Seq<EntryView>)
    ensures
        pair_leftovers(r, a).0.len() + pair_leftovers(r, a).2.len() == r.len(),
        pair_leftovers(r, a).1.len() + pair_leftovers(r, a).2.len() == a.len(),
    decreases r.len() + a.len(),
{
    if r.len() > 0 && a.len() > 0 {
        if same_identity(r[0], a[0]) {
            lemma_pair_leftovers_counts(r.drop_first(), a.drop_first());
        } else if entry_less(r[0], a[0], true) {
            lemma_pair_leftovers_counts(r.drop_first(), a);
        } else {
            lemma_pair_leftovers_counts(r, a.drop_first());
        }
    }
}

/// Every entry of either snapshot is accounted for exactly once: the earlier snapshot's entries
/// are the unchanged ones, the old sides of the changes and the removed ones; the later
/// snapshot's are the unchanged ones, the new sides of the changes and the added ones.
pub proof fn lemma_snapshot_diff_accounts_for_every_entry(previous: Seq<EntryView>, current: Seq<EntryView>)
    ensures
        snapshot_diff(previous, current).unchanged_count + snapshot_diff(previous, current).changed.len()
            + snapshot_diff(previous, current).removed.len() == previous.len(),
        snapshot_diff(previous, current).unchanged_count + snapshot_diff(previous, current).changed.len()
            + snapshot_diff(previous, current).added.len() == current.len(),
{
    broadcast use vstd::seq_lib::group_to_multiset_ensures;
    let leq = entry_leq(true);
    lemma_entry_leq_total(true);
    previous.lemma_sort_by_ensures(leq);
    current.lemma_sort_by_ensures(leq);
    let p = previous.sort_by(leq);
    let c = current.sort_by(leq);
    assert(p.len() == previous.len()) by {
        assert(p.to_multiset().len() == previous.to_multiset().len());
    }
    assert(c.len() == current.len()) by {
        assert(c.to_multiset().len() == current.to_multiset().len());
    }
    lemma_sorted_difference_counts(p, c);
    let d = sorted_difference(p, c);
    lemma_pair_leftovers_counts(d.1, d.2);
}

proof fn lemma_sorted_difference_with_itself(p: Seq<EntryView>)
    ensures
        sorted_difference(p, p) == (p.len(), Seq::<EntryView>::empty(), Seq::<EntryView>::empty()),
    decreases p.len(),
{
    if p.len() > 0 {
        lemma_sorted_difference_with_itself(p.drop_first());
    }
}

/// A snapshot compared with itself shows every entry unchanged and nothing added, removed or
/// changed.
pub proof fn lemma_snapshot_diff_with_itself(entries: Seq<EntryView>)
    ensures
        snapshot_diff(entries, entries).unchanged_count == entries.len(),
        snapshot_diff(entries, entries).added.len() == 0,
        snapshot_diff(entries, entries).removed.len() == 0,
        snapshot_diff(entries, entries).changed.len() == 0,
{
    broadcast use vstd::seq_lib::group_to_multiset_ensures;
    let leq = entry_leq(true);
    lemma_entry_leq_total(true);
    entries.lemma_sort_by_ensures(leq);
    let p = entries.sort_by(leq);
    assert(p.len() == entries.len()) by {
        assert(p.to_multiset().len() == entries.to_multiset().len());
    }
    lemma_sorted_difference_with_itself(p);
}


/// Each change with its two sides swapped.
pub open spec fn swap_changes(changes: Seq<(EntryView, EntryView)>) -> Seq<(EntryView, EntryView)> {
    changes.map_values(|c: (EntryView, EntryView)| (c.1, c.0))
}

proof fn lemma_entry_less_asymmetric(a: EntryView, b: EntryView)
    ensures
        entry_less(a, b, true) ==> !entry_less(b, a, true),
        a != b ==> entry_less(a, b, true) || entry_less(b, a, true),
{
    lemma_entry_less_order(a, b, a, true);
}

proof fn lemma_sorted_difference_swapped(p: Seq<EntryView>, c: Seq<EntryView>)
    ensures
        sorted_difference(c, p) == (sorted_difference(p, c).0, sorted_difference(p, c).2, sorted_difference(p, c).1),
    decreases p.len() + c.len(),
{
    if p.len() > 0 && c.len() > 0 {
        lemma_entry_less_asymmetric(p[0], c[0]);
        if p[0] == c[0] {
            lemma_sorted_difference_swapped(p.drop_first(), c.drop_first());
        } else if entry_less(p[0], c[0], true) {
            lemma_sorted_difference_swapped(p.drop_first(), c);
        } else {
            lemma_sorted_difference_swapped(p, c.drop_first());
        }
    }
}

proof fn lemma_pair_leftovers_swapped(r: Seq<EntryView>, a: Seq<EntryView>)
    ensures
        pair_leftovers(a, r).0 == pair_leftovers(r, a).1,
        pair_leftovers(a, r).1 == pair_leftovers(r, a).0,
        pair_leftovers(a, r).2 == swap_changes(pair_leftovers(r, a).2),
    decreases r.len() + a.len(),
{
    if r.len() == 0 || a.len() == 0 {
        assert(swap_changes(Seq::empty()) =~= Seq::<(EntryView, EntryView)>::empty());
    } else {
        lemma_entry_less_asymmetric(r[0], a[0]);
        if same_identity(r[0], a[0]) {
            lemma_pair_leftovers_swapped(r.drop_first(), a.drop_first());
            let t = pair_leftovers(r.drop_first(), a.drop_first());
            assert(swap_changes(seq![(r[0], a[0])] + t.2) =~= seq![(a[0], r[0])] + swap_changes(t.2));
        } else if entry_less(r[0], a[0], true) {
            lemma_pair_leftovers_swapped(r.drop_first(), a);
        } else {
            lemma_pair_leftovers_swapped(r, a.drop_first());
        }
    }
}

/// Comparing two snapshots the other way round swaps what was added with what was removed,
/// swaps the two sides of each change, and leaves the unchanged count as it is.
pub proof fn lemma_snapshot_diff_is_symmetric(previous: Seq<EntryView>, current: Seq<EntryView>)
    ensures
        snapshot_diff(current, previous).added == snapshot_diff(previous, current).removed,
        snapshot_diff(current, previous).removed == snapshot_diff(previous, current).added,
        snapshot_diff(current, previous).changed == swap_changes(snapshot_diff(previous, current).changed),
        snapshot_diff(current, previous).unchanged_count == snapshot_diff(previous, current).unchanged_count,
{
    let p = previous.sort_by(entry_leq(true));
    let c = current.sort_by(entry_leq(true));
    lemma_sorted_difference_swapped(p, c);
    let d = sorted_difference(p, c);
    lemma_pair_leftovers_swapped(d.1, d.2);
}


proof fn lemma_pair_leftovers_pairs_identities(r: Seq<EntryView>, a: Seq<EntryView>)
    ensures
        forall|k: int|
            0 <= k < pair_leftovers(r, a).2.len() ==> same_identity(
                (#[trigger] pair_leftovers(r, a).2[k]).0,
                pair_leftovers(r, a).2[k].1,
            ),
    decreases r.len() + a.len(),
{
    if r.len() > 0 && a.len() > 0 {
        if same_identity(r[0], a[0]) {
            lemma_pair_leftovers_pairs_identities(r.drop_first(), a.drop_first());
            let t = pair_leftovers(r.drop_first(), a.drop_first());
            let changes = pair_leftovers(r, a).2;
            assert(changes == seq![(r[0], a[0])] + t.2);
            assert forall|k: int| 0 <= k < changes.len() implies same_identity(
                (#[trigger] changes[k]).0,
                changes[k].1,
            ) by {
                if k > 0 {
                    assert(changes[k] == t.2[k - 1]);
                }
            }
        } else if entry_less(r[0], a[0], true) {
            lemma_pair_leftovers_pairs_identities(r.drop_first(), a);
            assert(pair_leftovers(r, a).2 == pair_leftovers(r.drop_first(), a).2);
        } else {
            lemma_pair_leftovers_pairs_identities(r, a.drop_first());
            assert(pair_leftovers(r, a).2 == pair_leftovers(r, a.drop_first()).2);
        }
    }
}

/// A change pairs an earlier and a later entry of one record: the archive, source kind, group,
/// icon ID, block and file position all agree, and only the size may differ. Entries with
/// another icon ID, block or file position are never paired; they stay added or removed.
pub proof fn lemma_changes_keep_the_record_identity(previous: Seq<EntryView>, current: Seq<EntryView>)
    ensures
        forall|k: int|
            0 <= k < snapshot_diff(previous, current).changed.len() ==> {
                let (p, c) = #[trigger] snapshot_diff(previous, current).changed[k];
                &&& p.archive == c.archive
                &&& p.source_kind == c.source_kind
                &&& p.group_code == c.group_code
                &&& p.icon_id == c.icon_id
                &&& p.block_index == c.block_index
                &&& p.data_file_number == c.data_file_number
                &&& p.file_block_index == c.file_block_index
            },
{
    let d = sorted_difference(previous.sort_by(entry_leq(true)), current.sort_by(entry_leq(true)));
    lemma_pair_leftovers_pairs_identities(d.1, d.2);
}
} // verus!
