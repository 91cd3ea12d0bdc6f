//! Human-reviewed category metadata kept separate from raw archive facts.

pub mod assembly;
pub mod tables;

use crate::text::{eq_ignore_ascii_case, same_ascii_name};
use tables::{
    im_record_rule_table, im_record_rules, is_record_rule_table, is_record_rules, kp_record_rule_table, kp_record_rules, sa_record_rule_table, sa_record_rules, sb_record_rule_table, sb_record_rules, sb_reservation_rule_table, sb_reservation_rules, sc_record_rule_table, sc_record_rules, sd_record_rule_table, sd_record_rules, se_record_rule_table, se_record_rules, sf_record_rule_table, sf_record_rules, sg_record_rule_table, sg_record_rules, sh_record_rule_table, sh_record_rules, sw_record_rule_table, sw_record_rules, sx_record_rule_table, sx_record_rules, sy_record_rule_table, sy_record_rules, sz_record_rule_table, sz_record_rules, tm_record_rule_table, tm_record_rules,
};
use vstd::prelude::*;

pub use assembly::{AssemblyPlan, AssemblyRule, LayeredAssemblyRule, TileOrder};

verus! {

/// One raw record identity used by the category resolver.
#[derive(Debug, Clone, Copy, PartialEq, Eq)]
pub struct CatalogRecordKey<'a> {
    pub archive: &'a str,
    pub group_code: u32,
    pub icon_id: u32,
    pub block_index: u32,
}

/// A display hierarchy such as `장비 > 방어구 > 머리`.
#[derive(Debug, Clone, Copy, PartialEq, Eq)]
pub struct CategoryPath(pub &'static [&'static str]);

/// `segments` joined with `separator` between consecutive segments.
pub open spec fn join_segments(segments: Seq<Seq<char>>, separator: Seq<char>) -> Seq<char>
    decreases segments.len(),
{
    if segments.len() == 0 {
        Seq::empty()
    } else if segments.len() == 1 {
        segments[0]
    } else {
        join_segments(segments.drop_last(), separator) + separator + segments.last()
    }
}

impl CategoryPath {
    /// The text of each segment, outermost first.
    pub open spec fn segment_texts(self) -> Seq<Seq<char>> {
        self.0@.map_values(|segment: &str| segment@)
    }

    pub fn new(segments: &'static [&'static str]) -> (path: Self)
        ensures
            path.0 == segments,
    {
        CategoryPath(segments)
    }

    pub fn segments(self) -> (segments: &'static [&'static str])
        ensures
            segments == self.0,
    {
        self.0
    }

    /// The segments joined by `" > "`.
    pub fn display_name(self) -> (name: String)
        ensures
            name@ == join_segments(self.segment_texts(), " > "@),
    {
        let segments = self.0;
        let mut name = String::new();
        let mut index: usize = 0;
        while index < segments.len()
            invariant
                index <= segments@.len(),
                segments == self.0,
                name@ == join_segments(
                    self.segment_texts().subrange(0, index as int),
                    " > "@,
                ),
            decreases segments@.len() - index,
        {
            proof {
                let prefix = self.segment_texts().subrange(0, index + 1);
                assert(prefix.drop_last() =~= self.segment_texts().subrange(0, index as int));
                if index == 0 {
                    assert(self.segment_texts().subrange(0, 0) =~= Seq::<Seq<char>>::empty());
                }
            }
            if index > 0 {
                name.append(" > ");
            }
            name.append(segments[index]);
            index += 1;
        }
        assert(self.segment_texts().subrange(0, index as int) =~= self.segment_texts());
        name
    }
}

/// Where a category hierarchy came from.
#[derive(Debug, Clone, Copy, PartialEq, Eq, Structural)]
pub enum CategorySource {
    InGame,
    Custom,
    Temporary,
}

/// Review state used for both boundaries and meanings.
#[derive(Debug, Clone, Copy, PartialEq, Eq, Structural)]
pub enum VerificationStatus {
    Unknown,
    Candidate,
    HumanVerified,
    Rejected,
}

/// The resolved category for one record.
#[derive(Debug, Clone, Copy, PartialEq, Eq)]
pub struct RecordClassification {
    pub category: Option<CategoryPath>,
    pub category_source: Option<CategorySource>,
    pub boundary_status: VerificationStatus,
    pub meaning_status: VerificationStatus,
}

impl RecordClassification {
    pub open spec fn spec_unknown() -> Self {
        RecordClassification {
            category: None,
            category_source: None,
            boundary_status: VerificationStatus::Unknown,
            meaning_status: VerificationStatus::Unknown,
        }
    }

    pub fn unknown() -> (classification: Self)
        ensures
            classification == Self::spec_unknown(),
    {
        RecordClassification {
            category: None,
            category_source: None,
            boundary_status: VerificationStatus::Unknown,
            meaning_status: VerificationStatus::Unknown,
        }
    }
}

/// A category suggested for an ID that does not currently have a record.
#[derive(Debug, Clone, Copy, PartialEq, Eq)]
pub struct ReservationSuggestion {
    pub category: CategoryPath,
    pub category_source: CategorySource,
    pub status: VerificationStatus,
}

/// The records a rule speaks for.
#[derive(Debug, Clone, Copy, PartialEq, Eq, Structural)]
pub enum RuleScope {
    ExactBlock(u32),
    ExactId(u32),
    BlockRange { start: u32, end: u32 },
    IdRange { start: u32, end: u32 },
    Group(u32),
}

/// The width `end - start` of a range, or 0 when `end < start`.
pub open spec fn range_span(start: u32, end: u32) -> u32 {
    if end >= start {
        (end - start) as u32
    } else {
        0
    }
}

/// Whether score `a` ranks strictly above score `b`: by priority, then by narrowness.
pub open spec fn score_above(a: (u8, u32), b: (u8, u32)) -> bool {
    a.0 > b.0 || (a.0 == b.0 && a.1 > b.1)
}

/// Priority of a scope kind: exact block, exact ID, block range, ID range, group.
pub open spec fn scope_rank(scope: RuleScope) -> u8 {
    match scope {
        RuleScope::ExactBlock(_) => 5,
        RuleScope::ExactId(_) => 4,
        RuleScope::BlockRange { .. } => 3,
        RuleScope::IdRange { .. } => 2,
        RuleScope::Group(_) => 1,
    }
}

impl RuleScope {
    /// How well the scope fits `key`, if it covers it at all: the scope's rank, then how
    /// narrow a range is (`u32::MAX` for exact scopes, 0 for groups).
    pub open spec fn spec_score(self, group_code: u32, icon_id: u32, block_index: u32) -> Option<
        (u8, u32),
    > {
        match self {
            RuleScope::ExactBlock(b) => if b == block_index {
                Some((5u8, u32::MAX))
            } else {
                None
            },
            RuleScope::ExactId(id) => if id == icon_id {
                Some((4u8, u32::MAX))
            } else {
                None
            },
            RuleScope::BlockRange { start, end } => if start <= block_index && block_index <= end {
                Some((3u8, (u32::MAX - range_span(start, end)) as u32))
            } else {
                None
            },
            RuleScope::IdRange { start, end } => if start <= icon_id && icon_id <= end {
                Some((2u8, (u32::MAX - range_span(start, end)) as u32))
            } else {
                None
            },
            RuleScope::Group(g) => if g == group_code {
                Some((1u8, 0u32))
            } else {
                None
            },
        }
    }

    pub fn score(self, key: CatalogRecordKey<'_>) -> (score: Option<(u8, u32)>)
        ensures
            score == self.spec_score(key.group_code, key.icon_id, key.block_index),
    {
        match self {
            RuleScope::ExactBlock(block_index) => {
                if block_index == key.block_index {
                    Some((5, u32::MAX))
                } else {
                    None
                }
            },
            RuleScope::ExactId(icon_id) => {
                if icon_id == key.icon_id {
                    Some((4, u32::MAX))
                } else {
                    None
                }
            },
            RuleScope::BlockRange { start, end } => {
                if start <= key.block_index && key.block_index <= end {
                    Some((3, u32::MAX - end.saturating_sub(start)))
                } else {
                    None
                }
            },
            RuleScope::IdRange { start, end } => {
                if start <= key.icon_id && key.icon_id <= end {
                    Some((2, u32::MAX - end.saturating_sub(start)))
                } else {
                    None
                }
            },
            RuleScope::Group(group_code) => {
                if group_code == key.group_code {
                    Some((1, 0))
                } else {
                    None
                }
            },
        }
    }
}

/// A reviewed statement about the records of one scope.
#[derive(Debug, Clone, Copy, PartialEq, Eq)]
pub struct RecordRule {
    pub scope: RuleScope,
    pub category: Option<CategoryPath>,
    pub category_source: Option<CategorySource>,
    pub boundary_status: VerificationStatus,
    pub meaning_status: VerificationStatus,
}

impl RecordRule {
    pub open spec fn spec_verified(
        scope: RuleScope,
        category: CategoryPath,
        category_source: CategorySource,
    ) -> Self {
        RecordRule {
            scope,
            category: Some(category),
            category_source: Some(category_source),
            boundary_status: VerificationStatus::HumanVerified,
            meaning_status: VerificationStatus::HumanVerified,
        }
    }

    pub open spec fn spec_temporary(scope: RuleScope, category: CategoryPath) -> Self {
        RecordRule {
            scope,
            category: Some(category),
            category_source: Some(CategorySource::Temporary),
            boundary_status: VerificationStatus::HumanVerified,
            meaning_status: VerificationStatus::Unknown,
        }
    }

    pub open spec fn spec_explicit_unknown(scope: RuleScope) -> Self {
        RecordRule {
            scope,
            category: None,
            category_source: None,
            boundary_status: VerificationStatus::HumanVerified,
            meaning_status: VerificationStatus::Unknown,
        }
    }

    /// A rule whose boundary and meaning were both verified by a person.
    pub fn verified(scope: RuleScope, category: CategoryPath, category_source: CategorySource) -> (rule:
        Self)
        ensures
            rule == Self::spec_verified(scope, category, category_source),
    {
        RecordRule {
            scope,
            category: Some(category),
            category_source: Some(category_source),
            boundary_status: VerificationStatus::HumanVerified,
            meaning_status: VerificationStatus::HumanVerified,
        }
    }

    /// A verified boundary filed under a temporary category whose meaning is still unknown.
    pub fn temporary(scope: RuleScope, category: CategoryPath) -> (rule: Self)
        ensures
            rule == Self::spec_temporary(scope, category),
    {
        RecordRule {
            scope,
            category: Some(category),
            category_source: Some(CategorySource::Temporary),
            boundary_status: VerificationStatus::HumanVerified,
            meaning_status: VerificationStatus::Unknown,
        }
    }

    /// A verified boundary whose records were reviewed and deliberately left without a category.
    pub fn explicit_unknown(scope: RuleScope) -> (rule: Self)
        ensures
            rule == Self::spec_explicit_unknown(scope),
    {
        RecordRule {
            scope,
            category: None,
            category_source: None,
            boundary_status: VerificationStatus::HumanVerified,
            meaning_status: VerificationStatus::Unknown,
        }
    }

    pub open spec fn spec_classification(self) -> RecordClassification {
        RecordClassification {
            category: self.category,
            category_source: self.category_source,
            boundary_status: self.boundary_status,
            meaning_status: self.meaning_status,
        }
    }

    fn classification(self) -> (classification: RecordClassification)
        ensures
            classification == self.spec_classification(),
    {
        RecordClassification {
            category: self.category,
            category_source: self.category_source,
            boundary_status: self.boundary_status,
            meaning_status: self.meaning_status,
        }
    }
}

/// A band of IDs reserved for one category.
#[derive(Debug, Clone, Copy, PartialEq, Eq)]
pub struct ReservationRule {
    pub start: u32,
    pub end: u32,
    pub category: CategoryPath,
    pub category_source: CategorySource,
}

impl ReservationRule {
    pub open spec fn spec_new(
        start: u32,
        end: u32,
        category: CategoryPath,
        category_source: CategorySource,
    ) -> Self {
        ReservationRule { start, end, category, category_source }
    }

    pub fn new(start: u32, end: u32, category: CategoryPath, category_source: CategorySource) -> (rule:
        Self)
        ensures
            rule == Self::spec_new(start, end, category, category_source),
    {
        ReservationRule { start, end, category, category_source }
    }

    pub open spec fn spec_matches(self, icon_id: u32) -> bool {
        self.start <= icon_id && icon_id <= self.end
    }

    pub fn matches(self, icon_id: u32) -> (matched: bool)
        ensures
            matched == self.spec_matches(icon_id),
    {
        self.start <= icon_id && icon_id <= self.end
    }

    pub open spec fn spec_span(self) -> u32 {
        range_span(self.start, self.end)
    }

    pub fn span(self) -> (span: u32)
        ensures
            span == self.spec_span(),
    {
        self.end.saturating_sub(self.start)
    }

    pub open spec fn spec_suggestion(self) -> ReservationSuggestion {
        ReservationSuggestion {
            category: self.category,
            category_source: self.category_source,
            status: VerificationStatus::Candidate,
        }
    }

    pub fn suggestion(self) -> (suggestion: ReservationSuggestion)
        ensures
            suggestion == self.spec_suggestion(),
    {
        ReservationSuggestion {
            category: self.category,
            category_source: self.category_source,
            status: VerificationStatus::Candidate,
        }
    }
}

/// The rule that classifies a record, with its score: among the rules whose scope covers the
/// record, the first one with the highest score.
pub open spec fn best_rule(
    rules: Seq<RecordRule>,
    group_code: u32,
    icon_id: u32,
    block_index: u32,
) -> Option<(RecordRule, (u8, u32))>
    decreases rules.len(),
{
    if rules.len() == 0 {
        None
    } else {
        let previous = best_rule(rules.drop_last(), group_code, icon_id, block_index);
        let rule = rules.last();
        match rule.scope.spec_score(group_code, icon_id, block_index) {
            None => previous,
            Some(score) => match previous {
                None => Some((rule, score)),
                Some((_, best)) => if score_above(score, best) {
                    Some((rule, score))
                } else {
                    previous
                },
            },
        }
    }
}

/// The classification that `rules` give a record.
pub open spec fn classify_with(rules: Seq<RecordRule>, key: CatalogRecordKey) -> RecordClassification {
    match best_rule(rules, key.group_code, key.icon_id, key.block_index) {
        Some((rule, _)) => rule.spec_classification(),
        None => RecordClassification::spec_unknown(),
    }
}

/// The reservation band that suggests a category for an ID: among the bands containing it,
/// the first narrowest one.
pub open spec fn best_reservation(rules: Seq<ReservationRule>, icon_id: u32) -> Option<
    ReservationRule,
>
    decreases rules.len(),
{
    if rules.len() == 0 {
        None
    } else {
        let previous = best_reservation(rules.drop_last(), icon_id);
        let rule = rules.last();
        if !rule.spec_matches(icon_id) {
            previous
        } else {
            match previous {
                None => Some(rule),
                Some(best) => if rule.spec_span() < best.spec_span() {
                    Some(rule)
                } else {
                    previous
                },
            }
        }
    }
}

/// Record and reservation rules of one archive.
pub struct Catalog<'a> {
    pub record_rules: &'a [RecordRule],
    pub reservation_rules: &'a [ReservationRule],
}

impl<'a> Catalog<'a> {
    pub fn new(record_rules: &'a [RecordRule], reservation_rules: &'a [ReservationRule]) -> (catalog:
        Self)
        ensures
            catalog.record_rules@ == record_rules@,
            catalog.reservation_rules@ == reservation_rules@,
    {
        Catalog { record_rules, reservation_rules }
    }

    /// The classification of the first highest-scoring rule covering `key`, or unknown.
    pub fn classify(&self, key: CatalogRecordKey<'_>) -> (classification: RecordClassification)
        ensures
            classification == classify_with(self.record_rules@, key),
    {
        let rules = self.record_rules;
        let mut best: Option<((u8, u32), RecordRule)> = None;
        let mut index: usize = 0;
        while index < rules.len()
            invariant
                index <= rules@.len(),
                rules@ == self.record_rules@,
                match best_rule(
                    rules@.subrange(0, index as int),
                    key.group_code,
                    key.icon_id,
                    key.block_index,
                ) {
                    None => best is None,
                    Some((rule, score)) => best == Some((score, rule)),
                },
            decreases rules@.len() - index,
        {
            proof {
                assert(rules@.subrange(0, index + 1).drop_last() =~= rules@.subrange(
                    0,
                    index as int,
                ));
            }
            let rule = rules[index];
            match rule.scope.score(key) {
                None => {},
                Some(score) => {
                    let replace = match best {
                        None => true,
                        Some((best_score, _)) => score.0 > best_score.0 || (score.0 == best_score.0
                            && score.1 > best_score.1),
                    };
                    if replace {
                        best = Some((score, rule));
                    }
                },
            }
            index += 1;
        }
        assert(rules@.subrange(0, index as int) =~= rules@);
        match best {
            Some((_, rule)) => rule.classification(),
            None => RecordClassification::unknown(),
        }
    }

    /// The suggestion of the first narrowest reservation band containing `icon_id`.
    pub fn reservation(&self, icon_id: u32) -> (suggestion: Option<ReservationSuggestion>)
        ensures
            suggestion == match best_reservation(self.reservation_rules@, icon_id) {
                Some(rule) => Some(rule.spec_suggestion()),
                None => None::<ReservationSuggestion>,
            },
    {
        let rules = self.reservation_rules;
        let mut best: Option<ReservationRule> = None;
        let mut index: usize = 0;
        while index < rules.len()
            invariant
                index <= rules@.len(),
                rules@ == self.reservation_rules@,
                best == best_reservation(rules@.subrange(0, index as int), icon_id),
            decreases rules@.len() - index,
        {
            proof {
                assert(rules@.subrange(0, index + 1).drop_last() =~= rules@.subrange(
                    0,
                    index as int,
                ));
            }
            let rule = rules[index];
            if rule.matches(icon_id) {
                let replace = match best {
                    None => true,
                    Some(current) => rule.span() < current.span(),
                };
                if replace {
                    best = Some(rule);
                }
            }
            index += 1;
        }
        assert(rules@.subrange(0, index as int) =~= rules@);
        match best {
            Some(rule) => Some(rule.suggestion()),
            None => None,
        }
    }
}

/// The record rules of the archive called `archive` (ignoring ASCII case), if it has any.
pub open spec fn archive_record_rules(archive: Seq<char>) -> Option<Seq<RecordRule>> {
    if same_ascii_name(archive, "im"@) {
        Some(im_record_rules())
    } else if same_ascii_name(archive, "sa"@) {
        Some(sa_record_rules())
    } else if same_ascii_name(archive, "sb"@) {
        Some(sb_record_rules())
    } else if same_ascii_name(archive, "sc"@) {
        Some(sc_record_rules())
    } else if same_ascii_name(archive, "sd"@) {
        Some(sd_record_rules())
    } else if same_ascii_name(archive, "se"@) {
        Some(se_record_rules())
    } else if same_ascii_name(archive, "sf"@) {
        Some(sf_record_rules())
    } else if same_ascii_name(archive, "sg"@) {
        Some(sg_record_rules())
    } else if same_ascii_name(archive, "sh"@) {
        Some(sh_record_rules())
    } else if same_ascii_name(archive, "sw"@) {
        Some(sw_record_rules())
    } else if same_ascii_name(archive, "sx"@) {
        Some(sx_record_rules())
    } else if same_ascii_name(archive, "sy"@) {
        Some(sy_record_rules())
    } else if same_ascii_name(archive, "sz"@) {
        Some(sz_record_rules())
    } else if same_ascii_name(archive, "tm"@) {
        Some(tm_record_rules())
    } else if same_ascii_name(archive, "is"@) {
        Some(is_record_rules())
    } else if same_ascii_name(archive, "kp"@) {
        Some(kp_record_rules())
    } else {
        None
    }
}

/// The classification of `key` under the rules of its archive; unknown for other archives.
pub open spec fn spec_classify_record(key: CatalogRecordKey) -> RecordClassification {
    match archive_record_rules(key.archive@) {
        Some(rules) => classify_with(rules, key),
        None => RecordClassification::spec_unknown(),
    }
}

fn archive_record_rule_table(archive: &str) -> (rules: Option<Vec<RecordRule>>)
    ensures
        match archive_record_rules(archive@) {
            Some(expected) => rules matches Some(table) && table@ == expected,
            None => rules is None,
        },
{
    if eq_ignore_ascii_case(archive, "im") {
        Some(im_record_rule_table())
    } else if eq_ignore_ascii_case(archive, "sa") {
        Some(sa_record_rule_table())
    } else if eq_ignore_ascii_case(archive, "sb") {
        Some(sb_record_rule_table())
    } else if eq_ignore_ascii_case(archive, "sc") {
        Some(sc_record_rule_table())
    } else if eq_ignore_ascii_case(archive, "sd") {
        Some(sd_record_rule_table())
    } else if eq_ignore_ascii_case(archive, "se") {
        Some(se_record_rule_table())
    } else if eq_ignore_ascii_case(archive, "sf") {
        Some(sf_record_rule_table())
    } else if eq_ignore_ascii_case(archive, "sg") {
        Some(sg_record_rule_table())
    } else if eq_ignore_ascii_case(archive, "sh") {
        Some(sh_record_rule_table())
    } else if eq_ignore_ascii_case(archive, "sw") {
        Some(sw_record_rule_table())
    } else if eq_ignore_ascii_case(archive, "sx") {
        Some(sx_record_rule_table())
    } else if eq_ignore_ascii_case(archive, "sy") {
        Some(sy_record_rule_table())
    } else if eq_ignore_ascii_case(archive, "sz") {
        Some(sz_record_rule_table())
    } else if eq_ignore_ascii_case(archive, "tm") {
        Some(tm_record_rule_table())
    } else if eq_ignore_ascii_case(archive, "is") {
        Some(is_record_rule_table())
    } else if eq_ignore_ascii_case(archive, "kp") {
        Some(kp_record_rule_table())
    } else {
        None
    }
}

/// Resolves a category for an existing raw record.
pub fn classify_record(key: CatalogRecordKey<'_>) -> (classification: RecordClassification)
    ensures
        classification == spec_classify_record(key),
{
    match archive_record_rule_table(key.archive) {
        Some(rules) => Catalog::new(rules.as_slice(), &[]).classify(key),
        None => RecordClassification::unknown(),
    }
}

/// The reservation suggestion for an unused ID of `archive`: only the `sb` archive has
/// reservation bands.
pub open spec fn spec_reservation_candidate(archive: Seq<char>, icon_id: u32) -> Option<
    ReservationSuggestion,
> {
    if same_ascii_name(archive, "sb"@) {
        match best_reservation(sb_reservation_rules(), icon_id) {
            Some(rule) => Some(rule.spec_suggestion()),
            None => None,
        }
    } else {
        None
    }
}

/// Suggests a candidate category for a currently unused ID slot.
pub fn reservation_candidate(archive: &str, icon_id: u32) -> (suggestion: Option<
    ReservationSuggestion,
>)
    ensures
        suggestion == spec_reservation_candidate(archive@, icon_id),
{
    if eq_ignore_ascii_case(archive, "sb") {
        let record_rules = sb_record_rule_table();
        let reservation_rules = sb_reservation_rule_table();
        Catalog::new(record_rules.as_slice(), reservation_rules.as_slice()).reservation(icon_id)
    } else {
        None
    }
}


/// Returns the verified completed-image range and tile position for one physical block.
pub fn assembly_plan(archive: &str, block_index: u32) -> (plan: Option<AssemblyPlan>)
    ensures
        plan == assembly::first_plan(
            assembly::spec_assembly_rules(),
            archive@,
            block_index,
            VerificationStatus::HumanVerified,
        ),
{
    assembly::find_plan(archive, block_index)
}

/// Returns an unverified assembly candidate for Curator review only.
///
/// Candidate plans must never be displayed by the general-user Viewer until
/// a person has reviewed the completed image and promoted the rule.
pub fn assembly_candidate_plan(archive: &str, block_index: u32) -> (plan: Option<AssemblyPlan>)
    ensures
        plan == assembly::first_plan(
            assembly::spec_assembly_rules(),
            archive@,
            block_index,
            VerificationStatus::Candidate,
        ),
{
    assembly::find_candidate_plan(archive, block_index)
}

/// Returns a human-verified two-layer raw-image assembly rule for an archive.
pub fn layered_assembly_rule(archive: &str) -> (rule: Option<LayeredAssemblyRule>)
    ensures
        rule == assembly::first_layered_rule(assembly::spec_layered_rules(), archive@),
{
    assembly::find_layered_rule(archive)
}

// ---------------------------------------------------------------------------
// Properties of the resolvers
// ---------------------------------------------------------------------------

/// Whether `rule` does not cover the record with a score above `score`.
pub open spec fn scores_at_most(
    rule: RecordRule,
    score: (u8, u32),
    group_code: u32,
    icon_id: u32,
    block_index: u32,
) -> bool {
    match rule.scope.spec_score(group_code, icon_id, block_index) {
        Some(other) => !score_above(other, score),
        None => true,
    }
}

/// Whether `rule` does not cover the record with a score of `score` or more.
pub open spec fn scores_below(
    rule: RecordRule,
    score: (u8, u32),
    group_code: u32,
    icon_id: u32,
    block_index: u32,
) -> bool {
    match rule.scope.spec_score(group_code, icon_id, block_index) {
        Some(other) => score_above(score, other),
        None => true,
    }
}

/// The classifying rule is one of the rules that cover the record, no covering rule scores
/// higher, and every covering rule before it scores strictly lower; no rule is chosen only
/// when none covers the record.
pub proof fn lemma_best_rule_is_first_highest(
    rules: Seq<RecordRule>,
    group_code: u32,
    icon_id: u32,
    block_index: u32,
)
    ensures
        best_rule(rules, group_code, icon_id, block_index) is None <==> forall|j: int|
            0 <= j < rules.len() ==> (#[trigger] rules[j]).scope.spec_score(
                group_code,
                icon_id,
                block_index,
            ) is None,
        best_rule(rules, group_code, icon_id, block_index) matches Some((rule, score))
            ==> exists|i: int|
            {
                &&& 0 <= i < rules.len()
                &&& #[trigger] rules[i] == rule
                &&& rule.scope.spec_score(group_code, icon_id, block_index) == Some(score)
                &&& forall|j: int|
                    0 <= j < rules.len() ==> scores_at_most(#[trigger] rules[j], score, group_code, icon_id, block_index)
                &&& forall|j: int|
                    0 <= j < i ==> scores_below(#[trigger] rules[j], score, group_code, icon_id, block_index)
            },
    decreases rules.len(),
{
    if rules.len() > 0 {
        let rest = rules.drop_last();
        lemma_best_rule_is_first_highest(rest, group_code, icon_id, block_index);
        assert forall|j: int| 0 <= j < rest.len() implies rest[j] == rules[j] by {}
        let last = rules.last();
        let n = rules.len() - 1;
        match best_rule(rest, group_code, icon_id, block_index) {
            None => {
                match last.scope.spec_score(group_code, icon_id, block_index) {
                    None => {
                        assert forall|j: int| 0 <= j < rules.len() implies (
                        #[trigger] rules[j]).scope.spec_score(group_code, icon_id, block_index)
                            is None by {
                            if j < n {
                                assert(rest[j] == rules[j]);
                            }
                        }
                    },
                    Some(score) => {
                        assert(rules[n] == last);
                        assert forall|j: int| 0 <= j < rules.len() && (
                        #[trigger] rules[j]).scope.spec_score(group_code, icon_id, block_index)
                            is Some implies j == n by {
                            if j < n {
                                assert(rest[j] == rules[j]);
                            }
                        }
                    },
                }
            },
            Some((best, best_score)) => {
                let i = choose|i: int|
                    {
                        &&& 0 <= i < rest.len()
                        &&& #[trigger] rest[i] == best
                        &&& best.scope.spec_score(group_code, icon_id, block_index) == Some(
                            best_score,
                        )
                        &&& forall|j: int|
                            0 <= j < rest.len() ==> scores_at_most(#[trigger] rest[j], best_score, group_code, icon_id, block_index)
                        &&& forall|j: int|
                            0 <= j < i ==> scores_below(#[trigger] rest[j], best_score, group_code, icon_id, block_index)
                    };
                assert(rules[i] == best);
                assert(rules[n] == last);
                match last.scope.spec_score(group_code, icon_id, block_index) {
                    None => {},
                    Some(score) => {
                        if score_above(score, best_score) {
                            assert forall|j: int| 0 <= j < n implies scores_below(#[trigger] rules[j], score, group_code, icon_id, block_index) by {
                                assert(rest[j] == rules[j]);
                            }
                        }
                    },
                }
            },
        }
    }
}

/// A reservation band is suggested exactly when one contains the ID; the suggested band
/// contains it, no containing band is narrower, and every containing band before it is wider.
pub proof fn lemma_best_reservation_is_first_narrowest(rules: Seq<ReservationRule>, icon_id: u32)
    ensures
        best_reservation(rules, icon_id) is None <==> forall|j: int|
            0 <= j < rules.len() ==> !(#[trigger] rules[j]).spec_matches(icon_id),
        best_reservation(rules, icon_id) matches Some(rule) ==> exists|i: int|
            {
                &&& 0 <= i < rules.len()
                &&& #[trigger] rules[i] == rule
                &&& rule.spec_matches(icon_id)
                &&& forall|j: int|
                    0 <= j < rules.len() && (#[trigger] rules[j]).spec_matches(icon_id)
                        ==> rule.spec_span() <= rules[j].spec_span()
                &&& forall|j: int|
                    0 <= j < i && (#[trigger] rules[j]).spec_matches(icon_id) ==> rule.spec_span()
                        < rules[j].spec_span()
            },
    decreases rules.len(),
{
    if rules.len() > 0 {
        let rest = rules.drop_last();
        lemma_best_reservation_is_first_narrowest(rest, icon_id);
        let last = rules.last();
        let n = rules.len() - 1;
        assert(rules[n] == last);
        assert forall|j: int| 0 <= j < rest.len() implies rest[j] == rules[j] by {}
        match best_reservation(rest, icon_id) {
            None => {
                assert forall|j: int| 0 <= j < n implies !(#[trigger] rules[j]).spec_matches(
                    icon_id,
                ) by {
                    assert(rest[j] == rules[j]);
                }
            },
            Some(best) => {
                let i = choose|i: int|
                    {
                        &&& 0 <= i < rest.len()
                        &&& #[trigger] rest[i] == best
                        &&& best.spec_matches(icon_id)
                        &&& forall|j: int|
                            0 <= j < rest.len() && (#[trigger] rest[j]).spec_matches(icon_id)
                                ==> best.spec_span() <= rest[j].spec_span()
                        &&& forall|j: int|
                            0 <= j < i && (#[trigger] rest[j]).spec_matches(icon_id)
                                ==> best.spec_span() < rest[j].spec_span()
                    };
                assert(rules[i] == best);
                assert forall|j: int|
                    0 <= j < n && (#[trigger] rules[j]).spec_matches(icon_id) implies best.spec_span()
                    <= rules[j].spec_span() by {
                    assert(rest[j] == rules[j]);
                }
                assert forall|j: int|
                    0 <= j < i && (#[trigger] rules[j]).spec_matches(icon_id) implies best.spec_span()
                    < rules[j].spec_span() by {
                    assert(rest[j] == rules[j]);
                }
            },
        }
    }
}

/// A scope of a higher kind always outranks a scope of a lower kind when both cover a record:
/// exact blocks before exact IDs, before block ranges, before ID ranges, before groups.
pub proof fn lemma_scope_kind_priority(
    a: RuleScope,
    b: RuleScope,
    group_code: u32,
    icon_id: u32,
    block_index: u32,
)
    requires
        a.spec_score(group_code, icon_id, block_index) is Some,
        b.spec_score(group_code, icon_id, block_index) is Some,
        scope_rank(a) > scope_rank(b),
    ensures
        score_above(
            a.spec_score(group_code, icon_id, block_index).unwrap(),
            b.spec_score(group_code, icon_id, block_index).unwrap(),
        ),
{
}
} // verus!
