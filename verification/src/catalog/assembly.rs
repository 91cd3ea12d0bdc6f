//! Human-verified rules that assemble completed images from consecutive tile blocks.

use super::VerificationStatus;
use crate::text::{eq_ignore_ascii_case, same_ascii_name};
use vstd::arithmetic::div_mod::{lemma_fundamental_div_mod, lemma_mod_bound};
use vstd::prelude::*;

verus! {

/// The order used to place consecutive physical image blocks in a grid.
#[derive(Debug, Clone, Copy, PartialEq, Eq, Structural)]
pub enum TileOrder {
    RowMajor,
}

/// One human-verified rule shared by every completed image in a block range.
#[derive(Debug, Clone, Copy, PartialEq, Eq)]
pub struct AssemblyRule {
    pub archive: &'static str,
    pub start_block: u32,
    pub end_block: u32,
    pub tiles_per_image: u32,
    pub columns: u32,
    pub rows: u32,
    pub output_width: u32,
    pub output_height: u32,
    pub tile_order: TileOrder,
    pub status: VerificationStatus,
}

/// The exact completed image and tile position containing one physical block.
#[derive(Debug, Clone, Copy, PartialEq, Eq)]
pub struct AssemblyPlan {
    pub rule: AssemblyRule,
    pub image_index: u32,
    pub first_block: u32,
    pub last_block: u32,
    pub tile_index: u32,
    pub row: u32,
    pub column: u32,
}

/// One human-verified logical image composed from matching tiles in two raw files.
#[derive(Debug, Clone, Copy, PartialEq, Eq)]
pub struct LayeredAssemblyRule {
    pub archive: &'static str,
    pub base_file_number: u32,
    pub overlay_file_number: u32,
    pub first_file_block_index: u32,
    pub tile_count: u32,
    pub columns: u32,
    pub rows: u32,
    pub output_width: u32,
    pub output_height: u32,
    pub canonical_block: u32,
    pub last_block: u32,
    pub status: VerificationStatus,
}

/// A rectangular grid with `columns` x `rows` tiles.
pub open spec fn grid_tiles(columns: u32, rows: u32) -> u32 {
    (columns * rows) as u32
}

impl AssemblyRule {
    pub open spec fn spec_verified_sd(
        start_block: u32,
        end_block: u32,
        columns: u32,
        rows: u32,
        output_width: u32,
        output_height: u32,
    ) -> Self {
        AssemblyRule {
            archive: "sd",
            start_block,
            end_block,
            tiles_per_image: grid_tiles(columns, rows),
            columns,
            rows,
            output_width,
            output_height,
            tile_order: TileOrder::RowMajor,
            status: VerificationStatus::HumanVerified,
        }
    }

    pub open spec fn spec_verified_is(
        start_block: u32,
        end_block: u32,
        output_width: u32,
        output_height: u32,
    ) -> Self {
        AssemblyRule {
            archive: "is",
            start_block,
            end_block,
            tiles_per_image: 12,
            columns: 4,
            rows: 3,
            output_width,
            output_height,
            tile_order: TileOrder::RowMajor,
            status: VerificationStatus::HumanVerified,
        }
    }

    fn verified_sd(
        start_block: u32,
        end_block: u32,
        columns: u32,
        rows: u32,
        output_width: u32,
        output_height: u32,
    ) -> (rule: Self)
        requires
            columns * rows <= u32::MAX,
        ensures
            rule == Self::spec_verified_sd(
                start_block,
                end_block,
                columns,
                rows,
                output_width,
                output_height,
            ),
    {
        AssemblyRule {
            archive: "sd",
            start_block,
            end_block,
            tiles_per_image: columns * rows,
            columns,
            rows,
            output_width,
            output_height,
            tile_order: TileOrder::RowMajor,
            status: VerificationStatus::HumanVerified,
        }
    }

    fn verified_is(start_block: u32, end_block: u32, output_width: u32, output_height: u32) -> (rule:
        Self)
        ensures
            rule == Self::spec_verified_is(start_block, end_block, output_width, output_height),
    {
        AssemblyRule {
            archive: "is",
            start_block,
            end_block,
            tiles_per_image: 12,
            columns: 4,
            rows: 3,
            output_width,
            output_height,
            tile_order: TileOrder::RowMajor,
            status: VerificationStatus::HumanVerified,
        }
    }

    /// The block range splits into whole grids of `columns` x `rows` tiles and yields a
    /// non-empty image.
    pub open spec fn well_formed(self) -> bool {
        &&& self.start_block <= self.end_block < u32::MAX
        &&& self.columns > 0
        &&& self.rows > 0
        &&& self.tiles_per_image == self.columns * self.rows
        &&& self.tiles_per_image > 0
        &&& (self.end_block - self.start_block + 1) % (self.tiles_per_image as int) == 0
        &&& self.output_width > 0
        &&& self.output_height > 0
    }

    pub open spec fn spec_contains(self, block_index: u32) -> bool {
        self.start_block <= block_index && block_index <= self.end_block
    }

    fn contains(self, block_index: u32) -> (contained: bool)
        ensures
            contained == self.spec_contains(block_index),
    {
        self.start_block <= block_index && block_index <= self.end_block
    }

    pub open spec fn spec_image_count(self) -> u32 {
        ((self.end_block - self.start_block + 1) / (self.tiles_per_image as int)) as u32
    }

    /// Number of completed images represented by this rule.
    pub fn image_count(self) -> (count: u32)
        requires
            self.start_block <= self.end_block,
            self.end_block - self.start_block < u32::MAX,
            self.tiles_per_image > 0,
        ensures
            count == self.spec_image_count(),
    {
        (self.end_block - self.start_block + 1) / self.tiles_per_image
    }

    /// The plan of the image that holds `block_index`, a block inside this rule's range.
    pub open spec fn spec_plan_for(self, block_index: u32) -> AssemblyPlan {
        let offset = block_index - self.start_block;
        let tiles = self.tiles_per_image as int;
        let image_index = offset / tiles;
        let tile_index = offset % tiles;
        let first_block = self.start_block + image_index * tiles;
        AssemblyPlan {
            rule: self,
            image_index: image_index as u32,
            first_block: first_block as u32,
            last_block: (first_block + tiles - 1) as u32,
            tile_index: tile_index as u32,
            row: (tile_index / (self.columns as int)) as u32,
            column: (tile_index % (self.columns as int)) as u32,
        }
    }

    fn plan_for(self, block_index: u32) -> (plan: Option<AssemblyPlan>)
        requires
            self.well_formed(),
        ensures
            plan == if self.spec_contains(block_index) {
                Some(self.spec_plan_for(block_index))
            } else {
                None::<AssemblyPlan>
            },
    {
        if !self.contains(block_index) {
            return None;
        }
        let offset = block_index - self.start_block;
        proof {
            lemma_tile_position(
                self.start_block as int,
                self.end_block as int,
                self.tiles_per_image as int,
                block_index as int,
            );
        }
        let image_index = offset / self.tiles_per_image;
        let tile_index = offset % self.tiles_per_image;
        let first_block = self.start_block + image_index * self.tiles_per_image;
        Some(
            AssemblyPlan {
                rule: self,
                image_index,
                first_block,
                last_block: first_block + self.tiles_per_image - 1,
                tile_index,
                row: tile_index / self.columns,
                column: tile_index % self.columns,
            },
        )
    }
}

/// Where a block falls when the range `start..=end` is cut into grids of `tiles` blocks.
proof fn lemma_tile_position(start: int, end: int, tiles: int, block: int)
    requires
        0 <= start <= block <= end,
        tiles > 0,
        (end - start + 1) % tiles == 0,
    ensures
        (block - start) == (block - start) / tiles * tiles + (block - start) % tiles,
        0 <= (block - start) % tiles < tiles,
        0 <= (block - start) / tiles,
        (block - start) / tiles * tiles + tiles <= end - start + 1,
{
    let offset = block - start;
    let length = end - start + 1;
    lemma_fundamental_div_mod(offset, tiles);
    lemma_fundamental_div_mod(length, tiles);
    lemma_mod_bound(offset, tiles);
    let q = offset / tiles;
    let k = length / tiles;
    assert(offset == tiles * q + offset % tiles);
    assert(length == tiles * k);
    assert(q * tiles + tiles <= length) by (nonlinear_arith)
        requires
            offset == tiles * q + offset % tiles,
            0 <= offset % tiles,
            offset < length,
            length == tiles * k,
            tiles > 0,
    {
        assert(tiles * q < tiles * k);
        assert(q < k);
        assert(tiles * (q + 1) <= tiles * k);
    }
    assert(q >= 0) by (nonlinear_arith)
        requires
            offset == tiles * q + offset % tiles,
            offset % tiles < tiles,
            offset >= 0,
            tiles > 0,
    ;
}

/// A plan places its block inside one completed image: the image's first and last blocks lie
/// within the rule, the block is the image's tile at `tile_index`, and that tile sits at
/// `row` and `column` of a row-major grid.
pub proof fn lemma_plan_locates_block(rule: AssemblyRule, block_index: u32)
    requires
        rule.well_formed(),
        rule.spec_contains(block_index),
    ensures
        ({
            let plan = rule.spec_plan_for(block_index);
            &&& rule.start_block <= plan.first_block <= block_index <= plan.last_block
                <= rule.end_block
            &&& plan.last_block - plan.first_block + 1 == rule.tiles_per_image
            &&& block_index == plan.first_block + plan.tile_index
            &&& plan.tile_index == plan.row * rule.columns + plan.column
            &&& plan.row < rule.rows
            &&& plan.column < rule.columns
            &&& plan.image_index < rule.spec_image_count()
        }),
{
    let tiles = rule.tiles_per_image as int;
    let columns = rule.columns as int;
    let rows = rule.rows as int;
    let offset = block_index - rule.start_block;
    let length = rule.end_block - rule.start_block + 1;
    lemma_tile_position(rule.start_block as int, rule.end_block as int, tiles, block_index as int);
    let q = offset / tiles;
    let t = offset % tiles;
    lemma_fundamental_div_mod(t, columns);
    lemma_mod_bound(t, columns);
    let r = t / columns;
    let c = t % columns;
    assert(r < rows && r >= 0) by (nonlinear_arith)
        requires
            t == columns * r + c,
            0 <= c < columns,
            0 <= t < tiles,
            tiles == columns * rows,
            columns > 0,
    {
        assert(columns * r <= t);
        assert(columns * r < columns * rows);
    }
    assert(t == r * columns + c) by (nonlinear_arith)
        requires
            t == columns * r + c,
    ;
    lemma_fundamental_div_mod(length, tiles);
    assert(q < length / tiles) by (nonlinear_arith)
        requires
            q * tiles + tiles <= length,
            length == tiles * (length / tiles),
            tiles > 0,
    {
        assert(tiles * (q + 1) <= tiles * (length / tiles));
    }
}

impl LayeredAssemblyRule {
    pub open spec fn spec_contains_source(self, file_number: u32, file_block_index: u32) -> bool {
        let end = if self.first_file_block_index + self.tile_count > u32::MAX {
            u32::MAX as int
        } else {
            self.first_file_block_index + self.tile_count
        };
        &&& (file_number == self.base_file_number || file_number == self.overlay_file_number)
        &&& self.first_file_block_index <= file_block_index
        &&& file_block_index < end
    }

    /// Whether a physical raw block contributes to this completed image.
    pub fn contains_source(self, file_number: u32, file_block_index: u32) -> (contained: bool)
        ensures
            contained == self.spec_contains_source(file_number, file_block_index),
    {
        let source_file = file_number == self.base_file_number || file_number
            == self.overlay_file_number;
        source_file && self.first_file_block_index <= file_block_index && file_block_index
            < self.first_file_block_index.saturating_add(self.tile_count)
    }
}

/// The assembly rules of the catalog, in lookup order.
pub open spec fn spec_assembly_rules() -> Seq<AssemblyRule> {
    seq![
        AssemblyRule::spec_verified_sd(4_027, 6_267, 3, 3, 378, 294),
        AssemblyRule::spec_verified_sd(6_277, 7_932, 3, 3, 384, 384),
        AssemblyRule::spec_verified_sd(7_933, 8_718, 3, 2, 320, 220),
        AssemblyRule::spec_verified_sd(10_156, 10_175, 2, 2, 155, 256),
        AssemblyRule::spec_verified_sd(10_203, 10_242, 2, 2, 248, 156),
        AssemblyRule::spec_verified_sd(10_368, 10_395, 7, 4, 782, 404),
        AssemblyRule::spec_verified_sd(10_396, 10_399, 2, 2, 256, 256),
        AssemblyRule::spec_verified_sd(10_400, 10_405, 3, 2, 294, 166),
        AssemblyRule::spec_verified_sd(10_406, 10_409, 2, 2, 166, 166),
        AssemblyRule::spec_verified_sd(10_439, 10_470, 8, 4, 1_024, 512),
        AssemblyRule::spec_verified_sd(10_617, 10_800, 2, 2, 192, 192),
        AssemblyRule::spec_verified_is(0, 11, 1_024, 768),
        AssemblyRule::spec_verified_is(12, 23, 1_024, 768),
        AssemblyRule::spec_verified_is(24, 35, 864, 664),
        AssemblyRule::spec_verified_is(36, 47, 864, 664),
        AssemblyRule::spec_verified_is(48, 59, 864, 664),
        AssemblyRule::spec_verified_is(60, 71, 864, 664),
        AssemblyRule::spec_verified_is(72, 83, 864, 664),
        AssemblyRule::spec_verified_is(84, 95, 864, 664),
        AssemblyRule::spec_verified_is(96, 107, 800, 600),
    ]
}

/// The assembly rules of the catalog, in lookup order.
pub fn assembly_rules() -> (rules: Vec<AssemblyRule>)
    ensures
        rules@ == spec_assembly_rules(),
{
    vec![
        AssemblyRule::verified_sd(4_027, 6_267, 3, 3, 378, 294),
        AssemblyRule::verified_sd(6_277, 7_932, 3, 3, 384, 384),
        AssemblyRule::verified_sd(7_933, 8_718, 3, 2, 320, 220),
        AssemblyRule::verified_sd(10_156, 10_175, 2, 2, 155, 256),
        AssemblyRule::verified_sd(10_203, 10_242, 2, 2, 248, 156),
        AssemblyRule::verified_sd(10_368, 10_395, 7, 4, 782, 404),
        AssemblyRule::verified_sd(10_396, 10_399, 2, 2, 256, 256),
        AssemblyRule::verified_sd(10_400, 10_405, 3, 2, 294, 166),
        AssemblyRule::verified_sd(10_406, 10_409, 2, 2, 166, 166),
        AssemblyRule::verified_sd(10_439, 10_470, 8, 4, 1_024, 512),
        AssemblyRule::verified_sd(10_617, 10_800, 2, 2, 192, 192),
        AssemblyRule::verified_is(0, 11, 1_024, 768),
        AssemblyRule::verified_is(12, 23, 1_024, 768),
        AssemblyRule::verified_is(24, 35, 864, 664),
        AssemblyRule::verified_is(36, 47, 864, 664),
        AssemblyRule::verified_is(48, 59, 864, 664),
        AssemblyRule::verified_is(60, 71, 864, 664),
        AssemblyRule::verified_is(72, 83, 864, 664),
        AssemblyRule::verified_is(84, 95, 864, 664),
        AssemblyRule::verified_is(96, 107, 800, 600),
    ]
}

/// Every assembly rule is a whole number of complete grids, and no two rules share a block.
pub proof fn lemma_assembly_rules_well_formed()
    ensures
        forall|i: int|
            0 <= i < spec_assembly_rules().len() ==> (#[trigger] spec_assembly_rules()[i]).well_formed(),
        forall|i: int, j: int|
            0 <= i < j < spec_assembly_rules().len() ==> (#[trigger] spec_assembly_rules()[i]).end_block
                < (#[trigger] spec_assembly_rules()[j]).start_block
                || spec_assembly_rules()[j].end_block < spec_assembly_rules()[i].start_block,
{
    let rules = spec_assembly_rules();
    assert forall|i: int| 0 <= i < rules.len() implies (#[trigger] rules[i]).well_formed() by {
        assert(rules[i].well_formed());
    }
    assert forall|i: int, j: int| 0 <= i < j < rules.len() implies (#[trigger] rules[i]).end_block
        < (#[trigger] rules[j]).start_block || rules[j].end_block < rules[i].start_block by {
        assert(rules[i].end_block < rules[j].start_block || rules[j].end_block
            < rules[i].start_block);
    }
}

/// The two-layer rules of the catalog, in lookup order.
pub open spec fn spec_layered_rules() -> Seq<LayeredAssemblyRule> {
    seq![
        LayeredAssemblyRule {
            archive: "kp",
            base_file_number: 0,
            overlay_file_number: 10,
            first_file_block_index: 0,
            tile_count: 2_048,
            columns: 64,
            rows: 32,
            output_width: 3_072,
            output_height: 1_536,
            canonical_block: 0,
            last_block: 4_095,
            status: VerificationStatus::HumanVerified,
        },
    ]
}

/// The two-layer rules of the catalog, in lookup order.
pub fn layered_rules() -> (rules: Vec<LayeredAssemblyRule>)
    ensures
        rules@ == spec_layered_rules(),
{
    vec![
        LayeredAssemblyRule {
            archive: "kp",
            base_file_number: 0,
            overlay_file_number: 10,
            first_file_block_index: 0,
            tile_count: 2_048,
            columns: 64,
            rows: 32,
            output_width: 3_072,
            output_height: 1_536,
            canonical_block: 0,
            last_block: 4_095,
            status: VerificationStatus::HumanVerified,
        },
    ]
}

/// The plan from the first rule of `rules` that belongs to `archive` (ignoring ASCII case),
/// has review state `status` and contains `block_index`.
pub open spec fn first_plan(
    rules: Seq<AssemblyRule>,
    archive: Seq<char>,
    block_index: u32,
    status: VerificationStatus,
) -> Option<AssemblyPlan>
    decreases rules.len(),
{
    if rules.len() == 0 {
        None
    } else {
        let rule = rules[0];
        if same_ascii_name(rule.archive@, archive) && rule.status == status && rule.spec_contains(
            block_index,
        ) {
            Some(rule.spec_plan_for(block_index))
        } else {
            first_plan(rules.drop_first(), archive, block_index, status)
        }
    }
}

fn find_plan_with_status(archive: &str, block_index: u32, status: VerificationStatus) -> (plan:
    Option<AssemblyPlan>)
    ensures
        plan == first_plan(spec_assembly_rules(), archive@, block_index, status),
{
    let rules = assembly_rules();
    proof {
        lemma_assembly_rules_well_formed();
    }
    let mut index: usize = 0;
    assert(rules@.subrange(0, rules@.len() as int) =~= rules@);
    while index < rules.len()
        invariant
            index <= rules@.len(),
            rules@ == spec_assembly_rules(),
            forall|i: int| 0 <= i < rules@.len() ==> (#[trigger] rules@[i]).well_formed(),
            first_plan(rules@, archive@, block_index, status) == first_plan(
                rules@.subrange(index as int, rules@.len() as int),
                archive@,
                block_index,
                status,
            ),
        decreases rules@.len() - index,
    {
        let rule = rules[index];
        let ghost rest = rules@.subrange(index as int, rules@.len() as int);
        assert(rest[0] == rule);
        assert(rest.drop_first() =~= rules@.subrange(index + 1, rules@.len() as int));
        if eq_ignore_ascii_case(rule.archive, archive) && rule.status == status {
            let plan = rule.plan_for(block_index);
            if plan.is_some() {
                return plan;
            }
        }
        index += 1;
    }
    None
}

/// The human-verified plan for one physical block.
pub fn find_plan(archive: &str, block_index: u32) -> (plan: Option<AssemblyPlan>)
    ensures
        plan == first_plan(
            spec_assembly_rules(),
            archive@,
            block_index,
            VerificationStatus::HumanVerified,
        ),
{
    find_plan_with_status(archive, block_index, VerificationStatus::HumanVerified)
}

/// An unreviewed candidate plan for one physical block.
pub fn find_candidate_plan(archive: &str, block_index: u32) -> (plan: Option<AssemblyPlan>)
    ensures
        plan == first_plan(
            spec_assembly_rules(),
            archive@,
            block_index,
            VerificationStatus::Candidate,
        ),
{
    find_plan_with_status(archive, block_index, VerificationStatus::Candidate)
}

/// The first human-verified layered rule of `rules` that belongs to `archive`.
pub open spec fn first_layered_rule(rules: Seq<LayeredAssemblyRule>, archive: Seq<char>) -> Option<
    LayeredAssemblyRule,
>
    decreases rules.len(),
{
    if rules.len() == 0 {
        None
    } else if same_ascii_name(rules[0].archive@, archive) && rules[0].status
        == VerificationStatus::HumanVerified {
        Some(rules[0])
    } else {
        first_layered_rule(rules.drop_first(), archive)
    }
}

/// The human-verified two-layer rule of an archive.
pub fn find_layered_rule(archive: &str) -> (rule: Option<LayeredAssemblyRule>)
    ensures
        rule == first_layered_rule(spec_layered_rules(), archive@),
{
    let rules = layered_rules();
    let mut index: usize = 0;
    assert(rules@.subrange(0, rules@.len() as int) =~= rules@);
    while index < rules.len()
        invariant
            index <= rules@.len(),
            rules@ == spec_layered_rules(),
            first_layered_rule(rules@, archive@) == first_layered_rule(
                rules@.subrange(index as int, rules@.len() as int),
                archive@,
            ),
        decreases rules@.len() - index,
    {
        let rule = rules[index];
        let ghost rest = rules@.subrange(index as int, rules@.len() as int);
        assert(rest[0] == rule);
        assert(rest.drop_first() =~= rules@.subrange(index + 1, rules@.len() as int));
        if eq_ignore_ascii_case(rule.archive, archive) && rule.status
            == VerificationStatus::HumanVerified {
            return Some(rule);
        }
        index += 1;
    }
    None
}


proof fn lemma_first_plan_source(
    rules: Seq<AssemblyRule>,
    archive: Seq<char>,
    block_index: u32,
    status: VerificationStatus,
)
    ensures
        first_plan(rules, archive, block_index, status) matches Some(plan) ==> exists|i: int|
            0 <= i < rules.len() && #[trigger] rules[i] == plan.rule && plan.rule.status == status
                && plan.rule.spec_contains(block_index) && plan == plan.rule.spec_plan_for(
                block_index,
            ),
        (forall|i: int| 0 <= i < rules.len() ==> (#[trigger] rules[i]).status != status)
            ==> first_plan(rules, archive, block_index, status) is None,
    decreases rules.len(),
{
    if rules.len() > 0 {
        lemma_first_plan_source(rules.drop_first(), archive, block_index, status);
        assert forall|i: int| 0 <= i < rules.len() - 1 implies rules.drop_first()[i] == rules[i
            + 1] by {}
        if (forall|i: int| 0 <= i < rules.len() ==> (#[trigger] rules[i]).status != status) {
            assert(rules[0].status != status);
            assert forall|i: int| 0 <= i < rules.drop_first().len() implies (
            #[trigger] rules.drop_first()[i]).status != status by {
                assert(rules[i + 1].status != status);
            }
        }
        if first_plan(rules, archive, block_index, status) is Some && !(same_ascii_name(
            rules[0].archive@,
            archive,
        ) && rules[0].status == status && rules[0].spec_contains(block_index)) {
            let plan = first_plan(rules, archive, block_index, status).unwrap();
            let i = choose|i: int|
                0 <= i < rules.drop_first().len() && #[trigger] rules.drop_first()[i] == plan.rule
                    && plan.rule.status == status && plan.rule.spec_contains(block_index) && plan
                    == plan.rule.spec_plan_for(block_index);
            assert(rules[i + 1] == plan.rule);
        }
    }
}

/// No assembly rule is an unreviewed candidate, so no candidate plan is ever offered.
pub proof fn lemma_no_candidate_plans(archive: Seq<char>, block_index: u32)
    ensures
        first_plan(spec_assembly_rules(), archive, block_index, VerificationStatus::Candidate)
            is None,
{
    let rules = spec_assembly_rules();
    assert forall|i: int| 0 <= i < rules.len() implies (#[trigger] rules[i]).status
        != VerificationStatus::Candidate by {
        assert(rules[i].status == VerificationStatus::HumanVerified);
    }
    lemma_first_plan_source(rules, archive, block_index, VerificationStatus::Candidate);
}

/// A verified plan comes from the only assembly rule whose range contains the block, and
/// places the block as `lemma_plan_locates_block` describes.
pub proof fn lemma_verified_plan_is_unique(archive: Seq<char>, block_index: u32)
    ensures
        first_plan(
            spec_assembly_rules(),
            archive,
            block_index,
            VerificationStatus::HumanVerified,
        ) matches Some(plan) ==> {
            &&& plan == plan.rule.spec_plan_for(block_index)
            &&& plan.rule.well_formed()
            &&& plan.rule.spec_contains(block_index)
            &&& forall|k: int|
                0 <= k < spec_assembly_rules().len() && (#[trigger] spec_assembly_rules()[k]).spec_contains(
                    block_index,
                ) ==> spec_assembly_rules()[k] == plan.rule
        },
{
    let rules = spec_assembly_rules();
    lemma_assembly_rules_well_formed();
    lemma_first_plan_source(rules, archive, block_index, VerificationStatus::HumanVerified);
    if first_plan(rules, archive, block_index, VerificationStatus::HumanVerified) is Some {
        let plan = first_plan(rules, archive, block_index, VerificationStatus::HumanVerified).unwrap();
        let i = choose|i: int|
            0 <= i < rules.len() && #[trigger] rules[i] == plan.rule && plan.rule.status
                == VerificationStatus::HumanVerified && plan.rule.spec_contains(block_index) && plan
                == plan.rule.spec_plan_for(block_index);
        assert(rules[i].well_formed());
        assert forall|k: int|
            0 <= k < rules.len() && (#[trigger] rules[k]).spec_contains(block_index) implies rules[k]
            == plan.rule by {
            if k < i {
                assert(rules[k].end_block < rules[i].start_block || rules[i].end_block
                    < rules[k].start_block);
            } else if i < k {
                assert(rules[i].end_block < rules[k].start_block || rules[k].end_block
                    < rules[i].start_block);
            }
        }
    }
}
} // verus!
