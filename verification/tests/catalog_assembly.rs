use dho_vault::catalog::assembly::{
    assembly_rules, find_candidate_plan, find_layered_rule, find_plan,
};
use dho_vault::catalog::VerificationStatus;

#[test]
fn verified_rules_have_complete_non_overlapping_grids() {
    let rules = assembly_rules();
    for (index, rule) in rules.iter().copied().enumerate() {
        assert_eq!(rule.tiles_per_image, rule.columns * rule.rows);
        assert_eq!(
            (rule.end_block - rule.start_block + 1) % rule.tiles_per_image,
            0
        );
        assert!(rule.output_width > 0);
        assert!(rule.output_height > 0);

        for next in rules.iter().copied().skip(index + 1) {
            assert!(rule.end_block < next.start_block || next.end_block < rule.start_block);
        }
    }
}

#[test]
fn resolves_all_verified_is_images_without_leaving_candidates() {
    let expected = [
        (0, 11, 1_024, 768),
        (12, 23, 1_024, 768),
        (24, 35, 864, 664),
        (36, 47, 864, 664),
        (48, 59, 864, 664),
        (60, 71, 864, 664),
        (72, 83, 864, 664),
        (84, 95, 864, 664),
        (96, 107, 800, 600),
    ];

    for (first_block, last_block, width, height) in expected {
        let plan = find_plan("IS", first_block).expect("verified IS plan");
        assert_eq!(plan.first_block, first_block);
        assert_eq!(plan.last_block, last_block);
        assert_eq!(plan.rule.output_width, width);
        assert_eq!(plan.rule.output_height, height);
        assert_eq!(plan.rule.status, VerificationStatus::HumanVerified);
        assert_eq!(find_candidate_plan("is", first_block), None);
    }
}

#[test]
fn resolves_the_verified_kp_layered_world_map() {
    let rule = find_layered_rule("KP").expect("verified KP layered rule");

    assert_eq!((rule.columns, rule.rows), (64, 32));
    assert_eq!(rule.tile_count, rule.columns * rule.rows);
    assert_eq!((rule.output_width, rule.output_height), (3_072, 1_536));
    assert!(rule.contains_source(0, 0));
    assert!(rule.contains_source(10, 2_047));
    assert!(!rule.contains_source(100_000, 0));
    assert!(!rule.contains_source(10, 2_048));
}
