use openlabels_core::scoring::{
    normalize_entity, score_entities, score_entities_batch, Category, RuleKind, Tier,
};

#[test]
fn test_score_single_ssn() {
    let entities = vec![("SSN".to_string(), 1)];
    let result = score_entities(&entities, "PRIVATE", 85);
    // weight=10, scale=4, aggregation=1+ln(1)=1, conf=0.85
    // base = 10 * 4 * 1 * 0.85 = 34.0
    // co_mult = 1.0 (just direct_identifier, no co-occurrence)
    // content = 34.0
    // exp = 1.0 (PRIVATE)
    // final = 34.0 => MEDIUM
    assert_eq!(result.score, 34);
    assert_eq!(result.tier, Tier::Medium);
    assert_eq!(result.tier.label(), "MEDIUM");
}

#[test]
fn test_score_hipaa_phi() {
    let entities = vec![("SSN".to_string(), 1), ("DIAGNOSIS".to_string(), 1)];
    let result = score_entities(&entities, "PRIVATE", 85);
    // SSN: 10*4*1*0.85 = 34
    // DIAGNOSIS: 9*4*1*0.85 = 30.6
    // base = 64.6
    // co_mult = 2.0 (hipaa_phi)
    // content = min(100, 64.6 * 2.0) = 100
    assert_eq!(result.score, 100);
    assert_eq!(result.tier, Tier::Critical);
    assert_eq!(result.tier.label(), "CRITICAL");
    assert_eq!(result.triggered_rules, vec![RuleKind::HipaaPhi]);
}

#[test]
fn test_score_empty() {
    let entities = vec![];
    let result = score_entities(&entities, "PRIVATE", 85);
    assert_eq!(result.score, 0);
    assert_eq!(result.tier, Tier::Minimal);
    assert_eq!(result.tier.label(), "MINIMAL");
    assert_eq!(result.exposure_multiplier_tenths, 10);
    assert_eq!(result.co_occurrence_multiplier_tenths, 10);
    assert!(result.triggered_rules.is_empty());
    assert!(result.categories.is_empty());
}

#[test]
fn test_score_exposure_multipliers() {
    let entities = vec![("SSN".to_string(), 1)];
    // PUBLIC multiplies by 2.5: 34 * 2.5 = 85 => CRITICAL
    let result = score_entities(&entities, "PUBLIC", 85);
    assert_eq!(result.score, 85);
    assert_eq!(result.tier, Tier::Critical);
    assert_eq!(result.exposure_multiplier_tenths, 25);
    // Unknown exposure falls back to 1.0, case-insensitively looked up.
    let result = score_entities(&entities, "whatever", 85);
    assert_eq!(result.score, 34);
    let result = score_entities(&entities, "public", 85);
    assert_eq!(result.score, 85);
}

#[test]
fn test_score_aliases_and_categories() {
    // US_SSN normalizes to SSN; IP to IP_ADDRESS.
    assert_eq!(normalize_entity("us_ssn"), b"SSN".to_vec());
    assert_eq!(normalize_entity("IP"), b"IP_ADDRESS".to_vec());
    assert_eq!(normalize_entity("unheard_of"), b"UNHEARD_OF".to_vec());
    let entities = vec![("US_SSN".to_string(), 1)];
    let result = score_entities(&entities, "PRIVATE", 85);
    assert_eq!(result.score, 34);
    assert_eq!(result.categories, vec![Category::DirectIdentifier]);
}

#[test]
fn test_score_unknown_type_default_weight() {
    // Unrecognized types weigh 5: 5*4*1*0.85 = 17 => LOW.
    let entities = vec![("MYSTERY_TYPE".to_string(), 1)];
    let result = score_entities(&entities, "PRIVATE", 85);
    assert_eq!(result.score, 17);
    assert_eq!(result.tier, Tier::Low);
    assert!(result.categories.is_empty());
}

#[test]
fn test_score_classified_data_rule() {
    // classification_marking alone fires the strongest rule (2.5x).
    let entities = vec![("CLASSIFICATION_LEVEL".to_string(), 1)];
    let result = score_entities(&entities, "PRIVATE", 85);
    // base = 4*4*1*0.85 = 13.6; content = min(100, 13.6*2.5) = 34
    assert_eq!(result.score, 34);
    assert_eq!(result.co_occurrence_multiplier_tenths, 25);
    assert_eq!(result.triggered_rules, vec![RuleKind::ClassifiedData]);
}

#[test]
fn test_score_tied_rules_all_reported() {
    // credential (1.5) and quasi+health (1.5) tie at the maximum.
    let entities = vec![
        ("PASSWORD".to_string(), 1),
        ("NAME".to_string(), 1),
        ("DIAGNOSIS".to_string(), 1),
    ];
    let result = score_entities(&entities, "PRIVATE", 85);
    assert_eq!(result.co_occurrence_multiplier_tenths, 15);
    assert_eq!(
        result.triggered_rules,
        vec![RuleKind::CredentialExposure, RuleKind::PhiWithoutId]
    );
}

#[test]
fn test_score_repeated_counts_diminish() {
    // Two SSNs score less than twice one SSN: 10*4*(1+ln 2)*0.85 = 57.5ish.
    let one = score_entities(&vec![("SSN".to_string(), 1)], "PRIVATE", 85);
    let two = score_entities(&vec![("SSN".to_string(), 2)], "PRIVATE", 85);
    assert!(two.score > one.score);
    assert!(two.score < 2 * one.score);
    assert_eq!(two.score, 58);
}

#[test]
fn test_tier_follows_rounded_score() {
    // 2 SSNs at confidence 0.98 under INTERNAL land at 79.638 points:
    // the score rounds to 80, and the tier follows the rounded score.
    let result = score_entities(&vec![("SSN".to_string(), 2)], "INTERNAL", 98);
    assert_eq!(result.score, 80);
    assert_eq!(result.tier, Tier::Critical);
}

#[test]
fn test_score_monotone_at_table_seam() {
    // The fixed-point ln is clamped so a higher count never scores
    // lower, including across the table's last entry.
    let ten = score_entities(&vec![("NPI".to_string(), 10)], "PRIVATE", 44);
    let eleven = score_entities(&vec![("NPI".to_string(), 11)], "PRIVATE", 44);
    assert!(eleven.score >= ten.score);
    assert_eq!(ten.score, 47);
    assert_eq!(eleven.score, 47);
}

#[test]
fn test_score_batch_order() {
    let batch = vec![
        (vec![("SSN".to_string(), 1)], "PRIVATE".to_string(), 85),
        (vec![], "PRIVATE".to_string(), 85),
        (
            vec![("SSN".to_string(), 1), ("DIAGNOSIS".to_string(), 1)],
            "PRIVATE".to_string(),
            85,
        ),
    ];
    let results = score_entities_batch(&batch);
    assert_eq!(results.len(), 3);
    assert_eq!(results[0].score, 34);
    assert_eq!(results[1].score, 0);
    assert_eq!(results[2].score, 100);
}
