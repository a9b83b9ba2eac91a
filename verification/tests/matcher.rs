use openlabels_core::matcher::{PatternMatcher, PatternSpec};

fn spec(regex: &str, entity: &str, conf: u32, group: usize) -> PatternSpec {
    PatternSpec {
        regex: regex.to_string(),
        entity_type: entity.to_string(),
        base_confidence: conf,
        capture_group_index: group,
        validator: None,
    }
}

#[test]
fn test_pattern_compilation() {
    let patterns = vec![
        spec(r"\d{3}-\d{2}-\d{4}", "SSN", 95, 0),
        spec(r"\d{16}", "CREDIT_CARD", 90, 0),
        spec(r"[a-z]+@[a-z]+\.[a-z]+", "EMAIL", 95, 0),
    ];

    let compiled = PatternMatcher::new(patterns).unwrap();
    assert_eq!(compiled.pattern_count(), 3);
}

#[test]
fn test_find_matches() {
    let patterns = vec![
        spec(r"\d{3}-\d{2}-\d{4}", "SSN", 95, 0),
        spec(r"\b[a-z]+@[a-z]+\.[a-z]+\b", "EMAIL", 95, 0),
    ];

    let compiled = PatternMatcher::new(patterns).unwrap();
    let text = "SSN: 123-45-6789, email: test@example.com";
    let matches = compiled.find_matches(text.as_bytes());

    assert_eq!(matches.len(), 2);
}

#[test]
fn test_capture_groups() {
    let patterns = vec![
        // Pattern with capture group 1 - extract just the SSN digits
        spec(r"SSN:\s*(\d{3}-\d{2}-\d{4})", "SSN", 95, 1),
    ];

    let compiled = PatternMatcher::new(patterns).unwrap();
    let text = "SSN: 123-45-6789";
    let matches = compiled.find_matches(text.as_bytes());

    assert_eq!(matches.len(), 1);
    assert_eq!(matches[0].text, b"123-45-6789".to_vec());
    assert_eq!(matches[0].start, 5); // Position of "123" after "SSN: "
}

#[test]
fn test_failed_pattern_counted_not_fatal() {
    let patterns = vec![
        spec(r"\d{3}-\d{2}-\d{4}", "SSN", 95, 0),
        spec(r"([unclosed", "BROKEN", 90, 0),
        spec(r"[a-z]+@[a-z]+\.[a-z]+", "EMAIL", 95, 0),
    ];
    let compiled = PatternMatcher::new(patterns).unwrap();
    assert_eq!(compiled.pattern_count(), 2);
    assert_eq!(compiled.failed_count(), 1);
    assert!(compiled.has_pattern(0));
    assert!(!compiled.has_pattern(1));
    assert!(compiled.has_pattern(2));
    assert!(!compiled.has_pattern(3));
    // The surviving patterns still match.
    let matches = compiled.find_matches(b"ssn 123-45-6789 mail a@b.co");
    assert_eq!(matches.len(), 2);
}

#[test]
fn test_match_spans_are_exact_and_nonblank() {
    let patterns = vec![spec(r"\s*\d+\s*", "NUMBER", 80, 0), spec(r" +", "BLANK", 80, 0)];
    let compiled = PatternMatcher::new(patterns).unwrap();
    let text = b"  42   007 ".to_vec();
    let matches = compiled.find_matches(&text);
    // The all-whitespace pattern's hits are dropped; the number hits
    // carry their exact byte ranges.
    for m in &matches {
        assert!(m.start < m.end && m.end <= text.len());
        assert_eq!(m.text, text[m.start..m.end].to_vec());
        assert!(m.text.iter().any(|b| !b.is_ascii_whitespace()));
        assert_eq!(m.entity_type, "NUMBER");
    }
    assert_eq!(matches.len(), 2);
}

#[test]
fn test_unicode_whitespace_only_matches_dropped() {
    let compiled = PatternMatcher::new(vec![spec(r"\s+", "BLANK", 80, 0)]).unwrap();
    // Space, no-break space, em space, line separator: whitespace-only.
    let text = " \u{00A0}\u{2003}\u{2028} ".as_bytes().to_vec();
    let matches = compiled.find_matches(&text);
    assert!(matches.is_empty());
    // A run holding non-whitespace bytes survives with its exact range.
    let compiled2 = PatternMatcher::new(vec![spec(r"\S+", "WORD", 80, 0)]).unwrap();
    let matches2 = compiled2.find_matches("\u{00A0}hello\u{00A0}".as_bytes());
    assert_eq!(matches2.len(), 1);
    assert_eq!(matches2[0].text, b"hello".to_vec());
}

#[test]
fn test_compile_twice_same_results() {
    let make = || {
        vec![
            spec(r"\d{3}-\d{2}-\d{4}", "SSN", 95, 0),
            spec(r"[a-z]+@[a-z]+\.[a-z]+", "EMAIL", 95, 0),
        ]
    };
    let c1 = PatternMatcher::new(make()).unwrap();
    let c2 = PatternMatcher::new(make()).unwrap();
    let text = b"a@b.com and 123-45-6789 and c@d.org";
    let m1 = c1.find_matches(text);
    let m2 = c2.find_matches(text);
    assert_eq!(m1.len(), m2.len());
    for (a, b) in m1.iter().zip(m2.iter()) {
        assert_eq!(
            (a.pattern_id, a.start, a.end, &a.text, &a.entity_type, a.confidence),
            (b.pattern_id, b.start, b.end, &b.text, &b.entity_type, b.confidence)
        );
    }
}

#[test]
fn test_validator_boosts_and_rejects() {
    let mut ssn = spec(r"\d{3}-\d{2}-\d{4}", "SSN", 85, 0);
    ssn.validator = Some("ssn".to_string());
    let compiled = PatternMatcher::new(vec![ssn]).unwrap();
    // A structurally valid SSN is boosted by 10 (capped at 100).
    let matches = compiled.find_matches(b"123-45-6789");
    assert_eq!(matches.len(), 1);
    assert_eq!(matches[0].confidence, 95);
    // An invalid area is rejected outright.
    let matches = compiled.find_matches(b"000-45-6789");
    assert!(matches.is_empty());
}

#[test]
fn test_unknown_validator_passes_through() {
    let mut p = spec(r"\d+", "NUMBER", 70, 0);
    p.validator = Some("definitely_not_a_validator".to_string());
    let compiled = PatternMatcher::new(vec![p]).unwrap();
    let matches = compiled.find_matches(b"12345");
    assert_eq!(matches.len(), 1);
    assert_eq!(matches[0].confidence, 70); // no boost, no rejection
}

#[test]
fn test_might_contain_patterns_prefilter() {
    let compiled = PatternMatcher::new(vec![spec(r"\d{3}-\d{2}-\d{4}", "SSN", 95, 0)]).unwrap();
    // None of the pre-filter literals (@ - . / : space) occur.
    assert!(!compiled.might_contain_patterns(b"plaintext"));
    assert!(compiled.might_contain_patterns(b"123-45-6789"));
    assert!(compiled.might_contain_patterns(b"a@b"));
}

#[test]
fn test_find_matches_batch_order() {
    let compiled = PatternMatcher::new(vec![spec(r"\d{3}-\d{2}-\d{4}", "SSN", 95, 0)]).unwrap();
    let texts = vec![
        b"123-45-6789".to_vec(),
        b"nothing here".to_vec(),
        b"a 999-88-7777 b".to_vec(),
    ];
    let results = compiled.find_matches_batch(&texts);
    assert_eq!(results.len(), 3);
    assert_eq!(results[0].len(), 1);
    assert!(results[1].is_empty());
    assert_eq!(results[2].len(), 1);
    assert_eq!(results[2][0].text, b"999-88-7777".to_vec());
}

#[test]
fn test_pattern_names() {
    let compiled = PatternMatcher::new(vec![
        spec(r"\d{3}-\d{2}-\d{4}", "SSN", 95, 0),
        spec(r"[a-z]+@[a-z]+\.[a-z]+", "EMAIL", 95, 0),
    ])
    .unwrap();
    let names = compiled.pattern_names();
    assert_eq!(names, vec!["SSN".to_string(), "EMAIL".to_string()]);
}
