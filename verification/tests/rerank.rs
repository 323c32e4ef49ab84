use ilegalflow::model::CandidateHit;
use ilegalflow::model::RiskFlag;
use ilegalflow::model::SearchQuery;
use ilegalflow::model::TrademarkRecord;
use ilegalflow::model::TrademarkStatus;
use ilegalflow::model::SCORE_UNIT;
use ilegalflow::rerank::rerank;
use ilegalflow::rerank::RerankConfig;

fn make_record(serial: &str, mark: &str, classes: Vec<u16>) -> TrademarkRecord {
    TrademarkRecord {
        serial_number: serial.to_string(),
        registration_number: None,
        mark_text: mark.to_string(),
        mark_text_normalized: None,
        status: TrademarkStatus::Live,
        status_code: None,
        classes,
        goods_services: String::new(),
        owner_name: String::new(),
        filing_date: None,
        registration_date: None,
        status_date: None,
        is_design_mark: false,
    }
}

fn retrieval(score: f32) -> u32 {
    score.to_bits()
}

#[test]
fn test_exact_match_highest_risk() {
    let query = SearchQuery::new("NIKE").with_classes(vec![25]);
    let candidates = vec![(make_record("001", "NIKE", vec![25]), retrieval(1.0))];
    let config = RerankConfig::default();

    let hits = rerank(&query, candidates, &config);
    assert_eq!(hits.len(), 1);
    assert_eq!(hits[0].risk_score, SCORE_UNIT);
    assert!(hits[0].flags.contains(&RiskFlag::ExactMatch));
}

#[test]
fn lib_test_phonetic_match() {
    let query = SearchQuery::new("NIKE").with_classes(vec![25]);
    let candidates = vec![(make_record("001", "NYKE", vec![25]), retrieval(1.0))];
    let config = RerankConfig::default();

    let hits = rerank(&query, candidates, &config);
    assert!(hits[0].flags.iter().any(|f| matches!(f, RiskFlag::PhoneticMatch { .. })));
}

#[test]
fn lib_test_class_overlap() {
    let query = SearchQuery::new("ACME").with_classes(vec![9, 42]);
    let candidates = vec![(make_record("001", "WIDGET", vec![42, 35]), retrieval(1.0))];
    let config = RerankConfig::default();

    let hits = rerank(&query, candidates, &config);
    assert!(
        hits[0].flags.iter().any(
            |f| matches!(f, RiskFlag::ClassOverlap { classes } if classes.contains(&42))
        )
    );
}

#[test]
fn exact_match_carries_no_other_flag() {
    let query = SearchQuery::new("NIKE").with_classes(vec![25]);
    let candidates = vec![(make_record("001", "nike", vec![25]), retrieval(0.5))];
    let hits = rerank(&query, candidates, &RerankConfig::default());
    assert_eq!(hits[0].flags, vec![RiskFlag::ExactMatch]);
    assert_eq!(hits[0].risk_score, SCORE_UNIT);
}

#[test]
fn near_miss_scores_the_expected_weights() {
    // NYKE against NIKE: phonetic 0.30, fuzzy 0.20 * (1 - 1/4) = 0.15,
    // class overlap 0.25, no dominant-term match: 0.70 of a unit.
    let query = SearchQuery::new("NIKE").with_classes(vec![25]);
    let candidates = vec![(make_record("001", "NYKE", vec![25]), retrieval(1.0))];
    let hits = rerank(&query, candidates, &RerankConfig::default());
    assert_eq!(hits[0].risk_score, 700_000);
    assert_eq!(hits[0].flags.len(), 3);
    assert!(matches!(hits[0].flags[0], RiskFlag::PhoneticMatch { .. }));
    assert_eq!(hits[0].flags[1], RiskFlag::FuzzyMatch { distance: 1 });
    assert_eq!(hits[0].flags[2], RiskFlag::ClassOverlap { classes: vec![25] });
}

#[test]
fn phonetic_flag_names_a_known_algorithm() {
    let query = SearchQuery::new("NIKE").with_classes(vec![25]);
    let candidates = vec![(make_record("001", "NYKE", vec![25]), retrieval(1.0))];
    let hits = rerank(&query, candidates, &RerankConfig::default());
    let named = hits[0].flags.iter().any(|f| match f {
        RiskFlag::PhoneticMatch { algorithm, .. } => {
            algorithm == "soundex" || algorithm == "metaphone"
        },
        _ => false,
    });
    assert!(named);
}

#[test]
fn class_overlap_without_text_match() {
    let query = SearchQuery::new("ACME").with_classes(vec![9, 42]);
    let candidates = vec![(make_record("001", "WIDGET", vec![42, 35]), retrieval(1.0))];
    let hits = rerank(&query, candidates, &RerankConfig::default());
    assert_eq!(hits[0].flags, vec![RiskFlag::ClassOverlap { classes: vec![42] }]);
    assert!(!hits[0].flags.iter().any(|f| matches!(f, RiskFlag::ExactMatch)));
    assert!(!hits[0].flags.iter().any(|f| matches!(f, RiskFlag::PhoneticMatch { .. })));
}

#[test]
fn scores_stay_within_one_unit() {
    // Every signal fires and the weights sum far above one unit.
    let config = RerankConfig {
        phonetic_weight: SCORE_UNIT,
        fuzzy_weight: SCORE_UNIT,
        class_weight: SCORE_UNIT,
        dominant_weight: SCORE_UNIT,
        max_edit_distance: 10,
    };
    let query = SearchQuery::new("ACME WIDGET").with_classes(vec![9]);
    let candidates = vec![
        (make_record("001", "ACME WIDGETS", vec![9]), retrieval(1.0)),
        (make_record("002", "ZZZZZZZZ", vec![1]), retrieval(0.1)),
    ];
    let hits = rerank(&query, candidates, &config);
    for hit in &hits {
        assert!(hit.risk_score <= SCORE_UNIT);
    }
}

#[test]
fn dominant_term_match_scores() {
    let query = SearchQuery::new("ACME Corporation");
    let candidates = vec![(make_record("001", "ACME Ltd", vec![]), retrieval(1.0))];
    let hits = rerank(&query, candidates, &RerankConfig::default());
    assert!(
        hits[0].flags.iter().any(
            |f| matches!(f, RiskFlag::DominantTermMatch { term } if term == "ACME")
        )
    );
}

#[test]
fn output_is_sorted_by_descending_risk() {
    let query = SearchQuery::new("NIKE").with_classes(vec![25]);
    let candidates = vec![
        (make_record("001", "ZEBRA", vec![1]), retrieval(0.9)),
        (make_record("002", "NIKE", vec![25]), retrieval(0.5)),
        (make_record("003", "NYKE", vec![25]), retrieval(0.7)),
    ];
    let hits = rerank(&query, candidates, &RerankConfig::default());
    assert_eq!(hits.len(), 3);
    assert_eq!(hits[0].record.serial_number, "002");
    assert_eq!(hits[1].record.serial_number, "003");
    assert_eq!(hits[2].record.serial_number, "001");
    for w in hits.windows(2) {
        assert!(w[0].risk_score >= w[1].risk_score);
    }
}

#[test]
fn equal_scores_keep_input_order() {
    let query = SearchQuery::new("NIKE").with_classes(vec![25]);
    // Both candidates trigger exactly the class-overlap signal.
    let candidates = vec![
        (make_record("A1", "ALPHA", vec![25]), retrieval(0.1)),
        (make_record("B2", "OMEGA", vec![25]), retrieval(0.9)),
        (make_record("C3", "KAPPA", vec![25]), retrieval(0.4)),
    ];
    let hits = rerank(&query, candidates, &RerankConfig::default());
    assert_eq!(hits.len(), 3);
    assert_eq!(hits[0].risk_score, hits[1].risk_score);
    assert_eq!(hits[1].risk_score, hits[2].risk_score);
    assert_eq!(hits[0].record.serial_number, "A1");
    assert_eq!(hits[1].record.serial_number, "B2");
    assert_eq!(hits[2].record.serial_number, "C3");
}

#[test]
fn output_length_equals_input_length() {
    let query = SearchQuery::new("NIKE");
    let candidates: Vec<(TrademarkRecord, u32)> = (0..7)
        .map(|i| (make_record(&format!("{:03}", i), "MARK", vec![]), retrieval(i as f32)))
        .collect();
    let hits: Vec<CandidateHit> = rerank(&query, candidates, &RerankConfig::default());
    assert_eq!(hits.len(), 7);
}

#[test]
fn retrieval_score_passes_through_unchanged() {
    let query = SearchQuery::new("NIKE");
    let raw = retrieval(0.73);
    let candidates = vec![(make_record("001", "NIKE", vec![]), raw)];
    let hits = rerank(&query, candidates, &RerankConfig::default());
    assert_eq!(hits[0].retrieval_score, raw);
    assert_eq!(f32::from_bits(hits[0].retrieval_score), 0.73);
}

#[test]
fn no_signal_means_zero_score() {
    let query = SearchQuery::new("NIKE").with_classes(vec![25]);
    let candidates = vec![(make_record("001", "COMPLETELYDIFFERENT", vec![1]), retrieval(1.0))];
    let hits = rerank(&query, candidates, &RerankConfig::default());
    assert_eq!(hits[0].risk_score, 0);
    assert!(hits[0].flags.is_empty());
}

#[test]
fn default_config_values() {
    let config = RerankConfig::default();
    assert_eq!(config.phonetic_weight, 300_000);
    assert_eq!(config.fuzzy_weight, 200_000);
    assert_eq!(config.class_weight, 250_000);
    assert_eq!(config.dominant_weight, 250_000);
    assert_eq!(config.max_edit_distance, 3);
}

#[test]
fn fuzzy_contribution_decreases_with_distance() {
    // Only the fuzzy signal fires; one edit scores more than two.
    let config = RerankConfig { phonetic_weight: 0, ..RerankConfig::default() };
    let query = SearchQuery::new("ABCDEFGH");
    let one = rerank(
        &query,
        vec![(make_record("001", "ABCDEFGX", vec![]), retrieval(1.0))],
        &config,
    );
    let two = rerank(
        &query,
        vec![(make_record("002", "ABCDEFXX", vec![]), retrieval(1.0))],
        &config,
    );
    assert_eq!(one[0].risk_score, 150_000);
    assert_eq!(two[0].risk_score, 100_000);
    assert!(one[0].risk_score > two[0].risk_score);
}
