use ilegalflow::model::max_severity;
use ilegalflow::model::RiskFlag;
use ilegalflow::model::TrademarkRecord;
use ilegalflow::model::TrademarkStatus;
use ilegalflow::model::SCORE_UNIT;

#[test]
fn test_status_from_str() {
    assert_eq!(TrademarkStatus::from("LIVE"), TrademarkStatus::Live);
    assert_eq!(TrademarkStatus::from("dead"), TrademarkStatus::Dead);
    assert_eq!(TrademarkStatus::from("Pending"), TrademarkStatus::Pending);
    assert_eq!(TrademarkStatus::from("unknown"), TrademarkStatus::Unknown);
}

#[test]
fn test_risk_flag_severity() {
    assert!(
        RiskFlag::ExactMatch.severity()
            > RiskFlag::PhoneticMatch { algorithm: "soundex".into(), code: "A250".into() }
                .severity()
    );
}

#[test]
fn severity_values_are_fixed() {
    assert_eq!(RiskFlag::ExactMatch.severity(), SCORE_UNIT);
    assert_eq!(RiskFlag::FamousMark.severity(), 950_000);
    assert_eq!(
        RiskFlag::PhoneticMatch { algorithm: "soundex".into(), code: "N200".into() }.severity(),
        800_000
    );
    assert_eq!(RiskFlag::DominantTermMatch { term: "ACME".into() }.severity(), 700_000);
    assert_eq!(RiskFlag::ClassOverlap { classes: vec![42] }.severity(), 600_000);
    assert_eq!(RiskFlag::FuzzyMatch { distance: 1 }.severity(), 400_000);
    assert_eq!(RiskFlag::FuzzyMatch { distance: 2 }.severity(), 300_000);
    assert_eq!(RiskFlag::FuzzyMatch { distance: 7 }.severity(), 0);
    assert_eq!(RiskFlag::GoodsServicesSimilar { similarity: 500_000 }.severity(), 250_000);
    assert_eq!(RiskFlag::CommonLawRisk.severity(), 400_000);
}

#[test]
fn severity_never_exceeds_one_unit() {
    assert!(RiskFlag::GoodsServicesSimilar { similarity: u32::MAX }.severity() <= SCORE_UNIT);
    assert_eq!(RiskFlag::FuzzyMatch { distance: usize::MAX }.severity(), 0);
}

#[test]
fn flag_labels_are_fixed() {
    assert_eq!(RiskFlag::ExactMatch.label(), "Exact Match");
    assert_eq!(RiskFlag::FuzzyMatch { distance: 2 }.label(), "Spelled Similarly");
    assert_eq!(RiskFlag::CommonLawRisk.label(), "Common Law Risk");
}

#[test]
fn max_severity_takes_the_largest() {
    assert_eq!(max_severity(&[]), 0);
    let flags = vec![
        RiskFlag::FuzzyMatch { distance: 2 },
        RiskFlag::PhoneticMatch { algorithm: "soundex".into(), code: "N200".into() },
        RiskFlag::ClassOverlap { classes: vec![25] },
    ];
    assert_eq!(max_severity(&flags), 800_000);
}

#[test]
fn record_effective_mark_text_prefers_normalized() {
    let mut record = TrademarkRecord::new("12345678", "ACME Inc.");
    assert_eq!(record.effective_mark_text(), "ACME Inc.");
    record.mark_text_normalized = Some("ACME INC".to_string());
    assert_eq!(record.effective_mark_text(), "ACME INC");
}

#[test]
fn record_new_is_minimal() {
    let record = TrademarkRecord::new("12345678", "ACME");
    assert_eq!(record.serial_number, "12345678");
    assert_eq!(record.mark_text, "ACME");
    assert_eq!(record.status, TrademarkStatus::Unknown);
    assert!(record.classes.is_empty());
    assert!(!record.is_design_mark);
    assert_eq!(record.registration_number, None);
}
