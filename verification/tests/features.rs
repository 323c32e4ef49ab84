use ilegalflow::distance::edit_distance;
use ilegalflow::features::class_overlap;
use ilegalflow::features::extract_dominant_term;
use ilegalflow::features::generate_ngrams;
use ilegalflow::phonetic::compute_phonetics;
use ilegalflow::phonetic::phonetic_match;
use ilegalflow::text::normalize_text;

#[test]
fn test_phonetic_match() {
    // These should match phonetically
    assert!(phonetic_match("SMITH", "SMYTH").is_some());
    assert!(phonetic_match("NIKE", "NYKE").is_some());
}

#[test]
fn test_normalize_text() {
    assert_eq!(normalize_text("  Hello,  World!  "), "HELLO WORLD");
    assert_eq!(normalize_text("ACME Inc."), "ACME INC");
}

#[test]
fn test_dominant_term() {
    assert_eq!(extract_dominant_term("ACME Corporation"), Some("ACME".to_string()));
    assert_eq!(extract_dominant_term("The Widget Company Inc"), Some("WIDGET".to_string()));
}

#[test]
fn test_ngrams() {
    let ngrams = generate_ngrams("NIKE", 2);
    assert_eq!(ngrams, vec!["NI", "IK", "KE"]);
}

#[test]
fn test_edit_distance() {
    assert_eq!(edit_distance("NIKE", "NIKE"), 0);
    assert_eq!(edit_distance("NIKE", "NYKE"), 1);
    // two insertions and three substitutions turn NIKE into ADIDAS
    assert_eq!(edit_distance("NIKE", "ADIDAS"), 5);
}

#[test]
fn test_class_overlap() {
    assert_eq!(class_overlap(&[9, 25, 42], &[25, 35, 42]), vec![25, 42]);
    assert_eq!(class_overlap(&[1, 2], &[3, 4]), Vec::<u16>::new());
}

#[test]
fn normalize_is_idempotent_on_samples() {
    for text in [
        "  Hello,  World!  ",
        "ACME Inc.",
        "a--b  c!!d",
        "",
        "   ",
        "Café Déjà Vu",
        "tabs\tand\nlines",
    ] {
        let once = normalize_text(text);
        let twice = normalize_text(&once);
        assert_eq!(twice, once);
    }
}

#[test]
fn normalize_uppercases_beyond_ascii() {
    assert_eq!(normalize_text("café"), "CAFÉ");
}

#[test]
fn normalize_handles_unicode_whitespace() {
    // U+00A0 is whitespace but not ASCII; U+00A9 is neither alphanumeric
    // nor whitespace.
    assert_eq!(normalize_text("A\u{00A0}B"), "A B");
    assert_eq!(normalize_text("ACME\u{00A9} Corp"), "ACME CORP");
}

#[test]
fn edit_distance_is_symmetric_on_samples() {
    for (a, b) in [("NIKE", "ADIDAS"), ("", "ABC"), ("kitten", "sitting")] {
        assert_eq!(edit_distance(a, b), edit_distance(b, a));
    }
    assert_eq!(edit_distance("ADIDAS", "ADIDAS"), 0);
    assert_eq!(edit_distance("", ""), 0);
    assert_eq!(edit_distance("", "ABC"), 3);
}

#[test]
fn phonetic_match_is_symmetric_on_samples() {
    for (a, b) in [("SMITH", "SMYTH"), ("NIKE", "ADIDAS"), ("", "X")] {
        let fwd = phonetic_match(a, b);
        let back = phonetic_match(b, a);
        assert_eq!(fwd.is_some(), back.is_some());
        assert_eq!(fwd, back);
    }
}

#[test]
fn phonetic_codes_come_from_the_encoders() {
    let codes = compute_phonetics("NIKE");
    assert_eq!(codes.soundex.as_deref(), Some("N200"));
    assert_eq!(codes.metaphone.as_deref(), Some("NK"));
    let empty = compute_phonetics("");
    assert_eq!(empty.soundex, None);
    assert_eq!(empty.metaphone, None);
}

#[test]
fn phonetic_codes_absent_beyond_ascii() {
    let codes = compute_phonetics("CAFÉ");
    assert_eq!(codes.soundex, None);
    assert_eq!(codes.metaphone, None);
}

#[test]
fn dominant_term_empty_cases() {
    assert_eq!(extract_dominant_term(""), None);
    assert_eq!(extract_dominant_term("The Inc LLC"), None);
    assert_eq!(extract_dominant_term("the WIDGET co"), Some("WIDGET".to_string()));
}

#[test]
fn dominant_term_ties_go_to_the_earlier_word() {
    assert_eq!(extract_dominant_term("ALPHA BRAVO"), Some("ALPHA".to_string()));
}

#[test]
fn ngrams_short_text_yields_itself() {
    assert_eq!(generate_ngrams("A", 2), vec!["A"]);
    assert_eq!(generate_ngrams("", 3), vec![""]);
}

#[test]
fn class_overlap_keeps_duplicates_and_order() {
    assert_eq!(class_overlap(&[42, 9, 42], &[42]), vec![42, 42]);
    assert_eq!(class_overlap(&[], &[1, 2]), Vec::<u16>::new());
}
